//! Where Recall keeps its data.
use vstd::prelude::*;

use crate::error::RecallErrors;
use crate::platform::{duplicate, home_dir, join_onto, path_exists, BuiltPath, Probes};

verus! {

/// The resolved paths that Recall uses at runtime.
pub struct Config {
    /// The directory where all Recall data lives (`~/.recall/` by default).
    pub data_dir: std::path::PathBuf,
    /// The SQLite database file inside it (`history.db`).
    pub db_path: std::path::PathBuf,
    /// How `data_dir` was built.
    data_built: Ghost<BuiltPath>,
    /// How `db_path` was built.
    db_built: Ghost<BuiltPath>,
    /// What `is_initialized` has looked for on disk.
    probes: Probes,
}

/// `c`'s paths are as `data_paths` builds them from `base`: the data
/// directory is `base` with `data` joined, the database file is `base` with
/// `data` and then `history.db` joined.
pub closed spec fn built_from(c: Config, base: std::path::PathBuf, data: Seq<Seq<char>>) -> bool {
    &&& c.data_built().value() == c.data_dir
    &&& c.db_built().value() == c.db_path
    &&& c.data_built().base() == base
    &&& c.data_built().joined() == data
    &&& c.db_built().base() == base
    &&& c.db_built().joined() == data.push("history.db"@)
}

impl Config {
    /// The data directory.
    pub closed spec fn data_dir_value(&self) -> std::path::PathBuf {
        self.data_dir
    }

    /// The database file.
    pub closed spec fn db_path_value(&self) -> std::path::PathBuf {
        self.db_path
    }

    /// How the data directory was built.
    pub closed spec fn data_built(&self) -> BuiltPath {
        self.data_built@
    }

    /// How the database path was built.
    pub closed spec fn db_built(&self) -> BuiltPath {
        self.db_built@
    }

    /// What `is_initialized` has looked for on disk, in order.
    pub closed spec fn probes(&self) -> Seq<(std::path::PathBuf, bool)> {
        self.probes.seen()
    }

    /// Resolves the data directory: `override_dir` when given (the value of
    /// `RECALL_DATA_DIR`), otherwise `.recall` under the home directory; the
    /// database is `history.db` inside it. Fails with `NoHomeDir` only when no
    /// override is given and the home directory cannot be determined.
    pub fn load(override_dir: Option<std::path::PathBuf>) -> (r: Result<Config, RecallErrors>)
        ensures
            override_dir matches Some(d) ==> (r matches Ok(c) && c.data_dir_value() == d && built_from(c, d, Seq::empty())),
            override_dir is None ==> (r matches Ok(c) ==> built_from(c, c.data_built().base(), seq![".recall"@])),
            r is Err ==> r matches Err(RecallErrors::NoHomeDir),
    {
        let home = if override_dir.is_some() {
            None
        } else {
            home_dir()
        };
        Config::from_dirs(override_dir, home)
    }

    /// The paths, given the override directory and the home directory (the
    /// latter only consulted without an override): data in the override, or
    /// in `.recall` under the home directory, and `history.db` inside it;
    /// `NoHomeDir` when neither is given.
    pub fn from_dirs(override_dir: Option<std::path::PathBuf>, home: Option<std::path::PathBuf>) -> (r: Result<Config, RecallErrors>)
        ensures
            override_dir matches Some(d) ==> (r matches Ok(c) && c.data_dir_value() == d && built_from(c, d, Seq::empty())),
            override_dir is None ==> (home matches Some(h) ==> (r matches Ok(c) && built_from(c, h, seq![".recall"@]))),
            override_dir is None && home is None ==> r matches Err(RecallErrors::NoHomeDir),
            r matches Ok(c) ==> c.probes() == Seq::<(std::path::PathBuf, bool)>::empty(),
    {
        match data_paths(override_dir, home) {
            Ok((d, b)) => {
                let ghost dg = d;
                let ghost bg = b;
                let data_dir = d.into_path();
                let db_path = b.into_path();
                let c = Config { data_dir, db_path, data_built: Ghost(dg), db_built: Ghost(bg), probes: Probes::new() };
                proof {
                    assert(Seq::<Seq<char>>::empty().push("history.db"@) =~= seq!["history.db"@]);
                    assert(seq![".recall"@].push("history.db"@) =~= seq![".recall"@, "history.db"@]);
                }
                Ok(c)
            },
            Err(e) => Err(e),
        }
    }

    /// Whether the data directory and the database file both exist on disk.
    /// It reads the disk and creates nothing: it looks for the data directory,
    /// then, only when that exists, for the database file.
    pub fn is_initialized(&mut self) -> (b: bool)
        ensures
            final(self).data_dir_value() == old(self).data_dir_value(),
            final(self).db_path_value() == old(self).db_path_value(),
            final(self).data_built() == old(self).data_built(),
            final(self).db_built() == old(self).db_built(),
            probed_setup(old(self).probes(), final(self).probes(), old(self).data_dir_value(), old(self).db_path_value(), b),
    {
        let ghost p0 = self.probes.seen();
        let dir = path_exists(&self.data_dir, &mut self.probes);
        let ghost p1 = self.probes.seen();
        let db = if dir {
            path_exists(&self.db_path, &mut self.probes)
        } else {
            false
        };
        proof {
            let n = p0.len() as int;
            assert(p1 == p0.push((self.data_dir, dir)));
            assert(p1[n] == (self.data_dir, dir));
            if dir {
                assert(self.probes.seen() == p1.push((self.db_path, db)));
                assert(self.probes.seen()[n] == p1[n]);
                assert(self.probes.seen().take(n) =~= p0);
            } else {
                assert(self.probes.seen().take(n) =~= p0);
            }
        }
        initialized(dir, db)
    }
}

/// The probes of one `is_initialized` call, from `before` to `after`: the data
/// directory, then the database file only when the directory was there, and
/// the answer `b` is whether both were.
pub open spec fn probed_setup(
    before: Seq<(std::path::PathBuf, bool)>,
    after: Seq<(std::path::PathBuf, bool)>,
    data_dir: std::path::PathBuf,
    db_path: std::path::PathBuf,
    b: bool,
) -> bool {
    let n = before.len() as int;
    &&& after.len() == n + (if after[n].1 { 2int } else { 1int })
    &&& after.take(n) == before
    &&& after[n].0 == data_dir
    &&& after[n].1 ==> after[n + 1].0 == db_path
    &&& b == (after[n].1 && after[n + 1].1)
}

/// The data directory and the database file, as built: the override itself,
/// or `.recall` joined onto the home directory; the database is `history.db`
/// joined onto the data directory. `NoHomeDir` when neither directory is given.
pub fn data_paths(override_dir: Option<std::path::PathBuf>, home: Option<std::path::PathBuf>) -> (r: Result<(BuiltPath, BuiltPath), RecallErrors>)
    ensures
        override_dir matches Some(d) ==> (r matches Ok(p) && p.0.base() == d && p.0.joined() == Seq::<Seq<char>>::empty()
            && p.0.value() == d
            && p.1.base() == d && p.1.joined() == seq!["history.db"@]),
        override_dir is None ==> (home matches Some(h) ==> (r matches Ok(p) && p.0.base() == h
            && p.0.joined() == seq![".recall"@]
            && p.1.base() == h && p.1.joined() == seq![".recall"@, "history.db"@])),
        override_dir is None && home is None ==> r matches Err(RecallErrors::NoHomeDir),
{
    let data = match override_dir {
        Some(d) => BuiltPath::from_base(d),
        None => match home {
            Some(h) => join_onto(BuiltPath::from_base(h), ".recall"),
            None => return Err(RecallErrors::NoHomeDir),
        },
    };
    let db = join_onto(duplicate(&data), "history.db");
    proof {
        assert(Seq::<Seq<char>>::empty().push("history.db"@) =~= seq!["history.db"@]);
        assert(Seq::<Seq<char>>::empty().push(".recall"@) =~= seq![".recall"@]);
        assert(seq![".recall"@].push("history.db"@) =~= seq![".recall"@, "history.db"@]);
    }
    Ok((data, db))
}

/// Recall is set up when its data directory and its database file both exist.
pub fn initialized(dir_exists: bool, db_exists: bool) -> (b: bool)
    ensures
        b == (dir_exists && db_exists),
{
    dir_exists && db_exists
}

} // verus!
