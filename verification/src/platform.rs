//! The few facts about the machine that Recall's logic consults: the home
//! directory, and paths on disk. Paths are carried through as `PathBuf`s.
use vstd::prelude::*;

verus! {

/// `std::path::PathBuf`, carried through opaquely.
#[verifier::external_type_specification]
#[verifier::external_body]
pub struct ExPathBuf(std::path::PathBuf);

/// Wraps `dirs::home_dir`: the user's home directory, when it can be found.
/// It depends on the environment, so nothing is stated of it.
#[verifier::external_body]
pub(crate) fn home_dir() -> (r: Option<std::path::PathBuf>) {
    dirs::home_dir()
}

/// Wraps `Path::to_str`: the path as UTF-8 text, `None` when it is not valid
/// Unicode. The path is opaque here, so nothing is stated of the text.
#[verifier::external_body]
pub(crate) fn path_to_string(p: &std::path::PathBuf) -> (r: Option<String>) {
    p.to_str().map(|s| s.to_string())
}

/// A path together with how the library built it: the path it started from
/// and the components joined onto it since, in order.
pub struct BuiltPath {
    path: std::path::PathBuf,
    base: Ghost<std::path::PathBuf>,
    joined: Ghost<Seq<Seq<char>>>,
}

impl BuiltPath {
    /// The path the building started from.
    pub closed spec fn base(&self) -> std::path::PathBuf {
        self.base@
    }

    /// The components joined onto the base, in order.
    pub closed spec fn joined(&self) -> Seq<Seq<char>> {
        self.joined@
    }

    /// The path built.
    pub closed spec fn value(&self) -> std::path::PathBuf {
        self.path
    }

    /// A path built from `p` alone, with nothing joined yet.
    pub fn from_base(p: std::path::PathBuf) -> (r: BuiltPath)
        ensures
            r.base() == p,
            r.joined() == Seq::<Seq<char>>::empty(),
            r.value() == p,
    {
        let ghost g = p;
        BuiltPath { path: p, base: Ghost(g), joined: Ghost(Seq::empty()) }
    }

    /// The path built.
    pub fn into_path(self) -> (p: std::path::PathBuf)
        ensures
            p == self.value(),
    {
        self.path
    }
}

/// Wraps `Path::join`: `b`'s path with `segment` joined onto it, recorded as
/// one more component joined onto the same base.
#[verifier::external_body]
pub(crate) fn join_onto(b: BuiltPath, segment: &str) -> (r: BuiltPath)
    ensures
        r.base() == b.base(),
        r.joined() == b.joined().push(segment@),
{
    BuiltPath { path: b.path.join(segment), base: b.base, joined: b.joined }
}

/// Wraps `PathBuf::clone`: the same path, built the same way.
#[verifier::external_body]
pub(crate) fn duplicate(b: &BuiltPath) -> (r: BuiltPath)
    ensures
        r.base() == b.base(),
        r.joined() == b.joined(),
{
    BuiltPath { path: b.path.clone(), base: b.base, joined: b.joined }
}

/// The record of what the library has looked for on disk: each path probed,
/// with whether something was there, in order.
pub struct Probes {
    seen: Ghost<Seq<(std::path::PathBuf, bool)>>,
}

impl Probes {
    /// The paths probed so far and the answers, in order.
    pub closed spec fn seen(&self) -> Seq<(std::path::PathBuf, bool)> {
        self.seen@
    }

    /// A record of nothing probed yet.
    pub fn new() -> (r: Probes)
        ensures
            r.seen() == Seq::<(std::path::PathBuf, bool)>::empty(),
    {
        Probes { seen: Ghost(Seq::empty()) }
    }
}

/// Wraps `Path::exists`: whether something is on disk at `p` right now,
/// recorded as one more probe. The answer depends on the disk, so nothing
/// more is stated of it.
#[verifier::external_body]
pub(crate) fn path_exists(p: &std::path::PathBuf, probes: &mut Probes) -> (r: bool)
    ensures
        final(probes).seen() == old(probes).seen().push((*p, r)),
{
    p.exists()
}

} // verus!
