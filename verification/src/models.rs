//! The records Recall stores: commands, their timestamps, and usage statistics.
use vstd::prelude::*;

use crate::platform::{home_dir, path_to_string};
use crate::text::{chars_of, decimal, i64_to_string, starts_with, starts_with_chars, string_of, sub_chars};

verus! {

// ── instants, as chrono sees them ───────────────────────────────────────────

/// Whether `chrono::DateTime::<Utc>::from_timestamp(secs, nanos)` gives an instant.
pub uninterp spec fn chrono_instant_exists(secs: i64, nanos: u32) -> bool;

/// What `to_rfc3339` writes for the UTC instant `(secs, nanos)`.
pub uninterp spec fn rfc3339_text(secs: i64, nanos: u32) -> Seq<char>;

/// What parsing `text` as a `DateTime<Utc>` gives, as `(secs, nanos)`.
pub uninterp spec fn parsed_instant(text: Seq<char>) -> Option<(i64, u32)>;

/// What `format(pattern)` writes for the UTC instant `(secs, nanos)`.
pub uninterp spec fn formatted_instant(secs: i64, nanos: u32, pattern: Seq<char>) -> Seq<char>;

/// `num_seconds()` of the `TimeDelta` from the instant `b` to the instant `a`.
pub uninterp spec fn seconds_between(a_secs: i64, a_nanos: u32, b_secs: i64, b_nanos: u32) -> i64;

/// Wraps `DateTime::<Utc>::from_timestamp`: an instant exists for `(secs, nanos)`
/// exactly when chrono accepts them, and its parts are then `(secs, nanos)`
/// again (chrono documents that the two round-trip).
#[verifier::external_body]
fn instant_from_parts(secs: i64, nanos: u32) -> (r: Option<(i64, u32)>)
    ensures
        r is Some <==> chrono_instant_exists(secs, nanos),
        r is Some ==> r->0 == (secs, nanos),
{
    chrono::DateTime::<chrono::Utc>::from_timestamp(secs, nanos).map(
        |d| (d.timestamp(), d.timestamp_subsec_nanos()),
    )
}

/// `std::time::SystemTime`, carried through opaquely.
#[verifier::external_type_specification]
#[verifier::external_body]
pub struct ExSystemTime(std::time::SystemTime);

/// Wraps `SystemTime::now`: the system clock's reading. It depends on the
/// clock, so nothing is stated of it.
#[verifier::external_body]
fn system_now() -> (r: std::time::SystemTime) {
    std::time::SystemTime::now()
}

/// Wraps `SystemTime::duration_since(UNIX_EPOCH)`: the whole seconds and the
/// nanoseconds past them since the Unix epoch, `None` when the time lies
/// before the epoch. A `Duration`'s sub-second part is always below one
/// second.
#[verifier::external_body]
fn since_unix_epoch(t: &std::time::SystemTime) -> (r: Option<(u64, u32)>)
    ensures
        r matches Some(p) ==> p.1 < 1_000_000_000,
{
    match t.duration_since(std::time::UNIX_EPOCH) {
        Ok(d) => Some((d.as_secs(), d.subsec_nanos())),
        Err(_) => None,
    }
}

/// Wraps `DateTime::<Utc>::default`, which chrono documents as the Unix epoch.
#[verifier::external_body]
fn epoch_instant() -> (r: (i64, u32))
    ensures
        r.0 == 0 && r.1 == 0,
        chrono_instant_exists(r.0, r.1),
{
    let d = chrono::DateTime::<chrono::Utc>::default();
    (d.timestamp(), d.timestamp_subsec_nanos())
}

/// Wraps `DateTime::<Utc>::to_rfc3339`.
#[verifier::external_body]
fn rfc3339_of(secs: i64, nanos: u32) -> (r: String)
    requires
        chrono_instant_exists(secs, nanos),
    ensures
        r@ == rfc3339_text(secs, nanos),
{
    chrono::DateTime::<chrono::Utc>::from_timestamp(secs, nanos).unwrap().to_rfc3339()
}

/// Wraps `str::parse::<DateTime<Utc>>`; what it accepts is an instant chrono accepts.
#[verifier::external_body]
fn parse_instant(text: &str) -> (r: Option<(i64, u32)>)
    ensures
        r == parsed_instant(text@),
        r matches Some(p) ==> chrono_instant_exists(p.0, p.1),
{
    text.parse::<chrono::DateTime<chrono::Utc>>().ok().map(
        |d| (d.timestamp(), d.timestamp_subsec_nanos()),
    )
}

/// The pattern Recall shows times with.
pub const TIME_PATTERN: &'static str = "%Y-%m-%d %H:%M:%S";

/// Wraps `DateTime::<Utc>::format(..).to_string()`, for Recall's own pattern.
#[verifier::external_body]
fn format_instant(secs: i64, nanos: u32, pattern: &str) -> (r: String)
    requires
        chrono_instant_exists(secs, nanos),
        pattern@ == TIME_PATTERN@,
    ensures
        r@ == formatted_instant(secs, nanos, pattern@),
{
    chrono::DateTime::<chrono::Utc>::from_timestamp(secs, nanos).unwrap().format(pattern).to_string()
}

/// Wraps `DateTime::signed_duration_since(..).num_seconds()`: the whole
/// seconds from instant `b` to instant `a`.
#[verifier::external_body]
fn whole_seconds_between(a_secs: i64, a_nanos: u32, b_secs: i64, b_nanos: u32) -> (r: i64)
    requires
        chrono_instant_exists(a_secs, a_nanos),
        chrono_instant_exists(b_secs, b_nanos),
    ensures
        r == seconds_between(a_secs, a_nanos, b_secs, b_nanos),
{
    let a = chrono::DateTime::<chrono::Utc>::from_timestamp(a_secs, a_nanos).unwrap();
    let b = chrono::DateTime::<chrono::Utc>::from_timestamp(b_secs, b_nanos).unwrap();
    a.signed_duration_since(b).num_seconds()
}

/// Whether a clock reading names an instant that chrono can hold.
pub open spec fn reading_fits(reading: Option<(u64, u32)>) -> bool {
    match reading {
        Some(p) => p.0 <= i64::MAX && chrono_instant_exists(p.0 as i64, p.1),
        None => false,
    }
}

/// The instant a clock reading stands for: the reading itself where chrono
/// can hold it, else the Unix epoch.
pub open spec fn clock_instant(reading: Option<(u64, u32)>) -> (i64, u32) {
    match reading {
        Some(p) => if reading_fits(reading) { (p.0 as i64, p.1) } else { (0, 0) },
        None => (0, 0),
    }
}

// ── Timestamp ───────────────────────────────────────────────────────────────

/// A UTC instant: seconds since the Unix epoch and nanoseconds past that
/// second, always a pair that chrono accepts. An instant read off the system
/// clock also remembers, as a ghost, the reading it was made from.
#[derive(Clone, Copy)]
pub struct Timestamp {
    secs: i64,
    nanos: u32,
    reading: Ghost<Option<Option<(u64, u32)>>>,
}

impl Timestamp {
    #[verifier::type_invariant]
    spec fn accepted(self) -> bool {
        chrono_instant_exists(self.secs, self.nanos)
    }

    pub closed spec fn unix_secs(self) -> i64 {
        self.secs
    }

    pub closed spec fn unix_nanos(self) -> u32 {
        self.nanos
    }

    /// The system clock reading this instant was made from, `None` for an
    /// instant that was not read off the clock.
    pub closed spec fn clock_reading(self) -> Option<Option<(u64, u32)>> {
        self.reading@
    }

    /// The instant `(secs, nanos)`, if chrono accepts it.
    pub fn from_unix(secs: i64, nanos: u32) -> (r: Option<Timestamp>)
        ensures
            r is Some <==> chrono_instant_exists(secs, nanos),
            r is Some ==> r->0.unix_secs() == secs && r->0.unix_nanos() == nanos,
    {
        match instant_from_parts(secs, nanos) {
            Some(_) => Some(Timestamp { secs, nanos, reading: Ghost(None) }),
            None => None,
        }
    }

    /// The current instant, as the system clock reads it; a clock set before
    /// the Unix epoch (or beyond what chrono can hold) reads as the epoch.
    /// The reading taken is kept with the instant.
    pub fn now() -> (r: Timestamp)
        ensures
            r.clock_reading() matches Some(rd) && r.unix_secs() == clock_instant(rd).0
                && r.unix_nanos() == clock_instant(rd).1,
    {
        let t = system_now();
        let reading = since_unix_epoch(&t);
        let r = Timestamp::from_clock_reading(reading);
        proof {
            use_type_invariant(&r);
        }
        Timestamp { secs: r.secs, nanos: r.nanos, reading: Ghost(Some(reading)) }
    }

    /// The instant a clock reading (seconds and nanoseconds since the epoch,
    /// `None` for a time before it) stands for, or the epoch when chrono cannot
    /// hold it.
    pub fn from_clock_reading(reading: Option<(u64, u32)>) -> (r: Timestamp)
        ensures
            reading_fits(reading) ==> (reading matches Some(p) && r.unix_secs() == p.0 && r.unix_nanos() == p.1),
            !reading_fits(reading) ==> r.unix_secs() == 0 && r.unix_nanos() == 0,
    {
        match reading {
            Some((secs, nanos)) => {
                if secs <= 0x7fff_ffff_ffff_ffffu64 {
                    match Timestamp::from_unix(secs as i64, nanos) {
                        Some(t) => t,
                        None => Timestamp::epoch(),
                    }
                } else {
                    Timestamp::epoch()
                }
            },
            None => Timestamp::epoch(),
        }
    }

    /// The Unix epoch, 1970-01-01T00:00:00Z.
    pub fn epoch() -> (r: Timestamp)
        ensures
            r.unix_secs() == 0 && r.unix_nanos() == 0,
    {
        let (secs, nanos) = epoch_instant();
        Timestamp { secs, nanos, reading: Ghost(None) }
    }

    pub fn secs(&self) -> (r: i64)
        ensures
            r == self.unix_secs(),
    {
        self.secs
    }

    pub fn nanos(&self) -> (r: u32)
        ensures
            r == self.unix_nanos(),
    {
        self.nanos
    }

    /// The RFC 3339 text of this instant, as it is stored.
    pub fn to_rfc3339(&self) -> (r: String)
        ensures
            r@ == rfc3339_text(self.unix_secs(), self.unix_nanos()),
    {
        proof {
            use_type_invariant(self);
        }
        rfc3339_of(self.secs, self.nanos)
    }

    /// Parses stored text back into an instant, falling back to the Unix epoch
    /// when the text is not a valid date-time.
    pub fn parse_or_epoch(text: &str) -> (r: Timestamp)
        ensures
            parsed_instant(text@) matches Some(p) ==> r.unix_secs() == p.0 && r.unix_nanos() == p.1,
            parsed_instant(text@) is None ==> r.unix_secs() == 0 && r.unix_nanos() == 0,
    {
        match parse_instant(text) {
            Some((secs, nanos)) => Timestamp { secs, nanos, reading: Ghost(None) },
            None => Timestamp::epoch(),
        }
    }

    /// The instant as `YYYY-MM-DD HH:MM:SS`.
    pub fn display(&self) -> (r: String)
        ensures
            r@ == formatted_instant(self.unix_secs(), self.unix_nanos(), TIME_PATTERN@),
    {
        proof {
            use_type_invariant(self);
        }
        format_instant(self.secs, self.nanos, TIME_PATTERN)
    }

    /// Whole seconds elapsed from `earlier` to `self` (negative if `earlier` is later).
    pub fn seconds_since(&self, earlier: &Timestamp) -> (r: i64)
        ensures
            r == seconds_between(self.unix_secs(), self.unix_nanos(), earlier.unix_secs(), earlier.unix_nanos()),
    {
        proof {
            use_type_invariant(self);
            use_type_invariant(earlier);
        }
        whole_seconds_between(self.secs, self.nanos, earlier.secs, earlier.nanos)
    }
}

// ── Command ─────────────────────────────────────────────────────────────────

/// A single logged command entry stored in the database.
pub struct Command {
    pub id: i64,
    pub command: String,
    pub timestamp: Timestamp,
    pub session_id: Option<String>,
    pub cwd: Option<String>,
    pub exit_code: i32,
    pub shell: Option<String>,
    pub hostname: Option<String>,
    pub metadata: Option<String>,
}

pub open spec fn opt_text(o: Option<String>) -> Option<Seq<char>> {
    match o {
        Some(s) => Some(s@),
        None => None,
    }
}

/// "s" unless the count is exactly one.
pub open spec fn plural_s(n: int) -> Seq<char> {
    if n == 1 {
        Seq::<char>::empty()
    } else {
        "s"@
    }
}

/// `"<n> <unit>[s] ago"`.
pub open spec fn ago_text(n: int, unit: Seq<char>) -> Seq<char> {
    decimal(n) + " "@ + unit + plural_s(n) + " ago"@
}

/// How long ago an event `secs` whole seconds in the past was, in the largest
/// unit (seconds, minutes, hours, days) that keeps the count below the next unit.
pub open spec fn relative_time_text(secs: int) -> Seq<char> {
    if secs < 60 {
        ago_text(secs, "second"@)
    } else if secs / 60 < 60 {
        ago_text(secs / 60, "minute"@)
    } else if secs / 3600 < 24 {
        ago_text(secs / 3600, "hour"@)
    } else {
        ago_text(secs / 86400, "day"@)
    }
}

/// A working directory as shown to the user: `—` when none was recorded, the
/// home directory prefix replaced with `~`, and otherwise unchanged.
pub open spec fn display_cwd_text(cwd: Option<Seq<char>>, home: Option<Seq<char>>) -> Seq<char> {
    match cwd {
        None => "—"@,
        Some(c) => if home is Some && starts_with(c, home->0) {
            "~"@ + c.skip(home->0.len() as int)
        } else {
            c
        },
    }
}

fn ago_string(n: i64, unit: &str) -> (r: String)
    ensures
        r@ == ago_text(n as int, unit@),
{
    let mut s = i64_to_string(n);
    s.append(" ");
    s.append(unit);
    if n != 1 {
        s.append("s");
    }
    s.append(" ago");
    proof {
        if n == 1 {
            assert(decimal(n as int) + " "@ + unit@ + plural_s(n as int) == decimal(n as int) + " "@ + unit@);
        }
    }
    s
}

/// Renders `secs` whole seconds as "3 minutes ago" and the like.
pub fn relative_time_from_seconds(secs: i64) -> (r: String)
    ensures
        r@ == relative_time_text(secs as int),
{
    if secs < 60 {
        return ago_string(secs, "second");
    }
    let mins = secs / 60;
    if mins < 60 {
        return ago_string(mins, "minute");
    }
    let hours = secs / 3600;
    if hours < 24 {
        return ago_string(hours, "hour");
    }
    ago_string(secs / 86400, "day")
}

impl Command {
    /// How long before `now` this command was logged, as "3 minutes ago" and the like.
    pub fn relative_time_at(&self, now: &Timestamp) -> (r: String)
        ensures
            r@ == relative_time_text(
                seconds_between(now.unix_secs(), now.unix_nanos(), self.timestamp.unix_secs(), self.timestamp.unix_nanos()) as int,
            ),
    {
        let secs = now.seconds_since(&self.timestamp);
        relative_time_from_seconds(secs)
    }

    /// Returns a human-readable relative time string such as "3 minutes ago".
    pub fn relative_time(&self) -> (r: String)
        ensures
            exists|now: Timestamp| r@ == relative_time_text(
                #[trigger] seconds_between(now.unix_secs(), now.unix_nanos(), self.timestamp.unix_secs(), self.timestamp.unix_nanos()) as int,
            ),
    {
        let now = Timestamp::now();
        self.relative_time_at(&now)
    }

    /// The working directory for display, given the home directory as text.
    pub fn display_cwd_with_home(&self, home: &Option<String>) -> (r: String)
        ensures
            r@ == display_cwd_text(opt_text(self.cwd), opt_text(*home)),
    {
        match &self.cwd {
            None => string_of(chars_of("—").as_slice()),
            Some(cwd) => {
                let c = chars_of(cwd.as_str());
                if let Some(h) = home {
                    let hc = chars_of(h.as_str());
                    if starts_with_chars(c.as_slice(), hc.as_slice()) {
                        let mut out = chars_of("~");
                        let rest = sub_chars(c.as_slice(), hc.len(), c.len());
                        let ghost before = out@;
                        crate::text::push_all(&mut out, rest.as_slice());
                        proof {
                            assert(out@ == before + c@.skip(hc@.len() as int));
                        }
                        return string_of(out.as_slice());
                    }
                }
                string_of(c.as_slice())
            },
        }
    }

    /// Returns the display-friendly working directory, replacing the home prefix
    /// with `~` (a home directory that is not valid Unicode counts as empty).
    pub fn display_cwd(&self) -> (r: String)
        ensures
            exists|home: Option<Seq<char>>| r@ == #[trigger] display_cwd_text(opt_text(self.cwd), home),
            self.cwd is None ==> r@ == "—"@,
    {
        let home = home_text();
        let r = self.display_cwd_with_home(&home);
        proof {
            assert(r@ == display_cwd_text(opt_text(self.cwd), opt_text(home)));
        }
        r
    }
}

/// The home directory as text, as working directories are compared with it:
/// `None` when there is no home directory, empty text when its path is not
/// valid Unicode. It depends on the environment.
pub fn home_text() -> (r: Option<String>) {
    let text = match home_dir() {
        None => None,
        Some(h) => Some(path_to_string(&h)),
    };
    home_text_from(text)
}

/// The home directory as text, given whether there is one and, if so, its
/// path as UTF-8 text (`None` when it is not valid Unicode): no home gives
/// `None`, a path that is not valid Unicode gives empty text.
pub fn home_text_from(home: Option<Option<String>>) -> (r: Option<String>)
    ensures
        home is None ==> r is None,
        home matches Some(Some(t)) ==> (r matches Some(u) && u@ == t@),
        home matches Some(None) ==> (r matches Some(u) && u@ == Seq::<char>::empty()),
{
    match home {
        None => None,
        Some(Some(t)) => Some(t),
        Some(None) => Some(String::new()),
    }
}

// ── Stats ───────────────────────────────────────────────────────────────────

/// Aggregated usage figures over all stored commands.
///
/// The error rate is `failed_commands` out of `total_commands`; it is left to
/// the caller to turn into a percentage.
#[derive(Debug)]
pub struct Stats {
    pub total_commands: u64,
    pub unique_commands: u64,
    /// Earliest and latest day, as `YYYY-MM-DD`.
    pub date_range: (String, String),
    /// Command text and how often it ran, most frequent first.
    pub top_commands: Vec<(String, u64)>,
    /// Hour of the day (0-23) and how many commands ran in it, by hour.
    pub most_active_hours: Vec<(u8, u64)>,
    /// Commands that exited with a non-zero code.
    pub failed_commands: u64,
    /// Working directory and how many commands ran there, most frequent first.
    pub top_directories: Vec<(String, u64)>,
}

} // verus!
