//! Character-level text operations over `Seq<char>`, with executable
//! counterparts over `Vec<char>` that are proved against them.
//!
//! The spec functions here describe the behaviour of the handful of `str`
//! operations that the library relies on (`char::is_whitespace`, `trim`,
//! `trim_end`, `contains`, `starts_with`, `lines`, `replace("\r\n", "\n")`,
//! `join`) and of the decimal rendering of integers.
use vstd::prelude::*;

verus! {

// ── whitespace and trimming ─────────────────────────────────────────────────

/// The Unicode `White_Space` property, which is what `char::is_whitespace` tests.
pub open spec fn is_ws(c: char) -> bool {
    let u = c as u32;
    ||| u == 0x20
    ||| (0x09 <= u && u <= 0x0d)
    ||| u == 0x85
    ||| u == 0xa0
    ||| u == 0x1680
    ||| (0x2000 <= u && u <= 0x200a)
    ||| u == 0x2028
    ||| u == 0x2029
    ||| u == 0x202f
    ||| u == 0x205f
    ||| u == 0x3000
}

/// `s` without its trailing whitespace (`str::trim_end`).
pub open spec fn trim_end(s: Seq<char>) -> Seq<char>
    decreases s.len(),
{
    if s.len() > 0 && is_ws(s.last()) {
        trim_end(s.drop_last())
    } else {
        s
    }
}

/// `s` without its leading whitespace (`str::trim_start`).
pub open spec fn trim_start(s: Seq<char>) -> Seq<char>
    decreases s.len(),
{
    if s.len() > 0 && is_ws(s[0]) {
        trim_start(s.drop_first())
    } else {
        s
    }
}

/// `s` without leading and trailing whitespace (`str::trim`).
pub open spec fn trim(s: Seq<char>) -> Seq<char> {
    trim_start(trim_end(s))
}

/// Whether `needle` occurs in `hay` as a contiguous block (`str::contains`).
pub open spec fn contains_seq(hay: Seq<char>, needle: Seq<char>) -> bool {
    exists|i: int| 0 <= i && i + needle.len() <= hay.len()
        && #[trigger] hay.subrange(i, i + needle.len()) == needle
}

/// Whether `s` begins with `prefix` (`str::starts_with`).
pub open spec fn starts_with(s: Seq<char>, prefix: Seq<char>) -> bool {
    prefix.len() <= s.len() && s.subrange(0, prefix.len() as int) == prefix
}

/// Whether `s` ends with `suffix` (`str::ends_with`).
pub open spec fn ends_with(s: Seq<char>, suffix: Seq<char>) -> bool {
    suffix.len() <= s.len() && s.subrange(s.len() - suffix.len(), s.len() as int) == suffix
}

/// Text placed between two others occurs in the whole.
pub proof fn lemma_contains_middle(a: Seq<char>, b: Seq<char>, c: Seq<char>)
    ensures
        contains_seq(a + b + c, b),
{
    let h = a + b + c;
    assert(h.subrange(a.len() as int, (a.len() + b.len()) as int) =~= b);
}

/// Text whose last character differs from that of `suffix` does not end with it.
pub proof fn lemma_ends_differently(s: Seq<char>, suffix: Seq<char>)
    requires
        s.len() > 0,
        suffix.len() > 0,
        s[s.len() - 1] != suffix[suffix.len() - 1],
    ensures
        !ends_with(s, suffix),
{
    if ends_with(s, suffix) {
        let t = s.subrange(s.len() - suffix.len(), s.len() as int);
        assert(t[suffix.len() - 1] == s[s.len() - 1]);
    }
}

/// Text placed at the end of another ends it.
pub proof fn lemma_ends_with_concat(a: Seq<char>, b: Seq<char>)
    ensures
        ends_with(a + b, b),
{
    assert((a + b).subrange(a.len() as int, (a + b).len() as int) =~= b);
}

// ── lines ───────────────────────────────────────────────────────────────────

/// `s.replace("\r\n", "\n")`: every CRLF pair, scanning left to right without
/// overlap, becomes a single LF.
pub open spec fn normalize_newlines(s: Seq<char>) -> Seq<char>
    decreases s.len(),
{
    if s.len() == 0 {
        s
    } else if s.len() >= 2 && s[0] == '\r' && s[1] == '\n' {
        seq!['\n'] + normalize_newlines(s.skip(2))
    } else {
        seq![s[0]] + normalize_newlines(s.skip(1))
    }
}

/// A line without the `\r` that ended it, if any.
pub open spec fn strip_cr(l: Seq<char>) -> Seq<char> {
    if l.len() > 0 && l.last() == '\r' {
        l.drop_last()
    } else {
        l
    }
}

/// One character of the line scanner: the finished lines and the line being read.
pub open spec fn scan_step(p: (Seq<Seq<char>>, Seq<char>), c: char) -> (Seq<Seq<char>>, Seq<char>) {
    if c == '\n' {
        (p.0.push(strip_cr(p.1)), seq![])
    } else {
        (p.0, p.1.push(c))
    }
}

/// The line scanner run over `s` from state `st`.
pub open spec fn scan_from(st: (Seq<Seq<char>>, Seq<char>), s: Seq<char>) -> (Seq<Seq<char>>, Seq<char>)
    decreases s.len(),
{
    if s.len() == 0 {
        st
    } else {
        scan_step(scan_from(st, s.drop_last()), s.last())
    }
}

pub open spec fn scan(s: Seq<char>) -> (Seq<Seq<char>>, Seq<char>) {
    scan_from((seq![], seq![]), s)
}

/// `str::lines`: lines end at `\n` (a `\r` just before it is dropped), the
/// final line needs no terminator, and no empty line follows a final `\n`.
pub open spec fn split_lines(s: Seq<char>) -> Seq<Seq<char>> {
    let p = scan(s);
    if p.1.len() == 0 {
        p.0
    } else {
        p.0.push(p.1)
    }
}

/// `lines.join("\n")`.
pub open spec fn join_lines(ls: Seq<Seq<char>>) -> Seq<char>
    decreases ls.len(),
{
    if ls.len() == 0 {
        seq![]
    } else if ls.len() == 1 {
        ls[0]
    } else {
        join_lines(ls.drop_last()) + seq!['\n'] + ls.last()
    }
}

/// The views of a sequence of character vectors.
pub open spec fn views(ls: Seq<Vec<char>>) -> Seq<Seq<char>> {
    Seq::new(ls.len(), |i: int| ls[i]@)
}

// ── facts about lines ───────────────────────────────────────────────────────

pub open spec fn has_no_cr(s: Seq<char>) -> bool {
    forall|i: int| 0 <= i < s.len() ==> s[i] != '\r'
}

pub open spec fn has_no_nl(s: Seq<char>) -> bool {
    forall|i: int| 0 <= i < s.len() ==> s[i] != '\n'
}

pub open spec fn has_no_crlf(s: Seq<char>) -> bool {
    forall|i: int| 0 <= i && i + 1 < s.len() ==> !(#[trigger] s[i] == '\r' && s[i + 1] == '\n')
}

pub open spec fn all_ws(s: Seq<char>) -> bool {
    forall|i: int| 0 <= i < s.len() ==> is_ws(s[i])
}

pub proof fn lemma_normalize_concat(a: Seq<char>, b: Seq<char>)
    requires
        a.len() == 0 || b.len() == 0 || a.last() != '\r' || b[0] != '\n',
    ensures
        normalize_newlines(a + b) == normalize_newlines(a) + normalize_newlines(b),
    decreases a.len(),
{
    if a.len() == 0 {
        assert(a + b == b);
        assert(normalize_newlines(a) + normalize_newlines(b) == normalize_newlines(b));
    } else if b.len() == 0 {
        assert(a + b == a);
        assert(normalize_newlines(a) + normalize_newlines(b) == normalize_newlines(a));
    } else if a.len() >= 2 && a[0] == '\r' && a[1] == '\n' {
        assert((a + b).skip(2) == a.skip(2) + b);
        lemma_normalize_concat(a.skip(2), b);
        assert((a + b)[0] == '\r' && (a + b)[1] == '\n');
    } else if a.len() == 1 {
        assert((a + b).skip(1) == b);
        assert((a + b)[0] == a[0]);
        assert((a + b)[1] == b[0]);
        assert(a.skip(1).len() == 0);
        assert(normalize_newlines(a) == seq![a[0]] + normalize_newlines(a.skip(1)));
        assert(normalize_newlines(a) =~= seq![a[0]]);
    } else {
        assert((a + b).skip(1) == a.skip(1) + b);
        lemma_normalize_concat(a.skip(1), b);
        assert((a + b)[0] == a[0] && (a + b)[1] == a[1]);
    }
}

pub proof fn lemma_normalize_no_crlf(s: Seq<char>)
    requires
        has_no_crlf(s),
    ensures
        normalize_newlines(s) == s,
    decreases s.len(),
{
    if s.len() > 0 {
        assert(!(s.len() >= 2 && s[0] == '\r' && s[1] == '\n'));
        assert(has_no_crlf(s.skip(1))) by {
            assert forall|i: int| 0 <= i && i + 1 < s.skip(1).len() implies !(#[trigger] s.skip(1)[i] == '\r'
                && s.skip(1)[i + 1] == '\n') by {
                assert(s.skip(1)[i] == s[i + 1] && s.skip(1)[i + 1] == s[i + 2]);
            }
        }
        lemma_normalize_no_crlf(s.skip(1));
        assert(seq![s[0]] + s.skip(1) =~= s);
    }
}

/// Normalising whitespace gives whitespace.
pub proof fn lemma_normalize_ws(s: Seq<char>)
    requires
        all_ws(s),
    ensures
        all_ws(normalize_newlines(s)),
    decreases s.len(),
{
    if s.len() >= 2 && s[0] == '\r' && s[1] == '\n' {
        assert(all_ws(s.skip(2)));
        lemma_normalize_ws(s.skip(2));
        assert(is_ws('\n'));
    } else if s.len() > 0 {
        assert(all_ws(s.skip(1)));
        lemma_normalize_ws(s.skip(1));
        assert(is_ws(s[0]));
    }
}

pub proof fn lemma_normalize_no_cr(s: Seq<char>)
    requires
        has_no_cr(s),
    ensures
        normalize_newlines(s) == s,
    decreases s.len(),
{
    if s.len() > 0 {
        assert(has_no_cr(s.skip(1)));
        lemma_normalize_no_cr(s.skip(1));
        assert(seq![s[0]] + s.skip(1) =~= s);
    }
}

pub proof fn lemma_normalize_last(s: Seq<char>)
    requires
        s.len() > 0,
    ensures
        normalize_newlines(s).len() > 0,
        normalize_newlines(s).last() == s.last(),
    decreases s.len(),
{
    if s.len() >= 2 && s[0] == '\r' && s[1] == '\n' {
        if s.len() > 2 {
            lemma_normalize_last(s.skip(2));
            assert(s.skip(2).last() == s.last());
        } else {
            assert(s.last() == '\n');
        }
    } else if s.len() > 1 {
        lemma_normalize_last(s.skip(1));
        assert(s.skip(1).last() == s.last());
        let n = seq![s[0]] + normalize_newlines(s.skip(1));
        assert(normalize_newlines(s) == n);
        assert(n.last() == normalize_newlines(s.skip(1)).last());
    } else {
        assert(s.skip(1) =~= Seq::<char>::empty());
        assert(normalize_newlines(s.skip(1)) == s.skip(1));
        assert(normalize_newlines(s) =~= seq![s[0]] + normalize_newlines(s.skip(1)));
    }
}

pub proof fn lemma_scan_concat(st: (Seq<Seq<char>>, Seq<char>), a: Seq<char>, b: Seq<char>)
    ensures
        scan_from(st, a + b) == scan_from(scan_from(st, a), b),
    decreases b.len(),
{
    if b.len() == 0 {
        assert(a + b == a);
    } else {
        assert((a + b).drop_last() == a + b.drop_last());
        assert((a + b).last() == b.last());
        lemma_scan_concat(st, a, b.drop_last());
    }
}

/// Scanning from a state with no partial line only appends the lines found.
pub proof fn lemma_scan_fresh(d: Seq<Seq<char>>, b: Seq<char>)
    ensures
        scan_from((d, seq![]), b) == (d + scan(b).0, scan(b).1),
    decreases b.len(),
{
    if b.len() == 0 {
        assert(d + seq![] == d);
    } else {
        lemma_scan_fresh(d, b.drop_last());
        let p = scan(b.drop_last());
        if b.last() == '\n' {
            assert(d + p.0.push(strip_cr(p.1)) == (d + p.0).push(strip_cr(p.1)));
        }
    }
}

/// The partial line, when there is one, ends with the last character read.
pub proof fn lemma_scan_cur_last(st: (Seq<Seq<char>>, Seq<char>), s: Seq<char>)
    requires
        s.len() > 0,
        s.last() != '\n',
    ensures
        scan_from(st, s).1.len() > 0,
        scan_from(st, s).1.last() == s.last(),
{
}

/// Scanning text with no newline only extends the partial line.
pub proof fn lemma_scan_no_nl(d: Seq<Seq<char>>, cur: Seq<char>, s: Seq<char>)
    requires
        has_no_nl(s),
    ensures
        scan_from((d, cur), s) == (d, cur + s),
    decreases s.len(),
{
    if s.len() == 0 {
        assert(cur + s == cur);
    } else {
        assert(has_no_nl(s.drop_last()));
        lemma_scan_no_nl(d, cur, s.drop_last());
        assert((cur + s.drop_last()).push(s.last()) == cur + s);
    }
}

/// A line with no newline, not ending in `\r`, followed by `\n`, scans as that one line.
pub proof fn lemma_scan_one_line(l: Seq<char>)
    requires
        has_no_nl(l),
        l.len() == 0 || l.last() != '\r',
    ensures
        scan(l + seq!['\n']) == (seq![l], Seq::<char>::empty()),
{
    lemma_scan_concat((seq![], seq![]), l, seq!['\n']);
    lemma_scan_no_nl(seq![], seq![], l);
    assert(Seq::<char>::empty() + l == l);
    lemma_scan_single((seq![], l), '\n');
    assert(strip_cr(l) == l);
    assert(Seq::<Seq<char>>::empty().push(l) == seq![l]);
}

/// Text that does not end in `\n` or `\r`, followed by `\n`: the scan holds its lines.
pub proof fn lemma_scan_text_then_nl(a: Seq<char>)
    requires
        a.len() > 0,
        a.last() != '\n',
        a.last() != '\r',
    ensures
        scan(a + seq!['\n']) == (split_lines(a), Seq::<char>::empty()),
{
    lemma_scan_concat((seq![], seq![]), a, seq!['\n']);
    lemma_scan_cur_last((seq![], seq![]), a);
    lemma_scan_single(scan(a), '\n');
}

pub proof fn lemma_scan_single(st: (Seq<Seq<char>>, Seq<char>), c: char)
    ensures
        scan_from(st, seq![c]) == scan_step(st, c),
{
    assert(seq![c].drop_last().len() == 0);
    assert(scan_from(st, seq![c].drop_last()) == st);
    assert(seq![c].last() == c);
}

/// Text that ends in `\n`: the scan leaves no partial line.
pub proof fn lemma_scan_ends_nl(a: Seq<char>)
    requires
        a.len() > 0,
        a.last() == '\n',
    ensures
        scan(a).1.len() == 0,
        split_lines(a) == scan(a).0,
{
}

pub proof fn lemma_split_lines_nonempty(a: Seq<char>)
    requires
        a.len() > 0,
    ensures
        split_lines(a).len() > 0,
{
}

pub proof fn lemma_join_push_empty(ls: Seq<Seq<char>>)
    requires
        ls.len() > 0,
    ensures
        join_lines(ls.push(seq![])) == join_lines(ls) + seq!['\n'],
{
    assert(ls.push(seq![]).drop_last() == ls);
    assert(join_lines(ls) + seq!['\n'] + Seq::<char>::empty() == join_lines(ls) + seq!['\n']);
}

pub proof fn lemma_trim_end_ws_suffix(x: Seq<char>, c: char)
    requires
        is_ws(c),
    ensures
        trim_end(x.push(c)) == trim_end(x),
{
    assert(x.push(c).drop_last() == x);
}

/// Scanning text with no CRLF and joining what it found gives the text back.
pub proof fn lemma_scan_join(s: Seq<char>)
    requires
        has_no_crlf(s),
    ensures
        join_lines(scan(s).0.push(scan(s).1)) == s,
    decreases s.len(),
{
    if s.len() == 0 {
        assert(seq![Seq::<char>::empty()].len() == 1);
    } else {
        let p = s.drop_last();
        assert(has_no_crlf(p)) by {
            assert forall|i: int| 0 <= i && i + 1 < p.len() implies !(#[trigger] p[i] == '\r' && p[i + 1]
                == '\n') by {
                assert(p[i] == s[i] && p[i + 1] == s[i + 1]);
            }
        }
        lemma_scan_join(p);
        let (d, cur) = scan(p);
        let x = s.last();
        assert(s == p.push(x));
        if x == '\n' {
            if cur.len() > 0 {
                lemma_scan_cur_last((seq![], seq![]), p);
                assert(s[p.len() - 1] == p.last());
                assert(s[p.len() as int] == '\n');
                assert(p.last() != '\r');
            }
            assert(strip_cr(cur) == cur);
            let ls = d.push(cur);
            assert(ls.push(seq![]).drop_last() == ls);
            assert(join_lines(ls.push(seq![])) == join_lines(ls) + seq!['\n'] + Seq::<char>::empty());
            assert(join_lines(ls) + seq!['\n'] + Seq::<char>::empty() == p.push('\n'));
        } else {
            let ls = d.push(cur.push(x));
            assert(ls.last() == cur.push(x));
            if d.len() == 0 {
                assert(ls.len() == 1);
                assert(d.push(cur).len() == 1);
                assert(join_lines(d.push(cur)) == cur);
            } else {
                assert(ls.drop_last() == d);
                assert(d.push(cur).drop_last() == d);
                assert(join_lines(ls) == join_lines(d) + seq!['\n'] + cur.push(x));
                assert(join_lines(d.push(cur)) == join_lines(d) + seq!['\n'] + cur);
                assert(join_lines(d) + seq!['\n'] + cur.push(x) == (join_lines(d) + seq!['\n']
                    + cur).push(x));
            }
        }
    }
}

pub proof fn lemma_trim_end_last(s: Seq<char>)
    ensures
        trim_end(s).len() > 0 ==> !is_ws(trim_end(s).last()),
    decreases s.len(),
{
    if s.len() > 0 && is_ws(s.last()) {
        lemma_trim_end_last(s.drop_last());
    }
}

/// `trim_end(s)` is a prefix of `s`, and what it leaves out is whitespace.
pub proof fn lemma_trim_end_split(s: Seq<char>)
    ensures
        trim_end(s).len() <= s.len(),
        trim_end(s) == s.subrange(0, trim_end(s).len() as int),
        all_ws(s.skip(trim_end(s).len() as int)),
        s == trim_end(s) + s.skip(trim_end(s).len() as int),
    decreases s.len(),
{
    if s.len() > 0 && is_ws(s.last()) {
        let p = s.drop_last();
        lemma_trim_end_split(p);
        let n = trim_end(s).len() as int;
        assert(p.subrange(0, n) == s.subrange(0, n));
        assert(s.skip(n) == p.skip(n).push(s.last()));
    } else {
        assert(s.subrange(0, s.len() as int) == s);
        assert(s.skip(s.len() as int).len() == 0);
    }
    assert(s =~= trim_end(s) + s.skip(trim_end(s).len() as int));
}

/// Trailing whitespace does not change `trim_end`.
pub proof fn lemma_trim_end_ws_tail(t: Seq<char>, z: Seq<char>)
    requires
        all_ws(z),
    ensures
        trim_end(t + z) == trim_end(t),
    decreases z.len(),
{
    if z.len() == 0 {
        assert(t + z == t);
    } else {
        assert((t + z).drop_last() == t + z.drop_last());
        assert((t + z).last() == z.last());
        assert(is_ws(z[z.len() - 1]));
        assert(all_ws(z.drop_last()));
        lemma_trim_end_ws_tail(t, z.drop_last());
    }
}

pub proof fn lemma_trim_end_idempotent(s: Seq<char>)
    ensures
        trim_end(trim_end(s)) == trim_end(s),
{
    lemma_trim_end_last(s);
}

/// The last line of a join ends the joined text.
pub proof fn lemma_join_last(ls: Seq<Seq<char>>)
    requires
        ls.len() > 0,
        ls.last().len() > 0,
    ensures
        join_lines(ls).len() > 0,
        join_lines(ls).last() == ls.last().last(),
{
}

/// Extending the last line extends the join by the same characters.
pub proof fn lemma_join_extend_last(ls: Seq<Seq<char>>, l: Seq<char>, z: Seq<char>)
    ensures
        join_lines(ls.push(l + z)) == join_lines(ls.push(l)) + z,
{
    if ls.len() == 0 {
        assert(ls.push(l + z).len() == 1);
        assert(ls.push(l).len() == 1);
    } else {
        assert(ls.push(l + z).drop_last() == ls);
        assert(ls.push(l).drop_last() == ls);
        assert(join_lines(ls) + seq!['\n'] + (l + z) == (join_lines(ls) + seq!['\n'] + l) + z);
    }
}

/// Scanning whitespace after text that ends in no whitespace: the joined lines
/// are that text followed by whitespace.
proof fn lemma_scan_ws_tail(t: Seq<char>, w: Seq<char>)
    requires
        has_no_crlf(t),
        t.len() == 0 || !is_ws(t.last()),
        all_ws(w),
    ensures
        ({
            let p = scan(t + w);
            exists|z: Seq<char>| all_ws(z) && #[trigger] join_lines(p.0.push(p.1)) == t + z
        }),
    decreases w.len(),
{
    if w.len() == 0 {
        assert(t + w == t);
        lemma_scan_join(t);
        assert(t + Seq::<char>::empty() == t);
        assert(all_ws(Seq::<char>::empty()));
    } else {
        let wp = w.drop_last();
        let x = w.last();
        assert(all_ws(wp));
        lemma_scan_ws_tail(t, wp);
        let (d, cur) = scan(t + wp);
        let z1 = choose|z: Seq<char>| all_ws(z) && #[trigger] join_lines(d.push(cur)) == t + z;
        assert((t + w).drop_last() == t + wp);
        assert((t + w).last() == x);
        assert(is_ws(w[w.len() - 1]));
        if x != '\n' {
            assert(scan(t + w) == (d, cur.push(x)));
            lemma_join_extend_last(d, cur, seq![x]);
            assert(cur + seq![x] == cur.push(x));
            let z2 = z1.push(x);
            assert(all_ws(z2));
            assert(t + z1 + seq![x] == t + z2);
            assert(join_lines(d.push(cur.push(x))) == t + z2);
        } else {
            let l = strip_cr(cur);
            assert(scan(t + w) == (d.push(l), Seq::<char>::empty()));
            let ls = d.push(l);
            assert(ls.push(seq![]).drop_last() == ls);
            assert(join_lines(ls.push(seq![])) == join_lines(ls) + seq!['\n'] + Seq::<char>::empty());
            if cur.len() > 0 && cur.last() == '\r' {
                // the CR that is dropped is whitespace after the text
                lemma_join_last(d.push(cur));
                assert((t + z1).last() == '\r');
                assert(z1.len() > 0);
                assert(cur == l + seq!['\r']);
                lemma_join_extend_last(d, l, seq!['\r']);
                assert(join_lines(ls) + seq!['\r'] == t + z1);
                let z2 = z1.drop_last().push('\n');
                assert(join_lines(ls) == (t + z1).drop_last());
                assert((t + z1).drop_last() == t + z1.drop_last());
                assert(all_ws(z2));
                assert(join_lines(ls) + seq!['\n'] + Seq::<char>::empty() =~= t + z2);
            } else {
                assert(l == cur);
                let z2 = z1.push('\n');
                assert(all_ws(z2));
                assert(join_lines(ls) + seq!['\n'] + Seq::<char>::empty() =~= t + z2);
            }
        }
    }
}

/// When the text before its trailing whitespace holds no CRLF, normalising it,
/// splitting it into lines and joining them again changes only trailing
/// whitespace.
pub proof fn lemma_lines_trim_end(c: Seq<char>)
    requires
        has_no_crlf(trim_end(c)),
    ensures
        trim_end(join_lines(split_lines(normalize_newlines(c)))) == trim_end(c),
{
    let t = trim_end(c);
    lemma_trim_end_split(c);
    lemma_trim_end_last(c);
    let w = c.skip(t.len() as int);
    assert(c == t + w);
    lemma_normalize_concat(t, w);
    lemma_normalize_no_crlf(t);
    lemma_normalize_ws(w);
    let w2 = normalize_newlines(w);
    assert(normalize_newlines(c) == t + w2);
    lemma_scan_ws_tail(t, w2);
    let (d, cur) = scan(t + w2);
    let z = choose|z: Seq<char>| all_ws(z) && #[trigger] join_lines(d.push(cur)) == t + z;
    lemma_trim_end_idempotent(c);
    if cur.len() > 0 {
        assert(split_lines(t + w2) == d.push(cur));
        lemma_trim_end_ws_tail(t, z);
    } else {
        assert(split_lines(t + w2) == d);
        if d.len() == 0 {
            assert(d.push(cur).len() == 1);
            assert(join_lines(d.push(cur)) == cur);
            assert(t + z == Seq::<char>::empty());
            assert(t.len() == 0);
            assert(join_lines(d).len() == 0);
        } else {
            lemma_join_push_empty(d);
            assert(d.push(cur) == d.push(Seq::<char>::empty()));
            assert(join_lines(d) + seq!['\n'] == t + z);
            if z.len() == 0 {
                assert((t + z).last() == '\n');
                assert(t.len() > 0);
                assert((t + z).last() == t.last());
                assert(is_ws('\n'));
                assert(false);
            }
            assert(join_lines(d) == (t + z).drop_last());
            assert((t + z).drop_last() == t + z.drop_last());
            assert(all_ws(z.drop_last()));
            lemma_trim_end_ws_tail(t, z.drop_last());
        }
    }
}

/// A text trims to nothing exactly when it is all whitespace.
pub proof fn lemma_trim_end_empty_iff(s: Seq<char>)
    ensures
        (trim_end(s).len() == 0) == all_ws(s),
{
    lemma_trim_end_split(s);
    if trim_end(s).len() == 0 {
        assert(s.skip(0) == s);
    }
    if all_ws(s) {
        lemma_trim_end_ws_tail(Seq::<char>::empty(), s);
        assert(Seq::<char>::empty() + s == s);
    }
}

/// Appending lines that are all whitespace changes the joined text only by
/// trailing whitespace.
pub proof fn lemma_join_ws_lines(k: Seq<Seq<char>>, ws: Seq<Seq<char>>)
    requires
        forall|i: int| 0 <= i < ws.len() ==> all_ws(#[trigger] ws[i]),
    ensures
        trim_end(join_lines(k + ws)) == trim_end(join_lines(k)),
    decreases ws.len(),
{
    if ws.len() == 0 {
        assert(k + ws == k);
    } else {
        let w0 = ws.drop_last();
        let l = ws.last();
        assert forall|i: int| 0 <= i < w0.len() implies all_ws(#[trigger] w0[i]) by {
            assert(w0[i] == ws[i]);
        }
        lemma_join_ws_lines(k, w0);
        assert(all_ws(ws[ws.len() - 1]));
        let m = k + w0;
        assert(k + ws == m.push(l));
        if m.len() == 0 {
            assert(m.push(l).len() == 1);
            assert(join_lines(m.push(l)) == l);
            lemma_trim_end_ws_tail(Seq::<char>::empty(), l);
            assert(Seq::<char>::empty() + l == l);
            assert(join_lines(m).len() == 0);
        } else {
            assert(m.push(l).drop_last() == m);
            let z = seq!['\n'] + l;
            assert(all_ws(z)) by {
                assert forall|i: int| 0 <= i < z.len() implies is_ws(z[i]) by {
                    if i > 0 {
                        assert(z[i] == l[i - 1]);
                    }
                }
            }
            assert(join_lines(m.push(l)) == join_lines(m) + seq!['\n'] + l);
            assert(join_lines(m) + seq!['\n'] + l == join_lines(m) + z);
            lemma_trim_end_ws_tail(join_lines(m), z);
        }
    }
}

// ── lines up to trailing whitespace ─────────────────────────────────────────

/// Two lists of lines that agree line by line once each line is trimmed.
pub open spec fn same_trimmed(a: Seq<Seq<char>>, b: Seq<Seq<char>>) -> bool {
    &&& a.len() == b.len()
    &&& forall|i: int| 0 <= i < a.len() ==> #[trigger] trim(a[i]) == trim(b[i])
}

/// Trailing whitespace does not change how a line trims.
pub proof fn lemma_trim_ws_tail(l: Seq<char>, z: Seq<char>)
    requires
        all_ws(z),
    ensures
        trim(l + z) == trim(l),
{
    lemma_trim_end_ws_tail(l, z);
}

/// Dropping a final `\r` does not change how a line trims.
pub proof fn lemma_trim_strip_cr(l: Seq<char>)
    ensures
        trim(strip_cr(l)) == trim(l),
{
    if l.len() > 0 && l.last() == '\r' {
        assert(l.drop_last().push('\r') == l);
        lemma_trim_end_ws_suffix(l.drop_last(), '\r');
    }
}

proof fn lemma_same_trimmed_push(a: Seq<Seq<char>>, b: Seq<Seq<char>>, x: Seq<char>, y: Seq<char>)
    requires
        same_trimmed(a, b),
        trim(x) == trim(y),
    ensures
        same_trimmed(a.push(x), b.push(y)),
{
    assert forall|i: int| 0 <= i < a.push(x).len() implies #[trigger] trim(a.push(x)[i]) == trim(b.push(y)[i]) by {
        if i < a.len() {
            assert(a.push(x)[i] == a[i]);
            assert(b.push(y)[i] == b[i]);
        }
    }
}

/// Normalising line endings changes the lines of a text only by trailing
/// whitespace, and leaves its unfinished last line as it is.
pub proof fn lemma_scan_normalize(s: Seq<char>)
    ensures
        scan(normalize_newlines(s)).1 == scan(s).1,
        same_trimmed(scan(normalize_newlines(s)).0, scan(s).0),
    decreases s.len(),
{
    if s.len() == 0 {
        assert(normalize_newlines(s) == s);
    } else {
        let p = s.drop_last();
        let x = s.last();
        assert(s == p + seq![x]);
        if x == '\n' && p.len() > 0 && p.last() == '\r' {
            let q = p.drop_last();
            assert(p == q + seq!['\r']);
            assert(s =~= q + seq!['\r', '\n']);
            lemma_scan_normalize(q);
            lemma_normalize_concat(q, seq!['\r', '\n']);
            let crlf = seq!['\r', '\n'];
            assert(crlf[0] == '\r' && crlf[1] == '\n');
            assert(crlf.skip(2) =~= Seq::<char>::empty());
            assert(normalize_newlines(crlf) == seq!['\n'] + normalize_newlines(Seq::<char>::empty()));
            assert(normalize_newlines(crlf) =~= seq!['\n']);
            let nq = normalize_newlines(q);
            let (d1, c1) = scan(nq);
            let (d2, c2) = scan(q);
            // the normalised text ends the line at the LF alone
            lemma_scan_concat((seq![], seq![]), nq, seq!['\n']);
            lemma_scan_single((d1, c1), '\n');
            // the text itself reads the CR into the line, then ends it
            assert(seq!['\r', '\n'] == seq!['\r'] + seq!['\n']);
            assert(q + seq!['\r', '\n'] =~= (q + seq!['\r']) + seq!['\n']);
            lemma_scan_concat((seq![], seq![]), q, seq!['\r']);
            lemma_scan_single((d2, c2), '\r');
            lemma_scan_concat((seq![], seq![]), q + seq!['\r'], seq!['\n']);
            lemma_scan_single((d2, c2.push('\r')), '\n');
            assert(strip_cr(c2.push('\r')) == c2) by {
                assert(c2.push('\r').drop_last() == c2);
            }
            lemma_trim_strip_cr(c1);
            lemma_same_trimmed_push(d1, d2, strip_cr(c1), c2);
        } else {
            lemma_scan_normalize(p);
            lemma_normalize_concat(p, seq![x]);
            assert(seq![x].skip(1) =~= Seq::<char>::empty());
            assert(normalize_newlines(seq![x]) == seq![seq![x][0]] + normalize_newlines(Seq::<char>::empty()));
            assert(normalize_newlines(seq![x]) =~= seq![x]);
            let np = normalize_newlines(p);
            lemma_scan_concat((seq![], seq![]), np, seq![x]);
            lemma_scan_concat((seq![], seq![]), p, seq![x]);
            lemma_scan_single(scan(np), x);
            lemma_scan_single(scan(p), x);
            if x == '\n' {
                lemma_same_trimmed_push(scan(np).0, scan(p).0, strip_cr(scan(np).1), strip_cr(scan(p).1));
            }
        }
    }
}

/// The lines that scanning finds, and the unfinished line, hold no newline.
pub proof fn lemma_scan_lines_no_nl(s: Seq<char>)
    ensures
        forall|i: int| 0 <= i < scan(s).0.len() ==> has_no_nl(#[trigger] scan(s).0[i]),
        has_no_nl(scan(s).1),
    decreases s.len(),
{
    if s.len() > 0 {
        let p = s.drop_last();
        lemma_scan_lines_no_nl(p);
        let (d, cur) = scan(p);
        if s.last() == '\n' {
            let l = strip_cr(cur);
            assert(has_no_nl(l)) by {
                assert forall|k: int| 0 <= k < l.len() implies l[k] != '\n' by {
                    assert(l[k] == cur[k]);
                }
            }
            assert forall|i: int| 0 <= i < d.push(l).len() implies has_no_nl(#[trigger] d.push(l)[i]) by {
                if i < d.len() {
                    assert(d.push(l)[i] == d[i]);
                }
            }
        } else {
            assert(has_no_nl(cur.push(s.last()))) by {
                assert forall|k: int| 0 <= k < cur.push(s.last()).len() implies cur.push(s.last())[k] != '\n' by {
                    if k < cur.len() {
                        assert(cur.push(s.last())[k] == cur[k]);
                    }
                }
            }
        }
    }
}

/// Scanning joined lines that hold no newline gives them back, each up to
/// trailing whitespace, the last one unfinished.
pub proof fn lemma_scan_join_lines(ls: Seq<Seq<char>>)
    requires
        ls.len() > 0,
        forall|i: int| 0 <= i < ls.len() ==> has_no_nl(#[trigger] ls[i]),
    ensures
        scan(join_lines(ls)).1 == ls.last(),
        same_trimmed(scan(join_lines(ls)).0, ls.drop_last()),
    decreases ls.len(),
{
    if ls.len() == 1 {
        assert(has_no_nl(ls[0]));
        lemma_scan_no_nl(seq![], seq![], ls[0]);
        assert(Seq::<char>::empty() + ls[0] == ls[0]);
    } else {
        let m = ls.drop_last();
        let l = ls.last();
        assert forall|i: int| 0 <= i < m.len() implies has_no_nl(#[trigger] m[i]) by {
            assert(m[i] == ls[i]);
        }
        assert(has_no_nl(ls[ls.len() - 1]));
        lemma_scan_join_lines(m);
        let (d, cur) = scan(join_lines(m));
        assert(join_lines(ls) == join_lines(m) + seq!['\n'] + l);
        lemma_scan_concat((seq![], seq![]), join_lines(m) + seq!['\n'], l);
        lemma_scan_concat((seq![], seq![]), join_lines(m), seq!['\n']);
        lemma_scan_single((d, cur), '\n');
        lemma_scan_no_nl(d.push(strip_cr(cur)), seq![], l);
        assert(Seq::<char>::empty() + l == l);
        lemma_trim_strip_cr(cur);
        lemma_same_trimmed_push(d, m.drop_last(), strip_cr(cur), m.last());
        assert(m.drop_last().push(m.last()) == m);
    }
}

/// Scanning whitespace after a text keeps the lines already found; the line
/// that was unfinished either stays so or is finished, and trims the same way.
pub proof fn lemma_scan_ws_suffix(t: Seq<char>, w: Seq<char>)
    requires
        all_ws(w),
    ensures
        ({
            let (dt, ct) = scan(t);
            let (ds, cs) = scan(t + w);
            &&& dt.len() <= ds.len()
            &&& forall|i: int| 0 <= i < dt.len() ==> #[trigger] ds[i] == dt[i]
            &&& ds.len() > dt.len() ==> trim(ds[dt.len() as int]) == trim(ct)
            &&& ds.len() == dt.len() ==> trim(cs) == trim(ct) && (ct.len() > 0 ==> cs.len() > 0)
        }),
    decreases w.len(),
{
    if w.len() == 0 {
        assert(t + w == t);
    } else {
        let w0 = w.drop_last();
        let x = w.last();
        assert(all_ws(w0));
        assert(is_ws(w[w.len() - 1]));
        lemma_scan_ws_suffix(t, w0);
        assert(t + w == (t + w0).push(x));
        assert((t + w).drop_last() == t + w0);
        let (dt, ct) = scan(t);
        let (d0, c0) = scan(t + w0);
        if x == '\n' {
            if d0.len() == dt.len() {
                lemma_trim_strip_cr(c0);
            }
            assert forall|i: int| 0 <= i < dt.len() implies #[trigger] d0.push(strip_cr(c0))[i] == dt[i] by {
                assert(d0.push(strip_cr(c0))[i] == d0[i]);
            }
        } else {
            if d0.len() == dt.len() {
                lemma_trim_ws_tail(c0, seq![x]);
                assert(c0 + seq![x] == c0.push(x));
            }
        }
    }
}

// ── text without carriage returns ───────────────────────────────────────────

/// Every `\r` in `s` is the first half of a CRLF.
pub open spec fn cr_paired(s: Seq<char>) -> bool {
    forall|i: int| 0 <= i < s.len() && #[trigger] s[i] == '\r' ==> i + 1 < s.len() && s[i + 1] == '\n'
}

/// Normalising text whose every `\r` begins a CRLF leaves no `\r`.
pub proof fn lemma_normalize_paired(s: Seq<char>)
    requires
        cr_paired(s),
    ensures
        has_no_cr(normalize_newlines(s)),
    decreases s.len(),
{
    if s.len() >= 2 && s[0] == '\r' && s[1] == '\n' {
        let t = s.skip(2);
        assert forall|i: int| 0 <= i < t.len() && #[trigger] t[i] == '\r' implies i + 1 < t.len() && t[i + 1] == '\n' by {
            assert(t[i] == s[i + 2]);
            assert(s[i + 2] == '\r');
        }
        lemma_normalize_paired(t);
        let n = seq!['\n'] + normalize_newlines(t);
        assert forall|i: int| 0 <= i < n.len() implies n[i] != '\r' by {
            if i > 0 {
                assert(n[i] == normalize_newlines(t)[i - 1]);
            }
        }
    } else if s.len() > 0 {
        assert(s[0] != '\r') by {
            if s[0] == '\r' {
                assert(0 + 1 < s.len() && s[1] == '\n');
            }
        }
        let t = s.skip(1);
        assert forall|i: int| 0 <= i < t.len() && #[trigger] t[i] == '\r' implies i + 1 < t.len() && t[i + 1] == '\n' by {
            assert(t[i] == s[i + 1]);
            assert(s[i + 1] == '\r');
        }
        lemma_normalize_paired(t);
        let n = seq![s[0]] + normalize_newlines(t);
        assert forall|i: int| 0 <= i < n.len() implies n[i] != '\r' by {
            if i > 0 {
                assert(n[i] == normalize_newlines(t)[i - 1]);
            }
        }
    }
}

/// Scanning text with no `\r` finds lines with no `\r`.
pub proof fn lemma_scan_lines_no_cr(s: Seq<char>)
    requires
        has_no_cr(s),
    ensures
        forall|i: int| 0 <= i < scan(s).0.len() ==> has_no_cr(#[trigger] scan(s).0[i]),
        has_no_cr(scan(s).1),
    decreases s.len(),
{
    if s.len() > 0 {
        let p = s.drop_last();
        assert(has_no_cr(p)) by {
            assert forall|k: int| 0 <= k < p.len() implies p[k] != '\r' by {
                assert(p[k] == s[k]);
            }
        }
        lemma_scan_lines_no_cr(p);
        let (d, cur) = scan(p);
        assert(s.last() == s[s.len() - 1]);
        if s.last() == '\n' {
            let l = strip_cr(cur);
            assert(has_no_cr(l)) by {
                assert forall|k: int| 0 <= k < l.len() implies l[k] != '\r' by {
                    assert(l[k] == cur[k]);
                }
            }
            assert forall|i: int| 0 <= i < d.push(l).len() implies has_no_cr(#[trigger] d.push(l)[i]) by {
                if i < d.len() {
                    assert(d.push(l)[i] == d[i]);
                }
            }
        } else {
            assert(has_no_cr(cur.push(s.last()))) by {
                assert forall|k: int| 0 <= k < cur.push(s.last()).len() implies cur.push(s.last())[k] != '\r' by {
                    if k < cur.len() {
                        assert(cur.push(s.last())[k] == cur[k]);
                    }
                }
            }
        }
    }
}

/// Joining lines with no `\r` gives text with no `\r`.
pub proof fn lemma_join_no_cr(ls: Seq<Seq<char>>)
    requires
        forall|i: int| 0 <= i < ls.len() ==> has_no_cr(#[trigger] ls[i]),
    ensures
        has_no_cr(join_lines(ls)),
    decreases ls.len(),
{
    if ls.len() == 1 {
        assert(has_no_cr(ls[0]));
    } else if ls.len() > 1 {
        let m = ls.drop_last();
        assert forall|i: int| 0 <= i < m.len() implies has_no_cr(#[trigger] m[i]) by {
            assert(m[i] == ls[i]);
        }
        lemma_join_no_cr(m);
        let l = ls.last();
        assert(has_no_cr(ls[ls.len() - 1]));
        let j = join_lines(m) + seq!['\n'] + l;
        assert forall|k: int| 0 <= k < j.len() implies j[k] != '\r' by {
            if k < join_lines(m).len() {
                assert(j[k] == join_lines(m)[k]);
            } else if k > join_lines(m).len() {
                assert(j[k] == l[k - join_lines(m).len() - 1]);
            }
        }
    }
}

// ── text without a given character ──────────────────────────────────────────

/// `c` does not occur in `s`.
pub open spec fn lacks(s: Seq<char>, c: char) -> bool {
    forall|i: int| 0 <= i < s.len() ==> #[trigger] s[i] != c
}

/// Scanning text without `c` finds lines without `c`.
pub proof fn lemma_scan_lines_lack(s: Seq<char>, c: char)
    requires
        lacks(s, c),
    ensures
        forall|i: int| 0 <= i < scan(s).0.len() ==> lacks(#[trigger] scan(s).0[i], c),
        lacks(scan(s).1, c),
    decreases s.len(),
{
    if s.len() > 0 {
        let p = s.drop_last();
        assert(lacks(p, c)) by {
            assert forall|k: int| 0 <= k < p.len() implies #[trigger] p[k] != c by {
                assert(p[k] == s[k]);
            }
        }
        lemma_scan_lines_lack(p, c);
        let (d, cur) = scan(p);
        assert(s.last() == s[s.len() - 1]);
        if s.last() == '\n' {
            let l = strip_cr(cur);
            assert(lacks(l, c)) by {
                assert forall|k: int| 0 <= k < l.len() implies #[trigger] l[k] != c by {
                    assert(l[k] == cur[k]);
                }
            }
            assert forall|i: int| 0 <= i < d.push(l).len() implies lacks(#[trigger] d.push(l)[i], c) by {
                if i < d.len() {
                    assert(d.push(l)[i] == d[i]);
                }
            }
        } else {
            let n = cur.push(s.last());
            assert(lacks(n, c)) by {
                assert forall|k: int| 0 <= k < n.len() implies #[trigger] n[k] != c by {
                    if k < cur.len() {
                        assert(n[k] == cur[k]);
                    }
                }
            }
        }
    }
}

/// `trim_start(s)` is what is left of `s` after some leading characters.
pub proof fn lemma_trim_start_suffix(s: Seq<char>)
    ensures
        trim_start(s).len() <= s.len(),
        trim_start(s) == s.skip(s.len() - trim_start(s).len()),
    decreases s.len(),
{
    if s.len() > 0 && is_ws(s[0]) {
        lemma_trim_start_suffix(s.drop_first());
        assert(s.drop_first().skip(s.drop_first().len() - trim_start(s).len()) =~= s.skip(
            s.len() - trim_start(s).len(),
        ));
    } else {
        assert(s.skip(0) =~= s);
    }
}

/// Trimming keeps out any character the text lacks.
pub proof fn lemma_trim_lacks(s: Seq<char>, c: char)
    requires
        lacks(s, c),
    ensures
        lacks(trim(s), c),
{
    lemma_trim_end_split(s);
    let e = trim_end(s);
    assert(lacks(e, c)) by {
        assert forall|k: int| 0 <= k < e.len() implies #[trigger] e[k] != c by {
            assert(e[k] == s[k]);
        }
    }
    lemma_trim_start_suffix(e);
    let t = trim(s);
    assert forall|k: int| 0 <= k < t.len() implies #[trigger] t[k] != c by {
        assert(t[k] == e[k + (e.len() - t.len())]);
    }
}

// ── decimal rendering ───────────────────────────────────────────────────────

pub open spec fn digit_char(d: nat) -> char {
    if d == 0 { '0' }
    else if d == 1 { '1' }
    else if d == 2 { '2' }
    else if d == 3 { '3' }
    else if d == 4 { '4' }
    else if d == 5 { '5' }
    else if d == 6 { '6' }
    else if d == 7 { '7' }
    else if d == 8 { '8' }
    else { '9' }
}

/// The decimal digits of `n`, most significant first, without leading zeros.
pub open spec fn digits(n: nat) -> Seq<char>
    decreases n,
{
    if n < 10 {
        seq![digit_char(n)]
    } else {
        digits(n / 10).push(digit_char(n % 10))
    }
}

/// How `to_string` renders a signed integer: a minus sign for negatives,
/// then the digits of the magnitude.
pub open spec fn decimal(n: int) -> Seq<char> {
    if n < 0 {
        seq!['-'] + digits((-n) as nat)
    } else {
        digits(n as nat)
    }
}

// ── trusted conversions between `str` and `Vec<char>` ───────────────────────

/// Wraps `str::chars` collected into a vector: the characters of `s` in order.
#[verifier::external_body]
pub(crate) fn chars_of(s: &str) -> (v: Vec<char>)
    ensures
        v@ == s@,
{
    s.chars().collect()
}

/// Wraps collecting characters into a `String` (`FromIterator<&char>`): the
/// string whose characters are exactly `v`, in order.
#[verifier::external_body]
pub(crate) fn string_of(v: &[char]) -> (s: String)
    ensures
        s@ == v@,
{
    v.iter().collect()
}

// ── executable helpers ──────────────────────────────────────────────────────

/// `char::is_whitespace`, written out.
pub fn char_is_ws(c: char) -> (b: bool)
    ensures
        b == is_ws(c),
{
    let u = c as u32;
    u == 0x20 || (0x09 <= u && u <= 0x0d) || u == 0x85 || u == 0xa0 || u == 0x1680
        || (0x2000 <= u && u <= 0x200a) || u == 0x2028 || u == 0x2029 || u == 0x202f
        || u == 0x205f || u == 0x3000
}

/// Appends every character of `src` to `dst`.
pub fn push_all(dst: &mut Vec<char>, src: &[char])
    ensures
        final(dst)@ == old(dst)@ + src@,
{
    let mut i: usize = 0;
    while i < src.len()
        invariant
            i <= src@.len(),
            dst@ == old(dst)@ + src@.take(i as int),
        decreases src@.len() - i,
    {
        dst.push(src[i]);
        i = i + 1;
        proof {
            assert(src@.take(i as int) == src@.take(i - 1).push(src@[i - 1]));
        }
    }
    proof {
        assert(src@.take(src@.len() as int) == src@);
    }
}

/// The subsequence of `v` between `from` and `to`.
pub fn sub_chars(v: &[char], from: usize, to: usize) -> (r: Vec<char>)
    requires
        from <= to <= v@.len(),
    ensures
        r@ == v@.subrange(from as int, to as int),
{
    let mut r: Vec<char> = Vec::new();
    let mut i: usize = from;
    while i < to
        invariant
            from <= i <= to <= v@.len(),
            r@ == v@.subrange(from as int, i as int),
        decreases to - i,
    {
        r.push(v[i]);
        i = i + 1;
        proof {
            assert(v@.subrange(from as int, i as int) == v@.subrange(from as int, i - 1).push(
                v@[i - 1],
            ));
        }
    }
    r
}

pub proof fn lemma_trim_end_step(s: Seq<char>, e: int)
    requires
        0 < e <= s.len(),
        is_ws(s[e - 1]),
    ensures
        trim_end(s.take(e)) == trim_end(s.take(e - 1)),
{
    assert(s.take(e).drop_last() == s.take(e - 1));
}

/// The length of `trim_end(v)`.
pub fn trim_end_len(v: &[char]) -> (e: usize)
    ensures
        e <= v@.len(),
        trim_end(v@) == v@.take(e as int),
{
    let mut e: usize = v.len();
    proof {
        assert(v@.take(v@.len() as int) == v@);
    }
    while e > 0 && char_is_ws(v[e - 1])
        invariant
            e <= v@.len(),
            trim_end(v@) == trim_end(v@.take(e as int)),
        decreases e,
    {
        proof {
            lemma_trim_end_step(v@, e as int);
        }
        e = e - 1;
    }
    proof {
        let t = v@.take(e as int);
        if t.len() > 0 {
            assert(t.last() == v@[e - 1]);
        }
    }
    e
}

pub proof fn lemma_trim_start_skip(s: Seq<char>, b: int)
    requires
        0 <= b < s.len(),
        is_ws(s[b]),
    ensures
        trim_start(s.skip(b)) == trim_start(s.skip(b + 1)),
{
    assert(s.skip(b).drop_first() == s.skip(b + 1));
}

/// The bounds of `trim(v)` inside `v`.
pub fn trim_bounds(v: &[char]) -> (r: (usize, usize))
    ensures
        r.0 <= r.1 <= v@.len(),
        trim(v@) == v@.subrange(r.0 as int, r.1 as int),
{
    let e = trim_end_len(v);
    let ghost t = v@.take(e as int);
    let mut b: usize = 0;
    proof {
        assert(t.skip(0) == t);
    }
    while b < e && char_is_ws(v[b])
        invariant
            b <= e <= v@.len(),
            t == v@.take(e as int),
            trim_start(t) == trim_start(t.skip(b as int)),
        decreases e - b,
    {
        proof {
            lemma_trim_start_skip(t, b as int);
        }
        b = b + 1;
    }
    proof {
        let u = t.skip(b as int);
        assert(u == v@.subrange(b as int, e as int));
        if u.len() > 0 {
            assert(u[0] == v@[b as int]);
        }
    }
    (b, e)
}

/// Whether `trim(line) == target`.
pub fn trimmed_equals(line: &[char], target: &[char]) -> (b: bool)
    ensures
        b == (trim(line@) == target@),
{
    let (s, e) = trim_bounds(line);
    if e - s != target.len() {
        return false;
    }
    let mut i: usize = 0;
    while i < target.len()
        invariant
            s <= e <= line@.len(),
            e - s == target@.len(),
            trim(line@) == line@.subrange(s as int, e as int),
            i <= target@.len(),
            forall|j: int| 0 <= j < i ==> line@[s + j] == target@[j],
        decreases target@.len() - i,
    {
        if line[s + i] != target[i] {
            proof {
                assert(trim(line@)[i as int] != target@[i as int]);
            }
            return false;
        }
        i = i + 1;
    }
    proof {
        assert(trim(line@) =~= target@);
    }
    true
}

/// Whether `needle` occurs in `hay` (`str::contains`).
pub fn contains_chars(hay: &[char], needle: &[char]) -> (b: bool)
    ensures
        b == contains_seq(hay@, needle@),
{
    if needle.len() > hay.len() {
        return false;
    }
    let hl = hay.len();
    let last = hl - needle.len();
    let mut i: usize = 0;
    loop
        invariant
            i <= last,
            hl == hay@.len(),
            last == hay@.len() - needle@.len(),
            needle@.len() <= hay@.len(),
            forall|k: int| 0 <= k < i ==> #[trigger] hay@.subrange(k, k + needle@.len()) != needle@,
        decreases last - i,
    {
        let mut j: usize = 0;
        let mut same = true;
        while j < needle.len()
            invariant
                i <= last,
                hl == hay@.len(),
                last == hay@.len() - needle@.len(),
                needle@.len() <= hay@.len(),
                j <= needle@.len(),
                same ==> forall|m: int| 0 <= m < j ==> hay@[i + m] == needle@[m],
                !same ==> hay@.subrange(i as int, i + needle@.len()) != needle@,
            decreases needle@.len() - j,
        {
            if same && hay[i + j] != needle[j] {
                same = false;
                proof {
                    assert(hay@.subrange(i as int, i + needle@.len())[j as int] == hay@[i + j]);
                }
            }
            j = j + 1;
        }
        if same {
            proof {
                assert(hay@.subrange(i as int, i + needle@.len()) =~= needle@);
            }
            return true;
        }
        if i == last {
            proof {
                assert forall|k: int|
                    0 <= k && k + needle@.len() <= hay@.len() implies #[trigger] hay@.subrange(
                    k,
                    k + needle@.len(),
                ) != needle@ by {
                    assert(k <= last);
                }
            }
            return false;
        }
        i = i + 1;
    }
}

/// Whether `prefix` begins `s` (`str::starts_with`).
pub fn starts_with_chars(s: &[char], prefix: &[char]) -> (b: bool)
    ensures
        b == starts_with(s@, prefix@),
{
    if prefix.len() > s.len() {
        return false;
    }
    let mut i: usize = 0;
    while i < prefix.len()
        invariant
            prefix@.len() <= s@.len(),
            i <= prefix@.len(),
            forall|j: int| 0 <= j < i ==> s@[j] == prefix@[j],
        decreases prefix@.len() - i,
    {
        if s[i] != prefix[i] {
            proof {
                assert(s@.subrange(0, prefix@.len() as int)[i as int] != prefix@[i as int]);
            }
            return false;
        }
        i = i + 1;
    }
    proof {
        assert(s@.subrange(0, prefix@.len() as int) =~= prefix@);
    }
    true
}

// ── lines, executable ───────────────────────────────────────────────────────

/// `replace("\r\n", "\n")` over characters.
pub fn normalize_vec(v: &[char]) -> (r: Vec<char>)
    ensures
        r@ == normalize_newlines(v@),
{
    let mut r: Vec<char> = Vec::new();
    let mut i: usize = 0;
    let n = v.len();
    proof {
        assert(v@.skip(0) == v@);
    }
    while i < n
        invariant
            n == v@.len(),
            i <= n,
            normalize_newlines(v@) == r@ + normalize_newlines(v@.skip(i as int)),
        decreases n - i,
    {
        let ghost rest = v@.skip(i as int);
        if i + 1 < n && v[i] == '\r' && v[i + 1] == '\n' {
            r.push('\n');
            proof {
                assert(rest.skip(2) == v@.skip(i + 2));
                assert(rest[0] == '\r' && rest[1] == '\n');
            }
            i = i + 2;
        } else {
            r.push(v[i]);
            proof {
                assert(rest.skip(1) == v@.skip(i + 1));
                assert(rest[0] == v@[i as int]);
                if rest.len() >= 2 {
                    assert(rest[1] == v@[i + 1]);
                }
            }
            i = i + 1;
        }
    }
    proof {
        assert(v@.skip(n as int).len() == 0);
        assert(r@ + seq![] == r@);
    }
    r
}

/// `str::lines` over characters.
pub fn split_lines_vec(v: &[char]) -> (r: Vec<Vec<char>>)
    ensures
        views(r@) == split_lines(v@),
{
    let mut done: Vec<Vec<char>> = Vec::new();
    let mut cur: Vec<char> = Vec::new();
    let mut i: usize = 0;
    let n = v.len();
    proof {
        assert(v@.take(0).len() == 0);
        assert(views(done@) =~= seq![]);
    }
    while i < n
        invariant
            n == v@.len(),
            i <= n,
            scan(v@.take(i as int)) == (views(done@), cur@),
        decreases n - i,
    {
        let c = v[i];
        proof {
            assert(v@.take(i + 1).drop_last() == v@.take(i as int));
            assert(v@.take(i + 1).last() == c);
        }
        if c == '\n' {
            let mut line = cur;
            let ll = line.len();
            if ll > 0 && line[ll - 1] == '\r' {
                line.pop();
            }
            let ghost old_done = views(done@);
            done.push(line);
            cur = Vec::new();
            proof {
                assert(views(done@) =~= old_done.push(line@));
            }
        } else {
            cur.push(c);
        }
        i = i + 1;
    }
    proof {
        assert(v@.take(n as int) == v@);
    }
    if cur.len() > 0 {
        let ghost old_done = views(done@);
        done.push(cur);
        proof {
            assert(views(done@) =~= old_done.push(cur@));
        }
    }
    done
}

/// `lines.join("\n")` over characters.
pub fn join_vec(ls: &Vec<Vec<char>>) -> (r: Vec<char>)
    ensures
        r@ == join_lines(views(ls@)),
{
    let mut r: Vec<char> = Vec::new();
    let mut i: usize = 0;
    let n = ls.len();
    proof {
        assert(views(ls@).take(0) =~= seq![]);
    }
    while i < n
        invariant
            n == ls@.len(),
            i <= n,
            r@ == join_lines(views(ls@).take(i as int)),
        decreases n - i,
    {
        let ghost t = views(ls@).take(i + 1);
        proof {
            assert(t.drop_last() == views(ls@).take(i as int));
            assert(t.last() == ls@[i as int]@);
        }
        if i > 0 {
            r.push('\n');
        }
        push_all(&mut r, ls[i].as_slice());
        proof {
            if i == 0 {
                assert(t.len() == 1);
                assert(r@ =~= t[0]);
            } else {
                assert(r@ =~= join_lines(t.drop_last()) + seq!['\n'] + t.last());
            }
        }
        i = i + 1;
    }
    proof {
        assert(views(ls@).take(n as int) == views(ls@));
    }
    r
}

// ── decimal rendering, executable ───────────────────────────────────────────

/// The decimal digits of `n` (`u64::to_string`).
pub fn u64_digits(n: u64) -> (r: Vec<char>)
    ensures
        r@ == digits(n as nat),
    decreases n,
{
    let d = n % 10;
    let c = if d == 0 { '0' }
        else if d == 1 { '1' }
        else if d == 2 { '2' }
        else if d == 3 { '3' }
        else if d == 4 { '4' }
        else if d == 5 { '5' }
        else if d == 6 { '6' }
        else if d == 7 { '7' }
        else if d == 8 { '8' }
        else { '9' };
    if n < 10 {
        let mut r: Vec<char> = Vec::new();
        r.push(c);
        proof {
            assert(r@ =~= seq![digit_char(n as nat)]);
        }
        r
    } else {
        let mut r = u64_digits(n / 10);
        r.push(c);
        r
    }
}

/// `i64::to_string` as characters.
pub fn i64_decimal(n: i64) -> (r: Vec<char>)
    ensures
        r@ == decimal(n as int),
{
    if n < 0 {
        let mag: u64 = if n == i64::MIN {
            9223372036854775808u64
        } else {
            (-n) as u64
        };
        let digits_v = u64_digits(mag);
        let mut r: Vec<char> = Vec::new();
        r.push('-');
        push_all(&mut r, digits_v.as_slice());
        proof {
            assert(r@ =~= seq!['-'] + digits((-(n as int)) as nat));
        }
        r
    } else {
        u64_digits(n as u64)
    }
}

/// `u64::to_string`.
pub fn u64_to_string(n: u64) -> (s: String)
    ensures
        s@ == decimal(n as int),
{
    let v = u64_digits(n);
    string_of(v.as_slice())
}

/// `i64::to_string`.
pub fn i64_to_string(n: i64) -> (s: String)
    ensures
        s@ == decimal(n as int),
{
    let v = i64_decimal(n);
    string_of(v.as_slice())
}

} // verus!
