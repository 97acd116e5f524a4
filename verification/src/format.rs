//! The parts of Recall's tables and dashboards that are computed rather than
//! styled: cell texts and bar lengths.
use vstd::prelude::*;

use crate::commands::{csv_header, csv_header_fields, csv_record, csv_record_fields, string_views};
use crate::error::RecallErrors;
use crate::models::{opt_text, Command};
use crate::text::{decimal, i64_to_string};

verus! {

/// The number of filled cells in a bar of `width` cells for `value` out of
/// `max`: `value / max * width` rounded to the nearest whole cell, halves up;
/// none when `max` is zero.
pub open spec fn bar_filled(value: nat, max: nat, width: nat) -> nat {
    if max == 0 {
        0
    } else {
        let p = value * width;
        (p / max + (if 2 * (p % max) >= max { 1nat } else { 0nat })) as nat
    }
}

/// The cells of the bar left empty: the rest of the width, if any.
pub open spec fn bar_empty(value: nat, max: nat, width: nat) -> nat {
    let f = bar_filled(value, max, width);
    if f <= width { (width - f) as nat } else { 0 }
}

pub open spec fn repeated(c: char, n: nat) -> Seq<char> {
    Seq::new(n, |i: int| c)
}

fn repeat_char(c: char, n: usize) -> (s: String)
    ensures
        s@ == repeated(c, n as nat),
{
    let mut v: Vec<char> = Vec::new();
    let mut i: usize = 0;
    while i < n
        invariant
            i <= n,
            v@ == repeated(c, i as nat),
        decreases n - i,
    {
        v.push(c);
        i = i + 1;
        proof {
            assert(v@ =~= repeated(c, i as nat));
        }
    }
    crate::text::string_of(v.as_slice())
}

/// Renders a bar of `width` cells for `value` out of `max`: the filled part
/// (`█`) and the empty remainder (`░`), returned apart so that each can be
/// styled. A value above `max` fills more than the width and leaves nothing
/// empty; a zero `max` fills nothing.
pub fn render_bar(value: u64, max: u64, width: usize) -> (r: (String, String))
    requires
        max > 0 || value == 0 || width == 0,
        bar_filled(value as nat, max as nat, width as nat) <= usize::MAX,
    ensures
        r.0@ == repeated('█', bar_filled(value as nat, max as nat, width as nat)),
        r.1@ == repeated('░', bar_empty(value as nat, max as nat, width as nat)),
{
    if max == 0 {
        return (repeat_char('█', 0), repeat_char('░', width));
    }
    let v: u128 = value as u128;
    let w: u128 = width as u128;
    proof {
        assert(v * w <= 0xffff_ffff_ffff_ffffu128 * 0xffff_ffff_ffff_ffffu128) by (nonlinear_arith)
            requires
                v <= 0xffff_ffff_ffff_ffffu128,
                w <= 0xffff_ffff_ffff_ffffu128;
    }
    let p: u128 = v * w;
    let m: u128 = max as u128;
    let q: u128 = p / m;
    let rem: u128 = p % m;
    let up: u128 = if 2 * rem >= m { 1 } else { 0 };
    proof {
        assert(p == value * width) by (nonlinear_arith)
            requires
                p == v * w,
                v == value,
                w == width;
        assert(q * m + rem == p && rem < m) by (nonlinear_arith)
            requires
                q == p / m,
                rem == p % m,
                m > 0;
        assert(q + up == bar_filled(value as nat, max as nat, width as nat));
    }
    let filled: usize = (q + up) as usize;
    let empty: usize = if filled <= width { width - filled } else { 0 };
    (repeat_char('█', filled), repeat_char('░', empty))
}

/// Law: a value no greater than a positive maximum fills at most the width,
/// and the filled and empty cells together make up exactly the width.
pub proof fn law_bar_fills_width(value: nat, max: nat, width: nat)
    requires
        0 < max,
        value <= max,
    ensures
        bar_filled(value, max, width) <= width,
        bar_filled(value, max, width) + bar_empty(value, max, width) == width,
{
    let p = value * width;
    let q = p / max;
    let rem = p % max;
    assert(q * max + rem == p && 0 <= rem < max) by (nonlinear_arith)
        requires
            q == p / max,
            rem == p % max,
            max > 0;
    assert(p <= max * width) by (nonlinear_arith)
        requires
            p == value * width,
            value <= max;
    let up: nat = if 2 * rem >= max { 1 } else { 0 };
    assert(q + up <= width) by (nonlinear_arith)
        requires
            q * max + rem == p,
            0 <= rem < max,
            p <= max * width,
            up == (if 2 * rem >= max { 1nat } else { 0nat }),
            max > 0;
}

/// The exit-code cell: a tick for success, the code itself otherwise.
pub open spec fn exit_cell_text(exit_code: i32) -> Seq<char> {
    if exit_code == 0 { "✓"@ } else { decimal(exit_code as int) }
}

pub fn exit_cell(exit_code: i32) -> (s: String)
    ensures
        s@ == exit_cell_text(exit_code),
{
    if exit_code == 0 {
        "✓".to_owned()
    } else {
        i64_to_string(exit_code as i64)
    }
}

/// The shell cell: the recorded shell, or `?` when none was recorded.
pub fn shell_cell(shell: &Option<String>) -> (s: String)
    ensures
        opt_text(*shell) matches Some(t) ==> s@ == t,
        shell is None ==> s@ == "?"@,
{
    match shell {
        Some(t) => t.clone(),
        None => "?".to_owned(),
    }
}

/// The count a chart of hour counts is scaled by: the largest count, or one
/// when there are none.
pub fn busiest_hour_count(hours: &Vec<(u8, u64)>) -> (m: u64)
    ensures
        hours@.len() == 0 ==> m == 1,
        hours@.len() > 0 ==> exists|i: int| 0 <= i < hours@.len() && m == hours@[i].1,
        forall|i: int| 0 <= i < hours@.len() ==> hours@[i].1 <= m,
{
    if hours.len() == 0 {
        return 1;
    }
    let mut m: u64 = hours[0].1;
    let mut i: usize = 1;
    while i < hours.len()
        invariant
            1 <= i <= hours@.len(),
            exists|k: int| 0 <= k < i && m == hours@[k].1,
            forall|k: int| 0 <= k < i ==> hours@[k].1 <= m,
        decreases hours@.len() - i,
    {
        if hours[i].1 > m {
            m = hours[i].1;
        }
        i = i + 1;
    }
    m
}

// ── CSV ─────────────────────────────────────────────────────────────────────

/// Names the text that a `csv::Writer` with its default settings, writing
/// into a fresh buffer, produces for one record with these fields, record
/// terminator included.
pub uninterp spec fn csv_record_text(fields: Seq<Seq<char>>) -> Seq<char>;

/// Wraps `csv::Writer::write_record` on a fresh in-memory writer, followed by
/// `Writer::into_inner`: the text written, which is a function of the fields
/// alone. Writing one record into a fresh `Vec<u8>` does not fail: the buffer
/// takes every write, and a first record cannot have a field count that
/// differs from an earlier one.
#[verifier::external_body]
fn csv_encode_record(fields: &Vec<String>) -> (r: Result<String, csv::Error>)
    ensures
        r is Ok,
        r matches Ok(t) ==> t@ == csv_record_text(string_views(fields@)),
{
    let mut w = csv::Writer::from_writer(Vec::new());
    w.write_record(fields)?;
    let bytes = match w.into_inner() {
        Ok(b) => b,
        Err(e) => return Err(csv::Error::from(e.into_error())),
    };
    Ok(String::from_utf8_lossy(&bytes).into_owned())
}

/// The CSV text of the data rows for `cs`, one record per command, in order.
pub open spec fn csv_rows_text(cs: Seq<Command>) -> Seq<char>
    decreases cs.len(),
{
    if cs.len() == 0 {
        Seq::<char>::empty()
    } else {
        csv_rows_text(cs.drop_last()) + csv_record_text(csv_record_fields(cs.last()))
    }
}

/// The commands as CSV: the header row, then one row per command. Optional
/// fields are written as empty strings. Writing into memory always succeeds.
pub fn csv_text(commands: &[Command]) -> (r: Result<String, RecallErrors>)
    ensures
        r matches Ok(t) && t@ == csv_record_text(csv_header_fields()) + csv_rows_text(commands@),
{
    let header = csv_header();
    let mut out = match csv_encode_record(&header) {
        Ok(t) => t,
        Err(e) => return Err(RecallErrors::Csv(e)),
    };
    let mut i: usize = 0;
    proof {
        assert(commands@.take(0) =~= Seq::<Command>::empty());
    }
    while i < commands.len()
        invariant
            i <= commands@.len(),
            out@ == csv_record_text(csv_header_fields()) + csv_rows_text(commands@.take(i as int)),
        decreases commands@.len() - i,
    {
        let rec = csv_record(&commands[i]);
        let t = match csv_encode_record(&rec) {
            Ok(t) => t,
            Err(e) => return Err(RecallErrors::Csv(e)),
        };
        let ghost before = out@;
        out.append(t.as_str());
        proof {
            let p = commands@.take(i + 1);
            assert(p.drop_last() == commands@.take(i as int));
            assert(p.last() == commands@[i as int]);
            assert(out@ == before + t@);
        }
        i = i + 1;
    }
    proof {
        assert(commands@.take(commands@.len() as int) == commands@);
    }
    Ok(out)
}

} // verus!
