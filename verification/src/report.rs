//! The human-readable report: one line per build, naming the job, the
//! link to the build and the status text.  These lines make up both the
//! notification body and the run's final summary.

use vstd::prelude::*;
use crate::hydra::{HydraBuild, spec_key, spec_status_text};

verus! {

/// The decimal digit character for a value below ten.
pub open spec fn spec_digit_char(d: nat) -> char {
    if d == 0 {
        '0'
    } else if d == 1 {
        '1'
    } else if d == 2 {
        '2'
    } else if d == 3 {
        '3'
    } else if d == 4 {
        '4'
    } else if d == 5 {
        '5'
    } else if d == 6 {
        '6'
    } else if d == 7 {
        '7'
    } else if d == 8 {
        '8'
    } else {
        '9'
    }
}

/// The decimal rendering of a number, most significant digit first, with
/// no leading zeros (a single `0` for zero).
pub open spec fn spec_dec(n: nat) -> Seq<char>
    decreases n,
{
    if n < 10 {
        seq![spec_digit_char(n)]
    } else {
        spec_dec(n / 10).push(spec_digit_char(n % 10))
    }
}

fn digit_str(d: u8) -> (r: &'static str)
    requires
        d < 10,
    ensures
        r@ == seq![spec_digit_char(d as nat)],
{
    proof {
        reveal_strlit("0");
        reveal_strlit("1");
        reveal_strlit("2");
        reveal_strlit("3");
        reveal_strlit("4");
        reveal_strlit("5");
        reveal_strlit("6");
        reveal_strlit("7");
        reveal_strlit("8");
        reveal_strlit("9");
        assert("0"@ =~= seq!['0']);
        assert("1"@ =~= seq!['1']);
        assert("2"@ =~= seq!['2']);
        assert("3"@ =~= seq!['3']);
        assert("4"@ =~= seq!['4']);
        assert("5"@ =~= seq!['5']);
        assert("6"@ =~= seq!['6']);
        assert("7"@ =~= seq!['7']);
        assert("8"@ =~= seq!['8']);
        assert("9"@ =~= seq!['9']);
    }
    match d {
        0 => "0",
        1 => "1",
        2 => "2",
        3 => "3",
        4 => "4",
        5 => "5",
        6 => "6",
        7 => "7",
        8 => "8",
        _ => "9",
    }
}

fn push_dec(n: u64, out: &mut String)
    ensures
        final(out)@ == old(out)@ + spec_dec(n as nat),
    decreases n,
{
    if n < 10 {
        out.append(digit_str(n as u8));
    } else {
        push_dec(n / 10, out);
        let ghost mid = out@;
        out.append(digit_str((n % 10) as u8));
        proof {
            assert(spec_dec(n as nat) =~= spec_dec((n as nat) / 10) + seq![
                spec_digit_char((n as nat) % 10),
            ]);
            assert(out@ =~= old(out)@ + spec_dec(n as nat));
        }
    }
}

/// The decimal text of a number.
pub fn u64_to_string(n: u64) -> (r: String)
    ensures
        r@ == spec_dec(n as nat),
{
    let mut out = String::new();
    push_dec(n, &mut out);
    out
}

/// One report line: the job's full name, the link to the build, and the
/// status text.
pub open spec fn spec_report_line(b: HydraBuild) -> Seq<char> {
    "- "@ + spec_key(b) + " - https://hydra.nixos.org/build/"@ + spec_dec(b.id as nat) + " - "@
        + spec_status_text(b.buildstatus)
}

pub fn build_report_line(b: &HydraBuild) -> (r: String)
    ensures
        r@ == spec_report_line(*b),
{
    let mut out = String::new();
    out.append("- ");
    let full_name = b.get_full_name();
    out.append(full_name.as_str());
    out.append(" - https://hydra.nixos.org/build/");
    let id_text = u64_to_string(b.id);
    out.append(id_text.as_str());
    out.append(" - ");
    out.append(b.build_status_to_str());
    out
}

/// The notification body for the chosen builds: their report lines, each
/// ended by a newline, in the order chosen.
pub open spec fn spec_report_lines(builds: Seq<HydraBuild>, chosen: Seq<usize>) -> Seq<char>
    decreases chosen.len(),
{
    if chosen.len() == 0 {
        Seq::empty()
    } else {
        spec_report_lines(builds, chosen.drop_last()) + spec_report_line(
            builds[chosen.last() as int],
        ) + "\n"@
    }
}

pub fn build_email_content(builds: &Vec<HydraBuild>, chosen: &Vec<usize>) -> (r: String)
    requires
        forall|k: int| 0 <= k < chosen@.len() ==> chosen@[k] < builds@.len(),
    ensures
        r@ == spec_report_lines(builds@, chosen@),
{
    let mut out = String::new();
    let mut k: usize = 0;
    while k < chosen.len()
        invariant
            k <= chosen@.len(),
            forall|j: int| 0 <= j < chosen@.len() ==> chosen@[j] < builds@.len(),
            out@ == spec_report_lines(builds@, chosen@.take(k as int)),
        decreases chosen@.len() - k,
    {
        let idx = chosen[k];
        let line = build_report_line(&builds[idx]);
        out.append(line.as_str());
        out.append("\n");
        proof {
            assert(chosen@.take(k + 1).drop_last() =~= chosen@.take(k as int));
            assert(chosen@.take(k + 1).last() == chosen@[k as int]);
            assert(out@ =~= spec_report_lines(builds@, chosen@.take(k + 1)));
        }
        k = k + 1;
    }
    proof {
        assert(chosen@.take(chosen@.len() as int) =~= chosen@);
    }
    out
}

} // verus!
