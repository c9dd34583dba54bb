//! Rendering parameters of the tablature view, and the textual summary of
//! a parsed score.

use crate::music::Score;
use vstd::prelude::*;

verus! {

/// Layout parameters used when the tablature is drawn.
pub struct Renderer {
    pub measures_per_row: usize,
    pub dashes_per_division: usize,
}

impl Renderer {
    pub fn new(measures_per_row: usize, dashes_per_division: usize) -> (r: Renderer)
        ensures
            r.measures_per_row == measures_per_row,
            r.dashes_per_division == dashes_per_division,
    {
        Renderer { measures_per_row, dashes_per_division }
    }
}

/// The character of one decimal digit.
pub open spec fn spec_digit_char(d: int) -> char {
    if d == 0 {
        '0'
    } else if d == 1 {
        '1'
    } else if d == 2 {
        '2'
    } else if d == 3 {
        '3'
    } else if d == 4 {
        '4'
    } else if d == 5 {
        '5'
    } else if d == 6 {
        '6'
    } else if d == 7 {
        '7'
    } else if d == 8 {
        '8'
    } else {
        '9'
    }
}

/// The decimal spelling of a nonnegative number, most significant digit
/// first.
pub open spec fn spec_decimal(n: int) -> Seq<char>
    recommends
        n >= 0,
    decreases n,
{
    if n < 10 {
        seq![spec_digit_char(n)]
    } else {
        spec_decimal(n / 10) + seq![spec_digit_char(n % 10)]
    }
}

/// Appends the decimal spelling of `n` to `s`.
pub fn push_decimal(s: &mut String, n: u64)
    ensures
        final(s)@ == old(s)@ + spec_decimal(n as int),
    decreases n,
{
    if n >= 10 {
        push_decimal(s, n / 10);
    }
    let d: u64 = n % 10;
    let ds: &str = if d == 0 {
        "0"
    } else if d == 1 {
        "1"
    } else if d == 2 {
        "2"
    } else if d == 3 {
        "3"
    } else if d == 4 {
        "4"
    } else if d == 5 {
        "5"
    } else if d == 6 {
        "6"
    } else if d == 7 {
        "7"
    } else if d == 8 {
        "8"
    } else {
        "9"
    };
    proof {
        reveal_strlit("0");
        reveal_strlit("1");
        reveal_strlit("2");
        reveal_strlit("3");
        reveal_strlit("4");
        reveal_strlit("5");
        reveal_strlit("6");
        reveal_strlit("7");
        reveal_strlit("8");
        reveal_strlit("9");
        assert(ds@ =~= seq![spec_digit_char(d as int)]);
    }
    s.append(ds);
    proof {
        assert(s@ =~= old(s)@ + spec_decimal(n as int));
    }
}

/// The summary text of a score: time signature, tempo, the division
/// grid, and the measure count, one line each.
pub open spec fn spec_score_info(score: Score) -> Seq<char> {
    "Time signature: "@ + spec_decimal(score.time_signature.beats_per_measure as int) + "/"@
        + spec_decimal(score.time_signature.beat_value as int) + "\nTempo: "@ + spec_decimal(
        score.tempo as int,
    ) + "\nDivisions per quarter note: "@ + spec_decimal(score.divisions_per_quarter as int)
        + "\nDivisions per measure: "@ + spec_decimal(score.divisions_per_measure as int)
        + "\nNumber of measures: "@ + spec_decimal(score.measures@.len() as int)
}

/// Builds the summary text of a score.
pub fn score_info(score: &Score) -> (r: String)
    ensures
        r@ == spec_score_info(*score),
{
    let mut info = String::new();
    info.append("Time signature: ");
    push_decimal(&mut info, score.time_signature.beats_per_measure as u64);
    info.append("/");
    push_decimal(&mut info, score.time_signature.beat_value as u64);
    info.append("\nTempo: ");
    push_decimal(&mut info, score.tempo as u64);
    info.append("\nDivisions per quarter note: ");
    push_decimal(&mut info, score.divisions_per_quarter as u64);
    info.append("\nDivisions per measure: ");
    push_decimal(&mut info, score.divisions_per_measure as u64);
    info.append("\nNumber of measures: ");
    push_decimal(&mut info, score.measures.len() as u64);
    proof {
        assert(info@ =~= spec_score_info(*score));
    }
    info
}

} // verus!
