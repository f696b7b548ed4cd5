use vstd::prelude::*;

use crate::text::str_equal;
use chrono::NaiveDateTime;

verus! {

/// chrono's date and time without a time zone, carried through as it is.
#[verifier::external_type_specification]
#[verifier::external_body]
pub struct ExNaiveDateTime(chrono::NaiveDateTime);

/// What `chrono::NaiveDateTime::parse_from_str(text, format)` returns when it succeeds: the
/// date and time that `text` spells in `format`; `None` when it fails.
pub uninterp spec fn naive_parse(text: Seq<char>, format: Seq<char>) -> Option<NaiveDateTime>;

/// Calls `chrono::NaiveDateTime::parse_from_str`. Its result depends on the text and the
/// format alone; the contract names it and says nothing of which texts parse.
#[verifier::external_body]
fn parse_naive(text: &str, format: &str) -> (r: Option<NaiveDateTime>)
    ensures
        r == naive_parse(text@, format@),
{
    NaiveDateTime::parse_from_str(text, format).ok()
}

/// The line of a `.dsc` description that the start time of a frame follows (after one line).
pub open spec fn start_time_marker() -> Seq<char> {
    "\"Start time (string)\" (\"Acquisition start time (string)\"):"@
}

/// The text that stands for a missing time: chrono's default date and time, displayed.
pub open spec fn missing_time_text() -> Seq<char> {
    "1970-01-01 00:00:00"@
}

/// How the start times are written: `Mon Jan 02 13:45:30.123 2023`.
pub open spec fn start_time_format() -> Seq<char> {
    "%a %b %d %H:%M:%S%.f %Y"@
}

/// The texts of the start times that a `.dsc` description holds: for each marker line, the
/// line two below it (the missing-time text where the description ends before it); the
/// search goes on after that line.
pub open spec fn dsc_time_texts(lines: Seq<Seq<char>>) -> Seq<Seq<char>>
    decreases lines.len(),
{
    if lines.len() == 0 {
        seq![]
    } else if lines[0] == start_time_marker() {
        if lines.len() >= 3 {
            seq![lines[2]] + dsc_time_texts(lines.skip(3))
        } else {
            seq![missing_time_text()]
        }
    } else {
        dsc_time_texts(lines.skip(1))
    }
}

/// The start times of the frames that a `.dsc` description (given as its lines) lists, in
/// order; `None` where a time does not parse (the frame then gets chrono's default time).
pub fn get_timestamps(lines: &Vec<String>) -> (times: Vec<Option<NaiveDateTime>>)
    ensures
        times.len() == dsc_time_texts(lines.deep_view()).len(),
        forall|i: int|
            0 <= i < times.len() ==> #[trigger] times@[i] == naive_parse(
                dsc_time_texts(lines.deep_view())[i],
                start_time_format(),
            ),
{
    let ghost ls = lines.deep_view();
    let ghost mut texts: Seq<Seq<char>> = seq![];
    let mut times: Vec<Option<NaiveDateTime>> = Vec::new();
    let marker = "\"Start time (string)\" (\"Acquisition start time (string)\"):";
    let format = "%a %b %d %H:%M:%S%.f %Y";
    let missing = "1970-01-01 00:00:00";
    let mut i: usize = 0;
    assert(ls.skip(0) =~= ls);
    while i < lines.len()
        invariant
            i <= lines.len(),
            ls == lines.deep_view(),
            marker@ == start_time_marker(),
            format@ == start_time_format(),
            missing@ == missing_time_text(),
            dsc_time_texts(ls) == texts + dsc_time_texts(ls.skip(i as int)),
            times.len() == texts.len(),
            forall|j: int| 0 <= j < times.len() ==> #[trigger] times@[j] == naive_parse(texts[j], start_time_format()),
        decreases lines.len() - i,
    {
        let ghost rest = ls.skip(i as int);
        assert(rest[0] == ls[i as int]);
        assert(lines@[i as int]@ == ls[i as int]);
        if str_equal(lines[i].as_str(), marker) {
            if lines.len() - i > 2 {
                assert(rest[2] == ls[i + 2]);
                assert(lines@[i + 2]@ == ls[i + 2]);
                let t = parse_naive(lines[i + 2].as_str(), format);
                times.push(t);
                proof {
                    assert(rest.skip(3) =~= ls.skip(i + 3));
                    texts = texts.push(ls[i + 2]);
                    assert(dsc_time_texts(ls) =~= texts + dsc_time_texts(ls.skip(i + 3)));
                }
                i = i + 3;
            } else {
                let t = parse_naive(missing, format);
                times.push(t);
                proof {
                    texts = texts.push(missing_time_text());
                    assert(ls.skip(lines.len() as int) =~= seq![]);
                    assert(dsc_time_texts(ls) =~= texts + dsc_time_texts(ls.skip(lines.len() as int)));
                }
                i = lines.len();
            }
        } else {
            proof {
                assert(rest.skip(1) =~= ls.skip(i + 1));
            }
            i = i + 1;
        }
    }
    assert(ls.skip(lines.len() as int) =~= seq![]);
    assert(texts + seq![] =~= texts);
    times
}

/// A description without a marker line lists no time.
pub proof fn law_no_marker_no_times(lines: Seq<Seq<char>>)
    requires
        forall|i: int| 0 <= i < lines.len() ==> #[trigger] lines[i] != start_time_marker(),
    ensures
        dsc_time_texts(lines) == Seq::<Seq<char>>::empty(),
    decreases lines.len(),
{
    if lines.len() > 0 {
        let rest = lines.skip(1);
        assert forall|i: int| 0 <= i < rest.len() implies #[trigger] rest[i] != start_time_marker() by {
            assert(rest[i] == lines[i + 1]);
        }
        law_no_marker_no_times(rest);
    }
}

/// The first marker line of a description is followed by one skipped line and then the time
/// text; the search for further times starts after the time text.
pub proof fn law_time_follows_marker(pre: Seq<Seq<char>>, skipped: Seq<char>, time: Seq<char>, rest: Seq<Seq<char>>)
    requires
        forall|i: int| 0 <= i < pre.len() ==> #[trigger] pre[i] != start_time_marker(),
    ensures
        dsc_time_texts(pre + seq![start_time_marker(), skipped, time] + rest) == seq![time] + dsc_time_texts(rest),
    decreases pre.len(),
{
    let lines = pre + seq![start_time_marker(), skipped, time] + rest;
    if pre.len() == 0 {
        assert(lines[0] == start_time_marker());
        assert(lines[2] == time);
        assert(lines.skip(3) =~= rest);
    } else {
        let pre2 = pre.skip(1);
        assert forall|i: int| 0 <= i < pre2.len() implies #[trigger] pre2[i] != start_time_marker() by {
            assert(pre2[i] == pre[i + 1]);
        }
        law_time_follows_marker(pre2, skipped, time, rest);
        assert(lines[0] == pre[0]);
        assert(lines.skip(1) =~= pre2 + seq![start_time_marker(), skipped, time] + rest);
    }
}

} // verus!
