use crate::digits::{all_digits, digit_value, is_digit, parse_ascii_digit};
use crate::error::{Error, ErrorKind, Result};
use crate::lines::{
    chars_of, join_lines, line_views, lines, split_lines, trim_cr, trimmed_len,
};
use crate::subtitle::{divider, subtitle_views, Subtitle, SubtitleView};
use crate::time::{compose, Duration, Timestamp};
use vstd::prelude::*;

verus! {

/// The number written by the two digits at `p`.
pub open spec fn num2(l: Seq<char>, p: int) -> nat {
    digit_value(l[p]) * 10 + digit_value(l[p + 1])
}

/// The number written by the three digits at `p`.
pub open spec fn num3(l: Seq<char>, p: int) -> nat {
    digit_value(l[p]) * 100 + num2(l, p + 1)
}

/// `l` holds, at `p`, twelve characters of the shape `DD:DD:DD,DDD`.
pub open spec fn ts_shape(l: Seq<char>, p: int) -> bool {
    &&& 0 <= p
    &&& p + 12 <= l.len()
    &&& is_digit(l[p]) && is_digit(l[p + 1])
    &&& l[p + 2] == ':'
    &&& is_digit(l[p + 3]) && is_digit(l[p + 4])
    &&& l[p + 5] == ':'
    &&& is_digit(l[p + 6]) && is_digit(l[p + 7])
    &&& l[p + 8] == ','
    &&& is_digit(l[p + 9]) && is_digit(l[p + 10]) && is_digit(l[p + 11])
}

/// The timestamp written at `p` as `HH:MM:SS,mmm`, in milliseconds, or `None`
/// when the text there has another shape or minutes or seconds reach 60.
pub open spec fn ts_at(l: Seq<char>, p: int) -> Option<nat> {
    if ts_shape(l, p) && num2(l, p + 3) < 60 && num2(l, p + 6) < 60 {
        Some(compose(num2(l, p), num2(l, p + 3), num2(l, p + 6), num3(l, p + 9)))
    } else {
        None
    }
}

/// `l` holds the divider `" --> "` at `p`.
pub open spec fn divider_at(l: Seq<char>, p: int) -> bool {
    0 <= p && p + 5 <= l.len() && l.subrange(p, p + 5) == divider()
}

/// The start and duration that the timing line `l` gives, read left to
/// right, or the first thing wrong with it, reported on line `line`.
pub open spec fn timing(l: Seq<char>, line: usize) -> Result<(nat, nat)> {
    match ts_at(l, 0) {
        None => Err(Error { line, kind: ErrorKind::InvalidTimestampStart }),
        Some(start) => if !divider_at(l, 12) {
            Err(Error { line, kind: ErrorKind::InvalidTimestampDivider })
        } else {
            match ts_at(l, 17) {
                None => Err(Error { line, kind: ErrorKind::InvalidTimestampEnd }),
                Some(end) => if end < start {
                    Err(Error { line, kind: ErrorKind::TimestampEndBeforeStart })
                } else if l.len() != 29 {
                    Err(Error { line, kind: ErrorKind::InvalidTimestampLine })
                } else {
                    Ok((start, (end - start) as nat))
                },
            }
        },
    }
}

/// The index of the first line at or after `j` that is blank once its
/// trailing `'\r'`s are trimmed, or `ls.len()` when there is none.
pub open spec fn block_end(ls: Seq<Seq<char>>, j: int) -> int
    decreases ls.len() - j,
{
    if j >= ls.len() || trim_cr(ls[j]).len() == 0 {
        j
    } else {
        block_end(ls, j + 1)
    }
}

/// The text whose lines start at `j`: those lines, trimmed, up to the first
/// blank one, joined with `'\n'`.
pub open spec fn text_at(ls: Seq<Seq<char>>, j: int) -> Seq<char> {
    join_lines(ls.subrange(j, block_end(ls, j)).map_values(|l: Seq<char>| trim_cr(l)))
}

/// The index of the line after the text that starts at `j` and after the
/// blank line that ends it, if any.
pub open spec fn after_text(ls: Seq<Seq<char>>, j: int) -> int {
    if block_end(ls, j) < ls.len() {
        block_end(ls, j) + 1
    } else {
        ls.len() as int
    }
}

pub proof fn lemma_block_end_bounds(ls: Seq<Seq<char>>, j: int)
    requires
        j <= ls.len(),
    ensures
        j <= block_end(ls, j) <= ls.len(),
    decreases ls.len() - j,
{
    if j < ls.len() && trim_cr(ls[j]).len() != 0 {
        lemma_block_end_bounds(ls, j + 1);
    }
}

/// The subtitle whose id is on the non-blank line at index `i`, with the
/// index of the line that follows it, or the first error in it.
#[verifier::opaque]
pub open spec fn record_at(ls: Seq<Seq<char>>, i: int) -> Result<(SubtitleView, int)> {
    if !all_digits(ls[i]) {
        Err(Error { line: (i + 1) as usize, kind: ErrorKind::InvalidId })
    } else if i + 1 >= ls.len() {
        Err(Error { line: (i + 2) as usize, kind: ErrorKind::InvalidTimestampLine })
    } else {
        match timing(ls[i + 1], (i + 2) as usize) {
            Err(e) => Err(e),
            Ok(t) => Ok(
                (
                    SubtitleView { start: t.0, duration: t.1, text: text_at(ls, i + 2) },
                    after_text(ls, i + 2),
                ),
            ),
        }
    }
}

pub proof fn lemma_record_at_advances(ls: Seq<Seq<char>>, i: int)
    requires
        0 <= i < ls.len(),
    ensures
        record_at(ls, i) matches Ok((_, next)) ==> i < next <= ls.len(),
{
    reveal(record_at);
    if all_digits(ls[i]) && i + 1 < ls.len() {
        lemma_block_end_bounds(ls, i + 2);
    }
}

/// The subtitles of the lines from index `i` on, or the first error; line
/// numbers count from one.
pub open spec fn parse_records(ls: Seq<Seq<char>>, i: int) -> Result<Seq<SubtitleView>>
    decreases ls.len() - i,
{
    if i < 0 || i >= ls.len() {
        Ok(Seq::empty())
    } else if ls[i].len() == 0 {
        parse_records(ls, i + 1)
    } else {
        match record_at(ls, i) {
            Err(e) => Err(e),
            Ok((record, next)) => {
                proof {
                    lemma_record_at_advances(ls, i);
                }
                prepend(seq![record], parse_records(ls, next))
            },
        }
    }
}

/// What parsing the SRT text `s` gives.
pub open spec fn parse(s: Seq<char>) -> Result<Seq<SubtitleView>> {
    parse_records(lines(s), 0)
}

/// The views of a parse result.
pub open spec fn result_view(r: Result<Vec<Subtitle>>) -> Result<Seq<SubtitleView>> {
    match r {
        Ok(v) => Ok(subtitle_views(v@)),
        Err(e) => Err(e),
    }
}

pub proof fn lemma_prepend_push(
    records: Seq<SubtitleView>,
    record: SubtitleView,
    r: Result<Seq<SubtitleView>>,
)
    ensures
        prepend(records, prepend(seq![record], r)) == prepend(records.push(record), r),
{
    if let Ok(rest) = r {
        assert(records + (seq![record] + rest) =~= records.push(record) + rest);
    }
}

/// `records` put in front of the subtitles of `r`, or the error of `r`.
pub open spec fn prepend(records: Seq<SubtitleView>, r: Result<Seq<SubtitleView>>) -> Result<
    Seq<SubtitleView>,
> {
    match r {
        Ok(rest) => Ok(records + rest),
        Err(e) => Err(e),
    }
}

/// Reads the number written by three ASCII digits at `at`, or `None` when
/// fewer than three characters are left or one of them is not a digit.
fn parse_three_digit_ascii_num(line: &Vec<char>, at: usize) -> (r: Option<u16>)
    requires
        at <= line.len(),
    ensures
        r is Some <==> at + 3 <= line.len() && is_digit(line@[at as int]) && is_digit(
            line@[at + 1],
        ) && is_digit(line@[at + 2]),
        r matches Some(n) ==> n == num3(line@, at as int) && n <= 999,
{
    if line.len() - at < 3 {
        return None;
    }
    let hundreds = match parse_ascii_digit(line[at]) {
        Some(d) => d,
        None => return None,
    };
    let the_rest = match parse_two_digit_ascii_num(line, at + 1) {
        Some(n) => n,
        None => return None,
    };
    Some(hundreds as u16 * 100 + the_rest as u16)
}

/// Reads the number written by two ASCII digits at `at`, or `None` when
/// fewer than two characters are left or one of them is not a digit.
fn parse_two_digit_ascii_num(line: &Vec<char>, at: usize) -> (r: Option<u8>)
    requires
        at <= line.len(),
    ensures
        r is Some <==> at + 2 <= line.len() && is_digit(line@[at as int]) && is_digit(
            line@[at + 1],
        ),
        r matches Some(n) ==> n == num2(line@, at as int) && n <= 99,
{
    if line.len() - at < 2 {
        return None;
    }
    match (parse_ascii_digit(line[at]), parse_ascii_digit(line[at + 1])) {
        (Some(tens), Some(ones)) => Some(tens * 10 + ones),
        _ => None,
    }
}

/// Reads a timestamp of the form `01:23:45,678` at `at`.
fn parse_ts(line: &Vec<char>, at: usize) -> (r: Option<Timestamp>)
    requires
        at <= line.len(),
    ensures
        r is Some <==> ts_at(line@, at as int) is Some,
        r matches Some(t) ==> ts_at(line@, at as int) == Some(t@),
{
    if line.len() - at < 12 {
        return None;
    }
    let hours = match parse_two_digit_ascii_num(line, at) {
        Some(n) => n,
        None => return None,
    };
    if line[at + 2] != ':' {
        return None;
    }
    let minutes = match parse_two_digit_ascii_num(line, at + 3) {
        Some(n) => n,
        None => return None,
    };
    if line[at + 5] != ':' {
        return None;
    }
    let seconds = match parse_two_digit_ascii_num(line, at + 6) {
        Some(n) => n,
        None => return None,
    };
    if line[at + 8] != ',' {
        return None;
    }
    let millis = match parse_three_digit_ascii_num(line, at + 9) {
        Some(n) => n,
        None => return None,
    };
    Timestamp::new(hours, minutes, seconds, millis)
}

/// Checks for the divider `" --> "` at `at`.
fn parse_ts_divider(line: &Vec<char>, at: usize) -> (r: Option<()>)
    requires
        at <= line.len(),
    ensures
        r is Some <==> divider_at(line@, at as int),
{
    if line.len() - at < 5 {
        return None;
    }
    if line[at] == ' ' && line[at + 1] == '-' && line[at + 2] == '-' && line[at + 3] == '>'
        && line[at + 4] == ' ' {
        assert(line@.subrange(at as int, at + 5) =~= divider());
        Some(())
    } else {
        assert(line@.subrange(at as int, at + 5)[0] == line@[at as int]);
        assert(line@.subrange(at as int, at + 5)[1] == line@[at + 1]);
        assert(line@.subrange(at as int, at + 5)[2] == line@[at + 2]);
        assert(line@.subrange(at as int, at + 5)[3] == line@[at + 3]);
        assert(line@.subrange(at as int, at + 5)[4] == line@[at + 4]);
        None
    }
}

/// Reads a timing line `start --> end`, reporting errors on line `line_num`.
fn parse_timing(line: &Vec<char>, line_num: usize) -> (r: Result<(Timestamp, Duration)>)
    ensures
        match r {
            Ok((start, duration)) => timing(line@, line_num) == Ok::<(nat, nat), Error>(
                (start@, duration@),
            ),
            Err(e) => timing(line@, line_num) == Err::<(nat, nat), Error>(e),
        },
{
    let start = match parse_ts(line, 0) {
        Some(t) => t,
        None => return Err(Error::invalid_ts_start(line_num)),
    };
    if parse_ts_divider(line, 12).is_none() {
        return Err(Error::invalid_ts_divider(line_num));
    }
    let end = match parse_ts(line, 17) {
        Some(t) => t,
        None => return Err(Error::invalid_ts_end(line_num)),
    };
    if end.total_millis() < start.total_millis() {
        return Err(Error::ts_end_before_start(line_num));
    }
    let duration = end - start;
    // Nothing may follow the end timestamp
    if line.len() != 29 {
        return Err(Error::invalid_ts_line(line_num));
    }
    Ok((start, duration))
}

/// `line` is an id: ASCII digits only.
fn is_id(line: &Vec<char>) -> (r: bool)
    ensures
        r == all_digits(line@),
{
    let mut k: usize = 0;
    while k < line.len()
        invariant
            k <= line.len(),
            forall|m: int| 0 <= m < k ==> is_digit(#[trigger] line@[m]),
        decreases line.len() - k,
    {
        if parse_ascii_digit(line[k]).is_none() {
            return false;
        }
        k = k + 1;
    }
    true
}

/// Reads the text whose lines start at `j`, and returns it with the index of
/// the line that follows it and its closing blank line.
fn read_text(lines: &Vec<Vec<char>>, j: usize) -> (r: (String, usize))
    requires
        j <= lines.len(),
    ensures
        r.0@ == text_at(line_views(lines@), j as int),
        r.1 == after_text(line_views(lines@), j as int),
{
    let ghost ls = line_views(lines@);
    let mut text = String::new();
    let mut k: usize = j;
    proof {
        assert(ls.subrange(j as int, j as int).map_values(|l: Seq<char>| trim_cr(l))
            =~= Seq::<Seq<char>>::empty());
    }
    while k < lines.len()
        invariant
            ls == line_views(lines@),
            j <= k <= lines.len(),
            block_end(ls, j as int) == block_end(ls, k as int),
            text@ == join_lines(
                ls.subrange(j as int, k as int).map_values(|l: Seq<char>| trim_cr(l)),
            ),
        decreases lines.len() - k,
    {
        let line = &lines[k];
        assert(ls[k as int] == line@);
        let end = trimmed_len(line);
        if end == 0 {
            return (text, k + 1);
        }
        let ghost done = ls.subrange(j as int, k as int).map_values(|l: Seq<char>| trim_cr(l));
        let ghost before = text@;
        if k > j {
            text.push('\n');
        }
        let mut m: usize = 0;
        while m < end
            invariant
                end <= line.len(),
                m <= end,
                text@ == (if k > j {
                    before + seq!['\n']
                } else {
                    before
                }) + line@.take(m as int),
            decreases end - m,
        {
            text.push(line[m]);
            assert(line@.take(m + 1) =~= line@.take(m as int).push(line@[m as int]));
            m = m + 1;
        }
        proof {
            let next = ls.subrange(j as int, k + 1).map_values(|l: Seq<char>| trim_cr(l));
            assert(next =~= done.push(trim_cr(line@)));
            assert(next.drop_last() =~= done);
            if k > j {
                assert(text@ =~= join_lines(done) + seq!['\n'] + trim_cr(line@));
            } else {
                assert(done.len() == 0);
                assert(text@ =~= trim_cr(line@));
            }
        }
        k = k + 1;
    }
    (text, k)
}

/// Reads the subtitle whose id is on the non-blank line at index `i`.
fn parse_record(lines: &Vec<Vec<char>>, i: usize) -> (r: Result<(Subtitle, usize)>)
    requires
        i < lines.len() < usize::MAX,
    ensures
        match r {
            Ok((sub, next)) => record_at(line_views(lines@), i as int) == Ok::<
                (SubtitleView, int),
                Error,
            >((sub@, next as int)),
            Err(e) => record_at(line_views(lines@), i as int) == Err::<(SubtitleView, int), Error>(
                e,
            ),
        },
{
    let ghost ls = line_views(lines@);
    reveal(record_at);
    assert(ls[i as int] == lines@[i as int]@);
    // Parse the id
    if !is_id(&lines[i]) {
        return Err(Error::invalid_id(i + 1));
    }
    // Parse the timestamp and duration
    if i + 1 >= lines.len() {
        return Err(Error::invalid_ts_line(i + 2));
    }
    assert(ls[i + 1] == lines@[i + 1]@);
    let (start, duration) = match parse_timing(&lines[i + 1], i + 2) {
        Ok(t) => t,
        Err(e) => return Err(e),
    };
    let (text, next) = read_text(lines, i + 2);
    Ok((Subtitle { start, duration, text }, next))
}

/// Parses SRT text into its subtitles, or the first error, with the number
/// of the line where it was found.
///
/// Lines end at `'\n'`, and a trailing `'\r'` is dropped. Blank lines before
/// an id are skipped. An id is ASCII digits only; its value is not checked.
/// The next line must be a timing line, `HH:MM:SS,mmm --> HH:MM:SS,mmm`,
/// whose end is not before its start, with nothing after it. The text is
/// the following lines up to a blank line or the end; it may be empty.
pub fn from_str(subtitles: &str) -> (r: Result<Vec<Subtitle>>)
    requires
        subtitles@.len() < usize::MAX,
    ensures
        result_view(r) == parse(subtitles@),
{
    let chars = chars_of(subtitles);
    let text_lines = split_lines(&chars);
    let ghost ls = line_views(text_lines@);
    let n = text_lines.len();
    let mut parsed: Vec<Subtitle> = Vec::new();
    let mut i: usize = 0;
    proof {
        assert(subtitle_views(parsed@) =~= Seq::<SubtitleView>::empty());
        match parse_records(ls, 0) {
            Ok(rest) => assert(Seq::<SubtitleView>::empty() + rest =~= rest),
            Err(_) => {},
        }
    }
    while i < n
        invariant
            ls == line_views(text_lines@),
            ls == lines(subtitles@),
            n == text_lines.len(),
            n < usize::MAX,
            i <= n,
            parse_records(ls, 0) == prepend(subtitle_views(parsed@), parse_records(ls, i as int)),
        decreases n - i,
    {
        assert(ls[i as int] == text_lines@[i as int]@);
        if text_lines[i].len() == 0 {
            assert(parse_records(ls, i as int) == parse_records(ls, i + 1));
            i = i + 1;
            continue;
        }
        let (sub, next) = match parse_record(&text_lines, i) {
            Ok(found) => found,
            Err(e) => {
                assert(parse_records(ls, i as int) == Err::<Seq<SubtitleView>, Error>(e));
                return Err(e);
            },
        };
        proof {
            lemma_record_at_advances(ls, i as int);
        }
        let ghost old_views = subtitle_views(parsed@);
        assert(parse_records(ls, i as int) == prepend(seq![sub@], parse_records(ls, next as int)));
        parsed.push(sub);
        proof {
            assert(subtitle_views(parsed@) =~= old_views.push(sub@));
            lemma_prepend_push(old_views, sub@, parse_records(ls, next as int));
        }
        i = next;
    }
    proof {
        match parse_records(ls, 0) {
            Ok(all) => assert(subtitle_views(parsed@) + Seq::<SubtitleView>::empty()
                =~= subtitle_views(parsed@)),
            Err(_) => {},
        }
    }
    Ok(parsed)
}

} // verus!
