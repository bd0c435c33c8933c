use crate::digits::{
    all_digits, decimal, digit_char, digit_value, is_digit, lemma_decimal_digits, lemma_digit_char,
    padded,
};
use crate::lines::{
    join_lines, lemma_join_pieces, lemma_lines_unlines, lemma_pieces_extend, lemma_pieces_newline,
    lemma_pieces_shape, lemma_unlines_concat, lemma_unlines_pieces, lines, no_newline, no_trailing_cr, pieces, trim_cr, unlines,
};
use crate::parse::{
    after_text, block_end, divider_at, lemma_block_end_bounds, lemma_record_at_advances, num2,
    num3, parse, parse_records, prepend, record_at, text_at, timing, ts_at,
};
use crate::render::{render, render_record};
use crate::subtitle::{divider, end_of, subtitle_text, timing_line, SubtitleView};
use crate::time::{
    compose, format_ts, hours_of, lemma_components, millis_of, minutes_of, seconds_of,
    MAX_MILLIS,
};
use vstd::prelude::*;

verus! {

/// The text is empty, or each of its lines is non-empty and does not end in
/// `'\r'`: it holds no blank line, so it reads back as itself.
pub open spec fn text_renders_faithfully(t: Seq<char>) -> bool {
    t.len() == 0 || forall|k: int|
        0 <= k < pieces(t).len() ==> (#[trigger] pieces(t)[k]).len() > 0 && no_trailing_cr(
            pieces(t)[k],
        )
}

/// A subtitle that reads back as itself once rendered: its end does not
/// saturate and its text holds no blank line.
pub open spec fn renders_faithfully(s: SubtitleView) -> bool {
    &&& s.start + s.duration <= MAX_MILLIS
    &&& text_renders_faithfully(s.text)
}

/// The lines of one rendered subtitle numbered `index + 1`.
pub open spec fn record_lines(index: nat, s: SubtitleView) -> Seq<Seq<char>> {
    seq![decimal(index + 1), timing_line(s)] + pieces(s.text)
}

/// The lines of the rendered subtitles from index `k` on, a blank line
/// between each two.
pub open spec fn rendered_lines(x: Seq<SubtitleView>, k: int) -> Seq<Seq<char>>
    decreases x.len() - k,
{
    if k < 0 || k >= x.len() {
        Seq::empty()
    } else if k == x.len() - 1 {
        record_lines(k as nat, x[k])
    } else {
        record_lines(k as nat, x[k]) + seq![Seq::empty()] + rendered_lines(x, k + 1)
    }
}

proof fn lemma_padded2(n: nat)
    requires
        n < 100,
    ensures
        padded(n, 2) == seq![digit_char(n / 10), digit_char(n % 10)],
        is_digit(padded(n, 2)[0]) && is_digit(padded(n, 2)[1]),
        digit_value(padded(n, 2)[0]) * 10 + digit_value(padded(n, 2)[1]) == n,
{
    assert(padded(n / 100, 0) =~= Seq::<char>::empty());
    assert(n / 10 / 10 == n / 100);
    assert(n / 10 % 10 == n / 10);
    assert(padded(n / 10, 1) == padded(n / 100, 0).push(digit_char(n / 10 % 10)));
    assert(padded(n, 2) == padded(n / 10, 1).push(digit_char(n % 10)));
    assert(padded(n, 2) =~= seq![digit_char(n / 10), digit_char(n % 10)]);
    lemma_digit_char(n / 10);
    lemma_digit_char(n % 10);
}

proof fn lemma_padded3(n: nat)
    requires
        n < 1000,
    ensures
        padded(n, 3) == seq![digit_char(n / 100), digit_char(n / 10 % 10), digit_char(n % 10)],
        is_digit(padded(n, 3)[0]) && is_digit(padded(n, 3)[1]) && is_digit(padded(n, 3)[2]),
        digit_value(padded(n, 3)[0]) * 100 + digit_value(padded(n, 3)[1]) * 10 + digit_value(
            padded(n, 3)[2],
        ) == n,
{
    assert(padded(n / 1000, 0) =~= Seq::<char>::empty());
    assert(n / 10 / 10 == n / 100);
    assert(n / 100 / 10 == n / 1000);
    assert(n / 100 % 10 == n / 100);
    assert(padded(n / 100, 1) == padded(n / 1000, 0).push(digit_char(n / 100 % 10)));
    assert(padded(n / 10, 2) == padded(n / 100, 1).push(digit_char(n / 10 % 10)));
    assert(padded(n, 3) == padded(n / 10, 2).push(digit_char(n % 10)));
    assert(padded(n, 3) =~= seq![digit_char(n / 100), digit_char(n / 10 % 10), digit_char(n % 10)]);
    lemma_digit_char(n / 100);
    lemma_digit_char(n / 10 % 10);
    lemma_digit_char(n % 10);
}

/// The characters of a formatted timestamp, and that it reads back as itself
/// wherever it stands.
proof fn lemma_format_ts_reads_back(pre: Seq<char>, ms: nat, post: Seq<char>)
    requires
        ms <= MAX_MILLIS,
    ensures
        format_ts(ms).len() == 12,
        forall|k: int| 0 <= k < 12 ==> (#[trigger] format_ts(ms)[k]) != '\n',
        is_digit(format_ts(ms)[11]),
        ts_at(pre + format_ts(ms) + post, pre.len() as int) == Some(ms),
{
    lemma_components(ms);
    let h = hours_of(ms);
    let m = minutes_of(ms);
    let s = seconds_of(ms);
    let f = millis_of(ms);
    lemma_padded2(h);
    lemma_padded2(m);
    lemma_padded2(s);
    lemma_padded3(f);
    let t = format_ts(ms);
    let l = pre + t + post;
    let p = pre.len() as int;
    assert(t =~= padded(h, 2) + seq![':'] + padded(m, 2) + seq![':'] + padded(s, 2) + seq![',']
        + padded(f, 3));
    assert(t.len() == 12);
    assert(forall|k: int| 0 <= k < 12 ==> l[p + k] == #[trigger] t[k]);
    assert(t[0] == padded(h, 2)[0] && t[1] == padded(h, 2)[1]);
    assert(t[3] == padded(m, 2)[0] && t[4] == padded(m, 2)[1]);
    assert(t[6] == padded(s, 2)[0] && t[7] == padded(s, 2)[1]);
    assert(t[9] == padded(f, 3)[0] && t[10] == padded(f, 3)[1] && t[11] == padded(f, 3)[2]);
    assert(t[2] == ':' && t[5] == ':' && t[8] == ',');
    assert(num2(l, p) == h);
    assert(num2(l, p + 3) == m);
    assert(num2(l, p + 6) == s);
    assert(num3(l, p + 9) == f);
}

/// A timing line reads back as the start and duration it was written from.
proof fn lemma_timing_reads_back(s: SubtitleView, line: usize)
    requires
        s.start + s.duration <= MAX_MILLIS,
    ensures
        timing(timing_line(s), line) == Ok::<(nat, nat), crate::error::Error>(
            (s.start, s.duration),
        ),
        timing_line(s).len() == 29,
        no_newline(timing_line(s)),
        no_trailing_cr(timing_line(s)),
{
    let e = end_of(s);
    let l = timing_line(s);
    let empty = Seq::<char>::empty();
    assert(e == s.start + s.duration);
    lemma_format_ts_reads_back(empty, s.start, divider() + format_ts(e));
    lemma_format_ts_reads_back(format_ts(s.start) + divider(), e, empty);
    assert(empty + format_ts(s.start) + (divider() + format_ts(e)) =~= l);
    assert(format_ts(s.start) + divider() + format_ts(e) + empty =~= l);
    assert(l.subrange(12, 17) =~= divider());
    assert(divider_at(l, 12));
    assert forall|k: int| 0 <= k < l.len() implies l[k] != '\n' by {
        if k < 12 {
            assert(l[k] == format_ts(s.start)[k]);
        } else if k < 17 {
            assert(l[k] == divider()[k - 12]);
        } else {
            assert(l[k] == format_ts(e)[k - 17]);
        }
    }
    assert(l.last() == format_ts(e)[11]);
}

/// An id line is non-empty, all digits, and so holds no `'\n'` and does not
/// end in `'\r'`.
proof fn lemma_id_line(n: nat)
    ensures
        decimal(n).len() > 0,
        all_digits(decimal(n)),
        no_newline(decimal(n)),
        no_trailing_cr(decimal(n)),
{
    lemma_decimal_digits(n);
    let d = decimal(n);
    assert(is_digit(d[d.len() - 1]));
    assert forall|k: int| 0 <= k < d.len() implies d[k] != '\n' by {
        assert(is_digit(d[k]));
    }
}

/// Each rendered line holds no `'\n'` and does not end in `'\r'`.
proof fn lemma_rendered_lines_shape(x: Seq<SubtitleView>, k: int)
    requires
        forall|j: int| 0 <= j < x.len() ==> renders_faithfully(#[trigger] x[j]),
    ensures
        forall|j: int|
            0 <= j < rendered_lines(x, k).len() ==> no_newline(#[trigger] rendered_lines(x, k)[j])
                && no_trailing_cr(rendered_lines(x, k)[j]),
    decreases x.len() - k,
{
    if 0 <= k < x.len() {
        let r = record_lines(k as nat, x[k]);
        let t = x[k].text;
        lemma_id_line((k + 1) as nat);
        lemma_timing_reads_back(x[k], 0);
        lemma_pieces_shape(t);
        assert forall|j: int| 0 <= j < r.len() implies no_newline(#[trigger] r[j])
            && no_trailing_cr(r[j]) by {
            if j >= 2 {
                assert(r[j] == pieces(t)[j - 2]);
                if t.len() == 0 {
                    assert(pieces(t) =~= seq![Seq::<char>::empty()]);
                }
            }
        }
        if k < x.len() - 1 {
            lemma_rendered_lines_shape(x, k + 1);
            let rest = rendered_lines(x, k + 1);
            let all = r + seq![Seq::<char>::empty()] + rest;
            assert forall|j: int| 0 <= j < all.len() implies no_newline(#[trigger] all[j])
                && no_trailing_cr(all[j]) by {
                if j < r.len() {
                    assert(all[j] == r[j]);
                } else if j > r.len() {
                    assert(all[j] == rest[j - r.len() - 1]);
                }
            }
        }
    }
}

proof fn lemma_rendered_lines_push(y: Seq<SubtitleView>, s: SubtitleView, k: int)
    requires
        0 <= k < y.len(),
    ensures
        rendered_lines(y.push(s), k) == rendered_lines(y, k) + seq![Seq::<char>::empty()]
            + record_lines(y.len(), s),
    decreases y.len() - k,
{
    let x = y.push(s);
    assert(x[k] == y[k]);
    if k == y.len() - 1 {
        assert(x[k + 1] == s);
        assert(rendered_lines(x, k + 1) == record_lines(y.len(), s));
    } else {
        lemma_rendered_lines_push(y, s, k + 1);
        assert(rendered_lines(x, k) =~= rendered_lines(y, k) + seq![Seq::<char>::empty()]
            + record_lines(y.len(), s));
    }
}

/// The rendered text is its rendered lines, each followed by `'\n'`.
proof fn lemma_render_unlines(x: Seq<SubtitleView>)
    ensures
        render(x) == unlines(rendered_lines(x, 0)),
    decreases x.len(),
{
    if x.len() == 0 {
        assert(unlines(Seq::<Seq<char>>::empty()) =~= Seq::<char>::empty());
    } else {
        let k = (x.len() - 1) as nat;
        let s = x.last();
        let r = record_lines(k, s);
        let two = seq![decimal(k + 1), timing_line(s)];
        lemma_unlines_concat(two, pieces(s.text));
        lemma_unlines_pieces(s.text);
        assert(two.drop_last() =~= seq![decimal(k + 1)]);
        assert(seq![decimal(k + 1)].drop_last() =~= Seq::<Seq<char>>::empty());
        assert(unlines(seq![decimal(k + 1)]) == unlines(seq![decimal(k + 1)].drop_last())
            + decimal(k + 1) + seq!['\n']);
        assert(unlines(seq![decimal(k + 1)]) =~= decimal(k + 1) + seq!['\n']);
        assert(unlines(r) =~= render_record(k, s));
        if x.len() == 1 {
            assert(rendered_lines(x, 0) == r);
        } else {
            let y = x.drop_last();
            assert(y.push(s) =~= x);
            lemma_render_unlines(y);
            lemma_rendered_lines_push(y, s, 0);
            let e = seq![Seq::<char>::empty()];
            lemma_unlines_concat(rendered_lines(y, 0) + e, r);
            lemma_unlines_concat(rendered_lines(y, 0), e);
            assert(e.drop_last() =~= Seq::<Seq<char>>::empty());
            assert(unlines(e) =~= seq!['\n']);
            assert(render(x) =~= unlines(rendered_lines(x, 0)));
        }
    }
}

proof fn lemma_block_end_at(ls: Seq<Seq<char>>, j: int, e: int)
    requires
        0 <= j <= e <= ls.len(),
        forall|k: int| j <= k < e ==> (#[trigger] trim_cr(ls[k])).len() > 0,
        e == ls.len() || trim_cr(ls[e]).len() == 0,
    ensures
        block_end(ls, j) == e,
    decreases e - j,
{
    if j < e {
        lemma_block_end_at(ls, j + 1, e);
    }
}

proof fn lemma_block_end_shift(p: Seq<Seq<char>>, q: Seq<Seq<char>>, j: int)
    requires
        0 <= j <= q.len(),
    ensures
        block_end(p + q, p.len() + j) == p.len() + block_end(q, j),
    decreases q.len() - j,
{
    if j < q.len() {
        assert((p + q)[p.len() + j] == q[j]);
        lemma_block_end_shift(p, q, j + 1);
    }
}

proof fn lemma_timing_line_number(l: Seq<char>, a: usize, b: usize)
    ensures
        timing(l, a) is Ok ==> timing(l, b) == timing(l, a),
{
}

/// A record reads the same after any lines put before it.
proof fn lemma_record_at_shift(p: Seq<Seq<char>>, q: Seq<Seq<char>>, i: int)
    requires
        0 <= i < q.len(),
        record_at(q, i) is Ok,
    ensures
        record_at(p + q, p.len() + i) matches Ok((r, next)) && record_at(q, i) matches Ok((
            r2,
            next2,
        )) && r == r2 && next == p.len() + next2,
{
    reveal(record_at);
    let l = p + q;
    let o = p.len() as int;
    assert(l[o + i] == q[i]);
    assert(l[o + i + 1] == q[i + 1]);
    lemma_timing_line_number(q[i + 1], (i + 2) as usize, (o + i + 2) as usize);
    lemma_block_end_bounds(q, i + 2);
    lemma_block_end_shift(p, q, i + 2);
    assert(l.subrange(o + i + 2, block_end(l, o + i + 2)) =~= q.subrange(
        i + 2,
        block_end(q, i + 2),
    ));
}

/// Parsing succeeds the same way after any lines put before.
proof fn lemma_parse_shift(p: Seq<Seq<char>>, q: Seq<Seq<char>>, i: int)
    requires
        0 <= i <= q.len(),
        parse_records(q, i) is Ok,
    ensures
        parse_records(p + q, p.len() + i) == parse_records(q, i),
    decreases q.len() - i,
{
    let l = p + q;
    let o = p.len() as int;
    if i < q.len() {
        assert(l[o + i] == q[i]);
        if q[i].len() == 0 {
            lemma_parse_shift(p, q, i + 1);
        } else {
            lemma_record_at_shift(p, q, i);
            lemma_record_at_advances(q, i);
            if let Ok((r, next)) = record_at(q, i) {
                lemma_parse_shift(p, q, next);
            }
        }
    }
}

/// A text without blank lines, written line by line from index `j` and
/// followed by a blank line or the end, reads back as itself.
proof fn lemma_text_reads_back(ls: Seq<Seq<char>>, t: Seq<char>, j: int)
    requires
        0 <= j,
        j + pieces(t).len() <= ls.len(),
        forall|q: int| 0 <= q < pieces(t).len() ==> ls[j + q] == #[trigger] pieces(t)[q],
        text_renders_faithfully(t),
        j + pieces(t).len() == ls.len() || ls[j + pieces(t).len()].len() == 0,
    ensures
        text_at(ls, j) == t,
        after_text(ls, j) == if j + pieces(t).len() < ls.len() && t.len() > 0 {
            j + pieces(t).len() + 1
        } else {
            j + pieces(t).len()
        },
{
    lemma_pieces_shape(t);
    let m = pieces(t).len() as int;
    if t.len() == 0 {
        assert(pieces(t) =~= seq![Seq::<char>::empty()]);
        assert(ls[j] == pieces(t)[0]);
        lemma_block_end_at(ls, j, j);
        assert(ls.subrange(j, j).map_values(|l: Seq<char>| trim_cr(l))
            =~= Seq::<Seq<char>>::empty());
    } else {
        assert forall|q: int| j <= q < j + m implies (#[trigger] trim_cr(ls[q])).len() > 0
            && trim_cr(ls[q]) == ls[q] by {
            assert(ls[q] == pieces(t)[q - j]);
        }
        lemma_block_end_at(ls, j, j + m);
        assert(ls.subrange(j, j + m).map_values(|l: Seq<char>| trim_cr(l)) =~= pieces(t));
        lemma_join_pieces(t);
    }
}

/// The first subtitle of the rendered lines from record `k` on reads back
/// as that record; the next one starts after the blank line that follows.
proof fn lemma_first_record(x: Seq<SubtitleView>, k: int)
    requires
        0 <= k < x.len(),
        forall|j: int| 0 <= j < x.len() ==> renders_faithfully(#[trigger] x[j]),
    ensures
        rendered_lines(x, k).len() >= record_lines(k as nat, x[k]).len() >= 3,
        rendered_lines(x, k)[0].len() > 0,
        record_at(rendered_lines(x, k), 0) == Ok::<(SubtitleView, int), crate::error::Error>(
            (x[k], after_text(rendered_lines(x, k), 2)),
        ),
        k == x.len() - 1 ==> after_text(rendered_lines(x, k), 2) == rendered_lines(x, k).len(),
        k < x.len() - 1 ==> after_text(rendered_lines(x, k), 2) == record_lines(
            k as nat,
            x[k],
        ).len() + 1 || (after_text(rendered_lines(x, k), 2) == record_lines(k as nat, x[k]).len()
            && rendered_lines(x, k)[after_text(rendered_lines(x, k), 2)].len() == 0),
{
    let s = x[k];
    let t = s.text;
    let r = record_lines(k as nat, s);
    let last = k == x.len() - 1;
    let ls = rendered_lines(x, k);
    let e = seq![Seq::<char>::empty()];
    let rest = rendered_lines(x, k + 1);
    lemma_pieces_shape(t);
    assert(renders_faithfully(s));
    assert(last ==> ls == r);
    assert(!last ==> ls == r + e + rest);
    assert(ls.len() >= r.len());
    assert forall|q: int| 0 <= q < pieces(t).len() implies ls[2 + q] == #[trigger] pieces(t)[q] by {
        assert(r[2 + q] == pieces(t)[q]);
    }
    if !last {
        assert(ls[r.len() as int] == Seq::<char>::empty());
    }
    lemma_text_reads_back(ls, t, 2);
    lemma_id_line((k + 1) as nat);
    lemma_timing_reads_back(s, 2);
    assert(ls[0] == decimal((k + 1) as nat));
    assert(ls[1] == timing_line(s));
    reveal(record_at);
    assert(SubtitleView { start: s.start, duration: s.duration, text: t } == s);
}

/// The rendered lines from record `k` on parse back to the records from `k`
/// on.
proof fn lemma_parse_rendered_lines(x: Seq<SubtitleView>, k: int)
    requires
        0 <= k <= x.len(),
        forall|j: int| 0 <= j < x.len() ==> renders_faithfully(#[trigger] x[j]),
    ensures
        parse_records(rendered_lines(x, k), 0) == Ok::<Seq<SubtitleView>, crate::error::Error>(
            x.subrange(k, x.len() as int),
        ),
    decreases x.len() - k,
{
    if k == x.len() {
        assert(x.subrange(k, k) =~= Seq::<SubtitleView>::empty());
    } else {
        let s = x[k];
        let r = record_lines(k as nat, s);
        let ls = rendered_lines(x, k);
        lemma_first_record(x, k);
        let next = after_text(ls, 2);
        assert(parse_records(ls, 0) == prepend(seq![s], parse_records(ls, next)));
        assert(x.subrange(k, x.len() as int) =~= seq![s] + x.subrange(k + 1, x.len() as int));
        if k == x.len() - 1 {
            assert(x.subrange(k + 1, x.len() as int) =~= Seq::<SubtitleView>::empty());
            assert(seq![s] + Seq::<SubtitleView>::empty() =~= seq![s]);
        } else {
            let e = seq![Seq::<char>::empty()];
            let rest = rendered_lines(x, k + 1);
            let pre = r + e;
            assert(ls =~= pre + rest);
            lemma_parse_rendered_lines(x, k + 1);
            lemma_parse_shift(pre, rest, 0);
            if next == r.len() {
                assert(parse_records(ls, next) == parse_records(ls, next + 1));
            }
        }
    }
}

/// Rendering subtitles and parsing the text back gives the same subtitles,
/// for subtitles whose end does not saturate and whose text holds no blank
/// line.
pub proof fn lemma_parse_render(x: Seq<SubtitleView>)
    requires
        forall|j: int| 0 <= j < x.len() ==> renders_faithfully(#[trigger] x[j]),
    ensures
        parse(render(x)) == Ok::<Seq<SubtitleView>, crate::error::Error>(x),
{
    lemma_render_unlines(x);
    lemma_rendered_lines_shape(x, 0);
    lemma_lines_unlines(rendered_lines(x, 0));
    lemma_parse_rendered_lines(x, 0);
    assert(x.subrange(0, x.len() as int) =~= x);
}

/// The subtitle with its duration cut so that its end does not saturate.
pub open spec fn unsaturated(s: SubtitleView) -> SubtitleView {
    SubtitleView { start: s.start, duration: (end_of(s) - s.start) as nat, text: s.text }
}

proof fn lemma_render_unsaturated(x: Seq<SubtitleView>)
    requires
        forall|j: int| 0 <= j < x.len() ==> (#[trigger] x[j]).start <= MAX_MILLIS,
    ensures
        render(x.map_values(|s: SubtitleView| unsaturated(s))) == render(x),
    decreases x.len(),
{
    let y = x.map_values(|s: SubtitleView| unsaturated(s));
    if x.len() > 0 {
        let s = x.last();
        assert(y.last() == unsaturated(s));
        assert(end_of(unsaturated(s)) == end_of(s));
        assert(render_record((x.len() - 1) as nat, y.last()) == render_record(
            (x.len() - 1) as nat,
            s,
        ));
        if x.len() > 1 {
            lemma_render_unsaturated(x.drop_last());
            assert(y.drop_last() =~= x.drop_last().map_values(|s: SubtitleView| unsaturated(s)));
        } else {
            assert(y[0] == y.last());
        }
    }
}

/// Rendering, parsing back and rendering again gives the first rendering,
/// for subtitles whose text holds no blank line; an end that saturates reads
/// back as the largest timestamp and renders the same.
pub proof fn lemma_render_parse_render(x: Seq<SubtitleView>)
    requires
        forall|j: int|
            0 <= j < x.len() ==> (#[trigger] x[j]).start <= MAX_MILLIS && x[j].duration
                <= MAX_MILLIS && text_renders_faithfully(x[j].text),
    ensures
        parse(render(x)) is Ok,
        parse(render(x)) matches Ok(y) ==> render(y) == render(x),
{
    let y = x.map_values(|s: SubtitleView| unsaturated(s));
    assert forall|j: int| 0 <= j < y.len() implies renders_faithfully(#[trigger] y[j]) by {
        assert(y[j] == unsaturated(x[j]));
    }
    lemma_render_unsaturated(x);
    lemma_parse_render(y);
}

/// Once the first of two subtitles is removed, the other is rendered with
/// the id `1`, whatever it was numbered before.
pub proof fn lemma_renumbering(x: Seq<SubtitleView>)
    requires
        x.len() == 2,
    ensures
        render(x.remove(0)) == seq!['1', '\n'] + subtitle_text(x[1]) + seq!['\n'],
{
    assert(x.remove(0) =~= seq![x[1]]);
    assert(decimal(1) =~= seq!['1']);
}

proof fn lemma_compose_bound(h: nat, m: nat, s: nat, f: nat)
    requires
        h < 100,
        m < 60,
        s < 60,
        f < 1000,
    ensures
        compose(h, m, s, f) <= MAX_MILLIS,
{
    assert(((h * 60 + m) * 60 + s) * 1000 + f <= 359_999_999) by (nonlinear_arith)
        requires
            h < 100,
            m < 60,
            s < 60,
            f < 1000,
    ;
}

proof fn lemma_ts_at_bound(l: Seq<char>, p: int)
    ensures
        ts_at(l, p) matches Some(ms) ==> ms <= MAX_MILLIS,
{
    if ts_at(l, p) is Some {
        assert(digit_value(l[p]) <= 9 && digit_value(l[p + 1]) <= 9);
        assert(digit_value(l[p + 9]) <= 9 && digit_value(l[p + 10]) <= 9 && digit_value(l[p + 11])
            <= 9);
        lemma_compose_bound(num2(l, p), num2(l, p + 3), num2(l, p + 6), num3(l, p + 9));
    }
}

proof fn lemma_trim_cr(l: Seq<char>)
    ensures
        no_trailing_cr(trim_cr(l)),
        trim_cr(l) == l.take(trim_cr(l).len() as int),
        trim_cr(l).len() <= l.len(),
    decreases l.len(),
{
    if l.len() > 0 && l.last() == '\r' {
        lemma_trim_cr(l.drop_last());
        assert(l.drop_last().take(trim_cr(l).len() as int) =~= l.take(trim_cr(l).len() as int));
    } else {
        assert(l.take(l.len() as int) =~= l);
    }
}

proof fn lemma_block_lines(ls: Seq<Seq<char>>, j: int)
    requires
        0 <= j <= ls.len(),
    ensures
        forall|q: int| j <= q < block_end(ls, j) ==> (#[trigger] trim_cr(ls[q])).len() > 0,
    decreases ls.len() - j,
{
    if j < ls.len() && trim_cr(ls[j]).len() != 0 {
        lemma_block_lines(ls, j + 1);
    }
}

/// Lines without `'\n'`, joined, split back into themselves.
proof fn lemma_pieces_join(ls: Seq<Seq<char>>)
    requires
        ls.len() >= 1,
        forall|k: int| 0 <= k < ls.len() ==> no_newline(#[trigger] ls[k]),
    ensures
        pieces(join_lines(ls)) == ls,
    decreases ls.len(),
{
    let e = Seq::<char>::empty();
    if ls.len() == 1 {
        lemma_pieces_extend(e, ls[0]);
        assert(e + ls[0] =~= ls[0]);
        assert(pieces(e) =~= seq![e]);
        assert(seq![e].update(0, e + ls[0]) =~= ls);
    } else {
        let init = ls.drop_last();
        lemma_pieces_join(init);
        let a = join_lines(init) + seq!['\n'];
        lemma_pieces_newline(join_lines(init));
        lemma_pieces_extend(a, ls.last());
        assert(e + ls.last() =~= ls.last());
        assert(init.push(e).update(init.len() as int, ls.last()) =~= ls);
    }
}

/// The text of a parsed subtitle holds no blank line.
proof fn lemma_text_at_faithful(ls: Seq<Seq<char>>, j: int)
    requires
        0 <= j <= ls.len(),
        forall|k: int| 0 <= k < ls.len() ==> no_newline(#[trigger] ls[k]),
    ensures
        text_renders_faithfully(text_at(ls, j)),
{
    lemma_block_end_bounds(ls, j);
    lemma_block_lines(ls, j);
    let t = ls.subrange(j, block_end(ls, j)).map_values(|l: Seq<char>| trim_cr(l));
    assert forall|k: int| 0 <= k < t.len() implies no_newline(#[trigger] t[k]) && t[k].len() > 0
        && no_trailing_cr(t[k]) by {
        let l = ls[j + k];
        assert(t[k] == trim_cr(l));
        lemma_trim_cr(l);
        assert forall|q: int| 0 <= q < t[k].len() implies t[k][q] != '\n' by {
            assert(t[k][q] == l[q]);
        }
    }
    if t.len() >= 1 {
        lemma_pieces_join(t);
    } else {
        assert(join_lines(t) =~= Seq::<char>::empty());
    }
}

/// Every subtitle that parsing gives reads back as itself once rendered.
proof fn lemma_parsed_records_faithful(ls: Seq<Seq<char>>, i: int)
    requires
        forall|k: int| 0 <= k < ls.len() ==> no_newline(#[trigger] ls[k]),
    ensures
        parse_records(ls, i) matches Ok(r) ==> forall|k: int|
            0 <= k < r.len() ==> renders_faithfully(#[trigger] r[k]),
    decreases ls.len() - i,
{
    if 0 <= i < ls.len() {
        if ls[i].len() == 0 {
            lemma_parsed_records_faithful(ls, i + 1);
        } else if let Ok((rec, next)) = record_at(ls, i) {
            lemma_record_at_advances(ls, i);
            lemma_parsed_records_faithful(ls, next);
            reveal(record_at);
            let l = ls[i + 1];
            lemma_ts_at_bound(l, 17);
            lemma_block_end_bounds(ls, i + 2);
            lemma_text_at_faithful(ls, i + 2);
            assert(renders_faithfully(rec));
            if let Ok(rest) = parse_records(ls, next) {
                let r = seq![rec] + rest;
                assert forall|k: int| 0 <= k < r.len() implies renders_faithfully(
                    #[trigger] r[k],
                ) by {
                    if k > 0 {
                        assert(r[k] == rest[k - 1]);
                    }
                }
            }
        }
    }
}

/// Whatever parses renders to text that parses back to the same subtitles.
pub proof fn lemma_parse_render_parse(s: Seq<char>)
    ensures
        parse(s) matches Ok(x) ==> parse(render(x)) == Ok::<Seq<SubtitleView>, crate::error::Error>(
            x,
        ),
{
    let ls = lines(s);
    lemma_pieces_shape(s);
    let p = pieces(s);
    let q = if p.last().len() == 0 {
        p.drop_last()
    } else {
        p
    };
    assert forall|k: int| 0 <= k < ls.len() implies no_newline(#[trigger] ls[k]) by {
        assert(ls[k] == crate::lines::strip_cr(q[k]));
        assert(q[k] == p[k]);
        assert forall|m: int| 0 <= m < ls[k].len() implies ls[k][m] != '\n' by {
            assert(ls[k][m] == p[k][m]);
        }
    }
    lemma_parsed_records_faithful(ls, 0);
    if let Ok(x) = parse(s) {
        lemma_parse_render(x);
    }
}

} // verus!
