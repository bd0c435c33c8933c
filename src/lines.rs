use vstd::prelude::*;

verus! {

/// The pieces of `s` between its `'\n'` characters: always one more than the
/// number of `'\n'`s, each possibly empty.
pub open spec fn pieces(s: Seq<char>) -> Seq<Seq<char>>
    decreases s.len(),
{
    if s.len() == 0 {
        seq![Seq::empty()]
    } else {
        let p = pieces(s.drop_last());
        if s.last() == '\n' {
            p.push(Seq::empty())
        } else {
            p.update(p.len() - 1, p.last().push(s.last()))
        }
    }
}

/// `l` without one trailing `'\r'`.
pub open spec fn strip_cr(l: Seq<char>) -> Seq<char> {
    if l.len() > 0 && l.last() == '\r' {
        l.drop_last()
    } else {
        l
    }
}

/// `l` without any of its trailing `'\r'`s.
pub open spec fn trim_cr(l: Seq<char>) -> Seq<char>
    decreases l.len(),
{
    if l.len() > 0 && l.last() == '\r' {
        trim_cr(l.drop_last())
    } else {
        l
    }
}

/// The lines of `s`: the pieces between `'\n'`s, less an empty last piece
/// (a final `'\n'` ends a line, it does not start one), each without one
/// trailing `'\r'`.
pub open spec fn lines(s: Seq<char>) -> Seq<Seq<char>> {
    let p = pieces(s);
    let q = if p.last().len() == 0 {
        p.drop_last()
    } else {
        p
    };
    q.map_values(|l: Seq<char>| strip_cr(l))
}

/// The lines joined with a `'\n'` between each two.
pub open spec fn join_lines(ls: Seq<Seq<char>>) -> Seq<char>
    decreases ls.len(),
{
    if ls.len() == 0 {
        Seq::empty()
    } else if ls.len() == 1 {
        ls[0]
    } else {
        join_lines(ls.drop_last()) + seq!['\n'] + ls.last()
    }
}

/// Each line followed by a `'\n'`.
pub open spec fn unlines(ls: Seq<Seq<char>>) -> Seq<char>
    decreases ls.len(),
{
    if ls.len() == 0 {
        Seq::empty()
    } else {
        unlines(ls.drop_last()) + ls.last() + seq!['\n']
    }
}

/// `l` holds no `'\n'`.
pub open spec fn no_newline(l: Seq<char>) -> bool {
    forall|k: int| 0 <= k < l.len() ==> l[k] != '\n'
}

/// `l` does not end in `'\r'`.
pub open spec fn no_trailing_cr(l: Seq<char>) -> bool {
    l.len() == 0 || l.last() != '\r'
}

/// The views of a vector of character vectors.
pub open spec fn line_views(v: Seq<Vec<char>>) -> Seq<Seq<char>> {
    v.map_values(|l: Vec<char>| l@)
}

pub proof fn lemma_pieces_shape(s: Seq<char>)
    ensures
        pieces(s).len() >= 1,
        forall|k: int| 0 <= k < pieces(s).len() ==> no_newline(#[trigger] pieces(s)[k]),
    decreases s.len(),
{
    if s.len() > 0 {
        lemma_pieces_shape(s.drop_last());
    }
}

/// Appending text without a `'\n'` extends the last piece.
pub proof fn lemma_pieces_extend(a: Seq<char>, c: Seq<char>)
    requires
        no_newline(c),
    ensures
        pieces(a + c) == pieces(a).update(pieces(a).len() - 1, pieces(a).last() + c),
    decreases c.len(),
{
    lemma_pieces_shape(a);
    if c.len() == 0 {
        assert(a + c =~= a);
        assert(pieces(a).last() + c =~= pieces(a).last());
        assert(pieces(a).update(pieces(a).len() - 1, pieces(a).last()) =~= pieces(a));
    } else {
        let c0 = c.drop_last();
        let pa = pieces(a);
        lemma_pieces_extend(a, c0);
        assert((a + c).drop_last() =~= a + c0);
        assert((a + c).last() == c.last());
        assert(c[c.len() - 1] != '\n');
        let p = pieces(a + c0);
        assert(p.len() == pa.len());
        assert(p.last() == pa.last() + c0);
        assert(pieces(a + c) == p.update(p.len() - 1, p.last().push(c.last())));
        assert((pa.last() + c0).push(c.last()) =~= pa.last() + c);
        assert(pieces(a + c) =~= pa.update(pa.len() - 1, pa.last() + c));
    }
}

pub proof fn lemma_pieces_newline(a: Seq<char>)
    ensures
        pieces(a + seq!['\n']) == pieces(a).push(Seq::empty()),
{
    assert((a + seq!['\n']).drop_last() =~= a);
}

/// Lines without a `'\n'`, each ended by one, split back into themselves and
/// an empty last piece.
pub proof fn lemma_pieces_unlines(ls: Seq<Seq<char>>)
    requires
        forall|k: int| 0 <= k < ls.len() ==> no_newline(#[trigger] ls[k]),
    ensures
        pieces(unlines(ls)) == ls.push(Seq::empty()),
    decreases ls.len(),
{
    if ls.len() == 0 {
        assert(pieces(Seq::<char>::empty()) =~= seq![Seq::<char>::empty()]);
        assert(ls.push(Seq::empty()) =~= seq![Seq::<char>::empty()]);
    } else {
        let init = ls.drop_last();
        lemma_pieces_unlines(init);
        lemma_pieces_extend(unlines(init), ls.last());
        lemma_pieces_newline(unlines(init) + ls.last());
        assert(Seq::<char>::empty() + ls.last() =~= ls.last());
        assert(init.push(Seq::empty()).update(init.len() as int, ls.last()) =~= ls);
    }
}

/// The lines of text built by `unlines` are the lines it was built from.
pub proof fn lemma_lines_unlines(ls: Seq<Seq<char>>)
    requires
        forall|k: int| 0 <= k < ls.len() ==> no_newline(#[trigger] ls[k]),
        forall|k: int| 0 <= k < ls.len() ==> no_trailing_cr(#[trigger] ls[k]),
    ensures
        lines(unlines(ls)) == ls,
{
    lemma_pieces_unlines(ls);
    assert(ls.push(Seq::empty()).drop_last() =~= ls);
    assert(ls.map_values(|l: Seq<char>| strip_cr(l)) =~= ls);
}

pub proof fn lemma_unlines_concat(a: Seq<Seq<char>>, b: Seq<Seq<char>>)
    ensures
        unlines(a + b) == unlines(a) + unlines(b),
    decreases b.len(),
{
    if b.len() == 0 {
        assert(a + b =~= a);
        assert(unlines(a) + unlines(b) =~= unlines(a));
    } else {
        lemma_unlines_concat(a, b.drop_last());
        assert((a + b).drop_last() =~= a + b.drop_last());
        assert(unlines(a + b) =~= unlines(a) + unlines(b));
    }
}

/// Splitting a text and ending each piece with a `'\n'` gives the text back,
/// followed by one `'\n'`.
pub proof fn lemma_unlines_pieces(t: Seq<char>)
    ensures
        unlines(pieces(t)) == t + seq!['\n'],
    decreases t.len(),
{
    if t.len() == 0 {
        let e = Seq::<char>::empty();
        assert(seq![e].drop_last() =~= Seq::<Seq<char>>::empty());
        assert(unlines(seq![e]) == unlines(Seq::<Seq<char>>::empty()) + e + seq!['\n']);
        assert(unlines(pieces(t)) =~= t + seq!['\n']);
    } else {
        let t0 = t.drop_last();
        lemma_unlines_pieces(t0);
        lemma_pieces_shape(t0);
        let p = pieces(t0);
        if t.last() == '\n' {
            assert(pieces(t).drop_last() =~= p);
            assert(unlines(pieces(t)) =~= t + seq!['\n']);
        } else {
            let q = pieces(t);
            assert(q == p.update(p.len() - 1, p.last().push(t.last())));
            assert(q.len() == p.len());
            assert(q.last() == p.last().push(t.last()));
            assert(q.drop_last() =~= p.drop_last());
            assert(unlines(q) == unlines(q.drop_last()) + q.last() + seq!['\n']);
            assert(unlines(p) == unlines(p.drop_last()) + p.last() + seq!['\n']);
            assert(t0 + seq!['\n'] == unlines(p.drop_last()) + p.last() + seq!['\n']);
            assert(t0 =~= unlines(p.drop_last()) + p.last()) by {
                assert((t0 + seq!['\n']).drop_last() =~= t0);
                assert((unlines(p.drop_last()) + p.last() + seq!['\n']).drop_last()
                    =~= unlines(p.drop_last()) + p.last());
            }
            assert(t =~= t0.push(t.last()));
            assert(t =~= unlines(p.drop_last()) + p.last().push(t.last()));
            assert(unlines(q) =~= t + seq!['\n']);
        }
    }
}

/// Joining the pieces of a text with `'\n'` gives the text back.
pub proof fn lemma_join_pieces(t: Seq<char>)
    ensures
        join_lines(pieces(t)) == t,
    decreases t.len(),
{
    if t.len() == 0 {
        assert(join_lines(pieces(t)) =~= t);
    } else {
        let t0 = t.drop_last();
        lemma_join_pieces(t0);
        lemma_pieces_shape(t0);
        let p = pieces(t0);
        let q = pieces(t);
        if t.last() == '\n' {
            assert(q.drop_last() =~= p);
            assert(join_lines(q) =~= t);
        } else {
            assert(q == p.update(p.len() - 1, p.last().push(t.last())));
            assert(q.len() == p.len());
            assert(q.last() == p.last().push(t.last()));
            assert(q.drop_last() =~= p.drop_last());
            if p.len() == 1 {
                assert(t0 == p[0]);
                assert(q[0] == q.last());
                assert(t =~= t0.push(t.last()));
                assert(join_lines(q) =~= t);
            } else {
                assert(t0 =~= join_lines(p.drop_last()) + seq!['\n'] + p.last());
                assert(t =~= t0.push(t.last()));
                assert(join_lines(q) =~= t);
            }
        }
    }
}

/// The characters of `s`, in order.
pub fn chars_of(s: &str) -> (r: Vec<char>)
    ensures
        r@ == s@,
{
    let mut out: Vec<char> = Vec::new();
    for c in it: s.chars()
        invariant
            out@ == it.seq().take(it.index() as int),
    {
        out.push(c);
    }
    out
}

/// Splits `chars` into its lines, as `lines` describes them.
pub fn split_lines(chars: &Vec<char>) -> (r: Vec<Vec<char>>)
    ensures
        line_views(r@) == lines(chars@),
        r.len() <= chars.len(),
{
    let mut out: Vec<Vec<char>> = Vec::new();
    let mut cur: Vec<char> = Vec::new();
    let mut i: usize = 0;
    proof {
        assert(chars@.take(0) =~= Seq::<char>::empty());
        assert(line_views(out@) =~= pieces(chars@.take(0)).drop_last().map_values(
            |l: Seq<char>| strip_cr(l),
        ));
    }
    while i < chars.len()
        invariant
            i <= chars.len(),
            pieces(chars@.take(i as int)).len() >= 1,
            line_views(out@) == pieces(chars@.take(i as int)).drop_last().map_values(
                |l: Seq<char>| strip_cr(l),
            ),
            cur@ == pieces(chars@.take(i as int)).last(),
            out.len() + cur.len() <= i,
        decreases chars.len() - i,
    {
        let ghost before = chars@.take(i as int);
        proof {
            lemma_pieces_shape(before);
            assert(chars@.take(i + 1).drop_last() =~= before);
        }
        let c = chars[i];
        if c == '\n' {
            let ghost prev = pieces(before);
            let ghost old_out = line_views(out@);
            let ghost stripped = strip_cr(cur@);
            if cur.len() > 0 && cur[cur.len() - 1] == '\r' {
                cur.pop();
            }
            assert(cur@ =~= stripped);
            out.push(cur);
            cur = Vec::new();
            proof {
                assert(line_views(out@) =~= old_out.push(stripped));
                assert(pieces(chars@.take(i + 1)).drop_last() =~= prev);
                assert(prev =~= prev.drop_last().push(prev.last()));
                assert(line_views(out@) =~= prev.map_values(|l: Seq<char>| strip_cr(l)));
                assert(cur@ =~= pieces(chars@.take(i + 1)).last());
            }
        } else {
            cur.push(c);
            proof {
                let now = pieces(chars@.take(i + 1));
                assert(now.drop_last() =~= pieces(before).drop_last());
            }
        }
        i = i + 1;
    }
    proof {
        let p = pieces(chars@);
        assert(chars@.take(chars.len() as int) =~= chars@);
        lemma_pieces_shape(chars@);
        if p.last().len() != 0 {
            assert(p =~= p.drop_last().push(p.last()));
        }
    }
    if cur.len() > 0 {
        let ghost old_out = line_views(out@);
        let ghost stripped = strip_cr(cur@);
        if cur[cur.len() - 1] == '\r' {
            cur.pop();
        }
        assert(cur@ =~= stripped);
        out.push(cur);
        proof {
            assert(line_views(out@) =~= old_out.push(stripped));
            let p = pieces(chars@);
            assert(line_views(out@) =~= p.map_values(|l: Seq<char>| strip_cr(l)));
        }
    }
    out
}

/// The length of `line` without its trailing `'\r'`s.
pub fn trimmed_len(line: &Vec<char>) -> (r: usize)
    ensures
        r <= line.len(),
        trim_cr(line@) == line@.take(r as int),
{
    let mut end = line.len();
    proof {
        assert(line@.take(end as int) =~= line@);
    }
    while end > 0 && line[end - 1] == '\r'
        invariant
            end <= line.len(),
            trim_cr(line@) == trim_cr(line@.take(end as int)),
        decreases end,
    {
        proof {
            assert(line@.take(end as int).drop_last() =~= line@.take(end - 1));
        }
        end = end - 1;
    }
    end
}

} // verus!
