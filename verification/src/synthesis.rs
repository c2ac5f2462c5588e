use vstd::prelude::*;

verus! {

/// The pieces of `s` between its newline characters, in order, as splitting
/// on `'\n'` yields them (a text without newlines is one piece; every newline
/// adds one).
pub open spec fn split_lines(s: Seq<char>) -> Seq<Seq<char>>
    decreases s.len(),
{
    if s.len() == 0 {
        seq![Seq::empty()]
    } else {
        let rest = split_lines(s.drop_last());
        if s.last() == '\n' {
            rest.push(Seq::empty())
        } else {
            rest.update(rest.len() - 1, rest.last().push(s.last()))
        }
    }
}

proof fn lemma_split_lines_nonempty(s: Seq<char>)
    ensures
        split_lines(s).len() >= 1,
    decreases s.len(),
{
    if s.len() > 0 {
        lemma_split_lines_nonempty(s.drop_last());
    }
}

/// The pieces joined back together with a newline between neighbours.
pub open spec fn join_lines(lines: Seq<Seq<char>>) -> Seq<char>
    decreases lines.len(),
{
    if lines.len() <= 1 {
        if lines.len() == 1 {
            lines[0]
        } else {
            Seq::empty()
        }
    } else {
        join_lines(lines.drop_last()) + seq!['\n'] + lines.last()
    }
}

/// The number of newline characters in `s`.
pub open spec fn newline_count(s: Seq<char>) -> nat
    decreases s.len(),
{
    if s.len() == 0 {
        0
    } else {
        newline_count(s.drop_last()) + if s.last() == '\n' {
            1nat
        } else {
            0nat
        }
    }
}

proof fn lemma_join_last_push(lines: Seq<Seq<char>>, c: char)
    requires
        lines.len() >= 1,
    ensures
        join_lines(lines.update(lines.len() - 1, lines.last().push(c))) == join_lines(lines).push(
            c,
        ),
{
    let u = lines.update(lines.len() - 1, lines.last().push(c));
    if lines.len() == 1 {
        assert(u[0] == lines[0].push(c));
    } else {
        assert(u.drop_last() =~= lines.drop_last());
        assert(u.last() == lines.last().push(c));
        assert(join_lines(u) == join_lines(lines.drop_last()) + seq!['\n'] + lines.last().push(c));
        assert(join_lines(lines.drop_last()) + seq!['\n'] + lines.last().push(c) =~= (join_lines(
            lines.drop_last(),
        ) + seq!['\n'] + lines.last()).push(c));
    }
}

/// Splitting at newlines loses nothing: joining the pieces with newlines gives
/// back the text, no piece holds a newline, and there is one piece more than
/// there are newlines.
pub proof fn lemma_split_lines_join(s: Seq<char>)
    ensures
        join_lines(split_lines(s)) == s,
        split_lines(s).len() == newline_count(s) + 1,
        forall|i: int, k: int|
            0 <= i < split_lines(s).len() && 0 <= k < split_lines(s)[i].len() ==> #[trigger] split_lines(
                s,
            )[i][k] != '\n',
    decreases s.len(),
{
    if s.len() == 0 {
        assert(join_lines(split_lines(s)) =~= s);
    } else {
        let p = s.drop_last();
        let c = s.last();
        lemma_split_lines_join(p);
        lemma_split_lines_nonempty(p);
        let rest = split_lines(p);
        if c == '\n' {
            let q = rest.push(Seq::<char>::empty());
            assert(q.drop_last() =~= rest);
            assert(join_lines(q) =~= p + seq!['\n'] + Seq::<char>::empty());
            assert(s =~= p + seq!['\n'] + Seq::<char>::empty());
            assert forall|i: int, k: int|
                0 <= i < q.len() && 0 <= k < q[i].len() implies #[trigger] q[i][k] != '\n' by {
                assert(i < rest.len());
                assert(q[i] == rest[i]);
            }
        } else {
            lemma_join_last_push(rest, c);
            assert(s =~= p.push(c));
            let q = rest.update(rest.len() - 1, rest.last().push(c));
            assert forall|i: int, k: int|
                0 <= i < q.len() && 0 <= k < q[i].len() implies #[trigger] q[i][k] != '\n' by {
                if i == rest.len() - 1 {
                    if k < rest.last().len() {
                        assert(q[i][k] == rest[i][k]);
                    } else {
                        assert(q[i][k] == c);
                    }
                } else {
                    assert(q[i] == rest[i]);
                }
            }
        }
    }
}

/// Splits `text` at each newline character.
pub fn split_lines_exec(text: &str) -> (lines: Vec<String>)
    ensures
        lines@.map_values(|l: String| l@) == split_lines(text@),
{
    let n = text.unicode_len();
    let mut lines: Vec<String> = Vec::new();
    let mut start: usize = 0;
    let mut pos: usize = 0;
    assert(text@.take(0) =~= Seq::<char>::empty());
    assert(lines@.map_values(|l: String| l@).push(text@.subrange(0, 0)) =~= split_lines(
        text@.take(0),
    ));
    for c in it: text.chars()
        invariant
            n == text@.len(),
            it.seq() == text@,
            pos == it.index(),
            start <= pos <= n,
            lines@.map_values(|l: String| l@).push(text@.subrange(start as int, pos as int))
                == split_lines(text@.take(pos as int)),
    {
        proof {
            lemma_split_lines_nonempty(text@.take(pos as int));
        }
        let ghost prev = text@.take(pos as int);
        let ghost old_lines = lines@.map_values(|l: String| l@);
        let ghost cur = text@.subrange(start as int, pos as int);
        assert(c == text@[pos as int]);
        assert(text@.take(pos + 1).drop_last() =~= prev);
        assert(text@.take(pos + 1).last() == c);
        assert(text@.subrange(start as int, pos + 1) =~= cur.push(c));
        let ghost next = text@.take(pos + 1);
        assert(next.len() > 0);
        assert(split_lines(prev) == old_lines.push(cur));
        if c == '\n' {
            assert(split_lines(next) == split_lines(prev).push(Seq::<char>::empty()));
            let piece = text.substring_char(start, pos).to_owned();
            lines.push(piece);
            start = pos + 1;
            assert(lines@.map_values(|l: String| l@) =~= old_lines.push(cur));
            assert(text@.subrange(start as int, pos + 1) =~= Seq::<char>::empty());
            assert(lines@.map_values(|l: String| l@).push(text@.subrange(start as int, pos + 1))
                =~= split_lines(next));
        } else {
            assert(split_lines(next) == split_lines(prev).update(
                split_lines(prev).len() - 1,
                split_lines(prev).last().push(c),
            ));
            assert(lines@.map_values(|l: String| l@) =~= old_lines);
            assert(split_lines(prev).last() == cur);
            assert(lines@.map_values(|l: String| l@).push(text@.subrange(start as int, pos + 1))
                =~= split_lines(next));
        }
        pos = pos + 1;
    }
    let last = text.substring_char(start, n).to_owned();
    lines.push(last);
    assert(text@.take(n as int) == text@);
    assert(lines@.map_values(|l: String| l@) =~= split_lines(text@));
    lines
}

/// Zero samples inserted after a synthesized line when more lines follow it
/// (half a second at the engine's 44.1 kHz output rate).
pub const PAUSE_SAMPLES: usize = 22050;

/// One piece of text to synthesize, and whether a pause follows its audio.
#[derive(Debug)]
pub struct Segment {
    pub text: String,
    pub pause_after: bool,
}

/// The segments made from the first `upto` lines: each non-empty line in
/// order, followed by a pause unless it is the very last line of the text.
pub open spec fn line_segments(lines: Seq<Seq<char>>, upto: nat) -> Seq<(Seq<char>, bool)>
    decreases upto,
{
    if upto == 0 {
        Seq::empty()
    } else {
        let prev = line_segments(lines, (upto - 1) as nat);
        let i = upto - 1;
        if lines[i].len() == 0 {
            prev
        } else {
            prev.push((lines[i], i != lines.len() - 1))
        }
    }
}

/// What is synthesized for `text`: with sentence splitting, the non-empty
/// lines (a pause after each one that is not the text's last line); without
/// it, the whole text as one segment with no pause.
pub open spec fn synthesis_plan(text: Seq<char>, split_sentences: bool) -> Seq<(Seq<char>, bool)> {
    if split_sentences {
        line_segments(split_lines(text), split_lines(text).len())
    } else {
        seq![(text, false)]
    }
}

/// Every segment is a non-empty piece of text without newlines.
pub open spec fn plain_segments(segs: Seq<(Seq<char>, bool)>) -> bool {
    &&& forall|k: int| 0 <= k < segs.len() ==> #[trigger] segs[k].0.len() > 0
    &&& forall|k: int, j: int|
        0 <= k < segs.len() && 0 <= j < segs[k].0.len() ==> #[trigger] segs[k].0[j] != '\n'
}

/// Every segment is followed by a pause.
pub open spec fn all_paused(segs: Seq<(Seq<char>, bool)>) -> bool {
    forall|k: int| 0 <= k < segs.len() ==> #[trigger] segs[k].1
}

proof fn lemma_line_segments(lines: Seq<Seq<char>>, upto: nat)
    requires
        upto <= lines.len(),
        forall|i: int, k: int|
            0 <= i < lines.len() && 0 <= k < lines[i].len() ==> #[trigger] lines[i][k] != '\n',
    ensures
        plain_segments(line_segments(lines, upto)),
        upto < lines.len() ==> all_paused(line_segments(lines, upto)),
        line_segments(lines, upto).len() == 0 <==> forall|i: int|
            0 <= i < upto ==> #[trigger] lines[i].len() == 0,
    decreases upto,
{
    if upto > 0 {
        let prev = line_segments(lines, (upto - 1) as nat);
        lemma_line_segments(lines, (upto - 1) as nat);
        let i = upto - 1;
        let cur = line_segments(lines, upto);
        if lines[i].len() == 0 {
            assert(cur == prev);
            if cur.len() == 0 {
                assert forall|j: int| 0 <= j < upto implies #[trigger] lines[j].len() == 0 by {
                    if j < i {
                    }
                }
            }
        } else {
            assert(cur == prev.push((lines[i], i != lines.len() - 1)));
            assert forall|k: int, j: int|
                0 <= k < cur.len() && 0 <= j < cur[k].0.len() implies #[trigger] cur[k].0[j]
                != '\n' by {
                if k < prev.len() {
                    assert(cur[k] == prev[k]);
                    assert(prev[k].0[j] != '\n');
                } else {
                    assert(cur[k].0 == lines[i]);
                    assert(lines[i][j] != '\n');
                }
            }
            assert forall|k: int| 0 <= k < cur.len() implies #[trigger] cur[k].0.len() > 0 by {
                if k < prev.len() {
                    assert(cur[k] == prev[k]);
                    assert(prev[k].0.len() > 0);
                } else {
                    assert(cur[k].0 == lines[i]);
                }
            }
            assert forall|k: int| 0 <= k < cur.len() && upto < lines.len() implies #[trigger] cur[k].1 by {
                if k < prev.len() {
                    assert(cur[k] == prev[k]);
                }
            }
            assert(!(forall|j: int| 0 <= j < upto ==> #[trigger] lines[j].len() == 0)) by {
                assert(lines[i].len() != 0);
            }
        }
    }
}

proof fn lemma_lines_all_empty(s: Seq<char>)
    ensures
        (forall|i: int| 0 <= i < split_lines(s).len() ==> #[trigger] split_lines(s)[i].len() == 0)
            <==> (forall|k: int| 0 <= k < s.len() ==> #[trigger] s[k] == '\n'),
    decreases s.len(),
{
    if s.len() > 0 {
        let p = s.drop_last();
        lemma_lines_all_empty(p);
        lemma_split_lines_nonempty(p);
        let rest = split_lines(p);
        let q = split_lines(s);
        if s.last() == '\n' {
            assert(q == rest.push(Seq::<char>::empty()));
            if forall|k: int| 0 <= k < p.len() ==> #[trigger] p[k] == '\n' {
                assert forall|k: int| 0 <= k < s.len() implies #[trigger] s[k] == '\n' by {
                    if k < p.len() {
                        assert(s[k] == p[k]);
                    }
                }
                assert forall|i: int| 0 <= i < q.len() implies #[trigger] q[i].len() == 0 by {
                    if i < rest.len() {
                        assert(q[i] == rest[i]);
                    }
                }
            } else {
                let k = choose|k: int| 0 <= k < p.len() && #[trigger] p[k] != '\n';
                assert(s[k] == p[k]);
                let i = choose|i: int| 0 <= i < rest.len() && #[trigger] rest[i].len() != 0;
                assert(q[i] == rest[i]);
            }
        } else {
            let last = q.len() - 1;
            assert(q[last] == rest.last().push(s.last()));
            assert(q[last].len() != 0);
            assert(s[s.len() - 1] != '\n');
        }
    }
}

/// The shape of the split plan: every segment is a non-empty piece of text
/// without newlines; every segment but the last is followed by a pause; the
/// last one is followed by a pause exactly when the text ends in an empty line
/// (a trailing newline); and there is nothing to synthesize exactly when the
/// text consists of newlines only.
pub proof fn lemma_synthesis_plan_shape(text: Seq<char>)
    ensures
        ({
            let plan = synthesis_plan(text, true);
            &&& forall|k: int| 0 <= k < plan.len() ==> #[trigger] plan[k].0.len() > 0
            &&& forall|k: int, j: int|
                0 <= k < plan.len() && 0 <= j < plan[k].0.len() ==> #[trigger] plan[k].0[j]
                    != '\n'
            &&& forall|k: int| 0 <= k < plan.len() - 1 ==> #[trigger] plan[k].1
            &&& plan.len() > 0 ==> (plan.last().1 <==> split_lines(text).last().len() == 0)
            &&& plan.len() == 0 <==> forall|k: int| 0 <= k < text.len() ==> #[trigger] text[k]
                == '\n'
        }),
{
    let lines = split_lines(text);
    lemma_split_lines_join(text);
    lemma_split_lines_nonempty(text);
    lemma_lines_all_empty(text);
    let n = lines.len();
    lemma_line_segments(lines, n);
    lemma_line_segments(lines, (n - 1) as nat);
    let plan = synthesis_plan(text, true);
    let prev = line_segments(lines, (n - 1) as nat);
    assert(plan == line_segments(lines, n));
    if lines[n - 1].len() == 0 {
        assert(plan == prev);
    } else {
        assert(plan == prev.push((lines[n - 1], false)));
        assert forall|k: int| 0 <= k < plan.len() - 1 implies #[trigger] plan[k].1 by {
            assert(plan[k] == prev[k]);
        }
    }
}

/// The lines of a text that are not empty, in order.
pub open spec fn non_empty_lines(lines: Seq<Seq<char>>) -> Seq<Seq<char>> {
    lines.filter(|l: Seq<char>| l.len() > 0)
}

proof fn lemma_line_segments_texts(lines: Seq<Seq<char>>, upto: nat)
    requires
        upto <= lines.len(),
    ensures
        line_segments(lines, upto).map_values(|p: (Seq<char>, bool)| p.0) == non_empty_lines(
            lines.take(upto as int),
        ),
    decreases upto,
{
    reveal(Seq::filter);
    let t = lines.take(upto as int);
    if upto == 0 {
        assert(t =~= Seq::<Seq<char>>::empty());
        assert(line_segments(lines, upto).map_values(|p: (Seq<char>, bool)| p.0) =~= Seq::<
            Seq<char>,
        >::empty());
    } else {
        lemma_line_segments_texts(lines, (upto - 1) as nat);
        let i = upto - 1;
        assert(t.drop_last() =~= lines.take(i));
        assert(t.last() == lines[i]);
        let prev = line_segments(lines, (upto - 1) as nat);
        if lines[i].len() == 0 {
        } else {
            assert(line_segments(lines, upto).map_values(|p: (Seq<char>, bool)| p.0)
                =~= prev.map_values(|p: (Seq<char>, bool)| p.0).push(lines[i]));
        }
    }
}

/// With sentence splitting, the segments' texts are exactly the non-empty
/// lines of the text, unchanged and in order: the `k`-th segment speaks the
/// `k`-th non-empty piece between newlines, whole.
pub proof fn lemma_segments_are_the_non_empty_lines(text: Seq<char>)
    ensures
        synthesis_plan(text, true).len() == non_empty_lines(split_lines(text)).len(),
        forall|k: int|
            0 <= k < synthesis_plan(text, true).len() ==> #[trigger] synthesis_plan(text, true)[k].0
                == non_empty_lines(split_lines(text))[k],
{
    let lines = split_lines(text);
    lemma_line_segments_texts(lines, lines.len());
    assert(lines.take(lines.len() as int) =~= lines);
    let plan = synthesis_plan(text, true);
    assert forall|k: int| 0 <= k < plan.len() implies #[trigger] plan[k].0 == non_empty_lines(
        lines,
    )[k] by {
        assert(plan.map_values(|p: (Seq<char>, bool)| p.0)[k] == plan[k].0);
    }
}

/// The abstract value of a list of segments.
pub open spec fn segments_view(segs: Seq<Segment>) -> Seq<(Seq<char>, bool)> {
    segs.map_values(|g: Segment| (g.text@, g.pause_after))
}

/// The segments to synthesize for `text`, in order.
pub fn synthesis_segments(text: &str, split_sentences: bool) -> (segs: Vec<Segment>)
    ensures
        segments_view(segs@) == synthesis_plan(text@, split_sentences),
{
    if !split_sentences {
        let mut segs: Vec<Segment> = Vec::new();
        segs.push(Segment { text: text.to_owned(), pause_after: false });
        assert(segments_view(segs@) =~= synthesis_plan(text@, split_sentences));
        return segs;
    }
    let lines = split_lines_exec(text);
    let ghost ls = lines@.map_values(|l: String| l@);
    let n = lines.len();
    let mut segs: Vec<Segment> = Vec::new();
    let mut i: usize = 0;
    assert(segments_view(segs@) =~= line_segments(ls, 0));
    while i < n
        invariant
            n == lines@.len(),
            ls == lines@.map_values(|l: String| l@),
            ls == split_lines(text@),
            0 <= i <= n,
            segments_view(segs@) == line_segments(ls, i as nat),
        decreases n - i,
    {
        let ghost prev = segments_view(segs@);
        assert(ls[i as int] == lines@[i as int]@);
        if !lines[i].as_str().is_empty() {
            let t = lines[i].clone();
            segs.push(Segment { text: t, pause_after: i != n - 1 });
            assert(segments_view(segs@) =~= prev.push((ls[i as int], i != n - 1)));
        }
        i = i + 1;
    }
    segs
}

} // verus!
