use vstd::prelude::*;

verus! {

/// `items` with `sep` before, between and after them:
/// `[sep, items[0], sep, items[1], ..., sep]`.
pub open spec fn interspersed<T>(items: Seq<T>, sep: T) -> Seq<T> {
    Seq::new(
        2 * items.len() + 1,
        |i: int|
            if i % 2 == 0 {
                sep
            } else {
                items[i / 2]
            },
    )
}

/// Puts `sep` before, between and after the items (the blank-token layout the
/// acoustic model expects for phone, tone and language sequences).
pub fn intersperse<T: Copy>(items: &Vec<T>, sep: T) -> (r: Vec<T>)
    requires
        2 * items@.len() + 1 <= usize::MAX,
    ensures
        r@ == interspersed(items@, sep),
{
    let n = items.len();
    let mut r: Vec<T> = Vec::new();
    r.push(sep);
    let mut k: usize = 0;
    while k < n
        invariant
            n == items@.len(),
            2 * n + 1 <= usize::MAX,
            0 <= k <= n,
            r@.len() == 2 * k + 1,
            forall|i: int| 0 <= i < r@.len() ==> #[trigger] r@[i] == interspersed(items@, sep)[i],
        decreases n - k,
    {
        r.push(items[k]);
        r.push(sep);
        k = k + 1;
        assert forall|i: int| 0 <= i < r@.len() implies #[trigger] r@[i] == interspersed(
            items@,
            sep,
        )[i] by {
            if i == 2 * k - 1 {
                assert((2 * k - 1) % 2 == 1 && (2 * k - 1) / 2 == k - 1) by (nonlinear_arith)
                    requires k >= 1;
            } else if i == 2 * k {
                assert((2 * k) % 2 == 0) by (nonlinear_arith);
            }
        }
    }
    assert(r@ =~= interspersed(items@, sep));
    r
}

/// The sum of a sequence of counts.
pub open spec fn total(s: Seq<i32>) -> int
    decreases s.len(),
{
    if s.len() == 0 {
        0
    } else {
        total(s.drop_last()) + s.last()
    }
}

/// The per-character phone counts after interspersing blanks: every count
/// doubles (each phone gains the blank before it) and the first character also
/// takes the leading blank.
pub open spec fn doubled_counts(w: Seq<i32>) -> Seq<int> {
    Seq::new(w.len(), |i: int| 2 * w[i] + if i == 0 { 1int } else { 0int })
}

/// Adjusts per-character phone counts to the interspersed phone sequence.
pub fn double_word2ph(word2ph: &mut Vec<i32>)
    requires
        old(word2ph)@.len() > 0,
        forall|i: int|
            0 <= i < old(word2ph)@.len() ==> i32::MIN <= #[trigger] doubled_counts(
                old(word2ph)@,
            )[i] <= i32::MAX,
    ensures
        final(word2ph)@.len() == old(word2ph)@.len(),
        forall|i: int|
            0 <= i < final(word2ph)@.len() ==> #[trigger] final(word2ph)@[i] == doubled_counts(
                old(word2ph)@,
            )[i],
{
    let n = word2ph.len();
    let mut i: usize = 0;
    while i < n
        invariant
            n == word2ph@.len(),
            n == old(word2ph)@.len(),
            0 <= i <= n,
            forall|j: int|
                0 <= j < n ==> i32::MIN <= #[trigger] doubled_counts(old(word2ph)@)[j]
                    <= i32::MAX,
            forall|j: int| 0 <= j < i ==> #[trigger] word2ph@[j] == 2 * old(word2ph)@[j],
            forall|j: int| i <= j < n ==> #[trigger] word2ph@[j] == old(word2ph)@[j],
        decreases n - i,
    {
        let ghost d = doubled_counts(old(word2ph)@)[i as int];
        let x = word2ph[i];
        assert(i32::MIN <= 2 * x <= i32::MAX) by {
            if i == 0 {
                assert(d == 2 * x + 1);
            } else {
                assert(d == 2 * x);
            }
        }
        word2ph.set(i, x * 2);
        i = i + 1;
    }
    let first = word2ph[0];
    assert(doubled_counts(old(word2ph)@)[0] == first + 1);
    word2ph.set(0, first + 1);
}

/// Whether the counts cover `kana` with one entry per character plus the two
/// sentence boundary tokens.
pub fn counts_cover(word2ph: &Vec<i32>, kana: &str) -> (ok: bool)
    ensures
        ok == (word2ph@.len() == kana@.len() + 2),
{
    let n = kana.unicode_len();
    word2ph.len() >= 2 && word2ph.len() - 2 == n
}

/// The row of the per-token feature matrix that each phone frame copies:
/// token `i` contributes `w[i]` consecutive frames, in token order.
pub open spec fn frame_rows(w: Seq<i32>) -> Seq<usize>
    decreases w.len(),
{
    if w.len() == 0 {
        Seq::empty()
    } else {
        frame_rows(w.drop_last()) + Seq::new(
            if w.last() >= 0 {
                w.last() as nat
            } else {
                0
            },
            |j: int| (w.len() - 1) as usize,
        )
    }
}

proof fn lemma_frame_rows_len(w: Seq<i32>)
    requires
        forall|i: int| 0 <= i < w.len() ==> #[trigger] w[i] >= 0,
    ensures
        frame_rows(w).len() == total(w),
    decreases w.len(),
{
    if w.len() > 0 {
        lemma_frame_rows_len(w.drop_last());
    }
}

proof fn lemma_total_prefix_bound(w: Seq<i32>, k: int)
    requires
        0 <= k <= w.len(),
        forall|i: int| 0 <= i < w.len() ==> #[trigger] w[i] >= 0,
    ensures
        total(w.take(k)) <= total(w),
    decreases w.len() - k,
{
    if k < w.len() {
        lemma_total_prefix_bound(w, k + 1);
        assert(w.take(k + 1).drop_last() =~= w.take(k));
    } else {
        assert(w.take(k) =~= w);
    }
}

proof fn lemma_total_nonneg(w: Seq<i32>)
    requires
        forall|i: int| 0 <= i < w.len() ==> #[trigger] w[i] >= 0,
    ensures
        total(w) >= 0,
    decreases w.len(),
{
    if w.len() > 0 {
        lemma_total_nonneg(w.drop_last());
    }
}

proof fn lemma_frame_rows_split(w: Seq<i32>)
    requires
        w.len() > 0,
        w.len() <= usize::MAX,
        forall|i: int| 0 <= i < w.len() ==> #[trigger] w[i] >= 0,
    ensures
        forall|i: int| 0 <= i < w.drop_last().len() ==> #[trigger] w.drop_last()[i] >= 0,
        frame_rows(w).len() == total(w),
        frame_rows(w.drop_last()).len() == total(w.drop_last()),
        forall|t: int|
            0 <= t < frame_rows(w.drop_last()).len() ==> #[trigger] frame_rows(w)[t]
                == frame_rows(w.drop_last())[t],
        forall|t: int|
            frame_rows(w.drop_last()).len() <= t < frame_rows(w).len() ==> #[trigger] frame_rows(
                w,
            )[t] == w.len() - 1,
{
    let p = w.drop_last();
    assert forall|i: int| 0 <= i < p.len() implies #[trigger] p[i] >= 0 by {
        assert(p[i] == w[i]);
    }
    lemma_frame_rows_len(w);
    lemma_frame_rows_len(p);
    let reps: nat = if w.last() >= 0 {
        w.last() as nat
    } else {
        0
    };
    let block = Seq::new(reps, |j: int| (w.len() - 1) as usize);
    assert(frame_rows(w) == frame_rows(p) + block);
    assert forall|t: int|
        frame_rows(p).len() <= t < frame_rows(w).len() implies #[trigger] frame_rows(w)[t] == w.len()
        - 1 by {
        assert(frame_rows(w)[t] == block[t - frame_rows(p).len()]);
    }
}

proof fn lemma_frame_row_at(w: Seq<i32>, i: int, t: int)
    requires
        forall|k: int| 0 <= k < w.len() ==> #[trigger] w[k] >= 0,
        w.len() <= usize::MAX,
        0 <= i < w.len(),
        total(w.take(i)) <= t < total(w.take(i + 1)),
    ensures
        t < frame_rows(w).len(),
        frame_rows(w)[t] == i,
    decreases w.len(),
{
    lemma_frame_rows_split(w);
    let p = w.drop_last();
    let n = w.len() - 1;
    assert(w.take(n + 1) =~= w);
    assert(w.take(n) =~= p);
    assert(w.take(i) =~= p.take(i));
    assert forall|j: int| 0 <= j < p.take(i).len() implies #[trigger] p.take(i)[j] >= 0 by {
        assert(p.take(i)[j] == w[j]);
    }
    lemma_total_nonneg(p.take(i));
    if i < n {
        assert(w.take(i + 1) =~= p.take(i + 1));
        lemma_total_prefix_bound(p, i + 1);
        lemma_frame_row_at(p, i, t);
    }
}

proof fn lemma_frame_row_block(w: Seq<i32>, t: int)
    requires
        forall|k: int| 0 <= k < w.len() ==> #[trigger] w[k] >= 0,
        w.len() <= usize::MAX,
        0 <= t < frame_rows(w).len(),
    ensures
        0 <= frame_rows(w)[t] < w.len(),
        total(w.take(frame_rows(w)[t] as int)) <= t < total(w.take(frame_rows(w)[t] + 1)),
    decreases w.len(),
{
    lemma_frame_rows_len(w);
    if w.len() > 0 {
        lemma_frame_rows_split(w);
        let p = w.drop_last();
        let n = w.len() - 1;
        assert(w.take(n + 1) =~= w);
        assert(w.take(n) =~= p);
        if t < frame_rows(p).len() {
            lemma_frame_row_block(p, t);
            let r = frame_rows(p)[t] as int;
            assert(w.take(r) =~= p.take(r));
            assert(w.take(r + 1) =~= p.take(r + 1));
        }
    }
}

/// Whether frame `t` lies in token `i`'s block: the `w[i]` frames that start
/// right after the frames of the tokens before `i`.
pub open spec fn in_block(w: Seq<i32>, i: int, t: int) -> bool {
    total(w.take(i)) <= t < total(w.take(i + 1))
}

/// Frame `t` of `rows` carries token `i` exactly when `t` lies in token `i`'s
/// block, and there is one frame per counted phone.
pub open spec fn rows_follow_blocks(w: Seq<i32>, rows: Seq<usize>) -> bool {
    &&& rows.len() == total(w)
    &&& forall|i: int, t: int|
        0 <= i < w.len() && #[trigger] in_block(w, i, t) ==> t < rows.len() && rows[t] == i
    &&& forall|t: int|
        0 <= t < rows.len() ==> 0 <= #[trigger] rows[t] < w.len() && in_block(
            w,
            rows[t] as int,
            t,
        )
}

/// Token `i`'s frames are the consecutive frames from `total(w.take(i))` up to
/// `total(w.take(i + 1))`, and every one of them carries row `i`; a frame
/// carries row `i` only if it lies in that block.
pub proof fn lemma_frame_rows_blocks(w: Seq<i32>)
    requires
        forall|i: int| 0 <= i < w.len() ==> #[trigger] w[i] >= 0,
        w.len() <= usize::MAX,
    ensures
        rows_follow_blocks(w, frame_rows(w)),
{
    lemma_frame_rows_len(w);
    let rows = frame_rows(w);
    assert forall|i: int, t: int|
        0 <= i < w.len() && #[trigger] in_block(w, i, t) implies t < rows.len() && rows[t] == i by {
        lemma_frame_row_at(w, i, t);
    }
    assert forall|t: int| 0 <= t < rows.len() implies 0 <= #[trigger] rows[t] < w.len() && in_block(
        w,
        rows[t] as int,
        t,
    ) by {
        lemma_frame_row_block(w, t);
    }
}

/// For each phone frame, the token whose features it carries (the alignment
/// that spreads per-token BERT features over the phone sequence).
pub fn phone_level_rows(word2ph: &Vec<i32>) -> (rows: Vec<usize>)
    requires
        forall|i: int| 0 <= i < word2ph@.len() ==> #[trigger] word2ph@[i] >= 0,
        total(word2ph@) <= usize::MAX,
    ensures
        rows@ == frame_rows(word2ph@),
        rows@.len() == total(word2ph@),
        rows_follow_blocks(word2ph@, rows@),
{
    let n = word2ph.len();
    let mut rows: Vec<usize> = Vec::new();
    let mut i: usize = 0;
    assert(word2ph@.take(0) =~= Seq::<i32>::empty());
    while i < n
        invariant
            n == word2ph@.len(),
            0 <= i <= n,
            forall|k: int| 0 <= k < n ==> #[trigger] word2ph@[k] >= 0,
            total(word2ph@) <= usize::MAX,
            rows@ == frame_rows(word2ph@.take(i as int)),
        decreases n - i,
    {
        let ghost before = rows@;
        let ghost pre = word2ph@.take(i as int);
        let ghost next = word2ph@.take(i + 1);
        assert(next.drop_last() =~= pre);
        proof {
            lemma_frame_rows_len(pre);
            lemma_frame_rows_len(next);
            lemma_total_prefix_bound(word2ph@, i + 1);
        }
        let reps = word2ph[i];
        let mut j: i32 = 0;
        while j < reps
            invariant
                0 <= j <= reps,
                reps == word2ph@[i as int],
                reps >= 0,
                i < n,
                rows@.len() == before.len() + j,
                before.len() + reps <= usize::MAX,
                rows@.subrange(0, before.len() as int) == before,
                forall|t: int| before.len() <= t < rows@.len() ==> #[trigger] rows@[t] == i,
            decreases reps - j,
        {
            rows.push(i);
            j = j + 1;
        }
        assert(rows@ =~= frame_rows(next));
        i = i + 1;
    }
    assert(word2ph@.take(n as int) =~= word2ph@);
    proof {
        lemma_frame_rows_len(word2ph@);
        lemma_frame_rows_blocks(word2ph@);
    }
    rows
}

proof fn lemma_doubled_total_prefix(w: Seq<i32>, d: Seq<i32>, k: int)
    requires
        d.len() == w.len(),
        0 <= k <= w.len(),
        forall|i: int| 0 <= i < w.len() ==> #[trigger] d[i] == doubled_counts(w)[i],
    ensures
        total(d.take(k)) == 2 * total(w.take(k)) + if k > 0 {
            1int
        } else {
            0int
        },
    decreases k,
{
    if k == 0 {
        assert(d.take(0) =~= Seq::<i32>::empty());
        assert(w.take(0) =~= Seq::<i32>::empty());
    } else {
        lemma_doubled_total_prefix(w, d, k - 1);
        assert(d.take(k).drop_last() =~= d.take(k - 1));
        assert(w.take(k).drop_last() =~= w.take(k - 1));
        assert(d[k - 1] == doubled_counts(w)[k - 1]);
    }
}

/// The alignment is consistent: when the per-character counts add up to the
/// number of phones `n`, the adjusted counts add up to `2n + 1`, which is the
/// length of the interspersed phone sequence, and the frame alignment has one
/// row per interspersed phone.
pub proof fn lemma_alignment_consistent<T>(w: Seq<i32>, d: Seq<i32>, phones: Seq<T>, sep: T)
    requires
        w.len() > 0,
        d.len() == w.len(),
        forall|i: int| 0 <= i < w.len() ==> #[trigger] w[i] >= 0,
        forall|i: int| 0 <= i < w.len() ==> #[trigger] d[i] == doubled_counts(w)[i],
        total(w) == phones.len(),
    ensures
        total(d) == interspersed(phones, sep).len(),
        frame_rows(d).len() == interspersed(phones, sep).len(),
{
    lemma_doubled_total_prefix(w, d, w.len() as int);
    assert(d.take(d.len() as int) =~= d);
    assert(w.take(w.len() as int) =~= w);
    assert forall|i: int| 0 <= i < d.len() implies #[trigger] d[i] >= 0 by {
        assert(d[i] == doubled_counts(w)[i]);
    }
    lemma_frame_rows_len(d);
}

} // verus!
