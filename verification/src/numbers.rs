use vstd::prelude::*;

verus! {

/// An ASCII decimal digit.
pub open spec fn is_digit(c: char) -> bool {
    '0' <= c <= '9'
}

/// Every character of `s` is a decimal digit.
pub open spec fn all_digits(s: Seq<char>) -> bool {
    forall|k: int| 0 <= k < s.len() ==> #[trigger] is_digit(s[k])
}

/// The value of a run of decimal digits.
pub open spec fn digits_value(s: Seq<char>) -> int
    decreases s.len(),
{
    if s.len() == 0 {
        0
    } else {
        digits_value(s.drop_last()) * 10 + (s.last() as int - '0' as int)
    }
}

/// `s` without one leading `+` or `-`.
pub open spec fn without_sign(s: Seq<char>) -> Seq<char> {
    if s.len() > 0 && (s[0] == '+' || s[0] == '-') {
        s.drop_first()
    } else {
        s
    }
}

/// What parsing `s` as an `i32` gives: an optional sign followed by at least
/// one decimal digit and nothing else, whose value fits in an `i32`.
pub open spec fn parsed_i32(s: Seq<char>) -> Option<i32> {
    let body = without_sign(s);
    let negative = s.len() > 0 && s[0] == '-';
    let v = if negative {
        -digits_value(body)
    } else {
        digits_value(body)
    };
    if body.len() > 0 && all_digits(body) && i32::MIN <= v <= i32::MAX {
        Some(v as i32)
    } else {
        None
    }
}

proof fn lemma_digits_value_nonneg(s: Seq<char>)
    requires
        all_digits(s),
    ensures
        digits_value(s) >= 0,
    decreases s.len(),
{
    if s.len() > 0 {
        assert(is_digit(s[s.len() - 1]));
        assert(all_digits(s.drop_last())) by {
            assert forall|k: int| 0 <= k < s.drop_last().len() implies #[trigger] is_digit(
                s.drop_last()[k],
            ) by {
                assert(s.drop_last()[k] == s[k]);
            }
        }
        lemma_digits_value_nonneg(s.drop_last());
    }
}

proof fn lemma_digits_value_grows(s: Seq<char>, k: int)
    requires
        all_digits(s),
        0 <= k <= s.len(),
    ensures
        digits_value(s.take(k)) <= digits_value(s),
    decreases s.len() - k,
{
    if k < s.len() {
        lemma_digits_value_grows(s, k + 1);
        let t = s.take(k + 1);
        assert(t.drop_last() =~= s.take(k));
        assert(all_digits(s.take(k))) by {
            assert forall|j: int| 0 <= j < s.take(k).len() implies #[trigger] is_digit(
                s.take(k)[j],
            ) by {
                assert(s.take(k)[j] == s[j]);
            }
        }
        lemma_digits_value_nonneg(s.take(k));
        assert(is_digit(s[k]));
        assert(t.last() == s[k]);
    } else {
        assert(s.take(k) =~= s);
    }
}

/// Parses a decimal `i32` as `str::parse::<i32>` does.
pub fn parse_i32(s: &Vec<char>) -> (r: Option<i32>)
    ensures
        r == parsed_i32(s@),
{
    let n = s.len();
    let mut start: usize = 0;
    let mut negative = false;
    if n > 0 && (s[0] == '+' || s[0] == '-') {
        start = 1;
        negative = s[0] == '-';
    }
    let ghost body = without_sign(s@);
    assert(body =~= s@.skip(start as int));
    if start == n {
        return None;
    }
    let mut acc: u64 = 0;
    let mut i: usize = start;
    while i < n
        invariant
            n == s@.len(),
            start <= i <= n,
            body == s@.skip(start as int),
            body == without_sign(s@),
            negative == (s@.len() > 0 && s@[0] == '-'),
            all_digits(body.take(i - start)),
            acc == digits_value(body.take(i - start)),
            acc <= 2147483648,
        decreases n - i,
    {
        let c = s[i];
        let ghost pre = body.take(i - start);
        assert(body.take(i - start + 1).drop_last() =~= pre);
        assert(body[i - start] == c);
        if !('0' <= c && c <= '9') {
            assert(!all_digits(body)) by {
                assert(!is_digit(body[i - start]));
            }
            return None;
        }
        let d = (c as u32 - '0' as u32) as u64;
        acc = acc * 10 + d;
        assert(all_digits(body.take(i - start + 1))) by {
            assert forall|k: int| 0 <= k < body.take(i - start + 1).len() implies #[trigger] is_digit(
                body.take(i - start + 1)[k],
            ) by {
                if k < i - start {
                    assert(body.take(i - start + 1)[k] == pre[k]);
                }
            }
        }
        if acc > 2147483648 {
            assert(all_digits(body) ==> digits_value(body) > 2147483648) by {
                if all_digits(body) {
                    lemma_digits_value_grows(body, i - start + 1);
                }
            }
            return None;
        }
        i = i + 1;
    }
    assert(body.take(n - start) =~= body);
    if negative {
        let v = acc as i64;
        Some((-v) as i32)
    } else if acc <= 2147483647 {
        Some(acc as i32)
    } else {
        None
    }
}

/// `s` spells the ASCII word given in `lower` and `upper` case, each letter in
/// either case.
pub open spec fn spells_ignoring_case(s: Seq<char>, lower: Seq<char>, upper: Seq<char>) -> bool {
    &&& s.len() == lower.len()
    &&& forall|k: int| 0 <= k < s.len() ==> #[trigger] s[k] == lower[k] || s[k] == upper[k]
}

/// `Digit+ | Digit+ '.' Digit* | Digit* '.' Digit+`
pub open spec fn is_mantissa(t: Seq<char>) -> bool {
    ||| t.len() > 0 && all_digits(t)
    ||| exists|p: int|
        0 <= p < t.len() && #[trigger] t[p] == '.' && all_digits(t.take(p)) && all_digits(
            t.skip(p + 1),
        ) && (p > 0 || p + 1 < t.len())
}

/// `'e' Sign? Digit+`, the `e` in either case.
pub open spec fn is_exponent(e: Seq<char>) -> bool {
    &&& e.len() > 0
    &&& (e[0] == 'e' || e[0] == 'E')
    &&& without_sign(e.drop_first()).len() > 0
    &&& all_digits(without_sign(e.drop_first()))
}

/// `Mantissa Exponent?`
pub open spec fn is_decimal(b: Seq<char>) -> bool {
    ||| is_mantissa(b)
    ||| exists|m: int|
        0 < m < b.len() && is_mantissa(#[trigger] b.take(m)) && is_exponent(b.skip(m))
}

/// The strings that parsing as `f32` accepts, per the grammar the standard
/// library documents for `f32::from_str`: an optional sign, then `inf`,
/// `infinity` or `nan` in any case, or a decimal number with an optional
/// exponent. Surrounding whitespace is not accepted.
pub open spec fn is_float_literal(s: Seq<char>) -> bool {
    let b = without_sign(s);
    ||| spells_ignoring_case(b, seq!['i', 'n', 'f'], seq!['I', 'N', 'F'])
    ||| spells_ignoring_case(
        b,
        seq!['i', 'n', 'f', 'i', 'n', 'i', 't', 'y'],
        seq!['I', 'N', 'F', 'I', 'N', 'I', 'T', 'Y'],
    )
    ||| spells_ignoring_case(b, seq!['n', 'a', 'n'], seq!['N', 'A', 'N'])
    ||| is_decimal(b)
}

proof fn lemma_mantissa_chars(t: Seq<char>, k: int)
    requires
        is_mantissa(t),
        0 <= k < t.len(),
    ensures
        is_digit(t[k]) || t[k] == '.',
{
    if !(t.len() > 0 && all_digits(t)) {
        let p = choose|p: int|
            0 <= p < t.len() && #[trigger] t[p] == '.' && all_digits(t.take(p)) && all_digits(
                t.skip(p + 1),
            ) && (p > 0 || p + 1 < t.len());
        if k < p {
            assert(t.take(p)[k] == t[k]);
        } else if k > p {
            assert(t.skip(p + 1)[k - p - 1] == t[k]);
        }
    }
}

fn spells(b: &Vec<char>, lower: &Vec<char>, upper: &Vec<char>) -> (r: bool)
    requires
        lower@.len() == upper@.len(),
    ensures
        r == spells_ignoring_case(b@, lower@, upper@),
{
    if b.len() != lower.len() {
        return false;
    }
    let n = b.len();
    let mut k: usize = 0;
    while k < n
        invariant
            n == b@.len(),
            n == lower@.len(),
            n == upper@.len(),
            0 <= k <= n,
            forall|j: int| 0 <= j < k ==> #[trigger] b@[j] == lower@[j] || b@[j] == upper@[j],
        decreases n - k,
    {
        let c = b[k];
        if !(c == lower[k] || c == upper[k]) {
            return false;
        }
        k = k + 1;
    }
    true
}

fn digits_between(v: &Vec<char>, lo: usize, hi: usize) -> (r: bool)
    requires
        lo <= hi <= v@.len(),
    ensures
        r == all_digits(v@.subrange(lo as int, hi as int)),
{
    let mut k: usize = lo;
    while k < hi
        invariant
            lo <= k <= hi,
            hi <= v@.len(),
            forall|j: int| lo <= j < k ==> #[trigger] is_digit(v@[j]),
        decreases hi - k,
    {
        let c = v[k];
        if !('0' <= c && c <= '9') {
            assert(v@.subrange(lo as int, hi as int)[k - lo] == c);
            assert(!is_digit(v@.subrange(lo as int, hi as int)[k - lo]));
            return false;
        }
        k = k + 1;
    }
    assert forall|j: int| 0 <= j < hi - lo implies #[trigger] is_digit(
        v@.subrange(lo as int, hi as int)[j],
    ) by {
        assert(v@.subrange(lo as int, hi as int)[j] == v@[lo + j]);
    }
    true
}

fn first_of(v: &Vec<char>, lo: usize, a: char, b: char) -> (r: usize)
    requires
        lo <= v@.len(),
    ensures
        lo <= r <= v@.len(),
        forall|k: int| lo <= k < r ==> #[trigger] v@[k] != a && v@[k] != b,
        r < v@.len() ==> v@[r as int] == a || v@[r as int] == b,
{
    let n = v.len();
    let mut k: usize = lo;
    while k < n
        invariant
            n == v@.len(),
            lo <= k <= n,
            forall|j: int| lo <= j < k ==> #[trigger] v@[j] != a && v@[j] != b,
        decreases n - k,
    {
        if v[k] == a || v[k] == b {
            return k;
        }
        k = k + 1;
    }
    n
}

fn mantissa_between(v: &Vec<char>, lo: usize, hi: usize) -> (r: bool)
    requires
        lo <= hi <= v@.len(),
    ensures
        r == is_mantissa(v@.subrange(lo as int, hi as int)),
{
    let ghost t = v@.subrange(lo as int, hi as int);
    let w = first_of(v, lo, '.', '.');
    if w >= hi {
        let r = hi > lo && digits_between(v, lo, hi);
        assert forall|p: int| 0 <= p < t.len() implies #[trigger] t[p] != '.' by {
            assert(t[p] == v@[lo + p]);
        }
        r
    } else {
        let ghost p = w - lo;
        assert(t[p] == '.');
        let before = digits_between(v, lo, w);
        let after = digits_between(v, w + 1, hi);
        assert(t.take(p) =~= v@.subrange(lo as int, w as int));
        assert(t.skip(p + 1) =~= v@.subrange(w + 1, hi as int));
        let r = before && after && (w > lo || w + 1 < hi);
        assert(!all_digits(t)) by {
            assert(!is_digit(t[p]));
        }
        assert forall|q: int|
            0 <= q < t.len() && #[trigger] t[q] == '.' && all_digits(t.take(q)) implies q == p by {
            if q < p {
                assert(t[q] == v@[lo + q]);
            } else if q > p {
                assert(t.take(q)[p] == t[p]);
                assert(!is_digit(t.take(q)[p]));
            }
        }
        r
    }
}

fn decimal(b: &Vec<char>) -> (r: bool)
    ensures
        r == is_decimal(b@),
{
    let len = b.len();
    let e = first_of(&b, 0, 'e', 'E');
    let ghost bs = b@;
    if e == len {
        let r = mantissa_between(&b, 0, len);
        assert(bs.subrange(0, len as int) =~= bs);
        assert(r == is_decimal(bs)) by {
            if exists|m: int| 0 < m < bs.len() && is_mantissa(#[trigger] bs.take(m)) && is_exponent(bs.skip(m)) {
                let m = choose|m: int| 0 < m < bs.len() && is_mantissa(#[trigger] bs.take(m)) && is_exponent(bs.skip(m));
                assert(bs.skip(m)[0] == bs[m]);
            }
        }
        r
    } else {
        assert(bs[e as int] == 'e' || bs[e as int] == 'E');
        assert(!is_mantissa(bs)) by {
            if is_mantissa(bs) {
                lemma_mantissa_chars(bs, e as int);
            }
        }
        let mant = e > 0 && mantissa_between(&b, 0, e);
        assert(bs.subrange(0, e as int) =~= bs.take(e as int));
        let mut k: usize = e + 1;
        if k < len && (b[k] == '+' || b[k] == '-') {
            k = k + 1;
        }
        let exp = k < len && digits_between(&b, k, len);
        assert(without_sign(bs.skip(e as int).drop_first()) =~= bs.subrange(k as int, len as int));
        let r = mant && exp;
        assert(r == is_decimal(bs)) by {
            if exists|m: int| 0 < m < bs.len() && is_mantissa(#[trigger] bs.take(m)) && is_exponent(bs.skip(m)) {
                let m = choose|m: int| 0 < m < bs.len() && is_mantissa(#[trigger] bs.take(m)) && is_exponent(bs.skip(m));
                assert(bs.skip(m)[0] == bs[m]);
                if m > e {
                    lemma_mantissa_chars(bs.take(m), e as int);
                    assert(bs.take(m)[e as int] == bs[e as int]);
                }
            }
        }
        r
    }
}

/// Whether `s` parses as an `f32` (see `is_float_literal`).
pub fn is_float_literal_exec(s: &Vec<char>) -> (r: bool)
    ensures
        r == is_float_literal(s@),
{
    let n = s.len();
    let start: usize = if n > 0 && (s[0] == '+' || s[0] == '-') {
        1
    } else {
        0
    };
    let mut b: Vec<char> = Vec::new();
    let mut i: usize = start;
    while i < n
        invariant
            n == s@.len(),
            start <= i <= n,
            b@ == s@.subrange(start as int, i as int),
        decreases n - i,
    {
        b.push(s[i]);
        i = i + 1;
        assert(b@ =~= s@.subrange(start as int, i as int));
    }
    assert(b@ =~= without_sign(s@));
    let inf = vec!['i', 'n', 'f'];
    let inf_up = vec!['I', 'N', 'F'];
    let infinity = vec!['i', 'n', 'f', 'i', 'n', 'i', 't', 'y'];
    let infinity_up = vec!['I', 'N', 'F', 'I', 'N', 'I', 'T', 'Y'];
    let nan = vec!['n', 'a', 'n'];
    let nan_up = vec!['N', 'A', 'N'];
    assert(inf@ =~= seq!['i', 'n', 'f']);
    assert(inf_up@ =~= seq!['I', 'N', 'F']);
    assert(infinity@ =~= seq!['i', 'n', 'f', 'i', 'n', 'i', 't', 'y']);
    assert(infinity_up@ =~= seq!['I', 'N', 'F', 'I', 'N', 'I', 'T', 'Y']);
    assert(nan@ =~= seq!['n', 'a', 'n']);
    assert(nan_up@ =~= seq!['N', 'A', 'N']);
    if spells(&b, &inf, &inf_up) || spells(&b, &infinity, &infinity_up) || spells(
        &b,
        &nan,
        &nan_up,
    ) {
        return true;
    }
    decimal(&b)
}

} // verus!
