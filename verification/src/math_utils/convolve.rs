//! Discrete convolution of two finite sequences.

use vstd::prelude::*;
use crate::error::ErrorKind;
use crate::scalar::{commutative_arithmetic, zero, Scalar};

verus! {

/// Which part of the convolution is returned.
#[derive(Clone, Copy, Debug, PartialEq, Eq, Structural)]
pub enum ConvType {
    /// Only the positions at which the shorter sequence lies fully inside
    /// the longer one.
    Valid,
    /// Every position at which the two sequences overlap at all.
    Full,
}

/// The terms of `terms` added up from the left, starting from zero:
/// `((0 + t0) + t1) + ...`.
pub open spec fn sum<T: Scalar>(terms: Seq<T>) -> T
    decreases terms.len(),
{
    if terms.len() == 0 {
        zero::<T>()
    } else {
        sum(terms.drop_last()).add_spec(terms.last())
    }
}

/// The first index of `a` that contributes to position `i` of the full
/// convolution with a sequence of `nv` elements.
pub open spec fn full_first(nv: int, i: int) -> int {
    if i - nv + 1 > 0 {
        i - nv + 1
    } else {
        0
    }
}

/// The last index of `a` that contributes to position `i` of the full
/// convolution, for an `a` of `na` elements.
pub open spec fn full_last(na: int, i: int) -> int {
    if i < na - 1 {
        i
    } else {
        na - 1
    }
}

/// The products `a[j] * v[i - j]` that make up position `i` of the full
/// convolution, by increasing `j`.
pub open spec fn full_terms<T: Scalar>(a: Seq<T>, v: Seq<T>, i: int) -> Seq<T> {
    let first = full_first(v.len() as int, i);
    let last = full_last(a.len() as int, i);
    Seq::new((last - first + 1) as nat, |t: int| a[first + t].mul_spec(v[i - first - t]))
}

/// The full convolution: `|a| + |v| - 1` positions.
pub open spec fn convolve_full<T: Scalar>(a: Seq<T>, v: Seq<T>) -> Seq<T> {
    Seq::new((a.len() + v.len() - 1) as nat, |i: int| sum(full_terms(a, v, i)))
}

/// The products that make up position `i` of the valid convolution: the
/// shorter sequence, taken from its last element to its first, against the
/// longer one from position `i` on.
pub open spec fn valid_terms<T: Scalar>(short: Seq<T>, long: Seq<T>, i: int) -> Seq<T> {
    Seq::new(short.len(), |k: int| short[short.len() - 1 - k].mul_spec(long[k + i]))
}

/// The valid convolution: `max(|a|, |v|) - min(|a|, |v|) + 1` positions.
/// Of two sequences of equal length, `v` is the one taken backwards.
pub open spec fn convolve_valid<T: Scalar>(a: Seq<T>, v: Seq<T>) -> Seq<T> {
    let short = if a.len() < v.len() { a } else { v };
    let long = if a.len() < v.len() { v } else { a };
    Seq::new((long.len() - short.len() + 1) as nat, |i: int| sum(valid_terms(short, long, i)))
}

/// The convolution of `a` and `v` in the given mode.
pub open spec fn convolve_spec<T: Scalar>(a: Seq<T>, v: Seq<T>, conv: ConvType) -> Seq<T> {
    match conv {
        ConvType::Full => convolve_full(a, v),
        ConvType::Valid => convolve_valid(a, v),
    }
}

/// The number of positions of the convolution of sequences of `na` and `nv`
/// elements.
pub open spec fn convolve_len(na: int, nv: int, conv: ConvType) -> int {
    match conv {
        ConvType::Full => na + nv - 1,
        ConvType::Valid => if na < nv {
            nv - na + 1
        } else {
            na - nv + 1
        },
    }
}

/// The inputs on which the convolution exists: neither sequence is empty,
/// and the result's length fits a `usize`.
pub open spec fn convolve_defined(na: int, nv: int, conv: ConvType) -> bool {
    na > 0 && nv > 0 && convolve_len(na, nv, conv) <= usize::MAX
}

/// The convolution has `|a| + |v| - 1` positions in full mode and
/// `max(|a|, |v|) - min(|a|, |v|) + 1` in valid mode.
pub proof fn lemma_convolve_len<T: Scalar>(a: Seq<T>, v: Seq<T>, conv: ConvType)
    requires
        a.len() > 0,
        v.len() > 0,
    ensures
        convolve_spec(a, v, conv).len() == convolve_len(a.len() as int, v.len() as int, conv),
{
}

/// Adding a term in front of a sum gives what adding it at the end gives.
proof fn lemma_sum_front<T: Scalar>(x: T, terms: Seq<T>)
    requires
        commutative_arithmetic::<T>(),
    ensures
        sum(seq![x] + terms) == sum(terms).add_spec(x),
    decreases terms.len(),
{
    let all = seq![x] + terms;
    if terms.len() == 0 {
        assert(all.drop_last() =~= terms);
    } else {
        let y = terms.last();
        assert(all.drop_last() =~= seq![x] + terms.drop_last());
        lemma_sum_front(x, terms.drop_last());
        let rest = sum(terms.drop_last());
        assert(rest.add_spec(x).add_spec(y) == rest.add_spec(x.add_spec(y)));
        assert(x.add_spec(y) == y.add_spec(x));
        assert(rest.add_spec(y).add_spec(x) == rest.add_spec(y.add_spec(x)));
    }
}

/// Where addition is commutative and associative, a sum does not depend on
/// the direction in which its terms are added up.
pub proof fn lemma_sum_reverse<T: Scalar>(terms: Seq<T>)
    requires
        commutative_arithmetic::<T>(),
    ensures
        sum(terms.reverse()) == sum(terms),
    decreases terms.len(),
{
    if terms.len() == 0 {
        assert(terms.reverse() =~= terms);
    } else {
        assert(terms.reverse() =~= seq![terms.last()] + terms.drop_last().reverse());
        lemma_sum_front(terms.last(), terms.drop_last().reverse());
        lemma_sum_reverse(terms.drop_last());
    }
}

/// Convolution is commutative where the scalar's addition is commutative and
/// associative and its multiplication is commutative.
pub proof fn lemma_convolve_commutative<T: Scalar>(a: Seq<T>, v: Seq<T>, conv: ConvType)
    requires
        commutative_arithmetic::<T>(),
        a.len() > 0,
        v.len() > 0,
    ensures
        convolve_spec(a, v, conv) == convolve_spec(v, a, conv),
{
    match conv {
        ConvType::Full => {
            assert forall|i: int| 0 <= i < a.len() + v.len() - 1 implies sum(full_terms(a, v, i))
                == sum(full_terms(v, a, i)) by {
                let forth = full_terms(a, v, i);
                let back = full_terms(v, a, i);
                assert(back =~= forth.reverse());
                lemma_sum_reverse(forth);
            }
            assert(convolve_full(a, v) =~= convolve_full(v, a));
        },
        ConvType::Valid => {
            if a.len() == v.len() {
                let forth = valid_terms(v, a, 0);
                let back = valid_terms(a, v, 0);
                assert(back =~= forth.reverse());
                lemma_sum_reverse(forth);
                assert(convolve_valid(a, v) =~= convolve_valid(v, a));
            }
        },
    }
}

/// Convolves `a` with `v`.
///
/// In full mode position `i` of the result is the sum of `a[j] * v[i - j]`
/// over every `j` for which both indices exist. In valid mode the shorter
/// sequence slides, reversed, along the longer one. Each position is added
/// up from zero, term by term, in the order that [`full_terms`] and
/// [`valid_terms`] give.
///
/// An empty input, or a length that no `usize` holds, is rejected as
/// `InvalidParameters`.
pub fn convolve_1d<T: Scalar>(a: &Vec<T>, v: &Vec<T>, conv: ConvType) -> (r: Result<
    Vec<T>,
    ErrorKind,
>)
    ensures
        r is Ok <==> convolve_defined(a.len() as int, v.len() as int, conv),
        r matches Ok(out) ==> out@ == convolve_spec(a@, v@, conv) && out.len() == convolve_len(
            a.len() as int,
            v.len() as int,
            conv,
        ),
        r matches Err(e) ==> e == ErrorKind::InvalidParameters,
{
    let na = a.len();
    let nv = v.len();
    if na == 0 || nv == 0 {
        return Err(ErrorKind::InvalidParameters);
    }
    match conv {
        ConvType::Full => {
            let n = match na.checked_add(nv - 1) {
                Some(n) => n,
                None => {
                    return Err(ErrorKind::InvalidParameters);
                },
            };
            let mut out: Vec<T> = Vec::new();
            let mut i: usize = 0;
            while i < n
                invariant
                    na == a.len() > 0,
                    nv == v.len() > 0,
                    n == na + nv - 1,
                    i <= n,
                    out.len() == i,
                    forall|p: int| 0 <= p < i ==> out[p] == sum(full_terms(a@, v@, p)),
                decreases n - i,
            {
                let first = if i >= nv - 1 { i - (nv - 1) } else { 0 };
                let last = if i < na - 1 { i } else { na - 1 };
                let ghost terms = full_terms(a@, v@, i as int);
                let mut acc = T::from_int(0);
                let mut j: usize = first;
                assert(terms.take(0) =~= Seq::<T>::empty());
                while j < last + 1
                    invariant
                        na == a.len(),
                        nv == v.len(),
                        i < na + nv - 1,
                        first == full_first(nv as int, i as int),
                        last == full_last(na as int, i as int),
                        first <= j <= last + 1,
                        terms == full_terms(a@, v@, i as int),
                        acc == sum(terms.take(j - first)),
                    decreases last + 1 - j,
                {
                    assert(terms.take(j - first + 1).drop_last() =~= terms.take(j - first));
                    acc = acc.add(a[j].mul(v[i - j]));
                    j = j + 1;
                }
                assert(terms.take(last + 1 - first) =~= terms);
                out.push(acc);
                i = i + 1;
            }
            assert(out@ =~= convolve_full(a@, v@));
            Ok(out)
        },
        ConvType::Valid => {
            let short = if na < nv { a } else { v };
            let long = if na < nv { v } else { a };
            let ns = short.len();
            let n = long.len() - ns + 1;
            let mut out: Vec<T> = Vec::new();
            let mut i: usize = 0;
            while i < n
                invariant
                    0 < ns == short.len() <= long.len(),
                    n == long.len() - ns + 1,
                    i <= n,
                    out.len() == i,
                    forall|p: int| 0 <= p < i ==> out[p] == sum(valid_terms(short@, long@, p)),
                decreases n - i,
            {
                let ghost terms = valid_terms(short@, long@, i as int);
                let mut acc = T::from_int(0);
                let mut k: usize = 0;
                assert(terms.take(0) =~= Seq::<T>::empty());
                while k < ns
                    invariant
                        ns == short.len() <= long.len(),
                        i + ns <= long.len(),
                        k <= ns,
                        terms == valid_terms(short@, long@, i as int),
                        acc == sum(terms.take(k as int)),
                    decreases ns - k,
                {
                    assert(terms.take(k + 1).drop_last() =~= terms.take(k as int));
                    acc = acc.add(short[ns - 1 - k].mul(long[k + i]));
                    k = k + 1;
                }
                assert(terms.take(ns as int) =~= terms);
                out.push(acc);
                i = i + 1;
            }
            assert(out@ =~= convolve_valid(a@, v@));
            Ok(out)
        },
    }
}

} // verus!
