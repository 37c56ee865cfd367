//! Small general-purpose pieces: substring search, decimal formatting,
//! sequence-filter lemmas, and the generic diff over two lists.

use vstd::prelude::*;
use vstd::seq_lib::*;
use vstd::string::StringExecFns;

verus! {

broadcast use vstd::seq_lib::group_filter_ensures;

/// `needle` occurs in `hay` starting at position `i`.
pub open spec fn spec_sub_at(hay: Seq<char>, needle: Seq<char>, i: int) -> bool {
    0 <= i && i + needle.len() <= hay.len() && hay.subrange(i, i + needle.len()) == needle
}

/// `needle` occurs as a contiguous substring of `hay`.
pub open spec fn spec_contains_sub(hay: Seq<char>, needle: Seq<char>) -> bool {
    exists|i: int| spec_sub_at(hay, needle, i)
}

/// Relies on str::contains: whether `needle` occurs as a substring of
/// `hay`.
#[verifier::external_body]
pub fn contains_str(hay: &str, needle: &str) -> (r: bool)
    ensures
        r == spec_contains_sub(hay@, needle@),
{
    hay.contains(needle)
}

/// The views of a sequence of strings.
pub open spec fn line_views(lines: Seq<String>) -> Seq<Seq<char>> {
    lines.map_values(|l: String| l@)
}

/// Filtering a sequence extended by one element keeps the filtered prefix
/// and appends the new element exactly when it satisfies the predicate.
pub proof fn lemma_filter_push<A>(s: Seq<A>, pred: spec_fn(A) -> bool, x: A)
    ensures
        pred(x) ==> s.push(x).filter(pred) == s.filter(pred).push(x),
        !pred(x) ==> s.push(x).filter(pred) == s.filter(pred),
{
    reveal(Seq::filter);
    assert(s.push(x).drop_last() =~= s);
    assert(s.push(x).last() == x);
}

/// Every element of a filtered sequence is an element of the original.
pub proof fn lemma_filter_is_subset<A>(s: Seq<A>, pred: spec_fn(A) -> bool)
    ensures
        forall|k: int| 0 <= k < s.filter(pred).len() ==> s.contains(#[trigger] s.filter(pred)[k]),
    decreases s.len(),
{
    reveal(Seq::filter);
    if s.len() == 0 {
    } else {
        lemma_filter_is_subset(s.drop_last(), pred);
        assert forall|k: int| 0 <= k < s.filter(pred).len() implies s.contains(
            #[trigger] s.filter(pred)[k],
        ) by {
            let sub = s.drop_last().filter(pred);
            if k < sub.len() {
                let x = sub[k];
                let i = choose|i: int| 0 <= i < s.drop_last().len() && s.drop_last()[i] == x;
                assert(s[i] == x);
            } else {
                assert(s.filter(pred)[k] == s.last());
                assert(s[s.len() - 1] == s.last());
            }
        }
    }
}

/// A filter whose predicate accepts every element returns the sequence
/// unchanged.
pub proof fn lemma_filter_retains_all<A>(s: Seq<A>, pred: spec_fn(A) -> bool)
    requires
        forall|i: int| 0 <= i < s.len() ==> pred(#[trigger] s[i]),
    ensures
        s.filter(pred) == s,
    decreases s.len(),
{
    reveal(Seq::filter);
    if s.len() == 0 {
        assert(s.filter(pred) =~= s);
    } else {
        lemma_filter_retains_all(s.drop_last(), pred);
        assert(pred(s.last()));
        assert(s.filter(pred) =~= s.drop_last().push(s.last()));
        assert(s.drop_last().push(s.last()) =~= s);
    }
}

/// A filter whose predicate rejects every element returns the empty
/// sequence.
pub proof fn lemma_filter_drops_all<A>(s: Seq<A>, pred: spec_fn(A) -> bool)
    requires
        forall|i: int| 0 <= i < s.len() ==> !pred(#[trigger] s[i]),
    ensures
        s.filter(pred) == Seq::<A>::empty(),
    decreases s.len(),
{
    reveal(Seq::filter);
    if s.len() == 0 {
        assert(s.filter(pred) =~= Seq::<A>::empty());
    } else {
        lemma_filter_drops_all(s.drop_last(), pred);
        assert(!pred(s.last()));
        assert(s.filter(pred) =~= Seq::<A>::empty());
    }
}

/// The decimal digit `d` as a one-character string.
pub open spec fn spec_digit(d: nat) -> Seq<char> {
    if d == 0 {
        "0"@
    } else if d == 1 {
        "1"@
    } else if d == 2 {
        "2"@
    } else if d == 3 {
        "3"@
    } else if d == 4 {
        "4"@
    } else if d == 5 {
        "5"@
    } else if d == 6 {
        "6"@
    } else if d == 7 {
        "7"@
    } else if d == 8 {
        "8"@
    } else {
        "9"@
    }
}

/// The decimal representation of `n`, without a sign and without leading
/// zeros (`0` itself is "0").
pub open spec fn spec_decimal(n: nat) -> Seq<char>
    decreases n,
{
    if n < 10 {
        spec_digit(n)
    } else {
        spec_decimal(n / 10) + spec_digit(n % 10)
    }
}

fn digit_str(d: usize) -> (r: &'static str)
    requires
        d < 10,
    ensures
        r@ == spec_digit(d as nat),
{
    match d {
        0 => "0",
        1 => "1",
        2 => "2",
        3 => "3",
        4 => "4",
        5 => "5",
        6 => "6",
        7 => "7",
        8 => "8",
        _ => "9",
    }
}

/// The comparator can only answer `false` on this pair of values.
pub open spec fn must_reject<T, F: Fn(&T, &T) -> bool>(cmp: F, a: T, b: T) -> bool {
    forall|x: &T, y: &T, ret: bool|
        *x == a && *y == b && #[trigger] call_ensures(cmp, (x, y), ret) ==> !ret
}

/// The comparator answered `false` at least once on this pair of
/// values.
pub open spec fn can_reject<T, F: Fn(&T, &T) -> bool>(cmp: F, a: T, b: T) -> bool {
    exists|x: &T, y: &T| *x == a && *y == b && #[trigger] call_ensures(cmp, (x, y), false)
}

/// `v` is one of the values of `xs`.
pub open spec fn among<T>(v: T, xs: Seq<T>) -> bool {
    exists|i: int| 0 <= i < xs.len() && xs[i] == v
}

/// Some reference in `rs` points at the value `v`.
pub open spec fn reported<T>(rs: Seq<&T>, v: T) -> bool {
    exists|k: int| 0 <= k < rs.len() && *(#[trigger] rs[k]) == v
}

/// The comparator answered `false` on `v` against every value of `xs`.
pub open spec fn rejected_against_all<T, F: Fn(&T, &T) -> bool>(
    cmp: F,
    xs: Seq<T>,
    v: T,
) -> bool {
    forall|i: int| 0 <= i < xs.len() ==> can_reject(cmp, #[trigger] xs[i], v)
}

/// The comparator can only answer `false` on `v` against every value of
/// `xs`.
pub open spec fn only_rejectable_against_all<T, F: Fn(&T, &T) -> bool>(
    cmp: F,
    xs: Seq<T>,
    v: T,
) -> bool {
    forall|i: int| 0 <= i < xs.len() ==> must_reject(cmp, #[trigger] xs[i], v)
}

/// Any two answers of the comparator on equal value pairs agree: the
/// comparator decides a function of the values.
pub open spec fn deterministic_cmp<T, F: Fn(&T, &T) -> bool>(cmp: F) -> bool {
    forall|x1: &T, y1: &T, x2: &T, y2: &T, r1: bool, r2: bool|
        #![trigger call_ensures(cmp, (x1, y1), r1), call_ensures(cmp, (x2, y2), r2)]
        *x1 == *x2 && *y1 == *y2 && call_ensures(cmp, (x1, y1), r1) && call_ensures(
            cmp,
            (x2, y2),
            r2,
        ) ==> r1 == r2
}

/// `sub` is a subsequence of `xs`: its values occur in `xs` in the same
/// order, each occurrence matched to a distinct position.
pub open spec fn is_subsequence<T>(sub: Seq<T>, xs: Seq<T>) -> bool
    decreases sub.len() + xs.len(),
{
    if sub.len() == 0 {
        true
    } else if xs.len() == 0 {
        false
    } else {
        (sub.last() == xs.last() && is_subsequence(sub.drop_last(), xs.drop_last()))
            || is_subsequence(sub, xs.drop_last())
    }
}

/// The values of `xs`, in order, on which the comparator can only
/// answer `false` against every value of `ys` — the exact diff result
/// under a deterministic comparator.
pub open spec fn spec_only_rejected<T, F: Fn(&T, &T) -> bool>(
    cmp: F,
    xs: Seq<T>,
    ys: Seq<T>,
) -> Seq<T> {
    xs.filter(|v: T| only_rejectable_against_all(cmp, ys, v))
}

proof fn lemma_only_rejected_push<T, F: Fn(&T, &T) -> bool>(cmp: F, xs: Seq<T>, ys: Seq<T>, x: T)
    ensures
        only_rejectable_against_all(cmp, ys, x) ==> spec_only_rejected(cmp, xs.push(x), ys)
            == spec_only_rejected(cmp, xs, ys).push(x),
        !only_rejectable_against_all(cmp, ys, x) ==> spec_only_rejected(cmp, xs.push(x), ys)
            == spec_only_rejected(cmp, xs, ys),
{
    lemma_filter_push(xs, |v: T| only_rejectable_against_all(cmp, ys, v), x);
}

/// Under a deterministic comparator, one observed `false` answer on a
/// pair of values settles every answer on it.
proof fn lemma_reject_determined<T, F: Fn(&T, &T) -> bool>(cmp: F, a: T, b: T)
    requires
        deterministic_cmp(cmp),
        can_reject(cmp, a, b),
    ensures
        must_reject(cmp, a, b),
{
    let (x0, y0) = choose|x0: &T, y0: &T|
        *x0 == a && *y0 == b && #[trigger] call_ensures(cmp, (x0, y0), false);
    assert forall|x: &T, y: &T, ret: bool|
        *x == a && *y == b && #[trigger] call_ensures(cmp, (x, y), ret) implies !ret by {
        assert(call_ensures(cmp, (x0, y0), false));
    }
}

/// Computes the changes between two lists under a caller-supplied
/// equality. The first result holds the items of `next` that `cmp`
/// matched against no item of `prev` — the additions — and the second
/// the items of `prev` matched by no item of `next` — the removals,
/// each a duplicate-free subsequence of its input. Each reported item
/// drew a `false` answer against every item of the other list, an item
/// the comparator can only reject against the whole other list is
/// always reported, and under a deterministic comparator each result is
/// exactly the ordered sublist of unmatchable items.
pub fn diff_with<'a, T, F: Fn(&T, &T) -> bool>(prev: &'a Vec<T>, next: &'a Vec<T>, cmp: F) -> (r: (
    Vec<&'a T>,
    Vec<&'a T>,
))
    requires
        forall|x: &T, y: &T| #[trigger] call_requires(cmp, (x, y)),
    ensures
        forall|k: int| 0 <= k < r.0@.len() ==> among(*(#[trigger] r.0@[k]), next@),
        forall|k: int|
            0 <= k < r.0@.len() ==> rejected_against_all(cmp, prev@, *(#[trigger] r.0@[k])),
        forall|j: int|
            #![trigger next@[j]]
            0 <= j < next@.len() && only_rejectable_against_all(cmp, prev@, next@[j]) ==> reported(
                r.0@,
                next@[j],
            ),
        forall|k: int| 0 <= k < r.1@.len() ==> among(*(#[trigger] r.1@[k]), prev@),
        forall|k: int|
            0 <= k < r.1@.len() ==> rejected_against_all(cmp, next@, *(#[trigger] r.1@[k])),
        forall|j: int|
            #![trigger prev@[j]]
            0 <= j < prev@.len() && only_rejectable_against_all(cmp, next@, prev@[j]) ==> reported(
                r.1@,
                prev@[j],
            ),
        is_subsequence(deref_values(r.0@), next@),
        is_subsequence(deref_values(r.1@), prev@),
        deterministic_cmp(cmp) ==> deref_values(r.0@) == spec_only_rejected(cmp, next@, prev@),
        deterministic_cmp(cmp) ==> deref_values(r.1@) == spec_only_rejected(cmp, prev@, next@),
{
    let removed = absent_refs(prev, next, &cmp);
    let added = absent_refs(next, prev, &cmp);
    (added, removed)
}

/// The items of `xs` that `cmp` matched against no item of `ys`, in
/// order; the workhorse of [`diff_with`].
fn absent_refs<'a, T, F: Fn(&T, &T) -> bool>(xs: &'a Vec<T>, ys: &Vec<T>, cmp: &F) -> (r: Vec<
    &'a T,
>)
    requires
        forall|x: &T, y: &T| #[trigger] call_requires(*cmp, (x, y)),
    ensures
        forall|k: int| 0 <= k < r@.len() ==> among(*(#[trigger] r@[k]), xs@),
        forall|k: int|
            0 <= k < r@.len() ==> rejected_against_all(*cmp, ys@, *(#[trigger] r@[k])),
        forall|j: int|
            #![trigger xs@[j]]
            0 <= j < xs@.len() && only_rejectable_against_all(*cmp, ys@, xs@[j]) ==> reported(
                r@,
                xs@[j],
            ),
        is_subsequence(deref_values(r@), xs@),
        deterministic_cmp(*cmp) ==> deref_values(r@) == spec_only_rejected(*cmp, xs@, ys@),
{
    let mut out: Vec<&'a T> = Vec::new();
    let mut j: usize = 0;
    while j < xs.len()
        invariant
            j <= xs@.len(),
            forall|x: &T, y: &T| #[trigger] call_requires(*cmp, (x, y)),
            forall|k: int| 0 <= k < out@.len() ==> among(*(#[trigger] out@[k]), xs@),
            forall|k: int|
                0 <= k < out@.len() ==> rejected_against_all(*cmp, ys@, *(#[trigger] out@[k])),
            forall|jj: int|
                #![trigger xs@[jj]]
                0 <= jj < j && only_rejectable_against_all(*cmp, ys@, xs@[jj]) ==> reported(
                    out@,
                    xs@[jj],
                ),
            is_subsequence(deref_values(out@), xs@.subrange(0, j as int)),
            deterministic_cmp(*cmp) ==> deref_values(out@) == spec_only_rejected(
                *cmp,
                xs@.subrange(0, j as int),
                ys@,
            ),
        decreases xs@.len() - j,
    {
        let item = &xs[j];
        let mut found = false;
        let mut i: usize = 0;
        while i < ys.len()
            invariant
                i <= ys@.len(),
                j < xs@.len(),
                *item == xs@[j as int],
                forall|x: &T, y: &T| #[trigger] call_requires(*cmp, (x, y)),
                !found ==> forall|ii: int|
                    0 <= ii < i ==> can_reject(*cmp, #[trigger] ys@[ii], xs@[j as int]),
                found ==> !only_rejectable_against_all(*cmp, ys@, xs@[j as int]),
            decreases ys@.len() - i,
        {
            let candidate = &ys[i];
            let matched = cmp(candidate, item);
            proof {
                assert(call_ensures(*cmp, (candidate, item), matched));
                if matched {
                    assert(!must_reject(*cmp, ys@[i as int], xs@[j as int]));
                } else {
                    assert(can_reject(*cmp, ys@[i as int], xs@[j as int]));
                }
            }
            if matched {
                found = true;
            }
            i = i + 1;
        }
        let ghost pre = out@;
        if !found {
            out.push(item);
        }
        proof {
            if !found {
                assert(out@ == pre.push(item));
                assert(*out@[out@.len() - 1] == xs@[j as int]);
                assert(among(*out@[out@.len() - 1], xs@));
                assert(rejected_against_all(*cmp, ys@, *out@[out@.len() - 1]));
                assert forall|k: int| 0 <= k < out@.len() implies among(
                    *(#[trigger] out@[k]),
                    xs@,
                ) && rejected_against_all(*cmp, ys@, *out@[k]) by {
                    if k < pre.len() {
                        assert(out@[k] == pre[k]);
                    }
                }
            }
            assert forall|jj: int|
                #![trigger xs@[jj]]
                0 <= jj < j + 1 && only_rejectable_against_all(*cmp, ys@, xs@[jj]) implies reported(
                out@,
                xs@[jj],
            ) by {
                if jj < j as int {
                    let k = choose|k: int| 0 <= k < pre.len() && *(#[trigger] pre[k]) == xs@[jj];
                    assert(out@[k] == pre[k]);
                    assert(*out@[k] == xs@[jj]);
                } else {
                    assert(!found);
                    assert(*out@[out@.len() - 1] == xs@[jj]);
                }
            }
            // order, multiplicity, and the exact result under a
            // deterministic comparator
            let pre_sub = xs@.subrange(0, j as int);
            assert(xs@.subrange(0, j as int + 1) =~= pre_sub.push(xs@[j as int]));
            if !found {
                assert(deref_values(out@) =~= deref_values(pre).push(xs@[j as int]));
                assert(deref_values(out@).drop_last() =~= deref_values(pre));
                assert(pre_sub.push(xs@[j as int]).drop_last() =~= pre_sub);
                assert(deref_values(out@).last() == xs@[j as int]);
                assert(is_subsequence(deref_values(out@), pre_sub.push(xs@[j as int])));
            } else {
                assert(pre_sub.push(xs@[j as int]).drop_last() =~= pre_sub);
                assert(is_subsequence(deref_values(out@), pre_sub.push(xs@[j as int])));
            }
            if deterministic_cmp(*cmp) {
                if !found {
                    assert forall|i2: int| 0 <= i2 < ys@.len() implies must_reject(
                        *cmp,
                        #[trigger] ys@[i2],
                        xs@[j as int],
                    ) by {
                        lemma_reject_determined(*cmp, ys@[i2], xs@[j as int]);
                    }
                    assert(only_rejectable_against_all(*cmp, ys@, xs@[j as int]));
                }
                lemma_only_rejected_push(*cmp, pre_sub, ys@, xs@[j as int]);
                if !found {
                    assert(deref_values(out@) =~= spec_only_rejected(
                        *cmp,
                        pre_sub.push(xs@[j as int]),
                        ys@,
                    ));
                } else {
                    assert(!only_rejectable_against_all(*cmp, ys@, xs@[j as int]));
                    assert(deref_values(out@) =~= spec_only_rejected(
                        *cmp,
                        pre_sub.push(xs@[j as int]),
                        ys@,
                    ));
                }
            }
        }
        j = j + 1;
    }
    proof {
        assert(xs@.subrange(0, xs@.len() as int) =~= xs@);
    }
    out
}

/// The values a list of references points at, in order.
pub open spec fn deref_values<T>(rs: Seq<&T>) -> Seq<T> {
    rs.map_values(|rf: &T| *rf)
}

/// [`diff_with`] where the second list already holds references: the
/// first result holds the references of `next` that `cmp` matched
/// against no item of `prev`, the second the items of `prev` matched by
/// none of `next` — each a duplicate-free subsequence of its input, and
/// under a deterministic comparator exactly the ordered sublist of
/// unmatchable items.
pub fn diff_ref_with<'a, T, F: Fn(&T, &T) -> bool>(prev: &'a Vec<T>, next: Vec<&'a T>, cmp: F) -> (r:
    (Vec<&'a T>, Vec<&'a T>))
    requires
        forall|x: &T, y: &T| #[trigger] call_requires(cmp, (x, y)),
    ensures
        forall|k: int| 0 <= k < r.0@.len() ==> among(*(#[trigger] r.0@[k]), deref_values(next@)),
        forall|k: int|
            0 <= k < r.0@.len() ==> rejected_against_all(cmp, prev@, *(#[trigger] r.0@[k])),
        forall|j: int|
            #![trigger next@[j]]
            0 <= j < next@.len() && only_rejectable_against_all(cmp, prev@, *next@[j])
                ==> reported(r.0@, *next@[j]),
        forall|k: int| 0 <= k < r.1@.len() ==> among(*(#[trigger] r.1@[k]), prev@),
        forall|k: int|
            0 <= k < r.1@.len() ==> rejected_against_all(
                cmp,
                deref_values(next@),
                *(#[trigger] r.1@[k]),
            ),
        forall|j: int|
            #![trigger prev@[j]]
            0 <= j < prev@.len() && only_rejectable_against_all(cmp, deref_values(next@), prev@[j])
                ==> reported(r.1@, prev@[j]),
        is_subsequence(deref_values(r.0@), deref_values(next@)),
        is_subsequence(deref_values(r.1@), prev@),
        deterministic_cmp(cmp) ==> deref_values(r.0@) == spec_only_rejected(
            cmp,
            deref_values(next@),
            prev@,
        ),
        deterministic_cmp(cmp) ==> deref_values(r.1@) == spec_only_rejected(
            cmp,
            prev@,
            deref_values(next@),
        ),
{
    let mut added: Vec<&'a T> = Vec::new();
    let mut removed: Vec<&'a T> = Vec::new();

    let mut j: usize = 0;
    while j < prev.len()
        invariant
            j <= prev@.len(),
            forall|x: &T, y: &T| #[trigger] call_requires(cmp, (x, y)),
            forall|k: int| 0 <= k < removed@.len() ==> among(*(#[trigger] removed@[k]), prev@),
            forall|k: int|
                0 <= k < removed@.len() ==> rejected_against_all(
                    cmp,
                    deref_values(next@),
                    *(#[trigger] removed@[k]),
                ),
            forall|jj: int|
                #![trigger prev@[jj]]
                0 <= jj < j && only_rejectable_against_all(cmp, deref_values(next@), prev@[jj])
                    ==> reported(removed@, prev@[jj]),
            is_subsequence(deref_values(removed@), prev@.subrange(0, j as int)),
            deterministic_cmp(cmp) ==> deref_values(removed@) == spec_only_rejected(
                cmp,
                prev@.subrange(0, j as int),
                deref_values(next@),
            ),
        decreases prev@.len() - j,
    {
        let item = &prev[j];
        let mut found = false;
        let mut i: usize = 0;
        while i < next.len()
            invariant
                i <= next@.len(),
                j < prev@.len(),
                *item == prev@[j as int],
                forall|x: &T, y: &T| #[trigger] call_requires(cmp, (x, y)),
                !found ==> forall|ii: int|
                    0 <= ii < i ==> can_reject(
                        cmp,
                        #[trigger] deref_values(next@)[ii],
                        prev@[j as int],
                    ),
                found ==> !only_rejectable_against_all(cmp, deref_values(next@), prev@[j as int]),
            decreases next@.len() - i,
        {
            let candidate: &T = next[i];
            let matched = cmp(candidate, item);
            proof {
                assert(call_ensures(cmp, (candidate, item), matched));
                assert(deref_values(next@)[i as int] == *next@[i as int]);
                if matched {
                    assert(!must_reject(cmp, deref_values(next@)[i as int], prev@[j as int]));
                } else {
                    assert(can_reject(cmp, deref_values(next@)[i as int], prev@[j as int]));
                }
            }
            if matched {
                found = true;
            }
            i = i + 1;
        }
        let ghost pre = removed@;
        if !found {
            removed.push(item);
        }
        proof {
            if !found {
                assert(removed@ == pre.push(item));
                assert(*removed@[removed@.len() - 1] == prev@[j as int]);
                assert(among(*removed@[removed@.len() - 1], prev@));
                assert(rejected_against_all(
                    cmp,
                    deref_values(next@),
                    *removed@[removed@.len() - 1],
                ));
                assert forall|k: int| 0 <= k < removed@.len() implies among(
                    *(#[trigger] removed@[k]),
                    prev@,
                ) && rejected_against_all(cmp, deref_values(next@), *removed@[k]) by {
                    if k < pre.len() {
                        assert(removed@[k] == pre[k]);
                    }
                }
            }
            assert forall|jj: int|
                #![trigger prev@[jj]]
                0 <= jj < j + 1 && only_rejectable_against_all(
                cmp,
                deref_values(next@),
                prev@[jj],
            ) implies reported(removed@, prev@[jj]) by {
                if jj < j as int {
                    let k = choose|k: int| 0 <= k < pre.len() && *(#[trigger] pre[k]) == prev@[jj];
                    assert(removed@[k] == pre[k]);
                    assert(*removed@[k] == prev@[jj]);
                } else {
                    assert(!found);
                    assert(*removed@[removed@.len() - 1] == prev@[jj]);
                }
            }
            // order, multiplicity, and the exact result under a
            // deterministic comparator
            let pre_sub = prev@.subrange(0, j as int);
            assert(prev@.subrange(0, j as int + 1) =~= pre_sub.push(prev@[j as int]));
            if !found {
                assert(deref_values(removed@) =~= deref_values(pre).push(prev@[j as int]));
                assert(deref_values(removed@).drop_last() =~= deref_values(pre));
                assert(pre_sub.push(prev@[j as int]).drop_last() =~= pre_sub);
                assert(deref_values(removed@).last() == prev@[j as int]);
                assert(is_subsequence(deref_values(removed@), pre_sub.push(prev@[j as int])));
            } else {
                assert(pre_sub.push(prev@[j as int]).drop_last() =~= pre_sub);
                assert(is_subsequence(deref_values(removed@), pre_sub.push(prev@[j as int])));
            }
            if deterministic_cmp(cmp) {
                if !found {
                    assert forall|i2: int| 0 <= i2 < deref_values(next@).len() implies must_reject(
                        cmp,
                        #[trigger] deref_values(next@)[i2],
                        prev@[j as int],
                    ) by {
                        lemma_reject_determined(cmp, deref_values(next@)[i2], prev@[j as int]);
                    }
                    assert(only_rejectable_against_all(
                        cmp,
                        deref_values(next@),
                        prev@[j as int],
                    ));
                }
                lemma_only_rejected_push(cmp, pre_sub, deref_values(next@), prev@[j as int]);
                assert(deref_values(removed@) =~= spec_only_rejected(
                    cmp,
                    pre_sub.push(prev@[j as int]),
                    deref_values(next@),
                ));
            }
        }
        j = j + 1;
    }

    let mut j: usize = 0;
    while j < next.len()
        invariant
            j <= next@.len(),
            forall|x: &T, y: &T| #[trigger] call_requires(cmp, (x, y)),
            forall|k: int|
                0 <= k < added@.len() ==> among(*(#[trigger] added@[k]), deref_values(next@)),
            forall|k: int|
                0 <= k < added@.len() ==> rejected_against_all(
                    cmp,
                    prev@,
                    *(#[trigger] added@[k]),
                ),
            forall|jj: int|
                #![trigger next@[jj]]
                0 <= jj < j && only_rejectable_against_all(cmp, prev@, *next@[jj]) ==> reported(
                    added@,
                    *next@[jj],
                ),
            is_subsequence(deref_values(added@), deref_values(next@).subrange(0, j as int)),
            deterministic_cmp(cmp) ==> deref_values(added@) == spec_only_rejected(
                cmp,
                deref_values(next@).subrange(0, j as int),
                prev@,
            ),
        decreases next@.len() - j,
    {
        let item: &T = next[j];
        let mut found = false;
        let mut i: usize = 0;
        while i < prev.len()
            invariant
                i <= prev@.len(),
                j < next@.len(),
                *item == *next@[j as int],
                forall|x: &T, y: &T| #[trigger] call_requires(cmp, (x, y)),
                !found ==> forall|ii: int|
                    0 <= ii < i ==> can_reject(cmp, #[trigger] prev@[ii], *next@[j as int]),
                found ==> !only_rejectable_against_all(cmp, prev@, *next@[j as int]),
            decreases prev@.len() - i,
        {
            let candidate = &prev[i];
            let matched = cmp(candidate, item);
            proof {
                assert(call_ensures(cmp, (candidate, item), matched));
                if matched {
                    assert(!must_reject(cmp, prev@[i as int], *next@[j as int]));
                } else {
                    assert(can_reject(cmp, prev@[i as int], *next@[j as int]));
                }
            }
            if matched {
                found = true;
            }
            i = i + 1;
        }
        let ghost pre = added@;
        if !found {
            added.push(item);
        }
        proof {
            assert(deref_values(next@)[j as int] == *next@[j as int]);
            if !found {
                assert(added@ == pre.push(item));
                assert(*added@[added@.len() - 1] == *next@[j as int]);
                assert(among(*added@[added@.len() - 1], deref_values(next@)));
                assert(rejected_against_all(cmp, prev@, *added@[added@.len() - 1]));
                assert forall|k: int| 0 <= k < added@.len() implies among(
                    *(#[trigger] added@[k]),
                    deref_values(next@),
                ) && rejected_against_all(cmp, prev@, *added@[k]) by {
                    if k < pre.len() {
                        assert(added@[k] == pre[k]);
                    }
                }
            }
            assert forall|jj: int|
                #![trigger next@[jj]]
                0 <= jj < j + 1 && only_rejectable_against_all(
                cmp,
                prev@,
                *next@[jj],
            ) implies reported(added@, *next@[jj]) by {
                if jj < j as int {
                    let k = choose|k: int|
                        0 <= k < pre.len() && *(#[trigger] pre[k]) == *next@[jj];
                    assert(added@[k] == pre[k]);
                    assert(*added@[k] == *next@[jj]);
                } else {
                    assert(!found);
                    assert(*added@[added@.len() - 1] == *next@[jj]);
                }
            }
            // order, multiplicity, and the exact result under a
            // deterministic comparator
            let pre_sub = deref_values(next@).subrange(0, j as int);
            assert(deref_values(next@).subrange(0, j as int + 1) =~= pre_sub.push(
                deref_values(next@)[j as int],
            ));
            if !found {
                assert(deref_values(added@) =~= deref_values(pre).push(
                    deref_values(next@)[j as int],
                ));
                assert(deref_values(added@).drop_last() =~= deref_values(pre));
                assert(pre_sub.push(deref_values(next@)[j as int]).drop_last() =~= pre_sub);
                assert(deref_values(added@).last() == deref_values(next@)[j as int]);
                assert(is_subsequence(
                    deref_values(added@),
                    pre_sub.push(deref_values(next@)[j as int]),
                ));
            } else {
                assert(pre_sub.push(deref_values(next@)[j as int]).drop_last() =~= pre_sub);
                assert(is_subsequence(
                    deref_values(added@),
                    pre_sub.push(deref_values(next@)[j as int]),
                ));
            }
            if deterministic_cmp(cmp) {
                if !found {
                    assert forall|i2: int| 0 <= i2 < prev@.len() implies must_reject(
                        cmp,
                        #[trigger] prev@[i2],
                        *next@[j as int],
                    ) by {
                        lemma_reject_determined(cmp, prev@[i2], *next@[j as int]);
                    }
                    assert(only_rejectable_against_all(cmp, prev@, *next@[j as int]));
                    assert(only_rejectable_against_all(
                        cmp,
                        prev@,
                        deref_values(next@)[j as int],
                    ));
                }
                lemma_only_rejected_push(
                    cmp,
                    pre_sub,
                    prev@,
                    deref_values(next@)[j as int],
                );
                assert(deref_values(added@) =~= spec_only_rejected(
                    cmp,
                    pre_sub.push(deref_values(next@)[j as int]),
                    prev@,
                ));
            }
        }
        j = j + 1;
    }

    proof {
        assert(prev@.subrange(0, prev@.len() as int) =~= prev@);
        assert(deref_values(next@).subrange(0, next@.len() as int) =~= deref_values(next@));
    }
    (added, removed)
}

/// Formats `n` in decimal.
pub fn usize_to_string(n: usize) -> (r: String)
    ensures
        r@ == spec_decimal(n as nat),
    decreases n,
{
    if n < 10 {
        digit_str(n).to_owned()
    } else {
        let mut s = usize_to_string(n / 10);
        s.append(digit_str(n % 10));
        s
    }
}

} // verus!
