//! Strictly ascending sequences: the shape in which a domain stores its
//! values, and the searches and set operations that rely on it.
use crate::scalar::DomainValue;
use vstd::prelude::*;

verus! {

/// Every value comes strictly before the values that follow it.
///
/// A strictly ascending sequence holds no value twice.
pub open spec fn strictly_ascending<T: DomainValue>(s: Seq<T>) -> bool {
    forall|i: int, j: int|
        0 <= i < j < s.len() ==> (#[trigger] s[i]).rank() < (#[trigger] s[j]).rank()
}

/// `after` holds exactly the values of `before` that `keep` accepts.
pub open spec fn restricts<T>(after: Seq<T>, before: Seq<T>, keep: spec_fn(T) -> bool) -> bool {
    forall|x: T|
        #![trigger after.contains(x)]
        #![trigger before.contains(x)]
        after.contains(x) <==> (before.contains(x) && keep(x))
}

/// `a` and `b` hold the same values.
pub open spec fn same_values<T>(a: Seq<T>, b: Seq<T>) -> bool {
    forall|x: T|
        #![trigger a.contains(x)]
        #![trigger b.contains(x)]
        a.contains(x) <==> b.contains(x)
}

/// Pushing a value adds that value and no other.
pub proof fn lemma_push_contains<T>(s: Seq<T>, x: T, y: T)
    ensures
        s.push(x).contains(y) <==> (s.contains(y) || y == x),
{
    if s.contains(y) {
        let k = choose|k: int| 0 <= k < s.len() && s[k] == y;
        assert(s.push(x)[k] == y);
    }
    if y == x {
        assert(s.push(x)[s.len() as int] == y);
    }
    if s.push(x).contains(y) {
        let k = choose|k: int| 0 <= k < s.push(x).len() && s.push(x)[k] == y;
        if k < s.len() {
            assert(s[k] == y);
        }
    }
}

/// Inserting a value adds that value and no other.
pub proof fn lemma_insert_contains<T>(s: Seq<T>, at: int, x: T, y: T)
    requires
        0 <= at <= s.len(),
    ensures
        s.insert(at, x).contains(y) <==> (s.contains(y) || y == x),
{
    let t = s.insert(at, x);
    if s.contains(y) {
        let k = choose|k: int| 0 <= k < s.len() && s[k] == y;
        if k < at {
            assert(t[k] == y);
        } else {
            assert(t[k + 1] == y);
        }
    }
    if y == x {
        assert(t[at] == y);
    }
    if t.contains(y) {
        let k = choose|k: int| 0 <= k < t.len() && t[k] == y;
        if k < at {
            assert(s[k] == y);
        } else if k > at {
            assert(s[k - 1] == y);
        }
    }
}

/// A strictly ascending sequence holds each of its values once.
pub proof fn lemma_ascending_no_duplicates<T: DomainValue>(s: Seq<T>)
    requires
        strictly_ascending(s),
    ensures
        s.no_duplicates(),
{
    assert forall|i: int, j: int| 0 <= i < s.len() && 0 <= j < s.len() && i != j implies s[i]
        != s[j] by {
        if i < j {
            assert(s[i].rank() < s[j].rank());
        } else {
            assert(s[j].rank() < s[i].rank());
        }
    }
}

/// In a strictly ascending sequence a value stands at one index only.
pub proof fn lemma_ascending_index<T: DomainValue>(s: Seq<T>, i: int, j: int)
    requires
        strictly_ascending(s),
        0 <= i < s.len(),
        0 <= j < s.len(),
    ensures
        s[i].rank() < s[j].rank() <==> i < j,
        s[i].rank() == s[j].rank() <==> i == j,
{
    if i < j {
        assert(s[i].rank() < s[j].rank());
    } else if j < i {
        assert(s[j].rank() < s[i].rank());
    }
}

/// The first value of a strictly ascending sequence is its least and the last
/// its greatest.
pub proof fn lemma_ascending_bounds<T: DomainValue>(s: Seq<T>, x: T)
    requires
        strictly_ascending(s),
        s.contains(x),
    ensures
        s.first().rank() <= x.rank() <= s.last().rank(),
{
    let k = choose|k: int| 0 <= k < s.len() && s[k] == x;
    if 0 < k {
        assert(s[0].rank() < s[k].rank());
    }
    if k < s.len() - 1 {
        assert(s[k].rank() < s[s.len() - 1].rank());
    }
}

/// Two strictly ascending sequences with the same values are the same
/// sequence: the values of a domain determine its representation.
pub proof fn lemma_ascending_unique<T: DomainValue>(a: Seq<T>, b: Seq<T>)
    requires
        strictly_ascending(a),
        strictly_ascending(b),
        same_values(a, b),
    ensures
        a == b,
    decreases a.len(),
{
    if a.len() == 0 {
        if b.len() > 0 {
            assert(b.contains(b[0]));
            assert(a.contains(b[0]));
        }
        assert(a =~= b);
    } else {
        assert(a.contains(a[0]));
        assert(b.contains(a[0]));
        assert(b.contains(b[0]));
        assert(a.contains(b[0]));
        lemma_ascending_bounds(a, b[0]);
        lemma_ascending_bounds(b, a[0]);
        T::rank_determines_value(a[0], b[0]);
        let ta = a.skip(1);
        let tb = b.skip(1);
        assert forall|x: T| ta.contains(x) <==> tb.contains(x) by {
            if ta.contains(x) {
                let k = choose|k: int| 0 <= k < ta.len() && ta[k] == x;
                assert(a[k + 1] == x);
                assert(a[0].rank() < a[k + 1].rank());
                assert(a.contains(x));
                let m = choose|m: int| 0 <= m < b.len() && b[m] == x;
                assert(m != 0);
                assert(tb[m - 1] == x);
            }
            if tb.contains(x) {
                let k = choose|k: int| 0 <= k < tb.len() && tb[k] == x;
                assert(b[k + 1] == x);
                assert(b[0].rank() < b[k + 1].rank());
                assert(b.contains(x));
                let m = choose|m: int| 0 <= m < a.len() && a[m] == x;
                assert(m != 0);
                assert(ta[m - 1] == x);
            }
        }
        assert(strictly_ascending(ta)) by {
            assert forall|i: int, j: int| 0 <= i < j < ta.len() implies (#[trigger] ta[i]).rank() < (
            #[trigger] ta[j]).rank() by {
                assert(a[i + 1].rank() < a[j + 1].rank());
            }
        }
        assert(strictly_ascending(tb)) by {
            assert forall|i: int, j: int| 0 <= i < j < tb.len() implies (#[trigger] tb[i]).rank() < (
            #[trigger] tb[j]).rank() by {
                assert(b[i + 1].rank() < b[j + 1].rank());
            }
        }
        lemma_ascending_unique(ta, tb);
        assert(a =~= seq![a[0]] + ta);
        assert(b =~= seq![b[0]] + tb);
    }
}

/// A restriction of a strictly ascending sequence that is itself strictly
/// ascending is determined by the values it keeps.
pub proof fn lemma_restriction_unique<T: DomainValue>(
    before: Seq<T>,
    keep: spec_fn(T) -> bool,
    a: Seq<T>,
    b: Seq<T>,
)
    requires
        strictly_ascending(a),
        strictly_ascending(b),
        restricts(a, before, keep),
        restricts(b, before, keep),
    ensures
        a == b,
{
    assert forall|x: T| a.contains(x) <==> b.contains(x) by {
        assert(a.contains(x) <==> (before.contains(x) && keep(x)));
        assert(b.contains(x) <==> (before.contains(x) && keep(x)));
    }
    lemma_ascending_unique(a, b);
}

/// Every value of `part` is a value of `whole`.
pub open spec fn part_of<T>(part: Seq<T>, whole: Seq<T>) -> bool {
    forall|x: T| #[trigger] part.contains(x) ==> whole.contains(x)
}

/// `part` is not empty and holds exactly the values of `whole` from its own
/// first value to its own last one: nothing in between is missing.
pub open spec fn is_run_of<T: DomainValue>(part: Seq<T>, whole: Seq<T>) -> bool {
    &&& part.len() > 0
    &&& forall|x: T|
        #![trigger part.contains(x)]
        #![trigger whole.contains(x)]
        part.contains(x) <==> (whole.contains(x) && part[0].rank() <= x.rank() <= part[part.len()
            - 1].rank())
}

/// A strictly ascending sequence whose values all stand in another one is
/// no longer than that one, and the same sequence where it is as long.
pub proof fn lemma_part_length<T: DomainValue>(part: Seq<T>, whole: Seq<T>)
    requires
        strictly_ascending(part),
        strictly_ascending(whole),
        part_of(part, whole),
    ensures
        part.len() <= whole.len(),
        part.len() == whole.len() ==> part == whole,
{
    lemma_ascending_no_duplicates(part);
    lemma_ascending_no_duplicates(whole);
    part.unique_seq_to_set();
    whole.unique_seq_to_set();
    vstd::seq_lib::seq_to_set_is_finite(part);
    vstd::seq_lib::seq_to_set_is_finite(whole);
    assert(part.to_set().subset_of(whole.to_set())) by {
        assert forall|x: T| part.to_set().contains(x) implies whole.to_set().contains(x) by {
            assert(part.contains(x));
        }
    }
    vstd::set_lib::lemma_len_subset(part.to_set(), whole.to_set());
    if part.len() == whole.len() {
        vstd::set_lib::lemma_subset_equality(part.to_set(), whole.to_set());
        assert forall|x: T|
            #![trigger part.contains(x)]
            #![trigger whole.contains(x)]
            part.contains(x) <==> whole.contains(x) by {
            assert(part.to_set().contains(x) <==> whole.to_set().contains(x));
        }
        lemma_ascending_unique(part, whole);
    }
}

/// A strictly ascending sequence that is not empty is a run of itself.
pub proof fn lemma_run_of_itself<T: DomainValue>(s: Seq<T>)
    requires
        strictly_ascending(s),
        s.len() > 0,
    ensures
        is_run_of(s, s),
{
    assert forall|x: T| #[trigger] s.contains(x) implies s[0].rank() <= x.rank() <= s[s.len()
        - 1].rank() by {
        lemma_ascending_bounds(s, x);
    }
}

/// Cutting a run at one end leaves a run: where `cut` is what `keep` leaves of
/// `run`, and `keep` accepts, with a value, every value on one side of it.
pub proof fn lemma_run_cut<T: DomainValue>(
    whole: Seq<T>,
    run: Seq<T>,
    cut: Seq<T>,
    keep: spec_fn(T) -> bool,
    from_above: bool,
)
    requires
        strictly_ascending(run),
        strictly_ascending(cut),
        is_run_of(run, whole),
        restricts(cut, run, keep),
        cut.len() > 0,
        forall|x: T, y: T|
            #![trigger keep(x), keep(y)]
            keep(y) && (if from_above {
                x.rank() <= y.rank()
            } else {
                x.rank() >= y.rank()
            }) ==> keep(x),
    ensures
        is_run_of(cut, whole),
{
    let first = cut[0];
    let last = cut[cut.len() - 1];
    assert(cut.contains(first));
    assert(cut.contains(last));
    assert(run.contains(first) && keep(first));
    assert(run.contains(last) && keep(last));
    lemma_ascending_bounds(run, first);
    lemma_ascending_bounds(run, last);
    assert forall|x: T|
        #![trigger cut.contains(x)]
        #![trigger whole.contains(x)]
        cut.contains(x) <==> (whole.contains(x) && first.rank() <= x.rank() <= last.rank()) by {
        if cut.contains(x) {
            lemma_ascending_bounds(cut, x);
            assert(run.contains(x));
        }
        if whole.contains(x) && first.rank() <= x.rank() <= last.rank() {
            assert(run.contains(x));
            if from_above {
                assert(keep(last) && keep(x));
            } else {
                assert(keep(first) && keep(x));
            }
            assert(cut.contains(x));
        }
    }
}

/// A run of a strictly ascending sequence is strictly ascending, and where
/// `keep` accepts the values of the run and no other, the run is what `keep`
/// leaves of the sequence.
pub proof fn lemma_segment_restricts<T: DomainValue>(
    s: Seq<T>,
    lo: int,
    hi: int,
    keep: spec_fn(T) -> bool,
)
    requires
        strictly_ascending(s),
        0 <= lo <= hi <= s.len(),
        forall|i: int| 0 <= i < s.len() ==> (keep(#[trigger] s[i]) <==> lo <= i < hi),
    ensures
        strictly_ascending(s.subrange(lo, hi)),
        restricts(s.subrange(lo, hi), s, keep),
{
    let t = s.subrange(lo, hi);
    assert forall|i: int, j: int| 0 <= i < j < t.len() implies (#[trigger] t[i]).rank() < (
    #[trigger] t[j]).rank() by {
        assert(s[lo + i].rank() < s[lo + j].rank());
    }
    assert forall|x: T|
        #![trigger t.contains(x)]
        #![trigger s.contains(x)]
        t.contains(x) <==> (s.contains(x) && keep(x)) by {
        if t.contains(x) {
            let k = choose|k: int| 0 <= k < t.len() && t[k] == x;
            assert(s[lo + k] == x);
        }
        if s.contains(x) && keep(x) {
            let m = choose|m: int| 0 <= m < s.len() && s[m] == x;
            assert(t[m - lo] == x);
        }
    }
}

/// Taking one value out of a strictly ascending sequence leaves it strictly
/// ascending, with every other value and without that one.
pub proof fn lemma_remove_restricts<T: DomainValue>(s: Seq<T>, at: int)
    requires
        strictly_ascending(s),
        0 <= at < s.len(),
    ensures
        strictly_ascending(s.remove(at)),
        restricts(s.remove(at), s, |x: T| x != s[at]),
{
    let t = s.remove(at);
    assert forall|i: int, j: int| 0 <= i < j < t.len() implies (#[trigger] t[i]).rank() < (
    #[trigger] t[j]).rank() by {
        let si = if i < at { i } else { i + 1 };
        let sj = if j < at { j } else { j + 1 };
        assert(s[si].rank() < s[sj].rank());
    }
    assert forall|x: T|
        #![trigger t.contains(x)]
        #![trigger s.contains(x)]
        t.contains(x) <==> (s.contains(x) && x != s[at]) by {
        if t.contains(x) {
            let k = choose|k: int| 0 <= k < t.len() && t[k] == x;
            let sk = if k < at { k } else { k + 1 };
            assert(s[sk] == x);
            lemma_ascending_index(s, sk, at);
        }
        if s.contains(x) && x != s[at] {
            let m = choose|m: int| 0 <= m < s.len() && s[m] == x;
            if m < at {
                assert(t[m] == x);
            } else {
                assert(t[m - 1] == x);
            }
        }
    }
}

/// Whether `v` is strictly ascending.
pub fn is_strictly_ascending<T: DomainValue>(v: &Vec<T>) -> (r: bool)
    ensures
        r == strictly_ascending(v@),
{
    if v.len() < 2 {
        return true;
    }
    let mut i: usize = 1;
    while i < v.len()
        invariant
            1 <= i <= v@.len(),
            strictly_ascending(v@.take(i as int)),
        decreases v@.len() - i,
    {
        if !v[i - 1].precedes(&v[i]) {
            proof {
                if strictly_ascending(v@) {
                    assert(v@[i - 1].rank() < v@[i as int].rank());
                }
            }
            return false;
        }
        proof {
            let t = v@.take(i as int);
            let u = v@.take(i + 1);
            assert forall|m: int, n: int| 0 <= m < n < u.len() implies (#[trigger] u[m]).rank() < (
            #[trigger] u[n]).rank() by {
                if n < i {
                    assert(t[m].rank() < t[n].rank());
                } else if m < i - 1 {
                    assert(t[m].rank() < t[i - 1].rank());
                }
            }
        }
        i += 1;
    }
    proof {
        assert(v@.take(v@.len() as int) =~= v@);
    }
    true
}

/// The number of values of `v` that come strictly before `x`, found by
/// bisection.
pub fn count_below<T: DomainValue>(v: &Vec<T>, x: &T) -> (k: usize)
    requires
        strictly_ascending(v@),
    ensures
        k <= v@.len(),
        forall|i: int| 0 <= i < k ==> (#[trigger] v@[i]).rank() < x.rank(),
        forall|i: int| k <= i < v@.len() ==> (#[trigger] v@[i]).rank() >= x.rank(),
{
    let mut lo: usize = 0;
    let mut hi: usize = v.len();
    while lo < hi
        invariant
            lo <= hi <= v@.len(),
            strictly_ascending(v@),
            forall|i: int| 0 <= i < lo ==> (#[trigger] v@[i]).rank() < x.rank(),
            forall|i: int| hi <= i < v@.len() ==> (#[trigger] v@[i]).rank() >= x.rank(),
        decreases hi - lo,
    {
        let mid: usize = lo + (hi - lo) / 2;
        if v[mid].precedes(x) {
            assert forall|i: int| 0 <= i < mid + 1 implies (#[trigger] v@[i]).rank() < x.rank() by {
                if i < mid {
                    assert(v@[i].rank() < v@[mid as int].rank());
                }
            }
            lo = mid + 1;
        } else {
            assert forall|i: int| mid <= i < v@.len() implies (#[trigger] v@[i]).rank()
                >= x.rank() by {
                if mid < i {
                    assert(v@[mid as int].rank() < v@[i].rank());
                }
            }
            hi = mid;
        }
    }
    lo
}

/// The number of values of `v` that do not come after `x`, found by
/// bisection.
pub fn count_up_to<T: DomainValue>(v: &Vec<T>, x: &T) -> (k: usize)
    requires
        strictly_ascending(v@),
    ensures
        k <= v@.len(),
        forall|i: int| 0 <= i < k ==> (#[trigger] v@[i]).rank() <= x.rank(),
        forall|i: int| k <= i < v@.len() ==> (#[trigger] v@[i]).rank() > x.rank(),
{
    let mut lo: usize = 0;
    let mut hi: usize = v.len();
    while lo < hi
        invariant
            lo <= hi <= v@.len(),
            strictly_ascending(v@),
            forall|i: int| 0 <= i < lo ==> (#[trigger] v@[i]).rank() <= x.rank(),
            forall|i: int| hi <= i < v@.len() ==> (#[trigger] v@[i]).rank() > x.rank(),
        decreases hi - lo,
    {
        let mid: usize = lo + (hi - lo) / 2;
        if x.precedes(&v[mid]) {
            assert forall|i: int| mid <= i < v@.len() implies (#[trigger] v@[i]).rank()
                > x.rank() by {
                if mid < i {
                    assert(v@[mid as int].rank() < v@[i].rank());
                }
            }
            hi = mid;
        } else {
            assert forall|i: int| 0 <= i < mid + 1 implies (#[trigger] v@[i]).rank()
                <= x.rank() by {
                if i < mid {
                    assert(v@[i].rank() < v@[mid as int].rank());
                }
            }
            lo = mid + 1;
        }
    }
    lo
}

/// Where `x` stands in `v`, if it is there.
pub fn position_of<T: DomainValue>(v: &Vec<T>, x: &T) -> (r: Option<usize>)
    requires
        strictly_ascending(v@),
    ensures
        match r {
            Some(at) => at < v@.len() && v@[at as int] == *x,
            None => !v@.contains(*x),
        },
{
    let k = count_below(v, x);
    if k < v.len() && !x.precedes(&v[k]) {
        proof {
            T::rank_determines_value(v@[k as int], *x);
        }
        Some(k)
    } else {
        proof {
            if v@.contains(*x) {
                let m = choose|m: int| 0 <= m < v@.len() && v@[m] == *x;
                if m < k {
                    assert(v@[m].rank() < x.rank());
                } else {
                    assert(v@[k as int].rank() > x.rank());
                    lemma_ascending_index(v@, k as int, m);
                }
            }
        }
        None
    }
}

/// A copy of the values of `v`.
pub fn copy_of<T: DomainValue>(v: &Vec<T>) -> (r: Vec<T>)
    ensures
        r@ == v@,
{
    let mut r: Vec<T> = Vec::new();
    let mut i: usize = 0;
    while i < v.len()
        invariant
            i <= v@.len(),
            r@ == v@.take(i as int),
        decreases v@.len() - i,
    {
        r.push(v[i]);
        assert(r@ =~= v@.take(i + 1));
        i += 1;
    }
    assert(v@.take(v@.len() as int) =~= v@);
    r
}

/// The values that stand in both `a` and `b`, in ascending order: one pass
/// over the two sequences side by side.
pub fn intersection<T: DomainValue>(a: &Vec<T>, b: &Vec<T>) -> (r: Vec<T>)
    requires
        strictly_ascending(a@),
        strictly_ascending(b@),
    ensures
        strictly_ascending(r@),
        forall|x: T| #[trigger] r@.contains(x) <==> (a@.contains(x) && b@.contains(x)),
{
    let mut r: Vec<T> = Vec::new();
    let mut i: usize = 0;
    let mut j: usize = 0;
    while i < a.len() && j < b.len()
        invariant
            i <= a@.len(),
            j <= b@.len(),
            strictly_ascending(a@),
            strictly_ascending(b@),
            strictly_ascending(r@),
            forall|x: T| #[trigger] r@.contains(x) ==> a@.contains(x) && b@.contains(x),
            forall|k: int|
                0 <= k < r@.len() && i < a@.len() ==> (#[trigger] r@[k]).rank() < a@[i as int].rank(),
            forall|k: int|
                0 <= k < r@.len() && j < b@.len() ==> (#[trigger] r@[k]).rank() < b@[j as int].rank(),
            forall|p: int, q: int|
                #![trigger a@[p], b@[q]]
                0 <= p < a@.len() && 0 <= q < b@.len() && a@[p].rank() == b@[q].rank() ==> r@.contains(
                    a@[p],
                ) || (p >= i && q >= j),
        decreases a@.len() - i + b@.len() - j,
    {
        let x = a[i];
        let y = b[j];
        if x.precedes(&y) {
            proof {
                assert forall|p: int, q: int|
                    #![trigger a@[p], b@[q]]
                    0 <= p < a@.len() && 0 <= q < b@.len() && a@[p].rank() == b@[q].rank() implies r@.contains(
                    a@[p]) || (p >= i + 1 && q >= j) by {
                    if p == i && q >= j {
                        lemma_ascending_index(b@, j as int, q);
                    }
                }
                assert forall|k: int| 0 <= k < r@.len() && i + 1 < a@.len() implies (
                #[trigger] r@[k]).rank() < a@[i + 1].rank() by {
                    assert(a@[i as int].rank() < a@[i + 1].rank());
                }
            }
            i += 1;
        } else if y.precedes(&x) {
            proof {
                assert forall|p: int, q: int|
                    #![trigger a@[p], b@[q]]
                    0 <= p < a@.len() && 0 <= q < b@.len() && a@[p].rank() == b@[q].rank() implies r@.contains(
                    a@[p]) || (p >= i && q >= j + 1) by {
                    if q == j && p >= i {
                        lemma_ascending_index(a@, i as int, p);
                    }
                }
                assert forall|k: int| 0 <= k < r@.len() && j + 1 < b@.len() implies (
                #[trigger] r@[k]).rank() < b@[j + 1].rank() by {
                    assert(b@[j as int].rank() < b@[j + 1].rank());
                }
            }
            j += 1;
        } else {
            proof {
                T::rank_determines_value(x, y);
                let ghost before = r@;
                let after = before.push(x);
                assert(strictly_ascending(after)) by {
                    assert forall|m: int, n: int| 0 <= m < n < after.len() implies (
                    #[trigger] after[m]).rank() < (#[trigger] after[n]).rank() by {
                        if n < before.len() {
                            assert(before[m].rank() < before[n].rank());
                        } else {
                            assert(before[m].rank() < a@[i as int].rank());
                        }
                    }
                }
                assert forall|z: T| #[trigger] after.contains(z) implies a@.contains(z)
                    && b@.contains(z) by {
                    lemma_push_contains(before, x, z);
                    if z == x {
                        assert(a@[i as int] == z);
                        assert(b@[j as int] == z);
                    }
                }
                assert forall|p: int, q: int|
                    #![trigger a@[p], b@[q]]
                    0 <= p < a@.len() && 0 <= q < b@.len() && a@[p].rank() == b@[q].rank() implies after.contains(
                    a@[p]) || (p >= i + 1 && q >= j + 1) by {
                    lemma_push_contains(before, x, a@[p]);
                    lemma_ascending_index(a@, i as int, p);
                    lemma_ascending_index(b@, j as int, q);
                    if p == i {
                    } else if q == j {
                    }
                }
                assert forall|k: int| 0 <= k < after.len() && i + 1 < a@.len() implies (
                #[trigger] after[k]).rank() < a@[i + 1].rank() by {
                    assert(a@[i as int].rank() < a@[i + 1].rank());
                    if k < before.len() {
                        assert(before[k].rank() < a@[i as int].rank());
                    }
                }
                assert forall|k: int| 0 <= k < after.len() && j + 1 < b@.len() implies (
                #[trigger] after[k]).rank() < b@[j + 1].rank() by {
                    assert(b@[j as int].rank() < b@[j + 1].rank());
                    if k < before.len() {
                        assert(before[k].rank() < b@[j as int].rank());
                    }
                }
            }
            r.push(x);
            i += 1;
            j += 1;
        }
    }
    proof {
        assert forall|x: T| a@.contains(x) && b@.contains(x) implies #[trigger] r@.contains(x) by {
            let p = choose|p: int| 0 <= p < a@.len() && a@[p] == x;
            let q = choose|q: int| 0 <= q < b@.len() && b@[q] == x;
            assert(a@[p].rank() == b@[q].rank());
        }
    }
    r
}

/// The values of `values`, each once, in ascending order.
pub fn normalized<T: DomainValue>(values: &Vec<T>) -> (r: Vec<T>)
    ensures
        strictly_ascending(r@),
        same_values(r@, values@),
{
    let mut r: Vec<T> = Vec::new();
    let mut i: usize = 0;
    while i < values.len()
        invariant
            i <= values@.len(),
            strictly_ascending(r@),
            same_values(r@, values@.take(i as int)),
        decreases values@.len() - i,
    {
        let x = values[i];
        let at = count_below(&r, &x);
        let ghost before = r@;
        let ghost seen = values@.take(i as int);
        let ghost seen_next = values@.take(i + 1);
        proof {
            assert(seen_next =~= seen.push(x));
        }
        if at == r.len() || x.precedes(&r[at]) {
            r.insert(at, x);
            proof {
                let after = before.insert(at as int, x);
                assert(strictly_ascending(after)) by {
                    assert forall|m: int, n: int| 0 <= m < n < after.len() implies (
                    #[trigger] after[m]).rank() < (#[trigger] after[n]).rank() by {
                        if n < at {
                            assert(before[m].rank() < before[n].rank());
                        } else if n == at {
                            assert(before[m].rank() < x.rank());
                        } else if m < at {
                            assert(before[m].rank() < x.rank());
                            assert(before[n - 1].rank() >= x.rank());
                            if at < before.len() {
                                assert(x.rank() < before[at as int].rank());
                                if at < n - 1 {
                                    assert(before[at as int].rank() < before[n - 1].rank());
                                }
                            }
                        } else if m == at {
                            assert(x.rank() < before[at as int].rank());
                            if at < n - 1 {
                                assert(before[at as int].rank() < before[n - 1].rank());
                            }
                        } else {
                            assert(before[m - 1].rank() < before[n - 1].rank());
                        }
                    }
                }
                assert forall|z: T|
                    #![trigger after.contains(z)]
                    #![trigger seen_next.contains(z)]
                    after.contains(z) <==> seen_next.contains(z) by {
                    lemma_insert_contains(before, at as int, x, z);
                    lemma_push_contains(seen, x, z);
                    assert(before.contains(z) <==> seen.contains(z));
                }
            }
        } else {
            proof {
                T::rank_determines_value(before[at as int], x);
                assert(before.contains(x));
                assert forall|z: T|
                    #![trigger before.contains(z)]
                    #![trigger seen_next.contains(z)]
                    before.contains(z) <==> seen_next.contains(z) by {
                    lemma_push_contains(seen, x, z);
                    assert(before.contains(z) <==> seen.contains(z));
                }
            }
        }
        i += 1;
    }
    proof {
        assert(values@.take(values@.len() as int) =~= values@);
    }
    r
}

} // verus!
