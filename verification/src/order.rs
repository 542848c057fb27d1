//! Three-way comparisons and stable insertion order, decided in specs and code alike.
use vstd::prelude::*;
use vstd::string::*;
use vstd::utf8::*;

verus! {

/// Outcome of a three-way comparison.
#[derive(Debug, Clone, Copy, PartialEq, Eq, Structural)]
pub enum Order {
    Less,
    Equal,
    Greater,
}

/// Lexicographic combination: `first`, and `second` only where `first` ties.
pub open spec fn then(first: Order, second: Order) -> Order {
    if first is Equal {
        second
    } else {
        first
    }
}

/// The reverse comparison.
pub open spec fn flip(o: Order) -> Order {
    match o {
        Order::Less => Order::Greater,
        Order::Equal => Order::Equal,
        Order::Greater => Order::Less,
    }
}

/// Comparison of integers.
pub open spec fn compare_int(a: int, b: int) -> Order {
    if a < b {
        Order::Less
    } else if a == b {
        Order::Equal
    } else {
        Order::Greater
    }
}

/// Lexicographic comparison of byte sequences; a proper prefix comes first.
pub open spec fn lex_bytes(a: Seq<u8>, b: Seq<u8>) -> Order
    decreases a.len(),
{
    if a.len() == 0 {
        if b.len() == 0 {
            Order::Equal
        } else {
            Order::Less
        }
    } else if b.len() == 0 {
        Order::Greater
    } else {
        then(compare_int(a[0] as int, b[0] as int), lex_bytes(a.drop_first(), b.drop_first()))
    }
}

/// Comparison of strings as `str::cmp` orders them: by their UTF-8 bytes.
pub open spec fn compare_text(a: Seq<char>, b: Seq<char>) -> Order {
    lex_bytes(encode_utf8(a), encode_utf8(b))
}

pub fn compare_usize(a: usize, b: usize) -> (r: Order)
    ensures
        r == compare_int(a as int, b as int),
{
    if a < b {
        Order::Less
    } else if a == b {
        Order::Equal
    } else {
        Order::Greater
    }
}

proof fn lemma_lex_bytes_skip(a: Seq<u8>, b: Seq<u8>, i: int)
    requires
        0 <= i <= a.len(),
        i <= b.len(),
        forall|j: int| 0 <= j < i ==> a[j] == b[j],
    ensures
        lex_bytes(a, b) == lex_bytes(a.skip(i), b.skip(i)),
    decreases i,
{
    if i > 0 {
        lemma_lex_bytes_skip(a.drop_first(), b.drop_first(), i - 1);
        assert(a.drop_first().skip(i - 1) =~= a.skip(i));
        assert(b.drop_first().skip(i - 1) =~= b.skip(i));
    } else {
        assert(a.skip(0) =~= a);
        assert(b.skip(0) =~= b);
    }
}

/// Byte-lexicographic comparison of two byte slices.
pub fn compare_byte_slices(x: &[u8], y: &[u8]) -> (r: Order)
    ensures
        r == lex_bytes(x@, y@),
{
    let mut i: usize = 0;
    while i < x.len() && i < y.len()
        invariant
            i <= x@.len(),
            i <= y@.len(),
            forall|j: int| 0 <= j < i ==> x@[j] == y@[j],
        decreases x@.len() - i,
    {
        if x[i] != y[i] {
            proof {
                lemma_lex_bytes_skip(x@, y@, i as int);
            }
            if x[i] < y[i] {
                return Order::Less;
            } else {
                return Order::Greater;
            }
        }
        i = i + 1;
    }
    proof {
        lemma_lex_bytes_skip(x@, y@, i as int);
    }
    if x.len() == y.len() {
        Order::Equal
    } else if i == x.len() {
        Order::Less
    } else {
        Order::Greater
    }
}

/// Compare two strings as `str::cmp` does.
pub fn compare_str(a: &str, b: &str) -> (r: Order)
    ensures
        r == compare_text(a@, b@),
{
    compare_byte_slices(a.as_bytes(), b.as_bytes())
}

/// Insertion point that keeps equal elements in arrival order: the first
/// position at or after `i` whose element compares greater than `x`.
pub open spec fn first_greater_from<T>(s: Seq<T>, x: T, f: spec_fn(T, T) -> Order, i: int) -> int
    decreases s.len() - i,
{
    if i >= s.len() || i < 0 {
        s.len() as int
    } else if f(s[i], x) is Greater {
        i
    } else {
        first_greater_from(s, x, f, i + 1)
    }
}

/// Insert `x` into `s` after every element that does not compare greater than it,
/// up to the first one that does.
pub open spec fn insert_stable<T>(s: Seq<T>, x: T, f: spec_fn(T, T) -> Order) -> Seq<T> {
    s.insert(first_greater_from(s, x, f, 0), x)
}

/// Stable insertion sort of `s` by `f`.
pub open spec fn stable_sort<T>(s: Seq<T>, f: spec_fn(T, T) -> Order) -> Seq<T>
    decreases s.len(),
{
    if s.len() == 0 {
        Seq::empty()
    } else {
        insert_stable(stable_sort(s.drop_last(), f), s.last(), f)
    }
}

pub proof fn lemma_first_greater_bounds<T>(s: Seq<T>, x: T, f: spec_fn(T, T) -> Order, i: int)
    requires
        0 <= i <= s.len(),
    ensures
        i <= first_greater_from(s, x, f, i) <= s.len(),
        forall|j: int| i <= j < first_greater_from(s, x, f, i) ==> !(f(s[j], x) is Greater),
        first_greater_from(s, x, f, i) < s.len() ==> f(s[first_greater_from(s, x, f, i)], x) is Greater,
    decreases s.len() - i,
{
    if i < s.len() && !(f(s[i], x) is Greater) {
        lemma_first_greater_bounds(s, x, f, i + 1);
    }
}

/// Sorting one more element inserts it into the sorted rest.
pub proof fn lemma_stable_sort_push<T>(s: Seq<T>, x: T, f: spec_fn(T, T) -> Order)
    ensures
        stable_sort(s.push(x), f) == insert_stable(stable_sort(s, f), x, f),
{
    assert(s.push(x).drop_last() =~= s);
    assert(s.push(x).last() == x);
}

pub proof fn lemma_stable_sort_len<T>(s: Seq<T>, f: spec_fn(T, T) -> Order)
    ensures
        stable_sort(s, f).len() == s.len(),
    decreases s.len(),
{
    if s.len() > 0 {
        lemma_stable_sort_len(s.drop_last(), f);
        lemma_first_greater_bounds(stable_sort(s.drop_last(), f), s.last(), f, 0);
    }
}

} // verus!

verus! {

/// Stable insertion sort only reorders: it keeps every element with its multiplicity.
pub proof fn lemma_stable_sort_multiset<T>(s: Seq<T>, f: spec_fn(T, T) -> Order)
    ensures
        stable_sort(s, f).to_multiset() == s.to_multiset(),
        stable_sort(s, f).len() == s.len(),
    decreases s.len(),
{
    broadcast use vstd::seq_lib::group_to_multiset_ensures;

    if s.len() > 0 {
        let rest = stable_sort(s.drop_last(), f);
        lemma_stable_sort_multiset(s.drop_last(), f);
        lemma_first_greater_bounds(rest, s.last(), f, 0);
        vstd::seq_lib::to_multiset_insert(rest, first_greater_from(rest, s.last(), f, 0), s.last());
        vstd::seq_lib::to_multiset_build(s.drop_last(), s.last());
        assert(s.drop_last().push(s.last()) =~= s);
    }
}

/// Sorting a duplicate-free sequence keeps it duplicate-free and keeps its elements.
pub proof fn lemma_stable_sort_elements<T>(s: Seq<T>, f: spec_fn(T, T) -> Order)
    ensures
        forall|x: T| stable_sort(s, f).contains(x) <==> s.contains(x),
        s.no_duplicates() ==> stable_sort(s, f).no_duplicates(),
        stable_sort(s, f).len() == s.len(),
{
    broadcast use vstd::seq_lib::group_to_multiset_ensures;

    lemma_stable_sort_multiset(s, f);
    let t = stable_sort(s, f);
    assert forall|x: T| t.contains(x) <==> s.contains(x) by {
        vstd::seq_lib::to_multiset_contains(t, x);
        vstd::seq_lib::to_multiset_contains(s, x);
    }
    if s.no_duplicates() {
        s.lemma_multiset_has_no_duplicates();
        t.lemma_multiset_has_no_duplicates_conv();
    }
}

} // verus!

verus! {

/// `f` orders its arguments as a total preorder: it answers `Equal` on equal
/// arguments, reverses when its arguments are swapped, and "not greater" is transitive.
pub open spec fn total_preorder<T>(f: spec_fn(T, T) -> Order) -> bool {
    &&& forall|a: T| #[trigger] f(a, a) is Equal
    &&& forall|a: T, b: T| #[trigger] f(a, b) == flip(f(b, a))
    &&& forall|a: T, b: T, c: T|
        !(#[trigger] f(a, b) is Greater) && !(#[trigger] f(b, c) is Greater) ==> !(#[trigger] f(
            a,
            c,
        ) is Greater)
}

/// `s` is sorted by `f`: no element compares greater than a later one.
pub open spec fn sorted_by<T>(s: Seq<T>, f: spec_fn(T, T) -> Order) -> bool {
    forall|i: int, j: int| 0 <= i < j < s.len() ==> !(f(#[trigger] s[i], #[trigger] s[j]) is Greater)
}

/// Stable insertion sort by a total preorder yields a sorted sequence.
pub proof fn lemma_stable_sort_sorted<T>(s: Seq<T>, f: spec_fn(T, T) -> Order)
    requires
        total_preorder(f),
    ensures
        sorted_by(stable_sort(s, f), f),
    decreases s.len(),
{
    if s.len() > 0 {
        let rest = stable_sort(s.drop_last(), f);
        let x = s.last();
        lemma_stable_sort_sorted(s.drop_last(), f);
        lemma_first_greater_bounds(rest, x, f, 0);
        let p = first_greater_from(rest, x, f, 0);
        let t = rest.insert(p, x);
        assert(t == stable_sort(s, f));
        assert forall|i: int, j: int| 0 <= i < j < t.len() implies !(f(
            #[trigger] t[i],
            #[trigger] t[j],
        ) is Greater) by {
            if j < p {
                assert(t[i] == rest[i] && t[j] == rest[j]);
            } else if j == p {
                assert(t[i] == rest[i] && t[j] == x);
            } else if i == p {
                assert(t[i] == x && t[j] == rest[j - 1]);
                assert(f(rest[p], x) is Greater);
                assert(f(x, rest[p]) == flip(f(rest[p], x)));
                if p < j - 1 {
                    assert(!(f(rest[p], rest[j - 1]) is Greater));
                }
            } else if i < p {
                assert(t[i] == rest[i] && t[j] == rest[j - 1]);
            } else {
                assert(t[i] == rest[i - 1] && t[j] == rest[j - 1]);
            }
        }
    }
}

} // verus!

verus! {

/// Comparison of two values by an integer key.
pub open spec fn by_int_key<T>(key: spec_fn(T) -> int) -> spec_fn(T, T) -> Order {
    |a: T, b: T| compare_int(key(a), key(b))
}

/// Comparison by `f` first and, where `f` ties, by `g`.
pub open spec fn then_by<T>(f: spec_fn(T, T) -> Order, g: spec_fn(T, T) -> Order) -> spec_fn(
    T,
    T,
) -> Order {
    |a: T, b: T| then(f(a, b), g(a, b))
}

/// Comparison of two values by a comparison of keys drawn from them.
pub open spec fn by_key<T, K>(key: spec_fn(T) -> K, f: spec_fn(K, K) -> Order) -> spec_fn(T, T) -> Order {
    |a: T, b: T| f(key(a), key(b))
}

pub proof fn lemma_int_key_preorder<T>(key: spec_fn(T) -> int)
    ensures
        total_preorder(by_int_key(key)),
{
}

pub proof fn lemma_then_preorder<T>(f: spec_fn(T, T) -> Order, g: spec_fn(T, T) -> Order)
    requires
        total_preorder(f),
        total_preorder(g),
    ensures
        total_preorder(then_by(f, g)),
{
    let h = then_by(f, g);
    assert forall|a: T, b: T| #[trigger] h(a, b) == flip(h(b, a)) by {
        assert(f(a, b) == flip(f(b, a)));
        assert(g(a, b) == flip(g(b, a)));
    }
    assert forall|a: T, b: T, c: T|
        !(#[trigger] h(a, b) is Greater) && !(#[trigger] h(b, c) is Greater) implies !(#[trigger] h(
            a,
            c,
        ) is Greater) by {
        assert(f(a, b) == flip(f(b, a)));
        assert(f(b, c) == flip(f(c, b)));
        assert(f(a, c) == flip(f(c, a)));
        assert(g(a, b) == flip(g(b, a)));
        assert(g(b, c) == flip(g(c, b)));
        if !(f(a, b) is Greater) && !(f(b, c) is Greater) {
            assert(!(f(a, c) is Greater));
        }
        if !(f(c, b) is Greater) && !(f(b, a) is Greater) {
            assert(!(f(c, a) is Greater));
        }
        if f(a, b) is Less && !(f(b, c) is Greater) {
            if !(f(c, a) is Greater) {
                assert(!(f(b, a) is Greater));
            }
        }
        if !(f(a, b) is Greater) && f(b, c) is Less {
            if !(f(c, a) is Greater) {
                assert(!(f(c, b) is Greater));
            }
        }
        if f(a, b) is Equal && f(b, c) is Equal {
            assert(!(g(a, c) is Greater));
        }
    }
    assert forall|a: T| #[trigger] h(a, a) is Equal by {
        assert(f(a, a) is Equal);
        assert(g(a, a) is Equal);
    }
}

pub proof fn lemma_key_preorder<T, K>(key: spec_fn(T) -> K, f: spec_fn(K, K) -> Order)
    requires
        total_preorder(f),
    ensures
        total_preorder(by_key(key, f)),
{
    let h = by_key(key, f);
    assert forall|a: T, b: T| #[trigger] h(a, b) == flip(h(b, a)) by {
        assert(f(key(a), key(b)) == flip(f(key(b), key(a))));
    }
    assert forall|a: T, b: T, c: T|
        !(#[trigger] h(a, b) is Greater) && !(#[trigger] h(b, c) is Greater) implies !(#[trigger] h(
            a,
            c,
        ) is Greater) by {
        assert(!(f(key(a), key(b)) is Greater) && !(f(key(b), key(c)) is Greater));
    }
    assert forall|a: T| #[trigger] h(a, a) is Equal by {
        assert(f(key(a), key(a)) is Equal);
    }
}

/// Lexicographic extension of an element comparison; a proper prefix comes first.
pub open spec fn lex_by<T>(a: Seq<T>, b: Seq<T>, f: spec_fn(T, T) -> Order) -> Order
    decreases a.len(),
{
    if a.len() == 0 {
        if b.len() == 0 {
            Order::Equal
        } else {
            Order::Less
        }
    } else if b.len() == 0 {
        Order::Greater
    } else {
        then(f(a[0], b[0]), lex_by(a.drop_first(), b.drop_first(), f))
    }
}

/// `lex_by` as a comparison value.
pub open spec fn lex_order<T>(f: spec_fn(T, T) -> Order) -> spec_fn(Seq<T>, Seq<T>) -> Order {
    |a: Seq<T>, b: Seq<T>| lex_by(a, b, f)
}

proof fn lemma_lex_flip<T>(a: Seq<T>, b: Seq<T>, f: spec_fn(T, T) -> Order)
    requires
        total_preorder(f),
    ensures
        lex_by(a, b, f) == flip(lex_by(b, a, f)),
    decreases a.len(),
{
    if a.len() > 0 && b.len() > 0 {
        assert(f(a[0], b[0]) == flip(f(b[0], a[0])));
        lemma_lex_flip(a.drop_first(), b.drop_first(), f);
    }
}

proof fn lemma_lex_refl<T>(a: Seq<T>, f: spec_fn(T, T) -> Order)
    requires
        total_preorder(f),
    ensures
        lex_by(a, a, f) is Equal,
    decreases a.len(),
{
    if a.len() > 0 {
        assert(f(a[0], a[0]) is Equal);
        lemma_lex_refl(a.drop_first(), f);
    }
}

proof fn lemma_lex_trans<T>(a: Seq<T>, b: Seq<T>, c: Seq<T>, f: spec_fn(T, T) -> Order)
    requires
        total_preorder(f),
        !(lex_by(a, b, f) is Greater),
        !(lex_by(b, c, f) is Greater),
    ensures
        !(lex_by(a, c, f) is Greater),
    decreases a.len(),
{
    if a.len() > 0 && b.len() > 0 && c.len() > 0 {
        let (x, y, z) = (a[0], b[0], c[0]);
        assert(f(x, y) == flip(f(y, x)));
        assert(f(y, z) == flip(f(z, y)));
        assert(f(x, z) == flip(f(z, x)));
        if !(f(x, y) is Greater) && !(f(y, z) is Greater) {
            assert(!(f(x, z) is Greater));
        }
        if f(x, y) is Equal && f(y, z) is Equal {
            assert(!(f(z, y) is Greater) && !(f(y, x) is Greater));
            assert(!(f(z, x) is Greater));
            lemma_lex_trans(a.drop_first(), b.drop_first(), c.drop_first(), f);
        } else if f(x, y) is Less {
            if !(f(z, x) is Greater) && !(f(y, z) is Greater) {
                assert(!(f(y, x) is Greater));
            }
        } else {
            if !(f(z, x) is Greater) {
                assert(!(f(z, y) is Greater));
            }
        }
    }
}

pub proof fn lemma_lex_preorder<T>(f: spec_fn(T, T) -> Order)
    requires
        total_preorder(f),
    ensures
        total_preorder(lex_order(f)),
{
    let h = lex_order(f);
    assert forall|a: Seq<T>, b: Seq<T>| #[trigger] h(a, b) == flip(h(b, a)) by {
        lemma_lex_flip(a, b, f);
    }
    assert forall|a: Seq<T>, b: Seq<T>, c: Seq<T>|
        !(#[trigger] h(a, b) is Greater) && !(#[trigger] h(b, c) is Greater) implies !(#[trigger] h(
            a,
            c,
        ) is Greater) by {
        lemma_lex_trans(a, b, c, f);
    }
    assert forall|a: Seq<T>| #[trigger] h(a, a) is Equal by {
        lemma_lex_refl(a, f);
    }
}

} // verus!

verus! {

/// Two sequences sorted by a total preorder, holding the same elements, in which
/// elements that tie are identical, are the same sequence.
pub proof fn lemma_sorted_unique<T>(s: Seq<T>, t: Seq<T>, f: spec_fn(T, T) -> Order)
    requires
        total_preorder(f),
        sorted_by(s, f),
        sorted_by(t, f),
        s.to_multiset() == t.to_multiset(),
        forall|x: T, y: T| s.contains(x) && s.contains(y) && (#[trigger] f(x, y)) is Equal ==> x == y,
    ensures
        s == t,
    decreases s.len(),
{
    broadcast use vstd::seq_lib::group_to_multiset_ensures, vstd::multiset::group_multiset_axioms;

    assert(s.len() == t.len()) by {
        assert(s.to_multiset().len() == s.len());
        assert(t.to_multiset().len() == t.len());
    }
    if s.len() > 0 {
        let n = s.len() - 1;
        let x = s.last();
        let y = t.last();
        vstd::seq_lib::to_multiset_contains(t, x);
        vstd::seq_lib::to_multiset_contains(s, x);
        vstd::seq_lib::to_multiset_contains(s, y);
        vstd::seq_lib::to_multiset_contains(t, y);
        assert(s.contains(x)) by {
            assert(s[n] == x);
        }
        assert(t.contains(y)) by {
            assert(t[n] == y);
        }
        let k = choose|k: int| 0 <= k < t.len() && t[k] == x;
        let m = choose|m: int| 0 <= m < s.len() && s[m] == y;
        assert(!(f(x, y) is Greater)) by {
            if k < n {
                assert(!(f(t[k], t[n]) is Greater));
            } else {
                assert(f(x, x) is Equal);
            }
        }
        assert(!(f(y, x) is Greater)) by {
            if m < n {
                assert(!(f(s[m], s[n]) is Greater));
            } else {
                assert(f(y, y) is Equal);
            }
        }
        assert(f(x, y) == flip(f(y, x)));
        assert(x == y);
        let s2 = s.drop_last();
        let t2 = t.drop_last();
        vstd::seq_lib::to_multiset_build(s2, x);
        vstd::seq_lib::to_multiset_build(t2, y);
        assert(s2.push(x) =~= s);
        assert(t2.push(y) =~= t);
        assert(s2.to_multiset() =~= t2.to_multiset()) by {
            assert forall|z: T| s2.to_multiset().count(z) == t2.to_multiset().count(z) by {
                assert(s2.push(x).to_multiset() =~= s2.to_multiset().insert(x));
                assert(t2.push(x).to_multiset() =~= t2.to_multiset().insert(x));
                vstd::multiset::lemma_insert_increases_count_by_1(s2.to_multiset(), x);
                vstd::multiset::lemma_insert_increases_count_by_1(t2.to_multiset(), x);
                vstd::multiset::lemma_insert_other_elements_unchanged(s2.to_multiset(), x, z);
                vstd::multiset::lemma_insert_other_elements_unchanged(t2.to_multiset(), x, z);
                assert(s.to_multiset().count(z) == t.to_multiset().count(z));
            }
        }
        assert forall|x2: T, y2: T| s2.contains(x2) && s2.contains(y2) && (#[trigger] f(x2, y2)) is Equal implies x2 == y2 by {
            let i = choose|i: int| 0 <= i < s2.len() && s2[i] == x2;
            let j = choose|j: int| 0 <= j < s2.len() && s2[j] == y2;
            assert(s[i] == s2[i] && s[j] == s2[j]);
            assert(s.contains(x2) && s.contains(y2));
        }
        lemma_sorted_unique(s2, t2, f);
    }
}

} // verus!

verus! {

/// The elements of `s` that tie with `x` under `f`, in their order in `s`.
pub open spec fn tie_class<T>(s: Seq<T>, f: spec_fn(T, T) -> Order, x: T) -> Seq<T> {
    s.filter(|y: T| f(y, x) is Equal)
}

/// Keeping only the elements of `s` that pass `pred` keeps nothing when none does.
proof fn lemma_filter_none<T>(s: Seq<T>, pred: spec_fn(T) -> bool)
    requires
        forall|i: int| 0 <= i < s.len() ==> !pred(#[trigger] s[i]),
    ensures
        s.filter(pred) == Seq::<T>::empty(),
    decreases s.len(),
{
    reveal(Seq::filter);
    if s.len() > 0 {
        assert forall|i: int| 0 <= i < s.drop_last().len() implies !pred(#[trigger] s.drop_last()[i]) by {
            assert(s.drop_last()[i] == s[i]);
        }
        lemma_filter_none(s.drop_last(), pred);
        assert(!pred(s[s.len() - 1]));
    }
}

/// Stable insertion sort keeps the elements of each class of ties in their order.
pub proof fn lemma_stable_sort_classes<T>(s: Seq<T>, f: spec_fn(T, T) -> Order, x: T)
    requires
        total_preorder(f),
    ensures
        tie_class(stable_sort(s, f), f, x) == tie_class(s, f, x),
    decreases s.len(),
{
    reveal(Seq::filter);
    let pred = |y: T| f(y, x) is Equal;
    if s.len() > 0 {
        let rest = stable_sort(s.drop_last(), f);
        let l = s.last();
        lemma_stable_sort_classes(s.drop_last(), f, x);
        lemma_stable_sort_sorted(s.drop_last(), f);
        lemma_first_greater_bounds(rest, l, f, 0);
        let p = first_greater_from(rest, l, f, 0);
        let t = rest.insert(p, l);
        assert(t == stable_sort(s, f));
        let head = rest.take(p);
        let tail = rest.skip(p);
        assert(t =~= head + seq![l] + tail);
        assert(rest =~= head + tail);
        Seq::filter_distributes_over_add(head + seq![l], tail, pred);
        Seq::filter_distributes_over_add(head, seq![l], pred);
        Seq::filter_distributes_over_add(head, tail, pred);
        assert(seq![l].drop_last() =~= Seq::<T>::empty());
        assert(s.drop_last().push(l) =~= s);
        if pred(l) {
            assert forall|i: int| 0 <= i < tail.len() implies !pred(#[trigger] tail[i]) by {
                let j = p + i;
                assert(tail[i] == rest[j]);
                if j > p {
                    assert(!(f(rest[p], rest[j]) is Greater));
                }
                assert(f(rest[j], l) is Greater);
                if f(rest[j], x) is Equal {
                    assert(f(x, l) == flip(f(l, x)));
                }
            }
            lemma_filter_none(tail, pred);
            assert(seq![l].filter(pred) =~= seq![l]);
            assert(head.filter(pred) + Seq::<T>::empty() =~= head.filter(pred));
            assert(head.filter(pred) + seq![l] =~= head.filter(pred).push(l));
        } else {
            assert(Seq::<T>::empty().filter(pred) == Seq::<T>::empty());
            assert(seq![l].filter(pred) == seq![l].drop_last().filter(pred));
            assert(seq![l].filter(pred) =~= Seq::<T>::empty());
            assert(head.filter(pred) + Seq::<T>::empty() =~= head.filter(pred));
        }
    }
}

/// Two sequences sorted by a total preorder, holding the same elements, in which the
/// elements of each class of ties come in the same order, are the same sequence.
pub proof fn lemma_sorted_unique_by_classes<T>(s: Seq<T>, t: Seq<T>, f: spec_fn(T, T) -> Order)
    requires
        total_preorder(f),
        sorted_by(s, f),
        sorted_by(t, f),
        s.to_multiset() == t.to_multiset(),
        forall|x: T| #[trigger] tie_class(s, f, x) == tie_class(t, f, x),
    ensures
        s == t,
    decreases s.len(),
{
    broadcast use vstd::seq_lib::group_to_multiset_ensures, vstd::multiset::group_multiset_axioms;

    reveal(Seq::filter);
    assert(s.len() == t.len()) by {
        assert(s.to_multiset().len() == s.len());
        assert(t.to_multiset().len() == t.len());
    }
    if s.len() > 0 {
        let n = s.len() - 1;
        let x = s.last();
        let y = t.last();
        vstd::seq_lib::to_multiset_contains(t, x);
        vstd::seq_lib::to_multiset_contains(s, x);
        vstd::seq_lib::to_multiset_contains(s, y);
        vstd::seq_lib::to_multiset_contains(t, y);
        assert(s.contains(x)) by {
            assert(s[n] == x);
        }
        assert(t.contains(y)) by {
            assert(t[n] == y);
        }
        let k = choose|k: int| 0 <= k < t.len() && t[k] == x;
        let m = choose|m: int| 0 <= m < s.len() && s[m] == y;
        assert(!(f(x, y) is Greater)) by {
            if k < n {
                assert(!(f(t[k], t[n]) is Greater));
            } else {
                assert(f(x, x) is Equal);
            }
        }
        assert(!(f(y, x) is Greater)) by {
            if m < n {
                assert(!(f(s[m], s[n]) is Greater));
            } else {
                assert(f(y, y) is Equal);
            }
        }
        assert(f(x, y) == flip(f(y, x)));
        let s2 = s.drop_last();
        let t2 = t.drop_last();
        assert(f(x, x) is Equal);
        assert(tie_class(s, f, x) == tie_class(s2, f, x).push(x));
        assert(tie_class(t, f, x) == tie_class(t2, f, x).push(y));
        assert(x == y) by {
            assert(tie_class(s, f, x).last() == x);
            assert(tie_class(t, f, x).last() == y);
        }
        vstd::seq_lib::to_multiset_build(s2, x);
        vstd::seq_lib::to_multiset_build(t2, y);
        assert(s2.push(x) =~= s);
        assert(t2.push(y) =~= t);
        assert(s2.to_multiset() =~= t2.to_multiset()) by {
            assert forall|z: T| s2.to_multiset().count(z) == t2.to_multiset().count(z) by {
                assert(s2.push(x).to_multiset() =~= s2.to_multiset().insert(x));
                assert(t2.push(x).to_multiset() =~= t2.to_multiset().insert(x));
                vstd::multiset::lemma_insert_increases_count_by_1(s2.to_multiset(), x);
                vstd::multiset::lemma_insert_increases_count_by_1(t2.to_multiset(), x);
                vstd::multiset::lemma_insert_other_elements_unchanged(s2.to_multiset(), x, z);
                vstd::multiset::lemma_insert_other_elements_unchanged(t2.to_multiset(), x, z);
                assert(s.to_multiset().count(z) == t.to_multiset().count(z));
            }
        }
        assert forall|z: T| #[trigger] tie_class(s2, f, z) == tie_class(t2, f, z) by {
            assert(tie_class(s, f, z) == tie_class(t, f, z));
            if f(x, z) is Equal {
                assert(tie_class(s, f, z) == tie_class(s2, f, z).push(x));
                assert(tie_class(t, f, z) == tie_class(t2, f, z).push(x));
                assert(tie_class(s2, f, z) =~= tie_class(s, f, z).drop_last());
                assert(tie_class(t2, f, z) =~= tie_class(t, f, z).drop_last());
            } else {
                assert(tie_class(s, f, z) == tie_class(s2, f, z));
                assert(tie_class(t, f, z) == tie_class(t2, f, z));
            }
        }
        assert(sorted_by(s2, f)) by {
            assert forall|i: int, j: int| 0 <= i < j < s2.len() implies !(f(#[trigger] s2[i], #[trigger] s2[j]) is Greater) by {
                assert(s2[i] == s[i] && s2[j] == s[j]);
            }
        }
        assert(sorted_by(t2, f)) by {
            assert forall|i: int, j: int| 0 <= i < j < t2.len() implies !(f(#[trigger] t2[i], #[trigger] t2[j]) is Greater) by {
                assert(t2[i] == t[i] && t2[j] == t[j]);
            }
        }
        lemma_sorted_unique_by_classes(s2, t2, f);
    }
}

} // verus!
