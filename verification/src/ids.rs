//! Operations shared by the validated identifier types: lists of identifiers,
//! membership and the first repeated entry.
use vstd::prelude::*;

use crate::types::{DocumentId, EntityId, MetadataId, RecognizerId};

verus! {

/// A validated identifier, seen as the text it holds.
pub trait StableId: Sized + View<V = Seq<char>> {
    /// Whether two identifiers hold the same text.
    fn same_id(&self, other: &Self) -> (r: bool)
        ensures
            r == (self@ == other@),
    ;

    /// A copy of the identifier.
    fn copy_id(&self) -> (r: Self)
        ensures
            r@ == self@,
    ;
}

impl StableId for EntityId {
    fn same_id(&self, other: &Self) -> (r: bool) {
        self.same_as(other)
    }

    fn copy_id(&self) -> (r: Self) {
        self.clone()
    }
}

impl StableId for RecognizerId {
    fn same_id(&self, other: &Self) -> (r: bool) {
        self.same_as(other)
    }

    fn copy_id(&self) -> (r: Self) {
        self.clone()
    }
}

impl StableId for MetadataId {
    fn same_id(&self, other: &Self) -> (r: bool) {
        self.same_as(other)
    }

    fn copy_id(&self) -> (r: Self) {
        self.clone()
    }
}

impl StableId for DocumentId {
    fn same_id(&self, other: &Self) -> (r: bool) {
        self.same_as(other)
    }

    fn copy_id(&self) -> (r: Self) {
        self.clone()
    }
}

/// The texts of a list of identifiers.
pub open spec fn id_views<T: StableId>(s: Seq<T>) -> Seq<Seq<char>> {
    s.map_values(|x: T| x@)
}

/// The texts of an optional identifier.
pub open spec fn opt_id_view<T: StableId>(o: Option<T>) -> Option<Seq<char>> {
    match o {
        Some(x) => Some(x@),
        None => None,
    }
}

/// Entry `j` repeats an earlier entry.
pub open spec fn repeats_earlier<A>(s: Seq<A>, j: int) -> bool {
    exists|i: int| 0 <= i < j && #[trigger] s[i] == s[j]
}

/// The position of the first entry of `s` that repeats an earlier one.
pub open spec fn first_repeat<A>(s: Seq<A>) -> Option<int>
    decreases s.len(),
{
    if s.len() == 0 {
        None
    } else {
        match first_repeat(s.drop_last()) {
            Some(j) => Some(j),
            None => if repeats_earlier(s, s.len() - 1) {
                Some(s.len() - 1)
            } else {
                None
            },
        }
    }
}

/// No entry of `s` occurs twice.
pub open spec fn all_distinct<A>(s: Seq<A>) -> bool {
    forall|i: int, j: int| 0 <= i < j < s.len() ==> s[i] != s[j]
}

/// Facts about the first repeated entry.
pub proof fn lemma_first_repeat<A>(s: Seq<A>)
    ensures
        first_repeat(s) is None <==> all_distinct(s),
        first_repeat(s) matches Some(j) ==> 0 <= j < s.len() && repeats_earlier(s, j)
            && all_distinct(s.take(j)),
    decreases s.len(),
{
    if s.len() > 0 {
        let p = s.drop_last();
        lemma_first_repeat(p);
        match first_repeat(p) {
            Some(j) => {
                assert(p.take(j) =~= s.take(j));
                assert(s[j] == p[j]);
                let i = choose|i: int| 0 <= i < j && #[trigger] p[i] == p[j];
                assert(s[i] == p[i]);
                assert(!all_distinct(s)) by {
                    assert(s[i] == s[j]);
                }
            },
            None => {
                assert(p =~= s.take(s.len() - 1));
                if repeats_earlier(s, s.len() - 1) {
                    let i = choose|i: int| 0 <= i < s.len() - 1 && #[trigger] s[i] == s[s.len() - 1];
                    assert(!all_distinct(s)) by {
                        assert(s[i] == s[s.len() - 1]);
                    }
                } else {
                    assert forall|i: int, j: int| 0 <= i < j < s.len() implies s[i] != s[j] by {
                        if j < s.len() - 1 {
                            assert(s[i] == p[i] && s[j] == p[j]);
                        }
                    }
                }
            },
        }
    }
}

/// Whether `x` occurs in `items`.
pub fn contains_id<T: StableId>(items: &[T], x: &T) -> (r: bool)
    ensures
        r == id_views(items@).contains(x@),
{
    let mut i: usize = 0;
    while i < items.len()
        invariant
            i <= items@.len(),
            forall|j: int| 0 <= j < i ==> items@[j]@ != x@,
        decreases items@.len() - i,
    {
        if items[i].same_id(x) {
            proof {
                assert(id_views(items@)[i as int] == x@);
            }
            return true;
        }
        i = i + 1;
    }
    proof {
        if id_views(items@).contains(x@) {
            let k = choose|k: int| 0 <= k < id_views(items@).len() && id_views(items@)[k] == x@;
            assert(items@[k]@ == x@);
        }
    }
    false
}

/// Copy a list of identifiers.
pub fn copy_ids<T: StableId>(items: &[T]) -> (r: Vec<T>)
    ensures
        id_views(r@) == id_views(items@),
{
    let mut out: Vec<T> = Vec::new();
    let mut i: usize = 0;
    while i < items.len()
        invariant
            i <= items@.len(),
            out@.len() == i,
            forall|j: int| 0 <= j < i ==> (#[trigger] out@[j])@ == items@[j]@,
        decreases items@.len() - i,
    {
        out.push(items[i].copy_id());
        i = i + 1;
    }
    proof {
        assert(id_views(out@) =~= id_views(items@));
    }
    out
}

/// Copy an optional identifier.
pub fn copy_opt_id<T: StableId>(o: &Option<T>) -> (r: Option<T>)
    ensures
        opt_id_view(r) == opt_id_view(*o),
{
    match o {
        Some(x) => Some(x.copy_id()),
        None => None,
    }
}

/// The position of the first identifier that repeats an earlier one.
pub fn find_repeat<T: StableId>(items: &[T]) -> (r: Option<usize>)
    ensures
        r matches Some(j) ==> first_repeat(id_views(items@)) == Some(j as int),
        r is None ==> first_repeat(id_views(items@)) is None,
{
    let ghost v = id_views(items@);
    let mut j: usize = 0;
    while j < items.len()
        invariant
            v == id_views(items@),
            j <= items@.len(),
            first_repeat(v.take(j as int)) is None,
        decreases items@.len() - j,
    {
        let mut i: usize = 0;
        while i < j
            invariant
                v == id_views(items@),
                j < items@.len(),
                first_repeat(v.take(j as int)) is None,
                i <= j,
                forall|k: int| 0 <= k < i ==> v[k] != v[j as int],
            decreases j - i,
        {
            if items[i].same_id(&items[j]) {
                proof {
                    let t = v.take(j + 1);
                    assert(t.drop_last() =~= v.take(j as int));
                    assert(t[i as int] == t[j as int]);
                    assert(repeats_earlier(t, j as int));
                    assert(first_repeat(t.drop_last()) is None);
                    assert(first_repeat(t) == Some(j as int));
                    assert(v.take(items@.len() as int) =~= v);
                    lemma_first_repeat_extends(v, j + 1, j as int);
                }
                return Some(j);
            }
            i = i + 1;
        }
        proof {
            let t = v.take(j + 1);
            assert(t.drop_last() =~= v.take(j as int));
            assert(!repeats_earlier(t, j as int)) by {
                if repeats_earlier(t, j as int) {
                    let k = choose|k: int| 0 <= k < j && #[trigger] t[k] == t[j as int];
                    assert(v[k] == v[j as int]);
                }
            }
        }
        j = j + 1;
    }
    proof {
        assert(v.take(items@.len() as int) =~= v);
    }
    None
}

/// The first repeat of a prefix is the first repeat of the whole.
proof fn lemma_first_repeat_extends<A>(s: Seq<A>, k: int, j: int)
    requires
        0 <= k <= s.len(),
        first_repeat(s.take(k)) == Some(j),
    ensures
        first_repeat(s) == Some(j),
    decreases s.len() - k,
{
    if k < s.len() {
        assert(s.take(k + 1).drop_last() =~= s.take(k));
        lemma_first_repeat_extends(s, k + 1, j);
    } else {
        assert(s.take(k) =~= s);
    }
}

} // verus!
