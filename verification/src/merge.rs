//! The merge of sorted sources: of the rows that the sources hold in front,
//! the least one is taken, and of equal ones that of the earliest source.

use vstd::prelude::*;

verus! {

/// Whether `lt` is the relation that the comparator decides: whatever the
/// comparator answers to a pair is what `lt` says of it.
pub open spec fn decides<T, F: Fn(&T, &T) -> bool>(less_than: F, lt: spec_fn(T, T) -> bool)
    -> bool {
    forall|a: T, b: T, r: bool| #[trigger] call_ensures(less_than, (&a, &b), r) ==> r == lt(a, b)
}

/// Whether `less_than` can be called on every pair.
pub open spec fn is_comparator<T, F: Fn(&T, &T) -> bool>(less_than: F) -> bool {
    forall|a: T, b: T| #[trigger] call_requires(less_than, (&a, &b))
}

/// Whether `lt` is a strict weak ordering: no two values precede each other,
/// and a value that precedes another precedes every third value or is
/// preceded by it.
pub open spec fn is_strict_weak_order<T>(lt: spec_fn(T, T) -> bool) -> bool {
    &&& forall|a: T, b: T| #[trigger] lt(a, b) ==> !lt(b, a)
    &&& forall|a: T, b: T, c: T| #![trigger lt(a, b), lt(b, c)] lt(a, c) ==> lt(a, b) || lt(b, c)
}

/// Whether no value of `s` precedes one that stands before it.
pub open spec fn is_sorted<T>(s: Seq<T>, lt: spec_fn(T, T) -> bool) -> bool {
    forall|i: int, j: int| 0 <= i < j < s.len() ==> !lt(#[trigger] s[j], #[trigger] s[i])
}

/// The cursor chosen among the first `n`: they are gone through in order,
/// and a later one replaces the choice only where its row precedes the
/// chosen row. Exhausted cursors are passed over.
pub open spec fn select_among<T>(heads: Seq<Option<T>>, lt: spec_fn(T, T) -> bool, n: int)
    -> Option<int>
    decreases n,
{
    if n <= 0 {
        None
    } else {
        let best = select_among(heads, lt, n - 1);
        match heads[n - 1] {
            None => best,
            Some(candidate) => match best {
                None => Some(n - 1),
                Some(b) => if lt(candidate, heads[b].unwrap()) {
                    Some(n - 1)
                } else {
                    best
                },
            },
        }
    }
}

/// The cursor whose row is emitted next; none where all are exhausted.
pub open spec fn select<T>(heads: Seq<Option<T>>, lt: spec_fn(T, T) -> bool) -> Option<int> {
    select_among(heads, lt, heads.len() as int)
}

/// The first row of each source, where it has one.
pub open spec fn heads_of<T>(sources: Seq<Seq<T>>) -> Seq<Option<T>> {
    Seq::new(
        sources.len(),
        |i: int|
            if sources[i].len() > 0 {
                Some(sources[i][0])
            } else {
                None
            },
    )
}

/// The number of rows in all sources together.
pub open spec fn total_len<T>(sources: Seq<Seq<T>>) -> nat
    decreases sources.len(),
{
    if sources.len() == 0 {
        0
    } else {
        total_len(sources.drop_last()) + sources.last().len()
    }
}

/// The sources after the first row of source `i` was taken.
pub open spec fn advance<T>(sources: Seq<Seq<T>>, i: int) -> Seq<Seq<T>> {
    sources.update(i, sources[i].drop_first())
}

/// The merge of the sources: the row of the selected cursor, then the merge
/// of what is left, until every source is exhausted.
pub open spec fn merged<T>(sources: Seq<Seq<T>>, lt: spec_fn(T, T) -> bool) -> Seq<T>
    decreases total_len(sources),
{
    match select(heads_of(sources), lt) {
        None => Seq::empty(),
        Some(i) => if 0 <= i < sources.len() && sources[i].len() > 0 {
            proof {
                lemma_advance_shrinks(sources, i);
            }
            seq![sources[i][0]] + merged(advance(sources, i), lt)
        } else {
            Seq::empty()
        },
    }
}

/// Taking a row from a source leaves one row less in all.
pub proof fn lemma_advance_shrinks<T>(sources: Seq<Seq<T>>, i: int)
    requires
        0 <= i < sources.len(),
        sources[i].len() > 0,
    ensures
        total_len(advance(sources, i)) + 1 == total_len(sources),
    decreases sources.len(),
{
    let after = advance(sources, i);
    if i == sources.len() - 1 {
        assert(after.drop_last() =~= sources.drop_last());
    } else {
        lemma_advance_shrinks(sources.drop_last(), i);
        assert(after.drop_last() =~= advance(sources.drop_last(), i));
    }
}

/// A cursor is selected exactly where one is not exhausted, and the one
/// selected is not exhausted.
pub proof fn lemma_select_among_live<T>(heads: Seq<Option<T>>, lt: spec_fn(T, T) -> bool, n: int)
    requires
        0 <= n <= heads.len(),
    ensures
        match select_among(heads, lt, n) {
            Some(i) => 0 <= i < n && heads[i] is Some,
            None => forall|j: int| 0 <= j < n ==> (#[trigger] heads[j]) is None,
        },
    decreases n,
{
    if n > 0 {
        lemma_select_among_live(heads, lt, n - 1);
    }
}

/// Under a strict weak ordering the selected cursor holds a least row, and
/// it is the first cursor that does: no row in front precedes its row, and
/// its row precedes the row of every cursor before it.
pub proof fn lemma_select_among_first_least<T>(
    heads: Seq<Option<T>>,
    lt: spec_fn(T, T) -> bool,
    n: int,
)
    requires
        is_strict_weak_order(lt),
        0 <= n <= heads.len(),
    ensures
        select_among(heads, lt, n) matches Some(i) ==> {
            &&& 0 <= i < n
            &&& heads[i] is Some
            &&& forall|j: int|
                0 <= j < n && (#[trigger] heads[j]) is Some ==> !lt(
                    heads[j].unwrap(),
                    heads[i].unwrap(),
                )
            &&& forall|j: int|
                0 <= j < i && (#[trigger] heads[j]) is Some ==> lt(
                    heads[i].unwrap(),
                    heads[j].unwrap(),
                )
        },
    decreases n,
{
    if n > 0 {
        lemma_select_among_first_least(heads, lt, n - 1);
        lemma_select_among_live(heads, lt, n - 1);
        let best = select_among(heads, lt, n - 1);
        if heads[n - 1] is Some && best is Some {
            let c = heads[n - 1].unwrap();
            let b = best.unwrap();
            let hb = heads[b].unwrap();
            if lt(c, hb) {
                assert forall|j: int| 0 <= j < n && (#[trigger] heads[j]) is Some implies !lt(
                    heads[j].unwrap(),
                    c,
                ) && (j < n - 1 ==> lt(c, heads[j].unwrap())) by {
                    let hj = heads[j].unwrap();
                    if j < n - 1 {
                        assert(!lt(hj, hb));
                        assert(lt(c, hj) || lt(hj, hb));
                    }
                }
            }
        }
    }
}

/// The merge holds every row of every source, and nothing else: it is as
/// long as the sources together.
pub proof fn lemma_merged_len<T>(sources: Seq<Seq<T>>, lt: spec_fn(T, T) -> bool)
    ensures
        merged(sources, lt).len() == total_len(sources),
    decreases total_len(sources),
{
    let heads = heads_of(sources);
    lemma_select_among_live(heads, lt, heads.len() as int);
    match select(heads, lt) {
        None => {
            lemma_total_len_of_exhausted(sources);
        },
        Some(i) => {
            lemma_advance_shrinks(sources, i);
            lemma_merged_len(advance(sources, i), lt);
        },
    }
}

proof fn lemma_total_len_of_exhausted<T>(sources: Seq<Seq<T>>)
    requires
        forall|j: int| 0 <= j < sources.len() ==> (#[trigger] heads_of(sources)[j]) is None,
    ensures
        total_len(sources) == 0,
    decreases sources.len(),
{
    if sources.len() > 0 {
        let shorter = sources.drop_last();
        assert forall|j: int| 0 <= j < shorter.len() implies (#[trigger] heads_of(shorter)[j])
            is None by {
            assert(heads_of(sources)[j] is None);
        }
        lemma_total_len_of_exhausted(shorter);
        assert(heads_of(sources)[sources.len() - 1] is None);
    }
}

/// What holds of every row of every source holds of every row of the merge.
pub proof fn lemma_merged_rows_come_from_sources<T>(
    sources: Seq<Seq<T>>,
    lt: spec_fn(T, T) -> bool,
    p: spec_fn(T) -> bool,
)
    requires
        forall|i: int, k: int|
            0 <= i < sources.len() && 0 <= k < sources[i].len() ==> p(#[trigger] sources[i][k]),
    ensures
        forall|k: int| 0 <= k < merged(sources, lt).len() ==> p(#[trigger] merged(sources, lt)[k]),
    decreases total_len(sources),
{
    let heads = heads_of(sources);
    lemma_select_among_live(heads, lt, heads.len() as int);
    match select(heads, lt) {
        None => {},
        Some(i) => {
            let rest = advance(sources, i);
            lemma_advance_shrinks(sources, i);
            assert forall|j: int, k: int| 0 <= j < rest.len() && 0 <= k < rest[j].len() implies p(
                #[trigger] rest[j][k],
            ) by {
                if j == i {
                    assert(rest[j][k] == sources[i][k + 1]);
                } else {
                    assert(rest[j][k] == sources[j][k]);
                }
            }
            lemma_merged_rows_come_from_sources(rest, lt, p);
            let tail = merged(rest, lt);
            let all = merged(sources, lt);
            assert(all == seq![sources[i][0]] + tail);
            assert forall|k: int| 0 <= k < all.len() implies p(#[trigger] all[k]) by {
                if k == 0 {
                    assert(p(sources[i][0]));
                } else {
                    assert(all[k] == tail[k - 1]);
                }
            }
        },
    }
}

/// The merge of sources that are each sorted under a strict weak ordering
/// is sorted under it.
pub proof fn lemma_merged_is_sorted<T>(sources: Seq<Seq<T>>, lt: spec_fn(T, T) -> bool)
    requires
        is_strict_weak_order(lt),
        forall|i: int| 0 <= i < sources.len() ==> is_sorted(#[trigger] sources[i], lt),
    ensures
        is_sorted(merged(sources, lt), lt),
    decreases total_len(sources),
{
    let heads = heads_of(sources);
    lemma_select_among_first_least(heads, lt, heads.len() as int);
    lemma_select_among_live(heads, lt, heads.len() as int);
    match select(heads, lt) {
        None => {},
        Some(i) => {
            let least = sources[i][0];
            let rest = advance(sources, i);
            lemma_advance_shrinks(sources, i);
            assert forall|j: int| 0 <= j < rest.len() implies is_sorted(#[trigger] rest[j], lt) by {
                assert(is_sorted(sources[j], lt));
                if j == i {
                    assert forall|a: int, b: int| 0 <= a < b < rest[j].len() implies !lt(
                        #[trigger] rest[j][b],
                        #[trigger] rest[j][a],
                    ) by {
                        assert(rest[j][b] == sources[i][b + 1]);
                        assert(rest[j][a] == sources[i][a + 1]);
                    }
                }
            }
            lemma_merged_is_sorted(rest, lt);
            let not_before = |x: T| !lt(x, least);
            assert forall|j: int, k: int| 0 <= j < rest.len() && 0 <= k < rest[j].len() implies
                not_before(#[trigger] rest[j][k]) by {
                let x = rest[j][k];
                assert(is_sorted(sources[j], lt));
                if j == i {
                    assert(x == sources[i][k + 1]);
                    assert(!lt(sources[i][k + 1], sources[i][0]));
                } else {
                    assert(x == sources[j][k]);
                    let front = sources[j][0];
                    assert(heads[j] == Some(front));
                    assert(!lt(front, least));
                    if k > 0 {
                        assert(!lt(sources[j][k], sources[j][0]));
                        assert(lt(x, least) ==> lt(x, front) || lt(front, least));
                    }
                }
            }
            lemma_merged_rows_come_from_sources(rest, lt, not_before);
            let tail = merged(rest, lt);
            let all = merged(sources, lt);
            assert(all == seq![least] + tail);
            assert forall|a: int, b: int| 0 <= a < b < all.len() implies !lt(
                #[trigger] all[b],
                #[trigger] all[a],
            ) by {
                assert(all[b] == tail[b - 1]);
                if a == 0 {
                    assert(not_before(tail[b - 1]));
                } else {
                    assert(all[a] == tail[a - 1]);
                }
            }
        },
    }
}

/// Merging a source with an empty one, on either side, gives the rows of
/// the source, unchanged and in their order, whatever the comparator.
pub proof fn lemma_merge_with_empty<T>(source: Seq<T>, lt: spec_fn(T, T) -> bool)
    ensures
        merged(seq![source, Seq::<T>::empty()], lt) == source,
        merged(seq![Seq::<T>::empty(), source], lt) == source,
    decreases source.len(),
{
    let left = seq![source, Seq::<T>::empty()];
    let right = seq![Seq::<T>::empty(), source];
    reveal_with_fuel(select_among, 3);
    if source.len() == 0 {
        assert(select(heads_of(left), lt) is None);
        assert(select(heads_of(right), lt) is None);
        assert(merged(left, lt) =~= source);
        assert(merged(right, lt) =~= source);
    } else {
        let rest = source.drop_first();
        lemma_merge_with_empty(rest, lt);
        assert(heads_of(left)[0] == Some(source[0]));
        assert(heads_of(left)[1] is None);
        assert(select(heads_of(left), lt) == Some(0int));
        assert(advance(left, 0) =~= seq![rest, Seq::<T>::empty()]);
        assert(merged(left, lt) == seq![source[0]] + merged(advance(left, 0), lt));
        assert(heads_of(right)[0] is None);
        assert(heads_of(right)[1] == Some(source[0]));
        assert(select(heads_of(right), lt) == Some(1int));
        assert(advance(right, 1) =~= seq![Seq::<T>::empty(), rest]);
        assert(merged(right, lt) == seq![source[0]] + merged(advance(right, 1), lt));
        assert(seq![source[0]] + rest =~= source);
    }
}

/// The merge of two sources holds the rows of both, each as often as the
/// two hold it together.
pub proof fn lemma_merge_two_is_permutation<T>(a: Seq<T>, b: Seq<T>, lt: spec_fn(T, T) -> bool)
    ensures
        merged(seq![a, b], lt).to_multiset() == a.to_multiset().add(b.to_multiset()),
    decreases a.len() + b.len(),
{
    broadcast use vstd::seq_lib::group_to_multiset_ensures;

    let sources = seq![a, b];
    let heads = heads_of(sources);
    lemma_select_among_live(heads, lt, 2);
    match select(heads, lt) {
        None => {
            assert(heads[0] is None);
            assert(heads[1] is None);
            assert(a =~= Seq::<T>::empty());
            assert(b =~= Seq::<T>::empty());
            assert(merged(sources, lt).to_multiset() =~= a.to_multiset().add(b.to_multiset()));
        },
        Some(i) => {
            let rest = advance(sources, i);
            let taken = sources[i][0];
            let tail = merged(rest, lt);
            assert(merged(sources, lt) == seq![taken] + tail);
            if i == 0 {
                assert(rest =~= seq![a.drop_first(), b]);
                lemma_merge_two_is_permutation(a.drop_first(), b, lt);
                assert(a =~= seq![taken] + a.drop_first());
                vstd::seq_lib::lemma_multiset_commutative(seq![taken], a.drop_first());
            } else {
                assert(rest =~= seq![a, b.drop_first()]);
                lemma_merge_two_is_permutation(a, b.drop_first(), lt);
                assert(b =~= seq![taken] + b.drop_first());
                vstd::seq_lib::lemma_multiset_commutative(seq![taken], b.drop_first());
            }
            vstd::seq_lib::lemma_multiset_commutative(seq![taken], tail);
            assert(merged(sources, lt).to_multiset() =~= a.to_multiset().add(b.to_multiset()));
        },
    }
}

/// The merge law for two sources: where both are sorted under a strict weak
/// ordering, their merge is their sorted interleaving. It is sorted under the
/// ordering, takes the rows of each source in their order, and holds the
/// rows of both, as many as the two together.
pub proof fn lemma_merge_two_sorted<T>(a: Seq<T>, b: Seq<T>, lt: spec_fn(T, T) -> bool)
    requires
        is_strict_weak_order(lt),
        is_sorted(a, lt),
        is_sorted(b, lt),
    ensures
        is_sorted(merged(seq![a, b], lt), lt),
        is_interleaving(merged(seq![a, b], lt), seq![a, b]),
        merged(seq![a, b], lt).to_multiset() == a.to_multiset().add(b.to_multiset()),
        merged(seq![a, b], lt).len() == a.len() + b.len(),
{
    let sources = seq![a, b];
    lemma_merged_is_sorted(sources, lt);
    lemma_merged_is_interleaving(sources, lt);
    lemma_merge_two_is_permutation(a, b, lt);
    lemma_merged_len(sources, lt);
    reveal_with_fuel(total_len, 3);
    assert(sources.drop_last() =~= seq![a]);
    assert(seq![a].drop_last() =~= Seq::<Seq<T>>::empty());
}

/// Whether `out` is an interleaving of the sources: it takes every row of
/// every source once, and the rows of each source in their order.
pub open spec fn is_interleaving<T>(out: Seq<T>, sources: Seq<Seq<T>>) -> bool
    decreases out.len(),
{
    if out.len() == 0 {
        forall|i: int| 0 <= i < sources.len() ==> (#[trigger] sources[i]).len() == 0
    } else {
        exists|i: int|
            #![trigger advance(sources, i)]
            0 <= i < sources.len() && sources[i].len() > 0 && sources[i][0] == out[0]
                && is_interleaving(out.drop_first(), advance(sources, i))
    }
}

/// The merge is an interleaving of its sources, whatever the comparator.
pub proof fn lemma_merged_is_interleaving<T>(sources: Seq<Seq<T>>, lt: spec_fn(T, T) -> bool)
    ensures
        is_interleaving(merged(sources, lt), sources),
    decreases total_len(sources),
{
    let heads = heads_of(sources);
    let out = merged(sources, lt);
    lemma_select_among_live(heads, lt, heads.len() as int);
    match select(heads, lt) {
        None => {
            assert forall|i: int| 0 <= i < sources.len() implies (#[trigger] sources[i]).len()
                == 0 by {
                assert(heads[i] is None);
            }
        },
        Some(i) => {
            lemma_advance_shrinks(sources, i);
            lemma_merged_is_interleaving(advance(sources, i), lt);
            assert(out.drop_first() =~= merged(advance(sources, i), lt));
            assert(is_interleaving(out.drop_first(), advance(sources, i)));
        },
    }
}

/// What holds of every row of an interleaving holds of every row of every
/// source.
pub proof fn lemma_interleaving_holds_source_rows<T>(
    out: Seq<T>,
    sources: Seq<Seq<T>>,
    p: spec_fn(T) -> bool,
)
    requires
        is_interleaving(out, sources),
        forall|m: int| 0 <= m < out.len() ==> p(#[trigger] out[m]),
    ensures
        forall|j: int, k: int|
            0 <= j < sources.len() && 0 <= k < sources[j].len() ==> p(#[trigger] sources[j][k]),
    decreases out.len(),
{
    if out.len() > 0 {
        let i = choose|i: int|
            #![trigger advance(sources, i)]
            0 <= i < sources.len() && sources[i].len() > 0 && sources[i][0] == out[0]
                && is_interleaving(out.drop_first(), advance(sources, i));
        let rest = advance(sources, i);
        let tail = out.drop_first();
        assert forall|m: int| 0 <= m < tail.len() implies p(#[trigger] tail[m]) by {
            assert(tail[m] == out[m + 1]);
        }
        lemma_interleaving_holds_source_rows(tail, rest, p);
        assert forall|j: int, k: int|
            0 <= j < sources.len() && 0 <= k < sources[j].len() implies p(
            #[trigger] sources[j][k],
        ) by {
            if j == i {
                if k == 0 {
                    assert(p(out[0]));
                } else {
                    assert(sources[j][k] == rest[j][k - 1]);
                }
            } else {
                assert(sources[j][k] == rest[j][k]);
            }
        }
    }
}

/// Every source of a sorted interleaving is sorted.
pub proof fn lemma_sources_of_sorted_interleaving_are_sorted<T>(
    out: Seq<T>,
    sources: Seq<Seq<T>>,
    lt: spec_fn(T, T) -> bool,
)
    requires
        is_interleaving(out, sources),
        is_sorted(out, lt),
    ensures
        forall|i: int| 0 <= i < sources.len() ==> is_sorted(#[trigger] sources[i], lt),
    decreases out.len(),
{
    if out.len() > 0 {
        let i = choose|i: int|
            #![trigger advance(sources, i)]
            0 <= i < sources.len() && sources[i].len() > 0 && sources[i][0] == out[0]
                && is_interleaving(out.drop_first(), advance(sources, i));
        let rest = advance(sources, i);
        let tail = out.drop_first();
        let first = out[0];
        assert forall|a: int, b: int| 0 <= a < b < tail.len() implies !lt(
            #[trigger] tail[b],
            #[trigger] tail[a],
        ) by {
            assert(tail[b] == out[b + 1]);
            assert(tail[a] == out[a + 1]);
        }
        lemma_sources_of_sorted_interleaving_are_sorted(tail, rest, lt);
        let not_before = |x: T| !lt(x, first);
        assert forall|m: int| 0 <= m < tail.len() implies not_before(#[trigger] tail[m]) by {
            assert(tail[m] == out[m + 1]);
        }
        lemma_interleaving_holds_source_rows(tail, rest, not_before);
        assert forall|j: int| 0 <= j < sources.len() implies is_sorted(#[trigger] sources[j], lt) by {
            assert(is_sorted(rest[j], lt));
            if j == i {
                assert forall|a: int, b: int| 0 <= a < b < sources[j].len() implies !lt(
                    #[trigger] sources[j][b],
                    #[trigger] sources[j][a],
                ) by {
                    assert(sources[j][b] == rest[j][b - 1]);
                    if a == 0 {
                        assert(not_before(rest[j][b - 1]));
                    } else {
                        assert(sources[j][a] == rest[j][a - 1]);
                    }
                }
            }
        }
    }
}

/// Under a strict weak ordering the merge is sorted exactly where every
/// source is.
pub proof fn lemma_merged_is_sorted_iff_sources_are<T>(
    sources: Seq<Seq<T>>,
    lt: spec_fn(T, T) -> bool,
)
    requires
        is_strict_weak_order(lt),
    ensures
        is_sorted(merged(sources, lt), lt) <==> forall|i: int|
            0 <= i < sources.len() ==> is_sorted(#[trigger] sources[i], lt),
{
    if forall|i: int| 0 <= i < sources.len() ==> is_sorted(#[trigger] sources[i], lt) {
        lemma_merged_is_sorted(sources, lt);
    }
    if is_sorted(merged(sources, lt), lt) {
        lemma_merged_is_interleaving(sources, lt);
        lemma_sources_of_sorted_interleaving_are_sorted(merged(sources, lt), sources, lt);
    }
}

/// A selected cursor as a position among the cursors.
pub open spec fn index_of(r: Option<usize>) -> Option<int> {
    match r {
        Some(i) => Some(i as int),
        None => None,
    }
}

/// The cursors of a merge, one for each source in the order of the sources.
/// A cursor holds the row of its source that was read and not yet emitted,
/// or nothing once its source is exhausted.
pub struct MergeCursors<T> {
    heads: Vec<Option<T>>,
}

impl<T> View for MergeCursors<T> {
    type V = Seq<Option<T>>;

    closed spec fn view(&self) -> Seq<Option<T>> {
        self.heads@
    }
}

impl<T> MergeCursors<T> {
    /// The cursors over the first row of each source, `None` for a source
    /// that is empty.
    pub fn new(heads: Vec<Option<T>>) -> (cursors: MergeCursors<T>)
        ensures
            cursors@ == heads@,
    {
        MergeCursors { heads }
    }

    /// The number of sources.
    pub fn len(&self) -> (n: usize)
        ensures
            n == self@.len(),
    {
        self.heads.len()
    }

    /// The source whose row is to be emitted next, for every relation that
    /// the comparator decides: none when all sources are exhausted, and never
    /// an exhausted one.
    pub fn select<F: Fn(&T, &T) -> bool>(&self, less_than: &F) -> (r: Option<usize>)
        requires
            is_comparator::<T, F>(*less_than),
        ensures
            forall|lt: spec_fn(T, T) -> bool| #[trigger]
                decides::<T, F>(*less_than, lt) ==> index_of(r) == select(self@, lt),
            r matches Some(i) ==> i < self@.len() && self@[i as int] is Some,
            r is None ==> forall|j: int| 0 <= j < self@.len() ==> (#[trigger] self@[j]) is None,
    {
        let mut rows: Vec<Option<&T>> = Vec::new();
        let mut i: usize = 0;
        while i < self.heads.len()
            invariant
                i <= self.heads@.len(),
                rows@.len() == i,
                forall|j: int| 0 <= j < i ==> (#[trigger] rows_at(rows@)[j]) == self.heads@[j],
            decreases self.heads@.len() - i,
        {
            let row = match &self.heads[i] {
                Some(row) => Some(row),
                None => None,
            };
            let ghost before = rows@;
            rows.push(row);
            assert forall|j: int| 0 <= j < i + 1 implies (#[trigger] rows_at(rows@)[j])
                == self.heads@[j] by {
                if j < i {
                    assert(rows@[j] == before[j]);
                    assert(rows_at(before)[j] == self.heads@[j]);
                }
            }
            i += 1;
        }
        assert(rows_at(rows@) =~= self.heads@);
        let r = select_among_rows(&rows, less_than);
        proof {
            if r is Some {
                assert(rows_at(rows@)[r.unwrap() as int] is Some);
            } else {
                assert forall|j: int| 0 <= j < self.heads@.len() implies (#[trigger] self.heads@[j])
                    is None by {
                    assert(rows@[j] is None);
                    assert(rows_at(rows@)[j] is None);
                }
            }
        }
        r
    }

    /// Takes the row of cursor `i` and puts in its place the next row of that
    /// source, or nothing where the source is exhausted. With no cursor `i`
    /// nothing is taken and nothing changes.
    pub fn advance(&mut self, i: usize, next: Option<T>) -> (row: Option<T>)
        ensures
            i < old(self)@.len() ==> row == old(self)@[i as int] && final(self)@ == old(self)@.update(
                i as int,
                next,
            ),
            i >= old(self)@.len() ==> row is None && final(self)@ == old(self)@,
    {
        if i < self.heads.len() {
            self.heads.push(next);
            let row = self.heads.swap_remove(i);
            assert(self.heads@ =~= old(self).heads@.update(i as int, next));
            row
        } else {
            None
        }
    }
}

/// The rows of the sources as sequences.
pub open spec fn views_of<T>(sources: Seq<Vec<T>>) -> Seq<Seq<T>> {
    Seq::new(sources.len(), |i: int| sources[i]@)
}

/// What is left of each source from its position on.
pub open spec fn remaining<T>(sources: Seq<Vec<T>>, positions: Seq<usize>) -> Seq<Seq<T>> {
    Seq::new(sources.len(), |i: int| sources[i]@.skip(positions[i] as int))
}

/// The rows that a sequence of references points to.
pub open spec fn rows_of<T>(out: Seq<&T>) -> Seq<T> {
    Seq::new(out.len(), |k: int| *out[k])
}

/// The rows that cursors by reference point to.
pub open spec fn rows_at<T>(heads: Seq<Option<&T>>) -> Seq<Option<T>> {
    Seq::new(
        heads.len(),
        |i: int|
            match heads[i] {
                Some(row) => Some(*row),
                None => None,
            },
    )
}

/// The cursor whose row is emitted next, for cursors that hold their rows
/// by reference: they are gone through in order, and a later one replaces
/// the choice only where its row precedes the chosen row.
fn select_among_rows<T, F: Fn(&T, &T) -> bool>(heads: &Vec<Option<&T>>, less_than: &F) -> (r:
    Option<usize>)
    requires
        is_comparator::<T, F>(*less_than),
    ensures
        forall|lt: spec_fn(T, T) -> bool| #[trigger]
            decides::<T, F>(*less_than, lt) ==> index_of(r) == select(rows_at(heads@), lt),
        r matches Some(i) ==> i < heads@.len() && heads@[i as int] is Some,
        r is None ==> forall|j: int| 0 <= j < heads@.len() ==> (#[trigger] heads@[j]) is None,
{
    let ghost rows = rows_at(heads@);
    let mut best: Option<usize> = None;
    let mut i: usize = 0;
    while i < heads.len()
        invariant
            i <= heads@.len(),
            rows == rows_at(heads@),
            is_comparator::<T, F>(*less_than),
            forall|lt: spec_fn(T, T) -> bool| #[trigger]
                decides::<T, F>(*less_than, lt) ==> index_of(best) == select_among(
                    rows,
                    lt,
                    i as int,
                ),
            best matches Some(b) ==> b < i && heads@[b as int] is Some,
            best is None ==> forall|j: int| 0 <= j < i ==> (#[trigger] heads@[j]) is None,
        decreases heads@.len() - i,
    {
        let ghost chosen = best;
        let mut next = best;
        let ghost mut answer: Option<bool> = None;
        match heads[i] {
            None => {
                assert(rows[i as int] is None);
            },
            Some(candidate) => {
                assert(rows[i as int] == Some(*candidate));
                match best {
                    None => {
                        next = Some(i);
                    },
                    Some(b) => {
                        match heads[b] {
                            Some(current) => {
                                assert(rows[b as int] == Some(*current));
                                let precedes = less_than(candidate, current);
                                proof {
                                    answer = Some(precedes);
                                }
                                if precedes {
                                    next = Some(i);
                                }
                            },
                            None => {},
                        }
                    },
                }
            },
        }
        assert forall|lt: spec_fn(T, T) -> bool| #[trigger]
            decides::<T, F>(*less_than, lt) implies index_of(next) == select_among(
            rows,
            lt,
            i + 1,
        ) by {
            assert(index_of(chosen) == select_among(rows, lt, i as int));
            if answer is Some {
                let b = chosen.unwrap() as int;
                let candidate = rows[i as int].unwrap();
                let current = rows[b].unwrap();
                assert(call_ensures(*less_than, (&candidate, &current), answer.unwrap()));
                assert(answer.unwrap() == lt(candidate, current));
            }
        }
        best = next;
        i += 1;
    }
    best
}

/// Merges sources that are held in memory: the result points to the rows of
/// the sources in the order of their merge under every relation that the
/// comparator decides. Where every source is sorted under a comparator that
/// is a strict weak ordering, so is the result; with any other comparator or
/// source the result is still the one that the selection rule gives.
pub fn merge<'a, T, F: Fn(&T, &T) -> bool>(sources: &'a Vec<Vec<T>>, less_than: F) -> (out: Vec<
    &'a T,
>)
    requires
        is_comparator::<T, F>(less_than),
    ensures
        forall|lt: spec_fn(T, T) -> bool| #[trigger]
            decides::<T, F>(less_than, lt) ==> rows_of(out@) == merged(views_of(sources@), lt),
{
    let mut positions: Vec<usize> = Vec::new();
    let mut heads: Vec<Option<&'a T>> = Vec::new();
    let mut i: usize = 0;
    while i < sources.len()
        invariant
            i <= sources@.len(),
            positions@.len() == i,
            heads@.len() == i,
            forall|j: int| 0 <= j < i ==> (#[trigger] positions@[j]) == 0,
            forall|j: int|
                0 <= j < i ==> (#[trigger] rows_at(heads@)[j]) == heads_of(views_of(sources@))[j],
        decreases sources@.len() - i,
    {
        let source = &sources[i];
        let head = if source.len() > 0 {
            Some(&source[0])
        } else {
            None
        };
        let ghost before = heads@;
        positions.push(0);
        heads.push(head);
        assert forall|j: int| 0 <= j < i + 1 implies (#[trigger] rows_at(heads@)[j]) == heads_of(
            views_of(sources@),
        )[j] by {
            if j < i {
                assert(heads@[j] == before[j]);
                assert(rows_at(before)[j] == heads_of(views_of(sources@))[j]);
            }
        }
        i += 1;
    }
    assert(remaining(sources@, positions@) =~= views_of(sources@)) by {
        assert forall|j: int| 0 <= j < sources@.len() implies (#[trigger] remaining(
            sources@,
            positions@,
        )[j]) == views_of(sources@)[j] by {
            assert(positions@[j] == 0);
            assert(sources@[j]@.skip(0) =~= sources@[j]@);
        }
    }
    assert(rows_at(heads@) =~= heads_of(remaining(sources@, positions@)));
    let mut out: Vec<&'a T> = Vec::new();
    assert forall|lt: spec_fn(T, T) -> bool| #[trigger]
        decides::<T, F>(less_than, lt) implies rows_of(out@) + merged(
        remaining(sources@, positions@),
        lt,
    ) == merged(views_of(sources@), lt) by {
        assert(rows_of(out@) + merged(remaining(sources@, positions@), lt) =~= merged(
            views_of(sources@),
            lt,
        ));
    }
    let mut pick = select_among_rows(&heads, &less_than);
    while pick.is_some()
        invariant
            is_comparator::<T, F>(less_than),
            positions@.len() == sources@.len(),
            heads@.len() == sources@.len(),
            forall|j: int|
                0 <= j < sources@.len() ==> (#[trigger] positions@[j]) <= sources@[j]@.len(),
            rows_at(heads@) == heads_of(remaining(sources@, positions@)),
            pick matches Some(i) ==> i < heads@.len() && heads@[i as int] is Some,
            pick is None ==> forall|j: int| 0 <= j < heads@.len() ==> (#[trigger] heads@[j]) is None,
            forall|lt: spec_fn(T, T) -> bool| #[trigger]
                decides::<T, F>(less_than, lt) ==> index_of(pick) == select(
                    heads_of(remaining(sources@, positions@)),
                    lt,
                ),
            forall|lt: spec_fn(T, T) -> bool| #[trigger]
                decides::<T, F>(less_than, lt) ==> rows_of(out@) + merged(
                    remaining(sources@, positions@),
                    lt,
                ) == merged(views_of(sources@), lt),
        decreases total_len(remaining(sources@, positions@)),
    {
        let i: usize = pick.unwrap();
        let ghost left = remaining(sources@, positions@);
        let ghost before = rows_of(out@);
        let ghost heads_before = heads@;
        proof {
            assert(rows_at(heads@)[i as int] is Some);
            assert(heads_of(left)[i as int] is Some);
            assert(left[i as int].len() > 0);
            lemma_advance_shrinks(left, i as int);
        }
        let p: usize = positions[i];
        assert(p < sources@[i as int]@.len()) by {
            assert(left[i as int] == sources@[i as int]@.skip(p as int));
        }
        let source = &sources[i];
        assert(p < source.len());
        let row = &source[p];
        out.push(row);
        let next = if p + 1 < source.len() {
            Some(&source[p + 1])
        } else {
            None
        };
        positions.set(i, p + 1);
        heads.set(i, next);
        let ghost rest = remaining(sources@, positions@);
        proof {
            assert(left[i as int][0] == *row);
            assert(rest =~= advance(left, i as int)) by {
                assert forall|j: int| 0 <= j < rest.len() implies (#[trigger] rest[j]) == advance(
                    left,
                    i as int,
                )[j] by {
                    if j == i {
                        assert(sources@[j]@.skip(p + 1) =~= sources@[j]@.skip(p as int).drop_first());
                    }
                }
            }
            assert(rows_at(heads@) =~= heads_of(rest)) by {
                assert forall|j: int| 0 <= j < rest.len() implies (#[trigger] rows_at(heads@)[j])
                    == heads_of(rest)[j] by {
                    if j == i {
                        assert(rest[j] == sources@[j]@.skip(p + 1));
                    } else {
                        assert(heads@[j] == heads_before[j]);
                        assert(rows_at(heads_before)[j] == heads_of(left)[j]);
                        assert(rest[j] == left[j]);
                    }
                }
            }
            assert(rows_of(out@) =~= before.push(*row));
            assert forall|lt: spec_fn(T, T) -> bool| #[trigger]
                decides::<T, F>(less_than, lt) implies rows_of(out@) + merged(rest, lt) == merged(
                views_of(sources@),
                lt,
            ) by {
                assert(select(heads_of(left), lt) == Some(i as int));
                assert(merged(left, lt) == seq![*row] + merged(rest, lt));
                assert(rows_of(out@) + merged(rest, lt) =~= before + merged(left, lt));
            }
        }
        pick = select_among_rows(&heads, &less_than);
    }
    proof {
        assert forall|lt: spec_fn(T, T) -> bool| #[trigger]
            decides::<T, F>(less_than, lt) implies rows_of(out@) == merged(
            views_of(sources@),
            lt,
        ) by {
            assert(merged(remaining(sources@, positions@), lt) =~= Seq::<T>::empty());
            assert(rows_of(out@) + Seq::<T>::empty() =~= rows_of(out@));
        }
    }
    out
}

} // verus!
