use vstd::prelude::*;
use itertools::Itertools;
use crate::cursor::Cursor;
use crate::popup::{LineView, Popup, popup_views};

verus! {

/// Heads never decrease along the list.
pub open spec fn sorted_by_head(cursors: Seq<Cursor>) -> bool {
    forall|i: int, j: int| 0 <= i <= j < cursors.len() ==> cursors[i].head <= cursors[j].head
}

/// Offsets strictly increase along the list.
pub open spec fn strictly_increasing(values: Seq<usize>) -> bool {
    forall|i: int, j: int| 0 <= i < j < values.len() ==> values[i] < values[j]
}

/// The popups' offsets never decrease along the list.
pub open spec fn sorted_by_at(popups: Seq<(usize, bool, Seq<LineView>)>) -> bool {
    forall|i: int, j: int| 0 <= i <= j < popups.len() ==> popups[i].0 <= popups[j].0
}

/// The selections of the list whose head is `head`, in order.
pub open spec fn with_head(cursors: Seq<Cursor>, head: usize) -> Seq<Cursor> {
    cursors.filter(|cursor: Cursor| cursor.head == head)
}

/// Selections with the same head come in `sorted` in the order they have in
/// `original`: what a stable sort by head keeps.
pub open spec fn keeps_order_of_equal_heads(original: Seq<Cursor>, sorted: Seq<Cursor>) -> bool {
    forall|head: usize| #[trigger] with_head(sorted, head) == with_head(original, head)
}

/// Two orderings of the same multiset hold the same values, and one has
/// duplicates when the other has.
pub proof fn lemma_same_multiset<A>(a: Seq<A>, b: Seq<A>)
    requires
        a.to_multiset() == b.to_multiset(),
    ensures
        forall|x: A| a.contains(x) <==> b.contains(x),
        a.no_duplicates() ==> b.no_duplicates(),
{
    broadcast use vstd::seq_lib::to_multiset_contains;

    assert forall|x: A| a.contains(x) <==> b.contains(x) by {
        assert(a.contains(x) <==> a.to_multiset().count(x) > 0);
        assert(b.contains(x) <==> b.to_multiset().count(x) > 0);
    }
    if a.no_duplicates() {
        a.lemma_multiset_has_no_duplicates();
        b.lemma_multiset_has_no_duplicates_conv();
    }
}

/// `slice::sort_by_key` of std, keyed by the head: the same selections, in
/// order of their heads; the sort is stable, so selections with the same
/// head keep their order.
#[verifier::external_body]
pub(crate) fn sort_cursors_by_head(cursors: &mut Vec<Cursor>)
    ensures
        final(cursors)@.to_multiset() == old(cursors)@.to_multiset(),
        sorted_by_head(final(cursors)@),
        keeps_order_of_equal_heads(old(cursors)@, final(cursors)@),
{
    cursors.sort_by_key(|cursor| cursor.head);
}

/// `slice::sort_unstable` of std on offsets: the same offsets, ascending.
#[verifier::external_body]
pub(crate) fn sort_offsets(offsets: &mut Vec<usize>)
    ensures
        final(offsets)@.to_multiset() == old(offsets)@.to_multiset(),
        forall|i: int, j: int|
            0 <= i <= j < final(offsets)@.len() ==> final(offsets)@[i] <= final(offsets)@[j],
{
    offsets.sort_unstable();
}

/// `Itertools::sorted_by_key` keyed by the head: the same selections, in
/// order of their heads. It collects them and sorts them with std's stable
/// `sort_by_key`, so selections with the same head keep their order.
#[verifier::external_body]
pub(crate) fn sorted_cursors_by_head(cursors: Vec<Cursor>) -> (sorted: Vec<Cursor>)
    ensures
        sorted@.to_multiset() == cursors@.to_multiset(),
        sorted_by_head(sorted@),
        keeps_order_of_equal_heads(cursors@, sorted@),
{
    cursors.into_iter().sorted_by_key(|cursor| cursor.head).collect()
}

/// `Itertools::sorted_unstable_by_key` keyed by the offset of a popup: the
/// same popups, in order of their offsets.
#[verifier::external_body]
pub(crate) fn sorted_popups_by_at(popups: Vec<Popup>) -> (sorted: Vec<Popup>)
    ensures
        popup_views(sorted@).to_multiset() == popup_views(popups@).to_multiset(),
        sorted_by_at(popup_views(sorted@)),
{
    popups.into_iter().sorted_unstable_by_key(|popup| popup.at).collect()
}

/// Binary search for `value` in ascending `values`: `Ok` with an index
/// holding it, or `Err` with the index where it would be inserted.
pub fn search_offsets(values: &[usize], value: usize) -> (found: Result<usize, usize>)
    requires
        forall|i: int, j: int| 0 <= i <= j < values@.len() ==> values@[i] <= values@[j],
    ensures
        found matches Ok(index) ==> index < values@.len() && values@[index as int] == value,
        found matches Err(index) ==> index <= values@.len() && (forall|i: int|
            0 <= i < index ==> values@[i] < value) && (forall|i: int|
            index <= i < values@.len() ==> values@[i] > value),
{
    let mut low: usize = 0;
    let mut high: usize = values.len();
    while low < high
        invariant
            low <= high <= values@.len(),
            forall|i: int, j: int| 0 <= i <= j < values@.len() ==> values@[i] <= values@[j],
            forall|i: int| 0 <= i < low ==> values@[i] < value,
            forall|i: int| high <= i < values@.len() ==> values@[i] > value,
        decreases high - low,
    {
        let middle = low + (high - low) / 2;
        if values[middle] < value {
            low = middle + 1;
        } else if values[middle] > value {
            high = middle;
        } else {
            return Ok(middle);
        }
    }
    Err(low)
}

/// Where binary search by head places `head` among `cursors[low..high]`:
/// the search halves the range, going right past heads below `head`.
pub open spec fn head_search(cursors: Seq<Cursor>, head: usize, low: int, high: int) -> int
    decreases high - low,
{
    if low >= high || low < 0 || high > cursors.len() {
        low
    } else {
        let middle = low + (high - low) / 2;
        if cursors[middle].head < head {
            head_search(cursors, head, middle + 1, high)
        } else {
            head_search(cursors, head, low, middle)
        }
    }
}

/// The search ends inside the range it started with.
pub proof fn lemma_head_search_bounds(cursors: Seq<Cursor>, head: usize, low: int, high: int)
    requires
        low <= high,
    ensures
        low <= head_search(cursors, head, low, high) <= high,
    decreases high - low,
{
    if low < high && low >= 0 && high <= cursors.len() {
        let middle = low + (high - low) / 2;
        if cursors[middle].head < head {
            lemma_head_search_bounds(cursors, head, middle + 1, high);
        } else {
            lemma_head_search_bounds(cursors, head, low, middle);
        }
    }
}

/// On a list sorted by head, the search finds the first selection whose head
/// is not below `head`.
pub proof fn lemma_head_search_sorted(cursors: Seq<Cursor>, head: usize, low: int, high: int)
    requires
        sorted_by_head(cursors),
        0 <= low <= high <= cursors.len(),
        forall|i: int| 0 <= i < low ==> cursors[i].head < head,
        forall|i: int| high <= i < cursors.len() ==> cursors[i].head >= head,
    ensures
        0 <= head_search(cursors, head, low, high) <= cursors.len(),
        forall|i: int| 0 <= i < head_search(cursors, head, low, high) ==> cursors[i].head < head,
        forall|i: int|
            head_search(cursors, head, low, high) <= i < cursors.len() ==> cursors[i].head >= head,
    decreases high - low,
{
    if low < high {
        let middle = low + (high - low) / 2;
        if cursors[middle].head < head {
            lemma_head_search_sorted(cursors, head, middle + 1, high);
        } else {
            lemma_head_search_sorted(cursors, head, low, middle);
        }
    }
}

/// Binary search among selections by head: the index of the first one whose
/// head is not below `head` when they are sorted by head (the index where a
/// selection with that head would be inserted). On an unsorted list it is
/// still an index in `0..=len`.
pub fn search_cursors_by_head(cursors: &[Cursor], head: usize) -> (index: usize)
    ensures
        index == head_search(cursors@, head, 0, cursors@.len() as int),
        index <= cursors@.len(),
{
    let mut low: usize = 0;
    let mut high: usize = cursors.len();
    proof {
        lemma_head_search_bounds(cursors@, head, 0, cursors@.len() as int);
    }
    while low < high
        invariant
            low <= high <= cursors@.len(),
            head_search(cursors@, head, low as int, high as int) == head_search(
                cursors@,
                head,
                0,
                cursors@.len() as int,
            ),
            low <= head_search(cursors@, head, low as int, high as int) <= high,
        decreases high - low,
    {
        let middle = low + (high - low) / 2;
        if cursors[middle].head < head {
            low = middle + 1;
        } else {
            high = middle;
        }
        proof {
            lemma_head_search_bounds(cursors@, head, low as int, high as int);
        }
    }
    low
}

} // verus!
