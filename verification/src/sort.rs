//! The order in which chapters are downloaded: chapters without a label
//! first, then the labelled ones by rising label, chapters of equal rank in
//! the order in which they came.

use crate::label::{lemma_key_above_absent, rank_of, ABSENT_RANK};
use crate::query::Chapter;
use vstd::prelude::*;

verus! {

/// The chapters behind a list of references, one for one.
pub open spec fn chapters_of(list: Seq<&Chapter>) -> Seq<Chapter> {
    list.map_values(|chapter: &Chapter| *chapter)
}

/// The chapters of `list` that have the rank `r`, in the order of `list`.
pub open spec fn with_rank(list: Seq<Chapter>, r: int) -> Seq<Chapter> {
    list.filter(|chapter: Chapter| chapter.rank() == r)
}

/// The ranks never fall along `list`.
pub open spec fn is_sorted(list: Seq<Chapter>) -> bool {
    forall|i: int, j: int|
        0 <= i <= j < list.len() ==> (#[trigger] list[i]).rank() <= (#[trigger] list[j]).rank()
}

/// `sorted` holds the chapters of `list` by rising rank, those of one rank
/// in the order in which `list` has them.
pub open spec fn is_stable_sort_of(sorted: Seq<Chapter>, list: Seq<Chapter>) -> bool {
    &&& is_sorted(sorted)
    &&& forall|r: int| #[trigger] with_rank(sorted, r) == with_rank(list, r)
}

/// Where a chapter of rank `r` goes into a sorted list: behind every chapter
/// of a rank up to `r`, before every chapter of a higher rank.
pub open spec fn is_place_for(sorted: Seq<Chapter>, r: int, place: int) -> bool {
    &&& 0 <= place <= sorted.len()
    &&& forall|i: int| 0 <= i < place ==> (#[trigger] sorted[i]).rank() <= r
    &&& forall|i: int| place <= i < sorted.len() ==> (#[trigger] sorted[i]).rank() > r
}

/// A list whose chapters all miss the rank `r` has none of that rank.
proof fn lemma_with_rank_empty(list: Seq<Chapter>, r: int)
    requires
        forall|i: int| 0 <= i < list.len() ==> (#[trigger] list[i]).rank() != r,
    ensures
        with_rank(list, r) == Seq::<Chapter>::empty(),
{
    let pred = |chapter: Chapter| chapter.rank() == r;
    if list.filter(pred).len() > 0 {
        let first = list.filter(pred)[0];
        list.lemma_filter_pred(pred, 0);
        assert(list.filter(pred).contains(first));
        list.lemma_filter_contains_rev(pred, first);
        assert(list.contains(first));
    }
    assert(list.filter(pred) =~= Seq::<Chapter>::empty());
}

/// Putting a chapter into its place keeps a stable sort stable.
proof fn lemma_insert_in_place(
    sorted: Seq<Chapter>,
    list: Seq<Chapter>,
    chapter: Chapter,
    place: int,
)
    requires
        is_stable_sort_of(sorted, list),
        is_place_for(sorted, chapter.rank(), place),
    ensures
        is_stable_sort_of(sorted.insert(place, chapter), list.push(chapter)),
{
    let next = sorted.insert(place, chapter);
    assert forall|i: int, j: int| 0 <= i <= j < next.len() implies (#[trigger] next[i]).rank() <= (
    #[trigger] next[j]).rank() by {
        let a = if i < place {
            sorted[i]
        } else if i == place {
            chapter
        } else {
            sorted[i - 1]
        };
        let b = if j < place {
            sorted[j]
        } else if j == place {
            chapter
        } else {
            sorted[j - 1]
        };
        assert(next[i] == a);
        assert(next[j] == b);
    }
    let front = sorted.take(place);
    let back = sorted.skip(place);
    assert(sorted =~= front + back);
    assert(next =~= front.push(chapter) + back);
    assert forall|r: int| #[trigger] with_rank(next, r) == with_rank(list.push(chapter), r) by {
        let pred = |c: Chapter| c.rank() == r;
        Seq::filter_distributes_over_add(front, back, pred);
        Seq::filter_distributes_over_add(front.push(chapter), back, pred);
        front.lemma_filter_push(chapter, pred);
        list.lemma_filter_push(chapter, pred);
        assert(with_rank(sorted, r) == with_rank(list, r));
        if chapter.rank() == r {
            assert forall|i: int| 0 <= i < back.len() implies (#[trigger] back[i]).rank() != r by {
                assert(back[i] == sorted[place + i]);
            }
            lemma_with_rank_empty(back, r);
            assert(with_rank(next, r) =~= with_rank(list.push(chapter), r));
        }
    }
}

/// A chapter of a list is among the chapters of its rank.
proof fn lemma_rank_class_holds(list: Seq<Chapter>, at: int)
    requires
        0 <= at < list.len(),
    ensures
        with_rank(list, list[at].rank()).contains(list[at]),
        with_rank(list, list[at].rank()).len() > 0,
{
    let pred = |chapter: Chapter| chapter.rank() == list[at].rank();
    list.lemma_filter_contains(pred, at);
}

/// Where a list has chapters of the rank `r`, one of its chapters has that rank.
proof fn lemma_rank_class_witness(list: Seq<Chapter>, r: int) -> (at: int)
    requires
        with_rank(list, r).len() > 0,
    ensures
        0 <= at < list.len(),
        list[at].rank() == r,
{
    let pred = |chapter: Chapter| chapter.rank() == r;
    let first = with_rank(list, r)[0];
    list.lemma_filter_pred(pred, 0);
    assert(list.filter(pred).contains(first));
    list.lemma_filter_contains_rev(pred, first);
    choose|at: int| 0 <= at < list.len() && list[at] == first
}

/// The chapters of rank `r` of a list that is not empty: the first chapter,
/// if it has that rank, and then those of the rest.
proof fn lemma_rank_class_unfold(list: Seq<Chapter>, r: int)
    requires
        list.len() > 0,
    ensures
        with_rank(list, r) == (if list[0].rank() == r {
            seq![list[0]]
        } else {
            Seq::<Chapter>::empty()
        }) + with_rank(list.drop_first(), r),
{
    let pred = |chapter: Chapter| chapter.rank() == r;
    list.drop_first().lemma_filter_prepend(list[0], pred);
    assert(seq![list[0]] + list.drop_first() =~= list);
}

/// Two sorted lists that agree, rank by rank, on the chapters of that rank
/// and on their order are one and the same list.
pub proof fn lemma_sorted_lists_agree(a: Seq<Chapter>, b: Seq<Chapter>)
    requires
        is_sorted(a),
        is_sorted(b),
        forall|r: int| #[trigger] with_rank(a, r) == with_rank(b, r),
    ensures
        a == b,
    decreases a.len(),
{
    if a.len() == 0 {
        if b.len() > 0 {
            lemma_rank_class_holds(b, 0);
            assert(with_rank(a, b[0].rank()) == with_rank(b, b[0].rank()));
            lemma_with_rank_empty(a, b[0].rank());
        }
        assert(a =~= b);
    } else {
        let r = a[0].rank();
        lemma_rank_class_holds(a, 0);
        assert(with_rank(a, r) == with_rank(b, r));
        let j = lemma_rank_class_witness(b, r);
        assert(b[0].rank() <= b[j].rank());
        lemma_rank_class_holds(b, 0);
        assert(with_rank(a, b[0].rank()) == with_rank(b, b[0].rank()));
        let i = lemma_rank_class_witness(a, b[0].rank());
        assert(a[0].rank() <= a[i].rank());
        assert(b[0].rank() == r);
        lemma_rank_class_unfold(a, r);
        lemma_rank_class_unfold(b, r);
        assert(with_rank(a, r)[0] == a[0]);
        assert(with_rank(b, r)[0] == b[0]);
        assert(a[0] == b[0]);
        let rest_a = a.drop_first();
        let rest_b = b.drop_first();
        assert forall|q: int| #[trigger] with_rank(rest_a, q) == with_rank(rest_b, q) by {
            lemma_rank_class_unfold(a, q);
            lemma_rank_class_unfold(b, q);
            assert(with_rank(a, q) == with_rank(b, q));
            let head = if a[0].rank() == q {
                seq![a[0]]
            } else {
                Seq::<Chapter>::empty()
            };
            assert((head + with_rank(rest_a, q)).skip(head.len() as int) =~= with_rank(rest_a, q));
            assert((head + with_rank(rest_b, q)).skip(head.len() as int) =~= with_rank(rest_b, q));
        }
        assert(is_sorted(rest_a)) by {
            assert forall|i: int, j: int| 0 <= i <= j < rest_a.len() implies (
            #[trigger] rest_a[i]).rank() <= (#[trigger] rest_a[j]).rank() by {
                assert(rest_a[i] == a[i + 1] && rest_a[j] == a[j + 1]);
            }
        }
        assert(is_sorted(rest_b)) by {
            assert forall|i: int, j: int| 0 <= i <= j < rest_b.len() implies (
            #[trigger] rest_b[i]).rank() <= (#[trigger] rest_b[j]).rank() by {
                assert(rest_b[i] == b[i + 1] && rest_b[j] == b[j + 1]);
            }
        }
        lemma_sorted_lists_agree(rest_a, rest_b);
        assert(a =~= seq![a[0]] + rest_a);
        assert(b =~= seq![b[0]] + rest_b);
    }
}

/// A list has one stable sort only.
pub proof fn lemma_stable_sort_unique(list: Seq<Chapter>, a: Seq<Chapter>, b: Seq<Chapter>)
    requires
        is_stable_sort_of(a, list),
        is_stable_sort_of(b, list),
    ensures
        a == b,
{
    assert forall|r: int| #[trigger] with_rank(a, r) == with_rank(b, r) by {
        assert(with_rank(a, r) == with_rank(list, r));
        assert(with_rank(b, r) == with_rank(list, r));
    }
    lemma_sorted_lists_agree(a, b);
}

/// The front of a sorted list is sorted.
proof fn lemma_front_is_sorted(list: Seq<Chapter>)
    requires
        is_sorted(list),
        list.len() > 0,
    ensures
        is_sorted(list.drop_last()),
{
    let front = list.drop_last();
    assert forall|i: int, j: int| 0 <= i <= j < front.len() implies (#[trigger] front[i]).rank() <= (
    #[trigger] front[j]).rank() by {
        assert(front[i] == list[i] && front[j] == list[j]);
    }
}

/// The chapters of a sorted list that a predicate keeps are sorted.
proof fn lemma_filter_keeps_sorted(list: Seq<Chapter>, keep: spec_fn(Chapter) -> bool)
    requires
        is_sorted(list),
    ensures
        is_sorted(list.filter(keep)),
    decreases list.len(),
{
    if list.len() == 0 {
        assert(list.filter(keep) =~= list) by {
            reveal(Seq::filter);
        }
    } else {
        let front = list.drop_last();
        let last = list.last();
        assert(list =~= front.push(last));
        front.lemma_filter_push(last, keep);
        lemma_front_is_sorted(list);
        lemma_filter_keeps_sorted(front, keep);
        let kept = front.filter(keep);
        if keep(last) {
            let next = kept.push(last);
            assert forall|i: int, j: int| 0 <= i <= j < next.len() implies (
            #[trigger] next[i]).rank() <= (#[trigger] next[j]).rank() by {
                if j == kept.len() && i < j {
                    assert(kept.contains(kept[i]));
                    front.lemma_filter_contains_rev(keep, kept[i]);
                    let k = choose|k: int| 0 <= k < front.len() && front[k] == kept[i];
                    assert(list[k].rank() <= list[list.len() - 1].rank());
                } else if j < kept.len() {
                    assert(kept[i].rank() <= kept[j].rank());
                }
            }
        }
    }
}

/// Keeping by one predicate and then by another keeps the same chapters as
/// keeping by the other first.
proof fn lemma_filters_commute(
    list: Seq<Chapter>,
    one: spec_fn(Chapter) -> bool,
    other: spec_fn(Chapter) -> bool,
)
    ensures
        list.filter(one).filter(other) == list.filter(other).filter(one),
    decreases list.len(),
{
    if list.len() == 0 {
        assert(list.filter(one) =~= list && list.filter(other) =~= list) by {
            reveal(Seq::filter);
        }
    } else {
        let front = list.drop_last();
        let last = list.last();
        assert(list =~= front.push(last));
        front.lemma_filter_push(last, one);
        front.lemma_filter_push(last, other);
        front.filter(one).lemma_filter_push(last, other);
        front.filter(other).lemma_filter_push(last, one);
        lemma_filters_commute(front, one, other);
    }
}

/// The order does not depend on when chapters are left out: the chapters
/// that a predicate keeps of a stable sort are the stable sort of the
/// chapters that it keeps of the list.
pub proof fn lemma_filter_of_stable_sort(
    sorted: Seq<Chapter>,
    list: Seq<Chapter>,
    keep: spec_fn(Chapter) -> bool,
)
    requires
        is_stable_sort_of(sorted, list),
    ensures
        is_stable_sort_of(sorted.filter(keep), list.filter(keep)),
{
    lemma_filter_keeps_sorted(sorted, keep);
    assert forall|r: int| #[trigger]
        with_rank(sorted.filter(keep), r) == with_rank(list.filter(keep), r) by {
        let of_rank = |chapter: Chapter| chapter.rank() == r;
        lemma_filters_commute(sorted, keep, of_rank);
        lemma_filters_commute(list, keep, of_rank);
        assert(with_rank(sorted, r) == with_rank(list, r));
    }
}

/// A chapter occurs in a list as often as among the list's chapters of its rank.
proof fn lemma_rank_class_counts(list: Seq<Chapter>, chapter: Chapter)
    ensures
        list.to_multiset().count(chapter) == with_rank(list, chapter.rank()).to_multiset().count(
            chapter,
        ),
    decreases list.len(),
{
    broadcast use vstd::seq_lib::group_to_multiset_ensures;

    let pred = |c: Chapter| c.rank() == chapter.rank();
    if list.len() == 0 {
        lemma_with_rank_empty(list, chapter.rank());
        assert(list =~= Seq::<Chapter>::empty());
    } else {
        let front = list.drop_last();
        let last = list.last();
        assert(list =~= front.push(last));
        front.lemma_filter_push(last, pred);
        lemma_rank_class_counts(front, chapter);
    }
}

/// A stable sort holds every chapter as often as the list does: none is
/// lost, none comes twice that came once.
pub proof fn lemma_stable_sort_permutes(sorted: Seq<Chapter>, list: Seq<Chapter>)
    requires
        is_stable_sort_of(sorted, list),
    ensures
        sorted.to_multiset() == list.to_multiset(),
        sorted.len() == list.len(),
{
    broadcast use vstd::seq_lib::group_to_multiset_ensures;

    assert forall|chapter: Chapter|
        sorted.to_multiset().count(chapter) == list.to_multiset().count(chapter) by {
        lemma_rank_class_counts(sorted, chapter);
        lemma_rank_class_counts(list, chapter);
        assert(with_rank(sorted, chapter.rank()) == with_rank(list, chapter.rank()));
    }
    assert(sorted.to_multiset() =~= list.to_multiset());
    vstd::seq_lib::to_multiset_len(sorted);
    vstd::seq_lib::to_multiset_len(list);
}

/// The chapters of `list` that have no label, in the order of `list`.
pub open spec fn unlabelled(list: Seq<Chapter>) -> Seq<Chapter> {
    with_rank(list, ABSENT_RANK as int)
}

/// A chapter has the lowest rank if and only if it has no label.
pub proof fn lemma_lowest_rank_is_unlabelled(chapter: Chapter)
    ensures
        chapter.rank() >= ABSENT_RANK,
        chapter.rank() == ABSENT_RANK <==> chapter.label() is None,
{
    if chapter.label() is Some {
        lemma_key_above_absent(chapter.label().unwrap());
    }
}

/// In a sorted list whose ranks are all at least `lowest`, the chapters of
/// that rank are the front of the list.
proof fn lemma_lowest_rank_leads(list: Seq<Chapter>, lowest: int)
    requires
        is_sorted(list),
        forall|i: int| 0 <= i < list.len() ==> (#[trigger] list[i]).rank() >= lowest,
    ensures
        with_rank(list, lowest).len() <= list.len(),
        with_rank(list, lowest) == list.take(with_rank(list, lowest).len() as int),
        forall|i: int|
            with_rank(list, lowest).len() <= i < list.len() ==> (#[trigger] list[i]).rank()
                > lowest,
    decreases list.len(),
{
    let pred = |chapter: Chapter| chapter.rank() == lowest;
    if list.len() == 0 {
        lemma_with_rank_empty(list, lowest);
        assert(with_rank(list, lowest) =~= list.take(0));
    } else {
        let front = list.drop_last();
        let last = list.last();
        assert(list =~= front.push(last));
        front.lemma_filter_push(last, pred);
        assert(is_sorted(front)) by {
            assert forall|i: int, j: int| 0 <= i <= j < front.len() implies (
            #[trigger] front[i]).rank() <= (#[trigger] front[j]).rank() by {
                assert(front[i] == list[i] && front[j] == list[j]);
            }
        }
        assert forall|i: int| 0 <= i < front.len() implies (#[trigger] front[i]).rank()
            >= lowest by {
            assert(front[i] == list[i]);
        }
        lemma_lowest_rank_leads(front, lowest);
        let n = with_rank(front, lowest).len() as int;
        if last.rank() == lowest {
            if n < front.len() {
                assert(front[n].rank() > lowest);
                assert(list[n].rank() <= list[list.len() - 1].rank());
            }
            assert(with_rank(front, lowest) =~= front);
            assert(with_rank(list, lowest) =~= list.take(list.len() as int));
        } else {
            assert(with_rank(list, lowest) =~= list.take(n));
            assert forall|i: int| n <= i < list.len() implies (#[trigger] list[i]).rank()
                > lowest by {
                if i < front.len() {
                    assert(front[i].rank() > lowest);
                }
            }
        }
    }
}

/// A stable sort puts the chapters without a label first, in the order in
/// which the list has them, and behind them the labelled chapters, whose
/// labels never fall.
pub proof fn lemma_unlabelled_first(sorted: Seq<Chapter>, list: Seq<Chapter>)
    requires
        is_stable_sort_of(sorted, list),
    ensures
        ({
            let n = unlabelled(list).len() as int;
            &&& n <= sorted.len()
            &&& sorted.take(n) == unlabelled(list)
            &&& forall|i: int| 0 <= i < n ==> (#[trigger] sorted[i]).label() is None
            &&& forall|i: int| n <= i < sorted.len() ==> (#[trigger] sorted[i]).label() is Some
            &&& forall|i: int, j: int|
                n <= i <= j < sorted.len() ==> (#[trigger] sorted[i]).label().unwrap()@ <= (
                #[trigger] sorted[j]).label().unwrap()@
        }),
{
    let lowest = ABSENT_RANK as int;
    let n = unlabelled(list).len() as int;
    assert forall|i: int| 0 <= i < sorted.len() implies (#[trigger] sorted[i]).rank()
        >= lowest by {
        lemma_lowest_rank_is_unlabelled(sorted[i]);
    }
    lemma_lowest_rank_leads(sorted, lowest);
    assert(with_rank(sorted, lowest) == with_rank(list, lowest));
    assert forall|i: int| 0 <= i < n implies (#[trigger] sorted[i]).label() is None by {
        let pred = |chapter: Chapter| chapter.rank() == lowest;
        sorted.lemma_filter_pred(pred, i);
        assert(sorted.take(n)[i] == sorted[i]);
        lemma_lowest_rank_is_unlabelled(sorted[i]);
    }
    assert forall|i: int| n <= i < sorted.len() implies (#[trigger] sorted[i]).label() is Some by {
        lemma_lowest_rank_is_unlabelled(sorted[i]);
    }
    assert forall|i: int, j: int| n <= i <= j < sorted.len() implies (
    #[trigger] sorted[i]).label().unwrap()@ <= (#[trigger] sorted[j]).label().unwrap()@ by {
        lemma_lowest_rank_is_unlabelled(sorted[i]);
        lemma_lowest_rank_is_unlabelled(sorted[j]);
        assert(sorted[i].rank() <= sorted[j].rank());
    }
}

/// The place for a chapter of rank `r` in a sorted list.
fn place_for(sorted: &Vec<&Chapter>, r: i32) -> (place: usize)
    requires
        is_sorted(chapters_of(sorted@)),
    ensures
        is_place_for(chapters_of(sorted@), r as int, place as int),
{
    let mut place: usize = sorted.len();
    while place > 0 && rank_of(sorted[place - 1].chapter()) > r
        invariant
            place <= sorted.len(),
            is_sorted(chapters_of(sorted@)),
            forall|i: int|
                place <= i < sorted.len() ==> (#[trigger] chapters_of(sorted@)[i]).rank() > r,
        decreases place,
    {
        place = place - 1;
    }
    proof {
        let list = chapters_of(sorted@);
        assert forall|i: int| 0 <= i < place implies (#[trigger] list[i]).rank() <= r by {
            assert(list[i].rank() <= list[place - 1].rank());
        }
    }
    place
}

/// The chapters by rising rank: those without a label first, then the
/// labelled ones by rising label; chapters of one rank stay in the order in
/// which they came.
pub fn sort_chapters<'a>(chapters: Vec<&'a Chapter>) -> (sorted: Vec<&'a Chapter>)
    ensures
        is_stable_sort_of(chapters_of(sorted@), chapters_of(chapters@)),
{
    let mut sorted: Vec<&'a Chapter> = Vec::new();
    let mut taken: usize = 0;
    proof {
        assert(chapters_of(sorted@) =~= Seq::<Chapter>::empty());
        assert(chapters_of(chapters@).take(0) =~= Seq::<Chapter>::empty());
    }
    while taken < chapters.len()
        invariant
            taken <= chapters.len(),
            is_stable_sort_of(chapters_of(sorted@), chapters_of(chapters@).take(taken as int)),
        decreases chapters.len() - taken,
    {
        let chapter = chapters[taken];
        let place = place_for(&sorted, rank_of(chapter.chapter()));
        proof {
            let list = chapters_of(chapters@);
            lemma_insert_in_place(
                chapters_of(sorted@),
                list.take(taken as int),
                *chapter,
                place as int,
            );
            assert(list.take(taken as int).push(*chapter) =~= list.take(taken + 1));
            assert(chapters_of(sorted@.insert(place as int, chapter)) =~= chapters_of(
                sorted@,
            ).insert(place as int, *chapter));
        }
        sorted.insert(place, chapter);
        taken = taken + 1;
    }
    proof {
        assert(chapters_of(chapters@).take(taken as int) =~= chapters_of(chapters@));
    }
    sorted
}

} // verus!
