//! Selecting the chapters to download: which volumes and chapters the
//! caller's criteria keep, and the order in which they come.

use crate::label::Label;
use crate::query::{key_of, Chapter, ResponseBody, Volume};
use crate::sort::{
    chapters_of, is_stable_sort_of, lemma_stable_sort_permutes, lemma_stable_sort_unique,
    sort_chapters,
};
use vstd::prelude::*;

verus! {

/// The volumes behind a list of references, one for one.
pub open spec fn volumes_of(list: Seq<&Volume>) -> Seq<Volume> {
    list.map_values(|volume: &Volume| *volume)
}

/// The keys of a list of labels, one for one.
pub open spec fn keys_of(labels: Seq<Label>) -> Seq<int> {
    labels.map_values(|label: Label| label@)
}

/// The chapters of the volumes in one list: volume by volume, those of a
/// volume in the order of its entries.
pub open spec fn all_chapters(volumes: Seq<Volume>) -> Seq<Chapter>
    decreases volumes.len(),
{
    if volumes.len() == 0 {
        Seq::empty()
    } else {
        all_chapters(volumes.drop_last()) + volumes.last().chapter_seq()
    }
}

/// The label is there and its key is one of `keys`.
pub open spec fn in_list(label: Option<Label>, keys: Seq<int>) -> bool {
    match label {
        Some(l) => keys.contains(l@),
        None => false,
    }
}

/// The label is there and its key lies within the bounds that are given.
pub open spec fn in_range(label: Option<Label>, min: Option<int>, max: Option<int>) -> bool {
    match label {
        Some(l) => {
            &&& (min matches Some(low) ==> low <= l@)
            &&& (max matches Some(high) ==> l@ <= high)
        },
        None => false,
    }
}

/// The chapters of all volumes.
pub fn flatten<'a>(volumes: &Vec<&'a Volume>) -> (flat: Vec<&'a Chapter>)
    ensures
        chapters_of(flat@) == all_chapters(volumes_of(volumes@)),
{
    let mut flat: Vec<&'a Chapter> = Vec::new();
    let mut taken: usize = 0;
    let ghost list = volumes_of(volumes@);
    proof {
        assert(chapters_of(flat@) =~= all_chapters(list.take(0)));
    }
    while taken < volumes.len()
        invariant
            taken <= volumes.len(),
            list == volumes_of(volumes@),
            chapters_of(flat@) == all_chapters(list.take(taken as int)),
        decreases volumes.len() - taken,
    {
        let volume: &'a Volume = volumes[taken];
        let entries = volume.chapters();
        let ghost before = chapters_of(flat@);
        let mut at: usize = 0;
        proof {
            assert(volume.chapter_seq().take(0) =~= Seq::<Chapter>::empty());
            assert(chapters_of(flat@) =~= before + volume.chapter_seq().take(0));
        }
        while at < entries.len()
            invariant
                at <= entries.len(),
                entries@ == volume.entries(),
                chapters_of(flat@) == before + volume.chapter_seq().take(at as int),
            decreases entries.len() - at,
        {
            let chapter: &'a Chapter = &entries[at].1;
            proof {
                assert(volume.chapter_seq()[at as int] == *chapter);
                assert(volume.chapter_seq().take(at + 1) =~= volume.chapter_seq().take(
                    at as int,
                ).push(*chapter));
                assert(chapters_of(flat@.push(chapter)) =~= chapters_of(flat@).push(*chapter));
            }
            flat.push(chapter);
            at = at + 1;
        }
        proof {
            assert(volume.chapter_seq().take(at as int) =~= volume.chapter_seq());
            assert(list.take(taken + 1).drop_last() =~= list.take(taken as int));
            assert(list.take(taken + 1).last() == *volume);
        }
        taken = taken + 1;
    }
    proof {
        assert(list.take(taken as int) =~= list);
    }
    flat
}

/// The volumes of a list, by reference.
pub fn volume_refs<'a>(volumes: &'a Vec<Volume>) -> (refs: Vec<&'a Volume>)
    ensures
        volumes_of(refs@) == volumes@,
{
    let mut refs: Vec<&'a Volume> = Vec::new();
    let mut taken: usize = 0;
    while taken < volumes.len()
        invariant
            taken <= volumes.len(),
            refs.len() == taken,
            forall|i: int| 0 <= i < taken ==> *(#[trigger] refs@[i]) == volumes@[i],
        decreases volumes.len() - taken,
    {
        refs.push(&volumes[taken]);
        taken = taken + 1;
    }
    assert(volumes_of(refs@) =~= volumes@);
    refs
}

/// Volumes that give their chapters in download order.
pub trait GetChapters<'a> {
    /// The volumes that the value stands for.
    spec fn volumes(&self) -> Seq<Volume>;

    /// The chapters of all the volumes in download order: those without a
    /// label first, then the labelled ones by rising label; chapters of one
    /// rank in the order in which the volumes hold them.
    fn get_chapters(&self) -> (chapters: Vec<&'a Chapter>)
        ensures
            is_stable_sort_of(chapters_of(chapters@), all_chapters(self.volumes())),
    ;
}

impl<'a> GetChapters<'a> for Vec<&'a Volume> {
    open spec fn volumes(&self) -> Seq<Volume> {
        volumes_of(self@)
    }

    fn get_chapters(&self) -> (chapters: Vec<&'a Chapter>) {
        sort_chapters(flatten(self))
    }
}

impl<'a> GetChapters<'a> for &'a Vec<Volume> {
    open spec fn volumes(&self) -> Seq<Volume> {
        self@
    }

    fn get_chapters(&self) -> (chapters: Vec<&'a Chapter>) {
        let refs = volume_refs(*self);
        sort_chapters(flatten(&refs))
    }
}

fn key_in_list(labels: &Vec<Label>, key: i32) -> (found: bool)
    ensures
        found == keys_of(labels@).contains(key as int),
{
    let mut at: usize = 0;
    while at < labels.len()
        invariant
            at <= labels.len(),
            forall|i: int| 0 <= i < at ==> keys_of(labels@)[i] != key,
        decreases labels.len() - at,
    {
        if labels[at].key() == key {
            assert(keys_of(labels@)[at as int] == key as int);
            return true;
        }
        at = at + 1;
    }
    false
}

/// What a [`Criterion`] holds; the labels by their keys.
pub enum CriterionView {
    /// Everything is kept.
    All,
    /// What has a label with one of these keys is kept.
    List(Seq<int>),
    /// What has a label within these bounds is kept; a missing bound does
    /// not bind.
    Range(Option<int>, Option<int>),
}

impl CriterionView {
    /// Whether a volume or chapter with this label is kept. Under a list or
    /// a range, one without a label is never kept.
    pub open spec fn accepts(self, label: Option<Label>) -> bool {
        match self {
            CriterionView::All => true,
            CriterionView::List(keys) => in_list(label, keys),
            CriterionView::Range(min, max) => in_range(label, min, max),
        }
    }
}

/// What decides, label by label, which volumes or which chapters are kept.
#[derive(Debug)]
pub enum Criterion<'f> {
    /// Everything is kept.
    All,
    /// What has one of these labels is kept.
    List(&'f Vec<Label>),
    /// What has a label within these bounds is kept.
    Range(Option<Label>, Option<Label>),
}

impl<'f> View for Criterion<'f> {
    type V = CriterionView;

    open spec fn view(&self) -> CriterionView {
        match self {
            Criterion::All => CriterionView::All,
            Criterion::List(labels) => CriterionView::List(keys_of(labels@)),
            Criterion::Range(min, max) => CriterionView::Range(
                key_of(*min),
                key_of(*max),
            ),
        }
    }
}

impl<'f> Criterion<'f> {
    /// Whether a volume or chapter with this label is kept.
    pub fn accepts(&self, label: &Option<Label>) -> (kept: bool)
        ensures
            kept == self@.accepts(*label),
    {
        match self {
            Criterion::All => true,
            Criterion::List(labels) => match label {
                Some(l) => key_in_list(labels, l.key()),
                None => false,
            },
            Criterion::Range(min, max) => match label {
                Some(l) => {
                    let key = l.key();
                    let above = match min {
                        Some(low) => low.key() <= key,
                        None => true,
                    };
                    let below = match max {
                        Some(high) => key <= high.key(),
                        None => true,
                    };
                    above && below
                },
                None => false,
            },
        }
    }
}

/// What a [`ChapterFilter`] holds; the labels by their keys.
pub struct ChapterFilterView {
    pub volumes: Seq<int>,
    pub chapters: Seq<int>,
    pub min_chapter: Option<int>,
    pub max_chapter: Option<int>,
    pub min_volume: Option<int>,
    pub max_volume: Option<int>,
}

impl ChapterFilterView {
    /// Which volumes are kept. A list of volume labels comes first. Without
    /// one, a list of chapter labels or a bound on the chapter label keeps
    /// every volume. Without those, a bound on the volume label decides.
    /// Without any of these every volume is kept.
    pub open spec fn volume_criterion(self) -> CriterionView {
        if self.volumes.len() > 0 {
            CriterionView::List(self.volumes)
        } else if self.chapters.len() > 0 {
            CriterionView::All
        } else if self.min_chapter is Some || self.max_chapter is Some {
            CriterionView::All
        } else if self.min_volume is Some || self.max_volume is Some {
            CriterionView::Range(self.min_volume, self.max_volume)
        } else {
            CriterionView::All
        }
    }

    /// Which chapters of the kept volumes are kept. Under a list of volume
    /// labels, all of them. Without one, a list of chapter labels decides;
    /// without that, a bound on the chapter label. Without any of these
    /// every chapter is kept.
    pub open spec fn chapter_criterion(self) -> CriterionView {
        if self.volumes.len() > 0 {
            CriterionView::All
        } else if self.chapters.len() > 0 {
            CriterionView::List(self.chapters)
        } else if self.min_chapter is Some || self.max_chapter is Some {
            CriterionView::Range(self.min_chapter, self.max_chapter)
        } else {
            CriterionView::All
        }
    }
}

/// The volumes of `volumes` that `criterion` keeps, in their order.
pub open spec fn kept_volumes(volumes: Seq<Volume>, criterion: CriterionView) -> Seq<Volume> {
    volumes.filter(|volume: Volume| criterion.accepts(volume.label()))
}

/// The chapters of `chapters` that `criterion` keeps, in their order.
pub open spec fn kept_chapters(chapters: Seq<Chapter>, criterion: CriterionView) -> Seq<Chapter> {
    chapters.filter(|chapter: Chapter| criterion.accepts(chapter.label()))
}

/// The chapters that a filter selects from the volumes, before they are put
/// in download order: the kept chapters of the kept volumes.
pub open spec fn selection(volumes: Seq<Volume>, filter: ChapterFilterView) -> Seq<Chapter> {
    kept_chapters(
        all_chapters(kept_volumes(volumes, filter.volume_criterion())),
        filter.chapter_criterion(),
    )
}

/// The caller's criteria for the chapters to download.
#[derive(Debug)]
pub struct ChapterFilter {
    volumes: Vec<Label>,
    chapters: Vec<Label>,
    min_chapter: Option<Label>,
    max_chapter: Option<Label>,
    min_volume: Option<Label>,
    max_volume: Option<Label>,
}

impl View for ChapterFilter {
    type V = ChapterFilterView;

    closed spec fn view(&self) -> ChapterFilterView {
        ChapterFilterView {
            volumes: keys_of(self.volumes@),
            chapters: keys_of(self.chapters@),
            min_chapter: key_of(self.min_chapter),
            max_chapter: key_of(self.max_chapter),
            min_volume: key_of(self.min_volume),
            max_volume: key_of(self.max_volume),
        }
    }
}

impl ChapterFilter {
    /// The filter that keeps everything.
    pub fn new() -> (filter: Self)
        ensures
            filter@ == (ChapterFilterView {
                volumes: Seq::empty(),
                chapters: Seq::empty(),
                min_chapter: None,
                max_chapter: None,
                min_volume: None,
                max_volume: None,
            }),
    {
        let filter = ChapterFilter {
            volumes: Vec::new(),
            chapters: Vec::new(),
            min_chapter: None,
            max_chapter: None,
            min_volume: None,
            max_volume: None,
        };
        assert(keys_of(filter.volumes@) =~= Seq::empty());
        assert(keys_of(filter.chapters@) =~= Seq::empty());
        filter
    }

    /// The same filter with `volumes` as its list of volume labels.
    pub fn volumes(self, volumes: Vec<Label>) -> (filter: Self)
        ensures
            filter@ == (ChapterFilterView { volumes: keys_of(volumes@), ..self@ }),
    {
        let mut filter = self;
        filter.volumes = volumes;
        filter
    }

    /// The same filter with `chapters` as its list of chapter labels.
    pub fn chapters(self, chapters: Vec<Label>) -> (filter: Self)
        ensures
            filter@ == (ChapterFilterView { chapters: keys_of(chapters@), ..self@ }),
    {
        let mut filter = self;
        filter.chapters = chapters;
        filter
    }

    /// The same filter with these bounds on the chapter label.
    pub fn chapter_range(self, min: Option<Label>, max: Option<Label>) -> (filter: Self)
        ensures
            filter@ == (ChapterFilterView {
                min_chapter: key_of(min),
                max_chapter: key_of(max),
                ..self@
            }),
    {
        let mut filter = self;
        filter.min_chapter = min;
        filter.max_chapter = max;
        filter
    }

    /// The same filter with these bounds on the volume label.
    pub fn volume_range(self, min: Option<Label>, max: Option<Label>) -> (filter: Self)
        ensures
            filter@ == (ChapterFilterView {
                min_volume: key_of(min),
                max_volume: key_of(max),
                ..self@
            }),
    {
        let mut filter = self;
        filter.min_volume = min;
        filter.max_volume = max;
        filter
    }

    /// Which volumes the filter keeps.
    pub fn volume_criterion(&self) -> (criterion: Criterion<'_>)
        ensures
            criterion@ == self@.volume_criterion(),
    {
        if self.volumes.len() > 0 {
            Criterion::List(&self.volumes)
        } else if self.chapters.len() > 0 {
            Criterion::All
        } else if self.min_chapter.is_some() || self.max_chapter.is_some() {
            Criterion::All
        } else if self.min_volume.is_some() || self.max_volume.is_some() {
            Criterion::Range(self.min_volume, self.max_volume)
        } else {
            Criterion::All
        }
    }

    /// Which chapters of the kept volumes the filter keeps.
    pub fn chapter_criterion(&self) -> (criterion: Criterion<'_>)
        ensures
            criterion@ == self@.chapter_criterion(),
    {
        if self.volumes.len() > 0 {
            Criterion::All
        } else if self.chapters.len() > 0 {
            Criterion::List(&self.chapters)
        } else if self.min_chapter.is_some() || self.max_chapter.is_some() {
            Criterion::Range(self.min_chapter, self.max_chapter)
        } else {
            Criterion::All
        }
    }
}

/// The volumes that `criterion` keeps, in their order.
pub fn keep_volumes<'a>(volumes: &'a Vec<Volume>, criterion: &Criterion<'_>) -> (kept: Vec<
    &'a Volume,
>)
    ensures
        volumes_of(kept@) == kept_volumes(volumes@, criterion@),
{
    let ghost pred = |volume: Volume| criterion@.accepts(volume.label());
    let mut kept: Vec<&'a Volume> = Vec::new();
    let mut taken: usize = 0;
    proof {
        assert(volumes@.take(0).filter(pred) =~= Seq::<Volume>::empty()) by {
            reveal(Seq::filter);
        }
        assert(volumes_of(kept@) =~= Seq::<Volume>::empty());
    }
    while taken < volumes.len()
        invariant
            taken <= volumes.len(),
            pred == (|volume: Volume| criterion@.accepts(volume.label())),
            volumes_of(kept@) == volumes@.take(taken as int).filter(pred),
        decreases volumes.len() - taken,
    {
        let volume = &volumes[taken];
        proof {
            volumes@.take(taken as int).lemma_filter_push(*volume, pred);
            assert(volumes@.take(taken as int).push(*volume) =~= volumes@.take(taken + 1));
            assert(volumes_of(kept@.push(volume)) =~= volumes_of(kept@).push(*volume));
        }
        if criterion.accepts(volume.volume()) {
            kept.push(volume);
        }
        taken = taken + 1;
    }
    proof {
        assert(volumes@.take(taken as int) =~= volumes@);
    }
    kept
}

/// The chapters that `criterion` keeps, in their order.
pub fn keep_chapters<'a>(chapters: Vec<&'a Chapter>, criterion: &Criterion<'_>) -> (kept: Vec<
    &'a Chapter,
>)
    ensures
        chapters_of(kept@) == kept_chapters(chapters_of(chapters@), criterion@),
{
    let ghost pred = |chapter: Chapter| criterion@.accepts(chapter.label());
    let ghost list = chapters_of(chapters@);
    let mut kept: Vec<&'a Chapter> = Vec::new();
    let mut taken: usize = 0;
    proof {
        assert(list.take(0).filter(pred) =~= Seq::<Chapter>::empty()) by {
            reveal(Seq::filter);
        }
        assert(chapters_of(kept@) =~= Seq::<Chapter>::empty());
    }
    while taken < chapters.len()
        invariant
            taken <= chapters.len(),
            list == chapters_of(chapters@),
            pred == (|chapter: Chapter| criterion@.accepts(chapter.label())),
            chapters_of(kept@) == list.take(taken as int).filter(pred),
        decreases chapters.len() - taken,
    {
        let chapter = chapters[taken];
        proof {
            list.take(taken as int).lemma_filter_push(*chapter, pred);
            assert(list.take(taken as int).push(*chapter) =~= list.take(taken + 1));
            assert(chapters_of(kept@.push(chapter)) =~= chapters_of(kept@).push(*chapter));
        }
        if criterion.accepts(chapter.chapter()) {
            kept.push(chapter);
        }
        taken = taken + 1;
    }
    proof {
        assert(list.take(taken as int) =~= list);
    }
    kept
}

/// The chapters to download, in download order: the chapters that the filter
/// selects from the volumes, those without a label first, then the labelled
/// ones by rising label; chapters of one rank in the order in which the
/// volumes hold them.
pub fn select_chapters<'a>(volumes: &'a Vec<Volume>, filter: &ChapterFilter) -> (chapters: Vec<
    &'a Chapter,
>)
    ensures
        is_stable_sort_of(chapters_of(chapters@), selection(volumes@, filter@)),
{
    let kept = keep_volumes(volumes, &filter.volume_criterion());
    let flat = flatten(&kept);
    sort_chapters(keep_chapters(flat, &filter.chapter_criterion()))
}

/// Under a list of volume labels nothing else in the filter makes a
/// difference: two filters with the same list select the same chapters, and
/// the chapters come out in the same order.
pub proof fn lemma_volume_list_decides(
    volumes: Seq<Volume>,
    one: ChapterFilterView,
    other: ChapterFilterView,
    result_one: Seq<Chapter>,
    result_other: Seq<Chapter>,
)
    requires
        one.volumes.len() > 0,
        one.volumes == other.volumes,
        is_stable_sort_of(result_one, selection(volumes, one)),
        is_stable_sort_of(result_other, selection(volumes, other)),
    ensures
        selection(volumes, one) == selection(volumes, other),
        result_one == result_other,
{
    lemma_stable_sort_unique(selection(volumes, one), result_one, result_other);
}

/// Under a list of chapter labels, and without a list of volume labels, the
/// bounds on volume and chapter labels make no difference: two filters with
/// the same list select the same chapters, and the chapters come out in the
/// same order.
pub proof fn lemma_chapter_list_decides(
    volumes: Seq<Volume>,
    one: ChapterFilterView,
    other: ChapterFilterView,
    result_one: Seq<Chapter>,
    result_other: Seq<Chapter>,
)
    requires
        one.volumes.len() == 0,
        other.volumes.len() == 0,
        one.chapters.len() > 0,
        one.chapters == other.chapters,
        is_stable_sort_of(result_one, selection(volumes, one)),
        is_stable_sort_of(result_other, selection(volumes, other)),
    ensures
        selection(volumes, one) == selection(volumes, other),
        result_one == result_other,
{
    lemma_stable_sort_unique(selection(volumes, one), result_one, result_other);
}

/// Where there are no volumes, no filter selects a chapter. So it is with
/// the answer that holds the marker for an entry without volumes.
pub proof fn lemma_no_volumes_no_chapters(filter: ChapterFilterView, result: Seq<Chapter>)
    requires
        is_stable_sort_of(result, selection(ResponseBody::Empty.volumes(), filter)),
    ensures
        ResponseBody::Empty.volumes() == Seq::<Volume>::empty(),
        selection(Seq::empty(), filter) == Seq::<Chapter>::empty(),
        result == Seq::<Chapter>::empty(),
{
    let none = Seq::<Volume>::empty();
    assert(kept_volumes(none, filter.volume_criterion()) =~= none) by {
        reveal(Seq::filter);
    }
    assert(all_chapters(none) =~= Seq::<Chapter>::empty());
    assert(kept_chapters(Seq::<Chapter>::empty(), filter.chapter_criterion())
        =~= Seq::<Chapter>::empty()) by {
        reveal(Seq::filter);
    }
    lemma_stable_sort_permutes(result, selection(none, filter));
    assert(result =~= Seq::<Chapter>::empty());
}

/// A filter without lists and bounds selects every chapter of every volume.
pub proof fn lemma_empty_filter_selects_all(volumes: Seq<Volume>, filter: ChapterFilterView)
    requires
        filter.volumes.len() == 0,
        filter.chapters.len() == 0,
        filter.min_chapter is None,
        filter.max_chapter is None,
        filter.min_volume is None,
        filter.max_volume is None,
    ensures
        selection(volumes, filter) == all_chapters(volumes),
{
    lemma_keep_all_volumes(volumes);
    lemma_keep_all_chapters(all_chapters(volumes));
}

/// The criterion that keeps everything keeps every volume.
pub proof fn lemma_keep_all_volumes(volumes: Seq<Volume>)
    ensures
        kept_volumes(volumes, CriterionView::All) == volumes,
    decreases volumes.len(),
{
    let pred = |volume: Volume| CriterionView::All.accepts(volume.label());
    if volumes.len() == 0 {
        assert(volumes.filter(pred) =~= volumes) by {
            reveal(Seq::filter);
        }
    } else {
        lemma_keep_all_volumes(volumes.drop_last());
        volumes.drop_last().lemma_filter_push(volumes.last(), pred);
        assert(volumes.drop_last().push(volumes.last()) =~= volumes);
    }
}

/// The criterion that keeps everything keeps every chapter.
pub proof fn lemma_keep_all_chapters(chapters: Seq<Chapter>)
    ensures
        kept_chapters(chapters, CriterionView::All) == chapters,
    decreases chapters.len(),
{
    let pred = |chapter: Chapter| CriterionView::All.accepts(chapter.label());
    if chapters.len() == 0 {
        assert(chapters.filter(pred) =~= chapters) by {
            reveal(Seq::filter);
        }
    } else {
        lemma_keep_all_chapters(chapters.drop_last());
        chapters.drop_last().lemma_filter_push(chapters.last(), pred);
        assert(chapters.drop_last().push(chapters.last()) =~= chapters);
    }
}

} // verus!
