use mangadex::select::{flatten, keep_chapters, keep_volumes, volume_refs};
use mangadex::sort::sort_chapters;
use mangadex::{select_chapters, Chapter, ChapterFilter, Criterion, GetChapters, Label, ResponseBody, Volume};

fn label(number: f32) -> Label {
    Label::from_bits(number.to_bits()).unwrap()
}

fn labels(numbers: &[f32]) -> Vec<Label> {
    numbers.iter().map(|n| label(*n)).collect()
}

fn chapter(number: Option<f32>, id: &str) -> Chapter {
    Chapter::new(number.map(label), id.to_string(), 1, Vec::new())
}

fn volume(number: Option<f32>, chapters: &[(Option<f32>, &str)]) -> Volume {
    let mut made = Volume::new(number.map(label), chapters.len());
    for (number, id) in chapters {
        made = made.with_chapter(id.to_string(), chapter(*number, id));
    }
    made
}

fn ids(chapters: &[&Chapter]) -> Vec<String> {
    chapters.iter().map(|c| c.id().clone()).collect()
}

fn library() -> Vec<Volume> {
    vec![
        volume(Some(2.0), &[(Some(11.0), "c11"), (Some(10.5), "c10.5"), (None, "extra2")]),
        volume(None, &[(Some(30.0), "c30"), (None, "oneshot"), (Some(2.0), "c2-alt")]),
        volume(Some(1.0), &[(Some(2.0), "c2"), (Some(1.0), "c1"), (Some(10.0), "c10")]),
    ]
}

#[test]
fn sorting_puts_unlabelled_first_and_keeps_their_order() {
    let chapters = vec![
        chapter(Some(3.0), "three"),
        chapter(None, "first none"),
        chapter(Some(1.5), "one and a half"),
        chapter(None, "second none"),
        chapter(Some(10.0), "ten"),
        chapter(None, "third none"),
        chapter(Some(2.0), "two"),
    ];
    let sorted = sort_chapters(chapters.iter().collect());
    assert_eq!(
        ids(&sorted),
        vec!["first none", "second none", "third none", "one and a half", "two", "three", "ten"]
    );
}

#[test]
fn sorting_is_by_number_not_by_text() {
    let chapters = vec![
        chapter(Some(10.0), "10"),
        chapter(Some(9.0), "9"),
        chapter(Some(100.0), "100"),
        chapter(Some(9.5), "9.5"),
        chapter(Some(-1.0), "-1"),
        chapter(Some(0.0), "0"),
    ];
    let sorted = sort_chapters(chapters.iter().collect());
    assert_eq!(ids(&sorted), vec!["-1", "0", "9", "9.5", "10", "100"]);
}

#[test]
fn sorting_keeps_the_order_of_equal_labels() {
    let chapters = vec![
        chapter(Some(2.0), "2 a"),
        chapter(Some(1.0), "1 a"),
        chapter(Some(2.0), "2 b"),
        chapter(Some(1.0), "1 b"),
        chapter(Some(2.0), "2 c"),
        chapter(Some(-0.0), "minus zero"),
        chapter(Some(0.0), "zero"),
    ];
    let sorted = sort_chapters(chapters.iter().collect());
    assert_eq!(ids(&sorted), vec!["minus zero", "zero", "1 a", "1 b", "2 a", "2 b", "2 c"]);
}

#[test]
fn sorting_nothing_and_one() {
    assert!(sort_chapters(Vec::new()).is_empty());
    let one = chapter(None, "only");
    assert_eq!(ids(&sort_chapters(vec![&one])), vec!["only"]);
}

#[test]
fn sorting_loses_and_adds_nothing() {
    let chapters: Vec<Chapter> = (0..50)
        .map(|i| {
            let number = if i % 7 == 0 { None } else { Some(((i * 37) % 11) as f32 / 2.0) };
            chapter(number, &format!("c{}", i))
        })
        .collect();
    let sorted = sort_chapters(chapters.iter().collect());
    assert_eq!(sorted.len(), 50);
    let mut seen = ids(&sorted);
    seen.sort();
    let mut all: Vec<String> = chapters.iter().map(|c| c.id().clone()).collect();
    all.sort();
    assert_eq!(seen, all);
    for pair in sorted.windows(2) {
        let (a, b) = (pair[0].chapter(), pair[1].chapter());
        match (a, b) {
            (Some(_), None) => panic!("a labelled chapter before an unlabelled one"),
            (Some(x), Some(y)) => assert!(f32::from_bits(x.to_bits()) <= f32::from_bits(y.to_bits())),
            _ => {}
        }
    }
}

#[test]
fn flatten_goes_volume_by_volume() {
    let volumes = library();
    let flat = flatten(&volume_refs(&volumes));
    assert_eq!(
        ids(&flat),
        vec!["c11", "c10.5", "extra2", "c30", "oneshot", "c2-alt", "c2", "c1", "c10"]
    );
}

#[test]
fn get_chapters_gives_all_chapters_in_download_order() {
    let volumes = library();
    let expected = vec!["extra2", "oneshot", "c1", "c2-alt", "c2", "c10", "c10.5", "c11", "c30"];
    assert_eq!(ids(&(&volumes).get_chapters()), expected);
    let refs: Vec<&Volume> = volumes.iter().collect();
    assert_eq!(ids(&refs.get_chapters()), expected);
    let some: Vec<&Volume> = vec![&volumes[2], &volumes[0]];
    assert_eq!(ids(&some.get_chapters()), vec!["extra2", "c1", "c2", "c10", "c10.5", "c11"]);
    let none: Vec<&Volume> = Vec::new();
    assert!(none.get_chapters().is_empty());
}

#[test]
fn filter_without_criteria_selects_everything() {
    let volumes = library();
    let selected = select_chapters(&volumes, &ChapterFilter::new());
    assert_eq!(
        ids(&selected),
        vec!["extra2", "oneshot", "c1", "c2-alt", "c2", "c10", "c10.5", "c11", "c30"]
    );
}

#[test]
fn volume_list_keeps_the_listed_volumes_whole() {
    let volumes = library();
    let filter = ChapterFilter::new().volumes(labels(&[2.0]));
    assert_eq!(ids(&select_chapters(&volumes, &filter)), vec!["extra2", "c10.5", "c11"]);
    let filter = ChapterFilter::new().volumes(labels(&[1.0, 2.0, 7.0]));
    assert_eq!(
        ids(&select_chapters(&volumes, &filter)),
        vec!["extra2", "c1", "c2", "c10", "c10.5", "c11"]
    );
    let filter = ChapterFilter::new().volumes(labels(&[7.0]));
    assert!(select_chapters(&volumes, &filter).is_empty());
}

#[test]
fn volume_list_comes_before_everything_else() {
    let volumes = library();
    let filter = ChapterFilter::new()
        .volumes(labels(&[1.0]))
        .chapters(labels(&[11.0]))
        .chapter_range(Some(label(100.0)), None)
        .volume_range(Some(label(2.0)), Some(label(2.0)));
    assert_eq!(ids(&select_chapters(&volumes, &filter)), vec!["c1", "c2", "c10"]);
}

#[test]
fn chapter_list_keeps_the_listed_chapters_of_all_volumes() {
    let volumes = library();
    let filter = ChapterFilter::new().chapters(labels(&[2.0, 30.0, 10.5, 4.0]));
    assert_eq!(ids(&select_chapters(&volumes, &filter)), vec!["c2-alt", "c2", "c10.5", "c30"]);
}

#[test]
fn chapter_list_beats_a_volume_range() {
    let volumes = library();
    let list_only = ChapterFilter::new().chapters(labels(&[2.0, 11.0]));
    let with_range = ChapterFilter::new()
        .chapters(labels(&[2.0, 11.0]))
        .volume_range(Some(label(1.0)), Some(label(1.0)));
    let expected = vec!["c2-alt", "c2", "c11"];
    assert_eq!(ids(&select_chapters(&volumes, &list_only)), expected);
    assert_eq!(ids(&select_chapters(&volumes, &with_range)), expected);
    let with_both = ChapterFilter::new()
        .chapters(labels(&[2.0, 11.0]))
        .chapter_range(Some(label(50.0)), Some(label(60.0)))
        .volume_range(None, Some(label(0.0)));
    assert_eq!(ids(&select_chapters(&volumes, &with_both)), expected);
}

#[test]
fn chapter_range_keeps_labelled_chapters_within_the_bounds() {
    let volumes = library();
    let filter = ChapterFilter::new().chapter_range(Some(label(2.0)), Some(label(10.5)));
    assert_eq!(ids(&select_chapters(&volumes, &filter)), vec!["c2-alt", "c2", "c10", "c10.5"]);
    let filter = ChapterFilter::new().chapter_range(Some(label(10.5)), None);
    assert_eq!(ids(&select_chapters(&volumes, &filter)), vec!["c10.5", "c11", "c30"]);
    let filter = ChapterFilter::new().chapter_range(None, Some(label(1.0)));
    assert_eq!(ids(&select_chapters(&volumes, &filter)), vec!["c1"]);
    let filter = ChapterFilter::new().chapter_range(Some(label(3.0)), Some(label(2.0)));
    assert!(select_chapters(&volumes, &filter).is_empty());
}

#[test]
fn chapter_range_never_keeps_a_chapter_without_label() {
    let volumes = library();
    let filter = ChapterFilter::new().chapter_range(None, Some(label(1000.0)));
    let selected = ids(&select_chapters(&volumes, &filter));
    assert_eq!(selected, vec!["c1", "c2-alt", "c2", "c10", "c10.5", "c11", "c30"]);
    let filter = ChapterFilter::new().chapter_range(Some(label(-1000.0)), None);
    assert_eq!(ids(&select_chapters(&volumes, &filter)), selected);
    let filter = ChapterFilter::new().chapter_range(Some(label(-1.0)), Some(label(-1.0)));
    assert!(select_chapters(&volumes, &filter).is_empty());
}

#[test]
fn chapter_range_beats_a_volume_range() {
    let volumes = library();
    let filter = ChapterFilter::new()
        .chapter_range(Some(label(10.0)), Some(label(11.0)))
        .volume_range(Some(label(1.0)), Some(label(1.0)));
    assert_eq!(ids(&select_chapters(&volumes, &filter)), vec!["c10", "c10.5", "c11"]);
}

#[test]
fn volume_range_keeps_labelled_volumes_within_the_bounds() {
    let volumes = library();
    let filter = ChapterFilter::new().volume_range(Some(label(2.0)), Some(label(3.0)));
    assert_eq!(ids(&select_chapters(&volumes, &filter)), vec!["extra2", "c10.5", "c11"]);
    let filter = ChapterFilter::new().volume_range(None, Some(label(1.5)));
    assert_eq!(ids(&select_chapters(&volumes, &filter)), vec!["c1", "c2", "c10"]);
    let filter = ChapterFilter::new().volume_range(Some(label(0.0)), None);
    assert_eq!(
        ids(&select_chapters(&volumes, &filter)),
        vec!["extra2", "c1", "c2", "c10", "c10.5", "c11"]
    );
    let filter = ChapterFilter::new().volume_range(Some(label(5.0)), Some(label(9.0)));
    assert!(select_chapters(&volumes, &filter).is_empty());
}

#[test]
fn no_volumes_no_chapters_whatever_the_filter() {
    let volumes = ResponseBody::Empty.into_volumes();
    let filters = vec![
        ChapterFilter::new(),
        ChapterFilter::new().volumes(labels(&[1.0])),
        ChapterFilter::new().chapters(labels(&[1.0])),
        ChapterFilter::new().chapter_range(None, Some(label(1.0))),
        ChapterFilter::new().volume_range(Some(label(1.0)), None),
    ];
    for filter in &filters {
        assert!(select_chapters(&volumes, filter).is_empty());
    }
}

#[test]
fn criteria_follow_the_precedence() {
    let only_volume_range = ChapterFilter::new().volume_range(Some(label(1.0)), None);
    assert!(matches!(only_volume_range.volume_criterion(), Criterion::Range(Some(_), None)));
    assert!(matches!(only_volume_range.chapter_criterion(), Criterion::All));
    let chapter_list = ChapterFilter::new()
        .chapters(labels(&[1.0]))
        .volume_range(Some(label(1.0)), None);
    assert!(matches!(chapter_list.volume_criterion(), Criterion::All));
    assert!(matches!(chapter_list.chapter_criterion(), Criterion::List(_)));
    let volume_list = ChapterFilter::new().volumes(labels(&[1.0])).chapters(labels(&[1.0]));
    assert!(matches!(volume_list.volume_criterion(), Criterion::List(_)));
    assert!(matches!(volume_list.chapter_criterion(), Criterion::All));
    let nothing = ChapterFilter::new();
    assert!(matches!(nothing.volume_criterion(), Criterion::All));
    assert!(matches!(nothing.chapter_criterion(), Criterion::All));
}

#[test]
fn criterion_accepts_by_number() {
    let list = labels(&[0.0, 2.5]);
    let criterion = Criterion::List(&list);
    assert!(criterion.accepts(&Some(label(2.5))));
    assert!(criterion.accepts(&Some(label(-0.0))));
    assert!(!criterion.accepts(&Some(label(2.0))));
    assert!(!criterion.accepts(&None));
    let criterion = Criterion::Range(Some(label(1.0)), Some(label(2.0)));
    assert!(criterion.accepts(&Some(label(1.0))));
    assert!(criterion.accepts(&Some(label(2.0))));
    assert!(!criterion.accepts(&Some(label(2.5))));
    assert!(!criterion.accepts(&Some(label(0.5))));
    assert!(!criterion.accepts(&None));
    assert!(Criterion::All.accepts(&None));
    assert!(Criterion::All.accepts(&Some(label(1.0))));
    assert!(!Criterion::Range(None, None).accepts(&None));
}

#[test]
fn keeping_keeps_the_order() {
    let volumes = library();
    let list = labels(&[1.0, 2.0]);
    let kept = keep_volumes(&volumes, &Criterion::List(&list));
    assert_eq!(kept.len(), 2);
    assert_eq!(*kept[0].count(), 3);
    assert_eq!(ids(&flatten(&kept)), vec!["c11", "c10.5", "extra2", "c2", "c1", "c10"]);
    let flat = flatten(&volume_refs(&volumes));
    let kept = keep_chapters(flat, &Criterion::Range(Some(label(10.0)), None));
    assert_eq!(ids(&kept), vec!["c11", "c10.5", "c30", "c10"]);
}

#[test]
fn leaving_out_before_or_after_sorting_gives_the_same() {
    let volumes = library();
    let list = labels(&[2.0, 10.0, 30.0]);
    let criteria = vec![
        Criterion::All,
        Criterion::List(&list),
        Criterion::Range(Some(label(2.0)), Some(label(11.0))),
        Criterion::Range(None, Some(label(2.0))),
    ];
    for criterion in &criteria {
        let flat = flatten(&volume_refs(&volumes));
        let kept_first = sort_chapters(keep_chapters(flat, criterion));
        let sorted_first = keep_chapters((&volumes).get_chapters(), criterion);
        assert_eq!(ids(&kept_first), ids(&sorted_first));
    }
}
