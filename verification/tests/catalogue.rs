use mangadex::{Chapter, Label, MangaQuery, ResponseBody, Volume};

fn label(number: f32) -> Option<Label> {
    Label::from_bits(number.to_bits())
}

fn chapter(number: Option<f32>, id: &str) -> Chapter {
    Chapter::new(number.and_then(label), id.to_string(), 1, Vec::new())
}

#[test]
fn new_query_is_not_narrowed() {
    let query = MangaQuery::new("d7037b2a-874a-4360-8a7b-07f2899152fd");
    assert_eq!(query.id().as_str(), "d7037b2a-874a-4360-8a7b-07f2899152fd");
    assert!(query.pairs().is_empty());
}

#[test]
fn query_address_holds_the_identifier() {
    let query = MangaQuery::new("d7037b2a-874a-4360-8a7b-07f2899152fd");
    assert_eq!(
        query.url(),
        "https://api.mangadex.org/manga/d7037b2a-874a-4360-8a7b-07f2899152fd/aggregate"
    );
    assert_eq!(MangaQuery::new("").url(), "https://api.mangadex.org/manga//aggregate");
}

#[test]
fn query_parameters_repeat_groups_then_languages() {
    let query = MangaQuery::new("x")
        .language("fr")
        .group("g1")
        .language("en")
        .group("g2");
    let pairs = query.pairs();
    let expected = vec![
        ("group[]".to_string(), "g1".to_string()),
        ("group[]".to_string(), "g2".to_string()),
        ("translatedLanguage[]".to_string(), "fr".to_string()),
        ("translatedLanguage[]".to_string(), "en".to_string()),
    ];
    assert_eq!(pairs, expected);
}

#[test]
fn query_with_one_language() {
    let query = MangaQuery::new("d7037b2a-874a-4360-8a7b-07f2899152fd").language("xxx");
    assert_eq!(
        query.pairs(),
        vec![("translatedLanguage[]".to_string(), "xxx".to_string())]
    );
}

#[test]
fn chapter_holds_its_parts() {
    let made = Chapter::new(label(12.5), "abc".to_string(), 3, vec!["o1".to_string(), "o2".to_string()]);
    assert_eq!(made.chapter().map(|l| f32::from_bits(l.to_bits())), Some(12.5));
    assert_eq!(made.id().as_str(), "abc");
    assert_eq!(*made.count(), 3);
    assert_eq!(made.others(), &vec!["o1".to_string(), "o2".to_string()]);
    let bare = Chapter::new(None, "none".to_string(), 0, Vec::new());
    assert!(bare.chapter().is_none());
}

#[test]
fn volume_holds_each_key_once() {
    let volume = Volume::new(label(2.0), 7)
        .with_chapter("1".to_string(), chapter(Some(1.0), "first"))
        .with_chapter("2".to_string(), chapter(Some(2.0), "second"))
        .with_chapter("1".to_string(), chapter(Some(1.0), "first again"))
        .with_chapter("none".to_string(), chapter(None, "third"));
    assert_eq!(volume.volume().map(|l| f32::from_bits(l.to_bits())), Some(2.0));
    assert_eq!(*volume.count(), 7);
    let entries: Vec<(&str, &str)> = volume
        .chapters()
        .iter()
        .map(|(key, chapter)| (key.as_str(), chapter.id().as_str()))
        .collect();
    assert_eq!(entries, vec![("1", "first again"), ("2", "second"), ("none", "third")]);
}

#[test]
fn volume_without_chapters() {
    let volume = Volume::new(None, 0);
    assert!(volume.volume().is_none());
    assert!(volume.chapters().is_empty());
}

#[test]
fn empty_marker_holds_no_volumes() {
    assert!(ResponseBody::Empty.into_volumes().is_empty());
}

#[test]
fn populated_answer_hands_its_volumes_on() {
    let volumes = vec![Volume::new(label(1.0), 1), Volume::new(None, 2)];
    let handed = ResponseBody::NonEmpty { volumes }.into_volumes();
    assert_eq!(handed.len(), 2);
    assert_eq!(*handed[0].count(), 1);
    assert_eq!(*handed[1].count(), 2);
}
