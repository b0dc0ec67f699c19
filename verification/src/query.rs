//! The catalogue: the query for one entry's volumes and chapters, and the
//! volumes and chapters that the answer holds.

use crate::error::MangadexError;
use crate::label::{rank, Label};
use crate::link::{
    identifier_of, is_resolved, is_resolved_reference, parsed_link, parts_of, resolve_link,
    resolve_reference, ParsedLink,
};
use crate::text::texts;
use vstd::prelude::*;

verus! {

/// What a [`MangaQuery`] holds.
pub struct MangaQueryView {
    pub id: Seq<char>,
    pub groups: Seq<Seq<char>>,
    pub translated_language: Seq<Seq<char>>,
}

/// The query for the volumes and chapters of one catalogue entry, with the
/// groups and languages that the answer is narrowed to.
#[derive(Debug)]
pub struct MangaQuery {
    id: String,
    groups: Vec<String>,
    translated_language: Vec<String>,
}

impl View for MangaQuery {
    type V = MangaQueryView;

    closed spec fn view(&self) -> MangaQueryView {
        MangaQueryView {
            id: self.id@,
            groups: texts(self.groups@),
            translated_language: texts(self.translated_language@),
        }
    }
}

impl MangaQueryView {
    /// The query for the entry `id`, not narrowed.
    pub open spec fn fresh(id: Seq<char>) -> Self {
        MangaQueryView { id, groups: Seq::empty(), translated_language: Seq::empty() }
    }
}

/// The result of resolving a reference to a catalogue entry: the identifier
/// of the query that was made, or the error.
pub open spec fn query_id(made: Result<MangaQuery, MangadexError>) -> Result<
    Seq<char>,
    MangadexError,
> {
    match made {
        Ok(query) => Ok(query@.id),
        Err(error) => Err(error),
    }
}

/// A query that was made by resolving a reference is not narrowed.
pub open spec fn is_fresh_query(made: Result<MangaQuery, MangadexError>) -> bool {
    made matches Ok(query) ==> query@ == MangaQueryView::fresh(query@.id)
}

/// The address that a query for the entry `id` is sent to.
pub open spec fn aggregate_url(id: Seq<char>) -> Seq<char> {
    "https://api.mangadex.org/manga/"@ + id + "/aggregate"@
}

/// The parameters of a query: one `group[]` for each group, then one
/// `translatedLanguage[]` for each language, each list in its own order.
pub open spec fn query_pairs(query: MangaQueryView) -> Seq<(Seq<char>, Seq<char>)> {
    query.groups.map_values(|group: Seq<char>| ("group[]"@, group))
        + query.translated_language.map_values(
        |language: Seq<char>| ("translatedLanguage[]"@, language),
    )
}

/// The views of a list of parameters, one for one.
pub open spec fn pair_views(pairs: Seq<(String, String)>) -> Seq<(Seq<char>, Seq<char>)> {
    pairs.map_values(|pair: (String, String)| (pair.0@, pair.1@))
}

impl MangaQuery {
    /// The query for the entry `id`, not narrowed.
    pub fn new(id: &str) -> (query: Self)
        ensures
            query@ == MangaQueryView::fresh(id@),
    {
        let query = MangaQuery {
            id: String::from_str(id),
            groups: Vec::new(),
            translated_language: Vec::new(),
        };
        assert(texts(query.groups@) =~= Seq::empty());
        assert(texts(query.translated_language@) =~= Seq::empty());
        query
    }

    /// The query for the entry that the link `url` points to. The link has
    /// to name the expected host and to have a path that begins with `title`
    /// and the identifier; any other text gives the error that holds `url`.
    pub fn from_url(url: &str) -> (made: Result<Self, MangadexError>)
        ensures
            is_resolved(url@, parsed_link(url@), "title"@, query_id(made)),
            is_fresh_query(made),
    {
        match resolve_link(url, "title") {
            Ok(id) => Ok(Self::new(id.as_str())),
            Err(error) => Err(error),
        }
    }

    /// The query for the entry that a parsed link points to; `url` is the
    /// text that was parsed.
    pub fn from_link(url: &str, link: &Option<ParsedLink>) -> (made: Result<Self, MangadexError>)
        ensures
            is_resolved(url@, parts_of(*link), "title"@, query_id(made)),
            is_fresh_query(made),
    {
        match identifier_of(url, link, "title") {
            Ok(id) => Ok(Self::new(id.as_str())),
            Err(error) => Err(error),
        }
    }

    /// The query for the entry that `reference` stands for: an identifier as
    /// it stands, or a link to the entry.
    pub fn resolve(reference: &str) -> (made: Result<Self, MangadexError>)
        ensures
            is_resolved_reference(reference@, "title"@, query_id(made)),
            is_fresh_query(made),
    {
        match resolve_reference(reference, "title") {
            Ok(id) => Ok(Self::new(id.as_str())),
            Err(error) => Err(error),
        }
    }

    /// The same query, narrowed to one more group.
    pub fn group(self, group: &str) -> (query: Self)
        ensures
            query@ == (MangaQueryView { groups: self@.groups.push(group@), ..self@ }),
    {
        let mut query = self;
        query.groups.push(String::from_str(group));
        assert(texts(query.groups@) =~= texts(self.groups@).push(group@));
        query
    }

    /// The same query, narrowed to one more language.
    pub fn language(self, language: &str) -> (query: Self)
        ensures
            query@ == (MangaQueryView {
                translated_language: self@.translated_language.push(language@),
                ..self@
            }),
    {
        let mut query = self;
        query.translated_language.push(String::from_str(language));
        assert(texts(query.translated_language@) =~= texts(self.translated_language@).push(
            language@,
        ));
        query
    }

    /// The identifier of the entry.
    pub fn id(&self) -> (id: &String)
        ensures
            id@ == self@.id,
    {
        &self.id
    }

    /// The address that the query is sent to.
    pub fn url(&self) -> (url: String)
        ensures
            url@ == aggregate_url(self@.id),
    {
        let mut url = String::from_str("https://api.mangadex.org/manga/");
        url.append(self.id.as_str());
        url.append("/aggregate");
        url
    }

    /// The parameters that the query is sent with.
    pub fn pairs(&self) -> (pairs: Vec<(String, String)>)
        ensures
            pair_views(pairs@) == query_pairs(self@),
    {
        let mut pairs: Vec<(String, String)> = Vec::new();
        let mut index: usize = 0;
        while index < self.groups.len()
            invariant
                index <= self.groups.len(),
                pairs.len() == index,
                forall|i: int|
                    0 <= i < index ==> (#[trigger] pairs@[i]).0@ == "group[]"@ && pairs@[i].1@
                        == self.groups@[i]@,
            decreases self.groups.len() - index,
        {
            pairs.push((String::from_str("group[]"), self.groups[index].clone()));
            index = index + 1;
        }
        let mut index: usize = 0;
        while index < self.translated_language.len()
            invariant
                index <= self.translated_language.len(),
                pairs.len() == self.groups.len() + index,
                forall|i: int|
                    0 <= i < self.groups.len() ==> (#[trigger] pairs@[i]).0@ == "group[]"@
                        && pairs@[i].1@ == self.groups@[i]@,
                forall|j: int|
                    self.groups.len() <= j < pairs.len() ==> (#[trigger] pairs@[j]).0@
                        == "translatedLanguage[]"@ && pairs@[j].1@
                        == self.translated_language@[j - self.groups.len()]@,
            decreases self.translated_language.len() - index,
        {
            pairs.push(
                (String::from_str("translatedLanguage[]"), self.translated_language[index].clone()),
            );
            index = index + 1;
        }
        assert forall|j: int| 0 <= j < pairs.len() implies pair_views(pairs@)[j] == query_pairs(
            self@,
        )[j] by {
            let pair = pairs@[j];
            if j < self.groups.len() {
                assert(texts(self.groups@)[j] == self.groups@[j]@);
            } else {
                let k = j - self.groups.len();
                assert(texts(self.translated_language@)[k] == self.translated_language@[k]@);
            }
        }
        assert(pair_views(pairs@) =~= query_pairs(self@));
        pairs
    }
}

/// What a [`Chapter`] holds; the label by its key.
pub struct ChapterView {
    pub chapter: Option<int>,
    pub id: Seq<char>,
    pub count: nat,
    pub others: Seq<Seq<char>>,
}

/// One chapter of a catalogue entry: its numeric label, if it has one, the
/// identifier under which its pages are found, and its other variants.
#[derive(Debug)]
pub struct Chapter {
    chapter: Option<Label>,
    id: String,
    count: usize,
    others: Vec<String>,
}

/// The key of an optional label.
pub open spec fn key_of(label: Option<Label>) -> Option<int> {
    match label {
        Some(l) => Some(l@),
        None => None,
    }
}

impl View for Chapter {
    type V = ChapterView;

    closed spec fn view(&self) -> ChapterView {
        ChapterView {
            chapter: key_of(self.chapter),
            id: self.id@,
            count: self.count as nat,
            others: texts(self.others@),
        }
    }
}

impl Chapter {
    /// The chapter's label.
    pub closed spec fn label(self) -> Option<Label> {
        self.chapter
    }

    /// The rank by which the chapter is ordered: that of its label.
    pub open spec fn rank(self) -> int {
        rank(self.label())
    }

    /// A chapter from its parts.
    pub fn new(
        chapter: Option<Label>,
        id: String,
        count: usize,
        others: Vec<String>,
    ) -> (made: Self)
        ensures
            made.label() == chapter,
            made@ == (ChapterView {
                chapter: key_of(chapter),
                id: id@,
                count: count as nat,
                others: texts(others@),
            }),
    {
        Chapter { chapter, id, count, others }
    }

    /// The numeric label, if the chapter has one.
    pub fn chapter(&self) -> (label: &Option<Label>)
        ensures
            *label == self.label(),
            key_of(*label) == self@.chapter,
    {
        &self.chapter
    }

    /// The identifier under which the chapter's pages are found.
    pub fn id(&self) -> (id: &String)
        ensures
            id@ == self@.id,
    {
        &self.id
    }

    /// The number of variants of the chapter.
    pub fn count(&self) -> (count: &usize)
        ensures
            *count == self@.count,
    {
        &self.count
    }

    /// The identifiers of the chapter's other variants.
    pub fn others(&self) -> (others: &Vec<String>)
        ensures
            texts(others@) == self@.others,
    {
        &self.others
    }
}

/// The index of the first entry with the key `key`, if there is one.
pub open spec fn position_of(entries: Seq<(String, Chapter)>, key: Seq<char>) -> Option<int> {
    if exists|i: int| 0 <= i < entries.len() && (#[trigger] entries[i]).0@ == key {
        Some(choose|i: int| 0 <= i < entries.len() && (#[trigger] entries[i]).0@ == key)
    } else {
        None
    }
}

/// No two entries have the same key.
pub open spec fn keys_distinct(entries: Seq<(String, Chapter)>) -> bool {
    forall|i: int, j: int|
        0 <= i < j < entries.len() ==> (#[trigger] entries[i]).0@ != (#[trigger] entries[j]).0@
}

/// The mapping that a list of entries with distinct keys stands for.
pub open spec fn entry_map(entries: Seq<(String, Chapter)>) -> Map<Seq<char>, Chapter> {
    Map::new(
        |key: Seq<char>| position_of(entries, key) is Some,
        |key: Seq<char>| entries[position_of(entries, key).unwrap()].1,
    )
}

/// What a [`Volume`] holds; the label by its key.
pub struct VolumeView {
    pub volume: Option<int>,
    pub count: nat,
    pub chapters: Map<Seq<char>, Chapter>,
}

/// One volume of a catalogue entry: its numeric label, if it has one, and
/// its chapters, each under a key of its own.
#[derive(Debug)]
pub struct Volume {
    volume: Option<Label>,
    count: usize,
    chapters: Vec<(String, Chapter)>,
}

impl View for Volume {
    type V = VolumeView;

    closed spec fn view(&self) -> VolumeView {
        VolumeView {
            volume: key_of(self.volume),
            count: self.count as nat,
            chapters: entry_map(self.chapters@),
        }
    }
}

impl Volume {
    #[verifier::type_invariant]
    spec fn distinct(self) -> bool {
        keys_distinct(self.chapters@)
    }

    /// The volume's label.
    pub closed spec fn label(self) -> Option<Label> {
        self.volume
    }

    /// The volume's entries, in the order in which their keys first came.
    pub closed spec fn entries(self) -> Seq<(String, Chapter)> {
        self.chapters@
    }

    /// The volume's chapters, in the order of its entries.
    pub open spec fn chapter_seq(self) -> Seq<Chapter> {
        self.entries().map_values(|entry: (String, Chapter)| entry.1)
    }

    /// A volume without chapters.
    pub fn new(volume: Option<Label>, count: usize) -> (made: Self)
        ensures
            made.label() == volume,
            made.entries() == Seq::<(String, Chapter)>::empty(),
            made@ == (VolumeView {
                volume: key_of(volume),
                count: count as nat,
                chapters: Map::empty(),
            }),
    {
        let made = Volume { volume, count, chapters: Vec::new() };
        assert(entry_map(made.chapters@) =~= Map::empty());
        made
    }

    /// The same volume with `chapter` under `key`. A chapter that stood
    /// under that key gives way and the entry keeps its place; a new key
    /// comes last.
    pub fn with_chapter(self, key: String, chapter: Chapter) -> (made: Self)
        ensures
            made.label() == self.label(),
            made@ == (VolumeView { chapters: self@.chapters.insert(key@, chapter), ..self@ }),
            keys_distinct(made.entries()),
            match position_of(self.entries(), key@) {
                Some(at) => made.entries() == self.entries().update(at, (key, chapter)),
                None => made.entries() == self.entries().push((key, chapter)),
            },
    {
        proof {
            use_type_invariant(&self);
        }
        let ghost before = self.chapters@;
        let mut chapters = self.chapters;
        let mut at: usize = 0;
        let mut found = false;
        while !found && at < chapters.len()
            invariant
                chapters@ == before,
                at <= chapters.len(),
                found ==> at < chapters.len() && before[at as int].0@ == key@,
                forall|i: int| 0 <= i < at ==> (#[trigger] before[i]).0@ != key@,
            decreases chapters.len() - at + (if found { 0int } else { 1int }),
        {
            if chapters[at].0 == key {
                found = true;
            } else {
                at = at + 1;
            }
        }
        if found {
            proof {
                lemma_position(before, key@, at as int);
            }
            chapters.set(at, (key, chapter));
        } else {
            assert(position_of(before, key@) is None);
            chapters.push((key, chapter));
        }
        proof {
            lemma_entry_map_insert(before, chapters@, key, chapter);
        }
        Volume { volume: self.volume, count: self.count, chapters }
    }

    /// The numeric label, if the volume has one.
    pub fn volume(&self) -> (label: &Option<Label>)
        ensures
            *label == self.label(),
            key_of(*label) == self@.volume,
    {
        &self.volume
    }

    /// The number of chapters that the catalogue counts in the volume.
    pub fn count(&self) -> (count: &usize)
        ensures
            *count == self@.count,
    {
        &self.count
    }

    /// The volume's entries: each chapter with its key. No key occurs twice.
    pub fn chapters(&self) -> (chapters: &Vec<(String, Chapter)>)
        ensures
            chapters@ == self.entries(),
            keys_distinct(chapters@),
            entry_map(chapters@) == self@.chapters,
    {
        proof {
            use_type_invariant(self);
        }
        &self.chapters
    }
}

/// The answer to a query, in one of its two shapes.
#[derive(Debug)]
pub enum ResponseBody {
    /// The marker that the entry has no volumes.
    Empty,
    /// The volumes of the entry, in no order that means anything.
    NonEmpty { volumes: Vec<Volume> },
}

impl ResponseBody {
    /// The volumes that the answer holds: none under the marker.
    pub open spec fn volumes(self) -> Seq<Volume> {
        match self {
            ResponseBody::Empty => Seq::empty(),
            ResponseBody::NonEmpty { volumes } => volumes@,
        }
    }

    /// The volumes that the answer holds: none under the marker.
    pub fn into_volumes(self) -> (volumes: Vec<Volume>)
        ensures
            volumes@ == self.volumes(),
    {
        match self {
            ResponseBody::Empty => Vec::new(),
            ResponseBody::NonEmpty { volumes } => volumes,
        }
    }
}

/// In a list with distinct keys, the position of a key is the index of the
/// entry that has it.
pub proof fn lemma_position(entries: Seq<(String, Chapter)>, key: Seq<char>, at: int)
    requires
        keys_distinct(entries),
        0 <= at < entries.len(),
        entries[at].0@ == key,
    ensures
        position_of(entries, key) == Some(at),
{
    let found = position_of(entries, key).unwrap();
    if found < at {
        assert(entries[found].0@ != entries[at].0@);
    } else if at < found {
        assert(entries[at].0@ != entries[found].0@);
    }
}

/// Putting an entry in the place of the one with its key, or at the end where
/// no entry has its key, keeps the keys distinct and inserts into the mapping.
pub proof fn lemma_entry_map_insert(
    before: Seq<(String, Chapter)>,
    after: Seq<(String, Chapter)>,
    key: String,
    chapter: Chapter,
)
    requires
        keys_distinct(before),
        match position_of(before, key@) {
            Some(at) => after == before.update(at, (key, chapter)),
            None => after == before.push((key, chapter)),
        },
    ensures
        keys_distinct(after),
        entry_map(after) == entry_map(before).insert(key@, chapter),
{
    let place = match position_of(before, key@) {
        Some(at) => at,
        None => before.len() as int,
    };
    assert(0 <= place < after.len());
    assert(after[place] == (key, chapter));
    assert forall|i: int| 0 <= i < after.len() && i != place implies after[i] == before[i]
        && (#[trigger] after[i]).0@ != key@ by {
        if position_of(before, key@) is Some {
            if i < place {
                assert(before[i].0@ != before[place].0@);
            } else {
                assert(before[place].0@ != before[i].0@);
            }
        }
    }
    assert forall|i: int, j: int| 0 <= i < j < after.len() implies (#[trigger] after[i]).0@ != (
    #[trigger] after[j]).0@ by {
        if i != place && j != place {
            assert(before[i].0@ != before[j].0@);
        }
    }
    lemma_position(after, key@, place);
    assert forall|k: Seq<char>| #[trigger]
        entry_map(after).dom().contains(k) == entry_map(before).insert(key@, chapter).dom().contains(k)
        && (entry_map(after).dom().contains(k) ==> entry_map(after)[k] == entry_map(before).insert(
        key@,
        chapter,
    )[k]) by {
        if k != key@ {
            if position_of(before, k) is Some {
                let i = position_of(before, k).unwrap();
                assert(i != place);
                assert(after[i].0@ == k);
                lemma_position(after, k, i);
            }
            if position_of(after, k) is Some {
                let i = position_of(after, k).unwrap();
                assert(i != place);
                assert(before[i].0@ == k);
                lemma_position(before, k, i);
            }
        }
    }
    assert(entry_map(after) =~= entry_map(before).insert(key@, chapter));
}

} // verus!
