//! Chapter downloads: the request, the page manifest, and the plan that names
//! every page's address and file.

use crate::error::MangadexError;
use crate::link::{
    identifier_of, is_resolved, is_resolved_reference, parsed_link, parts_of, resolve_link,
    resolve_reference, ParsedLink,
};
use crate::text::{
    contains, contains_text, decimal_width, digit_count, lemma_digit_count_rises,
    lemma_zero_padded_injective, lemma_zero_padded_len, texts, zero_padded, zero_padded_text,
};
use vstd::prelude::*;

verus! {

/// What a [`ChapterDownloadRequest`] holds.
pub struct ChapterDownloadRequestView {
    pub id: Seq<char>,
    pub data_saver: bool,
    pub path: Seq<char>,
}

/// A request to download one chapter: which chapter, in which quality, and
/// into which directory.
#[derive(Debug)]
pub struct ChapterDownloadRequest {
    id: String,
    data_saver: bool,
    path: String,
}

impl View for ChapterDownloadRequest {
    type V = ChapterDownloadRequestView;

    closed spec fn view(&self) -> ChapterDownloadRequestView {
        ChapterDownloadRequestView { id: self.id@, data_saver: self.data_saver, path: self.path@ }
    }
}

impl ChapterDownloadRequestView {
    /// The request for the chapter `id`, in compressed quality, into the
    /// current directory.
    pub open spec fn fresh(id: Seq<char>) -> Self {
        ChapterDownloadRequestView { id, data_saver: true, path: "."@ }
    }
}

/// The result of resolving a reference to a chapter: the identifier of the
/// request that was made, or the error.
pub open spec fn request_id(made: Result<ChapterDownloadRequest, MangadexError>) -> Result<
    Seq<char>,
    MangadexError,
> {
    match made {
        Ok(request) => Ok(request@.id),
        Err(error) => Err(error),
    }
}

/// A request that was made by resolving a reference asks for the compressed
/// pages, into the current directory.
pub open spec fn is_fresh_request(made: Result<ChapterDownloadRequest, MangadexError>) -> bool {
    made matches Ok(request) ==> request@ == ChapterDownloadRequestView::fresh(request@.id)
}

impl ChapterDownloadRequest {
    /// A request for the chapter `id`, in compressed quality, into the current directory.
    pub fn new(id: &str) -> (request: Self)
        ensures
            request@ == ChapterDownloadRequestView::fresh(id@),
    {
        ChapterDownloadRequest {
            id: String::from_str(id),
            data_saver: true,
            path: String::from_str("."),
        }
    }

    /// The request for the chapter that the link `url` points to. The link
    /// has to name the expected host and to have a path that begins with
    /// `chapter` and the identifier; any other text gives the error that
    /// holds `url`.
    pub fn from_url(url: &str) -> (made: Result<Self, MangadexError>)
        ensures
            is_resolved(url@, parsed_link(url@), "chapter"@, request_id(made)),
            is_fresh_request(made),
    {
        match resolve_link(url, "chapter") {
            Ok(id) => Ok(Self::new(id.as_str())),
            Err(error) => Err(error),
        }
    }

    /// The request for the chapter that a parsed link points to; `url` is
    /// the text that was parsed.
    pub fn from_link(url: &str, link: &Option<ParsedLink>) -> (made: Result<Self, MangadexError>)
        ensures
            is_resolved(url@, parts_of(*link), "chapter"@, request_id(made)),
            is_fresh_request(made),
    {
        match identifier_of(url, link, "chapter") {
            Ok(id) => Ok(Self::new(id.as_str())),
            Err(error) => Err(error),
        }
    }

    /// The request for the chapter that `reference` stands for: an
    /// identifier as it stands, or a link to the chapter.
    pub fn resolve(reference: &str) -> (made: Result<Self, MangadexError>)
        ensures
            is_resolved_reference(reference@, "chapter"@, request_id(made)),
            is_fresh_request(made),
    {
        match resolve_reference(reference, "chapter") {
            Ok(id) => Ok(Self::new(id.as_str())),
            Err(error) => Err(error),
        }
    }

    /// The same request with the quality flag set: `true` asks for the
    /// compressed pages, `false` for the pages in full quality.
    pub fn data_saver(self, data_saver: bool) -> (request: Self)
        ensures
            request@ == (ChapterDownloadRequestView { data_saver, ..self@ }),
    {
        let mut request = self;
        request.data_saver = data_saver;
        request
    }

    /// The same request with `path` as the destination directory.
    pub fn path(self, path: &str) -> (request: Self)
        ensures
            request@ == (ChapterDownloadRequestView { path: path@, ..self@ }),
    {
        let mut request = self;
        request.path = String::from_str(path);
        request
    }

    /// The identifier of the chapter to download.
    pub fn id(&self) -> (id: &String)
        ensures
            id@ == self@.id,
    {
        &self.id
    }

    /// Whether the compressed pages are asked for.
    pub fn wants_data_saver(&self) -> (flag: bool)
        ensures
            flag == self@.data_saver,
    {
        self.data_saver
    }

    /// The directory that the pages are written to.
    pub fn destination(&self) -> (path: &String)
        ensures
            path@ == self@.path,
    {
        &self.path
    }
}

/// What a [`ChapterData`] holds.
pub struct ChapterDataView {
    pub base_url: Seq<char>,
    pub hash: Seq<char>,
    pub data: Seq<Seq<char>>,
    pub data_saver: Seq<Seq<char>>,
}

impl ChapterDataView {
    /// The page file names of the asked quality.
    pub open spec fn pages(self, data_saver: bool) -> Seq<Seq<char>> {
        if data_saver {
            self.data_saver
        } else {
            self.data
        }
    }

    /// The address of the page `index` of the asked quality.
    pub open spec fn page_url(self, data_saver: bool, index: int) -> Seq<char> {
        page_url(self.base_url, data_saver, self.hash, self.pages(data_saver)[index])
    }

    /// The file that the page `index` of the asked quality is written to.
    pub open spec fn page_file_name(self, data_saver: bool, index: int) -> Seq<char> {
        page_file_name(
            index as nat,
            digit_count(self.pages(data_saver).len()),
            self.pages(data_saver)[index],
        )
    }
}

/// The page manifest of one chapter: where its pages are served from, and the
/// file names of the pages in full and in compressed quality.
#[derive(Debug)]
pub struct ChapterData {
    base_url: String,
    hash: String,
    data: Vec<String>,
    data_saver: Vec<String>,
}

impl View for ChapterData {
    type V = ChapterDataView;

    closed spec fn view(&self) -> ChapterDataView {
        ChapterDataView {
            base_url: self.base_url@,
            hash: self.hash@,
            data: texts(self.data@),
            data_saver: texts(self.data_saver@),
        }
    }
}

/// The address that the page manifest of the chapter `id` is fetched from.
pub open spec fn manifest_url(id: Seq<char>) -> Seq<char> {
    "https://api.mangadex.org/at-home/server/"@ + id
}

/// The path segment that selects the quality.
pub open spec fn quality_segment(data_saver: bool) -> Seq<char> {
    if data_saver {
        "data-saver"@
    } else {
        "data"@
    }
}

/// The address of a page: base address, quality segment, content hash and
/// file name, joined by slashes.
pub open spec fn page_url(
    base_url: Seq<char>,
    data_saver: bool,
    hash: Seq<char>,
    file_name: Seq<char>,
) -> Seq<char> {
    base_url + "/"@ + quality_segment(data_saver) + "/"@ + hash + "/"@ + file_name
}

/// The extension of the file that a page is written to: `.png` where the
/// page's own name holds `.png`, else `.jpg`.
pub open spec fn page_extension(file_name: Seq<char>) -> Seq<char> {
    if contains_text(file_name, ".png"@) {
        ".png"@
    } else {
        ".jpg"@
    }
}

/// The name of the file that the page at `index` is written to: `page_`, the
/// index padded with zeros to `width` digits, and the extension.
pub open spec fn page_file_name(index: nat, width: nat, file_name: Seq<char>) -> Seq<char> {
    "page_"@ + zero_padded(index, width) + page_extension(file_name)
}

/// What a [`PageDownload`] holds.
pub struct PageDownloadView {
    pub url: Seq<char>,
    pub file_name: Seq<char>,
}

/// One page to fetch: its address, and the name of the file in the
/// destination directory that its bytes go to.
#[derive(Debug)]
pub struct PageDownload {
    url: String,
    file_name: String,
}

impl View for PageDownload {
    type V = PageDownloadView;

    closed spec fn view(&self) -> PageDownloadView {
        PageDownloadView { url: self.url@, file_name: self.file_name@ }
    }
}

impl PageDownload {
    /// The address that the page is fetched from.
    pub fn url(&self) -> (url: &String)
        ensures
            url@ == self@.url,
    {
        &self.url
    }

    /// The name of the file that the page is written to.
    pub fn file_name(&self) -> (file_name: &String)
        ensures
            file_name@ == self@.file_name,
    {
        &self.file_name
    }
}

/// The pages to fetch for a manifest in the asked quality, in page order.
pub open spec fn page_plan(chapter: ChapterDataView, data_saver: bool) -> Seq<PageDownloadView> {
    Seq::new(
        chapter.pages(data_saver).len(),
        |index: int|
            PageDownloadView {
                url: chapter.page_url(data_saver, index),
                file_name: chapter.page_file_name(data_saver, index),
            },
    )
}

/// No two pages of a plan go to the same file.
pub proof fn lemma_page_files_distinct(chapter: ChapterDataView, data_saver: bool, i: int, j: int)
    requires
        0 <= i < j < chapter.pages(data_saver).len(),
    ensures
        page_plan(chapter, data_saver)[i].file_name != page_plan(chapter, data_saver)[j].file_name,
{
    let pages = chapter.pages(data_saver);
    let width = digit_count(pages.len());
    let first = page_file_name(i as nat, width, pages[i]);
    let second = page_file_name(j as nat, width, pages[j]);
    reveal_strlit("page_");
    reveal_strlit(".png");
    reveal_strlit(".jpg");
    lemma_digit_count_rises(i as nat, pages.len());
    lemma_digit_count_rises(j as nat, pages.len());
    lemma_zero_padded_len(i as nat, width);
    lemma_zero_padded_len(j as nat, width);
    if first == second {
        assert(first.subrange(5, 5 + width as int) =~= zero_padded(i as nat, width));
        assert(second.subrange(5, 5 + width as int) =~= zero_padded(j as nat, width));
        lemma_zero_padded_injective(i as nat, j as nat, width);
    }
}

/// The views of a list of pages, one for one.
pub open spec fn page_views(pages: Seq<PageDownload>) -> Seq<PageDownloadView> {
    pages.map_values(|page: PageDownload| page@)
}

impl ChapterData {
    /// A manifest from its parts.
    pub fn from_parts(
        base_url: String,
        hash: String,
        data: Vec<String>,
        data_saver: Vec<String>,
    ) -> (chapter: Self)
        ensures
            chapter@ == (ChapterDataView {
                base_url: base_url@,
                hash: hash@,
                data: texts(data@),
                data_saver: texts(data_saver@),
            }),
    {
        ChapterData { base_url, hash, data, data_saver }
    }

    /// The address that the page manifest of the chapter `id` is fetched from.
    pub fn endpoint(id: &str) -> (url: String)
        ensures
            url@ == manifest_url(id@),
    {
        let mut url = String::from_str("https://api.mangadex.org/at-home/server/");
        url.append(id);
        url
    }

    /// The page file names of the asked quality.
    pub fn pages(&self, data_saver: bool) -> (pages: &Vec<String>)
        ensures
            texts(pages@) == self@.pages(data_saver),
    {
        if data_saver {
            &self.data_saver
        } else {
            &self.data
        }
    }

    /// The address of the page `index` of the asked quality, if there is
    /// such a page.
    pub fn page_url(&self, data_saver: bool, index: usize) -> (url: Option<String>)
        ensures
            url is Some <==> index < self@.pages(data_saver).len(),
            url matches Some(text) ==> text@ == self@.page_url(data_saver, index as int),
    {
        let pages = self.pages(data_saver);
        if index >= pages.len() {
            return None;
        }
        assert(texts(pages@)[index as int] == pages@[index as int]@);
        Some(
            page_url_text(
                self.base_url.as_str(),
                data_saver,
                self.hash.as_str(),
                pages[index].as_str(),
            ),
        )
    }

    /// The pages to fetch in the asked quality, in page order: each with its
    /// address and with the file it goes to. The files are numbered from
    /// zero, with as many digits as the number of pages has.
    pub fn plan(&self, data_saver: bool) -> (plan: Vec<PageDownload>)
        ensures
            page_views(plan@) == page_plan(self@, data_saver),
    {
        let pages = self.pages(data_saver);
        let width = decimal_width(pages.len());
        let mut plan: Vec<PageDownload> = Vec::new();
        let mut index: usize = 0;
        while index < pages.len()
            invariant
                index <= pages.len(),
                texts(pages@) == self@.pages(data_saver),
                width == digit_count(pages.len() as nat),
                plan.len() == index,
                forall|i: int|
                    0 <= i < index ==> (#[trigger] plan@[i])@ == page_plan(self@, data_saver)[i],
            decreases pages.len() - index,
        {
            assert(texts(pages@)[index as int] == pages@[index as int]@);
            let url = page_url_text(
                self.base_url.as_str(),
                data_saver,
                self.hash.as_str(),
                pages[index].as_str(),
            );
            let file_name = page_file_name_text(index, width, pages[index].as_str());
            plan.push(PageDownload { url, file_name });
            index = index + 1;
        }
        assert(page_views(plan@) =~= page_plan(self@, data_saver));
        plan
    }
}

/// The address of a page: base address, quality segment, content hash and
/// file name, joined by slashes.
pub fn page_url_text(base_url: &str, data_saver: bool, hash: &str, file_name: &str) -> (url: String)
    ensures
        url@ == page_url(base_url@, data_saver, hash@, file_name@),
{
    let mut url = String::from_str(base_url);
    url.append("/");
    if data_saver {
        url.append("data-saver");
    } else {
        url.append("data");
    }
    url.append("/");
    url.append(hash);
    url.append("/");
    url.append(file_name);
    url
}

/// The name of the file that the page at `index` is written to: `page_`, the
/// index padded with zeros to `width` digits, and `.png` or `.jpg`.
pub fn page_file_name_text(index: usize, width: usize, file_name: &str) -> (name: String)
    ensures
        name@ == page_file_name(index as nat, width as nat, file_name@),
{
    let mut name = String::from_str("page_");
    let number = zero_padded_text(index, width);
    name.append(number.as_str());
    if contains(file_name, ".png") {
        name.append(".png");
    } else {
        name.append(".jpg");
    }
    name
}

} // verus!
