//! Downloading the chapters of a catalogue entry, as far as it can be decided
//! without touching the network or the disk.
//!
//! The library resolves references to entries and chapters ([`link`]), builds
//! the query for an entry's volumes and holds the answer ([`query`]), selects
//! the chapters that the caller's criteria keep ([`select`]) and puts them in
//! download order ([`sort`]), plans the pages of a chapter ([`service`]) and
//! follows a chapter download from the request to its outcome ([`download`]).
//! Whoever uses it sends the requests, writes the files and paces the
//! downloads, and reports to the library what came of it.

pub mod download;
pub mod error;
pub mod label;
pub mod link;
pub mod query;
pub mod select;
pub mod service;
pub mod sort;
pub mod text;

pub use download::{ChapterDownload, ChapterDownloader, DownloadPhase, PageStatus};
pub use error::MangadexError;
pub use label::Label;
pub use link::ParsedLink;
pub use query::{Chapter, MangaQuery, ResponseBody, Volume};
pub use select::{select_chapters, ChapterFilter, Criterion, GetChapters};
pub use service::{ChapterData, ChapterDownloadRequest, PageDownload};
