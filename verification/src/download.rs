//! The course of one chapter download, as a state machine.
//!
//! The library decides, the caller acts: the caller fetches the manifest,
//! creates the directory and fetches the pages, all at once, and reports
//! what came of each; the state says what is due next and, at the end, how
//! the download went.

use crate::error::MangadexError;
use crate::service::{
    manifest_url, page_plan, page_views, ChapterData, ChapterDataView, ChapterDownloadRequest,
    ChapterDownloadRequestView, PageDownload, PageDownloadView,
};
use vstd::prelude::*;

verus! {

/// Where a chapter download stands.
#[derive(Clone, Copy, Debug, PartialEq, Eq, Structural)]
pub enum DownloadPhase {
    /// Nothing has been done yet; the manifest is to be fetched.
    Pending,
    /// The manifest is here and the pages are planned; the destination
    /// directory is to be created.
    ManifestFetched,
    /// All pages have been started; some have not reported yet.
    PagesInFlight,
    /// Every page was written.
    Succeeded,
    /// The download failed. Nothing more is done for it.
    Failed,
}

/// What is known of one page while the pages are in flight.
#[derive(Clone, Copy, Debug, PartialEq, Eq, Structural)]
pub enum PageStatus {
    /// The page was started and has not reported.
    InFlight,
    /// The page was fetched and written.
    Written,
    /// Fetching or writing the page failed.
    Failed,
}

/// The status that a page's report leaves.
pub open spec fn status_of(result: Result<(), MangadexError>) -> PageStatus {
    match result {
        Ok(_) => PageStatus::Written,
        Err(_) => PageStatus::Failed,
    }
}

/// What a [`ChapterDownload`] holds.
pub struct ChapterDownloadView {
    pub request: ChapterDownloadRequestView,
    pub phase: DownloadPhase,
    /// The planned pages, in page order; empty until the manifest is here.
    pub pages: Seq<PageDownloadView>,
    /// One status for each page once the pages are in flight; empty before.
    pub statuses: Seq<PageStatus>,
    /// The error that the download reports, if it has one so far.
    pub failure: Option<MangadexError>,
    /// The page whose error `failure` is; none for an error of the manifest
    /// or of the directory.
    pub failed_page: Option<int>,
}

impl ChapterDownloadView {
    /// The download is over.
    pub open spec fn is_over(self) -> bool {
        self.phase == DownloadPhase::Succeeded || self.phase == DownloadPhase::Failed
    }

    /// Every page has reported.
    pub open spec fn all_reported(self) -> bool {
        forall|i: int| 0 <= i < self.statuses.len() ==> self.statuses[i] != PageStatus::InFlight
    }

    /// The page `index` is the first one, in page order, that failed.
    pub open spec fn is_first_failed(self, index: int) -> bool {
        &&& 0 <= index < self.statuses.len()
        &&& self.statuses[index] == PageStatus::Failed
        &&& forall|j: int| 0 <= j < index ==> self.statuses[j] != PageStatus::Failed
    }

    /// No page has failed.
    pub open spec fn none_failed(self) -> bool {
        forall|i: int| 0 <= i < self.statuses.len() ==> self.statuses[i] != PageStatus::Failed
    }

    /// What holds of every state that a download can reach.
    pub open spec fn wf(self) -> bool {
        &&& self.failure is Some <==> (self.failed_page is Some || self.phase
            == DownloadPhase::Failed)
        &&& match self.failed_page {
            Some(index) => self.is_first_failed(index),
            None => self.none_failed(),
        }
        &&& match self.phase {
            DownloadPhase::Pending => self.pages.len() == 0 && self.statuses.len() == 0,
            DownloadPhase::ManifestFetched => self.statuses.len() == 0,
            DownloadPhase::PagesInFlight => {
                &&& self.statuses.len() == self.pages.len()
                &&& !self.all_reported()
            },
            DownloadPhase::Succeeded => {
                &&& self.statuses.len() == self.pages.len()
                &&& self.all_reported()
                &&& self.failed_page is None
            },
            DownloadPhase::Failed => {
                ||| self.statuses.len() == 0
                ||| (self.statuses.len() == self.pages.len() && self.all_reported()
                    && self.failed_page is Some)
            },
        }
    }

    /// The state of a download that has just been asked for.
    pub open spec fn start(request: ChapterDownloadRequestView) -> Self {
        ChapterDownloadView {
            request,
            phase: DownloadPhase::Pending,
            pages: Seq::empty(),
            statuses: Seq::empty(),
            failure: None,
            failed_page: None,
        }
    }

    /// The state after the manifest arrived, or could not be had. A manifest
    /// plans the pages in the quality that the request asks for; an error
    /// ends the download before any page is planned. In any phase but
    /// `Pending` the report is ignored.
    pub open spec fn after_manifest(
        self,
        manifest: Result<ChapterDataView, MangadexError>,
    ) -> Self {
        if self.phase != DownloadPhase::Pending {
            self
        } else {
            match manifest {
                Ok(chapter) => ChapterDownloadView {
                    phase: DownloadPhase::ManifestFetched,
                    pages: page_plan(chapter, self.request.data_saver),
                    ..self
                },
                Err(error) => ChapterDownloadView {
                    phase: DownloadPhase::Failed,
                    failure: Some(error),
                    ..self
                },
            }
        }
    }

    /// The state after the destination directory was created, or could not
    /// be. With the directory there, all pages are in flight at once (and a
    /// chapter without pages is done); an error ends the download. In any
    /// phase but `ManifestFetched` the report is ignored.
    pub open spec fn after_directory(self, created: Result<(), MangadexError>) -> Self {
        if self.phase != DownloadPhase::ManifestFetched {
            self
        } else {
            match created {
                Ok(_) => if self.pages.len() == 0 {
                    ChapterDownloadView { phase: DownloadPhase::Succeeded, ..self }
                } else {
                    ChapterDownloadView {
                        phase: DownloadPhase::PagesInFlight,
                        statuses: Seq::new(self.pages.len(), |i: int| PageStatus::InFlight),
                        ..self
                    }
                },
                Err(error) => ChapterDownloadView {
                    phase: DownloadPhase::Failed,
                    failure: Some(error),
                    ..self
                },
            }
        }
    }

    /// Whether a report for the page `index` is taken: the pages are in
    /// flight and this one has not reported.
    pub open spec fn awaits_page(self, index: int) -> bool {
        &&& self.phase == DownloadPhase::PagesInFlight
        &&& 0 <= index < self.statuses.len()
        &&& self.statuses[index] == PageStatus::InFlight
    }

    /// The state after the page `index` reported. The page's status is
    /// recorded. Its error becomes the download's error if no page before it
    /// in page order has failed so far. The download is over once every page
    /// has reported, and not before: it has then failed if any page failed,
    /// and succeeded otherwise. A report that is not awaited is ignored.
    pub open spec fn after_page(self, index: int, result: Result<(), MangadexError>) -> Self {
        if !self.awaits_page(index) {
            self
        } else {
            let recorded = ChapterDownloadView {
                statuses: self.statuses.update(index, status_of(result)),
                ..self
            };
            let noted = match result {
                Err(error) if self.failed_page is None || index < self.failed_page.unwrap() =>
                    ChapterDownloadView {
                    failure: Some(error),
                    failed_page: Some(index),
                    ..recorded
                },
                _ => recorded,
            };
            if !noted.all_reported() {
                noted
            } else if noted.failed_page is Some {
                ChapterDownloadView { phase: DownloadPhase::Failed, ..noted }
            } else {
                ChapterDownloadView { phase: DownloadPhase::Succeeded, ..noted }
            }
        }
    }

    /// How the download went: nothing while it is running, then success or
    /// the error.
    pub open spec fn outcome(self) -> Option<Result<(), MangadexError>> {
        match self.phase {
            DownloadPhase::Succeeded => Some(Ok(())),
            DownloadPhase::Failed => match self.failure {
                Some(error) => Some(Err(error)),
                None => None,
            },
            _ => None,
        }
    }
}

/// Taking the manifest leads from a reachable state to a reachable state.
pub proof fn lemma_manifest_keeps_wf(
    state: ChapterDownloadView,
    manifest: Result<ChapterDataView, MangadexError>,
)
    requires
        state.wf(),
    ensures
        state.after_manifest(manifest).wf(),
{
}

/// Taking the news of the directory leads from a reachable state to a
/// reachable state.
pub proof fn lemma_directory_keeps_wf(
    state: ChapterDownloadView,
    created: Result<(), MangadexError>,
)
    requires
        state.wf(),
    ensures
        state.after_directory(created).wf(),
{
    if state.phase == DownloadPhase::ManifestFetched && created is Ok && state.pages.len() > 0 {
        let next = state.after_directory(created);
        assert(next.statuses[0] == PageStatus::InFlight);
    }
}

/// Taking the report of a page leads from a reachable state to a reachable
/// state.
pub proof fn lemma_page_keeps_wf(
    state: ChapterDownloadView,
    index: int,
    result: Result<(), MangadexError>,
)
    requires
        state.wf(),
    ensures
        state.after_page(index, result).wf(),
{
}

/// A download that is over stays as it is, whatever is reported to it:
/// nothing is tried again, and nothing is taken up again after a failure.
pub proof fn lemma_over_is_final(
    state: ChapterDownloadView,
    manifest: Result<ChapterDataView, MangadexError>,
    created: Result<(), MangadexError>,
    index: int,
    result: Result<(), MangadexError>,
)
    requires
        state.is_over(),
    ensures
        state.after_manifest(manifest) == state,
        state.after_directory(created) == state,
        state.after_page(index, result) == state,
{
}

/// A manifest that cannot be had ends the download with that error, before
/// any page is planned or started.
pub proof fn lemma_manifest_failure_plans_nothing(
    request: ChapterDownloadRequestView,
    error: MangadexError,
)
    ensures
        ({
            let next = ChapterDownloadView::start(request).after_manifest(Err(error));
            &&& next.outcome() == Some(Err::<(), MangadexError>(error))
            &&& next.pages.len() == 0
            &&& next.statuses.len() == 0
        }),
{
}

/// While pages are in flight, the download ends with the report of the last
/// page that was awaited, and with no report before it, whether or not a
/// page has failed by then. When it ends it has failed if any page failed,
/// and the error it gives is the one noted for the first failed page in page
/// order.
pub proof fn lemma_verdict_waits_for_every_page(
    state: ChapterDownloadView,
    index: int,
    result: Result<(), MangadexError>,
)
    requires
        state.wf(),
        state.awaits_page(index),
    ensures
        ({
            let next = state.after_page(index, result);
            &&& next.is_over() <==> (forall|j: int|
                0 <= j < state.statuses.len() && j != index ==> state.statuses[j]
                    != PageStatus::InFlight)
            &&& next.phase == DownloadPhase::Succeeded ==> next.none_failed()
            &&& next.phase == DownloadPhase::Failed ==> next.failed_page is Some
                && next.is_first_failed(next.failed_page.unwrap()) && next.outcome() is Some
                && next.outcome().unwrap() is Err
        }),
{
    let next = state.after_page(index, result);
    lemma_page_keeps_wf(state, index, result);
    if forall|j: int|
        0 <= j < state.statuses.len() && j != index ==> state.statuses[j] != PageStatus::InFlight {
        assert(next.all_reported());
    } else {
        let j = choose|j: int|
            0 <= j < state.statuses.len() && j != index && state.statuses[j]
                == PageStatus::InFlight;
        assert(next.statuses[j] == PageStatus::InFlight);
    }
}

/// The error that a failing page leaves: its own if no page before it in
/// page order has failed so far, else the one that was noted already.
pub proof fn lemma_first_failure_in_page_order(
    state: ChapterDownloadView,
    index: int,
    error: MangadexError,
)
    requires
        state.wf(),
        state.awaits_page(index),
    ensures
        ({
            let next = state.after_page(index, Err(error));
            if state.failed_page is Some && state.failed_page.unwrap() < index {
                next.failure == state.failure && next.failed_page == state.failed_page
            } else {
                next.failure == Some(error) && next.failed_page == Some(index)
            }
        }),
{
}

/// The order in which two pages report makes no difference to the state
/// that they leave.
pub proof fn lemma_reports_commute(
    state: ChapterDownloadView,
    first: int,
    first_result: Result<(), MangadexError>,
    second: int,
    second_result: Result<(), MangadexError>,
)
    requires
        state.wf(),
        state.awaits_page(first),
        state.awaits_page(second),
        first != second,
    ensures
        state.after_page(first, first_result).after_page(second, second_result)
            == state.after_page(second, second_result).after_page(first, first_result),
{
    let one = state.after_page(first, first_result);
    let other = state.after_page(second, second_result);
    assert(one.statuses[second] == PageStatus::InFlight);
    assert(other.statuses[first] == PageStatus::InFlight);
    let left = one.after_page(second, second_result);
    let right = other.after_page(first, first_result);
    assert(left.statuses =~= right.statuses);
    assert(left.all_reported() == right.all_reported());
}

/// The reports of `count` pages, each page reporting once, in any order: as
/// many reports as pages, each of a page that there is, no two of one page,
/// and one of every page.
pub open spec fn each_page_reports_once(
    reports: Seq<(int, Result<(), MangadexError>)>,
    count: nat,
) -> bool {
    &&& reports.len() == count
    &&& forall|k: int| 0 <= k < reports.len() ==> 0 <= (#[trigger] reports[k]).0 < count
    &&& forall|j: int, k: int|
        0 <= j < k < reports.len() ==> (#[trigger] reports[j]).0 != (#[trigger] reports[k]).0
    &&& forall|page: int| 0 <= page < count ==> #[trigger] has_report(reports, page)
}

/// One of the reports is that of the page `page`.
pub open spec fn has_report(reports: Seq<(int, Result<(), MangadexError>)>, page: int) -> bool {
    exists|k: int| 0 <= k < reports.len() && (#[trigger] reports[k]).0 == page
}

/// Among the first `upto` reports, the report `k` is the one of the first
/// page, in page order, that failed.
pub open spec fn is_first_failure(
    reports: Seq<(int, Result<(), MangadexError>)>,
    upto: int,
    k: int,
) -> bool {
    &&& 0 <= k < upto
    &&& reports[k].1 is Err
    &&& forall|j: int|
        0 <= j < upto && (#[trigger] reports[j]).1 is Err ==> reports[k].0 <= reports[j].0
}

/// The pages have just been started: none has reported.
pub open spec fn all_in_flight(state: ChapterDownloadView) -> bool {
    &&& state.wf()
    &&& state.phase == DownloadPhase::PagesInFlight
    &&& state.failed_page is None
    &&& forall|i: int| 0 <= i < state.statuses.len() ==> state.statuses[i] == PageStatus::InFlight
}

/// With the directory there, the pages of a chapter that has pages are all
/// in flight, one status for each planned page.
pub proof fn lemma_pages_start_together(state: ChapterDownloadView)
    requires
        state.wf(),
        state.phase == DownloadPhase::ManifestFetched,
        state.pages.len() > 0,
    ensures
        all_in_flight(state.after_directory(Ok(()))),
        state.after_directory(Ok(())).statuses.len() == state.pages.len(),
{
    lemma_directory_keeps_wf(state, Ok(()));
}

impl ChapterDownloadView {
    /// The state after the pages reported as `reports` says, one after the
    /// other.
    pub open spec fn after_reports(self, reports: Seq<(int, Result<(), MangadexError>)>) -> Self
        decreases reports.len(),
    {
        if reports.len() == 0 {
            self
        } else {
            self.after_reports(reports.drop_last()).after_page(
                reports.last().0,
                reports.last().1,
            )
        }
    }
}

/// What holds after the first `upto` reports of pages that report once each.
proof fn lemma_reports_so_far(
    state: ChapterDownloadView,
    reports: Seq<(int, Result<(), MangadexError>)>,
    upto: int,
)
    requires
        all_in_flight(state),
        each_page_reports_once(reports, state.statuses.len()),
        0 <= upto <= reports.len(),
    ensures
        ({
            let now = state.after_reports(reports.take(upto));
            &&& now.wf()
            &&& now.statuses.len() == state.statuses.len()
            &&& now.is_over() <==> upto == reports.len()
            &&& forall|k: int|
                0 <= k < upto ==> now.statuses[(#[trigger] reports[k]).0] == status_of(
                    reports[k].1,
                )
            &&& forall|k: int|
                upto <= k < reports.len() ==> now.statuses[(#[trigger] reports[k]).0]
                    == PageStatus::InFlight
            &&& now.failed_page is None <==> (forall|k: int|
                0 <= k < upto ==> (#[trigger] reports[k]).1 is Ok)
            &&& now.failure is Some <==> now.failed_page is Some
            &&& forall|k: int| #[trigger]
                is_first_failure(reports, upto, k) ==> now.failed_page == Some(reports[k].0)
                    && now.failure == Some(reports[k].1->Err_0)
        }),
    decreases upto,
{
    let count = state.statuses.len() as int;
    if upto == 0 {
        assert(reports.take(0) =~= Seq::empty());
        assert(count > 0) by {
            if count == 0 {
                assert(state.all_reported());
            }
        }
    } else {
        let n = upto - 1;
        lemma_reports_so_far(state, reports, n);
        let before = state.after_reports(reports.take(n));
        let report = reports[n];
        assert(reports.take(upto).drop_last() =~= reports.take(n));
        assert(reports.take(upto).last() == report);
        let now = before.after_page(report.0, report.1);
        assert(now == state.after_reports(reports.take(upto)));
        assert(before.awaits_page(report.0));
        lemma_page_keeps_wf(before, report.0, report.1);
        assert forall|k: int| 0 <= k < upto implies now.statuses[(#[trigger] reports[k]).0]
            == status_of(reports[k].1) by {
            if k < n {
                assert(reports[k].0 != reports[n].0);
            }
        }
        assert forall|k: int| upto <= k < reports.len() implies now.statuses[(
        #[trigger] reports[k]).0] == PageStatus::InFlight by {
            assert(reports[n].0 != reports[k].0);
        }
        if upto < reports.len() {
            assert(now.statuses[reports[upto].0] == PageStatus::InFlight);
        } else {
            assert forall|page: int| 0 <= page < now.statuses.len() implies now.statuses[page]
                != PageStatus::InFlight by {
                assert(has_report(reports, page));
                let k = choose|k: int| 0 <= k < reports.len() && (#[trigger] reports[k]).0 == page;
                assert(now.statuses[reports[k].0] == status_of(reports[k].1));
            }
        }
        assert forall|k: int| #[trigger] is_first_failure(reports, upto, k) implies now.failed_page
            == Some(reports[k].0) && now.failure == Some(reports[k].1->Err_0) by {
            if k == n {
                if before.failed_page is Some {
                    let page = before.failed_page.unwrap();
                    assert(before.is_first_failed(page));
                    assert(has_report(reports, page));
                    let j = choose|j: int|
                        0 <= j < reports.len() && (#[trigger] reports[j]).0 == page;
                    if j >= n {
                        assert(before.statuses[reports[j].0] == PageStatus::InFlight);
                    }
                    assert(before.statuses[reports[j].0] == status_of(reports[j].1));
                    assert(reports[j].1 is Err);
                    assert(reports[n].0 <= reports[j].0);
                    assert(reports[j].0 != reports[n].0);
                }
            } else {
                assert(is_first_failure(reports, n, k));
                if report.1 is Err {
                    assert(reports[k].0 <= reports[n].0);
                    assert(reports[k].0 != reports[n].0);
                }
            }
        }
        if report.1 is Ok {
            assert(now.failed_page == before.failed_page);
        } else {
            assert(!(reports[n].1 is Ok));
        }
    }
}

/// Pages that were started together and report once each, in whatever
/// order: the download is not over while a report is missing, and it is over
/// with the last report. It has then succeeded if every page was written.
/// If pages failed, it has failed, and it gives the error of the failed
/// page that comes first in page order, not of the one that reported first.
pub proof fn lemma_verdict_of_all_reports(
    state: ChapterDownloadView,
    reports: Seq<(int, Result<(), MangadexError>)>,
)
    requires
        all_in_flight(state),
        each_page_reports_once(reports, state.statuses.len()),
    ensures
        forall|upto: int|
            0 <= upto < reports.len() ==> !(#[trigger] state.after_reports(
                reports.take(upto),
            )).is_over(),
        state.after_reports(reports).is_over(),
        (forall|k: int| 0 <= k < reports.len() ==> (#[trigger] reports[k]).1 is Ok)
            ==> state.after_reports(reports).outcome() == Some(Ok::<(), MangadexError>(())),
        forall|k: int| #[trigger]
            is_first_failure(reports, reports.len() as int, k) ==> state.after_reports(
                reports,
            ).outcome() == Some(Err::<(), MangadexError>(reports[k].1->Err_0)),
{
    assert forall|upto: int| 0 <= upto < reports.len() implies !(#[trigger] state.after_reports(
        reports.take(upto),
    )).is_over() by {
        lemma_reports_so_far(state, reports, upto);
    }
    lemma_reports_so_far(state, reports, reports.len() as int);
    assert(reports.take(reports.len() as int) =~= reports);
    let end = state.after_reports(reports);
    assert forall|k: int| #[trigger]
        is_first_failure(reports, reports.len() as int, k) implies end.outcome() == Some(
        Err::<(), MangadexError>(reports[k].1->Err_0),
    ) by {
        assert(end.failed_page is Some);
    }
}

fn is_in_flight(status: PageStatus) -> (in_flight: bool)
    ensures
        in_flight == (status == PageStatus::InFlight),
{
    match status {
        PageStatus::InFlight => true,
        _ => false,
    }
}

fn all_reported(statuses: &Vec<PageStatus>) -> (done: bool)
    ensures
        done == (forall|i: int| 0 <= i < statuses.len() ==> statuses@[i] != PageStatus::InFlight),
{
    let mut index: usize = 0;
    while index < statuses.len()
        invariant
            index <= statuses.len(),
            forall|i: int| 0 <= i < index ==> statuses@[i] != PageStatus::InFlight,
        decreases statuses.len() - index,
    {
        if is_in_flight(statuses[index]) {
            return false;
        }
        index = index + 1;
    }
    true
}

/// One chapter download on its way from the request to its outcome.
#[derive(Debug)]
pub struct ChapterDownload {
    request: ChapterDownloadRequest,
    phase: DownloadPhase,
    pages: Vec<PageDownload>,
    statuses: Vec<PageStatus>,
    failure: Option<MangadexError>,
    failed_page: Option<usize>,
}

impl View for ChapterDownload {
    type V = ChapterDownloadView;

    closed spec fn view(&self) -> ChapterDownloadView {
        ChapterDownloadView {
            request: self.request@,
            phase: self.phase,
            pages: page_views(self.pages@),
            statuses: self.statuses@,
            failure: self.failure,
            failed_page: match self.failed_page {
                Some(index) => Some(index as int),
                None => None,
            },
        }
    }
}

impl ChapterDownload {
    #[verifier::type_invariant]
    spec fn reachable(self) -> bool {
        self@.wf()
    }

    /// A download that has just been asked for.
    pub fn new(request: ChapterDownloadRequest) -> (download: Self)
        ensures
            download@ == ChapterDownloadView::start(request@),
    {
        let download = ChapterDownload {
            request,
            phase: DownloadPhase::Pending,
            pages: Vec::new(),
            statuses: Vec::new(),
            failure: None,
            failed_page: None,
        };
        assert(page_views(download.pages@) =~= Seq::empty());
        download
    }

    /// Where the download stands. Every download is in a state that the
    /// machine can reach.
    pub fn phase(&self) -> (phase: DownloadPhase)
        ensures
            phase == self@.phase,
            self@.wf(),
    {
        proof {
            use_type_invariant(self);
        }
        self.phase
    }

    /// The request that the download serves.
    pub fn request(&self) -> (request: &ChapterDownloadRequest)
        ensures
            request@ == self@.request,
    {
        &self.request
    }

    /// The address that the chapter's page manifest is fetched from.
    pub fn manifest_url(&self) -> (url: String)
        ensures
            url@ == manifest_url(self@.request.id),
    {
        ChapterData::endpoint(self.request.id().as_str())
    }

    /// The planned pages, in page order.
    pub fn pages(&self) -> (pages: &Vec<PageDownload>)
        ensures
            page_views(pages@) == self@.pages,
    {
        &self.pages
    }

    /// Takes the manifest, or the error that fetching it gave.
    pub fn manifest_fetched(self, manifest: Result<ChapterData, MangadexError>) -> (next: Self)
        ensures
            next@ == self@.after_manifest(
                match manifest {
                    Ok(chapter) => Ok(chapter@),
                    Err(error) => Err(error),
                },
            ),
    {
        proof {
            use_type_invariant(&self);
        }
        match self.phase {
            DownloadPhase::Pending => match manifest {
                Ok(chapter) => {
                    let pages = chapter.plan(self.request.wants_data_saver());
                    ChapterDownload {
                        request: self.request,
                        phase: DownloadPhase::ManifestFetched,
                        pages,
                        statuses: self.statuses,
                        failure: self.failure,
                        failed_page: self.failed_page,
                    }
                },
                Err(error) => ChapterDownload {
                    request: self.request,
                    phase: DownloadPhase::Failed,
                    pages: self.pages,
                    statuses: self.statuses,
                    failure: Some(error),
                    failed_page: self.failed_page,
                },
            },
            _ => self,
        }
    }

    /// Takes the news that the destination directory is there, or the error
    /// that creating it gave.
    pub fn directory_ready(self, created: Result<(), MangadexError>) -> (next: Self)
        ensures
            next@ == self@.after_directory(created),
    {
        proof {
            use_type_invariant(&self);
        }
        match self.phase {
            DownloadPhase::ManifestFetched => match created {
                Ok(_) => {
                    if self.pages.len() == 0 {
                        ChapterDownload {
                            request: self.request,
                            phase: DownloadPhase::Succeeded,
                            pages: self.pages,
                            statuses: self.statuses,
                            failure: self.failure,
                            failed_page: self.failed_page,
                        }
                    } else {
                        let mut statuses: Vec<PageStatus> = Vec::new();
                        while statuses.len() < self.pages.len()
                            invariant
                                statuses.len() <= self.pages.len(),
                                forall|i: int|
                                    0 <= i < statuses.len() ==> statuses@[i] == PageStatus::InFlight,
                            decreases self.pages.len() - statuses.len(),
                        {
                            statuses.push(PageStatus::InFlight);
                        }
                        assert(statuses@ =~= Seq::new(
                            self@.pages.len(),
                            |i: int| PageStatus::InFlight,
                        ));
                        assert(statuses@[0] == PageStatus::InFlight);
                        ChapterDownload {
                            request: self.request,
                            phase: DownloadPhase::PagesInFlight,
                            pages: self.pages,
                            statuses,
                            failure: self.failure,
                            failed_page: self.failed_page,
                        }
                    }
                },
                Err(error) => ChapterDownload {
                    request: self.request,
                    phase: DownloadPhase::Failed,
                    pages: self.pages,
                    statuses: self.statuses,
                    failure: Some(error),
                    failed_page: self.failed_page,
                },
            },
            _ => self,
        }
    }

    /// Takes the report of the page `index`: that it was written, or the
    /// error that fetching or writing it gave.
    pub fn page_finished(self, index: usize, result: Result<(), MangadexError>) -> (next: Self)
        ensures
            next@ == self@.after_page(index as int, result),
    {
        proof {
            use_type_invariant(&self);
        }
        let awaited = match self.phase {
            DownloadPhase::PagesInFlight => index < self.statuses.len() && is_in_flight(
                self.statuses[index],
            ),
            _ => false,
        };
        if !awaited {
            return self;
        }
        let mut statuses = self.statuses;
        let mut failure = self.failure;
        let mut failed_page = self.failed_page;
        match result {
            Ok(_) => {
                statuses.set(index, PageStatus::Written);
            },
            Err(error) => {
                statuses.set(index, PageStatus::Failed);
                let first = match failed_page {
                    Some(earlier) => index < earlier,
                    None => true,
                };
                if first {
                    failure = Some(error);
                    failed_page = Some(index);
                }
            },
        }
        let phase = if !all_reported(&statuses) {
            DownloadPhase::PagesInFlight
        } else if failed_page.is_some() {
            DownloadPhase::Failed
        } else {
            DownloadPhase::Succeeded
        };
        ChapterDownload {
            request: self.request,
            phase,
            pages: self.pages,
            statuses,
            failure,
            failed_page,
        }
    }

    /// How the download went: nothing while it is running, then success or
    /// the error.
    pub fn into_outcome(self) -> (outcome: Option<Result<(), MangadexError>>)
        ensures
            outcome == self@.outcome(),
    {
        proof {
            use_type_invariant(&self);
        }
        match self.phase {
            DownloadPhase::Succeeded => Some(Ok(())),
            DownloadPhase::Failed => match self.failure {
                Some(error) => Some(Err(error)),
                None => None,
            },
            _ => None,
        }
    }
}

/// The service that downloads chapters. It takes one request at a time
/// and paces nothing itself: pacing is for what is put around it.
#[derive(Debug)]
pub struct ChapterDownloader;

impl ChapterDownloader {
    /// Whether a request may be handed in now: always, and without error.
    pub fn poll_ready(&mut self) -> (ready: Option<Result<(), MangadexError>>)
        ensures
            ready == Some(Ok::<(), MangadexError>(())),
    {
        Some(Ok(()))
    }

    /// Begins the download that `request` asks for: the download is pending,
    /// and the caller is to drive it.
    pub fn call(&mut self, request: ChapterDownloadRequest) -> (download: ChapterDownload)
        ensures
            download@ == ChapterDownloadView::start(request@),
    {
        ChapterDownload::new(request)
    }
}

} // verus!
