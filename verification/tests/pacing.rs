use mangadex::{ChapterDownloadRequest, ChapterDownloader, DownloadPhase, MangadexError};
use std::time::{Duration, Instant};
use tower::{Service, ServiceBuilder, ServiceExt};

#[test]
fn throttle_spaces_two_downloads_by_its_period() {
    let period = Duration::from_millis(500);
    let runtime = tokio::runtime::Builder::new_current_thread()
        .enable_time()
        .build()
        .unwrap();
    let starts = runtime.block_on(async {
        let begin = tower::service_fn(|request: ChapterDownloadRequest| async move {
            let mut downloader = ChapterDownloader;
            assert!(matches!(downloader.poll_ready(), Some(Ok(()))));
            let download = downloader.call(request);
            Ok::<DownloadPhase, MangadexError>(download.phase())
        });
        let mut throttled = ServiceBuilder::new().rate_limit(1, period).service(begin);
        let ids = vec![
            "e5c1c16c-ec06-47d1-970c-b71499d48833",
            "dbe91557-6bb6-4fe9-a17c-7941313847f9",
        ];
        let mut starts = Vec::new();
        for id in ids {
            let request = ChapterDownloadRequest::new(id).data_saver(true);
            let admitted = throttled.ready().await.unwrap();
            starts.push(Instant::now());
            let phase = admitted.call(request).await.unwrap();
            assert_eq!(phase, DownloadPhase::Pending);
        }
        starts
    });
    assert_eq!(starts.len(), 2);
    assert!(starts[1].duration_since(starts[0]) >= period);
}
