use yt_downloader::application::{App, Effect, Message, UpdateError};
use yt_downloader::download::{Download, DownloadError, DownloadProgress, DownloaderMessage};
use yt_downloader::download_options::{DownloadOptions, DownloadType};
use yt_downloader::percent::Percent;
use yt_downloader::yt_dlp::YtDlp;

fn some_options() -> DownloadOptions {
    DownloadOptions {
        url: "https://example.org/v".to_string(),
        download_path: "/tmp".to_string(),
        download_type: DownloadType::Video,
        timestamp_start: None,
        timestamp_end: None,
    }
}

fn percent(text: &str) -> Percent {
    Percent::parse(text).unwrap()
}

fn started(app: &mut App, url: &str) -> u32 {
    app.update(Message::UrlChanged(url.to_string())).unwrap();
    match app.update(Message::StartDownload) {
        Ok(Effect::Start(id)) => id,
        other => panic!("not started: {:?}", other),
    }
}

#[test]
fn a_new_download_is_queued_and_unnamed() {
    let download = Download::new(some_options(), 5);
    assert_eq!(download.id, 5);
    assert_eq!(download.options, some_options());
    assert_eq!(download.name, None);
    assert_eq!(download.progress, DownloadProgress::Queued);
    assert_eq!(download.title(), "https://example.org/v");
    assert!(!download.is_finished());
    assert_eq!(DownloadProgress::default(), DownloadProgress::Queued);
}

#[test]
fn messages_move_a_download_forward() {
    let mut download = Download::new(some_options(), 0);
    download.apply(DownloaderMessage::NameObtained("a.mp4".to_string()));
    assert_eq!(download.name, Some("a.mp4".to_string()));
    assert_eq!(download.title(), "a.mp4");
    assert_eq!(download.progress, DownloadProgress::Queued);
    download.apply(DownloaderMessage::DownloadProgressed(percent("10.0")));
    assert_eq!(download.progress, DownloadProgress::Running(percent("10.0")));
    download.apply(DownloaderMessage::DownloadProgressed(percent("5.0")));
    assert_eq!(download.progress, DownloadProgress::Running(percent("5.0")));
    download.apply(DownloaderMessage::DownloadFinished);
    assert_eq!(download.progress, DownloadProgress::Finished);
    assert!(download.is_finished());
    assert_eq!(download.id, 0);
    assert_eq!(download.options, some_options());
}

#[test]
fn a_failure_finishes_a_download() {
    let mut download = Download::new(some_options(), 0);
    download.apply(DownloaderMessage::DownloadFailed(DownloadError::BadPercentage(
        "abc".to_string(),
    )));
    assert_eq!(download.progress, DownloadProgress::Finished);
}

#[test]
fn a_tool_that_does_not_start_finishes_a_download() {
    let mut app = App::new("/tmp".to_string());
    let id = started(&mut app, "a");
    let failure = DownloadError::NotStarted("No such file or directory".to_string());
    assert_eq!(
        app.update(Message::Downloader(id, DownloaderMessage::DownloadFailed(failure))),
        Ok(Effect::Nothing)
    );
    assert_eq!(app.downloads()[0].progress, DownloadProgress::Finished);
    assert_eq!(app.downloads()[0].name, None);
}

#[test]
fn a_finished_download_does_not_change() {
    let mut download = Download::new(some_options(), 0);
    download.apply(DownloaderMessage::NameObtained("a.mp4".to_string()));
    download.apply(DownloaderMessage::DownloadFinished);
    let finished = download.clone();
    download.apply(DownloaderMessage::DownloadProgressed(percent("50")));
    assert_eq!(download, finished);
    download.apply(DownloaderMessage::NameObtained("b.mp4".to_string()));
    assert_eq!(download, finished);
    download.apply(DownloaderMessage::DownloadFailed(DownloadError::NotStarted("x".to_string())));
    assert_eq!(download, finished);
    download.apply(DownloaderMessage::DownloadFinished);
    assert_eq!(download, finished);
}

#[test]
fn the_application_starts_empty() {
    let app = App::new("/home/alice/Downloads".to_string());
    assert_eq!(app.url(), "");
    assert_eq!(app.download_path(), "/home/alice/Downloads");
    assert_eq!(app.download_type(), DownloadType::Video);
    assert_eq!(app.timestamp_start(), "");
    assert_eq!(app.timestamp_end(), "");
    assert!(app.downloads().is_empty());
}

#[test]
fn what_is_typed_is_kept() {
    let mut app = App::new("/tmp".to_string());
    assert_eq!(app.update(Message::UrlChanged("u".to_string())), Ok(Effect::Nothing));
    assert_eq!(app.update(Message::DownloadPathChanged("/p".to_string())), Ok(Effect::Nothing));
    assert_eq!(app.update(Message::DownloadTypeChanged(DownloadType::Audio)), Ok(Effect::Nothing));
    assert_eq!(app.update(Message::TimestampStartChanged("1:00".to_string())), Ok(Effect::Nothing));
    assert_eq!(app.update(Message::TimestampEndChanged("2:00".to_string())), Ok(Effect::Nothing));
    assert_eq!(app.url(), "u");
    assert_eq!(app.download_path(), "/p");
    assert_eq!(app.download_type(), DownloadType::Audio);
    assert_eq!(app.timestamp_start(), "1:00");
    assert_eq!(app.timestamp_end(), "2:00");
}

#[test]
fn browsing_asks_for_a_folder_and_changes_nothing() {
    let mut app = App::new("/tmp".to_string());
    assert_eq!(app.update(Message::Browse), Ok(Effect::PickFolder));
    assert_eq!(app.download_path(), "/tmp");
    assert!(app.downloads().is_empty());
}

#[test]
fn starting_adds_a_download_for_what_is_typed() {
    let mut app = App::new("/tmp".to_string());
    app.update(Message::UrlChanged("https://example.org/v".to_string())).unwrap();
    app.update(Message::DownloadTypeChanged(DownloadType::Audio)).unwrap();
    app.update(Message::TimestampStartChanged("1:00".to_string())).unwrap();
    assert_eq!(app.update(Message::StartDownload), Ok(Effect::Start(0)));
    assert_eq!(app.downloads().len(), 1);
    let download = &app.downloads()[0];
    assert_eq!(download.id, 0);
    assert_eq!(download.name, None);
    assert_eq!(download.progress, DownloadProgress::Queued);
    assert_eq!(
        download.options,
        DownloadOptions {
            url: "https://example.org/v".to_string(),
            download_path: "/tmp".to_string(),
            download_type: DownloadType::Audio,
            timestamp_start: Some("1:00".to_string()),
            timestamp_end: None,
        }
    );
    assert_eq!(app.url(), "");
    assert_eq!(app.timestamp_start(), "");
    assert_eq!(app.timestamp_end(), "");
    assert_eq!(app.download_path(), "/tmp");
    assert_eq!(app.download_type(), DownloadType::Audio);
    assert_eq!(download.options.clone().parse_command().args[9], "*1:00-inf");
}

#[test]
fn identifiers_rise_and_are_not_handed_out_twice() {
    let mut app = App::new("/tmp".to_string());
    for expected in 0..5u32 {
        assert_eq!(started(&mut app, "u"), expected);
    }
    let ids: Vec<u32> = app.downloads().iter().map(|d| d.id).collect();
    assert_eq!(ids, vec![0, 1, 2, 3, 4]);
}

#[test]
fn a_report_changes_the_download_that_it_names() {
    let mut app = App::new("/tmp".to_string());
    let first = started(&mut app, "a");
    let second = started(&mut app, "b");
    assert_eq!(
        app.update(Message::Downloader(
            second,
            DownloaderMessage::NameObtained("b.mp4".to_string())
        )),
        Ok(Effect::Nothing)
    );
    app.update(Message::Downloader(second, DownloaderMessage::DownloadProgressed(percent("42.0"))))
        .unwrap();
    assert_eq!(app.downloads()[0].id, first);
    assert_eq!(app.downloads()[0].name, None);
    assert_eq!(app.downloads()[0].progress, DownloadProgress::Queued);
    assert_eq!(app.downloads()[1].id, second);
    assert_eq!(app.downloads()[1].name, Some("b.mp4".to_string()));
    assert_eq!(app.downloads()[1].progress, DownloadProgress::Running(percent("42.0")));
}

#[test]
fn a_report_for_an_unknown_download_is_refused() {
    let mut app = App::new("/tmp".to_string());
    started(&mut app, "a");
    assert_eq!(
        app.update(Message::Downloader(9, DownloaderMessage::DownloadFinished)),
        Err(UpdateError::UnknownDownload(9))
    );
    assert_eq!(app.downloads().len(), 1);
    assert_eq!(app.downloads()[0].progress, DownloadProgress::Queued);
}

#[test]
fn a_finished_download_stays_finished_in_the_registry() {
    let mut app = App::new("/tmp".to_string());
    let id = started(&mut app, "a");
    app.update(Message::Downloader(id, DownloaderMessage::NameObtained("a.mp4".to_string())))
        .unwrap();
    app.update(Message::Downloader(id, DownloaderMessage::DownloadFinished)).unwrap();
    let finished = app.downloads()[0].clone();
    assert_eq!(finished.progress, DownloadProgress::Finished);
    let later = vec![
        Message::Downloader(id, DownloaderMessage::DownloadProgressed(percent("10"))),
        Message::Downloader(id, DownloaderMessage::NameObtained("x".to_string())),
        Message::Downloader(
            id,
            DownloaderMessage::DownloadFailed(DownloadError::BadPercentage("y".to_string())),
        ),
        Message::UrlChanged("b".to_string()),
        Message::StartDownload,
        Message::Browse,
        Message::Downloader(id, DownloaderMessage::DownloadFinished),
    ];
    for message in later {
        let _ = app.update(message);
        assert_eq!(app.downloads()[0], finished);
    }
}

#[test]
fn one_download_finishes_while_another_is_silent() {
    let mut app = App::new("/tmp".to_string());
    let silent = started(&mut app, "a");
    let busy = started(&mut app, "b");
    let silent_reader = YtDlp::new(silent);
    let mut busy_reader = YtDlp::new(busy);
    let pieces: [&[u8]; 3] = [
        b"[download] Destination: /tmp/b.mp4\n\r",
        b"[download]  50.0% of 1MiB\r[download] 100",
        b"% of 1MiB\r[download] done\r",
    ];
    for piece in pieces {
        for message in busy_reader.feed(piece) {
            assert_eq!(
                app.update(Message::Downloader(busy_reader.id(), message)),
                Ok(Effect::Nothing)
            );
        }
    }
    assert!(busy_reader.is_finished());
    assert!(!silent_reader.is_finished());
    assert_eq!(app.downloads()[0].id, silent);
    assert_eq!(app.downloads()[0].progress, DownloadProgress::Queued);
    assert_eq!(app.downloads()[0].name, None);
    assert_eq!(app.downloads()[1].id, busy);
    assert_eq!(app.downloads()[1].progress, DownloadProgress::Finished);
    assert_eq!(app.downloads()[1].name, Some("b.mp4".to_string()));
}

#[test]
fn a_submitted_download_gets_the_next_identifier() {
    let mut app = App::new("/tmp".to_string());
    app.update(Message::UrlChanged("typed".to_string())).unwrap();
    assert_eq!(app.submit(some_options()), Ok(0));
    assert_eq!(app.submit(some_options()), Ok(1));
    assert_eq!(started(&mut app, "third"), 2);
    assert_eq!(app.submit(some_options()), Ok(3));
    assert_eq!(app.downloads().len(), 4);
    assert_eq!(app.downloads()[3], Download::new(some_options(), 3));
    assert_eq!(app.downloads()[2].options.url, "third");
    assert_eq!(app.download_path(), "/tmp");
}

#[test]
fn submitting_leaves_what_is_typed() {
    let mut app = App::new("/tmp".to_string());
    app.update(Message::UrlChanged("typed".to_string())).unwrap();
    app.update(Message::TimestampEndChanged("9:59".to_string())).unwrap();
    assert_eq!(app.submit(some_options()), Ok(0));
    assert_eq!(app.url(), "typed");
    assert_eq!(app.timestamp_end(), "9:59");
}

#[test]
fn a_download_is_read_under_its_own_identifier() {
    let download = Download::new(some_options(), 11);
    let mut reader = download.run();
    assert_eq!(reader.id(), 11);
    assert!(!reader.is_finished());
    assert_eq!(
        reader.feed(b"Destination: /a/b.mp4\n"),
        vec![DownloaderMessage::NameObtained("b.mp4".to_string())]
    );
}
