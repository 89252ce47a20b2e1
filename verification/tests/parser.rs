use yt_downloader::download::{DownloadError, DownloaderMessage};
use yt_downloader::yt_dlp::{file_name, progress_token, read_segment, ReaderState, YtDlp};

fn percent_of(message: &Option<DownloaderMessage>) -> f32 {
    match message {
        Some(DownloaderMessage::DownloadProgressed(percent)) => {
            percent.as_str().parse::<f32>().unwrap()
        }
        other => panic!("no percentage: {:?}", other),
    }
}

#[test]
fn scenario_from_announcement_to_end() {
    let segments = [
        "Destination: /tmp/out/My Video.mp4",
        "[download]   0.0% ...\r",
        "[download]  54.2% of 10MiB\r",
        "[download] 100% of 10MiB\r",
        "[download] Merging...\r",
    ];
    let mut reader = YtDlp::new(7);
    let mut messages = Vec::new();
    for segment in segments {
        if let Some(message) = reader.read(segment) {
            messages.push(message);
        }
    }
    assert_eq!(messages.len(), 4);
    assert_eq!(messages[0], DownloaderMessage::NameObtained("My Video.mp4".to_string()));
    assert_eq!(percent_of(&Some(messages[1].clone())), 54.2);
    assert_eq!(percent_of(&Some(messages[2].clone())), 100.0);
    assert_eq!(messages[3], DownloaderMessage::DownloadFinished);
    assert_eq!(reader.state(), ReaderState::Finished);
    assert_eq!(reader.id(), 7);
}

#[test]
fn lines_before_the_announcement_say_nothing() {
    let mut reader = YtDlp::new(0);
    assert_eq!(reader.read("[youtube] Extracting URL: https://example.org/v"), None);
    assert_eq!(reader.read("[info] 50% of anything"), None);
    assert_eq!(reader.state(), ReaderState::WaitingForName);
    assert_eq!(
        reader.read("[download] Destination: out/clip.webm"),
        Some(DownloaderMessage::NameObtained("clip.webm".to_string()))
    );
    assert_eq!(reader.state(), ReaderState::SkippingFrame);
}

#[test]
fn exactly_one_frame_is_passed_over() {
    let mut reader = YtDlp::new(0);
    reader.read("Destination: /a/b");
    assert_eq!(reader.read("[download]  12.5% of 1MiB"), None);
    assert_eq!(reader.state(), ReaderState::WaitingForProgress);
    assert_eq!(percent_of(&reader.read("[download]  13.5% of 1MiB")), 13.5);
    assert_eq!(reader.state(), ReaderState::WaitingForProgress);
}

#[test]
fn the_frame_passed_over_may_lack_a_percent_sign() {
    let mut reader = YtDlp::new(0);
    reader.read("Destination: /a/b");
    assert_eq!(reader.read(""), None);
    assert_eq!(reader.state(), ReaderState::WaitingForProgress);
}

#[test]
fn a_finished_reader_says_nothing_more() {
    let mut reader = YtDlp::new(0);
    reader.read("Destination: /a/b");
    reader.read("");
    assert_eq!(reader.read("done"), Some(DownloaderMessage::DownloadFinished));
    assert_eq!(reader.read("[download]  50.0% of 1MiB"), None);
    assert_eq!(reader.read("Destination: /c/d"), None);
    assert_eq!(reader.read("done"), None);
    assert_eq!(reader.state(), ReaderState::Finished);
    assert!(reader.is_finished());
}

#[test]
fn a_token_that_is_no_numeral_fails_the_download() {
    let (state, message) = read_segment(ReaderState::WaitingForProgress, "[download] abc% of 1MiB");
    assert_eq!(state, ReaderState::Finished);
    assert_eq!(message, Some(DownloaderMessage::DownloadFailed(DownloadError::BadPercentage("abc".to_string()))));
}

#[test]
fn a_percent_sign_with_nothing_before_it_fails_the_download() {
    let (state, message) = read_segment(ReaderState::WaitingForProgress, "% done");
    assert_eq!(state, ReaderState::Finished);
    assert_eq!(message, Some(DownloaderMessage::DownloadFailed(DownloadError::BadPercentage(String::new()))));
    let (state, message) = read_segment(ReaderState::WaitingForProgress, "speed %");
    assert_eq!(state, ReaderState::Finished);
    assert_eq!(message, Some(DownloaderMessage::DownloadFailed(DownloadError::BadPercentage(String::new()))));
}

#[test]
fn earlier_numbers_in_a_frame_play_no_part() {
    let frame = "[download] 3 of 7 files, 10.5 MiB  42.7% at 1.2MiB/s ETA 00:03 (99% sure)";
    assert_eq!(progress_token(frame), Some("42.7".to_string()));
    let (state, message) = read_segment(ReaderState::WaitingForProgress, frame);
    assert_eq!(state, ReaderState::WaitingForProgress);
    assert_eq!(percent_of(&message), 42.7);
}

#[test]
fn the_token_reaches_back_to_the_start_without_a_space() {
    assert_eq!(progress_token("75%"), Some("75".to_string()));
    assert_eq!(progress_token("no sign here"), None);
    assert_eq!(progress_token(""), None);
    assert_eq!(progress_token("a b c%d e%"), Some("c".to_string()));
}

#[test]
fn the_name_is_what_follows_the_last_slash() {
    assert_eq!(file_name("Destination: /tmp/out/My Video.mp4"), "My Video.mp4");
    assert_eq!(file_name("Destination: clip.mp4"), "Destination: clip.mp4");
    assert_eq!(file_name("Destination: /tmp/out/"), "");
    assert_eq!(file_name(""), "");
    assert_eq!(file_name("/x/\u{e9}t\u{e9}.mp3"), "\u{e9}t\u{e9}.mp3");
}

#[test]
fn the_marker_is_found_anywhere_in_the_line() {
    let (state, _) = read_segment(ReaderState::WaitingForName, "xDestinationy");
    assert_eq!(state, ReaderState::SkippingFrame);
    let (state, _) = read_segment(ReaderState::WaitingForName, "Destinatio");
    assert_eq!(state, ReaderState::WaitingForName);
    let (state, _) = read_segment(ReaderState::WaitingForName, "destination: /a");
    assert_eq!(state, ReaderState::WaitingForName);
    let (state, _) = read_segment(ReaderState::WaitingForName, "");
    assert_eq!(state, ReaderState::WaitingForName);
}

#[test]
fn bytes_are_cut_at_line_feed_then_at_carriage_return() {
    let stream = "[youtube] abc: Downloading webpage\n[download] Destination: /tmp/out/My Video.mp4\n[download]   0.0% ...\r[download]  54.2% of 10MiB\r[download] 100% of 10MiB\r[download] Merging...\r";
    let mut reader = YtDlp::new(3);
    let messages = reader.feed(stream.as_bytes());
    assert_eq!(messages.len(), 4);
    assert_eq!(messages[0], DownloaderMessage::NameObtained("My Video.mp4".to_string()));
    assert_eq!(percent_of(&Some(messages[1].clone())), 54.2);
    assert_eq!(percent_of(&Some(messages[2].clone())), 100.0);
    assert_eq!(messages[3], DownloaderMessage::DownloadFinished);
    assert!(reader.is_finished());
}

#[test]
fn where_a_piece_ends_does_not_matter() {
    let stream = "intro\nDestination: /d/e.mp4\n\r[download]   1.0% x\r[download]  99.9% x\rend\r";
    let mut whole = YtDlp::new(0);
    let expected = whole.feed(stream.as_bytes());
    assert_eq!(expected.len(), 4);
    for cut in 0..=stream.len() {
        let mut reader = YtDlp::new(0);
        let mut messages = reader.feed(&stream.as_bytes()[..cut]);
        messages.extend(reader.feed(&stream.as_bytes()[cut..]));
        assert_eq!(messages, expected);
        assert_eq!(reader.state(), whole.state());
    }
    let mut reader = YtDlp::new(0);
    let mut messages = Vec::new();
    for byte in stream.as_bytes() {
        messages.extend(reader.feed(&[*byte]));
    }
    assert_eq!(messages, expected);
}

#[test]
fn a_frame_is_not_read_before_its_delimiter_arrives() {
    let mut reader = YtDlp::new(0);
    assert_eq!(reader.feed(b"Destination: /a/b.mp4"), vec![]);
    assert_eq!(reader.state(), ReaderState::WaitingForName);
    assert_eq!(
        reader.feed(b"\n"),
        vec![DownloaderMessage::NameObtained("b.mp4".to_string())]
    );
    assert_eq!(reader.feed(b"stale\r[download]  10"), vec![]);
    assert_eq!(reader.state(), ReaderState::WaitingForProgress);
    let messages = reader.feed(b".5% of 3MiB\r");
    assert_eq!(percent_of(&Some(messages[0].clone())), 10.5);
}

#[test]
fn bytes_that_are_no_text_are_replaced_not_refused() {
    let mut reader = YtDlp::new(0);
    let messages = reader.feed(b"Destination: /a/b\xff.mp4\n");
    assert_eq!(
        messages,
        vec![DownloaderMessage::NameObtained("b\u{fffd}.mp4".to_string())]
    );
}

#[test]
fn the_end_of_the_stream_finishes_the_download() {
    let mut reader = YtDlp::new(0);
    reader.feed(b"Destination: /a/b.mp4\n\r[download]  10.0% x\r[download]  20.0% x");
    let messages = reader.finish();
    assert_eq!(messages.len(), 2);
    assert_eq!(percent_of(&Some(messages[0].clone())), 20.0);
    assert_eq!(messages[1], DownloaderMessage::DownloadFinished);
    assert!(reader.is_finished());
    assert_eq!(reader.finish(), vec![]);
    assert_eq!(reader.feed(b"[download]  30.0% x\r"), vec![]);
}

#[test]
fn a_stream_that_ends_before_any_output_finishes_the_download() {
    let mut reader = YtDlp::new(0);
    assert_eq!(reader.finish(), vec![DownloaderMessage::DownloadFinished]);
    assert!(reader.is_finished());
}

#[test]
fn a_stream_that_ends_in_the_announcement_names_the_file_first() {
    let mut reader = YtDlp::new(0);
    reader.feed(b"Destination: /a/b.mp4");
    assert_eq!(
        reader.finish(),
        vec![
            DownloaderMessage::NameObtained("b.mp4".to_string()),
            DownloaderMessage::DownloadFinished
        ]
    );
}

#[test]
fn a_stream_that_ends_in_a_bad_frame_fails_once() {
    let mut reader = YtDlp::new(0);
    reader.feed(b"Destination: /a/b.mp4\n\r[download]  x% ");
    assert_eq!(reader.finish(), vec![DownloaderMessage::DownloadFailed(DownloadError::BadPercentage("x".to_string()))]);
    assert!(reader.is_finished());
}

#[test]
fn two_readers_do_not_touch_each_other() {
    let mut silent = YtDlp::new(1);
    let mut busy = YtDlp::new(2);
    let mut messages = Vec::new();
    messages.extend(busy.feed(b"Destination: /a/busy.mp4\n\r"));
    assert_eq!(silent.feed(b""), vec![]);
    messages.extend(busy.feed(b"[download]  50.0% x\r"));
    messages.extend(busy.feed(b"done\r"));
    assert_eq!(messages.len(), 3);
    assert_eq!(messages[2], DownloaderMessage::DownloadFinished);
    assert!(busy.is_finished());
    assert_eq!(silent.state(), ReaderState::WaitingForName);
    assert_eq!(silent.id(), 1);
}

#[test]
fn a_cancelled_reader_is_finished_and_silent() {
    let mut reader = YtDlp::new(4);
    reader.feed(b"Destination: /a/b.mp4\n\r[download]  10.0% x\r[download]  20.0");
    reader.cancel();
    assert!(reader.is_finished());
    assert_eq!(reader.id(), 4);
    assert_eq!(reader.feed(b"% x\r"), vec![]);
    assert_eq!(reader.finish(), vec![]);
    let mut fresh = YtDlp::new(5);
    fresh.cancel();
    assert_eq!(fresh.state(), ReaderState::Finished);
    assert_eq!(fresh.read("Destination: /a/b"), None);
}
