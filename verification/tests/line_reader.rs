use yt_downloader::line_reader::LineReader;

#[test]
fn a_new_reader_holds_nothing() {
    let mut reader = LineReader::new();
    assert_eq!(reader.len(), 0);
    assert_eq!(reader.next_segment(b'\r'), None);
    assert_eq!(reader.take_rest(), Vec::<u8>::new());
}

#[test]
fn segments_come_out_without_their_delimiter() {
    let mut reader = LineReader::new();
    reader.feed(b"one\rtwo\r\rthree");
    assert_eq!(reader.len(), 14);
    assert_eq!(reader.next_segment(b'\r'), Some(b"one".to_vec()));
    assert_eq!(reader.next_segment(b'\r'), Some(b"two".to_vec()));
    assert_eq!(reader.next_segment(b'\r'), Some(Vec::new()));
    assert_eq!(reader.next_segment(b'\r'), None);
    assert_eq!(reader.len(), 5);
    assert_eq!(reader.take_rest(), b"three".to_vec());
    assert_eq!(reader.len(), 0);
}

#[test]
fn the_delimiter_may_change_between_segments() {
    let mut reader = LineReader::new();
    reader.feed(b"a\rb\nc\rd\n");
    assert_eq!(reader.next_segment(b'\n'), Some(b"a\rb".to_vec()));
    assert_eq!(reader.next_segment(b'\r'), Some(b"c".to_vec()));
    assert_eq!(reader.next_segment(b'\r'), None);
    assert_eq!(reader.next_segment(b'\n'), Some(b"d".to_vec()));
    assert_eq!(reader.len(), 0);
}

#[test]
fn a_segment_may_arrive_in_pieces() {
    let mut reader = LineReader::new();
    reader.feed(b"hel");
    assert_eq!(reader.next_segment(b'\n'), None);
    reader.feed(b"");
    reader.feed(b"lo");
    assert_eq!(reader.next_segment(b'\n'), None);
    reader.feed(b"\nwor");
    assert_eq!(reader.next_segment(b'\n'), Some(b"hello".to_vec()));
    assert_eq!(reader.next_segment(b'\n'), None);
    assert_eq!(reader.take_rest(), b"wor".to_vec());
}
