use yt_downloader::text::{
    contains_run, find_first, find_last, find_last_before, matches_at, to_chars,
};

fn chars(text: &str) -> Vec<char> {
    text.chars().collect()
}

#[test]
fn text_becomes_its_characters() {
    assert_eq!(to_chars(""), Vec::<char>::new());
    assert_eq!(to_chars("a/b"), vec!['a', '/', 'b']);
    assert_eq!(to_chars("\u{e9}\u{1f600}x"), vec!['\u{e9}', '\u{1f600}', 'x']);
}

#[test]
fn the_first_of_several_is_found() {
    assert_eq!(find_first(&chars("a%b%c"), '%'), Some(1));
    assert_eq!(find_first(&chars("%"), '%'), Some(0));
    assert_eq!(find_first(&chars("abc"), '%'), None);
    assert_eq!(find_first(&chars(""), '%'), None);
}

#[test]
fn the_last_of_several_is_found() {
    assert_eq!(find_last(&chars("/a/b/c"), '/'), Some(4));
    assert_eq!(find_last(&chars("/"), '/'), Some(0));
    assert_eq!(find_last(&chars("abc"), '/'), None);
    assert_eq!(find_last(&chars(""), '/'), None);
}

#[test]
fn the_last_before_an_end_is_found() {
    let text = chars("a b c d");
    assert_eq!(find_last_before(&text, ' ', 7), Some(5));
    assert_eq!(find_last_before(&text, ' ', 5), Some(3));
    assert_eq!(find_last_before(&text, ' ', 2), Some(1));
    assert_eq!(find_last_before(&text, ' ', 1), None);
    assert_eq!(find_last_before(&text, ' ', 0), None);
}

#[test]
fn a_run_is_found_where_it_stands() {
    let hay = chars("xxDestination");
    let needle = chars("Destination");
    assert!(matches_at(&hay, &needle, 2));
    assert!(!matches_at(&hay, &needle, 0));
    assert!(!matches_at(&hay, &needle, 1));
    assert!(matches_at(&hay, &chars(""), 13));
}

#[test]
fn a_run_is_found_anywhere() {
    let needle = chars("Destination");
    assert!(contains_run(&chars("Destination"), &needle));
    assert!(contains_run(&chars("[download] Destination: /a"), &needle));
    assert!(contains_run(&chars("DestinatioDestination"), &needle));
    assert!(!contains_run(&chars("Destinatio"), &needle));
    assert!(!contains_run(&chars("Destination".to_lowercase().as_str()), &needle));
    assert!(!contains_run(&chars(""), &needle));
    assert!(contains_run(&chars(""), &chars("")));
    assert!(contains_run(&chars("abc"), &chars("")));
}
