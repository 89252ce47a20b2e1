use yt_downloader::utils::choose_default_dir;

#[test]
fn the_download_directory_comes_first() {
    assert_eq!(
        choose_default_dir(Some("/home/alice/Downloads".to_string()), Some("/home/alice".to_string())),
        "/home/alice/Downloads"
    );
    assert_eq!(choose_default_dir(Some("/d".to_string()), None), "/d");
}

#[test]
fn the_home_directory_comes_second() {
    assert_eq!(choose_default_dir(None, Some("/home/alice".to_string())), "/home/alice");
}

#[test]
fn the_root_comes_last() {
    assert_eq!(choose_default_dir(None, None), "/");
}

#[test]
fn an_empty_download_directory_is_still_taken() {
    assert_eq!(choose_default_dir(Some(String::new()), Some("/home/alice".to_string())), "");
}
