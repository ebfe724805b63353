use jukebox::completions::complete_file_path;

fn names(list: &[&str]) -> Vec<String> {
    list.iter().map(|s| s.to_string()).collect()
}

#[test]
fn completes_names_under_the_last_slash() {
    let listing = names(&["abc", "abd", "xyz"]);
    assert_eq!(
        complete_file_path("/music/ab", &listing),
        vec!["/music/abc".to_string(), "/music/abd".to_string()]
    );
}

#[test]
fn completes_everything_after_a_trailing_slash() {
    let listing = names(&["one", "two"]);
    assert_eq!(
        complete_file_path("/music/", &listing),
        vec!["/music/one".to_string(), "/music/two".to_string()]
    );
}

#[test]
fn backslash_separates_too() {
    let listing = names(&["song.mp3", "noise.txt"]);
    assert_eq!(
        complete_file_path("C:\\tunes\\so", &listing),
        vec!["C:\\tunes\\song.mp3".to_string()]
    );
}

#[test]
fn prefix_without_separator_is_taken_as_directory() {
    // with no separator the whole prefix counts as the directory part and
    // every name matches the empty base
    let listing = names(&["a", "b"]);
    assert_eq!(
        complete_file_path("music", &listing),
        vec!["musica".to_string(), "musicb".to_string()]
    );
}

#[test]
fn no_matches_yields_empty() {
    let listing = names(&["abc"]);
    assert_eq!(complete_file_path("/d/zz", &listing), Vec::<String>::new());
}
