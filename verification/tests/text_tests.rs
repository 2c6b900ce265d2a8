use sublink::text::{
    find_split, is_srt_file_name, normalize_keyword, stem_of_name, str_has_substring, str_lex_le,
};

#[test]
fn stem_strips_final_extension() {
    assert_eq!(stem_of_name("S01E01.mkv"), "S01E01");
    assert_eq!(stem_of_name("archive.tar.gz"), "archive.tar");
    assert_eq!(stem_of_name("a."), "a");
}

#[test]
fn stem_of_name_without_extension_is_whole_name() {
    assert_eq!(stem_of_name("S01E01"), "S01E01");
    assert_eq!(stem_of_name(""), "");
}

#[test]
fn stem_of_leading_dot_name_is_whole_name() {
    assert_eq!(stem_of_name(".gitignore"), ".gitignore");
    assert_eq!(stem_of_name(".config.bak"), ".config");
}

#[test]
fn find_split_positions() {
    assert_eq!(find_split("a.b"), 1);
    assert_eq!(find_split("abc"), 3);
    assert_eq!(find_split(".srt"), 4);
    assert_eq!(find_split("x.srt"), 1);
}

#[test]
fn srt_extension_is_recognized() {
    assert!(is_srt_file_name("movie.srt"));
    assert!(is_srt_file_name("movie.en.srt"));
    assert!(!is_srt_file_name("movie.mkv"));
    assert!(!is_srt_file_name("movie.srt.bak"));
    assert!(!is_srt_file_name(".srt"));
    assert!(!is_srt_file_name("srt"));
}

#[test]
fn lexicographic_order_on_names() {
    assert!(str_lex_le("A", "B"));
    assert!(!str_lex_le("B", "A"));
    assert!(str_lex_le("abc", "abc"));
    assert!(str_lex_le("ab", "abc"));
    assert!(!str_lex_le("abc", "ab"));
    assert!(str_lex_le("", "x"));
    assert!(str_lex_le("S01E01", "S01E02"));
}

#[test]
fn substring_search() {
    assert!(str_has_substring("movie.english.srt", "english"));
    assert!(str_has_substring("anything", ""));
    assert!(!str_has_substring("movie.fr.srt", "english"));
    assert!(str_has_substring("abc", "abc"));
    assert!(!str_has_substring("ab", "abc"));
    assert!(str_has_substring("xxabyy", "ab"));
}

#[test]
fn keyword_is_lowercased() {
    assert_eq!(normalize_keyword("EngLish"), Some("english".to_string()));
    assert_eq!(normalize_keyword("x"), Some("x".to_string()));
}

#[test]
fn empty_keyword_means_no_filter() {
    assert_eq!(normalize_keyword(""), None);
}
