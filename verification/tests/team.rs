use survey_geometry::team::Team;
use survey_geometry::text::{config, contains_str};

#[test]
fn team_from_str_parses_line() {
    let t = Team::from_str("San Jose,SJ,#ff8000").unwrap();
    assert_eq!(t.name, "San Jose");
    assert_eq!(t.abbr, "SJ");
    assert_eq!(t.color, [255, 128, 0]);
}

#[test]
fn team_from_str_upper_case_digits() {
    let t = Team::from_str("A,B,ABCDEF").unwrap();
    assert_eq!(t.color, [0xab, 0xcd, 0xef]);
}

#[test]
fn team_from_str_multiple_hash_marks() {
    let t = Team::from_str("A,B,##00ff00").unwrap();
    assert_eq!(t.color, [0, 255, 0]);
}

#[test]
fn team_from_str_ignores_extra_fields() {
    let t = Team::from_str("A,B,#336699,note").unwrap();
    assert_eq!(t.color, [0x33, 0x66, 0x99]);
}

#[test]
fn team_from_str_missing_commas() {
    assert!(Team::from_str("NoCommasHere").is_none());
    assert!(Team::from_str("One,Field").is_none());
}

#[test]
fn team_from_str_bad_color() {
    assert!(Team::from_str("A,B,zz0000").is_none());
    assert!(Team::from_str("A,B,#ff80").is_none());
    assert!(Team::from_str("A,B,#ff8000ff").is_none());
}

#[test]
fn contains_str_finds_substring() {
    assert!(contains_str("the quick brown fox", "quick"));
    assert!(contains_str("abc", "abc"));
    assert!(contains_str("abc", ""));
    assert!(!contains_str("abc", "abcd"));
    assert!(!contains_str("the quick brown fox", "slow"));
}

#[test]
fn config_flag_detection() {
    let kml = "<Document>[[navarro::centerfit]]</Document>";
    assert!(config(kml, "centerfit"));
    assert!(!config(kml, "otherflag"));
    assert!(!config("<Document></Document>", "centerfit"));
}
