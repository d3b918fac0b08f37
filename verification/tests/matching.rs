//! Wildcard matching, against hand-picked cases and against an
//! independent wildcard matcher.

use ziped::pattern::Matcher;

#[test]
fn literal_patterns_match_only_themselves() {
    assert!(Matcher::new("cat").matches("cat"));
    assert!(!Matcher::new("cat").matches("dog"));
    assert!(!Matcher::new("cat").matches("catalog"));
    assert!(!Matcher::new("cat").matches("a cat"));
}

#[test]
fn star_matches_any_run_including_empty() {
    assert!(Matcher::new("*").matches(""));
    assert!(Matcher::new("*").matches("anything at all"));
    assert!(Matcher::new("*cat*").matches("dog_cat_dog"));
    assert!(Matcher::new("*.txt").matches("notes.txt"));
    assert!(!Matcher::new("*.txt").matches("notes.txt.bak"));
    assert!(Matcher::new("a*b*c").matches("abc"));
    assert!(Matcher::new("a*b*c").matches("a-x-b-y-c"));
    assert!(!Matcher::new("a*b*c").matches("acb"));
}

#[test]
fn star_crosses_path_separators() {
    assert!(Matcher::new("*.txt").matches("deep/dir/notes.txt"));
    assert!(Matcher::new("src*").matches("src/lib/file.rs"));
}

#[test]
fn question_mark_matches_one_character() {
    assert!(Matcher::new("c?t").matches("cat"));
    assert!(Matcher::new("c?t").matches("cot"));
    assert!(!Matcher::new("c?t").matches("ct"));
    assert!(!Matcher::new("c?t").matches("cart"));
    assert!(!Matcher::new("????").matches("cat"));
    assert!(Matcher::new("???").matches("cat"));
}

#[test]
fn empty_pattern_matches_only_the_empty_name() {
    assert!(Matcher::new("").matches(""));
    assert!(!Matcher::new("").matches("x"));
}

#[test]
fn matching_agrees_with_the_wrapped_matcher() {
    let patterns = [
        "", "*", "?", "**", "*?", "?*", "a", "a*", "*a", "a?c", "*.txt", "test0?.txt",
        "*2.txt", "a*b*c*", "*a*a*a", "??*??", "x*?y", "*/*", "a/*/b",
    ];
    let names = [
        "", "a", "ab", "abc", "acb", "aaa", "aaaa", "test01.txt", "test02.txt", "x.txt",
        "notes.txt.bak", "a/b", "a/x/b", "a//b", "xzy", "xy", "cat", "*", "?",
    ];
    for pattern in patterns {
        let mine = Matcher::new(pattern);
        let theirs = wildmatch::WildMatch::new(pattern);
        for name in names {
            assert_eq!(
                mine.matches(name),
                theirs.matches(name),
                "pattern {:?} against {:?}",
                pattern,
                name
            );
        }
    }
}
