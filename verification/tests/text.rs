use dotfiles_manager::rows::rows;
use dotfiles_manager::text::{
    back_index, char_is_space, chars_of, contains, front_index, matches_at, strip_range, Strip,
};

fn chars(s: &str) -> Vec<char> {
    s.chars().collect()
}

#[test]
fn white_space_is_what_the_standard_library_says() {
    let mut n: u32 = 0;
    while n <= 0x3100 {
        if let Some(c) = char::from_u32(n) {
            assert_eq!(char_is_space(c), c.is_whitespace(), "U+{:04X}", n);
        }
        n += 1;
    }
    assert!(!char_is_space('\u{200B}'));
    assert!(!char_is_space('\u{FEFF}'));
}

#[test]
fn chars_of_keeps_every_character() {
    assert_eq!(chars_of(""), Vec::<char>::new());
    assert_eq!(chars_of("a\u{2713}b"), vec!['a', '\u{2713}', 'b']);
}

#[test]
fn stripping_finds_the_inner_range() {
    let v = chars("  \"\"ab\" \t");
    assert_eq!(front_index(&v, 0, v.len(), Strip::Space), 2);
    assert_eq!(back_index(&v, 0, v.len(), Strip::Space), 7);
    assert_eq!(strip_range(&v, 0, v.len(), Strip::Space), (2, 7));
    assert_eq!(strip_range(&v, 2, 7, Strip::Quote), (4, 6));
    let tail = chars("\"a\", ,\t");
    assert_eq!(back_index(&tail, 0, tail.len(), Strip::Separator), 3);
    assert_eq!(front_index(&tail, 3, tail.len(), Strip::Separator), tail.len());
    let blank = chars(" \n ");
    assert_eq!(strip_range(&blank, 0, 3, Strip::Space), (3, 3));
    assert_eq!(strip_range(&blank, 1, 1, Strip::Space), (1, 1));
}

#[test]
fn search_finds_a_pattern_anywhere() {
    let hay = chars("say [INFO] now");
    assert!(contains(&hay, &chars("[INFO]")));
    assert!(contains(&hay, &chars("say")));
    assert!(contains(&hay, &chars("now")));
    assert!(contains(&hay, &chars("")));
    assert!(!contains(&hay, &chars("[INFO] x")));
    assert!(!contains(&chars("ab"), &chars("abc")));
    assert!(contains(&chars(""), &chars("")));
    assert!(matches_at(&hay, &chars("[INFO]"), 4));
    assert!(!matches_at(&hay, &chars("[INFO]"), 3));
}

#[test]
fn entries_are_trimmed_unquoted_and_filtered() {
    let body = "  \"a\" \n\n# c\n\"#d\"\n \u{a0}b\u{3000}\r\n\"\"x\"\"\n\"\"";
    let got = rows(body, true);
    assert_eq!(got, vec!["a".to_string(), "b".to_string(), "x".to_string()]);
}

#[test]
fn entries_lose_the_separator_after_them() {
    let body = "\"a\",\n \"b\" , \nc,,\n\",\"\n,\n \"d,\",\n# e,\n";
    let got = rows(body, true);
    assert_eq!(
        got,
        vec!["a".to_string(), "b".to_string(), "c".to_string(), ",".to_string(), "d,".to_string()]
    );
    assert_eq!(
        rows(body, false),
        vec![
            "\"a\",".to_string(),
            "\"b\" ,".to_string(),
            "c,,".to_string(),
            "\",\"".to_string(),
            ",".to_string(),
            "\"d,\",".to_string(),
            "# e,".to_string()
        ]
    );
}

#[test]
fn lines_are_trimmed_and_blank_ones_dropped() {
    let body = "  \"a\" \n\n# c\n\"#d\"\n \u{a0}b\u{3000}\r\n";
    let got = rows(body, false);
    assert_eq!(
        got,
        vec!["\"a\"".to_string(), "# c".to_string(), "\"#d\"".to_string(), "b".to_string()]
    );
    assert!(rows("", false).is_empty());
    assert!(rows("\n \n", true).is_empty());
}

#[test]
fn entries_match_the_standard_library_on_lines() {
    let body = "\r\n  \"one\",\r\n\t'two'\n#three\n  \"four five\" , \n\"";
    let expected: Vec<String> = body
        .lines()
        .map(|line| {
            line.trim_start()
                .trim_end_matches(|c: char| c.is_whitespace() || c == ',')
                .trim_matches('"')
                .to_string()
        })
        .filter(|line| !line.is_empty() && !line.starts_with('#'))
        .collect();
    assert_eq!(rows(body, true), expected);
    assert_eq!(expected, vec!["one".to_string(), "'two'".to_string(), "four five".to_string()]);
}
