use dotfiles_manager::store::{
    add_package_to_array, add_to_match, append_entry, declaration, entries_body, indent_join,
    parse_setup_sh, pattern_for, remove_from_match, remove_package_from_array, PackageArray,
    StoreError,
};

const SCRIPT: &str = "#!/bin/bash\n# packages\ndeclare -a A=(\n    \"a\",\n    \"b\",\n    \"c\"\n)\n\ndeclare -a B=(\n    \"x:1\",\n    # comment\n\n    \"y\"\n)\ndeclare -A M=(\n    \"k\"\n)\necho done\n";

fn pairs(arrays: &[PackageArray]) -> Vec<(String, Vec<String>)> {
    arrays.iter().map(|a| (a.name.clone(), a.packages.clone())).collect()
}

fn strings(items: &[&str]) -> Vec<String> {
    items.iter().map(|s| s.to_string()).collect()
}

fn find<'a>(arrays: &'a [PackageArray], name: &str) -> &'a PackageArray {
    arrays.iter().find(|a| a.name == name).unwrap()
}

#[test]
fn parse_lists_indexed_then_associative() {
    let got = pairs(&parse_setup_sh(SCRIPT));
    assert_eq!(
        got,
        vec![
            ("A".to_string(), strings(&["a", "b", "c"])),
            ("B".to_string(), strings(&["x:1", "y"])),
            ("M".to_string(), strings(&["k"])),
        ]
    );
}

#[test]
fn parse_of_text_without_declarations_is_empty() {
    assert!(parse_setup_sh("").is_empty());
    assert!(parse_setup_sh("echo hello\nexport A=(1 2)\n").is_empty());
}

#[test]
fn parse_skips_malformed_blocks() {
    let text = "declare -a =(\n  \"a\"\n)\ndeclare -a EMPTY=()\ndeclare -a OPEN=(\n  \"a\"\ndeclare -x X=(\n \"b\"\n)\n";
    let got = pairs(&parse_setup_sh(text));
    assert_eq!(
        got,
        vec![("OPEN".to_string(), strings(&["a", "declare -x X=(", "b"]))]
    );
}

#[test]
fn parse_stops_a_body_at_the_first_closing_parenthesis() {
    let text = "declare -a P=(\n    \"f(x)\"\n    \"g\"\n)\n";
    let got = pairs(&parse_setup_sh(text));
    assert_eq!(got, vec![("P".to_string(), strings(&["f(x"]))]);
}

#[test]
fn parse_drops_the_separator_of_a_line() {
    let text = "declare -a NAME=(\n    \"entry1\",\n    \"entry2\"\n)\n";
    let got = pairs(&parse_setup_sh(text));
    assert_eq!(got, vec![("NAME".to_string(), strings(&["entry1", "entry2"]))]);
    let loose = "declare -a C=(\n  \"a\" ,\n\tb,\n  \"c,\",\n  \"d\",\n)\n";
    let got = pairs(&parse_setup_sh(loose));
    assert_eq!(got, vec![("C".to_string(), strings(&["a", "b", "c,", "d"]))]);
}

#[test]
fn parse_reads_bodies_without_separators_too() {
    let text = "declare -a P=(\n    \"a\"\n    b\n    \"c d\"\n)\n";
    let got = pairs(&parse_setup_sh(text));
    assert_eq!(got, vec![("P".to_string(), strings(&["a", "b", "c d"]))]);
}

#[test]
fn parse_again_after_rewriting_gives_the_same_arrays() {
    let first = parse_setup_sh(SCRIPT);
    let mut text = String::new();
    for a in first.iter().filter(|a| a.name != "M") {
        text.push_str(&declaration(&a.name, &entries_body(&a.packages)));
        text.push('\n');
    }
    let second = parse_setup_sh(&text);
    assert_eq!(
        pairs(&second),
        vec![
            ("A".to_string(), strings(&["a", "b", "c"])),
            ("B".to_string(), strings(&["x:1", "y"])),
        ]
    );
}

#[test]
fn append_preserves_siblings() {
    let text = add_package_to_array(SCRIPT, "A", "x").unwrap();
    let before = parse_setup_sh(SCRIPT);
    let after = parse_setup_sh(&text);
    assert_eq!(find(&after, "A").packages, strings(&["a", "b", "c", "x"]));
    assert_eq!(find(&after, "A").packages.last().unwrap(), "x");
    assert_eq!(find(&after, "B").packages, find(&before, "B").packages);
    assert_eq!(find(&after, "M").packages, find(&before, "M").packages);
    assert_eq!(after.len(), 3);
}

#[test]
fn append_to_one_of_two_arrays() {
    let text = "declare -a A=(\n    \"a\"\n)\ndeclare -a B=(\n    \"b\"\n)\n";
    let new_text = add_package_to_array(text, "A", "x").unwrap();
    assert_eq!(
        new_text,
        "declare -a A=(\n\n    \"a\",\n    \"x\"\n)\ndeclare -a B=(\n    \"b\"\n)\n"
    );
    assert_eq!(
        pairs(&parse_setup_sh(&new_text)),
        vec![("A".to_string(), strings(&["a", "x"])), ("B".to_string(), strings(&["b"]))]
    );
    assert!(new_text.ends_with("declare -a B=(\n    \"b\"\n)\n"));
}

#[test]
fn removing_the_appended_entry_undoes_the_append() {
    let before = pairs(&parse_setup_sh(SCRIPT));
    let added = add_package_to_array(SCRIPT, "A", "v").unwrap();
    let back = remove_package_from_array(&added, "A", 3).unwrap();
    assert_eq!(pairs(&parse_setup_sh(&back)), before);
    let again = add_package_to_array(&back, "A", "w").unwrap();
    assert_eq!(find(&parse_setup_sh(&again), "A").packages, strings(&["a", "b", "c", "w"]));
}

#[test]
fn removal_in_the_written_format() {
    let text = "declare -a A=(\n    \"a\",\n    \"b\",\n    \"c\"\n)\n";
    let new_text = remove_package_from_array(text, "A", 1).unwrap();
    assert_eq!(new_text, "declare -a A=(\n    \"a\",\n    \"c\"\n)\n");
    assert_eq!(
        pairs(&parse_setup_sh(&new_text)),
        vec![("A".to_string(), strings(&["a", "c"]))]
    );
}

#[test]
fn append_rewrites_only_the_block() {
    let text = add_package_to_array(SCRIPT, "A", "x").unwrap();
    let expected = "#!/bin/bash\n# packages\ndeclare -a A=(\n\n    \"a\",\n    \"b\",\n    \"c\",\n    \"x\"\n)\n\ndeclare -a B=(\n    \"x:1\",\n    # comment\n\n    \"y\"\n)\ndeclare -A M=(\n    \"k\"\n)\necho done\n";
    assert_eq!(text, expected);
}

#[test]
fn append_to_a_blank_body_makes_the_sole_line() {
    let text = add_package_to_array("x\ndeclare -a E=(\n  \n)\ny", "E", "first").unwrap();
    assert_eq!(text, "x\ndeclare -a E=(\n    \"first\"\n)\ny");
    assert_eq!(append_entry(" \n\t", "v"), "    \"v\"");
    assert_eq!(append_entry("\n    \"a\"\n", "v"), "\n    \"a\",\n    \"v\"");
}

#[test]
fn append_to_a_missing_array_is_not_found() {
    assert_eq!(add_package_to_array(SCRIPT, "Z", "x"), Err(StoreError::NotFound));
    assert_eq!(add_package_to_array(SCRIPT, "M", "x"), Err(StoreError::NotFound));
    assert_eq!(add_package_to_array("", "A", "x"), Err(StoreError::NotFound));
    assert_eq!(add_package_to_array(SCRIPT, "A(", "x"), Err(StoreError::NotFound));
}

#[test]
fn out_of_range_removal_is_a_no_op() {
    assert_eq!(remove_package_from_array(SCRIPT, "A", 999).unwrap(), SCRIPT);
    assert_eq!(remove_package_from_array(SCRIPT, "A", 3).unwrap(), SCRIPT);
}

#[test]
fn valid_removal_preserves_order() {
    let text = remove_package_from_array(SCRIPT, "A", 1).unwrap();
    let after = parse_setup_sh(&text);
    assert_eq!(find(&after, "A").packages, strings(&["a", "c"]));
    assert_eq!(find(&after, "B").packages, strings(&["x:1", "y"]));
    let expected = "#!/bin/bash\n# packages\ndeclare -a A=(\n    \"a\",\n    \"c\"\n)\n\ndeclare -a B=(\n    \"x:1\",\n    # comment\n\n    \"y\"\n)\ndeclare -A M=(\n    \"k\"\n)\necho done\n";
    assert_eq!(text, expected);
}

#[test]
fn removal_counts_comment_lines() {
    let text = remove_package_from_array(SCRIPT, "B", 1).unwrap();
    let after = parse_setup_sh(&text);
    assert_eq!(find(&after, "B").packages, strings(&["x:1", "y"]));
    assert!(!text.contains("# comment"));
    assert!(text.contains("declare -a B=(\n    \"x:1\",\n    \"y\"\n)"));
}

#[test]
fn removal_of_the_first_and_last_line() {
    let first = remove_package_from_array(SCRIPT, "A", 0).unwrap();
    assert_eq!(find(&parse_setup_sh(&first), "A").packages, strings(&["b", "c"]));
    let last = remove_package_from_array(SCRIPT, "A", 2).unwrap();
    assert_eq!(find(&parse_setup_sh(&last), "A").packages, strings(&["a", "b"]));
}

#[test]
fn removal_from_a_missing_array_is_not_found() {
    assert_eq!(remove_package_from_array(SCRIPT, "Z", 0), Err(StoreError::NotFound));
    assert_eq!(remove_package_from_array("", "A", 0), Err(StoreError::NotFound));
}

#[test]
fn only_the_first_declaration_of_a_name_is_rewritten() {
    let text = "declare -a A=(\n    \"a\"\n)\ndeclare -a A=(\n    \"b\"\n)\n";
    let got = remove_package_from_array(text, "A", 0).unwrap();
    assert_eq!(got, "declare -a A=(\n\n)\ndeclare -a A=(\n    \"b\"\n)\n");
}

#[test]
fn a_match_is_rewritten_between_its_surroundings() {
    let found = (
        "before ".to_string(),
        "declare -a A=(old)".to_string(),
        Some("old".to_string()),
        " after".to_string(),
    );
    assert_eq!(
        add_to_match(&found, "A", "new").unwrap(),
        "before declare -a A=(\nold,\n    \"new\"\n) after"
    );
    assert_eq!(
        remove_from_match(&found, "whole", "A", 0).unwrap(),
        "before declare -a A=(\n\n) after"
    );
    assert_eq!(remove_from_match(&found, "whole", "A", 1).unwrap(), "whole");
    let bare = ("a".to_string(), "b".to_string(), None, "c".to_string());
    assert_eq!(add_to_match(&bare, "A", "new"), Err(StoreError::NotFound));
    assert_eq!(remove_from_match(&bare, "abc", "A", 0), Err(StoreError::NotFound));
}

#[test]
fn entries_are_written_one_on_each_line() {
    assert_eq!(entries_body(&strings(&[])), "");
    assert_eq!(entries_body(&strings(&["a"])), "    \"a\"");
    assert_eq!(entries_body(&strings(&["a", "b c"])), "    \"a\",\n    \"b c\"");
    assert_eq!(
        entries_body(&strings(&["entry1", "entry2", "e3"])),
        "    \"entry1\",\n    \"entry2\",\n    \"e3\""
    );
    let body = "\n  \"one\" \n# two\n\n three \n\"\"four\"\n";
    let first = dotfiles_manager::rows::rows(body, true);
    assert_eq!(first, strings(&["one", "three", "four"]));
    assert_eq!(dotfiles_manager::rows::rows(&entries_body(&first), true), first);
}

#[test]
fn the_pieces_of_a_declaration() {
    assert_eq!(pattern_for("PKG"), "declare\\s+-a\\s+PKG=\\(([^)]+)\\)");
    assert_eq!(declaration("N", "    \"a\""), "declare -a N=(\n    \"a\"\n)");
    assert_eq!(indent_join(&strings(&[])), "");
    assert_eq!(indent_join(&strings(&["a"])), "    a");
    assert_eq!(indent_join(&strings(&["a", "b", "c"])), "    a\n    b\n    c");
}
