use audit_init::{
    accept_scope_line, collect_scope, load_scope, normalize_entries, render_scope, split_lines,
    strip_leading_dot_slash,
};

fn strings(v: &[&str]) -> Vec<String> {
    v.iter().map(|s| s.to_string()).collect()
}

#[test]
fn lines_follow_str_lines() {
    for text in ["", "\n", "a", "a\n", "a\nb", "a\r\nb\r\n", "a\n\nb\n", "a\r", "x\ry\n", "\n\n"] {
        let expected: Vec<String> = text.lines().map(|l| l.to_string()).collect();
        assert_eq!(split_lines(text), expected, "text {:?}", text);
    }
}

#[test]
fn leading_dot_slash_is_stripped_repeatedly() {
    assert_eq!(strip_leading_dot_slash("./src/A.sol"), "src/A.sol");
    assert_eq!(strip_leading_dot_slash("././A.sol"), "A.sol");
    assert_eq!(strip_leading_dot_slash("src/./A.sol"), "src/./A.sol");
    assert_eq!(strip_leading_dot_slash("../A.sol"), "../A.sol");
    assert_eq!(strip_leading_dot_slash("./"), "");
    assert_eq!(strip_leading_dot_slash("."), ".");
}

#[test]
fn normalization_is_idempotent() {
    let once = normalize_entries(&strings(&["./a.sol", "b.sol", "././c.sol"]));
    assert_eq!(once, strings(&["a.sol", "b.sol", "c.sol"]));
    assert_eq!(normalize_entries(&once), once);
}

#[test]
fn load_scope_strips_prefixes() {
    let r = load_scope("./src/A.sol\nsrc/B.sol\r\n./C.sol\n");
    assert_eq!(r, strings(&["src/A.sol", "src/B.sol", "C.sol"]));
    assert!(load_scope("").is_empty());
}

#[test]
fn reload_of_normalized_file_is_identical() {
    let text = "src/A.sol\nsrc/B.sol\n";
    assert_eq!(render_scope(&load_scope(text)), text);
    let text = "src/A.sol\n\nsrc/B.sol";
    assert_eq!(render_scope(&load_scope(text)), format!("{}\n", text));
    let first = render_scope(&load_scope("./x.sol\n./y.sol\n"));
    assert_eq!(first, "x.sol\ny.sol\n");
    assert_eq!(render_scope(&load_scope(&first)), first);
}

#[test]
fn render_empty_scope_is_a_newline() {
    assert_eq!(render_scope(&Vec::new()), "\n");
    assert_eq!(render_scope(&strings(&["a"])), "a\n");
}

#[test]
fn collection_stops_at_empty_line() {
    let r = collect_scope(&strings(&["a.sol", "./b.sol", "", "c.sol"]));
    assert_eq!(r, strings(&["a.sol", "./b.sol"]));
    assert!(collect_scope(&strings(&["", "a.sol"])).is_empty());
    assert_eq!(collect_scope(&strings(&["a.sol"])), strings(&["a.sol"]));
}

#[test]
fn accepting_lines_one_by_one() {
    let mut entries = Vec::new();
    assert!(accept_scope_line(&mut entries, "a.sol".to_string()));
    assert!(!accept_scope_line(&mut entries, String::new()));
    assert_eq!(entries, strings(&["a.sol"]));
}
