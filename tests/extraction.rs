use audit_init::{
    extract_signatures, is_state_changing_signature, notes_appendix, render_file_section,
    render_scope_line, select_state_changing, ExtractError, ScopedFile,
};

fn strings(v: &[&str]) -> Vec<String> {
    v.iter().map(|s| s.to_string()).collect()
}

fn file(path: &str, text: Option<&str>) -> ScopedFile {
    ScopedFile { path: path.to_string(), text: text.map(|t| t.to_string()) }
}

const HEADING: &str = "\n\n# Public/External Functions (excluding view/pure)\n";

#[test]
fn text_without_matches_gives_no_signatures() {
    let r = extract_signatures("contract C { uint x; function f() internal {} }").unwrap();
    assert!(r.is_empty());
    let r = extract_signatures("").unwrap();
    assert!(r.is_empty());
}

#[test]
fn external_without_mutability_is_kept() {
    let r = extract_signatures("function set(uint x) external").unwrap();
    assert_eq!(r, strings(&["function set(uint x) external"]));
}

#[test]
fn view_and_pure_are_dropped_order_and_repeats_kept() {
    let text = "function a() public {}\n\
                function b() public view returns (uint) {}\n\
                function c(uint x) external pure {}\n\
                function a() public {}\n\
                function d(address viewer) external {}\n\
                function e() external {}";
    let r = extract_signatures(text).unwrap();
    assert_eq!(
        r,
        strings(&["function a() public", "function a() public", "function e() external"])
    );
}

#[test]
fn match_stops_at_first_closing_parenthesis() {
    let r = extract_signatures("function f(uint[] memory (x)) public").unwrap();
    assert!(r.is_empty());
    let r = extract_signatures("function   g ( uint a , uint b )   public").unwrap();
    assert_eq!(r, strings(&["function   g ( uint a , uint b )   public"]));
}

#[test]
fn selection_is_a_substring_test() {
    assert!(is_state_changing_signature("function f() public"));
    assert!(!is_state_changing_signature("function f() public view"));
    assert!(!is_state_changing_signature("function purely() external"));
    assert!(!is_state_changing_signature("function f(uint viewer) public"));
    let kept = select_state_changing(&strings(&["x view", "a", "pure y", "a", "b"]));
    assert_eq!(kept, strings(&["a", "a", "b"]));
}

#[test]
fn file_section_lists_signatures() {
    let s = render_file_section("A.sol", &strings(&["function f() public", "function g() external"]));
    assert_eq!(s, "\n## A.sol\n- function f() public\n- function g() external\n");
    assert_eq!(render_file_section("A.sol", &Vec::new()), "");
}

#[test]
fn scope_line_joins_paths_with_spaces() {
    let files = vec![file("A.sol", None), file("src/B.sol", None)];
    assert_eq!(render_scope_line(&files), "\ncode A.sol src/B.sol\n");
    assert_eq!(render_scope_line(&Vec::new()), "\ncode \n");
}

#[test]
fn filtered_file_gets_no_subsection() {
    let files = vec![
        file("A.sol", Some("function withdraw(uint amount) public")),
        file("B.sol", Some("function getBalance() public view returns (uint)")),
    ];
    let r = notes_appendix(&files).unwrap();
    let expected = format!(
        "\ncode A.sol B.sol\n{}\n## A.sol\n- function withdraw(uint amount) public\n",
        HEADING
    );
    assert_eq!(r, expected);
    assert!(!r.contains("## B.sol"));
}

#[test]
fn missing_file_is_skipped_and_later_files_reported() {
    let files = vec![
        file("gone.sol", None),
        file("C.sol", Some("function pay() external payable {}")),
    ];
    let r = notes_appendix(&files).unwrap();
    let expected = format!(
        "\ncode gone.sol C.sol\n{}\n## C.sol\n- function pay() external\n",
        HEADING
    );
    assert_eq!(r, expected);
}

#[test]
fn empty_scope_gives_only_the_header() {
    let r = notes_appendix(&Vec::new()).unwrap();
    assert_eq!(r, format!("\ncode \n{}", HEADING));
}

#[test]
fn pattern_is_accepted() {
    assert_ne!(extract_signatures("function f() public"), Err(ExtractError::PatternRefused));
}
