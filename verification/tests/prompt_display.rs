use scarb_clean::display::display_path;
use scarb_clean::locator::DirPath;
use scarb_clean::prompt::is_affirmative;

fn affirmed(s: &str) -> bool {
    is_affirmative(&s.as_bytes().to_vec())
}

fn dp(parts: &[&str]) -> DirPath {
    DirPath { parts: parts.iter().map(|s| s.as_bytes().to_vec()).collect() }
}

fn shown(path: &DirPath, base: &DirPath) -> String {
    String::from_utf8(display_path(path, base)).unwrap()
}

#[test]
fn plain_yes_answers_are_affirmative() {
    assert!(affirmed("y"));
    assert!(affirmed("yes"));
}

#[test]
fn case_and_whitespace_are_ignored() {
    assert!(affirmed("Y"));
    assert!(affirmed("YES"));
    assert!(affirmed("Yes"));
    assert!(affirmed(" y\n"));
    assert!(affirmed("\tyEs \r\n"));
}

#[test]
fn anything_else_is_a_refusal() {
    assert!(!affirmed(""));
    assert!(!affirmed("\n"));
    assert!(!affirmed("n"));
    assert!(!affirmed("no"));
    assert!(!affirmed("yeah"));
    assert!(!affirmed("y es"));
    assert!(!affirmed("yess"));
    assert!(!affirmed("oui"));
}

#[test]
fn base_itself_is_shown_as_dot() {
    let base = dp(&["home", "me", "src"]);
    assert_eq!(shown(&base, &base), ".");
}

#[test]
fn path_under_base_is_shown_relative() {
    let base = dp(&["home", "me"]);
    let path = dp(&["home", "me", "proj", "a"]);
    assert_eq!(shown(&path, &base), "proj/a");
}

#[test]
fn unrelated_path_is_shown_in_full() {
    let base = dp(&["home", "me"]);
    let path = dp(&["var", "tmp", "x"]);
    assert_eq!(shown(&path, &base), "var/tmp/x");
}

#[test]
fn partial_component_match_is_not_relative() {
    // "home/me2" does not lie under "home/me".
    let base = dp(&["home", "me"]);
    let path = dp(&["home", "me2", "a"]);
    assert_eq!(shown(&path, &base), "home/me2/a");
}
