use scarb_clean::locator::DirPath;
use scarb_clean::locator::find_workspaces;
use scarb_clean::locator::is_marker_file_name;

fn dp(parts: &[&str]) -> DirPath {
    DirPath { parts: parts.iter().map(|s| s.as_bytes().to_vec()).collect() }
}

#[test]
fn marker_name_matches_exactly() {
    assert!(is_marker_file_name(&b"Scarb.toml".to_vec()));
    assert!(!is_marker_file_name(&b"scarb.toml".to_vec()));
    assert!(!is_marker_file_name(&b"Scarb.tom".to_vec()));
    assert!(!is_marker_file_name(&b"Scarb.tomll".to_vec()));
    assert!(!is_marker_file_name(&b"Cargo.toml".to_vec()));
    assert!(!is_marker_file_name(&b"".to_vec()));
}

#[test]
fn scenario_nested_and_sibling() {
    // tree: /root/A/Scarb.toml, /root/A/sub/Scarb.toml, /root/B/Scarb.toml,
    // /root/C/no-manifest/ -- expected workspaces: /root/A and /root/B.
    let marked = vec![
        dp(&["root", "A"]),
        dp(&["root", "A", "sub"]),
        dp(&["root", "B"]),
    ];
    let found = find_workspaces(&marked);
    assert_eq!(found, vec![dp(&["root", "A"]), dp(&["root", "B"])]);
}

#[test]
fn pruning_cuts_all_descendants() {
    let marked = vec![
        dp(&["r", "a", "x", "deep"]),
        dp(&["r", "a"]),
        dp(&["r", "a", "x"]),
    ];
    let found = find_workspaces(&marked);
    assert_eq!(found, vec![dp(&["r", "a"])]);
}

#[test]
fn completeness_keeps_independent_roots() {
    let marked = vec![
        dp(&["r", "b"]),
        dp(&["r", "a"]),
        dp(&["q"]),
    ];
    let found = find_workspaces(&marked);
    assert_eq!(found, vec![dp(&["q"]), dp(&["r", "a"]), dp(&["r", "b"])]);
}

#[test]
fn duplicates_reported_once() {
    let marked = vec![dp(&["r", "a"]), dp(&["r", "a"]), dp(&["r", "a"])];
    let found = find_workspaces(&marked);
    assert_eq!(found, vec![dp(&["r", "a"])]);
}

#[test]
fn output_independent_of_report_order() {
    let one = vec![dp(&["r", "b"]), dp(&["r", "a", "n"]), dp(&["r", "a"])];
    let two = vec![dp(&["r", "a"]), dp(&["r", "b"]), dp(&["r", "a", "n"])];
    assert_eq!(find_workspaces(&one), find_workspaces(&two));
}

#[test]
fn running_twice_gives_identical_output() {
    let marked = vec![dp(&["r", "b"]), dp(&["r", "a"])];
    assert_eq!(find_workspaces(&marked), find_workspaces(&marked));
}

#[test]
fn empty_report_gives_empty_result() {
    let found = find_workspaces(&Vec::new());
    assert!(found.is_empty());
}

#[test]
fn root_itself_can_be_a_workspace() {
    let marked = vec![dp(&["r"]), dp(&["r", "a"]), dp(&["r", "b", "c"])];
    let found = find_workspaces(&marked);
    assert_eq!(found, vec![dp(&["r"])]);
}

#[test]
fn order_is_componentwise_not_joined() {
    // "a-b" as one component sorts after the two-component "a"/"c",
    // because components compare one by one ("a" is a prefix of "a-b").
    let marked = vec![dp(&["a-b"]), dp(&["a", "c"])];
    let found = find_workspaces(&marked);
    assert_eq!(found, vec![dp(&["a", "c"]), dp(&["a-b"])]);
}

#[test]
fn sibling_with_shared_name_prefix_is_kept() {
    // "ab" is not an ancestor of "abc": prefix is per component.
    let marked = vec![dp(&["r", "ab"]), dp(&["r", "abc"])];
    let found = find_workspaces(&marked);
    assert_eq!(found, vec![dp(&["r", "ab"]), dp(&["r", "abc"])]);
}
