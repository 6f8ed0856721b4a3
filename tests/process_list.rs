use task_manager::process_list::{
    precedes, sort_records, Columns, Order, ProcessListState, ProcessRecord, SearchError,
};
use task_manager::query::{number_of, parse_labels, Label, ParseFailure};
use task_manager::settings::Settings;
use task_manager::text::{chars_lt, chars_of, folded, text_contains, text_lt};

fn rec(pid: usize, owner: Option<&str>, name: &str) -> ProcessRecord {
    ProcessRecord { pid, owner: owner.map(|o| o.to_string()), name: name.to_string() }
}

fn snapshot() -> Vec<ProcessRecord> {
    vec![
        rec(1001, Some("root"), "init"),
        rec(2002, Some("alice"), "firefox"),
        rec(2200, Some("alice"), "Find"),
    ]
}

fn state(search: &str, regex: bool, label_search: bool, case_sensitive: bool) -> ProcessListState {
    let mut st = ProcessListState::default();
    st.search = search.to_string();
    st.regex = regex;
    st.label_search = label_search;
    st.case_sensitive = case_sensitive;
    st
}

fn pids(v: &[&ProcessRecord]) -> Vec<usize> {
    v.iter().map(|r| r.pid).collect()
}

#[test]
fn label_name_is_case_insensitive_substring() {
    let snap = snapshot();
    let st = state("name:find", false, true, false);
    let v = st.filtered_processes(&snap).unwrap();
    assert_eq!(pids(&v), vec![2200]);
    assert_eq!(v[0].owner.as_deref(), Some("alice"));
    assert_eq!(v[0].name, "Find");
}

#[test]
fn label_pid_and_owner_combine() {
    let snap = snapshot();
    let st = state("pid:2002 owner:alice", false, true, false);
    let v = st.filtered_processes(&snap).unwrap();
    assert_eq!(pids(&v), vec![2002]);
    assert_eq!(v[0].name, "firefox");
}

#[test]
fn label_unknown_owner_matches_nothing() {
    let snap = snapshot();
    let st = state("owner:\"bob\"", false, true, false);
    assert_eq!(st.filtered_processes(&snap), Ok(vec![]));
}

#[test]
fn label_malformed_pid_matches_nothing() {
    let snap = snapshot();
    let st = state("pid:abc", false, true, false);
    assert_eq!(st.filtered_processes(&snap), Ok(vec![]));
}

#[test]
fn malformed_queries_never_match_everything() {
    let snap = snapshot();
    for q in ["colour:red", "name:\"fire", "name:fire ", " name:fire", "name:", "pid:1x", "name:\"a\"b", "owner"] {
        let st = state(q, false, true, false);
        assert_eq!(st.filtered_processes(&snap), Ok(vec![]), "query {q}");
    }
}

#[test]
fn empty_label_query_matches_everything() {
    let snap = snapshot();
    let st = state("", false, true, false);
    assert_eq!(pids(&st.filtered_processes(&snap).unwrap()), vec![1001, 2002, 2200]);
}

#[test]
fn clicking_active_header_flips_direction() {
    let mut st = ProcessListState::default();
    st.select_column(Columns::Owner);
    assert_eq!(st.sort, Columns::Owner);
    assert_eq!(st.order, Order::Asc);
    st.select_column(Columns::Owner);
    assert_eq!(st.sort, Columns::Owner);
    assert_eq!(st.order, Order::Desc);
}

#[test]
fn clicking_other_header_resets_to_ascending() {
    let mut st = ProcessListState::default();
    st.select_column(Columns::Pid);
    assert_eq!(st.order, Order::Desc);
    st.select_column(Columns::Name);
    assert_eq!(st.sort, Columns::Name);
    assert_eq!(st.order, Order::Asc);
}

#[test]
fn toggling_twice_restores_order() {
    let snap = snapshot();
    let mut st = state("", false, false, false);
    st.select_column(Columns::Name);
    let before = pids(&st.sorted_processes(&snap).unwrap());
    st.select_column(Columns::Name);
    assert_eq!(pids(&st.sorted_processes(&snap).unwrap()), vec![1001, 2002, 2200]);
    st.select_column(Columns::Name);
    assert_eq!(pids(&st.sorted_processes(&snap).unwrap()), before);
    assert_eq!(before, vec![2200, 2002, 1001]);
}

#[test]
fn order_not_flips() {
    assert_eq!(!Order::Asc, Order::Desc);
    assert_eq!(!Order::Desc, Order::Asc);
}

#[test]
fn sort_by_pid_descending() {
    let snap = snapshot();
    let mut st = state("", false, false, false);
    st.select_column(Columns::Pid);
    assert_eq!(pids(&st.sorted_processes(&snap).unwrap()), vec![2200, 2002, 1001]);
}

#[test]
fn sort_by_owner_is_stable() {
    let snap = vec![
        rec(5, Some("bob"), "a"),
        rec(3, Some("alice"), "b"),
        rec(9, None, "c"),
        rec(1, Some("alice"), "d"),
        rec(7, Some("Bob"), "e"),
    ];
    let refs: Vec<&ProcessRecord> = snap.iter().collect();
    let asc = sort_records(refs.clone(), Columns::Owner, Order::Asc, false);
    assert_eq!(pids(&asc), vec![9, 3, 1, 5, 7]);
    let desc = sort_records(refs.clone(), Columns::Owner, Order::Desc, false);
    assert_eq!(pids(&desc), vec![5, 7, 3, 1, 9]);
    let sensitive = sort_records(refs, Columns::Owner, Order::Asc, true);
    assert_eq!(pids(&sensitive), vec![9, 7, 3, 1, 5]);
}

#[test]
fn sorting_sorted_is_identity() {
    let snap = snapshot();
    let refs: Vec<&ProcessRecord> = snap.iter().collect();
    let once = sort_records(refs, Columns::Name, Order::Asc, false);
    let twice = sort_records(once.clone(), Columns::Name, Order::Asc, false);
    assert_eq!(pids(&once), vec![2200, 2002, 1001]);
    assert_eq!(pids(&twice), pids(&once));
}

#[test]
fn case_insensitive_match_ignores_case_of_both() {
    let a = vec![rec(1, Some("root"), "FireFox")];
    let b = vec![rec(1, Some("root"), "firefox")];
    for q in ["FIRE", "fire", "fIrE"] {
        let st = state(q, false, false, false);
        assert_eq!(pids(&st.filtered_processes(&a).unwrap()), vec![1]);
        assert_eq!(pids(&st.filtered_processes(&b).unwrap()), vec![1]);
    }
    let st = state("FIRE", false, false, true);
    assert_eq!(st.filtered_processes(&b), Ok(vec![]));
}

#[test]
fn plain_search_is_substring_of_name() {
    let snap = snapshot();
    let st = state("fi", false, false, false);
    assert_eq!(pids(&st.filtered_processes(&snap).unwrap()), vec![2002, 2200]);
    let st = state("fi", false, false, true);
    assert_eq!(pids(&st.filtered_processes(&snap).unwrap()), vec![2002]);
}

#[test]
fn regex_search_matches_names() {
    let snap = snapshot();
    let st = state("^[fF]i", true, false, false);
    assert_eq!(pids(&st.filtered_processes(&snap).unwrap()), vec![2002, 2200]);
    let st = state("x$", true, false, false);
    assert_eq!(pids(&st.filtered_processes(&snap).unwrap()), vec![2002]);
}

#[test]
fn invalid_regex_is_an_error() {
    let snap = snapshot();
    let st = state("(fire", true, false, false);
    assert_eq!(st.filtered_processes(&snap), Err(SearchError::InvalidPattern));
    let st = state("name:\"(fire\"", true, true, false);
    assert_eq!(st.sorted_processes(&snap), Err(SearchError::InvalidPattern));
}

#[test]
fn label_regex_applies_to_name_only() {
    let snap = snapshot();
    let st = state("owner:ali name:\"^F\"", true, true, false);
    assert_eq!(pids(&st.filtered_processes(&snap).unwrap()), vec![2200]);
    let st = state("owner:a.* name:.", true, true, false);
    assert_eq!(st.filtered_processes(&snap), Ok(vec![]));
}

#[test]
fn unresolved_owner_never_matches_owner_clause() {
    let snap = vec![rec(1, None, "ghost"), rec(2, Some("root"), "ghost")];
    let st = state("owner:\"\"", false, true, false);
    assert_eq!(pids(&st.filtered_processes(&snap).unwrap()), vec![2]);
    let st = state("name:ghost", false, true, false);
    assert_eq!(pids(&st.filtered_processes(&snap).unwrap()), vec![1, 2]);
}

#[test]
fn parse_quoted_values_with_spaces_and_escapes() {
    let v = parse_labels("pid:643 owner:root name:\"fire \\\"fox\\\\\"").unwrap();
    assert_eq!(v.len(), 3);
    assert!(matches!(v[0], Label::Pid(643)));
    assert!(matches!(&v[1], Label::Owner(o) if o == "root"));
    assert!(matches!(&v[2], Label::Name(n) if n == "fire \"fox\\"));
}

#[test]
fn parse_separators_and_failures() {
    assert_eq!(parse_labels("name:a \t owner:b").unwrap().len(), 2);
    assert_eq!(parse_labels("").unwrap().len(), 0);
    assert!(matches!(parse_labels("name:a  "), Err(ParseFailure)));
    assert!(matches!(parse_labels("Name:a"), Err(ParseFailure)));
    assert!(matches!(parse_labels("name:\"a"), Err(ParseFailure)));
    assert!(matches!(parse_labels("pid:18446744073709551616"), Err(ParseFailure)));
    assert!(matches!(parse_labels("pid:\"42\""), Ok(v) if matches!(v[0], Label::Pid(42))));
}

#[test]
fn number_of_digits() {
    assert_eq!(number_of(&"0042".chars().collect()), Some(42));
    assert_eq!(number_of(&"18446744073709551615".chars().collect()), Some(usize::MAX));
    assert_eq!(number_of(&"".chars().collect()), None);
    assert_eq!(number_of(&"4a".chars().collect()), None);
}

#[test]
fn text_helpers() {
    assert_eq!(folded("FiRe", false), "fire");
    assert_eq!(folded("FiRe", true), "FiRe");
    assert!(text_contains("FireFox", "EFO", false));
    assert!(!text_contains("FireFox", "EFO", true));
    assert!(text_lt("Apple", "banana", false));
    assert!(text_lt("Apple", "banana", true));
    assert!(!text_lt("apple", "Banana", true));
    assert!(!text_lt("b", "a", true));
    assert!(chars_lt(&chars_of("ab"), &chars_of("abc")));
    assert!(!chars_lt(&chars_of("abc"), &chars_of("abc")));
}

#[test]
fn precedes_follows_direction() {
    let a = rec(1, Some("x"), "a");
    let b = rec(2, Some("y"), "b");
    assert!(precedes(&a, &b, Columns::Pid, Order::Asc, false));
    assert!(!precedes(&a, &b, Columns::Pid, Order::Desc, false));
    assert!(precedes(&b, &a, Columns::Name, Order::Desc, false));
}

#[test]
fn default_settings() {
    assert_eq!(Settings::default().update_interval_ms, 1000);
    let st = ProcessListState::default();
    assert!(st.first && !st.regex && !st.label_search && !st.case_sensitive);
    assert_eq!(st.search, "");
}

#[test]
fn matches_single_record() {
    let r = rec(2002, Some("alice"), "firefox");
    assert_eq!(state("pid:2002 owner:ALI", false, true, false).matches(&r), Ok(true));
    assert_eq!(state("pid:2002 owner:ALI", false, true, true).matches(&r), Ok(false));
    assert_eq!(state("name:fox", false, true, false).matches(&r), Ok(true));
    assert_eq!(state("pid:2003", false, true, false).matches(&r), Ok(false));
    assert_eq!(state("[", true, false, false).matches(&r), Err(SearchError::InvalidPattern));
}
