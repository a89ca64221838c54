use warm_ml::rule_files::{select_matching_paths, InvalidFileNamePattern};

fn strings(v: &[&str]) -> Vec<String> {
    v.iter().map(|s| s.to_string()).collect()
}

#[test]
fn keeps_the_matching_paths_in_order() {
    let paths = strings(&["rules/REQUEST-942.conf", "rules/notes.txt", "rules/REQUEST-941.conf", "rules/x.conf.bak"]);
    let kept = select_matching_paths(&paths, r"\.conf$").unwrap();
    assert_eq!(kept, strings(&["rules/REQUEST-942.conf", "rules/REQUEST-941.conf"]));
}

#[test]
fn a_pattern_matches_anywhere_in_the_path() {
    let paths = strings(&["crs/REQUEST-942-SQLI.conf", "crs/REQUEST-941-XSS.conf"]);
    let kept = select_matching_paths(&paths, "SQLI").unwrap();
    assert_eq!(kept, strings(&["crs/REQUEST-942-SQLI.conf"]));
    assert_eq!(select_matching_paths(&paths, "nothing").unwrap(), Vec::<String>::new());
}

#[test]
fn an_invalid_pattern_is_refused() {
    let paths = strings(&["a.conf"]);
    assert_eq!(
        select_matching_paths(&paths, "foo(bar"),
        Err(InvalidFileNamePattern { pattern: "foo(bar".to_string() })
    );
}
