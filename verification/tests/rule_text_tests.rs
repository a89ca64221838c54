use warm_ml::rule_text::{is_conf_file_name, rule_ids_of_text};
use warm_ml::waf_engines::SecRule;

fn ids(text: &str) -> Vec<i64> {
    SecRule::extract_from_text(text).iter().map(|r| r.get_id()).collect()
}

#[test]
fn extracts_ids_in_order() {
    let text = "SecRule ARGS \"@rx x\" \"id:942100,phase:2,deny\"\nSecRule REQUEST_URI \"@rx y\" \"id : 1001 ,pass\"\n";
    assert_eq!(ids(text), vec![942100, 1001]);
}

#[test]
fn joins_continued_lines_before_matching() {
    assert_eq!(ids("SecRule ARGS \"x\" \\\n    \"id:5,deny\""), vec![5]);
    // A continuation inside the keyword breaks it: `i d:7` is no clause.
    assert_eq!(ids("i\\\nd:7"), Vec::<i64>::new());
    // A continuation after the colon becomes white space.
    assert_eq!(ids("id:\\\n9"), vec![9]);
}

#[test]
fn skips_ids_that_do_not_fit() {
    assert_eq!(ids("id:99999999999999999999 id:3"), vec![3]);
    assert_eq!(ids("id:9223372036854775807"), vec![i64::MAX]);
    assert_eq!(ids("id:9223372036854775808"), Vec::<i64>::new());
}

#[test]
fn unicode_digits_are_taken_but_do_not_parse() {
    // `٣` is a decimal digit that integer parsing refuses, so the whole run is skipped.
    assert_eq!(ids("id:12\u{663} id:4"), vec![4]);
}

#[test]
fn unicode_white_space_around_colon() {
    assert_eq!(ids("id\u{3000}:\u{a0}8"), vec![8]);
    assert_eq!(ids("id\t:\n 11"), vec![11]);
}

#[test]
fn clauses_need_digits_and_may_start_anywhere() {
    assert_eq!(ids("xid:1"), vec![1]);
    assert_eq!(ids("id:"), Vec::<i64>::new());
    assert_eq!(ids("id:x id;2 id:007"), vec![7]);
    assert_eq!(ids(""), Vec::<i64>::new());
    assert_eq!(rule_ids_of_text("id:1id:2"), vec![1, 2]);
}

#[test]
fn conf_file_names() {
    assert!(is_conf_file_name("REQUEST-942.conf"));
    assert!(is_conf_file_name("x..conf"));
    assert!(!is_conf_file_name(".conf"));
    assert!(!is_conf_file_name("a.conf.bak"));
    assert!(!is_conf_file_name("conf"));
    assert!(!is_conf_file_name(".."));
    assert!(!is_conf_file_name("a.CONF"));
    assert!(!is_conf_file_name("a."));
}
