use warm_ml::http_request::HttpRequest;
use warm_ml::waf_engines::{bind_rule_ids, MockEngine, RuleIndex, SecRule, WafEngine};

#[test]
fn mock_engine_rules_and_index() {
    let engine = MockEngine::default();
    assert_eq!(engine.get_num_rules(), 4);
    let ids: Vec<i64> = engine.get_rules().iter().map(|r| r.get_id()).collect();
    assert_eq!(ids, vec![1, 2, 3, 4]);
    assert_eq!(engine.get_rule_index(1), Some(&0));
    assert_eq!(engine.get_rule_index(3), Some(&2));
    assert_eq!(engine.get_rule_index(4), Some(&3));
    assert_eq!(engine.get_rule_index(9), None);
    assert_eq!(engine.get_rule_index(0), None);
}

#[test]
fn mock_engine_evaluates_the_target() {
    let engine = MockEngine::default();
    let ids = |uri: &str| -> Vec<i64> {
        engine.evaluate(&HttpRequest::get(uri)).iter().map(|r| r.get_id()).collect()
    };
    assert_eq!(ids("/t?a=admin"), vec![1]);
    assert_eq!(ids("/test/<script>"), vec![2, 3]);
    assert_eq!(ids("/admin/test?<script>"), vec![1, 2, 3]);
    assert_eq!(ids("/x%00"), vec![4]);
    assert_eq!(ids("/?a=%00"), vec![4]);
    assert_eq!(ids("/x\0"), Vec::<i64>::new());
    assert_eq!(ids("/ok"), Vec::<i64>::new());
}

#[test]
fn mock_engine_blocks_what_triggers_a_rule() {
    let engine = MockEngine::default();
    assert!(engine.should_block(&HttpRequest::get("/admin")));
    assert!(!engine.should_block(&HttpRequest::get("/home")));
}

#[test]
fn binding_maps_ids_to_their_last_position() {
    let rules = vec![SecRule { id: 5 }, SecRule { id: 6 }, SecRule { id: 5 }];
    let m = bind_rule_ids(&rules);
    assert_eq!(m.len(), 2);
    assert_eq!(m.get(&5), Some(&2));
    assert_eq!(m.get(&6), Some(&1));
    assert_eq!(m.get(&7), None);
    assert!(bind_rule_ids(&Vec::new()).is_empty());
}

#[test]
fn every_added_rule_is_found_by_its_id() {
    let rules = vec![SecRule { id: 10 }, SecRule { id: 20 }, SecRule { id: 10 }, SecRule { id: 30 }];
    let m = bind_rule_ids(&rules);
    for rule in &rules {
        let i = *m.get(&rule.get_id()).expect("every rule is indexed");
        assert_eq!(rules[i].get_id(), rule.get_id());
    }
}

#[test]
fn rule_id_getter() {
    assert_eq!(SecRule { id: -3 }.get_id(), -3);
}

fn encoded_query(payload: &str) -> HttpRequest {
    HttpRequest::get(&format!("/?{}", urlencoding::encode(payload)))
}

#[test]
fn mock_engine_on_url_encoded_payloads() {
    let engine = MockEngine::default();
    let ids = |req: &HttpRequest| engine.evaluate(req).iter().map(|r| r.get_id()).collect::<Vec<i64>>();
    assert_eq!(ids(&encoded_query("a=/admin/")), vec![1]);
    assert_eq!(ids(&encoded_query("a=admin")), vec![1]);
    // Encoding turns the angle brackets into `%3C` and `%3E`, so the tag is not seen.
    assert_eq!(ids(&encoded_query("a=<script>alert</script>")), Vec::<i64>::new());
    assert_eq!(ids(&encoded_query("a=something")), Vec::<i64>::new());
    // A NUL byte reaches the target as the escape `%00`.
    assert_eq!(ids(&encoded_query("a=\0")), vec![4]);
    assert!(engine.should_block(&encoded_query("a=admin")));
    assert!(!engine.should_block(&encoded_query("a=nonoan")));
    assert_eq!(ids(&HttpRequest::get("/t?a=admin&b=test")), vec![1, 2]);
    assert_eq!(ids(&HttpRequest::get("/<script>%00")), vec![3, 4]);
}

#[test]
fn mock_engine_knows_every_rule_it_reports() {
    let engine = MockEngine::default();
    for uri in ["/admin", "/test/<script>", "/%00", "/admin/test/<script>%00", "/home"] {
        for rule in engine.evaluate(&HttpRequest::get(uri)) {
            assert_eq!(engine.get_rule_index(rule.get_id()), Some(&((rule.get_id() - 1) as usize)));
        }
    }
}

#[test]
fn rule_index_finds_the_last_position_of_an_id() {
    let index = RuleIndex::new(vec![SecRule { id: 5 }, SecRule { id: 7 }, SecRule { id: 5 }]);
    assert_eq!(index.len(), 3);
    assert_eq!(index.get_rules().iter().map(|r| r.get_id()).collect::<Vec<i64>>(), vec![5, 7, 5]);
    assert_eq!(index.position_of(5), Some(&2));
    assert_eq!(index.position_of(7), Some(&1));
    assert_eq!(index.position_of(9), None);
    let empty = RuleIndex::new(Vec::new());
    assert_eq!(empty.len(), 0);
    assert_eq!(empty.position_of(5), None);
}
