use warm_ml::dataset::WarmMLDataset;
use warm_ml::evaluation::{route_evaluation, EngineFallback, EvaluationRoute};
use warm_ml::features::{extract_features, get_features_and_labels};
use warm_ml::http_request::HttpRequest;
use warm_ml::sample_array::RequestArray;
use warm_ml::waf_engines::{MockEngine, SecRule, WafEngine};

/// An engine that triggers rule 99, which it does not hold, on targets with `bad`.
#[derive(Default)]
struct PartialEngine {
    rules: Vec<SecRule>,
}

impl WafEngine for PartialEngine {
    fn get_rules(&self) -> &Vec<SecRule> {
        &self.rules
    }
    fn get_num_rules(&self) -> usize {
        self.rules.len()
    }
    fn evaluate(&self, req: &HttpRequest) -> Vec<SecRule> {
        let mut r = Vec::new();
        if req.uri.contains("admin") {
            r.push(SecRule { id: 1 });
        }
        if req.uri.contains("bad") {
            r.push(SecRule { id: 99 });
        }
        r
    }
    fn should_block(&self, req: &HttpRequest) -> bool {
        !self.evaluate(req).is_empty()
    }
    fn get_rule_index(&self, rule_id: i64) -> Option<&usize> {
        if rule_id == 1 && !self.rules.is_empty() {
            Some(&0)
        } else {
            None
        }
    }
}

fn partial() -> PartialEngine {
    PartialEngine { rules: vec![SecRule { id: 1 }] }
}

#[test]
fn features_flag_the_triggered_rules() {
    let engine = MockEngine::default();
    assert_eq!(
        extract_features(&HttpRequest::get("/admin/<script>"), &engine),
        Ok(vec![true, false, true, false])
    );
    assert_eq!(extract_features(&HttpRequest::get("/"), &engine), Ok(vec![false; 4]));
}

#[test]
fn features_report_the_first_unknown_rule() {
    let engine = partial();
    assert_eq!(extract_features(&HttpRequest::get("/admin"), &engine), Ok(vec![true]));
    assert_eq!(extract_features(&HttpRequest::get("/admin/bad"), &engine), Err(99));
}

#[test]
fn training_rows_leave_out_unknown_rules() {
    let engine = partial();
    let d = WarmMLDataset::builder()
        .add_plain(
            "mal",
            RequestArray::from_vec(vec![HttpRequest::get("/admin"), HttpRequest::get("/bad"), HttpRequest::get("/x")]),
            true,
        )
        .add_plain("legit", RequestArray::from_vec(vec![HttpRequest::get("/y")]), false)
        .build();
    // After build: legit (1 sample), mal (3 samples).
    let (rows, labels) = get_features_and_labels(&d, &engine);
    assert_eq!(rows, vec![vec![false], vec![true], vec![false]]);
    assert_eq!(labels, vec![false, true, true]);
}

#[test]
fn training_keeps_every_label_when_rules_are_known() {
    let engine = MockEngine::default();
    let d = WarmMLDataset::builder()
        .add_plain("mal", RequestArray::from_vec(vec![HttpRequest::get("/admin"), HttpRequest::get("/test")]), true)
        .add_plain("legit", RequestArray::from_vec(vec![HttpRequest::get("/home")]), false)
        .build();
    let (rows, labels) = get_features_and_labels(&d, &engine);
    assert_eq!(labels, d.get_labels());
    assert_eq!(rows.len(), d.get_samples_len());
    assert!(rows.iter().all(|r| r.len() == engine.get_num_rules()));
    assert_eq!(rows[1], vec![true, false, false, false]);
    for (row, sample) in rows.iter().zip(d.get_samples().iter()) {
        assert_eq!(Ok(row.clone()), extract_features(sample, &engine));
    }
}

#[test]
fn evaluation_routes() {
    let engine = partial();
    match route_evaluation(false, &HttpRequest::get("/admin"), &engine) {
        EvaluationRoute::Engine { reason, safe } => {
            assert_eq!(reason, EngineFallback::UntrainedModel);
            assert!(!safe);
        }
        EvaluationRoute::Model(_) => panic!("an untrained model is not used"),
    }
    match route_evaluation(false, &HttpRequest::get("/home"), &engine) {
        EvaluationRoute::Engine { reason, safe } => {
            assert_eq!(reason, EngineFallback::UntrainedModel);
            assert!(safe);
        }
        EvaluationRoute::Model(_) => panic!("an untrained model is not used"),
    }
    match route_evaluation(true, &HttpRequest::get("/bad"), &engine) {
        EvaluationRoute::Engine { reason, safe } => {
            assert_eq!(reason, EngineFallback::UnknownRule(99));
            assert!(!safe);
        }
        EvaluationRoute::Model(_) => panic!("an unknown rule leaves the request to the engine"),
    }
    match route_evaluation(true, &HttpRequest::get("/admin"), &engine) {
        EvaluationRoute::Model(row) => assert_eq!(row, vec![true]),
        EvaluationRoute::Engine { .. } => panic!("known rules go to the model"),
    }
}
