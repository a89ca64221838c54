use warm_ml::model_algorithm::{WarmMLModelAlgorithm, WarmMLModelAlgorithmParseError};

#[test]
fn names() {
    assert_eq!(WarmMLModelAlgorithm::Svm.to_string(), "svm");
    assert_eq!(WarmMLModelAlgorithm::LogisticRegression.to_string(), "lr");
}

#[test]
fn parsing_ignores_case() {
    assert_eq!(WarmMLModelAlgorithm::from_str("svm").ok(), Some(WarmMLModelAlgorithm::Svm));
    assert_eq!(WarmMLModelAlgorithm::from_str("SvM").ok(), Some(WarmMLModelAlgorithm::Svm));
    assert_eq!(WarmMLModelAlgorithm::from_str("LR").ok(), Some(WarmMLModelAlgorithm::LogisticRegression));
    let parsed: Result<WarmMLModelAlgorithm, WarmMLModelAlgorithmParseError> = "lr".parse();
    assert_eq!(parsed.ok(), Some(WarmMLModelAlgorithm::LogisticRegression));
}

#[test]
fn parsing_refuses_other_names() {
    let err = WarmMLModelAlgorithm::from_str("svm ").unwrap_err();
    assert_eq!(err.0, "svm ");
    assert_eq!(err.message(), "invalid enum variant: svm ");
    assert!(WarmMLModelAlgorithm::from_str("").is_err());
    assert!(WarmMLModelAlgorithm::from_str("logistic").is_err());
}

#[test]
fn name_round_trip() {
    for a in [WarmMLModelAlgorithm::Svm, WarmMLModelAlgorithm::LogisticRegression] {
        assert_eq!(WarmMLModelAlgorithm::from_str(&a.to_string()).ok(), Some(a));
    }
}
