use linfa::dataset::Pr;
use warm_ml::verdict::WarmVerdict;

#[test]
fn malicious_request_verdict() {
    let threshold = Pr::new(0.5);
    let score = Pr::new(0.8);
    let safe = *score < *threshold;
    let verdict = WarmVerdict::new(safe, threshold, score);
    assert_eq!(verdict.is_safe(), false);
    assert_eq!(*verdict.get_score(), 0.8f32);
    assert_eq!(*verdict.get_used_threshold(), 0.5f32);
}

#[test]
fn legitimate_request_verdict() {
    let threshold = Pr::new(0.5);
    let score = Pr::new(0.1);
    let safe = *score < *threshold;
    let verdict = WarmVerdict::new(safe, threshold, score);
    assert_eq!(verdict.is_safe(), true);
    assert_eq!(*verdict.get_score(), 0.1f32);
    assert_eq!(*verdict.get_used_threshold(), 0.5f32);
}
