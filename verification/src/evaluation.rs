use vstd::prelude::*;

use crate::features::{extract_features, feature_row};
use crate::http_request::HttpRequest;
use crate::waf_engines::WafEngine;

verus! {

/// Why a request goes to the rule engine rather than to the model.
#[derive(Debug, PartialEq, Eq)]
pub enum EngineFallback {
    /// The model has not been trained.
    UntrainedModel,
    /// The request triggered a rule with this id, which the engine's index does not know.
    UnknownRule(i64),
}

/// How a request is evaluated.
pub enum EvaluationRoute {
    /// By the model, on this feature row.
    Model(Vec<bool>),
    /// By the rule engine, for this reason; `safe` is whether the engine lets the request through.
    Engine { reason: EngineFallback, safe: bool },
}

/// Decides how a request is evaluated: an untrained model leaves it to the
/// rule engine; otherwise its features are extracted, and a triggered rule
/// unknown to the engine's index leaves it to the engine too. Where the engine
/// decides, the request is safe exactly when the engine does not block it.
pub fn route_evaluation<T: WafEngine>(model_is_trained: bool, req: &HttpRequest, waf_engine: &T) -> (r:
    EvaluationRoute)
    ensures
        r matches EvaluationRoute::Engine { safe, .. } ==> safe == !waf_engine.blocks(req@),
        !model_is_trained ==> (r matches EvaluationRoute::Engine {
            reason: EngineFallback::UntrainedModel,
            ..
        }),
        model_is_trained ==> match feature_row(waf_engine, waf_engine.triggered_by(req@)) {
            Ok(row) => (r matches EvaluationRoute::Model(f) && f@ == row),
            Err(id) => (r matches EvaluationRoute::Engine {
                reason: EngineFallback::UnknownRule(i),
                ..
            } && i == id),
        },
{
    if !model_is_trained {
        let safe = !waf_engine.should_block(req);
        return EvaluationRoute::Engine { reason: EngineFallback::UntrainedModel, safe };
    }
    match extract_features(req, waf_engine) {
        Ok(row) => EvaluationRoute::Model(row),
        Err(id) => {
            let safe = !waf_engine.should_block(req);
            EvaluationRoute::Engine { reason: EngineFallback::UnknownRule(id), safe }
        },
    }
}

} // verus!
