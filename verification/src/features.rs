use vstd::prelude::*;

use crate::dataset::{files_view, labelled_samples, WarmMLDataset};
use crate::http_request::{HttpRequest, HttpRequestView};
use crate::sample_array::array_requests;
use crate::waf_engines::{SecRule, WafEngine};

verus! {

/// The position of the first triggered rule whose id the engine does not
/// know, or the number of rules if it knows them all.
pub open spec fn first_unknown<T: WafEngine>(engine: &T, triggered: Seq<SecRule>) -> int
    decreases triggered.len(),
{
    if triggered.len() == 0 {
        0
    } else if engine.rule_position(triggered[0].id) is None {
        0
    } else {
        1 + first_unknown(engine, triggered.drop_first())
    }
}

/// The feature row of a request that triggered `triggered`: one flag per rule
/// of the engine, set when a triggered rule sits at that position. When a
/// triggered rule's id is unknown to the engine, the id of the first such
/// rule instead.
pub open spec fn feature_row<T: WafEngine>(engine: &T, triggered: Seq<SecRule>) -> Result<
    Seq<bool>,
    i64,
> {
    if forall|k: int|
        0 <= k < triggered.len() ==> (#[trigger] engine.rule_position(triggered[k].id)) is Some {
        Ok(
            Seq::new(
                engine.rules().len(),
                |j: int|
                    exists|k: int|
                        0 <= k < triggered.len() && #[trigger] engine.rule_position(triggered[k].id)
                            == Some(j as usize),
            ),
        )
    } else {
        Err(triggered[first_unknown(engine, triggered)].id)
    }
}

/// The rows that training uses: for each labelled sample in order, its feature
/// row and label, leaving out the samples that trigger a rule unknown to the engine.
pub open spec fn training_rows<T: WafEngine>(
    engine: &T,
    items: Seq<(HttpRequestView, bool)>,
) -> Seq<(Seq<bool>, bool)>
    decreases items.len(),
{
    if items.len() == 0 {
        Seq::empty()
    } else {
        let prev = training_rows(engine, items.drop_last());
        let (req, label) = items.last();
        match feature_row(engine, engine.triggered_by(req)) {
            Ok(row) => prev.push((row, label)),
            Err(_) => prev,
        }
    }
}

proof fn lemma_first_unknown<T: WafEngine>(engine: &T, triggered: Seq<SecRule>, pos: int)
    requires
        0 <= pos < triggered.len(),
        forall|k: int|
            0 <= k < pos ==> (#[trigger] engine.rule_position(triggered[k].id)) is Some,
        engine.rule_position(triggered[pos].id) is None,
    ensures
        first_unknown(engine, triggered) == pos,
    decreases pos,
{
    if pos > 0 {
        let rest = triggered.drop_first();
        assert forall|k: int| 0 <= k < pos - 1 implies (#[trigger] engine.rule_position(
            rest[k].id,
        )) is Some by {
            assert(rest[k] == triggered[k + 1]);
        }
        assert(engine.rule_position(triggered[0].id) is Some);
        lemma_first_unknown(engine, rest, pos - 1);
    }
}

/// Extracts the features of one request: one flag per rule of `waf_engine`,
/// set when the request triggers the rule at that position. When the request
/// triggers a rule whose id the engine's index does not know, the id of the
/// first such rule instead.
pub fn extract_features<T: WafEngine>(sample: &HttpRequest, waf_engine: &T) -> (r: Result<
    Vec<bool>,
    i64,
>)
    ensures
        match r {
            Ok(row) => feature_row(waf_engine, waf_engine.triggered_by(sample@)) == Ok::<
                Seq<bool>,
                i64,
            >(row@),
            Err(id) => feature_row(waf_engine, waf_engine.triggered_by(sample@)) == Err::<
                Seq<bool>,
                i64,
            >(id),
        },
{
    let num_features = waf_engine.get_num_rules();
    let mut features: Vec<bool> = Vec::new();
    let mut j: usize = 0;
    while j < num_features
        invariant
            0 <= j <= num_features,
            features@ == Seq::new(j as nat, |k: int| false),
        decreases num_features - j,
    {
        features.push(false);
        assert(features@ =~= Seq::new((j + 1) as nat, |k: int| false));
        j = j + 1;
    }
    let triggered_rules = waf_engine.evaluate(sample);
    let ghost t = triggered_rules@;
    let n = triggered_rules.len();
    let mut pos: usize = 0;
    while pos < n
        invariant
            n == t.len(),
            t == triggered_rules@,
            t == waf_engine.triggered_by(sample@),
            num_features == waf_engine.rules().len(),
            0 <= pos <= n,
            forall|k: int|
                0 <= k < pos ==> (#[trigger] waf_engine.rule_position(t[k].id)) is Some,
            features@ == Seq::new(
                num_features as nat,
                |q: int|
                    exists|k: int|
                        0 <= k < pos && #[trigger] waf_engine.rule_position(t[k].id) == Some(
                            q as usize,
                        ),
            ),
        decreases n - pos,
    {
        let id = triggered_rules[pos].get_id();
        match waf_engine.get_rule_index(id) {
            Some(index) => {
                let index = *index;
                let ghost before = features@;
                features.set(index, true);
                assert forall|q: int| 0 <= q < num_features implies #[trigger] features@[q] == (
                exists|k: int|
                    0 <= k < pos + 1 && #[trigger] waf_engine.rule_position(t[k].id) == Some(
                        q as usize,
                    )) by {
                    if q == index {
                        assert(waf_engine.rule_position(t[pos as int].id) == Some(q as usize));
                    } else {
                        if exists|k: int|
                            0 <= k < pos + 1 && #[trigger] waf_engine.rule_position(t[k].id)
                                == Some(q as usize) {
                            let k = choose|k: int|
                                0 <= k < pos + 1 && #[trigger] waf_engine.rule_position(t[k].id)
                                    == Some(q as usize);
                            assert(k != pos);
                        }
                    }
                }
                assert(features@ =~= Seq::new(
                    num_features as nat,
                    |q: int|
                        exists|k: int|
                            0 <= k < pos + 1 && #[trigger] waf_engine.rule_position(t[k].id)
                                == Some(q as usize),
                ));
            },
            None => {
                proof {
                    lemma_first_unknown(waf_engine, t, pos as int);
                }
                return Err(id);
            },
        }
        pos = pos + 1;
    }
    Ok(features)
}

/// Extracts the features and labels that training uses from `dataset`: for
/// every sample in order whose triggered rules the engine all knows, its
/// feature row (see [`extract_features`]) and the label of its file. Samples
/// that trigger a rule unknown to the engine are left out.
pub fn get_features_and_labels<T: WafEngine>(dataset: &WarmMLDataset, waf_engine: &T) -> (r: (
    Vec<Vec<bool>>,
    Vec<bool>,
))
    ensures
        r.0@.len() == training_rows(waf_engine, labelled_samples(dataset@)).len(),
        forall|i: int|
            0 <= i < r.0@.len() ==> (#[trigger] r.0@[i])@ == training_rows(
                waf_engine,
                labelled_samples(dataset@),
            )[i].0,
        r.1@ == training_rows(waf_engine, labelled_samples(dataset@)).map_values(
            |p: (Seq<bool>, bool)| p.1,
        ),
{
    let files = dataset.get_files_samples();
    let ghost fv = files_view(files@);
    let mut rows: Vec<Vec<bool>> = Vec::new();
    let mut labels: Vec<bool> = Vec::new();
    let ghost mut items: Seq<(HttpRequestView, bool)> = Seq::empty();
    let n = files.len();
    let mut i: usize = 0;
    while i < n
        invariant
            n == files@.len(),
            fv == files_view(files@),
            fv == dataset@,
            0 <= i <= n,
            items == labelled_samples(fv.take(i as int)),
            rows@.len() == training_rows(waf_engine, items).len(),
            forall|k: int|
                0 <= k < rows@.len() ==> (#[trigger] rows@[k])@ == training_rows(waf_engine, items)[k].0,
            labels@ == training_rows(waf_engine, items).map_values(|p: (Seq<bool>, bool)| p.1),
        decreases n - i,
    {
        let file = &files[i].0;
        let label = files[i].1;
        let samples = file.get_samples();
        let m = samples.len();
        let ghost start = items;
        let mut j: usize = 0;
        while j < m
            invariant
                m == array_requests(*samples).len(),
                0 <= j <= m,
                items == start + array_requests(*samples).take(j as int).map_values(
                    |s: HttpRequestView| (s, label),
                ),
                rows@.len() == training_rows(waf_engine, items).len(),
                    forall|k: int|
                    0 <= k < rows@.len() ==> (#[trigger] rows@[k])@ == training_rows(
                        waf_engine,
                        items,
                    )[k].0,
                labels@ == training_rows(waf_engine, items).map_values(
                    |p: (Seq<bool>, bool)| p.1,
                ),
            decreases m - j,
        {
            let sample = samples.get(j);
            let ghost next = items.push((sample@, label));
            assert(next.drop_last() =~= items);
            assert(array_requests(*samples).take(j + 1) =~= array_requests(*samples).take(
                j as int,
            ).push(sample@));
            assert(next =~= start + array_requests(*samples).take(j + 1).map_values(
                |s: HttpRequestView| (s, label),
            ));
            match extract_features(sample, waf_engine) {
                Ok(row) => {
                    assert(training_rows(waf_engine, next) == training_rows(waf_engine, items).push(
                        (row@, label),
                    ));
                    let ghost old_rows = rows@;
                    let ghost tr0 = training_rows(waf_engine, items);
                    let ghost row_view = row@;
                    rows.push(row);
                    labels.push(label);
                    proof {
                        let tr = training_rows(waf_engine, next);
                        assert forall|k: int| 0 <= k < rows@.len() implies (#[trigger] rows@[k])@
                            == tr[k].0 by {
                            if k < old_rows.len() {
                                assert(rows@[k] == old_rows[k]);
                                assert(tr[k] == tr0[k]);
                            } else {
                                assert(tr[k] == (row_view, label));
                            }
                        }
                        assert(labels@ =~= tr.map_values(|p: (Seq<bool>, bool)| p.1));
                    }
                },
                Err(_) => {
                    assert(training_rows(waf_engine, next) == training_rows(waf_engine, items));
                },
            }
            proof {
                items = next;
            }
            j = j + 1;
        }
        proof {
            let e = files@[i as int];
            assert(fv[i as int] == (e.0@, e.1));
            assert(fv.take(i + 1).drop_last() =~= fv.take(i as int));
            assert(array_requests(*samples).take(m as int) =~= array_requests(*samples));
            assert(fv.take(i + 1).last() == fv[i as int]);
        }
        i = i + 1;
    }
    assert(fv.take(n as int) =~= fv);
    (rows, labels)
}

/// Every training row has one flag per rule of the engine.
pub proof fn lemma_training_rows_width<T: WafEngine>(
    engine: &T,
    items: Seq<(HttpRequestView, bool)>,
)
    ensures
        forall|i: int|
            0 <= i < training_rows(engine, items).len() ==> (#[trigger] training_rows(
                engine,
                items,
            )[i]).0.len() == engine.rules().len(),
        training_rows(engine, items).len() <= items.len(),
    decreases items.len(),
{
    if items.len() > 0 {
        lemma_training_rows_width(engine, items.drop_last());
    }
}

/// When the engine knows every rule that any sample triggers, training keeps
/// every sample: its labels are the labels of the samples, in order, and the
/// row of each sample is the one that evaluating that sample extracts.
pub proof fn lemma_training_keeps_labels_when_rules_known<T: WafEngine>(
    engine: &T,
    items: Seq<(HttpRequestView, bool)>,
)
    requires
        forall|k: int|
            0 <= k < items.len() ==> (#[trigger] feature_row(
                engine,
                engine.triggered_by(items[k].0),
            )) is Ok,
    ensures
        training_rows(engine, items).map_values(|p: (Seq<bool>, bool)| p.1) == items.map_values(
            |p: (HttpRequestView, bool)| p.1,
        ),
        training_rows(engine, items).len() == items.len(),
        forall|k: int|
            0 <= k < items.len() ==> feature_row(engine, engine.triggered_by(items[k].0)) == Ok::<
                Seq<bool>,
                i64,
            >((#[trigger] training_rows(engine, items)[k]).0),
    decreases items.len(),
{
    if items.len() > 0 {
        let prev = items.drop_last();
        assert forall|k: int| 0 <= k < prev.len() implies (#[trigger] feature_row(
            engine,
            engine.triggered_by(prev[k].0),
        )) is Ok by {
            assert(prev[k] == items[k]);
        }
        lemma_training_keeps_labels_when_rules_known(engine, prev);
        assert(feature_row(engine, engine.triggered_by(items[items.len() - 1].0)) is Ok);
        let (req, label) = items.last();
        let row = feature_row(engine, engine.triggered_by(req))->Ok_0;
        let tp = training_rows(engine, prev);
        assert(training_rows(engine, items) == tp.push((row, label)));
        assert(items =~= prev.push((req, label)));
        assert(tp.push((row, label)).map_values(|p: (Seq<bool>, bool)| p.1) =~= tp.map_values(
            |p: (Seq<bool>, bool)| p.1,
        ).push(label));
        assert(prev.push((req, label)).map_values(|p: (HttpRequestView, bool)| p.1)
            =~= prev.map_values(|p: (HttpRequestView, bool)| p.1).push(label));
        assert(training_rows(engine, items).map_values(|p: (Seq<bool>, bool)| p.1)
            =~= items.map_values(|p: (HttpRequestView, bool)| p.1));
        assert forall|k: int| 0 <= k < items.len() implies feature_row(
            engine,
            engine.triggered_by(items[k].0),
        ) == Ok::<Seq<bool>, i64>((#[trigger] training_rows(engine, items)[k]).0) by {
            if k < prev.len() {
                assert(items[k] == prev[k]);
                assert(training_rows(engine, items)[k] == tp[k]);
                assert(feature_row(engine, engine.triggered_by(prev[k].0)) == Ok::<Seq<bool>, i64>(
                    tp[k].0,
                ));
            }
        }
    }
}

} // verus!
