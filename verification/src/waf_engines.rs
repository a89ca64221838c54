use vstd::prelude::*;
use std::collections::HashMap;

use crate::http_request::{HttpRequest, HttpRequestView};
use crate::rule_text::{rule_ids_in, rule_ids_of_text};
use crate::text::{occurs_in, text_contains};

verus! {

broadcast use vstd::std_specs::hash::group_hash_axioms;

/// A rule of a web application firewall, known by its numeric id.
#[derive(Clone, Copy, Debug, PartialEq, Eq)]
pub struct SecRule {
    /// The SecRule id
    pub id: i64,
}

/// The ids of a sequence of rules, in order.
pub open spec fn rule_ids(rules: Seq<SecRule>) -> Seq<i64> {
    rules.map_values(|r: SecRule| r.id)
}

impl SecRule {
    /// The id of this rule.
    pub fn get_id(&self) -> (id: i64)
        ensures
            id == self.id,
    {
        self.id
    }

    /// The rules that a rule file with this text declares, in the order of
    /// their `id:` clauses (see [`rule_ids_in`]).
    pub fn extract_from_text(text: &str) -> (rules: Vec<SecRule>)
        ensures
            rule_ids(rules@) == rule_ids_in(text@),
    {
        let ids = rule_ids_of_text(text);
        let mut rules: Vec<SecRule> = Vec::new();
        let n = ids.len();
        let mut i: usize = 0;
        while i < n
            invariant
                n == ids.len(),
                0 <= i <= n,
                rule_ids(rules@) == ids@.take(i as int),
            decreases n - i,
        {
            rules.push(SecRule { id: ids[i] });
            assert(ids@.take(i + 1) =~= ids@.take(i as int).push(ids[i as int]));
            assert(rule_ids(rules@) =~= ids@.take(i + 1));
            i = i + 1;
        }
        assert(ids@.take(n as int) =~= ids@);
        rules
    }
}

// ---------------------------------------------------------------------------
// Rule positions
// ---------------------------------------------------------------------------
/// The last position among `rules` that holds a rule with this id.
pub open spec fn last_position(rules: Seq<SecRule>, id: i64) -> Option<usize>
    decreases rules.len(),
{
    if rules.len() == 0 {
        None
    } else if rules.last().id == id {
        Some((rules.len() - 1) as usize)
    } else {
        last_position(rules.drop_last(), id)
    }
}

/// What `last_position` gives: a position holding the id after which no rule
/// holds it, or nothing when no rule holds it.
pub proof fn lemma_last_position(rules: Seq<SecRule>, id: i64)
    requires
        rules.len() <= usize::MAX,
    ensures
        match last_position(rules, id) {
            Some(i) => i < rules.len() && rules[i as int].id == id && forall|k: int|
                i < k < rules.len() ==> #[trigger] rules[k].id != id,
            None => forall|k: int| 0 <= k < rules.len() ==> #[trigger] rules[k].id != id,
        },
    decreases rules.len(),
{
    if rules.len() > 0 && rules.last().id != id {
        let p = rules.drop_last();
        lemma_last_position(p, id);
        match last_position(p, id) {
            Some(i) => {
                assert(rules[i as int] == p[i as int]);
                assert forall|k: int| i < k < rules.len() implies #[trigger] rules[k].id != id by {
                    if k < rules.len() - 1 {
                        assert(rules[k] == p[k]);
                    }
                }
            },
            None => {
                assert forall|k: int| 0 <= k < rules.len() implies #[trigger] rules[k].id != id by {
                    if k < rules.len() - 1 {
                        assert(rules[k] == p[k]);
                    }
                }
            },
        }
    }
}

/// Every rule that was added is found by its id: the index of a list of rules
/// maps the id of each of them to a position that holds a rule with that id.
pub proof fn lemma_every_added_rule_is_indexed(rules: Seq<SecRule>)
    requires
        rules.len() <= usize::MAX,
    ensures
        forall|k: int|
            0 <= k < rules.len() ==> ((#[trigger] last_position(rules, rules[k].id)) matches Some(i)
                && k <= i < rules.len() && rules[i as int].id == rules[k].id),
{
    assert forall|k: int| 0 <= k < rules.len() implies ((#[trigger] last_position(
        rules,
        rules[k].id,
    )) matches Some(i) && k <= i < rules.len() && rules[i as int].id == rules[k].id) by {
        lemma_last_position(rules, rules[k].id);
    }
}

/// Maps every rule id to the last position in `rules` that holds it.
pub fn bind_rule_ids(rules: &Vec<SecRule>) -> (m: HashMap<i64, usize>)
    ensures
        forall|id: i64| #[trigger] m@.contains_key(id) <==> last_position(rules@, id) is Some,
        forall|id: i64| #[trigger] m@.contains_key(id) ==> last_position(rules@, id) == Some(m@[id]),
{
    let mut m: HashMap<i64, usize> = HashMap::new();
    let n = rules.len();
    let mut i: usize = 0;
    while i < n
        invariant
            n == rules.len(),
            0 <= i <= n,
            forall|id: i64| #[trigger]
                m@.contains_key(id) <==> last_position(rules@.take(i as int), id) is Some,
            forall|id: i64| #[trigger]
                m@.contains_key(id) ==> last_position(rules@.take(i as int), id) == Some(m@[id]),
        decreases n - i,
    {
        let id = rules[i].id;
        m.insert(id, i);
        assert(rules@.take(i + 1).drop_last() =~= rules@.take(i as int));
        i = i + 1;
    }
    assert(rules@.take(n as int) =~= rules@);
    m
}

// ---------------------------------------------------------------------------
// Engines
// ---------------------------------------------------------------------------
/// A rule engine that evaluates requests against a set of rules.
///
/// An engine answers the same request the same way, and its index maps a rule
/// id to a position in its rule list that holds that id.
///
/// The spec functions below carry default bodies so that an engine written in
/// plain Rust, outside Verus, can implement the trait: without them its impl
/// must define them too. Verified code that is generic over an engine never
/// sees these defaults; it knows of them only what the methods' `ensures` say.
pub trait WafEngine: Default + Sized {
    /// The rules added to this engine, in order. An engine that gives no
    /// model of its own leaves it unspecified.
    closed spec fn rules(&self) -> Seq<SecRule> {
        vstd::pervasive::arbitrary()
    }

    /// The position of the rule that the engine's index gives for an id.
    closed spec fn rule_position(&self, rule_id: i64) -> Option<usize> {
        vstd::pervasive::arbitrary()
    }

    /// The rules that a request triggers.
    closed spec fn triggered_by(&self, req: HttpRequestView) -> Seq<SecRule> {
        vstd::pervasive::arbitrary()
    }

    /// Whether the engine blocks a request.
    closed spec fn blocks(&self, req: HttpRequestView) -> bool {
        vstd::pervasive::arbitrary()
    }

    /// Gets the rules added in this engine
    fn get_rules(&self) -> (r: &Vec<SecRule>)
        ensures
            r@ == self.rules(),
    ;

    /// Gets the number of rules added in this engine
    fn get_num_rules(&self) -> (n: usize)
        ensures
            n == self.rules().len(),
    ;

    /// Evaluates a request against the added rules and gives a list of the rules triggered
    fn evaluate(&self, req: &HttpRequest) -> (r: Vec<SecRule>)
        ensures
            r@ == self.triggered_by(req@),
    ;

    /// Evaluates a request and tells if the WAF wants to block it
    fn should_block(&self, req: &HttpRequest) -> (b: bool)
        ensures
            b == self.blocks(req@),
    ;

    /// Gets the position of a rule in [`WafEngine::get_rules`] from its id:
    /// `None` when no added rule has this id.
    fn get_rule_index(&self, rule_id: i64) -> (r: Option<&usize>)
        ensures
            r matches Some(i) ==> {
                &&& self.rule_position(rule_id) == Some(*i)
                &&& *i < self.rules().len()
                &&& self.rules()[*i as int].id == rule_id
            },
            r is None ==> {
                &&& self.rule_position(rule_id) is None
                &&& forall|k: int|
                    0 <= k < self.rules().len() ==> #[trigger] self.rules()[k].id != rule_id
            },
    ;
}

/// The rules of the mock engine: 1, 2, 3 and 4.
pub open spec fn mock_rules() -> Seq<SecRule> {
    seq![SecRule { id: 1 }, SecRule { id: 2 }, SecRule { id: 3 }, SecRule { id: 4 }]
}

/// Where the mock engine holds a rule id: rule `k` at position `k - 1`.
pub open spec fn mock_position(rule_id: i64) -> Option<usize> {
    if 1 <= rule_id <= 4 {
        Some((rule_id - 1) as usize)
    } else {
        None
    }
}

proof fn lemma_mock_last_position(rule_id: i64)
    ensures
        last_position(mock_rules(), rule_id) == mock_position(rule_id),
{
    reveal_with_fuel(last_position, 5);
}

/// The rules of the mock engine that a request target triggers, in order:
/// rule 1 when it holds `admin`, rule 2 when it holds `test`, rule 3 when it
/// holds `<script>`, rule 4 when it holds the escape `%00`.
pub open spec fn mock_triggered(uri: Seq<char>) -> Seq<SecRule> {
    let r1: Seq<SecRule> = if occurs_in(uri, "admin"@) {
        seq![SecRule { id: 1 }]
    } else {
        Seq::empty()
    };
    let r2: Seq<SecRule> = if occurs_in(uri, "test"@) {
        seq![SecRule { id: 2 }]
    } else {
        Seq::empty()
    };
    let r3: Seq<SecRule> = if occurs_in(uri, "<script>"@) {
        seq![SecRule { id: 3 }]
    } else {
        Seq::empty()
    };
    let r4: Seq<SecRule> = if occurs_in(uri, "%00"@) {
        seq![SecRule { id: 4 }]
    } else {
        Seq::empty()
    };
    r1 + r2 + r3 + r4
}

/// The rules of an engine, in the order they were added, with an index from
/// each rule id to the last position in the list that holds it.
pub struct RuleIndex {
    rules: Vec<SecRule>,
    positions: HashMap<i64, usize>,
}

impl View for RuleIndex {
    type V = Seq<SecRule>;

    closed spec fn view(&self) -> Seq<SecRule> {
        self.rules@
    }
}

impl RuleIndex {
    /// The index agrees with the rule list.
    #[verifier::type_invariant]
    closed spec fn positions_agree(self) -> bool {
        &&& forall|id: i64| #[trigger]
            self.positions@.contains_key(id) <==> last_position(self.rules@, id) is Some
        &&& forall|id: i64| #[trigger]
            self.positions@.contains_key(id) ==> last_position(self.rules@, id) == Some(
                self.positions@[id],
            )
    }

    /// Holds `rules` and indexes them by id.
    pub fn new(rules: Vec<SecRule>) -> (r: Self)
        ensures
            r@ == rules@,
    {
        let positions = bind_rule_ids(&rules);
        RuleIndex { rules, positions }
    }

    /// The rules, in the order they were added.
    pub fn get_rules(&self) -> (r: &Vec<SecRule>)
        ensures
            r@ == self@,
    {
        &self.rules
    }

    /// The number of rules.
    pub fn len(&self) -> (n: usize)
        ensures
            n == self@.len(),
    {
        self.rules.len()
    }

    /// The last position that holds a rule with this id, or `None` when no
    /// rule has it.
    pub fn position_of(&self, rule_id: i64) -> (r: Option<&usize>)
        ensures
            r matches Some(i) ==> last_position(self@, rule_id) == Some(*i),
            r is None ==> last_position(self@, rule_id) is None,
    {
        proof {
            use_type_invariant(self);
        }
        self.positions.get(&rule_id)
    }
}

/// An engine with four fixed rules that look for words in the request target.
pub struct MockEngine {
    index: RuleIndex,
}

impl MockEngine {
    /// The engine holds the four mock rules.
    #[verifier::type_invariant]
    closed spec fn holds_mock_rules(self) -> bool {
        self.index@ == mock_rules()
    }
}

impl Default for MockEngine {
    fn default() -> (e: Self)
        ensures
            e.rules() == mock_rules(),
            forall|id: i64|
                #![trigger e.rule_position(id)]
                e.rule_position(id) == if 1 <= id <= 4 {
                    Some((id - 1) as usize)
                } else {
                    None
                },
    {
        let rules = vec![
            SecRule { id: 1 },
            SecRule { id: 2 },
            SecRule { id: 3 },
            SecRule { id: 4 },
        ];
        assert(rules@ =~= mock_rules());
        MockEngine { index: RuleIndex::new(rules) }
    }
}

/// The mock engine blocks a request exactly when the request triggers one of
/// its rules.
pub proof fn lemma_mock_blocks_what_it_flags(engine: &MockEngine, req: HttpRequestView)
    ensures
        engine.blocks(req) <==> engine.triggered_by(req).len() > 0,
{
}

/// Each mock rule fires exactly when its word occurs in the request target:
/// rule 1 on `admin`, rule 2 on `test`, rule 3 on `<script>`, rule 4 on the
/// escape `%00`; no other rule fires, and the engine blocks the request
/// exactly when one of the four words occurs.
pub proof fn lemma_mock_rules_fire_on_their_words(engine: &MockEngine, req: HttpRequestView)
    ensures
        (exists|k: int|
            0 <= k < engine.triggered_by(req).len() && #[trigger] engine.triggered_by(req)[k].id
                == 1) <==> occurs_in(req.uri, "admin"@),
        (exists|k: int|
            0 <= k < engine.triggered_by(req).len() && #[trigger] engine.triggered_by(req)[k].id
                == 2) <==> occurs_in(req.uri, "test"@),
        (exists|k: int|
            0 <= k < engine.triggered_by(req).len() && #[trigger] engine.triggered_by(req)[k].id
                == 3) <==> occurs_in(req.uri, "<script>"@),
        (exists|k: int|
            0 <= k < engine.triggered_by(req).len() && #[trigger] engine.triggered_by(req)[k].id
                == 4) <==> occurs_in(req.uri, "%00"@),
        forall|k: int|
            0 <= k < engine.triggered_by(req).len() ==> 1 <= #[trigger] engine.triggered_by(
                req,
            )[k].id <= 4,
        engine.blocks(req) <==> (occurs_in(req.uri, "admin"@) || occurs_in(req.uri, "test"@)
            || occurs_in(req.uri, "<script>"@) || occurs_in(req.uri, "%00"@)),
{
    let u = req.uri;
    let a = occurs_in(u, "admin"@);
    let b = occurs_in(u, "test"@);
    let c = occurs_in(u, "<script>"@);
    let d = occurs_in(u, "%00"@);
    let t = engine.triggered_by(req);
    let n1: int = if a { 1 } else { 0 };
    let n2: int = if b { 1 } else { 0 };
    let n3: int = if c { 1 } else { 0 };
    let n4: int = if d { 1 } else { 0 };
    assert(t.len() == n1 + n2 + n3 + n4);
    // Where each rule sits when it fires, and which rule sits at each place.
    assert forall|k: int| 0 <= k < t.len() implies #[trigger] t[k].id == (if k < n1 {
        1i64
    } else if k < n1 + n2 {
        2i64
    } else if k < n1 + n2 + n3 {
        3i64
    } else {
        4i64
    }) by {}
    if a {
        assert(t[0].id == 1);
    }
    if b {
        assert(t[n1].id == 2);
    }
    if c {
        assert(t[n1 + n2].id == 3);
    }
    if d {
        assert(t[n1 + n2 + n3].id == 4);
    }
}

/// The mock engine's index knows every rule that its evaluation reports, so
/// the features of any request can be extracted.
pub proof fn lemma_mock_knows_what_it_flags(engine: &MockEngine, req: HttpRequestView)
    ensures
        forall|k: int|
            0 <= k < engine.triggered_by(req).len() ==> (#[trigger] engine.rule_position(
                engine.triggered_by(req)[k].id,
            )) is Some,
{
    let t = engine.triggered_by(req);
    assert forall|k: int| 0 <= k < t.len() implies (#[trigger] engine.rule_position(
        t[k].id,
    )) is Some by {
        assert(1 <= t[k].id <= 4);
    }
}

impl WafEngine for MockEngine {
    open spec fn rules(&self) -> Seq<SecRule> {
        mock_rules()
    }

    open spec fn rule_position(&self, rule_id: i64) -> Option<usize> {
        mock_position(rule_id)
    }

    open spec fn triggered_by(&self, req: HttpRequestView) -> Seq<SecRule> {
        mock_triggered(req.uri)
    }

    open spec fn blocks(&self, req: HttpRequestView) -> bool {
        mock_triggered(req.uri).len() > 0
    }

    fn get_rules(&self) -> (r: &Vec<SecRule>) {
        proof {
            use_type_invariant(self);
        }
        self.index.get_rules()
    }

    fn get_num_rules(&self) -> (n: usize) {
        proof {
            use_type_invariant(self);
        }
        self.index.len()
    }

    fn evaluate(&self, req: &HttpRequest) -> (r: Vec<SecRule>) {
        let uri = req.uri.as_str();
        let mut triggered_rules: Vec<SecRule> = Vec::new();
        if text_contains(uri, "admin") {
            triggered_rules.push(SecRule { id: 1 });
        }
        if text_contains(uri, "test") {
            triggered_rules.push(SecRule { id: 2 });
        }
        if text_contains(uri, "<script>") {
            triggered_rules.push(SecRule { id: 3 });
        }
        if text_contains(uri, "%00") {
            triggered_rules.push(SecRule { id: 4 });
        }
        assert(triggered_rules@ =~= mock_triggered(req@.uri));
        triggered_rules
    }

    fn should_block(&self, req: &HttpRequest) -> (b: bool) {
        self.evaluate(req).len() > 0
    }

    fn get_rule_index(&self, rule_id: i64) -> (r: Option<&usize>) {
        proof {
            use_type_invariant(self);
            lemma_last_position(mock_rules(), rule_id);
            lemma_mock_last_position(rule_id);
        }
        self.index.position_of(rule_id)
    }
}

} // verus!
