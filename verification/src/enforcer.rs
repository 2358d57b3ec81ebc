//! The enforcer: for one request, evaluates the matcher against every `p`
//! rule, resolves the effect, and optionally reports the contributing rules.
//!
//! Each enforcement call is a pure function of (model, policy store,
//! request): the enforcer carries no mutable state, so repeated calls with
//! the same inputs return identical results.

use vstd::prelude::*;
use crate::effect::{self, Eft, Effect, has_match, spec_decision};
use crate::errors::{EnforceError, MatcherEvalError};
use crate::expr::{eval_expr, spec_eval};
use crate::model::{eft_of, rule_eft, Model};
use crate::policy::{rule_view, PolicyStore};
use crate::value::{req_views, ValView, Value};

verus! {

/// The per-rule outcomes, in rule order, or the first evaluation error.
pub open spec fn spec_collect(
    m: Model,
    rules: Seq<Vec<String>>,
    req: Seq<ValView>,
    edges: Seq<(String, String)>,
) -> Result<Seq<(bool, Eft)>, MatcherEvalError>
    decreases rules.len(),
{
    if rules.len() == 0 {
        Ok(Seq::empty())
    } else {
        match spec_eval(m.matcher, req, rules[0]@, edges) {
            Err(e) => Err(e),
            Ok(b) => match spec_collect(m, rules.skip(1), req, edges) {
                Err(e) => Err(e),
                Ok(rest) => Ok(seq![(b, rule_eft(m, rules[0]@))] + rest),
            },
        }
    }
}

/// What `enforce` returns: the request must have the declared arity; then
/// the matcher runs over every `p` rule in order and the effect rule decides.
pub open spec fn spec_enforce(enf: Enforcer, req: Seq<ValView>) -> Result<bool, EnforceError> {
    if req.len() != enf.model.req_tokens@.len() {
        Err(EnforceError::RequestArity)
    } else {
        match spec_collect(enf.model, enf.store.p_rules@, req, enf.store.g_edges@) {
            Err(e) => Err(EnforceError::Matcher(e)),
            Ok(outs) => Ok(spec_decision(enf.model.effect, outs)),
        }
    }
}

/// The rules that evaluated true with effect allow, in rule order.
pub open spec fn spec_allow_explain(rules: Seq<Vec<String>>, outs: Seq<(bool, Eft)>) -> Seq<
    Seq<Seq<char>>,
>
    decreases rules.len(),
{
    if rules.len() == 0 || outs.len() == 0 {
        Seq::empty()
    } else {
        let rest = spec_allow_explain(rules.skip(1), outs.skip(1));
        if outs[0].0 && outs[0].1 == Eft::Allow {
            seq![rule_view(rules[0])] + rest
        } else {
            rest
        }
    }
}

/// The index of the first matching deny rule.
pub open spec fn first_deny_idx(outs: Seq<(bool, Eft)>) -> int
    decreases outs.len(),
{
    if outs.len() == 0 {
        0
    } else if outs[0].0 && outs[0].1 == Eft::Deny {
        0
    } else {
        1 + first_deny_idx(outs.skip(1))
    }
}

/// The rules contributing to the decision: all matching allow rules when
/// the decision is allow; the first matching deny rule when deny-override
/// vetoed; nothing otherwise.
pub open spec fn spec_explain(
    eff: Effect,
    rules: Seq<Vec<String>>,
    outs: Seq<(bool, Eft)>,
) -> Seq<Seq<Seq<char>>> {
    if spec_decision(eff, outs) {
        spec_allow_explain(rules, outs)
    } else if eff == Effect::DenyOverride && has_match(outs, Eft::Deny) {
        seq![rule_view(rules[first_deny_idx(outs)])]
    } else {
        Seq::empty()
    }
}

/// An access-control engine: a model and the policy loaded against it,
/// both immutable for the enforcer's lifetime.
pub struct Enforcer {
    pub model: Model,
    pub store: PolicyStore,
}

impl Enforcer {
    /// The model is well-formed and the store fits its declared arity.
    pub open spec fn wf(self) -> bool {
        self.model.wf() && self.store.wf(self.model)
    }

    /// Builds the engine from a model and a policy store. Enforcement is
    /// total for any inputs; a model from [`crate::model::parse_model`] and
    /// a store loaded against it make the engine well-formed.
    pub fn new(model: Model, store: PolicyStore) -> (e: Enforcer)
        ensures
            e.model == model,
            e.store == store,
    {
        Enforcer { model, store }
    }

    /// Decides one request: `Ok(true)` exactly when the effect rule allows
    /// the matcher outcomes, `Err` exactly on an arity mismatch or the
    /// first matcher evaluation error.
    pub fn enforce(&self, req: &Vec<Value>) -> (r: Result<bool, EnforceError>)
        ensures
            r == spec_enforce(*self, req_views(req@)),
    {
        let (r, _expl) = self.run(req);
        r
    }

    /// Decides one request and reports the contributing rules
    /// ([`spec_explain`]); the decision is exactly that of [`enforce`].
    pub fn enforce_ex(&self, req: &Vec<Value>) -> (r: Result<(bool, Vec<Vec<String>>), EnforceError>)
        ensures
            match r {
                Ok(p) => spec_enforce(*self, req_views(req@)) == Ok::<bool, EnforceError>(p.0)
                    && (spec_collect(
                    self.model,
                    self.store.p_rules@,
                    req_views(req@),
                    self.store.g_edges@,
                ) matches Ok(outs) && p.1@.map_values(|rr: Vec<String>| rule_view(rr))
                    == spec_explain(self.model.effect, self.store.p_rules@, outs)),
                Err(e) => spec_enforce(*self, req_views(req@)) == Err::<bool, EnforceError>(e),
            },
    {
        let (r, expl) = self.run(req);
        match r {
            Ok(b) => Ok((b, expl)),
            Err(e) => Err(e),
        }
    }

    /// Shared evaluation loop: the decision, plus the contributing rules
    /// when the outcomes are error-free.
    fn run(&self, req: &Vec<Value>) -> (r: (Result<bool, EnforceError>, Vec<Vec<String>>))
        ensures
            r.0 == spec_enforce(*self, req_views(req@)),
            r.0 is Ok ==> (spec_collect(
                self.model,
                self.store.p_rules@,
                req_views(req@),
                self.store.g_edges@,
            ) matches Ok(outs) && r.1@.map_values(|rr: Vec<String>| rule_view(rr)) == spec_explain(
                self.model.effect,
                self.store.p_rules@,
                outs,
            )),
    {
        if req.len() != self.model.req_tokens.len() {
            return (Err(EnforceError::RequestArity), Vec::new());
        }
        let n = self.store.p_rules.len();
        let mut outs: Vec<(bool, Eft)> = Vec::new();
        let mut i: usize = 0;
        while i < n
            invariant
                req@.len() == self.model.req_tokens@.len(),
                n == self.store.p_rules@.len(),
                0 <= i <= n,
                outs@.len() == i,
                forall|j: int|
                    0 <= j < i ==> spec_eval(
                        self.model.matcher,
                        req_views(req@),
                        (#[trigger] self.store.p_rules@[j])@,
                        self.store.g_edges@,
                    ) == Ok::<bool, MatcherEvalError>(outs@[j].0) && outs@[j].1 == rule_eft(
                        self.model,
                        self.store.p_rules@[j]@,
                    ),
            decreases n - i,
        {
            let rule = &self.store.p_rules[i];
            match eval_expr(&self.model.matcher, req, rule, &self.store.g_edges) {
                Ok(b) => {
                    let e = eft_of(&self.model, rule);
                    outs.push((b, e));
                },
                Err(er) => {
                    proof {
                        lemma_collect_err(
                            self.model,
                            self.store.p_rules@,
                            req_views(req@),
                            self.store.g_edges@,
                            i as int,
                            er,
                        );
                    }
                    return (Err(EnforceError::Matcher(er)), Vec::new());
                },
            }
            i += 1;
        }
        proof {
            lemma_collect_ok(
                self.model,
                self.store.p_rules@,
                req_views(req@),
                self.store.g_edges@,
                outs@,
            );
        }
        let decision = effect::resolve(self.model.effect, &outs);
        let expl = self.explain_rules(&outs, decision);
        (Ok(decision), expl)
    }

    /// Builds the explanation for already-collected outcomes.
    fn explain_rules(&self, outs: &Vec<(bool, Eft)>, decision: bool) -> (expl: Vec<Vec<String>>)
        requires
            outs@.len() == self.store.p_rules@.len(),
            decision == spec_decision(self.model.effect, outs@),
        ensures
            expl@.map_values(|rr: Vec<String>| rule_view(rr)) == spec_explain(
                self.model.effect,
                self.store.p_rules@,
                outs@,
            ),
    {
        let n = outs.len();
        let mut expl: Vec<Vec<String>> = Vec::new();
        if decision {
            let mut i: usize = 0;
            proof {
                assert(self.store.p_rules@.take(0) =~= Seq::<Vec<String>>::empty());
                assert(outs@.take(0) =~= Seq::<(bool, Eft)>::empty());
            }
            while i < n
                invariant
                    n == outs@.len(),
                    n == self.store.p_rules@.len(),
                    0 <= i <= n,
                    expl@.map_values(|rr: Vec<String>| rule_view(rr)) == spec_allow_explain(
                        self.store.p_rules@.take(i as int),
                        outs@.take(i as int),
                    ),
                decreases n - i,
            {
                let ghost old_map = expl@.map_values(|rr: Vec<String>| rule_view(rr));
                let o = &outs[i];
                if o.0 && matches!(o.1, Eft::Allow) {
                    let rule = clone_rule(&self.store.p_rules[i]);
                    expl.push(rule);
                    proof {
                        assert(expl@.map_values(|rr: Vec<String>| rule_view(rr)) =~= old_map.push(
                            rule_view(self.store.p_rules@[i as int]),
                        ));
                    }
                }
                proof {
                    let pre_r = self.store.p_rules@.take(i as int);
                    let pre_o = outs@.take(i as int);
                    lemma_allow_explain_snoc(
                        pre_r,
                        pre_o,
                        self.store.p_rules@[i as int],
                        outs@[i as int],
                    );
                    assert(self.store.p_rules@.take(i + 1) =~= pre_r.push(
                        self.store.p_rules@[i as int],
                    ));
                    assert(outs@.take(i + 1) =~= pre_o.push(outs@[i as int]));
                    if outs@[i as int].0 && outs@[i as int].1 == Eft::Allow {
                        assert(old_map + seq![rule_view(self.store.p_rules@[i as int])]
                            =~= old_map.push(rule_view(self.store.p_rules@[i as int])));
                    } else {
                        assert(spec_allow_explain(pre_r, pre_o) + Seq::<Seq<Seq<char>>>::empty()
                            =~= spec_allow_explain(pre_r, pre_o));
                    }
                }
                i += 1;
            }
            proof {
                assert(self.store.p_rules@.take(n as int) =~= self.store.p_rules@);
                assert(outs@.take(n as int) =~= outs@);
            }
        } else if matches!(self.model.effect, Effect::DenyOverride) {
            let mut found = false;
            let mut i: usize = 0;
            while i < n && !found
                invariant
                    n == outs@.len(),
                    n == self.store.p_rules@.len(),
                    0 <= i <= n,
                    !found ==> expl@.len() == 0 && forall|j: int|
                        0 <= j < i ==> !((#[trigger] outs@[j]).0 && outs@[j].1 == Eft::Deny),
                    found ==> i >= 1 && first_deny_idx(outs@) == i - 1 && has_match(outs@, Eft::Deny)
                        && expl@.map_values(|rr: Vec<String>| rule_view(rr)) == seq![
                        rule_view(self.store.p_rules@[i - 1]),
                    ],
                decreases n - i,
            {
                let o = &outs[i];
                if o.0 && matches!(o.1, Eft::Deny) {
                    let rule = clone_rule(&self.store.p_rules[i]);
                    expl.push(rule);
                    found = true;
                    proof {
                        lemma_first_deny(outs@, i as int);
                        assert(outs@[i as int].0 && outs@[i as int].1 == Eft::Deny);
                        assert(expl@.map_values(|rr: Vec<String>| rule_view(rr)) =~= seq![
                            rule_view(self.store.p_rules@[i as int]),
                        ]);
                    }
                }
                i += 1;
            }
            proof {
                if !found {
                    assert(!has_match(outs@, Eft::Deny)) by {
                        if has_match(outs@, Eft::Deny) {
                            let j = choose|j: int|
                                0 <= j < outs@.len() && (#[trigger] outs@[j]).0 && outs@[j].1
                                    == Eft::Deny;
                            assert(false);
                        }
                    }
                    assert(expl@.map_values(|rr: Vec<String>| rule_view(rr)) =~= Seq::<
                        Seq<Seq<char>>,
                    >::empty());
                }
            }
        } else {
            proof {
                assert(expl@.map_values(|rr: Vec<String>| rule_view(rr)) =~= Seq::<
                    Seq<Seq<char>>,
                >::empty());
            }
        }
        expl
    }
}

/// An exact copy of one rule's fields.
fn clone_rule(r: &Vec<String>) -> (out: Vec<String>)
    ensures
        out@ == r@,
{
    let n = r.len();
    let mut out: Vec<String> = Vec::new();
    let mut i: usize = 0;
    while i < n
        invariant
            n == r@.len(),
            0 <= i <= n,
            out@.len() == i,
            forall|j: int| 0 <= j < i ==> out@[j] == r@[j],
        decreases n - i,
    {
        out.push(r[i].clone());
        i += 1;
    }
    proof {
        assert(out@ =~= r@);
    }
    out
}

/// If every rule up to `i` evaluates cleanly and rule `i` fails, the
/// collected outcome is that failure.
proof fn lemma_collect_err(
    m: Model,
    rules: Seq<Vec<String>>,
    req: Seq<ValView>,
    edges: Seq<(String, String)>,
    i: int,
    er: MatcherEvalError,
)
    requires
        0 <= i < rules.len(),
        spec_eval(m.matcher, req, rules[i]@, edges) == Err::<bool, MatcherEvalError>(er),
        forall|j: int|
            0 <= j < i ==> (spec_eval(m.matcher, req, (#[trigger] rules[j])@, edges)) is Ok,
    ensures
        spec_collect(m, rules, req, edges) == Err::<Seq<(bool, Eft)>, MatcherEvalError>(er),
    decreases i,
{
    if i == 0 {
    } else {
        lemma_collect_err(m, rules.skip(1), req, edges, i - 1, er);
        assert(rules.skip(1)[i - 1] == rules[i]);
        assert(forall|j: int|
            0 <= j < i - 1 ==> (#[trigger] rules.skip(1)[j]) == rules[j + 1]);
    }
}

/// If every rule evaluates cleanly to the recorded outcomes, the collected
/// outcome is their sequence.
proof fn lemma_collect_ok(
    m: Model,
    rules: Seq<Vec<String>>,
    req: Seq<ValView>,
    edges: Seq<(String, String)>,
    outs: Seq<(bool, Eft)>,
)
    requires
        outs.len() == rules.len(),
        forall|j: int|
            0 <= j < rules.len() ==> spec_eval(m.matcher, req, (#[trigger] rules[j])@, edges)
                == Ok::<bool, MatcherEvalError>(outs[j].0) && outs[j].1 == rule_eft(m, rules[j]@),
    ensures
        spec_collect(m, rules, req, edges) == Ok::<Seq<(bool, Eft)>, MatcherEvalError>(outs),
    decreases rules.len(),
{
    if rules.len() == 0 {
        assert(outs =~= Seq::<(bool, Eft)>::empty());
    }
    if rules.len() > 0 {
        assert(forall|j: int|
            0 <= j < rules.skip(1).len() ==> (#[trigger] rules.skip(1)[j]) == rules[j + 1]);
        assert(forall|j: int|
            0 <= j < outs.skip(1).len() ==> (#[trigger] outs.skip(1)[j]) == outs[j + 1]);
        lemma_collect_ok(m, rules.skip(1), req, edges, outs.skip(1));
        assert(spec_eval(m.matcher, req, rules[0]@, edges) == Ok::<bool, MatcherEvalError>(
            outs[0].0,
        ));
        assert(spec_collect(m, rules.skip(1), req, edges) == Ok::<
            Seq<(bool, Eft)>,
            MatcherEvalError,
        >(outs.skip(1)));
        assert(spec_collect(m, rules, req, edges) == Ok::<Seq<(bool, Eft)>, MatcherEvalError>(
            seq![(outs[0].0, rule_eft(m, rules[0]@))] + outs.skip(1),
        ));
        assert(outs[0] == (outs[0].0, outs[0].1));
        assert(outs[0].1 == rule_eft(m, rules[0]@));
        assert(seq![(outs[0].0, rule_eft(m, rules[0]@))] + outs.skip(1) =~= outs);
        assert(seq![(outs[0].0, rule_eft(m, rules[0]@))] + outs.skip(1) == outs);
        assert(spec_collect(m, rules, req, edges) == Ok::<Seq<(bool, Eft)>, MatcherEvalError>(
            outs,
        ));
    }
}

/// Appending one (rule, outcome) pair extends the allow explanation by the
/// rule exactly when the outcome is a matching allow.
proof fn lemma_allow_explain_snoc(
    rules: Seq<Vec<String>>,
    outs: Seq<(bool, Eft)>,
    r: Vec<String>,
    o: (bool, Eft),
)
    requires
        rules.len() == outs.len(),
    ensures
        spec_allow_explain(rules.push(r), outs.push(o)) == spec_allow_explain(rules, outs) + (
        if o.0 && o.1 == Eft::Allow {
            seq![rule_view(r)]
        } else {
            Seq::<Seq<Seq<char>>>::empty()
        }),
    decreases rules.len(),
{
    reveal_with_fuel(spec_allow_explain, 3);
    let rp = rules.push(r);
    let op = outs.push(o);
    if rules.len() == 0 {
        assert(rp[0] == r);
        assert(op[0] == o);
        assert(rp.skip(1) =~= Seq::<Vec<String>>::empty());
        assert(op.skip(1) =~= Seq::<(bool, Eft)>::empty());
        assert(spec_allow_explain(
            Seq::<Vec<String>>::empty(),
            Seq::<(bool, Eft)>::empty(),
        ) == Seq::<Seq<Seq<char>>>::empty());
        if o.0 && o.1 == Eft::Allow {
            assert(spec_allow_explain(rp, op) =~= seq![rule_view(r)]);
            assert(spec_allow_explain(rules, outs) + seq![rule_view(r)] =~= seq![rule_view(r)]);
        } else {
            assert(spec_allow_explain(rp, op) =~= Seq::<Seq<Seq<char>>>::empty());
            assert(spec_allow_explain(rules, outs) + Seq::<Seq<Seq<char>>>::empty() =~= Seq::<
                Seq<Seq<char>>,
            >::empty());
        }
    } else {
        assert(rp[0] == rules[0]);
        assert(op[0] == outs[0]);
        assert(rp.skip(1) =~= rules.skip(1).push(r));
        assert(op.skip(1) =~= outs.skip(1).push(o));
        lemma_allow_explain_snoc(rules.skip(1), outs.skip(1), r, o);
        if outs[0].0 && outs[0].1 == Eft::Allow {
            assert(seq![rule_view(rules[0])] + (spec_allow_explain(rules.skip(1), outs.skip(1)) + (
            if o.0 && o.1 == Eft::Allow {
                seq![rule_view(r)]
            } else {
                Seq::<Seq<Seq<char>>>::empty()
            })) =~= (seq![rule_view(rules[0])] + spec_allow_explain(rules.skip(1), outs.skip(1)))
                + (if o.0 && o.1 == Eft::Allow {
                seq![rule_view(r)]
            } else {
                Seq::<Seq<Seq<char>>>::empty()
            }));
        } else {
            assert(spec_allow_explain(rules, outs) == spec_allow_explain(
                rules.skip(1),
                outs.skip(1),
            ));
        }
    }
}

/// If nothing before `i` is a matching deny and `i` is, then `i` is the
/// first matching deny index.
proof fn lemma_first_deny(outs: Seq<(bool, Eft)>, i: int)
    requires
        0 <= i < outs.len(),
        outs[i].0 && outs[i].1 == Eft::Deny,
        forall|j: int| 0 <= j < i ==> !((#[trigger] outs[j]).0 && outs[j].1 == Eft::Deny),
    ensures
        first_deny_idx(outs) == i,
        has_match(outs, Eft::Deny),
    decreases i,
{
    if i == 0 {
    } else {
        assert(forall|j: int|
            0 <= j < i - 1 ==> (#[trigger] outs.skip(1)[j]) == outs[j + 1]);
        assert(outs.skip(1)[i - 1] == outs[i]);
        lemma_first_deny(outs.skip(1), i - 1);
    }
}

/// Fail-closed default: with an empty policy store, every well-formed
/// request is denied, whichever effect rule the model configures.
pub proof fn lemma_empty_policy_denies(enf: Enforcer, req: Seq<ValView>)
    requires
        enf.store.p_rules@.len() == 0,
        req.len() == enf.model.req_tokens@.len(),
    ensures
        spec_enforce(enf, req) == Ok::<bool, EnforceError>(false),
{
    effect::lemma_empty_denies(enf.model.effect);
}

/// Idempotence: the result of an enforcement call is a function of the
/// enforcer and the request views alone, so two calls with the same inputs
/// return the same result. `enforce`'s contract equates each call's result
/// with `spec_enforce`, which this lemma states is single-valued.
pub proof fn lemma_enforce_idempotent(
    enf: Enforcer,
    req: Seq<ValView>,
    r1: Result<bool, EnforceError>,
    r2: Result<bool, EnforceError>,
)
    requires
        r1 == spec_enforce(enf, req),
        r2 == spec_enforce(enf, req),
    ensures
        r1 == r2,
{
}

} // verus!
