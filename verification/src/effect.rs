//! The effect resolver: aggregates the per-rule matcher outcomes into one
//! allow/deny decision. Both supported effect rules are fail-closed: with no
//! matching allow rule the decision is deny.

use vstd::prelude::*;

verus! {

/// The configured effect rule of a model.
///
/// `AllowOverride` is `some(where (p.eft == allow))`: any matching allow
/// rule decides, matching deny rules are ignored. `DenyOverride` covers
/// `!some(where (p.eft == deny))` and its conjunction with the former: a
/// matching deny rule vetoes, and a matching allow rule is still required,
/// so an empty candidate set denies (fail-closed).
#[derive(Clone, Copy, Debug, PartialEq, Eq, Structural)]
pub enum Effect {
    AllowOverride,
    DenyOverride,
}

/// The effect field of one policy rule. Rules without a declared `eft`
/// token, or with an empty or `allow` field, allow; `deny` denies; any
/// other field value makes the rule count for neither side.
#[derive(Clone, Copy, Debug, PartialEq, Eq, Structural)]
pub enum Eft {
    Allow,
    Deny,
    Ignore,
}

/// Some rule matched and carries the given effect.
pub open spec fn has_match(outs: Seq<(bool, Eft)>, e: Eft) -> bool {
    exists|i: int| 0 <= i < outs.len() && (#[trigger] outs[i]).0 && outs[i].1 == e
}

/// The final decision for the given effect rule and per-rule outcomes.
/// Each outcome pairs "the matcher evaluated true" with the rule's effect
/// field.
pub open spec fn spec_decision(eff: Effect, outs: Seq<(bool, Eft)>) -> bool {
    match eff {
        Effect::AllowOverride => has_match(outs, Eft::Allow),
        Effect::DenyOverride => has_match(outs, Eft::Allow) && !has_match(outs, Eft::Deny),
    }
}

/// Exec resolver matching [`spec_decision`].
pub fn resolve(eff: Effect, outs: &Vec<(bool, Eft)>) -> (b: bool)
    ensures
        b == spec_decision(eff, outs@),
{
    let n = outs.len();
    let mut any_allow = false;
    let mut any_deny = false;
    let mut i: usize = 0;
    while i < n
        invariant
            n == outs@.len(),
            0 <= i <= n,
            any_allow == has_match(outs@.take(i as int), Eft::Allow),
            any_deny == has_match(outs@.take(i as int), Eft::Deny),
        decreases n - i,
    {
        let o = &outs[i];
        proof {
            assert forall|e: Eft|
                has_match(outs@.take(i + 1), e) == (has_match(outs@.take(i as int), e) || (
                outs@[i as int].0 && outs@[i as int].1 == e)) by {
                let pre = outs@.take(i as int);
                let cur = outs@.take(i + 1);
                assert(forall|j: int| 0 <= j < i ==> cur[j] == pre[j]);
                assert(cur[i as int] == outs@[i as int]);
                if has_match(pre, e) {
                    let j = choose|j: int| 0 <= j < pre.len() && (#[trigger] pre[j]).0 && pre[j].1 == e;
                    assert(cur[j].0 && cur[j].1 == e);
                }
                if has_match(cur, e) {
                    let j = choose|j: int| 0 <= j < cur.len() && (#[trigger] cur[j]).0 && cur[j].1 == e;
                    if j < i {
                        assert(pre[j].0 && pre[j].1 == e);
                    }
                }
            }
        }
        if o.0 {
            match o.1 {
                Eft::Allow => {
                    any_allow = true;
                },
                Eft::Deny => {
                    any_deny = true;
                },
                Eft::Ignore => {},
            }
        }
        i += 1;
    }
    proof {
        assert(outs@.take(n as int) =~= outs@);
    }
    match eff {
        Effect::AllowOverride => any_allow,
        Effect::DenyOverride => any_allow && !any_deny,
    }
}

/// Under deny-override, a matching deny rule forces a deny, whatever else
/// matched.
pub proof fn lemma_deny_overrides(outs: Seq<(bool, Eft)>)
    requires
        has_match(outs, Eft::Deny),
    ensures
        !spec_decision(Effect::DenyOverride, outs),
{
}

/// With no outcomes at all, both effect rules deny (fail-closed).
pub proof fn lemma_empty_denies(eff: Effect)
    ensures
        !spec_decision(eff, Seq::empty()),
{
}

} // verus!
