use accessctl::enforcer::Enforcer;
use accessctl::errors::{EnforceError, MatcherEvalError};
use accessctl::model::parse_model;
use accessctl::policy::{parse_policy, PolicyStore};
use accessctl::value::Value;

fn basic_model() -> String {
    "[request_definition]\nr = sub, obj, act\n[policy_definition]\np = sub, obj, act\n[policy_effect]\ne = some(where (p.eft == allow))\n[matchers]\nm = r.sub == p.sub && r.obj == p.obj && r.act == p.act\n".to_string()
}

fn basic_policy() -> String {
    "p, alice, data1, read\np, bob, data2, write\n".to_string()
}

fn abac_model() -> String {
    "[request_definition]\nr = sub, obj\n[policy_definition]\np = sub, obj\n[policy_effect]\ne = some(where (p.eft == allow))\n[matchers]\nm = r.sub == r.obj.Owner\n".to_string()
}

fn rbac_model() -> String {
    "[request_definition]\nr = sub, obj\n[policy_definition]\np = sub, obj\n[role_definition]\ng = _, _\n[policy_effect]\ne = some(where (p.eft == allow))\n[matchers]\nm = g(r.sub, p.sub) && r.obj == p.obj\n".to_string()
}

fn eft_model(effect_line: &str) -> String {
    format!(
        "[request_definition]\nr = sub, obj, act\n[policy_definition]\np = sub, obj, act, eft\n[policy_effect]\ne = {}\n[matchers]\nm = r.sub == p.sub && r.obj == p.obj && r.act == p.act\n",
        effect_line
    )
}

fn engine(model: &str, policy: &str) -> Enforcer {
    let m = parse_model(model).expect("model should parse");
    let s = parse_policy(&m, policy).expect("policy should parse");
    Enforcer::new(m, s)
}

fn sreq(fields: &[&str]) -> Vec<Value> {
    fields.iter().map(|f| Value::S(f.to_string())).collect()
}

#[test]
fn test_enforce() {
    let e = engine(&basic_model(), &basic_policy());
    let allow = e
        .enforce(&sreq(&["alice", "data1", "read"]))
        .expect("failed to enforce");
    assert!(allow);
}

#[test]
fn test_enforce_explain() {
    let e = engine(&basic_model(), &basic_policy());
    let (allow, explain) = e
        .enforce_ex(&sreq(&["alice", "data1", "read"]))
        .expect("failed to enforce");
    assert!(allow);
    assert_eq!(
        explain,
        vec![vec![
            "alice".to_string(),
            "data1".to_string(),
            "read".to_string()
        ]]
    );
}

#[test]
fn test_abac() {
    let e = engine(&abac_model(), "p, alice, data1\n");
    let req = vec![
        Value::S("alice".to_string()),
        Value::Obj(vec![("Owner".to_string(), "alice".to_string())]),
    ];
    let (allow, explain) = e.enforce_ex(&req).expect("failed to enforce");
    assert!(allow);
    // the one policy rule matched (the matcher reads only request fields),
    // so it is the contributing rule
    assert_eq!(
        explain,
        vec![vec!["alice".to_string(), "data1".to_string()]]
    );
}

#[test]
fn abac_denies_other_owner() {
    let e = engine(&abac_model(), "p, alice, data1\n");
    let req = vec![
        Value::S("bob".to_string()),
        Value::Obj(vec![("Owner".to_string(), "alice".to_string())]),
    ];
    assert_eq!(e.enforce(&req), Ok(false));
}

#[test]
fn basic_denies_unmatched_action() {
    let e = engine(&basic_model(), &basic_policy());
    assert_eq!(e.enforce(&sreq(&["alice", "data1", "write"])), Ok(false));
}

#[test]
fn empty_policy_denies() {
    let e = engine(&basic_model(), "");
    assert_eq!(e.enforce(&sreq(&["alice", "data1", "read"])), Ok(false));
    let d = engine(
        &eft_model("!some(where (p.eft == deny))"),
        "# no rules at all\n",
    );
    assert_eq!(d.enforce(&sreq(&["alice", "data1", "read"])), Ok(false));
}

#[test]
fn arity_mismatch_is_an_error() {
    let e = engine(&basic_model(), &basic_policy());
    assert_eq!(
        e.enforce(&sreq(&["alice", "data1"])),
        Err(EnforceError::RequestArity)
    );
    assert_eq!(
        e.enforce(&sreq(&["alice", "data1", "read", "extra"])),
        Err(EnforceError::RequestArity)
    );
}

#[test]
fn repeated_enforce_is_identical() {
    let e = engine(&basic_model(), &basic_policy());
    let req = sreq(&["alice", "data1", "read"]);
    let first = e.enforce(&req);
    for _ in 0..5 {
        assert_eq!(e.enforce(&req), first);
    }
}

#[test]
fn deny_override_vetoes() {
    let policy = "p, alice, data1, read, allow\np, alice, data1, read, deny\n";
    let d = engine(
        &eft_model("some(where (p.eft == allow)) && !some(where (p.eft == deny))"),
        policy,
    );
    assert_eq!(d.enforce(&sreq(&["alice", "data1", "read"])), Ok(false));
    let a = engine(&eft_model("some(where (p.eft == allow))"), policy);
    assert_eq!(a.enforce(&sreq(&["alice", "data1", "read"])), Ok(true));
}

#[test]
fn deny_override_explains_first_deny() {
    let policy = "p, alice, data1, read, allow\np, alice, data1, read, deny\n";
    let d = engine(&eft_model("!some(where (p.eft == deny))"), policy);
    let (allow, explain) = d
        .enforce_ex(&sreq(&["alice", "data1", "read"]))
        .expect("failed to enforce");
    assert!(!allow);
    assert_eq!(
        explain,
        vec![vec![
            "alice".to_string(),
            "data1".to_string(),
            "read".to_string(),
            "deny".to_string()
        ]]
    );
}

#[test]
fn unrecognized_eft_counts_for_neither_side() {
    let d = engine(
        &eft_model("!some(where (p.eft == deny))"),
        "p, alice, data1, read, maybe\n",
    );
    assert_eq!(d.enforce(&sreq(&["alice", "data1", "read"])), Ok(false));
}

#[test]
fn rbac_membership_with_cycle_terminates() {
    let e = engine(
        &rbac_model(),
        "p, admin, data1\ng, alice, admin\ng, admin, alice\n",
    );
    assert_eq!(e.enforce(&sreq(&["alice", "data1"])), Ok(true));
    assert_eq!(e.enforce(&sreq(&["bob", "data1"])), Ok(false));
}

#[test]
fn rbac_transitive_membership() {
    let e = engine(
        &rbac_model(),
        "p, admin, data1\ng, alice, staff\ng, staff, admin\n",
    );
    assert_eq!(e.enforce(&sreq(&["alice", "data1"])), Ok(true));
    assert_eq!(e.enforce(&sreq(&["staff", "data1"])), Ok(true));
    assert_eq!(e.enforce(&sreq(&["carol", "data1"])), Ok(false));
}

#[test]
fn wildcard_matches_anything() {
    let e = engine(&basic_model(), "p, alice, *, read\n");
    assert_eq!(e.enforce(&sreq(&["alice", "data9", "read"])), Ok(true));
    assert_eq!(e.enforce(&sreq(&["alice", "data9", "write"])), Ok(false));
}

#[test]
fn bool_field_canonicalizes_against_string() {
    let e = engine(&basic_model(), "p, alice, data1, true\n");
    let req = vec![
        Value::S("alice".to_string()),
        Value::S("data1".to_string()),
        Value::B(true),
    ];
    assert_eq!(e.enforce(&req), Ok(true));
    let req_false = vec![
        Value::S("alice".to_string()),
        Value::S("data1".to_string()),
        Value::B(false),
    ];
    assert_eq!(e.enforce(&req_false), Ok(false));
}

#[test]
fn string_literal_operand() {
    let model = "[request_definition]\nr = sub, obj, act\n[policy_definition]\np = sub, obj, act\n[policy_effect]\ne = some(where (p.eft == allow))\n[matchers]\nm = r.sub == \"root\" || r.sub == p.sub && r.obj == p.obj && r.act == p.act\n";
    let e = engine(model, &basic_policy());
    assert_eq!(e.enforce(&sreq(&["root", "data9", "exec"])), Ok(true));
    assert_eq!(e.enforce(&sreq(&["mallory", "data9", "exec"])), Ok(false));
}

#[test]
fn attribute_on_plain_value_is_an_eval_error() {
    let e = engine(&abac_model(), "p, alice, data1\n");
    let req = sreq(&["alice", "not-an-object"]);
    assert_eq!(
        e.enforce(&req),
        Err(EnforceError::Matcher(MatcherEvalError::NotAnObject))
    );
}

#[test]
fn missing_attribute_is_an_eval_error() {
    let e = engine(&abac_model(), "p, alice, data1\n");
    let req = vec![
        Value::S("alice".to_string()),
        Value::Obj(vec![("Group".to_string(), "dev".to_string())]),
    ];
    assert_eq!(
        e.enforce(&req),
        Err(EnforceError::Matcher(MatcherEvalError::UnknownAttribute))
    );
}

#[test]
fn empty_store_from_constructor_denies() {
    let m = parse_model(&basic_model()).expect("model should parse");
    let e = Enforcer::new(m, PolicyStore::new());
    assert_eq!(e.enforce(&sreq(&["alice", "data1", "read"])), Ok(false));
}
