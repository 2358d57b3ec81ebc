use accessctl::effect::{resolve, Effect, Eft};
use accessctl::errors::{ModelParseError, PolicyParseError};
use accessctl::model::{parse_model, token_index};
use accessctl::policy::parse_policy;
use accessctl::roles::has_role;
use accessctl::text::{split, str_eq, trim};
use accessctl::value::{obj_get, val_eq, Value};

fn model_text(matcher: &str) -> String {
    format!(
        "[request_definition]\nr = sub, obj, act\n[policy_definition]\np = sub, obj, act\n[policy_effect]\ne = some(where (p.eft == allow))\n[matchers]\nm = {}\n",
        matcher
    )
}

#[test]
fn trim_strips_surrounding_whitespace() {
    assert_eq!(trim("  hi\t"), "hi".to_string());
    assert_eq!(trim("\t \r"), "".to_string());
    assert_eq!(trim("a b"), "a b".to_string());
}

#[test]
fn split_keeps_empty_fields() {
    assert_eq!(
        split("a,b,,c", ','),
        vec![
            "a".to_string(),
            "b".to_string(),
            "".to_string(),
            "c".to_string()
        ]
    );
    assert_eq!(split("", ','), vec!["".to_string()]);
}

#[test]
fn str_eq_compares_characters() {
    assert!(str_eq("abc", "abc"));
    assert!(!str_eq("abc", "abd"));
    assert!(!str_eq("abc", "ab"));
}

#[test]
fn token_index_finds_first_occurrence() {
    let toks = vec!["sub".to_string(), "obj".to_string(), "act".to_string()];
    assert_eq!(token_index(&toks, "obj"), Some(1));
    assert_eq!(token_index(&toks, "eft"), None);
}

#[test]
fn obj_get_returns_first_matching_key() {
    let entries = vec![
        ("Owner".to_string(), "alice".to_string()),
        ("Owner".to_string(), "bob".to_string()),
    ];
    assert_eq!(obj_get(&entries, "Owner"), Some("alice".to_string()));
    assert_eq!(obj_get(&entries, "Group"), None);
}

#[test]
fn value_equality_rules() {
    let s = |t: &str| Value::S(t.to_string());
    assert!(val_eq(&s("a"), &s("a")));
    assert!(!val_eq(&s("a"), &s("b")));
    assert!(val_eq(&s("*"), &s("anything")));
    assert!(val_eq(&Value::I(3), &s("*")));
    assert!(val_eq(&Value::I(3), &Value::I(3)));
    assert!(!val_eq(&Value::I(3), &Value::I(4)));
    assert!(val_eq(&s("true"), &Value::B(true)));
    assert!(val_eq(&Value::B(false), &s("false")));
    assert!(!val_eq(&s("true"), &Value::B(false)));
    // numeric strings do not canonicalize against integers
    assert!(!val_eq(&Value::I(5), &s("5")));
    // structured values compare only through attribute access
    let o = Value::Obj(vec![("k".to_string(), "v".to_string())]);
    let o2 = Value::Obj(vec![("k".to_string(), "v".to_string())]);
    assert!(!val_eq(&o, &o2));
}

#[test]
fn role_membership_is_reflexive_and_transitive() {
    let edges = vec![
        ("alice".to_string(), "staff".to_string()),
        ("staff".to_string(), "admin".to_string()),
    ];
    assert!(has_role(&edges, &"alice".to_string(), &"alice".to_string()));
    assert!(has_role(&edges, &"alice".to_string(), &"admin".to_string()));
    assert!(!has_role(&edges, &"admin".to_string(), &"alice".to_string()));
}

#[test]
fn role_membership_survives_cycles() {
    let edges = vec![
        ("a".to_string(), "b".to_string()),
        ("b".to_string(), "a".to_string()),
    ];
    assert!(has_role(&edges, &"a".to_string(), &"b".to_string()));
    assert!(has_role(&edges, &"b".to_string(), &"a".to_string()));
    assert!(!has_role(&edges, &"a".to_string(), &"c".to_string()));
}

#[test]
fn resolver_is_fail_closed() {
    assert!(!resolve(Effect::AllowOverride, &vec![]));
    assert!(!resolve(Effect::DenyOverride, &vec![]));
    assert!(!resolve(Effect::AllowOverride, &vec![(false, Eft::Allow)]));
    assert!(!resolve(Effect::DenyOverride, &vec![(true, Eft::Ignore)]));
}

#[test]
fn resolver_effect_semantics() {
    let both = vec![(true, Eft::Allow), (true, Eft::Deny)];
    assert!(resolve(Effect::AllowOverride, &both));
    assert!(!resolve(Effect::DenyOverride, &both));
    let allow_only = vec![(true, Eft::Allow), (false, Eft::Deny)];
    assert!(resolve(Effect::AllowOverride, &allow_only));
    assert!(resolve(Effect::DenyOverride, &allow_only));
}

#[test]
fn model_missing_section_is_rejected() {
    assert!(matches!(parse_model(""), Err(ModelParseError::MissingSection)));
    let no_matcher = "[request_definition]\nr = sub\n[policy_definition]\np = sub\n[policy_effect]\ne = some(where (p.eft == allow))\n";
    assert!(matches!(
        parse_model(no_matcher),
        Err(ModelParseError::MissingSection)
    ));
}

#[test]
fn model_unknown_effect_is_rejected() {
    let text = "[request_definition]\nr = sub\n[policy_definition]\np = sub\n[policy_effect]\ne = priority(p.eft)\n[matchers]\nm = r.sub == p.sub\n";
    assert!(matches!(parse_model(text), Err(ModelParseError::UnknownEffect)));
}

#[test]
fn model_bad_line_is_rejected() {
    let text = "[request_definition]\nthis is not a key value line\n";
    assert!(matches!(parse_model(text), Err(ModelParseError::BadLine)));
    let bad_header = "[mystery_section]\n";
    assert!(matches!(parse_model(bad_header), Err(ModelParseError::BadLine)));
}

#[test]
fn model_matcher_syntax_is_rejected() {
    assert!(matches!(
        parse_model(&model_text("r.sub ==")),
        Err(ModelParseError::MatcherSyntax)
    ));
    assert!(matches!(
        parse_model(&model_text("r.sub == p.sub &&")),
        Err(ModelParseError::MatcherSyntax)
    ));
    assert!(matches!(
        parse_model(&model_text("r.sub ? p.sub")),
        Err(ModelParseError::MatcherSyntax)
    ));
}

#[test]
fn model_undeclared_token_is_rejected() {
    assert!(matches!(
        parse_model(&model_text("r.nope == p.sub")),
        Err(ModelParseError::UndeclaredToken)
    ));
    assert!(matches!(
        parse_model(&model_text("r.sub == p.nope")),
        Err(ModelParseError::UndeclaredToken)
    ));
    // g without a role_definition section
    assert!(matches!(
        parse_model(&model_text("g(r.sub, p.sub)")),
        Err(ModelParseError::UndeclaredToken)
    ));
}

#[test]
fn policy_arity_mismatch_is_rejected() {
    let m = parse_model(&model_text("r.sub == p.sub")).unwrap();
    assert!(matches!(
        parse_policy(&m, "p, alice\n"),
        Err(PolicyParseError::ArityMismatch)
    ));
    assert!(matches!(
        parse_policy(&m, "p, alice, data1, read, extra\n"),
        Err(PolicyParseError::ArityMismatch)
    ));
}

#[test]
fn policy_unknown_rule_type_is_rejected() {
    let m = parse_model(&model_text("r.sub == p.sub")).unwrap();
    assert!(matches!(
        parse_policy(&m, "q, alice, data1, read\n"),
        Err(PolicyParseError::UnknownRuleType)
    ));
    // g rules need a declared role_definition
    assert!(matches!(
        parse_policy(&m, "g, alice, admin\n"),
        Err(PolicyParseError::UnknownRuleType)
    ));
}

#[test]
fn policy_comments_and_blanks_are_skipped() {
    let m = parse_model(&model_text("r.sub == p.sub")).unwrap();
    let s = parse_policy(&m, "# a comment\n\np, alice, data1, read\n  \n").unwrap();
    assert_eq!(s.p_rules.len(), 1);
    assert_eq!(
        s.p_rules[0],
        vec!["alice".to_string(), "data1".to_string(), "read".to_string()]
    );
}

#[test]
fn model_line_before_any_section_is_rejected() {
    assert!(matches!(parse_model("r = sub\n"), Err(ModelParseError::BadLine)));
}

#[test]
fn role_definition_must_be_two_wildcards() {
    let one = "[request_definition]\nr = sub\n[policy_definition]\np = sub\n[role_definition]\ng = _\n[policy_effect]\ne = some(where (p.eft == allow))\n[matchers]\nm = r.sub == p.sub\n";
    assert!(matches!(parse_model(one), Err(ModelParseError::BadLine)));
    let named = one.replace("g = _", "g = _, x");
    assert!(matches!(parse_model(&named), Err(ModelParseError::BadLine)));
}

#[test]
fn empty_token_in_definition_is_rejected() {
    let text = "[request_definition]\nr = sub,, act\n";
    assert!(matches!(parse_model(text), Err(ModelParseError::BadLine)));
}
