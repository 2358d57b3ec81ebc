//! The model: request and policy shapes, the effect rule and the matcher
//! expression, plus the loader for the textual model format.

use vstd::prelude::*;
use crate::effect::{Effect, Eft};
use crate::errors::ModelParseError;
use crate::expr::{
    self,
    expr_uses_g,
    expr_view,
    expr_wf,
    exprv_uses_g,
    lemma_uses_g_view,
    spec_parse_matcher,
    Expr,
    ExprV,
};
use crate::text;

verus! {

/// The section of the model file the loader is currently in.
#[derive(Clone, Copy)]
pub enum Section {
    Preamble,
    Request,
    Policy,
    Role,
    Effect,
    Matchers,
}

/// The loader's state after some lines: the current section and what the
/// sections seen so far declared.
pub struct LoaderState {
    pub section: Section,
    pub req: Option<Seq<Seq<char>>>,
    pub pol: Option<Seq<Seq<char>>>,
    pub has_g: bool,
    pub eff: Option<Effect>,
    pub matcher: Option<Seq<char>>,
}

/// A parsed model definition.
pub struct Model {
    /// The request field tokens of `request_definition` (`sub, obj, act`).
    pub req_tokens: Vec<String>,
    /// The policy field tokens of `policy_definition`.
    pub pol_tokens: Vec<String>,
    /// Whether the model declares a `role_definition` (a `g` relation).
    pub has_g: bool,
    /// The effect rule of `policy_effect`.
    pub effect: Effect,
    /// The matcher expression of `matchers`.
    pub matcher: Expr,
}

impl Model {
    /// Well-formedness: both shapes are non-empty, every field reference in
    /// the matcher is declared, and `g` is used only when declared.
    pub open spec fn wf(self) -> bool {
        &&& self.req_tokens@.len() >= 1
        &&& self.pol_tokens@.len() >= 1
        &&& expr_wf(self.matcher, self.req_tokens@.len(), self.pol_tokens@.len())
        &&& (expr_uses_g(self.matcher) ==> self.has_g)
    }
}

/// The first index at which `tokens` holds `name`, if any.
pub open spec fn spec_token_index(tokens: Seq<String>, name: Seq<char>) -> Option<int>
    decreases tokens.len(),
{
    if tokens.len() == 0 {
        None
    } else if tokens[0]@ == name {
        Some(0)
    } else {
        match spec_token_index(tokens.skip(1), name) {
            Some(i) => Some(i + 1),
            None => None,
        }
    }
}

/// Exec lookup matching [`spec_token_index`].
pub fn token_index(tokens: &Vec<String>, name: &str) -> (r: Option<usize>)
    ensures
        match r {
            Some(i) => spec_token_index(tokens@, name@) == Some(i as int) && i < tokens@.len(),
            None => spec_token_index(tokens@, name@) is None,
        },
{
    let n = tokens.len();
    let mut i: usize = 0;
    proof {
        assert(tokens@.skip(0) =~= tokens@);
    }
    while i < n
        invariant
            n == tokens@.len(),
            0 <= i <= n,
            spec_token_index(tokens@, name@) == match spec_token_index(
                tokens@.skip(i as int),
                name@,
            ) {
                Some(k) => Some(i + k),
                None => None::<int>,
            },
        decreases n - i,
    {
        proof {
            assert(tokens@.skip(i as int)[0] == tokens@[i as int]);
            assert(tokens@.skip(i as int).skip(1) =~= tokens@.skip(i + 1));
        }
        if text::str_eq(tokens[i].as_str(), name) {
            return Some(i);
        }
        i += 1;
    }
    proof {
        assert(tokens@.skip(n as int) =~= Seq::<String>::empty());
    }
    None
}

/// The effect field of one rule under this model: the field at the declared
/// `eft` token, defaulting to allow when no `eft` token is declared.
pub open spec fn rule_eft(m: Model, rule: Seq<String>) -> Eft {
    match spec_token_index(m.pol_tokens@, "eft"@) {
        None => Eft::Allow,
        Some(i) => if 0 <= i < rule.len() {
            if rule[i]@ == "allow"@ || rule[i]@ == Seq::<char>::empty() {
                Eft::Allow
            } else if rule[i]@ == "deny"@ {
                Eft::Deny
            } else {
                Eft::Ignore
            }
        } else {
            Eft::Allow
        },
    }
}

/// Exec classification matching [`rule_eft`].
pub fn eft_of(m: &Model, rule: &Vec<String>) -> (e: Eft)
    ensures
        e == rule_eft(*m, rule@),
{
    proof {
        reveal_strlit("");
        assert(""@ =~= Seq::<char>::empty());
    }
    match token_index(&m.pol_tokens, "eft") {
        None => Eft::Allow,
        Some(i) => {
            if i < rule.len() {
                let f = &rule[i];
                if text::str_eq(f.as_str(), "allow") || text::str_eq(f.as_str(), "") {
                    Eft::Allow
                } else if text::str_eq(f.as_str(), "deny") {
                    Eft::Deny
                } else {
                    Eft::Ignore
                }
            } else {
                Eft::Allow
            }
        },
    }
}

/// The first position of `c` in `s`, if any.
pub open spec fn spec_find(s: Seq<char>, c: char) -> Option<int>
    decreases s.len(),
{
    if s.len() == 0 {
        None
    } else if s[0] == c {
        Some(0)
    } else {
        match spec_find(s.skip(1), c) {
            Some(i) => Some(i + 1),
            None => None,
        }
    }
}

/// Exec lookup matching [`spec_find`].
fn find_char(s: &str, c: char) -> (r: Option<usize>)
    ensures
        match r {
            Some(i) => spec_find(s@, c) == Some(i as int) && i < s@.len(),
            None => spec_find(s@, c) is None,
        },
{
    let n = s.unicode_len();
    let mut i: usize = 0;
    proof {
        assert(s@.skip(0) =~= s@);
    }
    while i < n
        invariant
            n == s@.len(),
            0 <= i <= n,
            spec_find(s@, c) == match spec_find(s@.skip(i as int), c) {
                Some(k) => Some(i + k),
                None => None::<int>,
            },
        decreases n - i,
    {
        proof {
            assert(s@.skip(i as int)[0] == s@[i as int]);
            assert(s@.skip(i as int).skip(1) =~= s@.skip(i + 1));
        }
        if s.get_char(i) == c {
            return Some(i);
        }
        i += 1;
    }
    proof {
        assert(s@.skip(n as int) =~= Seq::<char>::empty());
    }
    None
}

/// The views of a declared token list.
pub open spec fn tokens_view(v: Vec<String>) -> Seq<Seq<char>> {
    v@.map_values(|s: String| s@)
}

/// A comma-separated token list, each token trimmed; `None` when some
/// token is empty.
pub open spec fn spec_tokens(s: Seq<char>) -> Option<Seq<Seq<char>>> {
    let trimmed = text::spec_split(s, ',').map_values(|f: Seq<char>| text::spec_trim(f));
    if exists|k: int| 0 <= k < trimmed.len() && (#[trigger] trimmed[k]).len() == 0 {
        None
    } else {
        Some(trimmed)
    }
}

/// Exec splitter matching [`spec_tokens`].
fn split_tokens(s: &str) -> (r: Option<Vec<String>>)
    ensures
        match r {
            Some(v) => spec_tokens(s@) == Some(tokens_view(v)) && v@.len() >= 1,
            None => spec_tokens(s@) is None,
        },
{
    let ghost trimmed = text::spec_split(s@, ',').map_values(|f: Seq<char>| text::spec_trim(f));
    let parts = text::split(s, ',');
    let mut out: Vec<String> = Vec::new();
    let mut i: usize = 0;
    while i < parts.len()
        invariant
            trimmed == text::spec_split(s@, ',').map_values(|f: Seq<char>| text::spec_trim(f)),
            parts@.map_values(|p: String| p@) == text::spec_split(s@, ','),
            0 <= i <= parts@.len(),
            out@.len() == i,
            forall|k: int| 0 <= k < i ==> (#[trigger] out@[k])@ == trimmed[k],
            forall|k: int| 0 <= k < i ==> (#[trigger] trimmed[k]).len() != 0,
        decreases parts@.len() - i,
    {
        proof {
            assert(parts@.map_values(|p: String| p@)[i as int] == parts@[i as int]@);
            assert(trimmed[i as int] == text::spec_trim(parts@[i as int]@));
        }
        let t = text::trim(parts[i].as_str());
        if t.as_str().unicode_len() == 0 {
            proof {
                assert(trimmed[i as int].len() == 0);
            }
            return None;
        }
        out.push(t);
        i += 1;
    }
    proof {
        assert(tokens_view(out) =~= trimmed);
        assert forall|k: int| 0 <= k < trimmed.len() implies (#[trigger] trimmed[k]).len() != 0 by {
        }
    }
    Some(out)
}

/// The effect rule a `policy_effect` expression names: exactly the three
/// supported effect strings, anything else is unknown.
pub open spec fn spec_effect(s: Seq<char>) -> Option<Effect> {
    if s == "some(where (p.eft == allow))"@ {
        Some(Effect::AllowOverride)
    } else if s == "!some(where (p.eft == deny))"@ {
        Some(Effect::DenyOverride)
    } else if s == "some(where (p.eft == allow)) && !some(where (p.eft == deny))"@ {
        Some(Effect::DenyOverride)
    } else {
        None
    }
}

/// Exec classification matching [`spec_effect`].
fn classify_effect(s: &str) -> (r: Option<Effect>)
    ensures
        r == spec_effect(s@),
{
    if text::str_eq(s, "some(where (p.eft == allow))") {
        Some(Effect::AllowOverride)
    } else if text::str_eq(s, "!some(where (p.eft == deny))") {
        Some(Effect::DenyOverride)
    } else if text::str_eq(s, "some(where (p.eft == allow)) && !some(where (p.eft == deny))") {
        Some(Effect::DenyOverride)
    } else {
        None
    }
}

/// The loader state made of the loader's in-progress values.
pub open spec fn st_of(
    section: Section,
    req: Option<Vec<String>>,
    pol: Option<Vec<String>>,
    has_g: bool,
    eff: Option<Effect>,
    matcher: Option<String>,
) -> LoaderState {
    LoaderState {
        section,
        req: match req {
            Some(v) => Some(tokens_view(v)),
            None => None,
        },
        pol: match pol {
            Some(v) => Some(tokens_view(v)),
            None => None,
        },
        has_g,
        eff,
        matcher: match matcher {
            Some(t) => Some(t@),
            None => None,
        },
    }
}

/// The loader state before any line.
pub open spec fn init_state() -> LoaderState {
    LoaderState {
        section: Section::Preamble,
        req: None,
        pol: None,
        has_g: false,
        eff: None,
        matcher: None,
    }
}

/// One line's effect on the loader state.
///
/// The line is trimmed; blank lines and `#` comments change nothing. A
/// `[section]` header selects one of the five sections. Any other line must
/// be `key = value` under the section's expected key: `r` and `p` declare
/// trimmed, non-empty token lists; `g` must be exactly `_, _`; `e` one of
/// the supported effect rules; `m` stores the matcher text.
pub open spec fn spec_model_line(st: LoaderState, line: Seq<char>) -> Result<
    LoaderState,
    ModelParseError,
> {
    let t = text::spec_trim(line);
    if t.len() == 0 || t[0] == '#' {
        Ok(st)
    } else if t == "[request_definition]"@ {
        Ok(LoaderState { section: Section::Request, ..st })
    } else if t == "[policy_definition]"@ {
        Ok(LoaderState { section: Section::Policy, ..st })
    } else if t == "[role_definition]"@ {
        Ok(LoaderState { section: Section::Role, ..st })
    } else if t == "[policy_effect]"@ {
        Ok(LoaderState { section: Section::Effect, ..st })
    } else if t == "[matchers]"@ {
        Ok(LoaderState { section: Section::Matchers, ..st })
    } else if t[0] == '[' {
        Err(ModelParseError::BadLine)
    } else {
        match spec_find(t, '=') {
            None => Err(ModelParseError::BadLine),
            Some(eq) => {
                let key = text::spec_trim(t.take(eq));
                let val = text::spec_trim(t.skip(eq + 1));
                match st.section {
                    Section::Preamble => Err(ModelParseError::BadLine),
                    Section::Request => if key != "r"@ {
                        Err(ModelParseError::BadLine)
                    } else {
                        match spec_tokens(val) {
                            Some(v) => Ok(LoaderState { req: Some(v), ..st }),
                            None => Err(ModelParseError::BadLine),
                        }
                    },
                    Section::Policy => if key != "p"@ {
                        Err(ModelParseError::BadLine)
                    } else {
                        match spec_tokens(val) {
                            Some(v) => Ok(LoaderState { pol: Some(v), ..st }),
                            None => Err(ModelParseError::BadLine),
                        }
                    },
                    Section::Role => if key != "g"@ {
                        Err(ModelParseError::BadLine)
                    } else {
                        let parts = text::spec_split(val, ',');
                        if parts.len() == 2 && text::spec_trim(parts[0]) == "_"@
                            && text::spec_trim(parts[1]) == "_"@ {
                            Ok(LoaderState { has_g: true, ..st })
                        } else {
                            Err(ModelParseError::BadLine)
                        }
                    },
                    Section::Effect => if key != "e"@ {
                        Err(ModelParseError::BadLine)
                    } else {
                        match spec_effect(val) {
                            Some(e) => Ok(LoaderState { eff: Some(e), ..st }),
                            None => Err(ModelParseError::UnknownEffect),
                        }
                    },
                    Section::Matchers => if key != "m"@ {
                        Err(ModelParseError::BadLine)
                    } else {
                        Ok(LoaderState { matcher: Some(val), ..st })
                    },
                }
            },
        }
    }
}

/// The loader state after all lines, or the first bad line's error.
pub open spec fn spec_model_lines(st: LoaderState, lines: Seq<Seq<char>>) -> Result<
    LoaderState,
    ModelParseError,
>
    decreases lines.len(),
{
    if lines.len() == 0 {
        Ok(st)
    } else {
        match spec_model_line(st, lines[0]) {
            Err(e) => Err(e),
            Ok(st2) => spec_model_lines(st2, lines.skip(1)),
        }
    }
}

/// Parses a textual model definition.
///
/// The lines are folded through [`spec_model_line`] in order, which pins
/// the declared shapes, the role flag and the effect rule exactly; the
/// returned matcher is exactly [`spec_parse_matcher`] of the stored
/// matcher text against the declared tokens. So success is owed: the
/// loader fails only with the fold's first error, with `MissingSection`
/// when a section never appeared, with the matcher text's own parse error,
/// or with `UndeclaredToken` when the matcher uses `g` without a declared
/// role definition.
pub fn parse_model(text_src: &str) -> (r: Result<Model, ModelParseError>)
    ensures
        match r {
            Ok(m) => m.wf() && (spec_model_lines(
                init_state(),
                text::spec_split(text_src@, '\n'),
            ) matches Ok(fin) && fin.req == Some(tokens_view(m.req_tokens)) && fin.pol == Some(
                tokens_view(m.pol_tokens),
            ) && fin.has_g == m.has_g && fin.eff == Some(m.effect) && (fin.matcher matches Some(
                mtext,
            ) && spec_parse_matcher(mtext, tokens_view(m.req_tokens), tokens_view(m.pol_tokens))
                == Ok::<ExprV, ModelParseError>(expr_view(m.matcher)))),
            Err(e) => match spec_model_lines(init_state(), text::spec_split(text_src@, '\n')) {
                Err(e2) => e == e2,
                Ok(fin) => if fin.req is None || fin.pol is None || fin.eff is None
                    || fin.matcher is None {
                    e == ModelParseError::MissingSection
                } else {
                    match spec_parse_matcher(
                        fin.matcher->Some_0,
                        fin.req->Some_0,
                        fin.pol->Some_0,
                    ) {
                        Err(e2) => e == e2,
                        Ok(ev) => e == ModelParseError::UndeclaredToken && exprv_uses_g(ev)
                            && !fin.has_g,
                    }
                },
            },
        },
{
    let lines = text::split(text_src, '\n');
    let n = lines.len();
    let mut section = Section::Preamble;
    let mut req_tokens: Option<Vec<String>> = None;
    let mut pol_tokens: Option<Vec<String>> = None;
    let mut has_g = false;
    let mut effect: Option<Effect> = None;
    let mut matcher_text: Option<String> = None;
    let mut li: usize = 0;
    proof {
        assert(lines@.map_values(|p: String| p@).skip(0) =~= lines@.map_values(|p: String| p@));
        assert(st_of(section, req_tokens, pol_tokens, has_g, effect, matcher_text)
            == init_state());
    }
    while li < n
        invariant
            n == lines@.len(),
            0 <= li <= n,
            lines@.map_values(|p: String| p@) == text::spec_split(text_src@, '\n'),
            match req_tokens {
                Some(v) => v@.len() >= 1,
                None => true,
            },
            match pol_tokens {
                Some(v) => v@.len() >= 1,
                None => true,
            },
            spec_model_lines(init_state(), lines@.map_values(|p: String| p@))
                == spec_model_lines(
                st_of(section, req_tokens, pol_tokens, has_g, effect, matcher_text),
                lines@.map_values(|p: String| p@).skip(li as int),
            ),
        decreases n - li,
    {
        let ghost lvv = lines@.map_values(|p: String| p@);
        let ghost st = st_of(section, req_tokens, pol_tokens, has_g, effect, matcher_text);
        proof {
            assert(lvv[li as int] == lines@[li as int]@);
            assert(lvv.skip(li as int)[0] == lvv[li as int]);
            assert(lvv.skip(li as int).skip(1) =~= lvv.skip(li + 1));
        }
        let ghost t = text::spec_trim(lvv[li as int]);
        let line = text::trim(lines[li].as_str());
        let ln = line.as_str().unicode_len();
        if ln == 0 || line.as_str().get_char(0) == '#' {
            proof {
                assert(spec_model_line(st, lvv[li as int]) == Ok::<LoaderState, ModelParseError>(
                    st,
                ));
                assert(spec_model_lines(st, lvv.skip(li as int)) == spec_model_lines(
                    st,
                    lvv.skip(li + 1),
                ));
            }
            li += 1;
            continue;
        }
        if line.as_str().get_char(0) == '[' {
            if text::str_eq(line.as_str(), "[request_definition]") {
                section = Section::Request;
            } else if text::str_eq(line.as_str(), "[policy_definition]") {
                section = Section::Policy;
            } else if text::str_eq(line.as_str(), "[role_definition]") {
                section = Section::Role;
            } else if text::str_eq(line.as_str(), "[policy_effect]") {
                section = Section::Effect;
            } else if text::str_eq(line.as_str(), "[matchers]") {
                section = Section::Matchers;
            } else {
                proof {
                    assert(spec_model_line(st, lvv[li as int]) == Err::<
                        LoaderState,
                        ModelParseError,
                    >(ModelParseError::BadLine));
                    assert(spec_model_lines(st, lvv.skip(li as int)) == Err::<
                        LoaderState,
                        ModelParseError,
                    >(ModelParseError::BadLine));
                }
                return Err(ModelParseError::BadLine);
            }
            proof {
                let st2 = st_of(section, req_tokens, pol_tokens, has_g, effect, matcher_text);
                assert(spec_model_line(st, lvv[li as int]) == Ok::<LoaderState, ModelParseError>(
                    st2,
                ));
                assert(spec_model_lines(st, lvv.skip(li as int)) == spec_model_lines(
                    st2,
                    lvv.skip(li + 1),
                ));
            }
            li += 1;
            continue;
        }
        proof {
            reveal_strlit("[request_definition]");
            reveal_strlit("[policy_definition]");
            reveal_strlit("[role_definition]");
            reveal_strlit("[policy_effect]");
            reveal_strlit("[matchers]");
            assert("[request_definition]"@[0] == '[');
            assert("[policy_definition]"@[0] == '[');
            assert("[role_definition]"@[0] == '[');
            assert("[policy_effect]"@[0] == '[');
            assert("[matchers]"@[0] == '[');
            assert(t[0] != '[');
        }
        let eq = match find_char(line.as_str(), '=') {
            Some(e2) => e2,
            None => {
                proof {
                    assert(spec_model_line(st, lvv[li as int]) == Err::<
                        LoaderState,
                        ModelParseError,
                    >(ModelParseError::BadLine));
                    assert(spec_model_lines(st, lvv.skip(li as int)) == Err::<
                        LoaderState,
                        ModelParseError,
                    >(ModelParseError::BadLine));
                }
                return Err(ModelParseError::BadLine);
            },
        };
        let key = text::trim(line.as_str().substring_char(0, eq));
        let val = text::trim(line.as_str().substring_char(eq + 1, ln));
        let ghost skey = text::spec_trim(t.take(eq as int));
        let ghost sval = text::spec_trim(t.skip(eq + 1));
        proof {
            assert(t.take(eq as int) =~= t.subrange(0, eq as int));
            assert(t.skip(eq + 1) =~= t.subrange(eq + 1, t.len() as int));
            assert(key@ == skey);
            assert(val@ == sval);
        }
        match section {
            Section::Preamble => {
                proof {
                    assert(spec_model_line(st, lvv[li as int]) == Err::<
                        LoaderState,
                        ModelParseError,
                    >(ModelParseError::BadLine));
                    assert(spec_model_lines(st, lvv.skip(li as int)) == Err::<
                        LoaderState,
                        ModelParseError,
                    >(ModelParseError::BadLine));
                }
                return Err(ModelParseError::BadLine);
            },
            Section::Request => {
                if !text::str_eq(key.as_str(), "r") {
                    proof {
                        assert(spec_model_lines(st, lvv.skip(li as int)) == Err::<
                            LoaderState,
                            ModelParseError,
                        >(ModelParseError::BadLine));
                    }
                    return Err(ModelParseError::BadLine);
                }
                match split_tokens(val.as_str()) {
                    Some(v) => {
                        req_tokens = Some(v);
                    },
                    None => {
                        proof {
                            assert(spec_model_lines(st, lvv.skip(li as int)) == Err::<
                                LoaderState,
                                ModelParseError,
                            >(ModelParseError::BadLine));
                        }
                        return Err(ModelParseError::BadLine);
                    },
                }
            },
            Section::Policy => {
                if !text::str_eq(key.as_str(), "p") {
                    proof {
                        assert(spec_model_lines(st, lvv.skip(li as int)) == Err::<
                            LoaderState,
                            ModelParseError,
                        >(ModelParseError::BadLine));
                    }
                    return Err(ModelParseError::BadLine);
                }
                match split_tokens(val.as_str()) {
                    Some(v) => {
                        pol_tokens = Some(v);
                    },
                    None => {
                        proof {
                            assert(spec_model_lines(st, lvv.skip(li as int)) == Err::<
                                LoaderState,
                                ModelParseError,
                            >(ModelParseError::BadLine));
                        }
                        return Err(ModelParseError::BadLine);
                    },
                }
            },
            Section::Role => {
                if !text::str_eq(key.as_str(), "g") {
                    proof {
                        assert(spec_model_lines(st, lvv.skip(li as int)) == Err::<
                            LoaderState,
                            ModelParseError,
                        >(ModelParseError::BadLine));
                    }
                    return Err(ModelParseError::BadLine);
                }
                let parts = text::split(val.as_str(), ',');
                proof {
                    assert(parts@.map_values(|p: String| p@) == text::spec_split(sval, ','));
                    assert(forall|k: int|
                        0 <= k < parts@.len() ==> parts@.map_values(|p: String| p@)[k] == (
                        #[trigger] parts@[k])@);
                }
                let mut role_ok = parts.len() == 2;
                if role_ok {
                    let p0 = text::trim(parts[0].as_str());
                    let p1 = text::trim(parts[1].as_str());
                    role_ok = text::str_eq(p0.as_str(), "_") && text::str_eq(p1.as_str(), "_");
                }
                if !role_ok {
                    proof {
                        assert(spec_model_lines(st, lvv.skip(li as int)) == Err::<
                            LoaderState,
                            ModelParseError,
                        >(ModelParseError::BadLine));
                    }
                    return Err(ModelParseError::BadLine);
                }
                has_g = true;
            },
            Section::Effect => {
                if !text::str_eq(key.as_str(), "e") {
                    proof {
                        assert(spec_model_lines(st, lvv.skip(li as int)) == Err::<
                            LoaderState,
                            ModelParseError,
                        >(ModelParseError::BadLine));
                    }
                    return Err(ModelParseError::BadLine);
                }
                match classify_effect(val.as_str()) {
                    Some(e2) => {
                        effect = Some(e2);
                    },
                    None => {
                        proof {
                            assert(spec_model_lines(st, lvv.skip(li as int)) == Err::<
                                LoaderState,
                                ModelParseError,
                            >(ModelParseError::UnknownEffect));
                        }
                        return Err(ModelParseError::UnknownEffect);
                    },
                }
            },
            Section::Matchers => {
                if !text::str_eq(key.as_str(), "m") {
                    proof {
                        assert(spec_model_lines(st, lvv.skip(li as int)) == Err::<
                            LoaderState,
                            ModelParseError,
                        >(ModelParseError::BadLine));
                    }
                    return Err(ModelParseError::BadLine);
                }
                matcher_text = Some(val);
            },
        }
        proof {
            let st2 = st_of(section, req_tokens, pol_tokens, has_g, effect, matcher_text);
            assert(spec_model_line(st, lvv[li as int]) == Ok::<LoaderState, ModelParseError>(st2));
            assert(spec_model_lines(st, lvv.skip(li as int)) == spec_model_lines(
                st2,
                lvv.skip(li + 1),
            ));
        }
        li += 1;
    }
    let ghost fin = st_of(section, req_tokens, pol_tokens, has_g, effect, matcher_text);
    proof {
        let lvv = lines@.map_values(|p: String| p@);
        assert(lvv.skip(n as int) =~= Seq::<Seq<char>>::empty());
        assert(spec_model_lines(init_state(), text::spec_split(text_src@, '\n')) == Ok::<
            LoaderState,
            ModelParseError,
        >(fin));
    }
    let rt = match req_tokens {
        Some(v) => v,
        None => {
            return Err(ModelParseError::MissingSection);
        },
    };
    let pt = match pol_tokens {
        Some(v) => v,
        None => {
            return Err(ModelParseError::MissingSection);
        },
    };
    let eff = match effect {
        Some(e) => e,
        None => {
            return Err(ModelParseError::MissingSection);
        },
    };
    let mt = match matcher_text {
        Some(t2) => t2,
        None => {
            return Err(ModelParseError::MissingSection);
        },
    };
    proof {
        assert(fin.matcher == Some(mt@));
        assert(fin.req == Some(tokens_view(rt)));
        assert(fin.pol == Some(tokens_view(pt)));
    }
    let matcher = match expr::parse_matcher(mt.as_str(), &rt, &pt) {
        Ok(e) => e,
        Err(e) => {
            return Err(e);
        },
    };
    if expr::uses_g(&matcher) && !has_g {
        proof {
            lemma_uses_g_view(matcher);
        }
        return Err(ModelParseError::UndeclaredToken);
    }
    Ok(Model { req_tokens: rt, pol_tokens: pt, has_g, effect: eff, matcher })
}

} // verus!
