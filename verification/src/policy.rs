//! The policy store: the `p` rules that enforcement iterates, and the `g`
//! edges the role graph is built from, plus the loader for the line-oriented
//! policy format.

use vstd::prelude::*;
use crate::errors::PolicyParseError;
use crate::model::Model;
use crate::text;

verus! {

/// The views of one rule's fields.
pub open spec fn rule_view(r: Vec<String>) -> Seq<Seq<char>> {
    r@.map_values(|s: String| s@)
}

/// Parsed policy rules, partitioned by rule type.
pub struct PolicyStore {
    /// The `p` rules, each with one field per declared policy token.
    pub p_rules: Vec<Vec<String>>,
    /// The `g` rules, each a (member, role) edge of the role graph.
    pub g_edges: Vec<(String, String)>,
}

impl PolicyStore {
    /// Every `p` rule has exactly the model's declared policy arity.
    pub open spec fn wf(self, m: Model) -> bool {
        forall|i: int|
            0 <= i < self.p_rules@.len() ==> (#[trigger] self.p_rules@[i])@.len()
                == m.pol_tokens@.len()
    }

    /// An empty store: no rules of either type.
    pub fn new() -> (s: PolicyStore)
        ensures
            s.p_rules@.len() == 0,
            s.g_edges@.len() == 0,
    {
        PolicyStore { p_rules: Vec::new(), g_edges: Vec::new() }
    }
}

/// What parsing a sequence of policy lines yields: the `p` rules' and `g`
/// edges' field views in line order, or the first bad line's error.
///
/// A line is trimmed; blank lines and `#` comments are skipped. Otherwise
/// it splits on commas into a trimmed type head and trimmed fields: a `p`
/// line must carry the model's policy arity, a `g` line two fields under a
/// model with a role definition, and any other head is unknown.
pub open spec fn spec_policy(m: Model, lines: Seq<Seq<char>>) -> Result<
    (Seq<Seq<Seq<char>>>, Seq<(Seq<char>, Seq<char>)>),
    PolicyParseError,
>
    decreases lines.len(),
{
    if lines.len() == 0 {
        Ok((Seq::empty(), Seq::empty()))
    } else {
        let t = text::spec_trim(lines[0]);
        let rest = spec_policy(m, lines.skip(1));
        if t.len() == 0 || t[0] == '#' {
            rest
        } else {
            let parts = text::spec_split(t, ',');
            let head = text::spec_trim(parts[0]);
            let fields = parts.skip(1).map_values(|f: Seq<char>| text::spec_trim(f));
            if head == "p"@ {
                if fields.len() != m.pol_tokens@.len() {
                    Err(PolicyParseError::ArityMismatch)
                } else {
                    match rest {
                        Err(e) => Err(e),
                        Ok(pg) => Ok((seq![fields] + pg.0, pg.1)),
                    }
                }
            } else if head == "g"@ {
                if !m.has_g {
                    Err(PolicyParseError::UnknownRuleType)
                } else if fields.len() != 2 {
                    Err(PolicyParseError::ArityMismatch)
                } else {
                    match rest {
                        Err(e) => Err(e),
                        Ok(pg) => Ok((pg.0, seq![(fields[0], fields[1])] + pg.1)),
                    }
                }
            } else {
                Err(PolicyParseError::UnknownRuleType)
            }
        }
    }
}

/// Parses a line-oriented policy source against a model: exactly
/// [`spec_policy`] of the input's lines, rule fields as their views. On
/// success the store is well-formed for the model.
pub fn parse_policy(m: &Model, text_src: &str) -> (r: Result<PolicyStore, PolicyParseError>)
    ensures
        match r {
            Ok(s) => spec_policy(*m, text::spec_split(text_src@, '\n')) == Ok::<
                (Seq<Seq<Seq<char>>>, Seq<(Seq<char>, Seq<char>)>),
                PolicyParseError,
            >(
                (
                    s.p_rules@.map_values(|rr: Vec<String>| rule_view(rr)),
                    s.g_edges@.map_values(|e: (String, String)| (e.0@, e.1@)),
                ),
            ) && s.wf(*m),
            Err(e) => spec_policy(*m, text::spec_split(text_src@, '\n')) == Err::<
                (Seq<Seq<Seq<char>>>, Seq<(Seq<char>, Seq<char>)>),
                PolicyParseError,
            >(e),
        },
{
    let lines = text::split(text_src, '\n');
    let mut p_rules: Vec<Vec<String>> = Vec::new();
    let mut g_edges: Vec<(String, String)> = Vec::new();
    let mut li: usize = 0;
    let n = lines.len();
    proof {
        let lvv = lines@.map_values(|p: String| p@);
        assert(lvv.skip(0) =~= lvv);
        if spec_policy(*m, lvv) is Ok {
            let pg = spec_policy(*m, lvv)->Ok_0;
            assert(Seq::<Seq<Seq<char>>>::empty() + pg.0 =~= pg.0);
            assert(Seq::<(Seq<char>, Seq<char>)>::empty() + pg.1 =~= pg.1);
        }
        assert(p_rules@.map_values(|rr: Vec<String>| rule_view(rr)) =~= Seq::<
            Seq<Seq<char>>,
        >::empty());
        assert(g_edges@.map_values(|e: (String, String)| (e.0@, e.1@)) =~= Seq::<
            (Seq<char>, Seq<char>),
        >::empty());
    }
    while li < n
        invariant
            n == lines@.len(),
            0 <= li <= n,
            lines@.map_values(|p: String| p@) == text::spec_split(text_src@, '\n'),
            forall|k: int|
                0 <= k < p_rules@.len() ==> (#[trigger] p_rules@[k])@.len()
                    == m.pol_tokens@.len(),
            spec_policy(*m, lines@.map_values(|p: String| p@)) == match spec_policy(
                *m,
                lines@.map_values(|p: String| p@).skip(li as int),
            ) {
                Ok(pg) => Ok::<_, PolicyParseError>(
                    (
                        p_rules@.map_values(|rr: Vec<String>| rule_view(rr)) + pg.0,
                        g_edges@.map_values(|e: (String, String)| (e.0@, e.1@)) + pg.1,
                    ),
                ),
                Err(e) => Err(e),
            },
        decreases n - li,
    {
        let ghost lvv = lines@.map_values(|p: String| p@);
        let ghost pa = p_rules@.map_values(|rr: Vec<String>| rule_view(rr));
        let ghost ga = g_edges@.map_values(|e: (String, String)| (e.0@, e.1@));
        proof {
            assert(lvv[li as int] == lines@[li as int]@);
            assert(lvv.skip(li as int)[0] == lvv[li as int]);
            assert(lvv.skip(li as int).skip(1) =~= lvv.skip(li + 1));
        }
        let line = text::trim(lines[li].as_str());
        let ln = line.as_str().unicode_len();
        if ln == 0 || line.as_str().get_char(0) == '#' {
            li += 1;
            continue;
        }
        let parts = text::split(line.as_str(), ',');
        let head = text::trim(parts[0].as_str());
        proof {
            assert(parts@.map_values(|p: String| p@)[0] == parts@[0]@);
        }
        let mut fields: Vec<String> = Vec::new();
        let mut j: usize = 1;
        while j < parts.len()
            invariant
                1 <= j <= parts@.len(),
                fields@.len() == j - 1,
                forall|k: int|
                    0 <= k < j - 1 ==> (#[trigger] fields@[k])@ == text::spec_trim(
                        parts@[k + 1]@,
                    ),
            decreases parts@.len() - j,
        {
            fields.push(text::trim(parts[j].as_str()));
            j += 1;
        }
        let ghost t = text::spec_trim(lvv[li as int]);
        let ghost sparts = text::spec_split(t, ',');
        let ghost sfields = sparts.skip(1).map_values(|f: Seq<char>| text::spec_trim(f));
        proof {
            assert(sparts == parts@.map_values(|p: String| p@));
            assert(fields@.map_values(|s2: String| s2@) =~= sfields) by {
                assert(forall|k: int|
                    0 <= k < sfields.len() ==> #[trigger] sfields[k] == text::spec_trim(
                        sparts[k + 1],
                    ));
                assert(forall|k: int|
                    0 <= k < sparts.len() ==> #[trigger] sparts[k] == parts@[k]@);
            }
            assert(rule_view(fields) == sfields);
        }
        if text::str_eq(head.as_str(), "p") {
            if fields.len() != m.pol_tokens.len() {
                proof {
                    assert(spec_policy(*m, lvv.skip(li as int)) == Err::<
                        (Seq<Seq<Seq<char>>>, Seq<(Seq<char>, Seq<char>)>),
                        PolicyParseError,
                    >(PolicyParseError::ArityMismatch));
                }
                return Err(PolicyParseError::ArityMismatch);
            }
            let ghost old_pa = pa;
            p_rules.push(fields);
            proof {
                assert(p_rules@.map_values(|rr: Vec<String>| rule_view(rr)) =~= old_pa.push(
                    sfields,
                ));
                if spec_policy(*m, lvv.skip(li + 1)) is Ok {
                    let pg = spec_policy(*m, lvv.skip(li + 1))->Ok_0;
                    assert(old_pa + (seq![sfields] + pg.0) =~= old_pa.push(sfields) + pg.0);
                }
            }
        } else if text::str_eq(head.as_str(), "g") {
            if !m.has_g {
                proof {
                    assert(spec_policy(*m, lvv.skip(li as int)) == Err::<
                        (Seq<Seq<Seq<char>>>, Seq<(Seq<char>, Seq<char>)>),
                        PolicyParseError,
                    >(PolicyParseError::UnknownRuleType));
                }
                return Err(PolicyParseError::UnknownRuleType);
            }
            if fields.len() != 2 {
                proof {
                    assert(spec_policy(*m, lvv.skip(li as int)) == Err::<
                        (Seq<Seq<Seq<char>>>, Seq<(Seq<char>, Seq<char>)>),
                        PolicyParseError,
                    >(PolicyParseError::ArityMismatch));
                }
                return Err(PolicyParseError::ArityMismatch);
            }
            let a = fields[0].clone();
            let b = fields[1].clone();
            let ghost old_ga = ga;
            g_edges.push((a, b));
            proof {
                assert((a@, b@) == (sfields[0], sfields[1]));
                assert(g_edges@.map_values(|e: (String, String)| (e.0@, e.1@)) =~= old_ga.push(
                    (sfields[0], sfields[1]),
                ));
                if spec_policy(*m, lvv.skip(li + 1)) is Ok {
                    let pg = spec_policy(*m, lvv.skip(li + 1))->Ok_0;
                    assert(old_ga + (seq![(sfields[0], sfields[1])] + pg.1) =~= old_ga.push(
                        (sfields[0], sfields[1]),
                    ) + pg.1);
                }
            }
        } else {
            proof {
                assert(spec_policy(*m, lvv.skip(li as int)) == Err::<
                    (Seq<Seq<Seq<char>>>, Seq<(Seq<char>, Seq<char>)>),
                    PolicyParseError,
                >(PolicyParseError::UnknownRuleType));
            }
            return Err(PolicyParseError::UnknownRuleType);
        }
        li += 1;
    }
    proof {
        let lvv = lines@.map_values(|p: String| p@);
        assert(lvv.skip(n as int) =~= Seq::<Seq<char>>::empty());
        let pa = p_rules@.map_values(|rr: Vec<String>| rule_view(rr));
        let ga = g_edges@.map_values(|e: (String, String)| (e.0@, e.1@));
        assert(pa + Seq::<Seq<Seq<char>>>::empty() =~= pa);
        assert(ga + Seq::<(Seq<char>, Seq<char>)>::empty() =~= ga);
    }
    Ok(PolicyStore { p_rules, g_edges })
}

} // verus!
