//! The matcher expression: a small boolean/relational grammar over request
//! fields, policy fields, string literals and the role-membership predicate,
//! with a total, deterministic evaluation semantics.

use vstd::prelude::*;
use crate::errors::{MatcherEvalError, ModelParseError};
use crate::model::{spec_find, spec_token_index, token_index, tokens_view};
use crate::roles;
use crate::text;
use crate::value::{self, ValView, Value};

verus! {

/// A leaf of the matcher expression.
pub enum Operand {
    /// `r.<token>`: the request field at this index.
    Req(usize),
    /// `r.<token>.<Key>`: an attribute of a structured request field.
    ReqAttr(usize, String),
    /// `p.<token>`: the candidate rule field at this index.
    Pol(usize),
    /// A quoted string literal.
    Lit(String),
}

/// A matcher expression. `&&` and `||` evaluate left to right and
/// short-circuit.
pub enum Expr {
    Eq(Operand, Operand),
    Ne(Operand, Operand),
    /// `g(a, b)`: transitive role membership of `a` in `b`.
    G(Operand, Operand),
    And(Box<Expr>, Box<Expr>),
    Or(Box<Expr>, Box<Expr>),
}

/// The operand's field indices lie within the declared arities.
pub open spec fn operand_wf(op: Operand, req_arity: nat, pol_arity: nat) -> bool {
    match op {
        Operand::Req(i) => i < req_arity,
        Operand::ReqAttr(i, _) => i < req_arity,
        Operand::Pol(i) => i < pol_arity,
        Operand::Lit(_) => true,
    }
}

/// Every field reference in the expression lies within the declared arities.
pub open spec fn expr_wf(e: Expr, req_arity: nat, pol_arity: nat) -> bool
    decreases e,
{
    match e {
        Expr::Eq(a, b) => operand_wf(a, req_arity, pol_arity) && operand_wf(b, req_arity, pol_arity),
        Expr::Ne(a, b) => operand_wf(a, req_arity, pol_arity) && operand_wf(b, req_arity, pol_arity),
        Expr::G(a, b) => operand_wf(a, req_arity, pol_arity) && operand_wf(b, req_arity, pol_arity),
        Expr::And(l, r) => expr_wf(*l, req_arity, pol_arity) && expr_wf(*r, req_arity, pol_arity),
        Expr::Or(l, r) => expr_wf(*l, req_arity, pol_arity) && expr_wf(*r, req_arity, pol_arity),
    }
}

/// The expression contains a role-membership predicate somewhere.
pub open spec fn expr_uses_g(e: Expr) -> bool
    decreases e,
{
    match e {
        Expr::G(_, _) => true,
        Expr::And(l, r) => expr_uses_g(*l) || expr_uses_g(*r),
        Expr::Or(l, r) => expr_uses_g(*l) || expr_uses_g(*r),
        _ => false,
    }
}

/// The value an operand denotes for one (request, candidate rule) pair.
pub open spec fn spec_operand(op: Operand, req: Seq<ValView>, rule: Seq<String>) -> Result<
    ValView,
    MatcherEvalError,
> {
    match op {
        Operand::Req(i) => if i < req.len() {
            Ok(req[i as int])
        } else {
            Err(MatcherEvalError::FieldRange)
        },
        Operand::ReqAttr(i, key) => if i < req.len() {
            match req[i as int] {
                ValView::Obj(entries) => match value::spec_obj_get(entries, key@) {
                    Some(v) => Ok(ValView::S(v)),
                    None => Err(MatcherEvalError::UnknownAttribute),
                },
                _ => Err(MatcherEvalError::NotAnObject),
            }
        } else {
            Err(MatcherEvalError::FieldRange)
        },
        Operand::Pol(i) => if i < rule.len() {
            Ok(ValView::S(rule[i as int]@))
        } else {
            Err(MatcherEvalError::FieldRange)
        },
        Operand::Lit(s) => Ok(ValView::S(s@)),
    }
}

/// The boolean the matcher expression denotes for one (request, candidate
/// rule) pair, or the first evaluation error in evaluation order.
pub open spec fn spec_eval(
    e: Expr,
    req: Seq<ValView>,
    rule: Seq<String>,
    edges: Seq<(String, String)>,
) -> Result<bool, MatcherEvalError>
    decreases e,
{
    match e {
        Expr::Eq(a, b) => match (spec_operand(a, req, rule), spec_operand(b, req, rule)) {
            (Err(er), _) => Err(er),
            (Ok(_), Err(er)) => Err(er),
            (Ok(x), Ok(y)) => Ok(value::spec_val_eq(x, y)),
        },
        Expr::Ne(a, b) => match (spec_operand(a, req, rule), spec_operand(b, req, rule)) {
            (Err(er), _) => Err(er),
            (Ok(_), Err(er)) => Err(er),
            (Ok(x), Ok(y)) => Ok(!value::spec_val_eq(x, y)),
        },
        Expr::G(a, b) => match (spec_operand(a, req, rule), spec_operand(b, req, rule)) {
            (Err(er), _) => Err(er),
            (Ok(_), Err(er)) => Err(er),
            (Ok(ValView::S(x)), Ok(ValView::S(y))) => Ok(roles::reaches(edges, x, y)),
            _ => Err(MatcherEvalError::RoleArgNotString),
        },
        Expr::And(l, r) => match spec_eval(*l, req, rule, edges) {
            Err(er) => Err(er),
            Ok(false) => Ok(false),
            Ok(true) => spec_eval(*r, req, rule, edges),
        },
        Expr::Or(l, r) => match spec_eval(*l, req, rule, edges) {
            Err(er) => Err(er),
            Ok(true) => Ok(true),
            Ok(false) => spec_eval(*r, req, rule, edges),
        },
    }
}

/// Exec evaluation of an operand; agrees with [`spec_operand`] on the views.
fn eval_operand(op: &Operand, req: &Vec<Value>, rule: &Vec<String>) -> (r: Result<
    Value,
    MatcherEvalError,
>)
    ensures
        match (r, spec_operand(*op, value::req_views(req@), rule@)) {
            (Ok(v), Ok(sv)) => v@ == sv,
            (Err(e1), Err(e2)) => e1 == e2,
            _ => false,
        },
{
    match op {
        Operand::Req(i) => {
            if *i < req.len() {
                Ok(value::clone_value(&req[*i]))
            } else {
                Err(MatcherEvalError::FieldRange)
            }
        },
        Operand::ReqAttr(i, key) => {
            if *i < req.len() {
                match &req[*i] {
                    Value::Obj(entries) => match value::obj_get(entries, key.as_str()) {
                        Some(v) => Ok(Value::S(v)),
                        None => Err(MatcherEvalError::UnknownAttribute),
                    },
                    _ => Err(MatcherEvalError::NotAnObject),
                }
            } else {
                Err(MatcherEvalError::FieldRange)
            }
        },
        Operand::Pol(i) => {
            if *i < rule.len() {
                Ok(Value::S(rule[*i].clone()))
            } else {
                Err(MatcherEvalError::FieldRange)
            }
        },
        Operand::Lit(s) => Ok(Value::S(s.clone())),
    }
}

/// Exec evaluation of a matcher expression; the result is exactly
/// [`spec_eval`] of the views.
pub fn eval_expr(e: &Expr, req: &Vec<Value>, rule: &Vec<String>, edges: &Vec<(String, String)>) -> (r:
    Result<bool, MatcherEvalError>)
    ensures
        r == spec_eval(*e, value::req_views(req@), rule@, edges@),
    decreases *e,
{
    match e {
        Expr::Eq(a, b) => match (eval_operand(a, req, rule), eval_operand(b, req, rule)) {
            (Err(er), _) => Err(er),
            (Ok(_), Err(er)) => Err(er),
            (Ok(x), Ok(y)) => Ok(value::val_eq(&x, &y)),
        },
        Expr::Ne(a, b) => match (eval_operand(a, req, rule), eval_operand(b, req, rule)) {
            (Err(er), _) => Err(er),
            (Ok(_), Err(er)) => Err(er),
            (Ok(x), Ok(y)) => Ok(!value::val_eq(&x, &y)),
        },
        Expr::G(a, b) => match (eval_operand(a, req, rule), eval_operand(b, req, rule)) {
            (Err(er), _) => Err(er),
            (Ok(_), Err(er)) => Err(er),
            (Ok(Value::S(x)), Ok(Value::S(y))) => Ok(roles::has_role(edges, &x, &y)),
            _ => Err(MatcherEvalError::RoleArgNotString),
        },
        Expr::And(l, r) => match eval_expr(l, req, rule, edges) {
            Err(er) => Err(er),
            Ok(false) => Ok(false),
            Ok(true) => eval_expr(r, req, rule, edges),
        },
        Expr::Or(l, r) => match eval_expr(l, req, rule, edges) {
            Err(er) => Err(er),
            Ok(true) => Ok(true),
            Ok(false) => eval_expr(r, req, rule, edges),
        },
    }
}

/// Exec test of [`expr_uses_g`].
pub fn uses_g(e: &Expr) -> (b: bool)
    ensures
        b == expr_uses_g(*e),
    decreases *e,
{
    match e {
        Expr::G(_, _) => true,
        Expr::And(l, r) => uses_g(l) || uses_g(r),
        Expr::Or(l, r) => uses_g(l) || uses_g(r),
        _ => false,
    }
}

/// One lexical token of the matcher grammar.
pub enum Token {
    Word(String),
    StrLit(String),
    LPar,
    RPar,
    Comma,
    AndAnd,
    OrOr,
    EqEq,
    NeEq,
}

/// Characters that may form a (possibly dotted) field reference.
pub open spec fn spec_ident_char(c: char) -> bool {
    ('a' <= c && c <= 'z') || ('A' <= c && c <= 'Z') || ('0' <= c && c <= '9') || c == '_' || c
        == '.'
}

/// Exec test of [`spec_ident_char`].
fn is_ident_char(c: char) -> (b: bool)
    ensures
        b == spec_ident_char(c),
{
    ('a' <= c && c <= 'z') || ('A' <= c && c <= 'Z') || ('0' <= c && c <= '9') || c == '_' || c
        == '.'
}

/// The view of one lexical token.
pub enum TokView {
    Word(Seq<char>),
    StrLit(Seq<char>),
    LPar,
    RPar,
    Comma,
    AndAnd,
    OrOr,
    EqEq,
    NeEq,
}

/// The view of a [`Token`].
pub open spec fn tok_view(t: Token) -> TokView {
    match t {
        Token::Word(w) => TokView::Word(w@),
        Token::StrLit(l) => TokView::StrLit(l@),
        Token::LPar => TokView::LPar,
        Token::RPar => TokView::RPar,
        Token::Comma => TokView::Comma,
        Token::AndAnd => TokView::AndAnd,
        Token::OrOr => TokView::OrOr,
        Token::EqEq => TokView::EqEq,
        Token::NeEq => TokView::NeEq,
    }
}

/// The length of the identifier prefix of `s`.
pub open spec fn ident_len(s: Seq<char>) -> nat
    decreases s.len(),
{
    if s.len() == 0 || !spec_ident_char(s[0]) {
        0
    } else {
        1 + ident_len(s.skip(1))
    }
}

/// The tokens of the matcher text from position `i` on, or a syntax error
/// at the first character outside the grammar.
pub open spec fn spec_tokenize_at(s: Seq<char>, i: int) -> Result<Seq<TokView>, ModelParseError>
    decreases s.len() - i,
{
    if i >= s.len() || i < 0 {
        Ok(Seq::empty())
    } else {
        let c = s[i];
        if c == ' ' || c == '\t' || c == '\r' || c == '\n' {
            spec_tokenize_at(s, i + 1)
        } else if c == '(' {
            match spec_tokenize_at(s, i + 1) {
                Err(e) => Err(e),
                Ok(rest) => Ok(seq![TokView::LPar] + rest),
            }
        } else if c == ')' {
            match spec_tokenize_at(s, i + 1) {
                Err(e) => Err(e),
                Ok(rest) => Ok(seq![TokView::RPar] + rest),
            }
        } else if c == ',' {
            match spec_tokenize_at(s, i + 1) {
                Err(e) => Err(e),
                Ok(rest) => Ok(seq![TokView::Comma] + rest),
            }
        } else if c == '&' {
            if i + 1 < s.len() && s[i + 1] == '&' {
                match spec_tokenize_at(s, i + 2) {
                    Err(e) => Err(e),
                    Ok(rest) => Ok(seq![TokView::AndAnd] + rest),
                }
            } else {
                Err(ModelParseError::MatcherSyntax)
            }
        } else if c == '|' {
            if i + 1 < s.len() && s[i + 1] == '|' {
                match spec_tokenize_at(s, i + 2) {
                    Err(e) => Err(e),
                    Ok(rest) => Ok(seq![TokView::OrOr] + rest),
                }
            } else {
                Err(ModelParseError::MatcherSyntax)
            }
        } else if c == '=' {
            if i + 1 < s.len() && s[i + 1] == '=' {
                match spec_tokenize_at(s, i + 2) {
                    Err(e) => Err(e),
                    Ok(rest) => Ok(seq![TokView::EqEq] + rest),
                }
            } else {
                Err(ModelParseError::MatcherSyntax)
            }
        } else if c == '!' {
            if i + 1 < s.len() && s[i + 1] == '=' {
                match spec_tokenize_at(s, i + 2) {
                    Err(e) => Err(e),
                    Ok(rest) => Ok(seq![TokView::NeEq] + rest),
                }
            } else {
                Err(ModelParseError::MatcherSyntax)
            }
        } else if c == '"' {
            match spec_find(s.skip(i + 1), '"') {
                None => Err(ModelParseError::MatcherSyntax),
                Some(k) => if 0 <= k && i + 2 + k <= s.len() {
                    match spec_tokenize_at(s, i + 2 + k) {
                        Err(e) => Err(e),
                        Ok(rest) => Ok(seq![TokView::StrLit(s.subrange(i + 1, i + 1 + k))] + rest),
                    }
                } else {
                    Err(ModelParseError::MatcherSyntax)
                },
            }
        } else if spec_ident_char(c) {
            let l = ident_len(s.skip(i + 1)) as int;
            if i + 1 + l <= s.len() {
                match spec_tokenize_at(s, i + 1 + l) {
                    Err(e) => Err(e),
                    Ok(rest) => Ok(seq![TokView::Word(s.subrange(i, i + 1 + l))] + rest),
                }
            } else {
                Err(ModelParseError::MatcherSyntax)
            }
        } else {
            Err(ModelParseError::MatcherSyntax)
        }
    }
}

/// A scan that stops at the first `c` (or the end) finds [`spec_find`].
proof fn lemma_find_from(s: Seq<char>, c: char, start: int, j: int)
    requires
        0 <= start <= j <= s.len(),
        forall|jj: int| start <= jj < j ==> s[jj] != c,
        j == s.len() || s[j] == c,
    ensures
        spec_find(s.skip(start), c) == (if j == s.len() {
            None::<int>
        } else {
            Some(j - start)
        }),
    decreases j - start,
{
    if start == j {
        if j == s.len() {
            assert(s.skip(start).len() == 0);
        } else {
            assert(s.skip(start)[0] == s[j]);
        }
    } else {
        assert(s.skip(start)[0] == s[start]);
        lemma_find_from(s, c, start + 1, j);
        assert(s.skip(start).skip(1) =~= s.skip(start + 1));
    }
}

/// A scan that stops at the first non-identifier character (or the end)
/// finds [`ident_len`].
proof fn lemma_ident_from(s: Seq<char>, start: int, j: int)
    requires
        0 <= start <= j <= s.len(),
        forall|jj: int| start <= jj < j ==> spec_ident_char(s[jj]),
        j == s.len() || !spec_ident_char(s[j]),
    ensures
        ident_len(s.skip(start)) == j - start,
    decreases j - start,
{
    if start == j {
        if j < s.len() {
            assert(s.skip(start)[0] == s[j]);
        }
    } else {
        assert(s.skip(start)[0] == s[start]);
        lemma_ident_from(s, start + 1, j);
        assert(s.skip(start).skip(1) =~= s.skip(start + 1));
    }
}

/// Splits the matcher text into tokens; exactly [`spec_tokenize_at`] from
/// the start of the text.
fn tokenize(s: &str) -> (r: Result<Vec<Token>, ModelParseError>)
    ensures
        match r {
            Ok(toks) => spec_tokenize_at(s@, 0) == Ok::<Seq<TokView>, ModelParseError>(
                toks@.map_values(|t: Token| tok_view(t)),
            ),
            Err(e) => spec_tokenize_at(s@, 0) == Err::<Seq<TokView>, ModelParseError>(e) && e
                == ModelParseError::MatcherSyntax,
        },
{
    let n = s.unicode_len();
    let mut toks: Vec<Token> = Vec::new();
    let mut i: usize = 0;
    proof {
        assert(toks@.map_values(|t: Token| tok_view(t)) =~= Seq::<TokView>::empty());
        if spec_tokenize_at(s@, 0) is Ok {
            let rest = spec_tokenize_at(s@, 0)->Ok_0;
            assert(Seq::<TokView>::empty() + rest =~= rest);
        }
    }
    while i < n
        invariant
            n == s@.len(),
            0 <= i <= n,
            spec_tokenize_at(s@, 0) == match spec_tokenize_at(s@, i as int) {
                Ok(rest) => Ok::<Seq<TokView>, ModelParseError>(
                    toks@.map_values(|t: Token| tok_view(t)) + rest,
                ),
                Err(e) => Err::<Seq<TokView>, ModelParseError>(e),
            },
        decreases n - i,
    {
        let ghost old_i = i as int;
        let ghost tv = toks@.map_values(|t: Token| tok_view(t));
        let c = s.get_char(i);
        if c == ' ' || c == '\t' || c == '\r' || c == '\n' {
            i += 1;
        } else if c == '(' {
            toks.push(Token::LPar);
            i += 1;
            proof {
                lemma_tok_step(s@, old_i, i as int, tv, toks@, TokView::LPar);
            }
        } else if c == ')' {
            toks.push(Token::RPar);
            i += 1;
            proof {
                lemma_tok_step(s@, old_i, i as int, tv, toks@, TokView::RPar);
            }
        } else if c == ',' {
            toks.push(Token::Comma);
            i += 1;
            proof {
                lemma_tok_step(s@, old_i, i as int, tv, toks@, TokView::Comma);
            }
        } else if c == '&' {
            if i + 1 < n && s.get_char(i + 1) == '&' {
                toks.push(Token::AndAnd);
                i += 2;
                proof {
                    lemma_tok_step(s@, old_i, i as int, tv, toks@, TokView::AndAnd);
                }
            } else {
                return Err(ModelParseError::MatcherSyntax);
            }
        } else if c == '|' {
            if i + 1 < n && s.get_char(i + 1) == '|' {
                toks.push(Token::OrOr);
                i += 2;
                proof {
                    lemma_tok_step(s@, old_i, i as int, tv, toks@, TokView::OrOr);
                }
            } else {
                return Err(ModelParseError::MatcherSyntax);
            }
        } else if c == '=' {
            if i + 1 < n && s.get_char(i + 1) == '=' {
                toks.push(Token::EqEq);
                i += 2;
                proof {
                    lemma_tok_step(s@, old_i, i as int, tv, toks@, TokView::EqEq);
                }
            } else {
                return Err(ModelParseError::MatcherSyntax);
            }
        } else if c == '!' {
            if i + 1 < n && s.get_char(i + 1) == '=' {
                toks.push(Token::NeEq);
                i += 2;
                proof {
                    lemma_tok_step(s@, old_i, i as int, tv, toks@, TokView::NeEq);
                }
            } else {
                return Err(ModelParseError::MatcherSyntax);
            }
        } else if c == '"' {
            let start = i + 1;
            let mut j: usize = start;
            while j < n && s.get_char(j) != '"'
                invariant
                    n == s@.len(),
                    i < n,
                    old_i == i as int,
                    tv == toks@.map_values(|t: Token| tok_view(t)),
                    s@[i as int] == '"',
                    start == i + 1,
                    start <= j <= n,
                    forall|jj: int| start <= jj < j ==> s@[jj] != '"',
                    spec_tokenize_at(s@, 0) == match spec_tokenize_at(s@, i as int) {
                        Ok(rest) => Ok::<Seq<TokView>, ModelParseError>(
                            toks@.map_values(|t: Token| tok_view(t)) + rest,
                        ),
                        Err(e) => Err::<Seq<TokView>, ModelParseError>(e),
                    },
                decreases n - j,
            {
                j += 1;
            }
            proof {
                lemma_find_from(s@, '"', start as int, j as int);
            }
            if j == n {
                return Err(ModelParseError::MatcherSyntax);
            }
            let piece = s.substring_char(start, j);
            toks.push(Token::StrLit(String::from_str(piece)));
            i = j + 1;
            proof {
                assert(s@.subrange(old_i + 1, old_i + 1 + (j - start)) =~= s@.subrange(
                    start as int,
                    j as int,
                ));
                lemma_tok_step(s@, old_i, i as int, tv, toks@, TokView::StrLit(
                    s@.subrange(start as int, j as int),
                ));
            }
        } else if is_ident_char(c) {
            let start = i;
            let mut j: usize = i + 1;
            while j < n && is_ident_char(s.get_char(j))
                invariant
                    n == s@.len(),
                    i < n,
                    old_i == i as int,
                    tv == toks@.map_values(|t: Token| tok_view(t)),
                    spec_ident_char(s@[i as int]),
                    start == i,
                    start < j <= n,
                    forall|jj: int| i < jj < j ==> spec_ident_char(s@[jj]),
                    spec_tokenize_at(s@, 0) == match spec_tokenize_at(s@, i as int) {
                        Ok(rest) => Ok::<Seq<TokView>, ModelParseError>(
                            toks@.map_values(|t: Token| tok_view(t)) + rest,
                        ),
                        Err(e) => Err::<Seq<TokView>, ModelParseError>(e),
                    },
                decreases n - j,
            {
                j += 1;
            }
            proof {
                lemma_ident_from(s@, old_i + 1, j as int);
            }
            let piece = s.substring_char(start, j);
            toks.push(Token::Word(String::from_str(piece)));
            i = j;
            proof {
                assert(s@.subrange(old_i, old_i + 1 + (ident_len(s@.skip(old_i + 1)) as int))
                    =~= s@.subrange(start as int, j as int));
                lemma_tok_step(s@, old_i, i as int, tv, toks@, TokView::Word(
                    s@.subrange(start as int, j as int),
                ));
            }
        } else {
            return Err(ModelParseError::MatcherSyntax);
        }
    }
    proof {
        if spec_tokenize_at(s@, n as int) is Ok {
            let rest = spec_tokenize_at(s@, n as int)->Ok_0;
            assert(toks@.map_values(|t: Token| tok_view(t)) + rest =~= toks@.map_values(
                |t: Token| tok_view(t),
            ));
        }
    }
    Ok(toks)
}

/// One emitted token extends the accumulated views by it: the helper step
/// used by the tokenizer loop.
proof fn lemma_tok_step(
    s: Seq<char>,
    i: int,
    next: int,
    tv: Seq<TokView>,
    toks: Seq<Token>,
    t: TokView,
)
    requires
        toks.map_values(|t2: Token| tok_view(t2)) =~= tv.push(t),
        spec_tokenize_at(s, i) == (match spec_tokenize_at(s, next) {
            Ok(rest) => Ok::<Seq<TokView>, ModelParseError>(seq![t] + rest),
            Err(e) => Err::<Seq<TokView>, ModelParseError>(e),
        }),
    ensures
        (match spec_tokenize_at(s, i) {
            Ok(rest0) => Ok::<Seq<TokView>, ModelParseError>(tv + rest0),
            Err(e) => Err::<Seq<TokView>, ModelParseError>(e),
        }) == (match spec_tokenize_at(s, next) {
            Ok(rest) => Ok::<Seq<TokView>, ModelParseError>(
                toks.map_values(|t2: Token| tok_view(t2)) + rest,
            ),
            Err(e) => Err::<Seq<TokView>, ModelParseError>(e),
        }),
{
    if spec_tokenize_at(s, next) is Ok {
        let rest = spec_tokenize_at(s, next)->Ok_0;
        assert(tv + (seq![t] + rest) =~= tv.push(t) + rest);
    }
}

/// The view of a matcher operand.
pub enum OperandV {
    Req(int),
    ReqAttr(int, Seq<char>),
    Pol(int),
    Lit(Seq<char>),
}

/// The view of a matcher expression.
pub enum ExprV {
    Eq(OperandV, OperandV),
    Ne(OperandV, OperandV),
    G(OperandV, OperandV),
    And(Box<ExprV>, Box<ExprV>),
    Or(Box<ExprV>, Box<ExprV>),
}

/// The view of an [`Operand`].
pub open spec fn operand_view(op: Operand) -> OperandV {
    match op {
        Operand::Req(i) => OperandV::Req(i as int),
        Operand::ReqAttr(i, k) => OperandV::ReqAttr(i as int, k@),
        Operand::Pol(i) => OperandV::Pol(i as int),
        Operand::Lit(l) => OperandV::Lit(l@),
    }
}

/// The view of an [`Expr`].
pub open spec fn expr_view(e: Expr) -> ExprV
    decreases e,
{
    match e {
        Expr::Eq(a, b) => ExprV::Eq(operand_view(a), operand_view(b)),
        Expr::Ne(a, b) => ExprV::Ne(operand_view(a), operand_view(b)),
        Expr::G(a, b) => ExprV::G(operand_view(a), operand_view(b)),
        Expr::And(l, r) => ExprV::And(Box::new(expr_view(*l)), Box::new(expr_view(*r))),
        Expr::Or(l, r) => ExprV::Or(Box::new(expr_view(*l)), Box::new(expr_view(*r))),
    }
}

/// The view-level expression contains a role-membership predicate.
pub open spec fn exprv_uses_g(e: ExprV) -> bool
    decreases e,
{
    match e {
        ExprV::G(_, _) => true,
        ExprV::And(l, r) => exprv_uses_g(*l) || exprv_uses_g(*r),
        ExprV::Or(l, r) => exprv_uses_g(*l) || exprv_uses_g(*r),
        _ => false,
    }
}

/// An expression and its view use `g` alike.
pub proof fn lemma_uses_g_view(e: Expr)
    ensures
        exprv_uses_g(expr_view(e)) == expr_uses_g(e),
    decreases e,
{
    match e {
        Expr::And(l, r) => {
            lemma_uses_g_view(*l);
            lemma_uses_g_view(*r);
        },
        Expr::Or(l, r) => {
            lemma_uses_g_view(*l);
            lemma_uses_g_view(*r);
        },
        _ => {},
    }
}

/// The first index at which the token views hold `name`, if any.
pub open spec fn view_index(tokens: Seq<Seq<char>>, name: Seq<char>) -> Option<int>
    decreases tokens.len(),
{
    if tokens.len() == 0 {
        None
    } else if tokens[0] == name {
        Some(0)
    } else {
        match view_index(tokens.skip(1), name) {
            Some(i) => Some(i + 1),
            None => None,
        }
    }
}

/// [`view_index`] on the views agrees with [`spec_token_index`].
proof fn lemma_view_index(tokens: Seq<String>, name: Seq<char>)
    ensures
        view_index(tokens.map_values(|s2: String| s2@), name) == spec_token_index(tokens, name),
    decreases tokens.len(),
{
    if tokens.len() > 0 {
        assert(tokens.map_values(|s2: String| s2@)[0] == tokens[0]@);
        assert(tokens.skip(1).map_values(|s2: String| s2@) =~= tokens.map_values(
            |s2: String| s2@,
        ).skip(1));
        lemma_view_index(tokens.skip(1), name);
    }
}

/// What one dotted word resolves to against the declared token views:
/// `r.<tok>`, `p.<tok>` or `r.<tok>.<Key>`; an unknown token is an
/// undeclared-token error, any other shape a syntax error.
pub open spec fn spec_classify(w: Seq<char>, req: Seq<Seq<char>>, pol: Seq<Seq<char>>) -> Result<
    OperandV,
    ModelParseError,
> {
    let parts = text::spec_split(w, '.');
    if parts.len() == 2 {
        if parts[0] == "r"@ {
            match view_index(req, parts[1]) {
                Some(i) => Ok(OperandV::Req(i)),
                None => Err(ModelParseError::UndeclaredToken),
            }
        } else if parts[0] == "p"@ {
            match view_index(pol, parts[1]) {
                Some(i) => Ok(OperandV::Pol(i)),
                None => Err(ModelParseError::UndeclaredToken),
            }
        } else {
            Err(ModelParseError::MatcherSyntax)
        }
    } else if parts.len() == 3 {
        if parts[0] == "r"@ {
            match view_index(req, parts[1]) {
                Some(i) => Ok(OperandV::ReqAttr(i, parts[2])),
                None => Err(ModelParseError::UndeclaredToken),
            }
        } else {
            Err(ModelParseError::MatcherSyntax)
        }
    } else {
        Err(ModelParseError::MatcherSyntax)
    }
}

/// The operand one token denotes.
pub open spec fn spec_parse_operand(
    toks: Seq<TokView>,
    pos: int,
    req: Seq<Seq<char>>,
    pol: Seq<Seq<char>>,
) -> Result<(OperandV, int), ModelParseError> {
    if 0 <= pos < toks.len() {
        match toks[pos] {
            TokView::Word(w) => match spec_classify(w, req, pol) {
                Ok(op) => Ok((op, pos + 1)),
                Err(e) => Err(e),
            },
            TokView::StrLit(l) => Ok((OperandV::Lit(l), pos + 1)),
            _ => Err(ModelParseError::MatcherSyntax),
        }
    } else {
        Err(ModelParseError::MatcherSyntax)
    }
}

/// An atom of the grammar: a parenthesized expression, a `g(a, b)`
/// predicate, or a comparison.
pub open spec fn spec_parse_atom(
    toks: Seq<TokView>,
    pos: int,
    req: Seq<Seq<char>>,
    pol: Seq<Seq<char>>,
) -> Result<(ExprV, int), ModelParseError>
    decreases toks.len() - pos, 1int,
{
    if !(0 <= pos < toks.len()) {
        Err(ModelParseError::MatcherSyntax)
    } else if toks[pos] is LPar {
        match spec_parse_or(toks, pos + 1, req, pol) {
            Err(e) => Err(e),
            Ok((e, p2)) => if p2 < toks.len() && toks[p2] is RPar {
                Ok((e, p2 + 1))
            } else {
                Err(ModelParseError::MatcherSyntax)
            },
        }
    } else if toks[pos] matches TokView::Word(w) && w == "g"@ && pos + 1 < toks.len() && toks[pos
        + 1] is LPar {
        match spec_parse_operand(toks, pos + 2, req, pol) {
            Err(e) => Err(e),
            Ok((a, p2)) => if p2 < toks.len() && toks[p2] is Comma {
                match spec_parse_operand(toks, p2 + 1, req, pol) {
                    Err(e) => Err(e),
                    Ok((b, p3)) => if p3 < toks.len() && toks[p3] is RPar {
                        Ok((ExprV::G(a, b), p3 + 1))
                    } else {
                        Err(ModelParseError::MatcherSyntax)
                    },
                }
            } else {
                Err(ModelParseError::MatcherSyntax)
            },
        }
    } else {
        match spec_parse_operand(toks, pos, req, pol) {
            Err(e) => Err(e),
            Ok((a, p2)) => if p2 < toks.len() && (toks[p2] is EqEq || toks[p2] is NeEq) {
                match spec_parse_operand(toks, p2 + 1, req, pol) {
                    Err(e) => Err(e),
                    Ok((b, p3)) => if toks[p2] is EqEq {
                        Ok((ExprV::Eq(a, b), p3))
                    } else {
                        Ok((ExprV::Ne(a, b), p3))
                    },
                }
            } else {
                Err(ModelParseError::MatcherSyntax)
            },
        }
    }
}

/// The rest of a left-associated `&&` chain after `e`.
pub open spec fn spec_and_chain(
    e: ExprV,
    toks: Seq<TokView>,
    pos: int,
    req: Seq<Seq<char>>,
    pol: Seq<Seq<char>>,
) -> Result<(ExprV, int), ModelParseError>
    decreases toks.len() - pos, 0int,
{
    if 0 <= pos < toks.len() && toks[pos] is AndAnd {
        match spec_parse_atom(toks, pos + 1, req, pol) {
            Err(e2) => Err(e2),
            Ok((r, p2)) => if pos + 1 < p2 <= toks.len() {
                spec_and_chain(ExprV::And(Box::new(e), Box::new(r)), toks, p2, req, pol)
            } else {
                Err(ModelParseError::MatcherSyntax)
            },
        }
    } else {
        Ok((e, pos))
    }
}

/// A `&&` chain, left-associated.
pub open spec fn spec_parse_and(
    toks: Seq<TokView>,
    pos: int,
    req: Seq<Seq<char>>,
    pol: Seq<Seq<char>>,
) -> Result<(ExprV, int), ModelParseError>
    decreases toks.len() - pos, 2int,
{
    match spec_parse_atom(toks, pos, req, pol) {
        Err(e) => Err(e),
        Ok((first, p1)) => if pos < p1 <= toks.len() {
            spec_and_chain(first, toks, p1, req, pol)
        } else {
            Err(ModelParseError::MatcherSyntax)
        },
    }
}

/// The rest of a left-associated `||` chain after `e`.
pub open spec fn spec_or_chain(
    e: ExprV,
    toks: Seq<TokView>,
    pos: int,
    req: Seq<Seq<char>>,
    pol: Seq<Seq<char>>,
) -> Result<(ExprV, int), ModelParseError>
    decreases toks.len() - pos, 0int,
{
    if 0 <= pos < toks.len() && toks[pos] is OrOr {
        match spec_parse_and(toks, pos + 1, req, pol) {
            Err(e2) => Err(e2),
            Ok((r, p2)) => if pos + 1 < p2 <= toks.len() {
                spec_or_chain(ExprV::Or(Box::new(e), Box::new(r)), toks, p2, req, pol)
            } else {
                Err(ModelParseError::MatcherSyntax)
            },
        }
    } else {
        Ok((e, pos))
    }
}

/// A `||` chain of `&&` chains, left-associated: a whole expression.
pub open spec fn spec_parse_or(
    toks: Seq<TokView>,
    pos: int,
    req: Seq<Seq<char>>,
    pol: Seq<Seq<char>>,
) -> Result<(ExprV, int), ModelParseError>
    decreases toks.len() - pos, 3int,
{
    match spec_parse_and(toks, pos, req, pol) {
        Err(e) => Err(e),
        Ok((first, p1)) => if pos < p1 <= toks.len() {
            spec_or_chain(first, toks, p1, req, pol)
        } else {
            Err(ModelParseError::MatcherSyntax)
        },
    }
}

/// What a whole matcher text denotes: its tokens parsed as one expression
/// consuming every token, against the declared token views.
pub open spec fn spec_parse_matcher(
    s: Seq<char>,
    req: Seq<Seq<char>>,
    pol: Seq<Seq<char>>,
) -> Result<ExprV, ModelParseError> {
    match spec_tokenize_at(s, 0) {
        Err(e) => Err(e),
        Ok(toks) => match spec_parse_or(toks, 0, req, pol) {
            Err(e) => Err(e),
            Ok((e, p)) => if p == toks.len() {
                Ok(e)
            } else {
                Err(ModelParseError::MatcherSyntax)
            },
        },
    }
}

/// Resolves one dotted word (`r.sub`, `p.obj`, `r.obj.Owner`) against the
/// declared tokens.
fn classify_word(w: &str, req_tokens: &Vec<String>, pol_tokens: &Vec<String>) -> (r: Result<
    Operand,
    ModelParseError,
>)
    ensures
        r matches Ok(op) ==> operand_wf(op, req_tokens@.len(), pol_tokens@.len()),
        r matches Err(e) ==> e == ModelParseError::MatcherSyntax || e
            == ModelParseError::UndeclaredToken,
        match r {
            Ok(op) => spec_classify(w@, tokens_view(*req_tokens), tokens_view(*pol_tokens))
                == Ok::<OperandV, ModelParseError>(operand_view(op)),
            Err(e) => spec_classify(w@, tokens_view(*req_tokens), tokens_view(*pol_tokens))
                == Err::<OperandV, ModelParseError>(e),
        },
{
    proof {
        lemma_view_index(req_tokens@, text::spec_split(w@, '.')[1]);
        lemma_view_index(pol_tokens@, text::spec_split(w@, '.')[1]);
    }
    let parts = text::split(w, '.');
    proof {
        assert(forall|k: int|
            0 <= k < parts@.len() ==> parts@.map_values(|p: String| p@)[k] == (
            #[trigger] parts@[k])@);
    }
    if parts.len() == 2 {
        if text::str_eq(parts[0].as_str(), "r") {
            match token_index(req_tokens, parts[1].as_str()) {
                Some(i) => Ok(Operand::Req(i)),
                None => Err(ModelParseError::UndeclaredToken),
            }
        } else if text::str_eq(parts[0].as_str(), "p") {
            match token_index(pol_tokens, parts[1].as_str()) {
                Some(i) => Ok(Operand::Pol(i)),
                None => Err(ModelParseError::UndeclaredToken),
            }
        } else {
            Err(ModelParseError::MatcherSyntax)
        }
    } else if parts.len() == 3 {
        if text::str_eq(parts[0].as_str(), "r") {
            match token_index(req_tokens, parts[1].as_str()) {
                Some(i) => Ok(Operand::ReqAttr(i, parts[2].clone())),
                None => Err(ModelParseError::UndeclaredToken),
            }
        } else {
            Err(ModelParseError::MatcherSyntax)
        }
    } else {
        Err(ModelParseError::MatcherSyntax)
    }
}

/// Parses one operand token.
fn parse_operand(
    tokens: &Vec<Token>,
    pos: usize,
    req_tokens: &Vec<String>,
    pol_tokens: &Vec<String>,
) -> (r: Result<(Operand, usize), ModelParseError>)
    requires
        pos <= tokens@.len(),
    ensures
        r matches Ok(p) ==> pos < p.1 <= tokens@.len() && operand_wf(
            p.0,
            req_tokens@.len(),
            pol_tokens@.len(),
        ),
        r matches Err(e) ==> e == ModelParseError::MatcherSyntax || e
            == ModelParseError::UndeclaredToken,
        match r {
            Ok(p) => spec_parse_operand(
                tokens@.map_values(|t: Token| tok_view(t)),
                pos as int,
                tokens_view(*req_tokens),
                tokens_view(*pol_tokens),
            ) == Ok::<(OperandV, int), ModelParseError>((operand_view(p.0), p.1 as int)),
            Err(e) => spec_parse_operand(
                tokens@.map_values(|t: Token| tok_view(t)),
                pos as int,
                tokens_view(*req_tokens),
                tokens_view(*pol_tokens),
            ) == Err::<(OperandV, int), ModelParseError>(e),
        },
{
    proof {
        assert(forall|k: int|
            0 <= k < tokens@.len() ==> tokens@.map_values(|t: Token| tok_view(t))[k] == tok_view(
                #[trigger] tokens@[k],
            ));
    }
    if pos < tokens.len() {
        match &tokens[pos] {
            Token::Word(w) => match classify_word(w.as_str(), req_tokens, pol_tokens) {
                Ok(op) => Ok((op, pos + 1)),
                Err(e) => Err(e),
            },
            Token::StrLit(sl) => Ok((Operand::Lit(sl.clone()), pos + 1)),
            _ => Err(ModelParseError::MatcherSyntax),
        }
    } else {
        Err(ModelParseError::MatcherSyntax)
    }
}

/// Parses an atom: a parenthesized expression, a `g(a, b)` predicate, or a
/// comparison `a == b` / `a != b`.
fn parse_atom(
    tokens: &Vec<Token>,
    pos: usize,
    req_tokens: &Vec<String>,
    pol_tokens: &Vec<String>,
) -> (r: Result<(Expr, usize), ModelParseError>)
    requires
        pos <= tokens@.len(),
    ensures
        r matches Ok(p) ==> pos < p.1 <= tokens@.len() && expr_wf(
            p.0,
            req_tokens@.len(),
            pol_tokens@.len(),
        ),
        r matches Err(e) ==> e == ModelParseError::MatcherSyntax || e
            == ModelParseError::UndeclaredToken,
        match r {
            Ok(p) => spec_parse_atom(
                tokens@.map_values(|t: Token| tok_view(t)),
                pos as int,
                tokens_view(*req_tokens),
                tokens_view(*pol_tokens),
            ) == Ok::<(ExprV, int), ModelParseError>((expr_view(p.0), p.1 as int)),
            Err(e) => spec_parse_atom(
                tokens@.map_values(|t: Token| tok_view(t)),
                pos as int,
                tokens_view(*req_tokens),
                tokens_view(*pol_tokens),
            ) == Err::<(ExprV, int), ModelParseError>(e),
        },
    decreases tokens@.len() - pos, 1int,
{
    proof {
        assert(forall|k: int|
            0 <= k < tokens@.len() ==> tokens@.map_values(|t: Token| tok_view(t))[k] == tok_view(
                #[trigger] tokens@[k],
            ));
    }
    if pos >= tokens.len() {
        return Err(ModelParseError::MatcherSyntax);
    }
    let is_lpar = matches!(&tokens[pos], Token::LPar);
    if is_lpar {
        match parse_or(tokens, pos + 1, req_tokens, pol_tokens) {
            Err(e) => Err(e),
            Ok((e, p2)) => {
                if p2 < tokens.len() && matches!(&tokens[p2], Token::RPar) {
                    Ok((e, p2 + 1))
                } else {
                    Err(ModelParseError::MatcherSyntax)
                }
            },
        }
    } else {
        let is_g_call = match &tokens[pos] {
            Token::Word(w) => text::str_eq(w.as_str(), "g") && pos + 1 < tokens.len() && matches!(
                &tokens[pos + 1],
                Token::LPar,
            ),
            _ => false,
        };
        if is_g_call {
            match parse_operand(tokens, pos + 2, req_tokens, pol_tokens) {
                Err(e) => Err(e),
                Ok((a, p2)) => {
                    if !(p2 < tokens.len() && matches!(&tokens[p2], Token::Comma)) {
                        return Err(ModelParseError::MatcherSyntax);
                    }
                    match parse_operand(tokens, p2 + 1, req_tokens, pol_tokens) {
                        Err(e) => Err(e),
                        Ok((b, p3)) => {
                            if p3 < tokens.len() && matches!(&tokens[p3], Token::RPar) {
                                Ok((Expr::G(a, b), p3 + 1))
                            } else {
                                Err(ModelParseError::MatcherSyntax)
                            }
                        },
                    }
                },
            }
        } else {
            match parse_operand(tokens, pos, req_tokens, pol_tokens) {
                Err(e) => Err(e),
                Ok((a, p2)) => {
                    if p2 >= tokens.len() {
                        return Err(ModelParseError::MatcherSyntax);
                    }
                    let is_eq = matches!(&tokens[p2], Token::EqEq);
                    let is_ne = matches!(&tokens[p2], Token::NeEq);
                    if !is_eq && !is_ne {
                        return Err(ModelParseError::MatcherSyntax);
                    }
                    match parse_operand(tokens, p2 + 1, req_tokens, pol_tokens) {
                        Err(e) => Err(e),
                        Ok((b, p3)) => {
                            if is_eq {
                                Ok((Expr::Eq(a, b), p3))
                            } else {
                                Ok((Expr::Ne(a, b), p3))
                            }
                        },
                    }
                },
            }
        }
    }
}

/// Parses a `&&` chain, left-associated.
fn parse_and(
    tokens: &Vec<Token>,
    pos: usize,
    req_tokens: &Vec<String>,
    pol_tokens: &Vec<String>,
) -> (r: Result<(Expr, usize), ModelParseError>)
    requires
        pos <= tokens@.len(),
    ensures
        r matches Ok(p) ==> pos < p.1 <= tokens@.len() && expr_wf(
            p.0,
            req_tokens@.len(),
            pol_tokens@.len(),
        ),
        r matches Err(e) ==> e == ModelParseError::MatcherSyntax || e
            == ModelParseError::UndeclaredToken,
        match r {
            Ok(p) => spec_parse_and(
                tokens@.map_values(|t: Token| tok_view(t)),
                pos as int,
                tokens_view(*req_tokens),
                tokens_view(*pol_tokens),
            ) == Ok::<(ExprV, int), ModelParseError>((expr_view(p.0), p.1 as int)),
            Err(e) => spec_parse_and(
                tokens@.map_values(|t: Token| tok_view(t)),
                pos as int,
                tokens_view(*req_tokens),
                tokens_view(*pol_tokens),
            ) == Err::<(ExprV, int), ModelParseError>(e),
        },
    decreases tokens@.len() - pos, 2int,
{
    match parse_atom(tokens, pos, req_tokens, pol_tokens) {
        Err(e) => Err(e),
        Ok((first, p1)) => {
            let mut e = first;
            let mut p = p1;
            while p < tokens.len() && matches!(&tokens[p], Token::AndAnd)
                invariant
                    pos < p <= tokens@.len(),
                    expr_wf(e, req_tokens@.len(), pol_tokens@.len()),
                    spec_parse_and(
                        tokens@.map_values(|t: Token| tok_view(t)),
                        pos as int,
                        tokens_view(*req_tokens),
                        tokens_view(*pol_tokens),
                    ) == spec_and_chain(
                        expr_view(e),
                        tokens@.map_values(|t: Token| tok_view(t)),
                        p as int,
                        tokens_view(*req_tokens),
                        tokens_view(*pol_tokens),
                    ),
                decreases tokens@.len() - p,
            {
                proof {
                    assert(tokens@.map_values(|t: Token| tok_view(t))[p as int] == tok_view(
                        tokens@[p as int],
                    ));
                }
                match parse_atom(tokens, p + 1, req_tokens, pol_tokens) {
                    Err(er) => {
                        return Err(er);
                    },
                    Ok((rhs, p2)) => {
                        e = Expr::And(Box::new(e), Box::new(rhs));
                        p = p2;
                    },
                }
            }
            proof {
                if p < tokens.len() {
                    assert(tokens@.map_values(|t: Token| tok_view(t))[p as int] == tok_view(
                        tokens@[p as int],
                    ));
                }
            }
            Ok((e, p))
        },
    }
}

/// Parses a `||` chain, left-associated.
fn parse_or(
    tokens: &Vec<Token>,
    pos: usize,
    req_tokens: &Vec<String>,
    pol_tokens: &Vec<String>,
) -> (r: Result<(Expr, usize), ModelParseError>)
    requires
        pos <= tokens@.len(),
    ensures
        r matches Ok(p) ==> pos < p.1 <= tokens@.len() && expr_wf(
            p.0,
            req_tokens@.len(),
            pol_tokens@.len(),
        ),
        r matches Err(e) ==> e == ModelParseError::MatcherSyntax || e
            == ModelParseError::UndeclaredToken,
        match r {
            Ok(p) => spec_parse_or(
                tokens@.map_values(|t: Token| tok_view(t)),
                pos as int,
                tokens_view(*req_tokens),
                tokens_view(*pol_tokens),
            ) == Ok::<(ExprV, int), ModelParseError>((expr_view(p.0), p.1 as int)),
            Err(e) => spec_parse_or(
                tokens@.map_values(|t: Token| tok_view(t)),
                pos as int,
                tokens_view(*req_tokens),
                tokens_view(*pol_tokens),
            ) == Err::<(ExprV, int), ModelParseError>(e),
        },
    decreases tokens@.len() - pos, 3int,
{
    match parse_and(tokens, pos, req_tokens, pol_tokens) {
        Err(e) => Err(e),
        Ok((first, p1)) => {
            let mut e = first;
            let mut p = p1;
            while p < tokens.len() && matches!(&tokens[p], Token::OrOr)
                invariant
                    pos < p <= tokens@.len(),
                    expr_wf(e, req_tokens@.len(), pol_tokens@.len()),
                    spec_parse_or(
                        tokens@.map_values(|t: Token| tok_view(t)),
                        pos as int,
                        tokens_view(*req_tokens),
                        tokens_view(*pol_tokens),
                    ) == spec_or_chain(
                        expr_view(e),
                        tokens@.map_values(|t: Token| tok_view(t)),
                        p as int,
                        tokens_view(*req_tokens),
                        tokens_view(*pol_tokens),
                    ),
                decreases tokens@.len() - p,
            {
                proof {
                    assert(tokens@.map_values(|t: Token| tok_view(t))[p as int] == tok_view(
                        tokens@[p as int],
                    ));
                }
                match parse_and(tokens, p + 1, req_tokens, pol_tokens) {
                    Err(er) => {
                        return Err(er);
                    },
                    Ok((rhs, p2)) => {
                        e = Expr::Or(Box::new(e), Box::new(rhs));
                        p = p2;
                    },
                }
            }
            proof {
                if p < tokens.len() {
                    assert(tokens@.map_values(|t: Token| tok_view(t))[p as int] == tok_view(
                        tokens@[p as int],
                    ));
                }
            }
            Ok((e, p))
        },
    }
}

/// Parses a whole matcher expression against the declared tokens. On
/// success every field reference is declared, so the expression is
/// well-formed for the model's arities.
pub fn parse_matcher(s: &str, req_tokens: &Vec<String>, pol_tokens: &Vec<String>) -> (r: Result<
    Expr,
    ModelParseError,
>)
    ensures
        r matches Ok(e) ==> expr_wf(e, req_tokens@.len(), pol_tokens@.len()),
        r matches Err(e) ==> e == ModelParseError::MatcherSyntax || e
            == ModelParseError::UndeclaredToken,
        match r {
            Ok(e) => spec_parse_matcher(s@, tokens_view(*req_tokens), tokens_view(*pol_tokens))
                == Ok::<ExprV, ModelParseError>(expr_view(e)),
            Err(e) => spec_parse_matcher(s@, tokens_view(*req_tokens), tokens_view(*pol_tokens))
                == Err::<ExprV, ModelParseError>(e),
        },
{
    match tokenize(s) {
        Err(e) => Err(e),
        Ok(toks) => match parse_or(&toks, 0, req_tokens, pol_tokens) {
            Err(e) => Err(e),
            Ok((e, p)) => {
                if p == toks.len() {
                    Ok(e)
                } else {
                    Err(ModelParseError::MatcherSyntax)
                }
            },
        },
    }
}

} // verus!
