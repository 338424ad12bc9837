//! Parses tokens into statements, keeping the symbol table as it goes:
//! declarations are checked against it, arithmetic is evaluated, and each
//! `if` is decided, its block parsed against a copy of the table.
use vstd::prelude::*;
use crate::LangError;
use crate::ast::{node_view, nodes_view, ASTNode, SNode};
use crate::env::{declare, lookup, Entry, Env, Kind, SValue, Value};
use crate::expr::{evaluate, expr, replace_identifiers, substitute};
use crate::lexer::{token_wf, tokens_wf, TokenList};
use crate::number::{render, same_value, Number};
use crate::text::{same_text, slice_text};

verus! {

/// How deeply blocks may nest.
pub const MAX_DEPTH: usize = 64;

/// What parsing one statement leaves: the tokens (identifiers may have been
/// replaced by numbers), the position after the statement, the symbol table,
/// and the statement, where one is kept.
pub struct Step {
    pub toks: Seq<TokenList>,
    pub pos: int,
    pub env: Seq<Entry>,
    pub node: Option<SNode>,
}

pub open spec fn text(src: Seq<char>, a: usize, b: usize) -> Seq<char> {
    src.subrange(a as int, b as int)
}

/// The kind that a type name declares.
pub open spec fn type_kind(w: Seq<char>) -> Option<Kind> {
    if w == seq!['s', 't', 'r'] {
        Some(Kind::Str)
    } else if w == seq!['n', 'u', 'm'] {
        Some(Kind::Num)
    } else if w == seq!['b', 'o', 'o', 'l'] {
        Some(Kind::Bool)
    } else {
        None
    }
}

/// The value of a declaration of kind `kind` at `p`, the position after it,
/// and the tokens after substitution. Text takes a string literal, a boolean
/// a boolean literal, and a number an arithmetic expression, evaluated after
/// its numeric variables are replaced by their values.
pub open spec fn decl_value(
    src: Seq<char>,
    toks: Seq<TokenList>,
    p: int,
    env: Seq<Entry>,
    kind: Kind,
) -> Result<(SValue, int, Seq<TokenList>), LangError> {
    if p < 0 || p >= toks.len() {
        Err(LangError::SyntaxError)
    } else {
        match kind {
            Kind::Str => match toks[p] {
                TokenList::Str(a, b) => Ok((SValue::Str(text(src, a, b)), p + 1, toks)),
                _ => Err(LangError::SyntaxError),
            },
            Kind::Bool => match toks[p] {
                TokenList::Bool(b) => Ok((SValue::Bool(b), p + 1, toks)),
                _ => Err(LangError::SyntaxError),
            },
            Kind::Num => match toks[p] {
                TokenList::Num(_) | TokenList::Open | TokenList::Ident(_, _) => match substitute(
                    src,
                    env,
                    toks,
                    p,
                ) {
                    Ok(t2) => match expr(t2, p) {
                        Ok((v, q)) => Ok((SValue::Num(v), q, t2)),
                        Err(e) => Err(e),
                    },
                    Err(e) => Err(e),
                },
                _ => Err(LangError::SyntaxError),
            },
        }
    }
}

/// `let` (or, where `constant`, `const`) `type name = value` at `pos`.
pub open spec fn declaration(
    src: Seq<char>,
    toks: Seq<TokenList>,
    pos: int,
    env: Seq<Entry>,
    constant: bool,
) -> Result<Step, LangError> {
    let p = pos + 1;
    if p < 1 || p + 3 > toks.len() {
        Err(LangError::SyntaxError)
    } else {
        match (toks[p], toks[p + 1], toks[p + 2]) {
            (TokenList::Ident(ta, tb), TokenList::Ident(na, nb), TokenList::Assign) => match type_kind(
                text(src, ta, tb),
            ) {
                Some(kind) => match decl_value(src, toks, p + 3, env, kind) {
                    Ok((v, q, t2)) => {
                        let name = text(src, na, nb);
                        match declare(env, constant, name, v) {
                            Ok(env2) => Ok(
                                Step {
                                    toks: t2,
                                    pos: q,
                                    env: env2,
                                    node: Some(
                                        if constant {
                                            SNode::Const { declared_type: kind, name, value: v }
                                        } else {
                                            SNode::Let { declared_type: kind, name, value: v }
                                        },
                                    ),
                                },
                            ),
                            Err(e) => Err(e),
                        }
                    },
                    Err(e) => Err(e),
                },
                None => Err(LangError::SyntaxError),
            },
            _ => Err(LangError::SyntaxError),
        }
    }
}

/// `shout` at `pos`: a string, an identifier or an arithmetic expression.
/// An identifier that names a number starts an expression; any other is
/// kept for the interpreter to resolve. An expression is evaluated after the
/// numeric variables up to the next separator are replaced by their values.
pub open spec fn shout(src: Seq<char>, toks: Seq<TokenList>, pos: int, env: Seq<Entry>) -> Result<
    Step,
    LangError,
> {
    let p = pos + 1;
    if p < 1 || p >= toks.len() {
        Err(LangError::SyntaxError)
    } else {
        match toks[p] {
            TokenList::Str(a, b) => Ok(
                Step {
                    toks,
                    pos: p + 1,
                    env,
                    node: Some(SNode::Shout { text: text(src, a, b), is_identifier: false }),
                },
            ),
            TokenList::Ident(a, b) => {
                if lookup(env, text(src, a, b)) matches Some((SValue::Num(_), _)) {
                    match substitute(src, env, toks, p) {
                        Ok(t2) => match expr(t2, p) {
                            Ok((v, q)) => Ok(
                                Step {
                                    toks: t2,
                                    pos: q,
                                    env,
                                    node: Some(SNode::Shout { text: render(v), is_identifier: false }),
                                },
                            ),
                            Err(e) => Err(e),
                        },
                        Err(e) => Err(e),
                    }
                } else {
                    Ok(
                        Step {
                            toks,
                            pos: p + 1,
                            env,
                            node: Some(SNode::Shout { text: text(src, a, b), is_identifier: true }),
                        },
                    )
                }
            },
            TokenList::Num(_) | TokenList::Open => match substitute(src, env, toks, p) {
                Ok(t2) => match expr(t2, p) {
                    Ok((v, q)) => Ok(
                        Step {
                            toks: t2,
                            pos: q,
                            env,
                            node: Some(SNode::Shout { text: render(v), is_identifier: false }),
                        },
                    ),
                    Err(e) => Err(e),
                },
                Err(e) => Err(e),
            },
            _ => Err(LangError::SyntaxError),
        }
    }
}

/// Whether a comparison token negates: `==` does not, `!=` does.
pub open spec fn comparison(t: TokenList) -> Option<bool> {
    match t {
        TokenList::EqEq => Some(false),
        TokenList::NotEq => Some(true),
        _ => None,
    }
}

/// The condition of an `if` from `p` (just after its opening bracket): its
/// truth, the position after its closing bracket, and the tokens after
/// substitution.
pub open spec fn condition(src: Seq<char>, toks: Seq<TokenList>, p: int, env: Seq<Entry>) -> Result<
    (bool, int, Seq<TokenList>),
    LangError,
> {
    if p < 0 || p >= toks.len() {
        Err(LangError::SyntaxError)
    } else {
        match toks[p] {
            TokenList::Bool(b) => if p + 1 < toks.len() && toks[p + 1] is Close {
                Ok((b, p + 2, toks))
            } else {
                Err(LangError::SyntaxError)
            },
            TokenList::Ident(a, b) => match lookup(env, text(src, a, b)) {
                None => Err(LangError::UnboundIdentifierError),
                Some((v, _)) => if p + 2 >= toks.len() || comparison(toks[p + 1]) is None {
                    Err(LangError::UnsupportedConditionError)
                } else {
                    let neg = comparison(toks[p + 1])->0;
                    match v {
                        SValue::Bool(x) => match toks[p + 2] {
                            TokenList::Bool(y) => if p + 3 < toks.len() && toks[p + 3] is Close {
                                Ok(((x == y) != neg, p + 4, toks))
                            } else {
                                Err(LangError::SyntaxError)
                            },
                            _ => Err(LangError::UnsupportedConditionError),
                        },
                        SValue::Str(x) => match toks[p + 2] {
                            TokenList::Str(c, d) => if p + 3 < toks.len() && toks[p + 3] is Close {
                                Ok(((x == text(src, c, d)) != neg, p + 4, toks))
                            } else {
                                Err(LangError::SyntaxError)
                            },
                            _ => Err(LangError::UnsupportedConditionError),
                        },
                        SValue::Num(x) => match toks[p + 2] {
                            TokenList::Num(_) | TokenList::Ident(_, _) | TokenList::Open => match substitute(
                                src,
                                env,
                                toks,
                                p + 2,
                            ) {
                                Ok(t2) => match expr(t2, p + 2) {
                                    Ok((w, q)) => if q < t2.len() && t2[q] is Close {
                                        Ok((same_value(x, w) != neg, q + 1, t2))
                                    } else {
                                        Err(LangError::SyntaxError)
                                    },
                                    Err(e) => Err(e),
                                },
                                Err(e) => Err(e),
                            },
                            _ => Err(LangError::UnsupportedConditionError),
                        },
                    }
                },
            },
            _ => Err(LangError::UnsupportedConditionError),
        }
    }
}

/// The position of the bracket that closes a block, scanning from `k` with
/// `d` brackets open inside the block; `None` where the tokens end first.
pub open spec fn matching_close(toks: Seq<TokenList>, k: int, d: nat) -> Option<int>
    decreases toks.len() - k,
{
    if k < 0 || k >= toks.len() {
        None
    } else {
        match toks[k] {
            TokenList::Open => matching_close(toks, k + 1, d + 1),
            TokenList::Close => if d == 0 {
                Some(k)
            } else {
                matching_close(toks, k + 1, (d - 1) as nat)
            },
            TokenList::End => None,
            _ => matching_close(toks, k + 1, d),
        }
    }
}

/// `if (condition) ( statements )` at `pos`. The block is parsed, against a
/// copy of the symbol table, only where the condition holds; otherwise it
/// is skipped.
pub open spec fn if_statement(
    src: Seq<char>,
    toks: Seq<TokenList>,
    pos: int,
    env: Seq<Entry>,
    depth: nat,
) -> Result<Step, LangError>
    decreases toks.len(), toks.len() - pos, 0int,
{
    let p = pos + 1;
    if p < 1 || p >= toks.len() || !(toks[p] is Open) {
        Err(LangError::SyntaxError)
    } else {
        match condition(src, toks, p + 1, env) {
            Err(e) => Err(e),
            Ok((c, after, t2)) => {
                if t2.len() != toks.len() || after < 0 || after >= t2.len() || !(t2[after] is Open) {
                    Err(LangError::SyntaxError)
                } else {
                    match matching_close(t2, after + 1, 0) {
                        None => Err(LangError::SyntaxError),
                        Some(close) => if !(after < close < t2.len()) {
                            Err(LangError::SyntaxError)
                        } else if !c {
                            Ok(Step { toks: t2, pos: close + 1, env, node: None })
                        } else if depth >= MAX_DEPTH {
                            Err(LangError::NestingTooDeep)
                        } else {
                            match parse_seq(
                                src,
                                t2.subrange(after + 1, close),
                                0,
                                env,
                                depth + 1,
                            ) {
                                Ok(body) => Ok(
                                    Step {
                                        toks: t2,
                                        pos: close + 1,
                                        env,
                                        node: Some(SNode::If { body }),
                                    },
                                ),
                                Err(e) => Err(e),
                            }
                        },
                    }
                }
            },
        }
    }
}

/// Parsing an `if` leaves the symbol table as it was: declarations inside
/// the block are made in a copy.
pub proof fn lemma_if_keeps_table(
    src: Seq<char>,
    toks: Seq<TokenList>,
    pos: int,
    env: Seq<Entry>,
    depth: nat,
)
    ensures
        if_statement(src, toks, pos, env, depth) matches Ok(step) ==> step.env == env,
{
}

/// The statement that starts at `pos`.
pub open spec fn statement(
    src: Seq<char>,
    toks: Seq<TokenList>,
    pos: int,
    env: Seq<Entry>,
    depth: nat,
) -> Result<Step, LangError>
    decreases toks.len(), toks.len() - pos, 1int,
{
    if pos < 0 || pos >= toks.len() {
        Err(LangError::SyntaxError)
    } else {
        match toks[pos] {
            TokenList::Shout => shout(src, toks, pos, env),
            TokenList::Let => declaration(src, toks, pos, env, false),
            TokenList::Const => declaration(src, toks, pos, env, true),
            TokenList::If => if_statement(src, toks, pos, env, depth),
            _ => Err(LangError::SyntaxError),
        }
    }
}

pub open spec fn prepend_nodes(pre: Seq<SNode>, r: Result<Seq<SNode>, LangError>) -> Result<
    Seq<SNode>,
    LangError,
> {
    match r {
        Ok(rest) => Ok(pre + rest),
        Err(e) => Err(e),
    }
}

pub open spec fn optional(n: Option<SNode>) -> Seq<SNode> {
    match n {
        Some(x) => seq![x],
        None => Seq::empty(),
    }
}

/// The statements from `pos` to the end of the tokens or to `End`.
pub open spec fn parse_seq(
    src: Seq<char>,
    toks: Seq<TokenList>,
    pos: int,
    env: Seq<Entry>,
    depth: nat,
) -> Result<Seq<SNode>, LangError>
    decreases toks.len(), toks.len() - pos, 2int,
{
    if pos < 0 || pos >= toks.len() {
        Ok(Seq::empty())
    } else {
        match toks[pos] {
            TokenList::End => Ok(Seq::empty()),
            TokenList::Sep => parse_seq(src, toks, pos + 1, env, depth),
            _ => match statement(src, toks, pos, env, depth) {
                Err(e) => Err(e),
                Ok(step) => if step.toks.len() == toks.len() && pos < step.pos <= toks.len() {
                    prepend_nodes(
                        optional(step.node),
                        parse_seq(src, step.toks, step.pos, step.env, depth),
                    )
                } else {
                    Err(LangError::SyntaxError)
                },
            },
        }
    }
}

/// The program that the tokens hold, parsed against `env`.
pub open spec fn parse_program(src: Seq<char>, toks: Seq<TokenList>, env: Seq<Entry>) -> Result<
    Seq<SNode>,
    LangError,
> {
    parse_seq(src, toks, 0, env, 0)
}

pub open spec fn node_opt_view(n: Option<ASTNode>) -> Option<SNode> {
    match n {
        Some(x) => Some(node_view(x)),
        None => None,
    }
}

/// What a parsed statement left matches `step`.
pub open spec fn step_is(
    step: Step,
    q: usize,
    n: Option<ASTNode>,
    toks: Seq<TokenList>,
    env: Seq<Entry>,
    src: Seq<char>,
    len: int,
) -> bool {
    &&& step.pos == q
    &&& step.toks == toks
    &&& step.env == env
    &&& step.node == node_opt_view(n)
    &&& tokens_wf(toks, src)
    &&& toks.len() == len
}

fn type_kind_exec(src: &Vec<char>, a: usize, b: usize) -> (r: Option<Kind>)
    requires
        a <= b <= src@.len(),
    ensures
        r == type_kind(text(src@, a, b)),
{
    if same_text(src, a, b, &vec!['s', 't', 'r']) {
        Some(Kind::Str)
    } else if same_text(src, a, b, &vec!['n', 'u', 'm']) {
        Some(Kind::Num)
    } else if same_text(src, a, b, &vec!['b', 'o', 'o', 'l']) {
        Some(Kind::Bool)
    } else {
        None
    }
}

fn decl_value_exec(src: &Vec<char>, toks: &mut Vec<TokenList>, p: usize, env: &Env, kind: Kind) -> (r:
    Result<(Value, usize), LangError>)
    requires
        tokens_wf(old(toks)@, src@),
    ensures
        match decl_value(src@, old(toks)@, p as int, env@, kind) {
            Ok((v, q, t2)) => r matches Ok((x, q2)) && x@ == v && q2 == q && final(toks)@ == t2
                && tokens_wf(t2, src@) && p < q <= t2.len() && t2.len() == old(toks)@.len(),
            Err(e) => r == Err::<(Value, usize), LangError>(e),
        },
{
    if p >= toks.len() {
        return Err(LangError::SyntaxError);
    }
    let t = toks[p];
    match kind {
        Kind::Str => match t {
            TokenList::Str(a, b) => {
                assert(token_wf(toks@[p as int], src@));
                Ok((Value::Str(slice_text(src, a, b)), p + 1))
            },
            _ => Err(LangError::SyntaxError),
        },
        Kind::Bool => match t {
            TokenList::Bool(b) => Ok((Value::Bool(b), p + 1)),
            _ => Err(LangError::SyntaxError),
        },
        Kind::Num => match t {
            TokenList::Num(_) | TokenList::Open | TokenList::Ident(_, _) => match replace_identifiers(
                toks,
                src,
                env,
                p,
            ) {
                Ok(()) => match evaluate(toks, p) {
                    Ok((v, q)) => Ok((Value::Num(v), q)),
                    Err(e) => Err(e),
                },
                Err(e) => Err(e),
            },
            _ => Err(LangError::SyntaxError),
        },
    }
}

fn declaration_exec(
    src: &Vec<char>,
    toks: &mut Vec<TokenList>,
    pos: usize,
    env: &mut Env,
    constant: bool,
) -> (r: Result<(usize, Option<ASTNode>), LangError>)
    requires
        tokens_wf(old(toks)@, src@),
    ensures
        match declaration(src@, old(toks)@, pos as int, old(env)@, constant) {
            Ok(step) => r matches Ok((q, n)) && step_is(
                step,
                q,
                n,
                final(toks)@,
                final(env)@,
                src@,
                old(toks)@.len() as int,
            ) && pos < q <= old(toks)@.len(),
            Err(e) => r == Err::<(usize, Option<ASTNode>), LangError>(e),
        },
{
    if pos >= toks.len() || toks.len() - pos < 4 {
        return Err(LangError::SyntaxError);
    }
    let p = pos + 1;
    let (ta, tb) = match toks[p] {
        TokenList::Ident(a, b) => (a, b),
        _ => {
            return Err(LangError::SyntaxError);
        },
    };
    let (na, nb) = match toks[p + 1] {
        TokenList::Ident(a, b) => (a, b),
        _ => {
            return Err(LangError::SyntaxError);
        },
    };
    if toks[p + 2] != TokenList::Assign {
        return Err(LangError::SyntaxError);
    }
    assert(token_wf(toks@[p as int], src@));
    assert(token_wf(toks@[p + 1], src@));
    let kind = match type_kind_exec(src, ta, tb) {
        Some(k) => k,
        None => {
            return Err(LangError::SyntaxError);
        },
    };
    let (v, q) = match decl_value_exec(src, toks, p + 3, env, kind) {
        Ok(x) => x,
        Err(e) => {
            return Err(e);
        },
    };
    let name = slice_text(src, na, nb);
    let node_name = slice_text(src, na, nb);
    let node_value = v.copy();
    match env.declare(constant, name, v) {
        Ok(()) => {},
        Err(e) => {
            return Err(e);
        },
    }
    let node = if constant {
        ASTNode::Const { declared_type: kind, name: node_name, value: node_value }
    } else {
        ASTNode::Let { declared_type: kind, name: node_name, value: node_value }
    };
    Ok((q, Some(node)))
}

fn shout_exec(src: &Vec<char>, toks: &mut Vec<TokenList>, pos: usize, env: &Env) -> (r: Result<
    (usize, Option<ASTNode>),
    LangError,
>)
    requires
        tokens_wf(old(toks)@, src@),
    ensures
        match shout(src@, old(toks)@, pos as int, env@) {
            Ok(step) => r matches Ok((q, n)) && step_is(
                step,
                q,
                n,
                final(toks)@,
                env@,
                src@,
                old(toks)@.len() as int,
            ) && pos < q <= old(toks)@.len(),
            Err(e) => r == Err::<(usize, Option<ASTNode>), LangError>(e),
        },
{
    if pos >= toks.len() || toks.len() - pos <= 1 {
        return Err(LangError::SyntaxError);
    }
    let p = pos + 1;
    match toks[p] {
        TokenList::Str(a, b) => {
            assert(token_wf(toks@[p as int], src@));
            Ok((p + 1, Some(ASTNode::Shout { text: slice_text(src, a, b), is_identifier: false })))
        },
        TokenList::Ident(a, b) => {
            assert(token_wf(toks@[p as int], src@));
            let name = slice_text(src, a, b);
            let names_number = match env.get(&name) {
                Some(Value::Num(_)) => true,
                _ => false,
            };
            if names_number {
                match replace_identifiers(toks, src, env, p) {
                    Ok(()) => {},
                    Err(e) => {
                        return Err(e);
                    },
                }
                match evaluate(toks, p) {
                    Ok((v, q)) => Ok(
                        (q, Some(ASTNode::Shout { text: v.render(), is_identifier: false })),
                    ),
                    Err(e) => Err(e),
                }
            } else {
                Ok((p + 1, Some(ASTNode::Shout { text: name, is_identifier: true })))
            }
        },
        TokenList::Num(_) | TokenList::Open => {
            match replace_identifiers(toks, src, env, p) {
                Ok(()) => {},
                Err(e) => {
                    return Err(e);
                },
            }
            match evaluate(toks, p) {
                Ok((v, q)) => Ok(
                    (q, Some(ASTNode::Shout { text: v.render(), is_identifier: false })),
                ),
                Err(e) => Err(e),
            }
        },
        _ => Err(LangError::SyntaxError),
    }
}

fn condition_exec(src: &Vec<char>, toks: &mut Vec<TokenList>, p: usize, env: &Env) -> (r: Result<
    (bool, usize),
    LangError,
>)
    requires
        tokens_wf(old(toks)@, src@),
    ensures
        match condition(src@, old(toks)@, p as int, env@) {
            Ok((c, after, t2)) => r == Ok::<(bool, usize), LangError>((c, after as usize))
                && final(toks)@ == t2 && tokens_wf(t2, src@) && t2.len() == old(toks)@.len()
                && p < after,
            Err(e) => r == Err::<(bool, usize), LangError>(e),
        },
{
    if p >= toks.len() {
        return Err(LangError::SyntaxError);
    }
    match toks[p] {
        TokenList::Bool(b) => {
            if p + 1 < toks.len() && toks[p + 1] == TokenList::Close {
                Ok((b, p + 2))
            } else {
                Err(LangError::SyntaxError)
            }
        },
        TokenList::Ident(a, b) => {
            assert(token_wf(toks@[p as int], src@));
            let name = slice_text(src, a, b);
            let v = match env.get(&name) {
                None => {
                    return Err(LangError::UnboundIdentifierError);
                },
                Some(v) => v,
            };
            if toks.len() - p <= 2 {
                return Err(LangError::UnsupportedConditionError);
            }
            let neg = match toks[p + 1] {
                TokenList::EqEq => false,
                TokenList::NotEq => true,
                _ => {
                    return Err(LangError::UnsupportedConditionError);
                },
            };
            match v {
                Value::Bool(x) => match toks[p + 2] {
                    TokenList::Bool(y) => if p + 3 < toks.len() && toks[p + 3] == TokenList::Close {
                        Ok(((*x == y) != neg, p + 4))
                    } else {
                        Err(LangError::SyntaxError)
                    },
                    _ => Err(LangError::UnsupportedConditionError),
                },
                Value::Str(x) => match toks[p + 2] {
                    TokenList::Str(c, d) => if p + 3 < toks.len() && toks[p + 3] == TokenList::Close {
                        assert(token_wf(toks@[p + 2], src@));
                        let same = same_text(src, c, d, x);
                        Ok((same != neg, p + 4))
                    } else {
                        Err(LangError::SyntaxError)
                    },
                    _ => Err(LangError::UnsupportedConditionError),
                },
                Value::Num(x) => {
                    let x = *x;
                    match toks[p + 2] {
                        TokenList::Num(_) | TokenList::Ident(_, _) | TokenList::Open => {
                            match replace_identifiers(toks, src, env, p + 2) {
                                Ok(()) => {},
                                Err(e) => {
                                    return Err(e);
                                },
                            }
                            match evaluate(toks, p + 2) {
                                Ok((w, q)) => if q < toks.len() && toks[q] == TokenList::Close {
                                    Ok((x.same(w) != neg, q + 1))
                                } else {
                                    Err(LangError::SyntaxError)
                                },
                                Err(e) => Err(e),
                            }
                        },
                        _ => Err(LangError::UnsupportedConditionError),
                    }
                },
            }
        },
        _ => Err(LangError::UnsupportedConditionError),
    }
}

fn matching_close_exec(toks: &Vec<TokenList>, k0: usize) -> (r: Option<usize>)
    ensures
        match matching_close(toks@, k0 as int, 0) {
            Some(c) => r == Some(c as usize) && k0 <= c < toks@.len(),
            None => r is None,
        },
{
    let mut k = k0;
    let mut d: usize = 0;
    while k < toks.len()
        invariant
            k0 <= k,
            d <= k - k0,
            matching_close(toks@, k0 as int, 0) == matching_close(toks@, k as int, d as nat),
        decreases toks@.len() - k,
    {
        match toks[k] {
            TokenList::Open => {
                d = d + 1;
            },
            TokenList::Close => {
                if d == 0 {
                    return Some(k);
                }
                d = d - 1;
            },
            TokenList::End => {
                return None;
            },
            _ => {},
        }
        k = k + 1;
    }
    None
}

fn slice_tokens(toks: &Vec<TokenList>, start: usize, end: usize) -> (r: Vec<TokenList>)
    requires
        start <= end <= toks@.len(),
    ensures
        r@ == toks@.subrange(start as int, end as int),
{
    let mut r: Vec<TokenList> = Vec::new();
    let mut k = start;
    while k < end
        invariant
            start <= k <= end <= toks@.len(),
            r@ == toks@.subrange(start as int, k as int),
        decreases end - k,
    {
        r.push(toks[k]);
        k = k + 1;
        assert(r@ =~= toks@.subrange(start as int, k as int));
    }
    r
}

fn if_exec(src: &Vec<char>, toks: &mut Vec<TokenList>, pos: usize, env: &Env, depth: usize) -> (r:
    Result<(usize, Option<ASTNode>), LangError>)
    requires
        tokens_wf(old(toks)@, src@),
        depth <= MAX_DEPTH,
    ensures
        match if_statement(src@, old(toks)@, pos as int, env@, depth as nat) {
            Ok(step) => r matches Ok((q, n)) && step_is(
                step,
                q,
                n,
                final(toks)@,
                env@,
                src@,
                old(toks)@.len() as int,
            ) && pos < q <= old(toks)@.len(),
            Err(e) => r == Err::<(usize, Option<ASTNode>), LangError>(e),
        },
    decreases toks@.len(), toks@.len() - pos, 0int,
{
    if pos >= toks.len() || toks.len() - pos <= 1 || toks[pos + 1] != TokenList::Open {
        return Err(LangError::SyntaxError);
    }
    let p = pos + 1;
    let (c, after) = match condition_exec(src, toks, p + 1, env) {
        Ok(x) => x,
        Err(e) => {
            return Err(e);
        },
    };
    if after >= toks.len() || toks[after] != TokenList::Open {
        return Err(LangError::SyntaxError);
    }
    let close = match matching_close_exec(toks, after + 1) {
        Some(k) => k,
        None => {
            return Err(LangError::SyntaxError);
        },
    };
    if !c {
        return Ok((close + 1, None));
    }
    if depth >= MAX_DEPTH {
        return Err(LangError::NestingTooDeep);
    }
    let body = slice_tokens(toks, after + 1, close);
    assert(tokens_wf(body@, src@)) by {
        assert forall|k: int| 0 <= k < body@.len() implies token_wf(#[trigger] body@[k], src@) by {
            assert(body@[k] == toks@[after + 1 + k]);
        }
    }
    let inner = env.duplicate();
    match parse_block(src, body, inner, depth + 1) {
        Ok(nodes) => Ok((close + 1, Some(ASTNode::If { body: nodes }))),
        Err(e) => Err(e),
    }
}

fn statement_exec(
    src: &Vec<char>,
    toks: &mut Vec<TokenList>,
    pos: usize,
    env: &mut Env,
    depth: usize,
) -> (r: Result<(usize, Option<ASTNode>), LangError>)
    requires
        tokens_wf(old(toks)@, src@),
        depth <= MAX_DEPTH,
    ensures
        match statement(src@, old(toks)@, pos as int, old(env)@, depth as nat) {
            Ok(step) => r matches Ok((q, n)) && step_is(
                step,
                q,
                n,
                final(toks)@,
                final(env)@,
                src@,
                old(toks)@.len() as int,
            ) && pos < q <= old(toks)@.len(),
            Err(e) => r == Err::<(usize, Option<ASTNode>), LangError>(e),
        },
    decreases toks@.len(), toks@.len() - pos, 1int,
{
    if pos >= toks.len() {
        return Err(LangError::SyntaxError);
    }
    match toks[pos] {
        TokenList::Shout => shout_exec(src, toks, pos, env),
        TokenList::Let => declaration_exec(src, toks, pos, env, false),
        TokenList::Const => declaration_exec(src, toks, pos, env, true),
        TokenList::If => if_exec(src, toks, pos, env, depth),
        _ => Err(LangError::SyntaxError),
    }
}

proof fn lemma_prepend_nodes(pre: Seq<SNode>, mid: Seq<SNode>, r: Result<Seq<SNode>, LangError>)
    ensures
        prepend_nodes(pre, prepend_nodes(mid, r)) == prepend_nodes(pre + mid, r),
{
    if let Ok(rest) = r {
        assert(pre + (mid + rest) =~= (pre + mid) + rest);
    }
}

proof fn lemma_nodes_view_push(v: Seq<ASTNode>, n: ASTNode)
    ensures
        nodes_view(v.push(n)) == nodes_view(v).push(node_view(n)),
{
    assert(v.push(n).drop_last() =~= v);
}

/// Parses statements from the start of `toks` to their end or to `End`,
/// against the symbol table `env`, inside `depth` blocks.
pub fn parse_block(src: &Vec<char>, toks: Vec<TokenList>, env: Env, depth: usize) -> (r: Result<
    Vec<ASTNode>,
    LangError,
>)
    requires
        tokens_wf(toks@, src@),
        depth <= MAX_DEPTH,
    ensures
        match parse_seq(src@, toks@, 0, env@, depth as nat) {
            Ok(ns) => r matches Ok(v) && nodes_view(v@) == ns,
            Err(e) => r == Err::<Vec<ASTNode>, LangError>(e),
        },
    decreases toks@.len(), toks@.len(), 2int,
{
    let ghost whole = parse_seq(src@, toks@, 0, env@, depth as nat);
    let ghost len = toks@.len();
    let mut ts = toks;
    let mut table = env;
    let mut nodes: Vec<ASTNode> = Vec::new();
    let mut pos: usize = 0;
    assert(whole == prepend_nodes(nodes_view(nodes@), parse_seq(src@, ts@, 0, table@, depth as nat)))
        by {
        assert(nodes_view(nodes@) =~= Seq::<SNode>::empty());
        if let Ok(rest) = parse_seq(src@, ts@, 0, table@, depth as nat) {
            assert(Seq::<SNode>::empty() + rest =~= rest);
        }
    }
    while pos < ts.len() && ts[pos] != TokenList::End
        invariant
            len == toks@.len(),
            whole == parse_seq(src@, toks@, 0, env@, depth as nat),
            ts@.len() == len,
            tokens_wf(ts@, src@),
            depth <= MAX_DEPTH,
            pos <= len,
            whole == prepend_nodes(
                nodes_view(nodes@),
                parse_seq(src@, ts@, pos as int, table@, depth as nat),
            ),
        decreases len - pos,
    {
        match ts[pos] {
            TokenList::Sep => {
                assert(parse_seq(src@, ts@, pos as int, table@, depth as nat) == parse_seq(
                    src@,
                    ts@,
                    pos + 1,
                    table@,
                    depth as nat,
                ));
                pos = pos + 1;
            },
            _ => {
                let ghost before_toks = ts@;
                let ghost before_env = table@;
                match statement_exec(src, &mut ts, pos, &mut table, depth) {
                    Ok((q, n)) => {
                        assert(parse_seq(src@, before_toks, pos as int, before_env, depth as nat)
                            == prepend_nodes(
                            optional(node_opt_view(n)),
                            parse_seq(src@, ts@, q as int, table@, depth as nat),
                        ));
                        proof {
                            lemma_prepend_nodes(
                                nodes_view(nodes@),
                                optional(node_opt_view(n)),
                                parse_seq(src@, ts@, q as int, table@, depth as nat),
                            );
                        }
                        match n {
                            Some(node) => {
                                let ghost nv = nodes_view(nodes@);
                                proof {
                                    lemma_nodes_view_push(nodes@, node);
                                }
                                nodes.push(node);
                                assert(nodes_view(nodes@) =~= nv + optional(node_opt_view(n)));
                            },
                            None => {
                                assert(nodes_view(nodes@) + Seq::<SNode>::empty() =~= nodes_view(
                                    nodes@,
                                ));
                            },
                        }
                        pos = q;
                    },
                    Err(e) => {
                        assert(parse_seq(src@, before_toks, pos as int, before_env, depth as nat)
                            == Err::<Seq<SNode>, LangError>(e));
                        assert(whole == Err::<Seq<SNode>, LangError>(e));
                        return Err(e);
                    },
                }
            },
        }
    }
    assert(parse_seq(src@, ts@, pos as int, table@, depth as nat) == Ok::<Seq<SNode>, LangError>(Seq::empty()));
    assert(nodes_view(nodes@) + Seq::<SNode>::empty() =~= nodes_view(nodes@));
    assert(whole == Ok::<Seq<SNode>, LangError>(nodes_view(nodes@)));
    Ok(nodes)
}

/// Parses a token sequence into statements while keeping the symbol table.
pub struct Parser {
    src: Vec<char>,
    tokens: Vec<TokenList>,
    pos: usize,
    env: Env,
}

impl Parser {
    pub closed spec fn source(&self) -> Seq<char> {
        self.src@
    }

    pub closed spec fn tokens(&self) -> Seq<TokenList> {
        self.tokens@
    }

    pub closed spec fn position(&self) -> int {
        self.pos as int
    }

    pub closed spec fn table(&self) -> Seq<Entry> {
        self.env@
    }

    /// The tokens lie within the source text, and the position within the tokens.
    pub open spec fn wf(&self) -> bool {
        tokens_wf(self.tokens(), self.source()) && 0 <= self.position() <= self.tokens().len()
    }

    /// A parser at the first of `tokens`, whose text ranges refer to `src`,
    /// with the symbol table `env`.
    pub fn new(src: Vec<char>, tokens: Vec<TokenList>, env: Env) -> (r: Parser)
        requires
            tokens_wf(tokens@, src@),
        ensures
            r.wf(),
            r.source() == src@,
            r.tokens() == tokens@,
            r.position() == 0,
            r.table() == env@,
    {
        Parser { src, tokens, pos: 0, env }
    }

    /// Evaluates the arithmetic expression at the current position and moves
    /// past it.
    pub fn parse_math_expr(&mut self) -> (r: Result<Number, LangError>)
        requires
            old(self).wf(),
        ensures
            final(self).wf(),
            final(self).source() == old(self).source(),
            final(self).tokens() == old(self).tokens(),
            final(self).table() == old(self).table(),
            match expr(old(self).tokens(), old(self).position()) {
                Ok((v, q)) => r == Ok::<Number, LangError>(v) && final(self).position() == q,
                Err(e) => r == Err::<Number, LangError>(e) && final(self).position()
                    == old(self).position(),
            },
    {
        match evaluate(&self.tokens, self.pos) {
            Ok((v, q)) => {
                self.pos = q;
                Ok(v)
            },
            Err(e) => Err(e),
        }
    }

    /// Replaces each identifier from the current position up to the next
    /// separator by the number it is bound to.
    pub fn replace_identifiers(&mut self) -> (r: Result<(), LangError>)
        requires
            old(self).wf(),
        ensures
            final(self).source() == old(self).source(),
            final(self).position() == old(self).position(),
            final(self).table() == old(self).table(),
            match substitute(
                old(self).source(),
                old(self).table(),
                old(self).tokens(),
                old(self).position(),
            ) {
                Ok(t) => r is Ok && final(self).tokens() == t && final(self).wf(),
                Err(e) => r == Err::<(), LangError>(e),
            },
    {
        replace_identifiers(&mut self.tokens, &self.src, &self.env, self.pos)
    }

    /// Parses the statements from the current position to the end.
    pub fn parse(&mut self) -> (r: Result<Vec<ASTNode>, LangError>)
        requires
            old(self).wf(),
        ensures
            match parse_seq(
                old(self).source(),
                old(self).tokens().subrange(old(self).position(), old(self).tokens().len() as int),
                0,
                old(self).table(),
                0,
            ) {
                Ok(ns) => r matches Ok(v) && nodes_view(v@) == ns,
                Err(e) => r == Err::<Vec<ASTNode>, LangError>(e),
            },
    {
        let rest = slice_tokens(&self.tokens, self.pos, self.tokens.len());
        assert(tokens_wf(rest@, self.src@)) by {
            assert forall|k: int| 0 <= k < rest@.len() implies token_wf(#[trigger] rest@[k], self.src@) by {
                assert(rest@[k] == self.tokens@[self.pos + k]);
            }
        }
        let table = self.env.duplicate();
        let r = parse_block(&self.src, rest, table, 0);
        self.pos = self.tokens.len();
        r
    }
}

} // verus!
