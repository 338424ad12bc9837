//! Arithmetic over tokens, evaluated as it is parsed, and the substitution
//! of numeric variables by their values.
use vstd::prelude::*;
use crate::LangError;
use crate::env::{lookup, Entry, Env, SValue, Value};
use crate::lexer::{token_wf, tokens_wf, TokenList};
use crate::number::{add_spec, div_spec, mul_spec, sub_spec, Number};
use crate::text::slice_text;

verus! {

/// `a op b` for an arithmetic operator token.
pub open spec fn apply(op: TokenList, a: Number, b: Number) -> Option<Number> {
    match op {
        TokenList::Plus => add_spec(a, b),
        TokenList::Minus => sub_spec(a, b),
        TokenList::Star => mul_spec(a, b),
        _ => div_spec(a, b),
    }
}

pub open spec fn is_additive(t: TokenList) -> bool {
    t is Plus || t is Minus
}

pub open spec fn is_multiplicative(t: TokenList) -> bool {
    t is Star || t is Slash
}

/// `atom := NUMBER | '(' expr ')'`: its value and the position after it.
pub open spec fn atom(toks: Seq<TokenList>, pos: int) -> Result<(Number, int), LangError>
    decreases toks.len() - pos, 0int,
{
    if pos < 0 || pos >= toks.len() {
        Err(LangError::SyntaxError)
    } else {
        match toks[pos] {
            TokenList::Num(x) => Ok((x, pos + 1)),
            TokenList::Open => match expr(toks, pos + 1) {
                Ok((v, p)) => if pos < p < toks.len() && toks[p] is Close {
                    Ok((v, p + 1))
                } else {
                    Err(LangError::SyntaxError)
                },
                Err(e) => Err(e),
            },
            _ => Err(LangError::SyntaxError),
        }
    }
}

/// The rest of a term from `pos`, where `acc` is the value so far.
pub open spec fn term_rest(toks: Seq<TokenList>, pos: int, acc: Number) -> Result<
    (Number, int),
    LangError,
>
    decreases toks.len() - pos, 0int,
{
    if 0 <= pos < toks.len() && is_multiplicative(toks[pos]) {
        match atom(toks, pos + 1) {
            Ok((v, p)) => match apply(toks[pos], acc, v) {
                Some(r) => if pos < p <= toks.len() {
                    term_rest(toks, p, r)
                } else {
                    Err(LangError::SyntaxError)
                },
                None => Err(LangError::ArithmeticError),
            },
            Err(e) => Err(e),
        }
    } else {
        Ok((acc, pos))
    }
}

/// `term := atom (('*'|'/') atom)*`
pub open spec fn term(toks: Seq<TokenList>, pos: int) -> Result<(Number, int), LangError>
    decreases toks.len() - pos, 1int,
{
    if pos < 0 || pos >= toks.len() {
        Err(LangError::SyntaxError)
    } else {
        match atom(toks, pos) {
            Ok((v, p)) => if pos < p <= toks.len() {
                term_rest(toks, p, v)
            } else {
                Err(LangError::SyntaxError)
            },
            Err(e) => Err(e),
        }
    }
}

/// The rest of an expression from `pos`, where `acc` is the value so far.
pub open spec fn expr_rest(toks: Seq<TokenList>, pos: int, acc: Number) -> Result<
    (Number, int),
    LangError,
>
    decreases toks.len() - pos, 0int,
{
    if 0 <= pos < toks.len() && is_additive(toks[pos]) {
        match term(toks, pos + 1) {
            Ok((v, p)) => match apply(toks[pos], acc, v) {
                Some(r) => if pos < p <= toks.len() {
                    expr_rest(toks, p, r)
                } else {
                    Err(LangError::SyntaxError)
                },
                None => Err(LangError::ArithmeticError),
            },
            Err(e) => Err(e),
        }
    } else {
        Ok((acc, pos))
    }
}

/// `expr := term (('+'|'-') term)*`: its value and the position after it.
pub open spec fn expr(toks: Seq<TokenList>, pos: int) -> Result<(Number, int), LangError>
    decreases toks.len() - pos, 2int,
{
    if pos < 0 || pos >= toks.len() {
        Err(LangError::SyntaxError)
    } else {
        match term(toks, pos) {
            Ok((v, p)) => if pos < p <= toks.len() {
                expr_rest(toks, p, v)
            } else {
                Err(LangError::SyntaxError)
            },
            Err(e) => Err(e),
        }
    }
}

fn apply_exec(op: TokenList, a: Number, b: Number) -> (r: Option<Number>)
    ensures
        r == apply(op, a, b),
{
    match op {
        TokenList::Plus => a.add(b),
        TokenList::Minus => a.sub(b),
        TokenList::Star => a.mul(b),
        _ => a.div(b),
    }
}

fn atom_exec(toks: &Vec<TokenList>, pos: usize) -> (r: Result<(Number, usize), LangError>)
    ensures
        r matches Ok((v, p)) ==> atom(toks@, pos as int) == Ok::<(Number, int), LangError>(
            (v, p as int),
        ) && pos < p <= toks@.len(),
        r matches Err(e) ==> atom(toks@, pos as int) == Err::<(Number, int), LangError>(e),
    decreases toks@.len() - pos, 0int,
{
    if pos >= toks.len() {
        return Err(LangError::SyntaxError);
    }
    match toks[pos] {
        TokenList::Num(x) => Ok((x, pos + 1)),
        TokenList::Open => match expr_exec(toks, pos + 1) {
            Ok((v, p)) => if p < toks.len() && toks[p] == TokenList::Close {
                Ok((v, p + 1))
            } else {
                Err(LangError::SyntaxError)
            },
            Err(e) => Err(e),
        },
        _ => Err(LangError::SyntaxError),
    }
}

fn term_exec(toks: &Vec<TokenList>, pos: usize) -> (r: Result<(Number, usize), LangError>)
    ensures
        r matches Ok((v, p)) ==> term(toks@, pos as int) == Ok::<(Number, int), LangError>(
            (v, p as int),
        ) && pos < p <= toks@.len(),
        r matches Err(e) ==> term(toks@, pos as int) == Err::<(Number, int), LangError>(e),
    decreases toks@.len() - pos, 1int,
{
    if pos >= toks.len() {
        return Err(LangError::SyntaxError);
    }
    let first = atom_exec(toks, pos);
    let (mut acc, mut p) = match first {
        Ok(x) => x,
        Err(e) => {
            return Err(e);
        },
    };
    while p < toks.len() && (toks[p] == TokenList::Star || toks[p] == TokenList::Slash)
        invariant
            pos < p <= toks@.len(),
            term(toks@, pos as int) == term_rest(toks@, p as int, acc),
        decreases toks@.len() - p,
    {
        let op = toks[p];
        match atom_exec(toks, p + 1) {
            Ok((v, q)) => match apply_exec(op, acc, v) {
                Some(r) => {
                    acc = r;
                    p = q;
                },
                None => {
                    return Err(LangError::ArithmeticError);
                },
            },
            Err(e) => {
                return Err(e);
            },
        }
    }
    Ok((acc, p))
}

fn expr_exec(toks: &Vec<TokenList>, pos: usize) -> (r: Result<(Number, usize), LangError>)
    ensures
        r matches Ok((v, p)) ==> expr(toks@, pos as int) == Ok::<(Number, int), LangError>(
            (v, p as int),
        ) && pos < p <= toks@.len(),
        r matches Err(e) ==> expr(toks@, pos as int) == Err::<(Number, int), LangError>(e),
    decreases toks@.len() - pos, 2int,
{
    if pos >= toks.len() {
        return Err(LangError::SyntaxError);
    }
    let first = term_exec(toks, pos);
    let (mut acc, mut p) = match first {
        Ok(x) => x,
        Err(e) => {
            return Err(e);
        },
    };
    while p < toks.len() && (toks[p] == TokenList::Plus || toks[p] == TokenList::Minus)
        invariant
            pos < p <= toks@.len(),
            expr(toks@, pos as int) == expr_rest(toks@, p as int, acc),
        decreases toks@.len() - p,
    {
        let op = toks[p];
        match term_exec(toks, p + 1) {
            Ok((v, q)) => match apply_exec(op, acc, v) {
                Some(r) => {
                    acc = r;
                    p = q;
                },
                None => {
                    return Err(LangError::ArithmeticError);
                },
            },
            Err(e) => {
                return Err(e);
            },
        }
    }
    Ok((acc, p))
}

/// Evaluates the arithmetic expression at `pos`: its value and the position
/// after it.
pub fn evaluate(toks: &Vec<TokenList>, pos: usize) -> (r: Result<(Number, usize), LangError>)
    ensures
        r matches Ok((v, p)) ==> expr(toks@, pos as int) == Ok::<(Number, int), LangError>(
            (v, p as int),
        ) && pos < p <= toks@.len(),
        r matches Err(e) ==> expr(toks@, pos as int) == Err::<(Number, int), LangError>(e),
{
    expr_exec(toks, pos)
}

/// Multiplication binds tighter than addition: `a + b * c` is `a + (b * c)`.
pub proof fn lemma_product_binds_tighter(a: Number, b: Number, c: Number)
    ensures
        expr(
            seq![
                TokenList::Num(a),
                TokenList::Plus,
                TokenList::Num(b),
                TokenList::Star,
                TokenList::Num(c),
            ],
            0,
        ) == match mul_spec(b, c) {
            Some(m) => match add_spec(a, m) {
                Some(r) => Ok::<(Number, int), LangError>((r, 5)),
                None => Err(LangError::ArithmeticError),
            },
            None => Err(LangError::ArithmeticError),
        },
{
    let t = seq![
        TokenList::Num(a),
        TokenList::Plus,
        TokenList::Num(b),
        TokenList::Star,
        TokenList::Num(c),
    ];
    assert(atom(t, 0) == Ok::<(Number, int), LangError>((a, 1)));
    assert(term_rest(t, 1, a) == Ok::<(Number, int), LangError>((a, 1)));
    assert(term(t, 0) == Ok::<(Number, int), LangError>((a, 1)));
    assert(atom(t, 2) == Ok::<(Number, int), LangError>((b, 3)));
    assert(atom(t, 4) == Ok::<(Number, int), LangError>((c, 5)));
    if let Some(m) = mul_spec(b, c) {
        assert(term_rest(t, 5, m) == Ok::<(Number, int), LangError>((m, 5)));
        assert(term_rest(t, 3, b) == Ok::<(Number, int), LangError>((m, 5)));
        assert(term(t, 2) == Ok::<(Number, int), LangError>((m, 5)));
        if let Some(r) = add_spec(a, m) {
            assert(expr_rest(t, 5, r) == Ok::<(Number, int), LangError>((r, 5)));
        }
    } else {
        assert(term_rest(t, 3, b) == Err::<(Number, int), LangError>(LangError::ArithmeticError));
        assert(term(t, 2) == Err::<(Number, int), LangError>(LangError::ArithmeticError));
    }
}

/// The position of the first separator at or after `pos`, or the end.
pub open spec fn sep_at(toks: Seq<TokenList>, pos: int) -> int
    decreases toks.len() - pos,
{
    if 0 <= pos < toks.len() && !(toks[pos] is Sep) {
        sep_at(toks, pos + 1)
    } else {
        pos
    }
}

proof fn lemma_sep_at_after(toks: Seq<TokenList>, pos: int)
    ensures
        sep_at(toks, pos) >= pos,
        0 <= pos <= toks.len() ==> sep_at(toks, pos) <= toks.len(),
    decreases toks.len() - pos,
{
    if 0 <= pos < toks.len() && !(toks[pos] is Sep) {
        lemma_sep_at_after(toks, pos + 1);
    }
}

/// The number that an identifier token names, where it names a number.
pub open spec fn ident_value(src: Seq<char>, env: Seq<Entry>, t: TokenList) -> Option<Number> {
    match t {
        TokenList::Ident(a, b) => match lookup(env, src.subrange(a as int, b as int)) {
            Some((SValue::Num(x), _)) => Some(x),
            _ => None,
        },
        _ => None,
    }
}

/// Every identifier from `pos` up to the next separator replaced by the
/// number it names; an error where one of them names no number.
pub open spec fn substitute(src: Seq<char>, env: Seq<Entry>, toks: Seq<TokenList>, pos: int) -> Result<
    Seq<TokenList>,
    LangError,
> {
    let end = sep_at(toks, pos);
    if exists|k: int|
        pos <= k < end && #[trigger] toks[k] is Ident && ident_value(src, env, toks[k]) is None {
        Err(LangError::UnboundIdentifierError)
    } else {
        Ok(
            Seq::new(
                toks.len(),
                |k: int|
                    if pos <= k < end && toks[k] is Ident {
                        TokenList::Num(ident_value(src, env, toks[k])->0)
                    } else {
                        toks[k]
                    },
            ),
        )
    }
}

/// Substitution fails with an unbound identifier wherever an identifier
/// between `pos` and the next separator is not bound to a number.
pub proof fn lemma_substitute_rejects_unbound(
    src: Seq<char>,
    env: Seq<Entry>,
    toks: Seq<TokenList>,
    pos: int,
    k: int,
)
    requires
        pos <= k < sep_at(toks, pos),
        toks[k] is Ident,
        ident_value(src, env, toks[k]) is None,
    ensures
        substitute(src, env, toks, pos) == Err::<Seq<TokenList>, LangError>(
            LangError::UnboundIdentifierError,
        ),
{
}

/// Replaces each identifier from `pos` up to the next separator by the
/// number it names.
pub fn replace_identifiers(toks: &mut Vec<TokenList>, src: &Vec<char>, env: &Env, pos: usize) -> (r:
    Result<(), LangError>)
    requires
        tokens_wf(old(toks)@, src@),
    ensures
        match substitute(src@, env@, old(toks)@, pos as int) {
            Ok(t) => r is Ok && final(toks)@ == t && tokens_wf(t, src@),
            Err(e) => r == Err::<(), LangError>(e),
        },
{
    let ghost orig = old(toks)@;
    let ghost end = sep_at(orig, pos as int);
    proof {
        lemma_sep_at_after(orig, pos as int);
    }
    let mut k = pos;
    while k < toks.len() && toks[k] != TokenList::Sep
        invariant
            orig == old(toks)@,
            tokens_wf(orig, src@),
                end == sep_at(orig, pos as int),
            toks@.len() == orig.len(),
            pos <= k,
            k <= orig.len() || k == pos,
            sep_at(orig, k as int) == end,
            forall|j: int| pos <= j < k ==> !(#[trigger] orig[j] is Sep),
            forall|j: int|
                pos <= j < k ==> (#[trigger] orig[j] is Ident ==> ident_value(src@, env@, orig[j]) is Some),
            forall|j: int|
                0 <= j < orig.len() ==> #[trigger] toks@[j] == if pos <= j < k && orig[j] is Ident {
                    TokenList::Num(ident_value(src@, env@, orig[j])->0)
                } else {
                    orig[j]
                },
        decreases toks@.len() - k,
    {
        assert(toks@[k as int] == orig[k as int]);
        if let TokenList::Ident(a, b) = toks[k] {
            assert(token_wf(orig[k as int], src@));
            let name = slice_text(src, a, b);
            match env.get(&name) {
                Some(Value::Num(x)) => {
                    toks.set(k, TokenList::Num(*x));
                },
                _ => {
                    proof {
                        lemma_sep_at_after(orig, k + 1);
                        assert(pos <= k < end && orig[k as int] is Ident && ident_value(
                            src@,
                            env@,
                            orig[k as int],
                        ) is None);
                    }
                    return Err(LangError::UnboundIdentifierError);
                },
            }
        }
        k = k + 1;
    }
    proof {
        assert(k == end);
        assert(toks@ =~= substitute(src@, env@, orig, pos as int)->Ok_0);
        assert forall|j: int| 0 <= j < toks@.len() implies token_wf(#[trigger] toks@[j], src@) by {
            assert(token_wf(orig[j], src@));
        }
    }
    Ok(())
}

} // verus!
