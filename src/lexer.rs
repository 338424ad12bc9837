//! Turns source text into tokens.
use vstd::prelude::*;
use crate::LangError;
use crate::number::{is_digit, literal_value, parse_literal, Number};
use crate::text::{alphanumeric, is_alphanumeric, is_ascii_letter, same_text};

verus! {

/// A token. Text is held as a range of character positions in the source.
#[derive(Clone, Copy, Debug, PartialEq, Eq, Structural)]
pub enum TokenList {
    Num(Number),
    /// The characters between the quotes of a string literal.
    Str(usize, usize),
    Ident(usize, usize),
    Bool(bool),
    Plus,
    Minus,
    Star,
    Slash,
    Assign,
    EqEq,
    NotEq,
    Let,
    Const,
    Shout,
    If,
    Open,
    Close,
    Sep,
    End,
}

pub open spec fn is_space(c: char) -> bool {
    c == ' ' || c == '\n' || c == '\t' || c == '\r'
}

/// The token of a character that stands alone.
pub open spec fn single_token(c: char) -> Option<TokenList> {
    if c == '+' {
        Some(TokenList::Plus)
    } else if c == '-' {
        Some(TokenList::Minus)
    } else if c == '*' {
        Some(TokenList::Star)
    } else if c == '/' {
        Some(TokenList::Slash)
    } else if c == '(' {
        Some(TokenList::Open)
    } else if c == ')' {
        Some(TokenList::Close)
    } else if c == ',' {
        Some(TokenList::Sep)
    } else {
        None
    }
}

/// The end of the run of alphanumeric characters from `i`.
pub open spec fn word_end(s: Seq<char>, i: int) -> int
    decreases s.len() - i,
{
    if 0 <= i < s.len() && alphanumeric(s[i]) {
        word_end(s, i + 1)
    } else {
        i
    }
}

/// The end of the run of digits and dots from `i`.
pub open spec fn number_end(s: Seq<char>, i: int) -> int
    decreases s.len() - i,
{
    if 0 <= i < s.len() && (is_digit(s[i]) || s[i] == '.') {
        number_end(s, i + 1)
    } else {
        i
    }
}

/// The position of the first quote at or after `i`, or the end of the text.
pub open spec fn quote_at(s: Seq<char>, i: int) -> int
    decreases s.len() - i,
{
    if 0 <= i < s.len() && s[i] != '"' {
        quote_at(s, i + 1)
    } else {
        i
    }
}

pub open spec fn count_dots(cs: Seq<char>) -> nat
    decreases cs.len(),
{
    if cs.len() == 0 {
        0
    } else {
        count_dots(cs.drop_last()) + if cs.last() == '.' { 1nat } else { 0nat }
    }
}

/// The token of the word `s[i..j]`: a keyword, a boolean or an identifier.
pub open spec fn word_token(s: Seq<char>, i: int, j: int) -> TokenList {
    let w = s.subrange(i, j);
    if w == seq!['s', 'h', 'o', 'u', 't'] {
        TokenList::Shout
    } else if w == seq!['l', 'e', 't'] {
        TokenList::Let
    } else if w == seq!['c', 'o', 'n', 's', 't'] {
        TokenList::Const
    } else if w == seq!['i', 'f'] {
        TokenList::If
    } else if w == seq!['T', 'r', 'u', 'e'] {
        TokenList::Bool(true)
    } else if w == seq!['F', 'a', 'l', 's', 'e'] {
        TokenList::Bool(false)
    } else {
        TokenList::Ident(i as usize, j as usize)
    }
}

pub open spec fn prepend(ts: Seq<TokenList>, r: Result<Seq<TokenList>, LangError>) -> Result<
    Seq<TokenList>,
    LangError,
> {
    match r {
        Ok(rest) => Ok(ts + rest),
        Err(e) => Err(e),
    }
}

/// The tokens of `s` from position `i` on, ending with `End`.
pub open spec fn lex_from(s: Seq<char>, i: int) -> Result<Seq<TokenList>, LangError>
    decreases s.len() - i,
{
    if i < 0 || i >= s.len() {
        Ok(seq![TokenList::End])
    } else {
        let c = s[i];
        if is_space(c) {
            lex_from(s, i + 1)
        } else if single_token(c) is Some {
            prepend(seq![single_token(c)->0], lex_from(s, i + 1))
        } else if c == '=' {
            if i + 1 < s.len() && s[i + 1] == '=' {
                prepend(seq![TokenList::EqEq], lex_from(s, i + 2))
            } else {
                prepend(seq![TokenList::Assign], lex_from(s, i + 1))
            }
        } else if c == '!' {
            if i + 1 < s.len() && s[i + 1] == '=' {
                prepend(seq![TokenList::NotEq], lex_from(s, i + 2))
            } else {
                Err(LangError::LexError)
            }
        } else if is_ascii_letter(c) {
            let j = word_end(s, i + 1);
            if j <= i || j > s.len() {
                Err(LangError::LexError)
            } else {
                prepend(seq![word_token(s, i, j)], lex_from(s, j))
            }
        } else if is_digit(c) {
            let j = number_end(s, i + 1);
            if j <= i || j > s.len() {
                Err(LangError::LexError)
            } else if count_dots(s.subrange(i, j)) > 1 {
                Err(LangError::LexError)
            } else {
                match literal_value(s.subrange(i, j)) {
                    Some(x) => prepend(seq![TokenList::Num(x)], lex_from(s, j)),
                    None => Err(LangError::ArithmeticError),
                }
            }
        } else if c == '"' {
            let j = quote_at(s, i + 1);
            if j <= i || j > s.len() {
                Err(LangError::LexError)
            } else {
                prepend(
                    seq![TokenList::Str((i + 1) as usize, j as usize)],
                    lex_from(s, if j < s.len() { j + 1 } else { j }),
                )
            }
        } else {
            Err(LangError::LexError)
        }
    }
}

/// The tokens of the whole source.
pub open spec fn lex(s: Seq<char>) -> Result<Seq<TokenList>, LangError> {
    lex_from(s, 0)
}

fn word_token_exec(s: &Vec<char>, i: usize, j: usize) -> (t: TokenList)
    requires
        i <= j <= s@.len(),
    ensures
        t == word_token(s@, i as int, j as int),
{
    if same_text(s, i, j, &vec!['s', 'h', 'o', 'u', 't']) {
        TokenList::Shout
    } else if same_text(s, i, j, &vec!['l', 'e', 't']) {
        TokenList::Let
    } else if same_text(s, i, j, &vec!['c', 'o', 'n', 's', 't']) {
        TokenList::Const
    } else if same_text(s, i, j, &vec!['i', 'f']) {
        TokenList::If
    } else if same_text(s, i, j, &vec!['T', 'r', 'u', 'e']) {
        TokenList::Bool(true)
    } else if same_text(s, i, j, &vec!['F', 'a', 'l', 's', 'e']) {
        TokenList::Bool(false)
    } else {
        TokenList::Ident(i, j)
    }
}

proof fn lemma_prepend_assoc(out: Seq<TokenList>, ts: Seq<TokenList>, r: Result<Seq<TokenList>, LangError>)
    ensures
        prepend(out, prepend(ts, r)) == prepend(out + ts, r),
{
    if let Ok(rest) = r {
        assert(out + (ts + rest) =~= (out + ts) + rest);
    }
}

/// The ranges of text in the tokens lie within the source.
pub open spec fn tokens_wf(toks: Seq<TokenList>, src: Seq<char>) -> bool {
    forall|k: int| 0 <= k < toks.len() ==> token_wf(#[trigger] toks[k], src)
}

pub open spec fn token_wf(t: TokenList, src: Seq<char>) -> bool {
    match t {
        TokenList::Str(a, b) => a <= b <= src.len(),
        TokenList::Ident(a, b) => a <= b <= src.len(),
        _ => true,
    }
}

/// Splits `src` into tokens, ending with `End`.
pub fn tokenize(src: &Vec<char>) -> (r: Result<Vec<TokenList>, LangError>)
    ensures
        match r {
            Ok(ts) => lex(src@) == Ok::<Seq<TokenList>, LangError>(ts@) && tokens_wf(ts@, src@),
            Err(e) => lex(src@) == Err::<Seq<TokenList>, LangError>(e),
        },
{
    let n = src.len();
    let mut out: Vec<TokenList> = Vec::new();
    let mut i: usize = 0;
    while i < n
        invariant
            n == src@.len(),
            i <= n,
            lex(src@) == prepend(out@, lex_from(src@, i as int)),
            tokens_wf(out@, src@),
        decreases n - i,
    {
        let ghost before = out@;
        let c = src[i];
        if c == ' ' || c == '\n' || c == '\t' || c == '\r' {
            i = i + 1;
            continue;
        }
        let single = if c == '+' {
            Some(TokenList::Plus)
        } else if c == '-' {
            Some(TokenList::Minus)
        } else if c == '*' {
            Some(TokenList::Star)
        } else if c == '/' {
            Some(TokenList::Slash)
        } else if c == '(' {
            Some(TokenList::Open)
        } else if c == ')' {
            Some(TokenList::Close)
        } else if c == ',' {
            Some(TokenList::Sep)
        } else {
            None
        };
        assert(single == single_token(c));
        let t: TokenList;
        let next: usize;
        if let Some(tk) = single {
            t = tk;
            next = i + 1;
        } else if c == '=' {
            if i + 1 < n && src[i + 1] == '=' {
                t = TokenList::EqEq;
                next = i + 2;
            } else {
                t = TokenList::Assign;
                next = i + 1;
            }
        } else if c == '!' {
            if i + 1 < n && src[i + 1] == '=' {
                t = TokenList::NotEq;
                next = i + 2;
            } else {
                return Err(LangError::LexError);
            }
        } else if ('a' <= c && c <= 'z') || ('A' <= c && c <= 'Z') {
            let mut j = i + 1;
            while j < n && is_alphanumeric(src[j])
                invariant
                    n == src@.len(),
                    i < j <= n,
                    word_end(src@, i + 1) == word_end(src@, j as int),
                decreases n - j,
            {
                j = j + 1;
            }
            t = word_token_exec(src, i, j);
            next = j;
        } else if '0' <= c && c <= '9' {
            let mut j = i + 1;
            let mut dots: usize = 0;
            assert(src@.subrange(i as int, i + 1).drop_last() =~= Seq::<char>::empty());
            assert(count_dots(Seq::<char>::empty()) == 0);
            assert(src@.subrange(i as int, i + 1).last() == c);
            while j < n && (('0' <= src[j] && src[j] <= '9') || src[j] == '.')
                invariant
                    n == src@.len(),
                    i < j <= n,
                    number_end(src@, i + 1) == number_end(src@, j as int),
                    dots == count_dots(src@.subrange(i as int, j as int)),
                    dots <= j - i,
                    forall|k: int| i <= k < j ==> is_digit(#[trigger] src@[k]) || src@[k] == '.',
                decreases n - j,
            {
                assert(src@.subrange(i as int, j + 1).drop_last() =~= src@.subrange(
                    i as int,
                    j as int,
                ));
                if src[j] == '.' {
                    dots = dots + 1;
                }
                j = j + 1;
            }
            if dots > 1 {
                return Err(LangError::LexError);
            }
            match parse_literal(src, i, j) {
                Some(x) => {
                    t = TokenList::Num(x);
                },
                None => {
                    return Err(LangError::ArithmeticError);
                },
            }
            next = j;
        } else if c == '"' {
            let mut j = i + 1;
            while j < n && src[j] != '"'
                invariant
                    n == src@.len(),
                    i < j <= n,
                    quote_at(src@, i + 1) == quote_at(src@, j as int),
                decreases n - j,
            {
                j = j + 1;
            }
            t = TokenList::Str(i + 1, j);
            next = if j < n {
                j + 1
            } else {
                j
            };
        } else {
            return Err(LangError::LexError);
        }
        proof {
            lemma_prepend_assoc(before, seq![t], lex_from(src@, next as int));
        }
        assert(token_wf(t, src@));
        out.push(t);
        assert(before + seq![t] =~= out@);
        assert(tokens_wf(out@, src@)) by {
            assert forall|k: int| 0 <= k < out@.len() implies token_wf(#[trigger] out@[k], src@) by {
                if k < before.len() {
                    assert(out@[k] == before[k]);
                }
            }
        }
        i = next;
    }
    let ghost before = out@;
    out.push(TokenList::End);
    assert(out@ =~= before + seq![TokenList::End]);
    assert(tokens_wf(out@, src@)) by {
        assert forall|k: int| 0 <= k < out@.len() implies token_wf(#[trigger] out@[k], src@) by {
            if k < before.len() {
                assert(out@[k] == before[k]);
            }
        }
    }
    Ok(out)
}

} // verus!
