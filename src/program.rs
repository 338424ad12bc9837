//! The whole pipeline: source text to printed lines.
use vstd::prelude::*;
use crate::LangError;
use crate::ast::nodes_view;
use crate::env::Env;
use crate::interpreter::{exec_all, lines_view, Interpreter};
use crate::lexer::{lex, tokenize};
use crate::parser::{parse_block, parse_program};
use crate::text::{chars_of, string_of};

verus! {

/// What running a program printed, in order, and the error that stopped it,
/// if one did.
pub struct Outcome {
    pub lines: Vec<String>,
    pub error: Option<LangError>,
}

/// The lines that running the source `src` prints, and the error that stops
/// it. Lexing and parsing finish before anything is printed.
pub open spec fn run_spec(src: Seq<char>) -> (Seq<Seq<char>>, Option<LangError>) {
    match lex(src) {
        Err(e) => (Seq::empty(), Some(e)),
        Ok(toks) => match parse_program(src, toks, Seq::empty()) {
            Err(e) => (Seq::empty(), Some(e)),
            Ok(ns) => {
                let r = exec_all(Seq::empty(), ns);
                (r.out, r.err)
            },
        },
    }
}

pub open spec fn strings_view(v: Seq<String>) -> Seq<Seq<char>> {
    Seq::new(v.len(), |i: int| v[i]@)
}

/// Runs the program whose characters are `src`.
pub fn run_chars(src: &Vec<char>) -> (r: (Vec<Vec<char>>, Option<LangError>))
    ensures
        lines_view(r.0@) == run_spec(src@).0,
        r.1 == run_spec(src@).1,
{
    let mut out: Vec<Vec<char>> = Vec::new();
    assert(lines_view(out@) =~= Seq::<Seq<char>>::empty());
    let toks = match tokenize(src) {
        Ok(t) => t,
        Err(e) => {
            return (out, Some(e));
        },
    };
    let nodes = match parse_block(src, toks, Env::new(), 0) {
        Ok(n) => n,
        Err(e) => {
            return (out, Some(e));
        },
    };
    let mut interpreter = Interpreter::new(Env::new());
    let res = interpreter.interpret(&nodes, &mut out);
    assert(lines_view(out@) =~= exec_all(Seq::empty(), nodes_view(nodes@)).out);
    match res {
        Ok(()) => (out, None),
        Err(e) => (out, Some(e)),
    }
}

/// Runs the program `source`.
pub fn run(source: &str) -> (r: Outcome)
    ensures
        strings_view(r.lines@) == run_spec(source@).0,
        r.error == run_spec(source@).1,
{
    let src = chars_of(source);
    let (lines, error) = run_chars(&src);
    let mut texts: Vec<String> = Vec::new();
    let mut i: usize = 0;
    while i < lines.len()
        invariant
            i <= lines@.len(),
            strings_view(texts@) =~= lines_view(lines@).subrange(0, i as int),
        decreases lines@.len() - i,
    {
        let ghost before = texts@;
        let t = string_of(&lines[i]);
        texts.push(t);
        assert(texts@ == before.push(t));
        assert(strings_view(texts@) =~= strings_view(before).push(lines@[i as int]@));
        i = i + 1;
        assert(strings_view(texts@) =~= lines_view(lines@).subrange(0, i as int));
    }
    assert(lines_view(lines@).subrange(0, i as int) =~= lines_view(lines@));
    Outcome { lines: texts, error }
}

} // verus!
