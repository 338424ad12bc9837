//! Executes statements against an environment, collecting what they print.
use vstd::prelude::*;
use crate::LangError;
use crate::ast::{node_view, nodes_view, ASTNode, SNode};
use crate::env::{
    copy_text, declare, lemma_declared_value_is_bound, lookup, Entry, Env, Kind, SValue, Value,
};
use crate::number::{render, Number};

verus! {

/// What executing statements leaves: the environment, the lines printed,
/// and the error that stopped execution, if one did.
pub struct Run {
    pub env: Seq<Entry>,
    pub out: Seq<Seq<char>>,
    pub err: Option<LangError>,
}

/// How `shout` prints a value.
pub open spec fn show(v: SValue) -> Seq<char> {
    match v {
        SValue::Str(s) => s,
        SValue::Num(x) => render(x),
        SValue::Bool(b) => if b {
            seq!['T', 'r', 'u', 'e']
        } else {
            seq!['F', 'a', 'l', 's', 'e']
        },
    }
}

/// Executes one statement. A block runs against a copy of the environment,
/// which is then dropped: only what it printed remains.
pub open spec fn exec_node(env: Seq<Entry>, n: SNode) -> Run
    decreases n, 0int,
{
    match n {
        SNode::Shout { text, is_identifier } => if !is_identifier {
            Run { env, out: seq![text], err: None }
        } else {
            match lookup(env, text) {
                Some((v, _)) => Run { env, out: seq![show(v)], err: None },
                None => Run { env, out: Seq::empty(), err: Some(LangError::UnboundIdentifierError) },
            }
        },
        SNode::Let { declared_type, name, value } => match declare(env, false, name, value) {
            Ok(e2) => Run { env: e2, out: Seq::empty(), err: None },
            Err(e) => Run { env, out: Seq::empty(), err: Some(e) },
        },
        SNode::Const { declared_type, name, value } => match declare(env, true, name, value) {
            Ok(e2) => Run { env: e2, out: Seq::empty(), err: None },
            Err(e) => Run { env, out: Seq::empty(), err: Some(e) },
        },
        SNode::If { body } => {
            let r = exec_from(env, body, 0);
            Run { env, out: r.out, err: r.err }
        },
    }
}

/// Executes the statements of `ns` from the `i`-th on, stopping at the
/// first error.
pub open spec fn exec_from(env: Seq<Entry>, ns: Seq<SNode>, i: int) -> Run
    decreases ns, ns.len() - i,
{
    if i < 0 || i >= ns.len() {
        Run { env, out: Seq::empty(), err: None }
    } else {
        let r = exec_node(env, ns[i]);
        if r.err is Some {
            r
        } else {
            let rest = exec_from(r.env, ns, i + 1);
            Run { env: rest.env, out: r.out + rest.out, err: rest.err }
        }
    }
}

/// Executes a list of statements.
pub open spec fn exec_all(env: Seq<Entry>, ns: Seq<SNode>) -> Run {
    exec_from(env, ns, 0)
}

/// A block changes no binding outside it: after an `if` the environment is
/// the one it started with, whatever its body declared.
pub proof fn lemma_block_discards_writes(env: Seq<Entry>, body: Seq<SNode>)
    ensures
        exec_node(env, SNode::If { body }).env == env,
{
}

/// A `shout` of a name bound in no store fails as an unbound identifier and
/// prints nothing.
pub proof fn lemma_unbound_shout(env: Seq<Entry>, name: Seq<char>)
    requires
        lookup(env, name) is None,
    ensures
        exec_node(env, SNode::Shout { text: name, is_identifier: true }) == (Run {
            env,
            out: Seq::empty(),
            err: Some(LangError::UnboundIdentifierError),
        }),
{
}

proof fn lemma_exec_from_shift(env: Seq<Entry>, a: Seq<SNode>, b: Seq<SNode>, j: int)
    requires
        0 <= j,
    ensures
        exec_from(env, a + b, a.len() + j) == exec_from(env, b, j),
    decreases b.len() - j,
{
    if j < b.len() {
        assert((a + b)[a.len() + j] == b[j]);
        let r = exec_node(env, b[j]);
        lemma_exec_from_shift(r.env, a, b, j + 1);
    }
}

proof fn lemma_exec_from_concat(env: Seq<Entry>, a: Seq<SNode>, b: Seq<SNode>, i: int)
    requires
        0 <= i <= a.len(),
    ensures
        ({
            let ra = exec_from(env, a, i);
            let rb = exec_from(ra.env, b, 0);
            exec_from(env, a + b, i) == if ra.err is Some {
                ra
            } else {
                Run { env: rb.env, out: ra.out + rb.out, err: rb.err }
            }
        }),
    decreases a.len() - i,
{
    if i == a.len() {
        lemma_exec_from_shift(env, a, b, 0);
        assert(Seq::<Seq<char>>::empty() + exec_from(env, b, 0).out =~= exec_from(env, b, 0).out);
    } else {
        assert((a + b)[i] == a[i]);
        let r = exec_node(env, a[i]);
        if r.err is None {
            lemma_exec_from_concat(r.env, a, b, i + 1);
            let ra1 = exec_from(r.env, a, i + 1);
            let rb = exec_from(ra1.env, b, 0);
            assert(r.out + (ra1.out + rb.out) =~= (r.out + ra1.out) + rb.out);
        }
    }
}

/// Statements run in source order: running `a` followed by `b` prints what
/// `a` prints and then what `b` prints when started from the environment that
/// `a` left; where `a` fails, `b` does not run.
pub proof fn lemma_run_in_order(env: Seq<Entry>, a: Seq<SNode>, b: Seq<SNode>)
    ensures
        ({
            let ra = exec_all(env, a);
            let rb = exec_all(ra.env, b);
            exec_all(env, a + b) == if ra.err is Some {
                ra
            } else {
                Run { env: rb.env, out: ra.out + rb.out, err: rb.err }
            }
        }),
{
    lemma_exec_from_concat(env, a, b, 0);
}

/// The declaration statement `let` (or `const`) `kind name = v`.
pub open spec fn declaration_node(constant: bool, kind: Kind, name: Seq<char>, v: SValue) -> SNode {
    if constant {
        SNode::Const { declared_type: kind, name, value: v }
    } else {
        SNode::Let { declared_type: kind, name, value: v }
    }
}

/// Without blocks, statements run in source order against the bindings made
/// so far: a `shout` of a name just declared prints the declared value.
pub proof fn lemma_shout_after_declaration(
    env: Seq<Entry>,
    constant: bool,
    kind: Kind,
    name: Seq<char>,
    v: SValue,
)
    requires
        declare(env, constant, name, v) is Ok,
    ensures
        exec_all(
            env,
            seq![
                declaration_node(constant, kind, name, v),
                SNode::Shout { text: name, is_identifier: true },
            ],
        ) == (Run {
            env: declare(env, constant, name, v)->Ok_0,
            out: seq![show(v)],
            err: None,
        }),
{
    let ns = seq![
        declaration_node(constant, kind, name, v),
        SNode::Shout { text: name, is_identifier: true },
    ];
    let e2 = declare(env, constant, name, v)->Ok_0;
    lemma_declared_value_is_bound(env, constant, name, v);
    assert(exec_from(e2, ns, 2) == (Run { env: e2, out: Seq::<Seq<char>>::empty(), err: None }));
    assert(exec_node(e2, ns[1]).out == seq![show(v)]);
    assert(exec_from(e2, ns, 1).out =~= seq![show(v)]);
    assert(exec_node(env, ns[0]).out =~= Seq::<Seq<char>>::empty());
    assert(exec_from(env, ns, 0).out =~= seq![show(v)]);
}

pub open spec fn lines_view(v: Seq<Vec<char>>) -> Seq<Seq<char>> {
    Seq::new(v.len(), |i: int| v[i]@)
}

proof fn lemma_nodes_view_index(ns: Seq<ASTNode>)
    ensures
        nodes_view(ns).len() == ns.len(),
        forall|i: int| 0 <= i < ns.len() ==> #[trigger] nodes_view(ns)[i] == node_view(ns[i]),
    decreases ns.len(),
{
    if ns.len() > 0 {
        lemma_nodes_view_index(ns.drop_last());
        assert forall|i: int| 0 <= i < ns.len() implies #[trigger] nodes_view(ns)[i] == node_view(
            ns[i],
        ) by {
            if i < ns.len() - 1 {
                assert(ns.drop_last()[i] == ns[i]);
            }
        }
    }
}

fn show_exec(v: &Value) -> (r: Vec<char>)
    ensures
        r@ == show(v@),
{
    match v {
        Value::Str(s) => copy_text(s),
        Value::Num(x) => x.render(),
        Value::Bool(b) => {
            if *b {
                let r = vec!['T', 'r', 'u', 'e'];
                assert(r@ =~= seq!['T', 'r', 'u', 'e']);
                r
            } else {
                let r = vec!['F', 'a', 'l', 's', 'e'];
                assert(r@ =~= seq!['F', 'a', 'l', 's', 'e']);
                r
            }
        },
    }
}

fn push_line(out: &mut Vec<Vec<char>>, line: Vec<char>)
    ensures
        lines_view(final(out)@) == lines_view(old(out)@).push(line@),
{
    let ghost line_view = line@;
    out.push(line);
    assert(lines_view(final(out)@) =~= lines_view(old(out)@).push(line_view));
}

fn exec_one(env: &mut Env, node: &ASTNode, out: &mut Vec<Vec<char>>) -> (r: Result<(), LangError>)
    ensures
        ({
            let run = exec_node(old(env)@, node_view(*node));
            &&& lines_view(final(out)@) == lines_view(old(out)@) + run.out
            &&& match run.err {
                None => r is Ok && final(env)@ == run.env,
                Some(e) => r == Err::<(), LangError>(e),
            }
        }),
    decreases *node, 0int,
{
    match node {
        ASTNode::Shout { text, is_identifier } => {
            if !*is_identifier {
                push_line(out, copy_text(text));
                assert(lines_view(out@) =~= lines_view(old(out)@) + seq![text@]);
                Ok(())
            } else {
                match env.get(text) {
                    Some(v) => {
                        push_line(out, show_exec(v));
                        assert(lines_view(out@) =~= lines_view(old(out)@) + seq![show(v@)]);
                        Ok(())
                    },
                    None => {
                        assert(lines_view(out@) =~= lines_view(old(out)@) + Seq::empty());
                        Err(LangError::UnboundIdentifierError)
                    },
                }
            }
        },
        ASTNode::Let { declared_type, name, value } => {
            assert(lines_view(out@) =~= lines_view(old(out)@) + Seq::empty());
            env.declare(false, copy_text(name), value.copy())
        },
        ASTNode::Const { declared_type, name, value } => {
            assert(lines_view(out@) =~= lines_view(old(out)@) + Seq::empty());
            env.declare(true, copy_text(name), value.copy())
        },
        ASTNode::If { body } => {
            let mut inner = env.duplicate();
            exec_list(&mut inner, body, out)
        },
    }
}

fn exec_list(env: &mut Env, nodes: &Vec<ASTNode>, out: &mut Vec<Vec<char>>) -> (r: Result<
    (),
    LangError,
>)
    ensures
        ({
            let run = exec_all(old(env)@, nodes_view(nodes@));
            &&& lines_view(final(out)@) == lines_view(old(out)@) + run.out
            &&& match run.err {
                None => r is Ok && final(env)@ == run.env,
                Some(e) => r == Err::<(), LangError>(e),
            }
        }),
    decreases nodes@, 1int,
{
    let ghost ns = nodes_view(nodes@);
    let ghost whole = exec_all(old(env)@, ns);
    let ghost start = lines_view(old(out)@);
    proof {
        lemma_nodes_view_index(nodes@);
    }
    let mut i: usize = 0;
    while i < nodes.len()
        invariant
            ns == nodes_view(nodes@),
            ns.len() == nodes@.len(),
            forall|k: int| 0 <= k < nodes@.len() ==> #[trigger] ns[k] == node_view(nodes@[k]),
            i <= nodes@.len(),
            whole == exec_all(old(env)@, ns),
            start == lines_view(old(out)@),
            ({
                let rest = exec_from(env@, ns, i as int);
                &&& whole.err == rest.err
                &&& whole.env == rest.env
                &&& start + exec_from(old(env)@, ns, 0).out == lines_view(out@) + rest.out
            }),
        decreases nodes@.len() - i,
    {
        let ghost before_env = env@;
        let ghost before_out = lines_view(out@);
        let res = exec_one(env, &nodes[i], out);
        assert(ns[i as int] == node_view(nodes@[i as int]));
        match res {
            Ok(()) => {
                let ghost r1 = exec_node(before_env, ns[i as int]);
                let ghost rest = exec_from(env@, ns, i + 1);
                assert(before_out + (r1.out + rest.out) =~= lines_view(out@) + rest.out);
                i = i + 1;
            },
            Err(e) => {
                let ghost r1 = exec_node(before_env, ns[i as int]);
                assert(exec_from(before_env, ns, i as int) == r1);
                assert(before_out + r1.out == lines_view(out@));
                return Err(e);
            },
        }
    }
    assert(lines_view(out@) + Seq::<Seq<char>>::empty() =~= lines_view(out@));
    Ok(())
}

/// The text bindings of `env`, in order.
pub open spec fn strings_of(env: Seq<Entry>) -> Seq<(Seq<char>, Seq<char>)>
    decreases env.len(),
{
    if env.len() == 0 {
        Seq::empty()
    } else {
        let rest = strings_of(env.drop_last());
        match env.last().1 {
            SValue::Str(s) => rest.push((env.last().0, s)),
            _ => rest,
        }
    }
}

/// The number bindings of `env`, in order.
pub open spec fn numbers_of(env: Seq<Entry>) -> Seq<(Seq<char>, Number)>
    decreases env.len(),
{
    if env.len() == 0 {
        Seq::empty()
    } else {
        let rest = numbers_of(env.drop_last());
        match env.last().1 {
            SValue::Num(x) => rest.push((env.last().0, x)),
            _ => rest,
        }
    }
}

/// Executes statements against its environment.
pub struct Interpreter {
    env: Env,
}

impl Interpreter {
    pub closed spec fn table(&self) -> Seq<Entry> {
        self.env@
    }

    /// An interpreter over the environment `env`.
    pub fn new(env: Env) -> (r: Interpreter)
        ensures
            r.table() == env@,
    {
        Interpreter { env }
    }

    /// The variables bound to text, with their values, in order of first
    /// declaration.
    pub fn get_strings(&self) -> (r: Vec<(Vec<char>, Vec<char>)>)
        ensures
            r@.len() == strings_of(self.table()).len(),
            forall|i: int|
                0 <= i < r@.len() ==> (#[trigger] r@[i]).0@ == strings_of(self.table())[i].0
                    && r@[i].1@ == strings_of(self.table())[i].1,
    {
        let n = self.env.len();
        let mut r: Vec<(Vec<char>, Vec<char>)> = Vec::new();
        let mut i: usize = 0;
        while i < n
            invariant
                n == self.env@.len(),
                i <= n,
                r@.len() == strings_of(self.env@.subrange(0, i as int)).len(),
                forall|k: int|
                    0 <= k < r@.len() ==> (#[trigger] r@[k]).0@ == strings_of(
                        self.env@.subrange(0, i as int),
                    )[k].0 && r@[k].1@ == strings_of(self.env@.subrange(0, i as int))[k].1,
            decreases n - i,
        {
            let ghost pre = self.env@.subrange(0, i as int);
            let ghost next = self.env@.subrange(0, i + 1);
            assert(next.drop_last() =~= pre);
            let (name, value) = self.env.entry(i);
            if let Value::Str(s) = value {
                r.push((copy_text(name), copy_text(s)));
            }
            i = i + 1;
        }
        assert(self.env@.subrange(0, n as int) =~= self.env@);
        r
    }

    /// The variables bound to numbers, with their values, in order of first
    /// declaration.
    pub fn get_floats(&self) -> (r: Vec<(Vec<char>, Number)>)
        ensures
            r@.len() == numbers_of(self.table()).len(),
            forall|i: int|
                0 <= i < r@.len() ==> (#[trigger] r@[i]).0@ == numbers_of(self.table())[i].0
                    && r@[i].1 == numbers_of(self.table())[i].1,
    {
        let n = self.env.len();
        let mut r: Vec<(Vec<char>, Number)> = Vec::new();
        let mut i: usize = 0;
        while i < n
            invariant
                n == self.env@.len(),
                i <= n,
                r@.len() == numbers_of(self.env@.subrange(0, i as int)).len(),
                forall|k: int|
                    0 <= k < r@.len() ==> (#[trigger] r@[k]).0@ == numbers_of(
                        self.env@.subrange(0, i as int),
                    )[k].0 && r@[k].1 == numbers_of(self.env@.subrange(0, i as int))[k].1,
            decreases n - i,
        {
            let ghost pre = self.env@.subrange(0, i as int);
            let ghost next = self.env@.subrange(0, i + 1);
            assert(next.drop_last() =~= pre);
            let (name, value) = self.env.entry(i);
            if let Value::Num(x) = value {
                r.push((copy_text(name), *x));
            }
            i = i + 1;
        }
        assert(self.env@.subrange(0, n as int) =~= self.env@);
        r
    }

    /// Executes `nodes` in order, appending what they print to `out`; stops
    /// at the first error.
    pub fn interpret(&mut self, nodes: &Vec<ASTNode>, out: &mut Vec<Vec<char>>) -> (r: Result<
        (),
        LangError,
    >)
        ensures
            ({
                let run = exec_all(old(self).table(), nodes_view(nodes@));
                &&& lines_view(final(out)@) == lines_view(old(out)@) + run.out
                &&& match run.err {
                    None => r is Ok && final(self).table() == run.env,
                    Some(e) => r == Err::<(), LangError>(e),
                }
            }),
    {
        exec_list(&mut self.env, nodes, out)
    }
}

} // verus!
