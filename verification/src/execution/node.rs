//! The evaluation tree and what each of its nodes evaluates to.

use std::sync::Arc;
use vstd::prelude::*;
use crate::context::{Context, ContextView};
use crate::data::{Data, InnerData, document_of, inner_views, lemma_view_inner};
use crate::document::{Document, entry_views, insert_entry, lemma_view, segments};
use crate::error::{Failure, TemplarError};
use crate::execution::operation::{Operation, Operations};
use crate::value::{Value, map_insert, text};

verus! {

/// A filter: a transformation of a piped value under arguments, supplied by
/// the user of the library. What it returns is a function of what it is
/// given.
pub trait Filter {
    /// What the filter makes of `piped` under `args`.
    spec fn apply_spec(&self, piped: Value, args: Value) -> Result<Value, Failure>;

    /// Applies the filter.
    fn apply(&self, piped: Document, args: Document) -> (r: Result<Document, TemplarError>)
        ensures
            match self.apply_spec(piped@, args@) {
                Ok(v) => r is Ok && r->Ok_0@ == v,
                Err(e) => r is Err && r->Err_0@ == e,
            },
    ;
}

/// A function: a transformation of its arguments, supplied by the user of
/// the library. What it returns is a function of what it is given.
pub trait Function {
    /// What the function makes of `args`.
    spec fn call_spec(&self, args: Value) -> Result<Value, Failure>;

    /// Calls the function.
    fn call(&self, args: Document) -> (r: Result<Document, TemplarError>)
        ensures
            match self.call_spec(args@) {
                Ok(v) => r is Ok && r->Ok_0@ == v,
                Err(e) => r is Err && r->Err_0@ == e,
            },
    ;
}

/// A vertex of the evaluation tree.
pub enum Node<F, G> {
    /// A run of nodes: nothing, the one node, or a sequence of them.
    Expr(Vec<Node<F, G>>),
    /// A literal.
    Data(Data),
    /// A node that is evaluated in a scope of its own.
    Scope(Box<Node<F, G>>),
    /// A variable, named by the segments of its path.
    Value(Vec<String>),
    /// A named operation on nodes.
    Operation(Operation<F, G>),
    /// A piped node, the filter it is piped through, and the arguments.
    Filter(Box<(Node<F, G>, Arc<F>, Node<F, G>)>),
    /// A function and its arguments.
    Function(Box<(Arc<G>, Node<F, G>)>),
    /// A sequence literal.
    Array(Vec<Node<F, G>>),
    /// A mapping literal: keys and the nodes that give their values.
    Mapping(Vec<(Document, Node<F, G>)>),
    /// Nothing.
    Empty(),
}

/// The sizes of the given nodes, added up.
pub open spec fn total_size<F, G>(nodes: Seq<Node<F, G>>) -> nat
    decreases nodes,
{
    if nodes.len() == 0 {
        0
    } else {
        total_size(nodes.drop_last()) + nodes.last().size()
    }
}

/// The sizes of the nodes of the given entries, added up.
pub open spec fn total_entry_size<F, G>(entries: Seq<(Document, Node<F, G>)>) -> nat
    decreases entries,
{
    if entries.len() == 0 {
        0
    } else {
        total_entry_size(entries.drop_last()) + entries.last().1.size()
    }
}

impl<F, G> Node<F, G> {
    /// A measure of the tree below this node: every node in it counts for
    /// one, an operation for two. Evaluation descends along it.
    pub open spec fn size(self) -> nat
        decreases self,
    {
        match self {
            Node::Expr(nodes) => 1 + total_size(nodes@),
            Node::Array(nodes) => 1 + total_size(nodes@),
            Node::Scope(inner) => 1 + inner.size(),
            Node::Operation(op) => 2 + total_size(op.nodes@),
            Node::Filter(b) => 1 + b.0.size() + b.2.size(),
            Node::Function(b) => 1 + b.1.size(),
            Node::Mapping(entries) => 1 + total_entry_size(entries@),
            _ => 1,
        }
    }
}

/// No node is larger than the nodes it stands among, taken together.
pub proof fn lemma_size_within<F, G>(nodes: Seq<Node<F, G>>, i: int)
    requires
        0 <= i < nodes.len(),
    ensures
        nodes[i].size() <= total_size(nodes),
    decreases nodes.len(),
{
    if i < nodes.len() - 1 {
        lemma_size_within(nodes.drop_last(), i);
    }
}

/// No node of an entry is larger than the nodes of all entries together.
pub proof fn lemma_entry_size_within<F, G>(entries: Seq<(Document, Node<F, G>)>, i: int)
    requires
        0 <= i < entries.len(),
    ensures
        entries[i].1.size() <= total_entry_size(entries),
    decreases entries.len(),
{
    if i < entries.len() - 1 {
        lemma_entry_size_within(entries.drop_last(), i);
    }
}

/// The total size of up to three nodes is the sum of their sizes.
pub proof fn lemma_total_size_small<F, G>(nodes: Seq<Node<F, G>>)
    ensures
        nodes.len() == 1 ==> total_size(nodes) == nodes[0].size(),
        nodes.len() == 2 ==> total_size(nodes) == nodes[0].size() + nodes[1].size(),
        nodes.len() == 3 ==> total_size(nodes) == nodes[0].size() + nodes[1].size()
            + nodes[2].size(),
{
    reveal_with_fuel(total_size, 4);
    if nodes.len() >= 2 {
        assert(nodes.drop_last().last() == nodes[nodes.len() - 2]);
    }
    if nodes.len() >= 3 {
        assert(nodes.drop_last().drop_last().last() == nodes[nodes.len() - 3]);
    }
}

/// What a filter makes of two evaluated nodes: a failure in the piped
/// value comes first, then one in the arguments, then the filter's own.
pub open spec fn apply_filter<F: Filter>(f: F, piped: Value, args: Value) -> Value {
    match document_of(piped) {
        Err(e) => Value::Error(e),
        Ok(p) => match document_of(args) {
            Err(e) => Value::Error(e),
            Ok(a) => match f.apply_spec(p, a) {
                Ok(v) => v,
                Err(e) => Value::Error(e),
            },
        },
    }
}

/// What a function makes of its evaluated arguments: a failure in the
/// arguments comes first, then the function's own.
pub open spec fn apply_function<G: Function>(g: G, args: Value) -> Value {
    match document_of(args) {
        Err(e) => Value::Error(e),
        Ok(a) => match g.call_spec(a) {
            Ok(v) => v,
            Err(e) => Value::Error(e),
        },
    }
}

/// The nodes from `from` on, evaluated in order, each in the context that
/// the one before left: the sequence of `acc` and their values, or the
/// first value that is itself a failure, at which the evaluation stops.
pub open spec fn eval_items<F: Filter, G: Function>(
    nodes: Seq<Node<F, G>>,
    c: ContextView,
    from: int,
    acc: Seq<Value>,
) -> (Value, ContextView)
    decreases total_size(nodes), 1nat, nodes.len() - from,
{
    if from < 0 || from >= nodes.len() {
        (Value::Sequence(acc), c)
    } else {
        proof {
            lemma_size_within(nodes, from);
        }
        let r = nodes[from].eval(c);
        if r.0 is Error {
            r
        } else {
            eval_items(nodes, r.1, from + 1, acc.push(r.0))
        }
    }
}

/// The entries from `from` on, their nodes evaluated in order: the mapping
/// that binds each key to its value, on top of `acc`, or the first failure
/// that a value holds, at which the evaluation stops.
pub open spec fn eval_entries<F: Filter, G: Function>(
    entries: Seq<(Document, Node<F, G>)>,
    c: ContextView,
    from: int,
    acc: Seq<(Value, Value)>,
) -> (Value, ContextView)
    decreases total_entry_size(entries), 1nat, entries.len() - from,
{
    if from < 0 || from >= entries.len() {
        (Value::Mapping(acc), c)
    } else {
        proof {
            lemma_entry_size_within(entries, from);
        }
        let r = entries[from].1.eval(c);
        match document_of(r.0) {
            Err(e) => (Value::Error(e), r.1),
            Ok(v) => eval_entries(entries, r.1, from + 1, map_insert(acc, entries[from].0@, v)),
        }
    }
}

/// A piped node and arguments, evaluated in this order, and what the
/// filter makes of them.
pub open spec fn filter_eval<F: Filter, G: Function>(
    f: F,
    piped: Node<F, G>,
    args: Node<F, G>,
    c: ContextView,
) -> (Value, ContextView)
    decreases piped.size() + args.size(), 2nat, 0nat,
{
    let p = piped.eval(c);
    let a = args.eval(p.1);
    (apply_filter(f, p.0, a.0), a.1)
}

/// Arguments, evaluated, and what the function makes of them.
pub open spec fn function_eval<F: Filter, G: Function>(
    g: G,
    args: Node<F, G>,
    c: ContextView,
) -> (Value, ContextView)
    decreases args.size(), 2nat, 0nat,
{
    let a = args.eval(c);
    (apply_function(g, a.0), a.1)
}

impl<F: Filter, G: Function> Node<F, G> {
    /// What this node evaluates to in the context `c`, and the context
    /// that the evaluation leaves.
    pub open spec fn eval(self, c: ContextView) -> (Value, ContextView)
        decreases self.size(), 0nat, 0nat,
    {
        match self {
            Node::Data(d) => (d@, c),
            Node::Empty() => (Value::Unit, c),
            Node::Value(path) => (c.get_path(segments(path@)), c),
            Node::Scope(inner) => {
                let r = inner.eval(c.scoped());
                (r.0, r.1.unscoped())
            },
            Node::Expr(nodes) => if nodes@.len() == 0 {
                (Value::Unit, c)
            } else if nodes@.len() == 1 {
                proof {
                    lemma_size_within(nodes@, 0);
                }
                nodes@[0].eval(c)
            } else {
                eval_items(nodes@, c, 0, Seq::empty())
            },
            Node::Array(nodes) => eval_items(nodes@, c, 0, Seq::empty()),
            Node::Mapping(entries) => eval_entries(entries@, c, 0, Seq::empty()),
            Node::Filter(b) => filter_eval(*b.1, b.0, b.2, c),
            Node::Function(b) => function_eval(*b.0, b.1, c),
            Node::Operation(op) => op.eval(c),
        }
    }

    /// The written form of what this node evaluates to, or the first
    /// failure that the value holds; and the context that is left.
    pub open spec fn render_of(self, c: ContextView) -> (Result<Seq<char>, Failure>, ContextView)
        decreases self.size(), 1nat, 0nat,
    {
        match self {
            Node::Empty() => (Ok(Seq::empty()), c),
            _ => {
                let r = self.eval(c);
                match document_of(r.0) {
                    Ok(d) => (Ok(text(d)), r.1),
                    Err(e) => (Err(e), r.1),
                }
            },
        }
    }
}

/// Applies a filter to two evaluated nodes.
pub fn run_filter<F: Filter>(f: &F, piped: Data, args: Data) -> (r: Data)
    ensures
        r@ == apply_filter(*f, piped@, args@),
{
    match piped.into_document() {
        Err(e) => Data::from_error(e),
        Ok(p) => match args.into_document() {
            Err(e) => Data::from_error(e),
            Ok(a) => Data::from_result(f.apply(p, a)),
        },
    }
}

/// Calls a function on its evaluated arguments.
pub fn run_function<G: Function>(g: &G, args: Data) -> (r: Data)
    ensures
        r@ == apply_function(*g, args@),
{
    match args.into_document() {
        Err(e) => Data::from_error(e),
        Ok(a) => Data::from_result(g.call(a)),
    }
}

impl<F: Filter, G: Function> Node<F, G> {
    /// Evaluates this node in `ctx`.
    pub fn exec(&self, ctx: &mut Context) -> (r: Data)
        ensures
            (r@, final(ctx)@) == self.eval(old(ctx)@),
        decreases self.size(), 0nat, 0nat,
    {
        let ghost c0 = ctx@;
        match self {
            Node::Data(d) => d.clone(),
            Node::Expr(nodes) => {
                if nodes.len() == 0 {
                    Data::empty()
                } else if nodes.len() == 1 {
                    proof {
                        lemma_size_within(nodes@, 0);
                    }
                    nodes[0].exec(ctx)
                } else {
                    exec_items(nodes, ctx)
                }
            },
            Node::Value(path) => Data::from_document(ctx.get_path(path)),
            Node::Operation(op) => op.exec(ctx),
            Node::Filter(b) => {
                let p = b.0.exec(ctx);
                let a = b.2.exec(ctx);
                let r = run_filter(&*b.1, p, a);
                assert(filter_eval(*b.1, b.0, b.2, c0) == (apply_filter(*b.1, p@, a@), ctx@));
                r
            },
            Node::Scope(inner) => {
                ctx.scoped();
                let r = inner.exec(ctx);
                ctx.unscoped();
                r
            },
            Node::Array(nodes) => exec_items(nodes, ctx),
            Node::Mapping(entries) => exec_entries(entries, ctx),
            Node::Function(b) => {
                let a = b.1.exec(ctx);
                let r = run_function(&*b.0, a);
                assert(function_eval(*b.0, b.1, c0) == (apply_function(*b.0, a@), ctx@));
                r
            },
            Node::Empty() => Data::empty(),
        }
    }

    /// Turns a run of nodes into the operation `op` on them; any other
    /// node stays as it is.
    pub fn set_operation(self, op: Operations) -> (r: Node<F, G>)
        ensures
            match self {
                Node::Expr(nodes) => r is Operation && op.is_built(r->Operation_0, nodes),
                _ => r == self,
            },
    {
        match self {
            Node::Expr(nodes) => Node::Operation(op.build(nodes)),
            other => other,
        }
    }

    /// This node in a scope of its own.
    pub fn into_scope(self) -> (r: Node<F, G>)
        ensures
            r == Node::Scope(Box::new(self)),
    {
        Node::Scope(Box::new(self))
    }

    /// The document of a literal; a failure for any other node.
    pub fn into_document(self) -> (r: Result<Document, TemplarError>)
        ensures
            match self {
                Node::Data(d) => match document_of(d@) {
                    Ok(v) => r is Ok && r->Ok_0@ == v,
                    Err(e) => r is Err && r->Err_0@ == e,
                },
                _ => r is Err && r->Err_0@ == Failure::Render(
                    "Attempted document conversion on unprocessed node"@,
                ),
            },
    {
        match self {
            Node::Data(d) => d.into_document(),
            _ => Err(TemplarError::render("Attempted document conversion on unprocessed node")),
        }
    }

    /// Evaluates this node in `ctx` and writes the value out.
    pub fn render(&self, ctx: &mut Context) -> (r: Result<String, TemplarError>)
        ensures
            match self.render_of(old(ctx)@).0 {
                Ok(s) => r is Ok && r->Ok_0@ == s,
                Err(e) => r is Err && r->Err_0@ == e,
            },
            final(ctx)@ == self.render_of(old(ctx)@).1,
        decreases self.size(), 1nat, 0nat,
    {
        match self {
            Node::Empty() => Ok(String::new()),
            other => match other.exec(ctx).into_document() {
                Ok(d) => Ok(d.to_text()),
                Err(e) => Err(e),
            },
        }
    }

    /// The node that a run of nodes stands for: nothing for none, the node
    /// itself for one, an expression for more.
    pub fn from_nodes(nodes: Vec<Node<F, G>>) -> (r: Node<F, G>)
        ensures
            nodes@.len() == 0 ==> r == Node::<F, G>::Empty(),
            nodes@.len() == 1 ==> r == nodes@[0],
            nodes@.len() > 1 ==> r == Node::Expr(nodes),
    {
        let mut nodes = nodes;
        if nodes.len() == 0 {
            Node::Empty()
        } else if nodes.len() == 1 {
            nodes.pop().unwrap()
        } else {
            Node::Expr(nodes)
        }
    }

    /// The literal of a document, or of the failure to make one.
    pub fn from_result(doc: Result<Document, TemplarError>) -> (r: Node<F, G>)
        ensures
            r is Data,
            match doc {
                Ok(d) => r->Data_0@ == d@,
                Err(e) => r->Data_0@ == Value::Error(e@),
            },
    {
        match doc {
            Ok(d) => Node::Data(Data::from_document(d)),
            Err(e) => Node::Data(Data::from_error(e)),
        }
    }
}

impl<F, G> Default for Node<F, G> {
    fn default() -> (r: Self)
        ensures
            r is Empty,
    {
        Node::Empty()
    }
}

/// Evaluates the given nodes in order, up to the first that is itself a
/// failure.
pub fn exec_items<F: Filter, G: Function>(nodes: &Vec<Node<F, G>>, ctx: &mut Context) -> (r: Data)
    ensures
        (r@, final(ctx)@) == eval_items(nodes@, old(ctx)@, 0, Seq::empty()),
    decreases total_size(nodes@), 1nat, 0nat,
{
    let mut acc: Vec<InnerData> = Vec::new();
    let mut i: usize = 0;
    assert(inner_views(acc@) =~= Seq::empty());
    while i < nodes.len()
        invariant
            i <= nodes.len(),
            eval_items(nodes@, old(ctx)@, 0, Seq::empty()) == eval_items(
                nodes@,
                ctx@,
                i as int,
                inner_views(acc@),
            ),
        decreases nodes.len() - i,
    {
        proof {
            lemma_size_within(nodes@, i as int);
        }
        let ghost before = inner_views(acc@);
        let d = nodes[i].exec(ctx);
        if d.is_error() {
            return d;
        }
        let ghost v = d@;
        acc.push(d.into_inner());
        assert(inner_views(acc@) =~= before.push(v));
        i += 1;
    }
    let r = Data::new(InnerData::Sequence(acc));
    proof {
        lemma_view_inner(r.inner);
    }
    r
}

/// Evaluates the nodes of the given entries in order, up to the first
/// whose value holds a failure.
pub fn exec_entries<F: Filter, G: Function>(
    entries: &Vec<(Document, Node<F, G>)>,
    ctx: &mut Context,
) -> (r: Data)
    ensures
        (r@, final(ctx)@) == eval_entries(entries@, old(ctx)@, 0, Seq::empty()),
    decreases total_entry_size(entries@), 1nat, 0nat,
{
    let mut acc: Vec<(Document, Document)> = Vec::new();
    let mut i: usize = 0;
    assert(entry_views(acc@) =~= Seq::empty());
    while i < entries.len()
        invariant
            i <= entries.len(),
            eval_entries(entries@, old(ctx)@, 0, Seq::empty()) == eval_entries(
                entries@,
                ctx@,
                i as int,
                entry_views(acc@),
            ),
        decreases entries.len() - i,
    {
        proof {
            lemma_entry_size_within(entries@, i as int);
        }
        match entries[i].1.exec(ctx).into_document() {
            Ok(d) => {
                insert_entry(&mut acc, entries[i].0.clone(), d);
            },
            Err(e) => {
                return Data::from_error(e);
            },
        }
        i += 1;
    }
    let doc = Document::Mapping(acc);
    proof {
        lemma_view(doc);
    }
    Data::from_document(doc)
}

} // verus!
