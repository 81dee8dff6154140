//! What holds of every evaluation: which part of the context a node can
//! change, which nodes change nothing, how failures and branches come out.

use std::sync::Arc;
use vstd::prelude::*;
use crate::context::ContextView;
use crate::data::{Data, document_of};
use crate::document::segments;
use crate::error::Failure;
use crate::execution::executors::{Executors, PipedOperation};
use crate::execution::node::{
    Filter, Function, Node, eval_entries, eval_items, filter_eval, function_eval,
    lemma_entry_size_within, lemma_size_within, lemma_total_size_small, total_entry_size,
    total_size,
};
use crate::execution::operation::{
    Operations,
    binary_eval, combine, concat_eval, condition_failure, entry_value,
    entry_values, for_loop_eval, if_then_eval, loop_eval, piped_eval, set_eval,
};
use crate::value::{
    Value, assign, assign_failure, find_key, first_error, first_error_in, string_keys, text,
};

verus! {

/// Whether `d` is `c` but for what the innermost scope holds, or but for
/// the root where no scope is open.
pub open spec fn framed(c: ContextView, d: ContextView) -> bool {
    &&& d.overlays.len() == c.overlays.len()
    &&& c.overlays.len() > 0 ==> d.root == c.root && d.overlays.drop_last()
        =~= c.overlays.drop_last()
}

/// A write changes the innermost scope at most.
pub proof fn lemma_set_path_framed(c: ContextView, keys: Seq<Value>, value: Value)
    ensures
        match c.set_path(keys, value) {
            Ok(d) => framed(c, d),
            Err(_) => true,
        },
{
}

/// Closing a scope undoes whatever was done since it was opened.
pub proof fn lemma_scope_closed(c: ContextView, d: ContextView)
    requires
        framed(c.scoped(), d),
    ensures
        d.unscoped() == c,
{
    assert(c.scoped().overlays.drop_last() =~= c.overlays);
}

/// An evaluation changes the innermost scope at most: the scopes around it
/// and, where a scope is open, the root are left as they were.
pub proof fn lemma_eval_framed<F: Filter, G: Function>(n: Node<F, G>, c: ContextView)
    ensures
        framed(c, n.eval(c).1),
    decreases n.size(), 0nat, 0nat,
{
    match n {
        Node::Scope(inner) => {
            lemma_eval_framed(*inner, c.scoped());
            lemma_scope_closed(c, inner.eval(c.scoped()).1);
            assert(n.eval(c).1 == c);
        },
        Node::Expr(nodes) => {
            if nodes@.len() == 1 {
                lemma_size_within(nodes@, 0);
                lemma_eval_framed(nodes@[0], c);
            } else if nodes@.len() > 1 {
                lemma_items_framed(nodes@, c, 0, Seq::empty());
            }
        },
        Node::Array(nodes) => {
            lemma_items_framed(nodes@, c, 0, Seq::empty());
        },
        Node::Mapping(entries) => {
            lemma_entries_framed(entries@, c, 0, Seq::empty());
        },
        Node::Filter(b) => {
            lemma_filter_framed(b.1, b.0, b.2, c);
            assert(n.eval(c) == filter_eval(*b.1, b.0, b.2, c));
        },
        Node::Function(b) => {
            lemma_function_framed(b.0, b.1, c);
            assert(n.eval(c) == function_eval(*b.0, b.1, c));
        },
        Node::Operation(op) => {
            lemma_executor_framed(op.oper, op.nodes@, c);
            assert(op.eval(c) == op.oper.eval(op.nodes@, c));
            assert(n.eval(c) == op.eval(c));
        },
        _ => {},
    }
}

proof fn lemma_filter_framed<F: Filter, G: Function>(
    f: Arc<F>,
    piped: Node<F, G>,
    args: Node<F, G>,
    c: ContextView,
)
    ensures
        framed(c, filter_eval(*f, piped, args, c).1),
    decreases piped.size() + args.size(), 2nat, 0nat,
{
    lemma_eval_framed(piped, c);
    lemma_eval_framed(args, piped.eval(c).1);
}

proof fn lemma_function_framed<F: Filter, G: Function>(g: Arc<G>, args: Node<F, G>, c: ContextView)
    ensures
        framed(c, function_eval(*g, args, c).1),
    decreases args.size(), 2nat, 0nat,
{
    lemma_eval_framed(args, c);
}

proof fn lemma_items_framed<F: Filter, G: Function>(
    nodes: Seq<Node<F, G>>,
    c: ContextView,
    from: int,
    acc: Seq<Value>,
)
    ensures
        framed(c, eval_items(nodes, c, from, acc).1),
    decreases total_size(nodes), 1nat, nodes.len() - from,
{
    if 0 <= from < nodes.len() {
        lemma_size_within(nodes, from);
        lemma_eval_framed(nodes[from], c);
        let r = nodes[from].eval(c);
        if !(r.0 is Error) {
            lemma_items_framed(nodes, r.1, from + 1, acc.push(r.0));
        }
    }
}

proof fn lemma_entries_framed<F: Filter, G: Function>(
    entries: Seq<(crate::document::Document, Node<F, G>)>,
    c: ContextView,
    from: int,
    acc: Seq<(Value, Value)>,
)
    ensures
        framed(c, eval_entries(entries, c, from, acc).1),
    decreases total_entry_size(entries), 1nat, entries.len() - from,
{
    if 0 <= from < entries.len() {
        lemma_entry_size_within(entries, from);
        lemma_eval_framed(entries[from].1, c);
        let r = entries[from].1.eval(c);
        match document_of(r.0) {
            Ok(v) => {
                lemma_entries_framed(
                    entries,
                    r.1,
                    from + 1,
                    crate::value::map_insert(acc, entries[from].0@, v),
                );
            },
            Err(_) => {},
        }
    }
}

proof fn lemma_executor_framed<F: Filter, G: Function>(
    ex: Executors<F, G>,
    nodes: Seq<Node<F, G>>,
    c: ContextView,
)
    ensures
        framed(c, ex.eval(nodes, c).1),
    decreases 1 + total_size(nodes), 8nat, 0nat,
{
    if ex.shape().admits(nodes.len() as int) {
        lemma_total_size_small(nodes);
        match ex {
            Executors::Piped(p) => {
                lemma_piped_framed(p.0, nodes[0], nodes[1], c);
            },
            Executors::Conditional(_) => {
                let negative = if nodes.len() == 3 {
                    nodes[2]
                } else {
                    Node::Empty()
                };
                lemma_if_then_framed(nodes[0], nodes[1], negative, c);
            },
            Executors::Indeterminate(_) => {
                lemma_concat_framed(nodes, c, 0, Seq::empty());
            },
            Executors::Loop(_) => {
                lemma_for_loop_framed(nodes[0], nodes[1], nodes[2], c);
            },
            Executors::Filter(f) => {
                lemma_filter_framed(f.0, nodes[0], nodes[1], c);
            },
            Executors::Function(g) => {
                lemma_function_framed(g.0, nodes[0], c);
            },
        }
    }
}

proof fn lemma_piped_framed<F: Filter, G: Function>(
    kind: PipedOperation,
    left: Node<F, G>,
    right: Node<F, G>,
    c: ContextView,
)
    ensures
        framed(c, piped_eval(kind, left, right, c).1),
    decreases left.size() + right.size(), 3nat, 0nat,
{
    match kind {
        PipedOperation::Assign => {
            lemma_set_framed(left, right, c);
        },
        _ => {
            lemma_binary_framed(kind, left, right, c);
        },
    }
}

proof fn lemma_binary_framed<F: Filter, G: Function>(
    kind: PipedOperation,
    left: Node<F, G>,
    right: Node<F, G>,
    c: ContextView,
)
    ensures
        framed(c, binary_eval(kind, left, right, c).1),
    decreases left.size() + right.size(), 2nat, 0nat,
{
    lemma_eval_framed(left, c);
    lemma_eval_framed(right, left.eval(c).1);
}

proof fn lemma_set_framed<F: Filter, G: Function>(
    left: Node<F, G>,
    right: Node<F, G>,
    c: ContextView,
)
    ensures
        framed(c, set_eval(left, right, c).1),
    decreases left.size() + right.size(), 2nat, 0nat,
{
    lemma_eval_framed(right, c);
    let r = right.eval(c);
    if !(r.0 is Error) {
        match left {
            Node::Value(path) => {
                lemma_set_path_framed(r.1, string_keys(segments(path@)), r.0);
            },
            _ => {
                lemma_eval_framed(left, r.1);
                let l = left.eval(r.1);
                if !(l.0 is Error) {
                    lemma_set_path_framed(l.1, seq![l.0], r.0);
                }
            },
        }
    }
}

proof fn lemma_if_then_framed<F: Filter, G: Function>(
    condition: Node<F, G>,
    positive: Node<F, G>,
    negative: Node<F, G>,
    c: ContextView,
)
    ensures
        framed(c, if_then_eval(condition, positive, negative, c).1),
    decreases condition.size() + positive.size() + negative.size(), 2nat, 0nat,
{
    lemma_eval_framed(condition, c);
    let k = condition.eval(c);
    match k.0 {
        Value::Bool(b) => {
            if b {
                lemma_eval_framed(positive, k.1);
            } else {
                lemma_eval_framed(negative, k.1);
            }
        },
        _ => {},
    }
}

proof fn lemma_concat_framed<F: Filter, G: Function>(
    nodes: Seq<Node<F, G>>,
    c: ContextView,
    from: int,
    acc: Seq<char>,
)
    ensures
        framed(c, concat_eval(nodes, c, from, acc).1),
    decreases total_size(nodes), 2nat, nodes.len() - from,
{
    if 0 <= from < nodes.len() {
        lemma_size_within(nodes, from);
        lemma_eval_framed(nodes[from], c);
        let r = nodes[from].render_of(c);
        match r.0 {
            Ok(s) => {
                lemma_concat_framed(nodes, r.1, from + 1, acc + s);
            },
            Err(_) => {},
        }
    }
}

proof fn lemma_loop_framed<F: Filter, G: Function>(
    keys: Seq<Value>,
    items: Seq<Value>,
    body: Node<F, G>,
    c: ContextView,
    from: int,
    acc: Seq<char>,
)
    ensures
        framed(c, loop_eval(keys, items, body, c, from, acc).1),
    decreases body.size(), 2nat, items.len() - from,
{
    if 0 <= from < items.len() {
        lemma_set_path_framed(c, keys, items[from]);
        match c.set_path(keys, items[from]) {
            Ok(c1) => {
                lemma_eval_framed(body, c1);
                let r = body.eval(c1);
                match document_of(r.0) {
                    Ok(d) => {
                        lemma_loop_framed(keys, items, body, r.1, from + 1, acc + text(d));
                    },
                    Err(_) => {},
                }
            },
            Err(_) => {},
        }
    }
}

proof fn lemma_for_loop_framed<F: Filter, G: Function>(
    binding: Node<F, G>,
    iterable: Node<F, G>,
    body: Node<F, G>,
    c: ContextView,
)
    ensures
        framed(c, for_loop_eval(binding, iterable, body, c).1),
    decreases binding.size() + iterable.size() + body.size(), 3nat, 0nat,
{
    lemma_eval_framed(iterable, c);
    let it = iterable.eval(c);
    if !(it.0 is Error) {
        match binding {
            Node::Value(path) => {
                let keys = string_keys(segments(path@));
                match it.0 {
                    Value::Sequence(items) => {
                        lemma_loop_framed(keys, items, body, it.1, 0, Seq::empty());
                    },
                    Value::Mapping(entries) => {
                        lemma_loop_framed(
                            keys,
                            entry_values(entries),
                            body,
                            it.1,
                            0,
                            Seq::empty(),
                        );
                    },
                    _ => {
                        lemma_set_path_framed(it.1, keys, it.0);
                        match it.1.set_path(keys, it.0) {
                            Ok(c1) => {
                                lemma_eval_framed(body, c1);
                            },
                            Err(_) => {},
                        }
                    },
                }
            },
            _ => {},
        }
    }
}

/// Whatever is written while a scoped node is evaluated is gone when the
/// evaluation returns: the context is what it was before.
pub proof fn lemma_scope_leaves_no_trace<F: Filter, G: Function>(n: Node<F, G>, c: ContextView)
    ensures
        Node::Scope(Box::new(n)).eval(c).1 == c,
{
    lemma_eval_framed(n, c.scoped());
    lemma_scope_closed(c, n.eval(c.scoped()).1);
}

impl<F: Filter, G: Function> Node<F, G> {
    /// Whether this node writes nothing but inside a scope of its own: no
    /// assignment and no loop stands in it outside a scoped node.
    pub open spec fn quiet(self) -> bool
        decreases self,
    {
        match self {
            Node::Expr(nodes) => forall|i: int| 0 <= i < nodes@.len() ==> nodes@[i].quiet(),
            Node::Array(nodes) => forall|i: int| 0 <= i < nodes@.len() ==> nodes@[i].quiet(),
            Node::Mapping(entries) => forall|i: int|
                0 <= i < entries@.len() ==> entries@[i].1.quiet(),
            Node::Filter(b) => b.0.quiet() && b.2.quiet(),
            Node::Function(b) => b.1.quiet(),
            Node::Operation(op) => op.oper.writes_nothing() && forall|i: int|
                0 <= i < op.nodes@.len() ==> op.nodes@[i].quiet(),
            _ => true,
        }
    }
}

impl<F: Filter, G: Function> Executors<F, G> {
    /// Whether this executor is neither an assignment nor a loop.
    pub open spec fn writes_nothing(self) -> bool {
        match self {
            Executors::Piped(p) => p.0 != PipedOperation::Assign,
            Executors::Loop(_) => false,
            _ => true,
        }
    }
}

/// A node that writes nothing but inside a scope of its own leaves the
/// context as it was. Evaluated again, it therefore yields the same data:
/// what a node evaluates to is a function of the node and the context.
pub proof fn lemma_quiet_eval<F: Filter, G: Function>(n: Node<F, G>, c: ContextView)
    requires
        n.quiet(),
    ensures
        n.eval(c).1 == c,
    decreases n.size(), 0nat, 0nat,
{
    match n {
        Node::Scope(inner) => {
            lemma_eval_framed(*inner, c.scoped());
            lemma_scope_closed(c, inner.eval(c.scoped()).1);
            assert(n.eval(c).1 == c);
        },
        Node::Expr(nodes) => {
            if nodes@.len() == 1 {
                lemma_size_within(nodes@, 0);
                lemma_quiet_eval(nodes@[0], c);
            } else if nodes@.len() > 1 {
                lemma_quiet_items(nodes@, c, 0, Seq::empty());
            }
        },
        Node::Array(nodes) => {
            lemma_quiet_items(nodes@, c, 0, Seq::empty());
        },
        Node::Mapping(entries) => {
            lemma_quiet_entries(entries@, c, 0, Seq::empty());
        },
        Node::Filter(b) => {
            lemma_quiet_filter(b.1, b.0, b.2, c);
            assert(n.eval(c) == filter_eval(*b.1, b.0, b.2, c));
        },
        Node::Function(b) => {
            lemma_quiet_function(b.0, b.1, c);
            assert(n.eval(c) == function_eval(*b.0, b.1, c));
        },
        Node::Operation(op) => {
            lemma_quiet_executor(op.oper, op.nodes@, c);
            assert(op.eval(c) == op.oper.eval(op.nodes@, c));
            assert(n.eval(c) == op.eval(c));
        },
        _ => {},
    }
}

proof fn lemma_quiet_filter<F: Filter, G: Function>(
    f: Arc<F>,
    piped: Node<F, G>,
    args: Node<F, G>,
    c: ContextView,
)
    requires
        piped.quiet(),
        args.quiet(),
    ensures
        filter_eval(*f, piped, args, c).1 == c,
    decreases piped.size() + args.size(), 2nat, 0nat,
{
    lemma_quiet_eval(piped, c);
    lemma_quiet_eval(args, c);
}

proof fn lemma_quiet_function<F: Filter, G: Function>(g: Arc<G>, args: Node<F, G>, c: ContextView)
    requires
        args.quiet(),
    ensures
        function_eval(*g, args, c).1 == c,
    decreases args.size(), 2nat, 0nat,
{
    lemma_quiet_eval(args, c);
}

proof fn lemma_quiet_items<F: Filter, G: Function>(
    nodes: Seq<Node<F, G>>,
    c: ContextView,
    from: int,
    acc: Seq<Value>,
)
    requires
        forall|i: int| 0 <= i < nodes.len() ==> nodes[i].quiet(),
    ensures
        eval_items(nodes, c, from, acc).1 == c,
    decreases total_size(nodes), 1nat, nodes.len() - from,
{
    if 0 <= from < nodes.len() {
        lemma_size_within(nodes, from);
        lemma_quiet_eval(nodes[from], c);
        let r = nodes[from].eval(c);
        if !(r.0 is Error) {
            lemma_quiet_items(nodes, c, from + 1, acc.push(r.0));
        }
    }
}

proof fn lemma_quiet_entries<F: Filter, G: Function>(
    entries: Seq<(crate::document::Document, Node<F, G>)>,
    c: ContextView,
    from: int,
    acc: Seq<(Value, Value)>,
)
    requires
        forall|i: int| 0 <= i < entries.len() ==> entries[i].1.quiet(),
    ensures
        eval_entries(entries, c, from, acc).1 == c,
    decreases total_entry_size(entries), 1nat, entries.len() - from,
{
    if 0 <= from < entries.len() {
        lemma_entry_size_within(entries, from);
        lemma_quiet_eval(entries[from].1, c);
        let r = entries[from].1.eval(c);
        match document_of(r.0) {
            Ok(v) => {
                lemma_quiet_entries(
                    entries,
                    c,
                    from + 1,
                    crate::value::map_insert(acc, entries[from].0@, v),
                );
            },
            Err(_) => {},
        }
    }
}

proof fn lemma_quiet_executor<F: Filter, G: Function>(
    ex: Executors<F, G>,
    nodes: Seq<Node<F, G>>,
    c: ContextView,
)
    requires
        ex.writes_nothing(),
        forall|i: int| 0 <= i < nodes.len() ==> nodes[i].quiet(),
    ensures
        ex.eval(nodes, c).1 == c,
    decreases 1 + total_size(nodes), 8nat, 0nat,
{
    if ex.shape().admits(nodes.len() as int) {
        lemma_total_size_small(nodes);
        match ex {
            Executors::Piped(p) => {
                lemma_quiet_eval(nodes[0], c);
                lemma_quiet_eval(nodes[1], c);
                assert(binary_eval(p.0, nodes[0], nodes[1], c).1 == c);
            },
            Executors::Conditional(_) => {
                let negative = if nodes.len() == 3 {
                    nodes[2]
                } else {
                    Node::Empty()
                };
                lemma_quiet_eval(nodes[0], c);
                lemma_quiet_eval(nodes[1], c);
                lemma_quiet_eval(negative, c);
                assert(if_then_eval(nodes[0], nodes[1], negative, c).1 == c);
            },
            Executors::Indeterminate(_) => {
                lemma_quiet_concat(nodes, c, 0, Seq::empty());
            },
            Executors::Loop(_) => {},
            Executors::Filter(f) => {
                lemma_quiet_filter(f.0, nodes[0], nodes[1], c);
            },
            Executors::Function(g) => {
                lemma_quiet_function(g.0, nodes[0], c);
            },
        }
    }
}

proof fn lemma_quiet_concat<F: Filter, G: Function>(
    nodes: Seq<Node<F, G>>,
    c: ContextView,
    from: int,
    acc: Seq<char>,
)
    requires
        forall|i: int| 0 <= i < nodes.len() ==> nodes[i].quiet(),
    ensures
        concat_eval(nodes, c, from, acc).1 == c,
    decreases total_size(nodes), 2nat, nodes.len() - from,
{
    if 0 <= from < nodes.len() {
        lemma_size_within(nodes, from);
        lemma_quiet_eval(nodes[from], c);
        let r = nodes[from].render_of(c);
        match r.0 {
            Ok(s) => {
                lemma_quiet_concat(nodes, c, from + 1, acc + s);
            },
            Err(_) => {},
        }
    }
}

/// The context in which the node at `to` is evaluated when the nodes from
/// `from` on are evaluated in order, starting in `c`.
pub open spec fn reached<F: Filter, G: Function>(
    nodes: Seq<Node<F, G>>,
    c: ContextView,
    from: int,
    to: int,
) -> ContextView
    decreases to - from,
{
    if to <= from || from < 0 || from >= nodes.len() {
        c
    } else {
        reached(nodes, nodes[from].eval(c).1, from + 1, to)
    }
}

/// Where the nodes of a sequence literal are evaluated in order and the
/// one at `at` is the first to yield a failure, that failure is what the
/// whole evaluation yields.
pub proof fn lemma_first_failure_wins<F: Filter, G: Function>(
    nodes: Seq<Node<F, G>>,
    c: ContextView,
    from: int,
    acc: Seq<Value>,
    at: int,
    e: Failure,
)
    requires
        0 <= from <= at < nodes.len(),
        forall|j: int| from <= j < at ==> !(nodes[j].eval(reached(nodes, c, from, j)).0 is Error),
        nodes[at].eval(reached(nodes, c, from, at)).0 == Value::Error(e),
    ensures
        eval_items(nodes, c, from, acc).0 == Value::Error(e),
    decreases at - from,
{
    let r = nodes[from].eval(c);
    assert(reached(nodes, c, from, from) == c);
    if from < at {
        assert forall|j: int| from + 1 <= j < at implies !(nodes[j].eval(
            reached(nodes, r.1, from + 1, j),
        ).0 is Error) by {
            assert(reached(nodes, c, from, j) == reached(nodes, r.1, from + 1, j));
        }
        assert(reached(nodes, c, from, at) == reached(nodes, r.1, from + 1, at));
        lemma_first_failure_wins(nodes, r.1, from + 1, acc.push(r.0), at, e);
    }
}

/// A sequence literal with a node that yields a failure, where no node
/// before it does, yields that failure.
pub proof fn lemma_array_failure<F: Filter, G: Function>(
    k: Node<F, G>,
    c: ContextView,
    at: int,
    e: Failure,
)
    requires
        k is Array,
        0 <= at < k->Array_0@.len(),
        forall|j: int|
            0 <= j < at ==> !(k->Array_0@[j].eval(reached(k->Array_0@, c, 0, j)).0 is Error),
        k->Array_0@[at].eval(reached(k->Array_0@, c, 0, at)).0 == Value::Error(e),
    ensures
        k.eval(c).0 == Value::Error(e),
{
    lemma_first_failure_wins(k->Array_0@, c, 0, Seq::empty(), at, e);
}

/// An expression of two nodes or more with a node that yields a failure,
/// where no node before it does, yields that failure.
pub proof fn lemma_expression_failure<F: Filter, G: Function>(
    k: Node<F, G>,
    c: ContextView,
    at: int,
    e: Failure,
)
    requires
        k is Expr,
        k->Expr_0@.len() > 1,
        0 <= at < k->Expr_0@.len(),
        forall|j: int|
            0 <= j < at ==> !(k->Expr_0@[j].eval(reached(k->Expr_0@, c, 0, j)).0 is Error),
        k->Expr_0@[at].eval(reached(k->Expr_0@, c, 0, at)).0 == Value::Error(e),
    ensures
        k.eval(c).0 == Value::Error(e),
{
    lemma_first_failure_wins(k->Expr_0@, c, 0, Seq::empty(), at, e);
}

/// Sums, products, conjunctions, disjunctions and tests for equality do
/// not depend on the order of their operands, as long as neither holds a
/// failure.
pub proof fn lemma_binary_commutes(kind: PipedOperation, a: Value, b: Value)
    requires
        kind == PipedOperation::Add || kind == PipedOperation::Multiply || kind
            == PipedOperation::And || kind == PipedOperation::Or || kind == PipedOperation::Equals
            || kind == PipedOperation::NotEquals,
        first_error(a) is None,
        first_error(b) is None,
    ensures
        combine(kind, a, b) == combine(kind, b, a),
{
    match (a, b) {
        (Value::Integer(x), Value::Integer(y)) => {
            assert(x * y == y * x) by (nonlinear_arith);
        },
        _ => {},
    }
}

/// The same for the operation on two literals: exchanging them changes
/// nothing.
pub proof fn lemma_literals_commute<F: Filter, G: Function>(
    kind: PipedOperation,
    a: Data,
    b: Data,
    c: ContextView,
)
    requires
        kind == PipedOperation::Add || kind == PipedOperation::Multiply || kind
            == PipedOperation::And || kind == PipedOperation::Or || kind == PipedOperation::Equals
            || kind == PipedOperation::NotEquals,
        first_error(a@) is None,
        first_error(b@) is None,
    ensures
        piped_eval(kind, Node::<F, G>::Data(a), Node::<F, G>::Data(b), c) == piped_eval(
            kind,
            Node::<F, G>::Data(b),
            Node::<F, G>::Data(a),
            c,
        ),
{
    lemma_binary_commutes(kind, a@, b@);
    assert(binary_eval(kind, Node::<F, G>::Data(a), Node::<F, G>::Data(b), c) == (
        combine(kind, a@, b@),
        c,
    ));
    assert(binary_eval(kind, Node::<F, G>::Data(b), Node::<F, G>::Data(a), c) == (
        combine(kind, b@, a@),
        c,
    ));
}

/// Concatenating nothing yields the empty string.
pub proof fn lemma_concat_of_nothing<F: Filter, G: Function>(c: ContextView)
    ensures
        concat_eval(Seq::<Node<F, G>>::empty(), c, 0, Seq::empty()) == (
            Value::String(Seq::empty()),
            c,
        ),
{
}

/// Concatenation folds from the left: with one more node at the end, the
/// result is that of the nodes before it followed by the written form of
/// the new node, unless a failure came first.
pub proof fn lemma_concat_folds<F: Filter, G: Function>(
    nodes: Seq<Node<F, G>>,
    last: Node<F, G>,
    c: ContextView,
    from: int,
    acc: Seq<char>,
)
    requires
        0 <= from <= nodes.len(),
    ensures
        concat_eval(nodes.push(last), c, from, acc) == ({
            let before = concat_eval(nodes, c, from, acc);
            match before.0 {
                Value::String(s) => {
                    let r = last.render_of(before.1);
                    match r.0 {
                        Ok(t) => (Value::String(s + t), r.1),
                        Err(e) => (Value::Error(e), r.1),
                    }
                },
                _ => before,
            }
        }),
    decreases nodes.len() - from,
{
    let more = nodes.push(last);
    if from < nodes.len() {
        assert(more[from] == nodes[from]);
        let r = nodes[from].render_of(c);
        match r.0 {
            Ok(s) => {
                lemma_concat_folds(nodes, last, r.1, from + 1, acc + s);
            },
            Err(_) => {},
        }
    } else {
        assert(more[from] == last);
        let r = last.render_of(c);
        match r.0 {
            Ok(t) => {
                assert(concat_eval(more, r.1, from + 1, acc + t) == (
                    Value::String(acc + t),
                    r.1,
                ));
            },
            Err(_) => {},
        }
    }
}

/// A literal that holds no failure renders as its written form.
pub proof fn lemma_literal_renders<F: Filter, G: Function>(d: Data, c: ContextView)
    requires
        first_error(d@) is None,
    ensures
        Node::<F, G>::Data(d).render_of(c) == (Ok::<Seq<char>, Failure>(text(d@)), c),
{
}

/// An expression of one node is that node; an expression of none is Unit.
pub proof fn lemma_expression_of_one<F: Filter, G: Function>(k: Node<F, G>, c: ContextView)
    requires
        k is Expr,
    ensures
        k->Expr_0@.len() == 1 ==> k.eval(c) == k->Expr_0@[0].eval(c),
        k->Expr_0@.len() == 0 ==> k.eval(c) == (Value::Unit, c),
{
}

/// A conditional whose condition is a failure yields that failure; one
/// whose condition is neither a boolean nor a failure yields a render
/// failure; neither evaluates a branch. One without a negative branch
/// yields Unit where its condition is `false`.
pub proof fn lemma_conditional_boundaries<F: Filter, G: Function>(
    ex: Executors<F, G>,
    condition: Node<F, G>,
    positive: Node<F, G>,
    negative: Node<F, G>,
    c: ContextView,
)
    requires
        ex is Conditional,
    ensures
        condition.eval(c).0 is Error ==> if_then_eval(condition, positive, negative, c)
            == condition.eval(c),
        !(condition.eval(c).0 is Error) && !(condition.eval(c).0 is Bool) ==> if_then_eval(
            condition,
            positive,
            negative,
            c,
        ) == (Value::Error(condition_failure()), condition.eval(c).1),
        condition_failure() is Render,
        condition.eval(c).0 == Value::Bool(false) ==> ex.eval(seq![condition, positive], c) == (
            Value::Unit,
            condition.eval(c).1,
        ),
{
    let nodes = seq![condition, positive];
    assert(ex.shape().admits(nodes.len() as int));
    assert(nodes[0] == condition && nodes[1] == positive);
    assert(ex.eval(nodes, c) == if_then_eval(condition, positive, Node::Empty(), c));
}

/// A loop over a mapping runs its body once for each entry, in the order
/// of the entries, with the entry's key bound under `key` and its value
/// under `value`.
pub proof fn lemma_loop_over_mapping<F: Filter, G: Function>(
    binding: Node<F, G>,
    iterable: Node<F, G>,
    body: Node<F, G>,
    c: ContextView,
)
    requires
        binding is Value,
        iterable.eval(c).0 is Mapping,
    ensures
        ({
            let entries = iterable.eval(c).0->Mapping_0;
            let bound = entry_values(entries);
            &&& for_loop_eval(binding, iterable, body, c) == loop_eval(
                string_keys(segments(binding->Value_0@)),
                bound,
                body,
                iterable.eval(c).1,
                0,
                Seq::empty(),
            )
            &&& bound.len() == entries.len()
            &&& forall|i: int|
                0 <= i < entries.len() ==> #[trigger] bound[i] == entry_value(
                    entries[i].0,
                    entries[i].1,
                )
        }),
{
}

/// Whether a write under `keys[from..]` inside `target` would have to pass
/// through a scalar: a boolean, an integer or a string.
pub open spec fn blocked(target: Value, keys: Seq<Value>, from: int) -> bool
    decreases keys.len() - from,
{
    if from < 0 || from >= keys.len() {
        false
    } else {
        match target {
            Value::Bool(_) => true,
            Value::Integer(_) => true,
            Value::String(_) => true,
            Value::Mapping(entries) => match find_key(entries, keys[from], 0) {
                Some(i) => blocked(entries[i].1, keys, from + 1),
                None => false,
            },
            Value::Sequence(items) => match keys[from] {
                Value::Integer(n) => 0 <= n < items.len() && blocked(
                    items[n as int],
                    keys,
                    from + 1,
                ),
                _ => false,
            },
            _ => false,
        }
    }
}

/// A write whose path passes through a scalar fails with a render failure.
pub proof fn lemma_assign_through_scalar(target: Value, keys: Seq<Value>, from: int, value: Value)
    requires
        blocked(target, keys, from),
    ensures
        assign(target, keys, from, value) == Err::<Value, Failure>(assign_failure()),
        assign_failure() is Render,
    decreases keys.len() - from,
{
    match target {
        Value::Mapping(entries) => {
            let i = find_key(entries, keys[from], 0)->Some_0;
            lemma_assign_through_scalar(entries[i].1, keys, from + 1, value);
        },
        Value::Sequence(items) => {
            let n = keys[from]->Integer_0;
            lemma_assign_through_scalar(items[n as int], keys, from + 1, value);
        },
        _ => {},
    }
}

/// An assignment to a variable whose path passes through a scalar of the
/// innermost scope yields a render failure and leaves the context as the
/// right node left it.
pub proof fn lemma_set_through_scalar<F: Filter, G: Function>(
    left: Node<F, G>,
    right: Node<F, G>,
    c: ContextView,
)
    requires
        left is Value,
        first_error(right.eval(c).0) is None,
        ({
            let after = right.eval(c).1;
            let keys = string_keys(segments(left->Value_0@));
            let target = if after.overlays.len() == 0 {
                after.root
            } else {
                after.overlays.last()
            };
            blocked(target, keys, 0)
        }),
    ensures
        set_eval(left, right, c) == (Value::Error(assign_failure()), right.eval(c).1),
        assign_failure() is Render,
{
    let after = right.eval(c).1;
    let keys = string_keys(segments(left->Value_0@));
    let target = if after.overlays.len() == 0 {
        after.root
    } else {
        after.overlays.last()
    };
    lemma_assign_through_scalar(target, keys, 0, right.eval(c).0);
    lemma_keys_hold_no_error(segments(left->Value_0@), 0);
}

/// The keys that a path stands for hold no failure.
pub proof fn lemma_keys_hold_no_error(path: Seq<Seq<char>>, from: int)
    requires
        0 <= from,
    ensures
        first_error_in(string_keys(path), from) is None,
    decreases path.len() - from,
{
    if from < path.len() {
        assert(string_keys(path)[from] == Value::String(path[from]));
        assert(first_error(string_keys(path)[from]) is None);
        lemma_keys_hold_no_error(path, from + 1);
        assert(first_error_in(string_keys(path), from) == first_error_in(
            string_keys(path),
            from + 1,
        ));
    }
}

/// A mapping literal evaluates to a failure or to a mapping whose keys
/// are in increasing order, whatever the order of its entries.
pub proof fn lemma_mapping_literal_sorted<F: Filter, G: Function>(
    entries: Seq<(crate::document::Document, Node<F, G>)>,
    c: ContextView,
    from: int,
    acc: Seq<(Value, Value)>,
)
    requires
        crate::value::sorted(acc),
    ensures
        match eval_entries(entries, c, from, acc).0 {
            Value::Mapping(m) => crate::value::sorted(m),
            other => other is Error,
        },
    decreases entries.len() - from,
{
    if 0 <= from < entries.len() {
        let r = entries[from].1.eval(c);
        match document_of(r.0) {
            Ok(v) => {
                crate::value::lemma_map_insert_sorted(acc, entries[from].0@, v);
                lemma_mapping_literal_sorted(
                    entries,
                    r.1,
                    from + 1,
                    crate::value::map_insert(acc, entries[from].0@, v),
                );
            },
            Err(_) => {},
        }
    }
}

/// Rendering a node leaves the context that evaluating it leaves.
pub proof fn lemma_render_leaves_what_eval_leaves<F: Filter, G: Function>(
    n: Node<F, G>,
    c: ContextView,
)
    ensures
        n.render_of(c).1 == n.eval(c).1,
{
}

/// Where the nodes of a concatenation are rendered in order and the one at
/// `at` is the first that fails, its failure is what the concatenation
/// yields.
pub proof fn lemma_concat_failure<F: Filter, G: Function>(
    nodes: Seq<Node<F, G>>,
    c: ContextView,
    from: int,
    acc: Seq<char>,
    at: int,
    e: Failure,
)
    requires
        0 <= from <= at < nodes.len(),
        forall|j: int| from <= j < at ==> nodes[j].render_of(reached(nodes, c, from, j)).0 is Ok,
        nodes[at].render_of(reached(nodes, c, from, at)).0 == Err::<Seq<char>, Failure>(e),
    ensures
        concat_eval(nodes, c, from, acc).0 == Value::Error(e),
    decreases at - from,
{
    let r = nodes[from].render_of(c);
    lemma_render_leaves_what_eval_leaves(nodes[from], c);
    assert(reached(nodes, c, from, from) == c);
    if from < at {
        assert forall|j: int| from + 1 <= j < at implies nodes[j].render_of(
            reached(nodes, r.1, from + 1, j),
        ).0 is Ok by {
            assert(reached(nodes, c, from, j) == reached(nodes, r.1, from + 1, j));
        }
        assert(reached(nodes, c, from, at) == reached(nodes, r.1, from + 1, at));
        lemma_concat_failure(nodes, r.1, from + 1, acc + r.0->Ok_0, at, e);
    }
}

/// The nodes of the entries of a mapping literal, in their order.
pub open spec fn entry_nodes<F: Filter, G: Function>(
    entries: Seq<(crate::document::Document, Node<F, G>)>,
) -> Seq<Node<F, G>> {
    Seq::new(entries.len(), |i: int| entries[i].1)
}

/// Where the nodes of a mapping literal are evaluated in order and the one
/// at `at` is the first whose value holds a failure, that failure is what
/// the literal yields.
pub proof fn lemma_mapping_failure<F: Filter, G: Function>(
    entries: Seq<(crate::document::Document, Node<F, G>)>,
    c: ContextView,
    from: int,
    acc: Seq<(Value, Value)>,
    at: int,
    e: Failure,
)
    requires
        0 <= from <= at < entries.len(),
        forall|j: int|
            from <= j < at ==> first_error(
                entries[j].1.eval(reached(entry_nodes(entries), c, from, j)).0,
            ) is None,
        first_error(entries[at].1.eval(reached(entry_nodes(entries), c, from, at)).0) == Some(e),
    ensures
        eval_entries(entries, c, from, acc).0 == Value::Error(e),
    decreases at - from,
{
    let nodes = entry_nodes(entries);
    let r = entries[from].1.eval(c);
    assert(nodes[from] == entries[from].1);
    assert(reached(nodes, c, from, from) == c);
    if from < at {
        assert forall|j: int| from + 1 <= j < at implies first_error(
            entries[j].1.eval(reached(nodes, r.1, from + 1, j)).0,
        ) is None by {
            assert(reached(nodes, c, from, j) == reached(nodes, r.1, from + 1, j));
        }
        assert(reached(nodes, c, from, at) == reached(nodes, r.1, from + 1, at));
        lemma_mapping_failure(
            entries,
            r.1,
            from + 1,
            crate::value::map_insert(acc, entries[from].0@, r.0),
            at,
            e,
        );
    }
}

/// The number of nodes that an operation takes is the number that its
/// executor takes: a build that is admitted never shows a failure of arity
/// when it is evaluated, and one that is rejected always would.
pub proof fn lemma_shape_is_that_of_the_executor<F: Filter, G: Function>(op: Operations)
    ensures
        op.shape() == op.executor::<F, G>().shape(),
        forall|nodes: Seq<Node<F, G>>, c: ContextView|
            !op.shape().admits(nodes.len() as int) ==> #[trigger] op.executor::<F, G>().eval(
                nodes,
                c,
            ) == (Value::Error(crate::execution::executors::arity_failure()), c),
{
}

} // verus!
