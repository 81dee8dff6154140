//! Operations: a named executor applied to nodes, and the catalogue of
//! built-in operations.

use vstd::prelude::*;
use vstd::string::*;
use crate::context::{Context, ContextView};
use crate::data::{
    Data, InnerData, as_bool, as_integer, document_of, inner_views, lemma_view_inner,
};
use crate::document::{Document, segments};
use crate::error::{Failure, TemplarError};
use crate::execution::executors::{
    ConditionalExecutor, ConditionalOperation, Executors, FilterExecutor, FunctionExecutor,
    IndeterminateExecutor, IndeterminateOperation, LoopExecutor, LoopOperation, Metadata,
    PipedExecutor, PipedOperation,
};
use crate::execution::node::{Filter, Function, Node, total_size, lemma_size_within};
use crate::integer::{quotient, remainder};
use crate::text::Order;
use crate::value::{Value, compare, string_keys, text, lemma_compare_equal};

verus! {

/// A named executor applied to nodes.
pub struct Operation<F, G> {
    pub oper: Executors<F, G>,
    pub name: String,
    pub nodes: Vec<Node<F, G>>,
}

/// The names of the built-in operations.
#[derive(Clone, Copy, Debug, PartialEq, Eq, Structural)]
pub enum Operations {
    Add,
    Subtract,
    Divide,
    Multiply,
    Modulus,
    And,
    Or,
    Equals,
    NotEquals,
    GreaterThan,
    LessThan,
    GreaterThanEquals,
    LessThanEquals,
    Assign,
    IfThen,
    Concat,
    ForLoop,
}

/// The failure of arithmetic on something that is no number.
pub open spec fn math_failure() -> Failure {
    Failure::Render("Math operations require numeric types"@)
}

/// The failure of a division or a remainder by zero.
pub open spec fn zero_failure() -> Failure {
    Failure::Render("Division by zero"@)
}

/// The failure of a condition that is no boolean.
pub open spec fn condition_failure() -> Failure {
    Failure::Render("If condition must evaluate to boolean!"@)
}

/// The failure of a loop whose binding is no variable.
pub open spec fn loop_failure() -> Failure {
    Failure::Render("Unexpected render failure in for loop"@)
}

/// The failure of a build with a number of nodes that the executor does
/// not take.
pub open spec fn build_failure() -> Failure {
    Failure::Parse("Operation built with the wrong number of nodes"@)
}

/// What an arithmetic operation makes of two values: an integer where both
/// are integers and the divisor, if any, is not zero. Sums, differences and
/// products wrap.
pub open spec fn arithmetic(kind: PipedOperation, a: Value, b: Value) -> Value {
    match (as_integer(a), as_integer(b)) {
        (Some(x), Some(y)) => match kind {
            PipedOperation::Add => Value::Integer(x.wrapping_add(y)),
            PipedOperation::Subtract => Value::Integer(x.wrapping_sub(y)),
            PipedOperation::Multiply => Value::Integer(x.wrapping_mul(y)),
            PipedOperation::Divide => if y == 0 {
                Value::Error(zero_failure())
            } else {
                Value::Integer(quotient(x, y))
            },
            _ => if y == 0 {
                Value::Error(zero_failure())
            } else {
                Value::Integer(remainder(x, y))
            },
        },
        _ => Value::Error(math_failure()),
    }
}

/// The boolean that a value counts as: itself where it is one, `false`
/// otherwise.
pub open spec fn truth(v: Value) -> bool {
    match as_bool(v) {
        Some(b) => b,
        None => false,
    }
}

/// What a binary operation makes of two values that hold no failure.
pub open spec fn apply_binary(kind: PipedOperation, a: Value, b: Value) -> Value {
    match kind {
        PipedOperation::Add => arithmetic(kind, a, b),
        PipedOperation::Subtract => arithmetic(kind, a, b),
        PipedOperation::Divide => arithmetic(kind, a, b),
        PipedOperation::Multiply => arithmetic(kind, a, b),
        PipedOperation::Modulus => arithmetic(kind, a, b),
        PipedOperation::And => Value::Bool(truth(a) && truth(b)),
        PipedOperation::Or => Value::Bool(truth(a) || truth(b)),
        PipedOperation::Equals => Value::Bool(a == b),
        PipedOperation::NotEquals => Value::Bool(a != b),
        PipedOperation::GreaterThan => Value::Bool(compare(a, b) is Greater),
        PipedOperation::LessThan => Value::Bool(compare(a, b) is Less),
        PipedOperation::GreaterThanEquals => Value::Bool(!(compare(a, b) is Less)),
        PipedOperation::LessThanEquals => Value::Bool(!(compare(a, b) is Greater)),
        PipedOperation::Assign => Value::Unit,
    }
}

/// What a binary operation makes of two evaluated nodes: the first failure
/// in the left value, else the first in the right value, else what the
/// operation makes of the two.
pub open spec fn combine(kind: PipedOperation, left: Value, right: Value) -> Value {
    match document_of(left) {
        Err(e) => Value::Error(e),
        Ok(a) => match document_of(right) {
            Err(e) => Value::Error(e),
            Ok(b) => apply_binary(kind, a, b),
        },
    }
}

/// Both nodes evaluated, the left one first, and what the operation makes
/// of their values.
pub open spec fn binary_eval<F: Filter, G: Function>(
    kind: PipedOperation,
    left: Node<F, G>,
    right: Node<F, G>,
    c: ContextView,
) -> (Value, ContextView)
    decreases left.size() + right.size(), 2nat, 0nat,
{
    let l = left.eval(c);
    let r = right.eval(l.1);
    (combine(kind, l.0, r.0), r.1)
}

/// Unit after a write that went well, the failure after one that did not;
/// and the context that the write leaves.
pub open spec fn written(c: ContextView, keys: Seq<Value>, value: Value) -> (Value, ContextView) {
    match c.set_path(keys, value) {
        Ok(c1) => (Value::Unit, c1),
        Err(e) => (Value::Error(e), c),
    }
}

/// An assignment: the right node is evaluated first, and a failure there
/// is the result. A variable on the left is written to under its path; any
/// other node is evaluated, and its value is the one key that is written
/// to.
pub open spec fn set_eval<F: Filter, G: Function>(
    left: Node<F, G>,
    right: Node<F, G>,
    c: ContextView,
) -> (Value, ContextView)
    decreases left.size() + right.size(), 2nat, 0nat,
{
    let r = right.eval(c);
    if r.0 is Error {
        r
    } else {
        match left {
            Node::Value(path) => written(r.1, string_keys(segments(path@)), r.0),
            _ => {
                let l = left.eval(r.1);
                if l.0 is Error {
                    l
                } else {
                    written(l.1, seq![l.0], r.0)
                }
            },
        }
    }
}

/// What a piped operation makes of its two nodes.
pub open spec fn piped_eval<F: Filter, G: Function>(
    kind: PipedOperation,
    left: Node<F, G>,
    right: Node<F, G>,
    c: ContextView,
) -> (Value, ContextView)
    decreases left.size() + right.size(), 3nat, 0nat,
{
    match kind {
        PipedOperation::Assign => set_eval(left, right, c),
        _ => binary_eval(kind, left, right, c),
    }
}

/// A conditional: the condition is evaluated, then the positive branch
/// where it is `true`, the negative branch where it is `false`. A
/// condition that is a failure is the result; any other condition is a
/// failure of its own.
pub open spec fn if_then_eval<F: Filter, G: Function>(
    condition: Node<F, G>,
    positive: Node<F, G>,
    negative: Node<F, G>,
    c: ContextView,
) -> (Value, ContextView)
    decreases condition.size() + positive.size() + negative.size(), 2nat, 0nat,
{
    let k = condition.eval(c);
    match k.0 {
        Value::Bool(b) => if b {
            positive.eval(k.1)
        } else {
            negative.eval(k.1)
        },
        Value::Error(e) => k,
        _ => (Value::Error(condition_failure()), k.1),
    }
}

/// A concatenation: `acc` followed by the written forms of the nodes from
/// `from` on, each rendered in the context that the one before left; or
/// the first failure, at which the evaluation stops.
pub open spec fn concat_eval<F: Filter, G: Function>(
    nodes: Seq<Node<F, G>>,
    c: ContextView,
    from: int,
    acc: Seq<char>,
) -> (Value, ContextView)
    decreases total_size(nodes), 2nat, nodes.len() - from,
{
    if from < 0 || from >= nodes.len() {
        (Value::String(acc), c)
    } else {
        proof {
            lemma_size_within(nodes, from);
        }
        let r = nodes[from].render_of(c);
        match r.0 {
            Ok(s) => concat_eval(nodes, r.1, from + 1, acc + s),
            Err(e) => (Value::Error(e), r.1),
        }
    }
}

/// The value that a loop over a mapping binds for one entry.
pub open spec fn entry_value(key: Value, value: Value) -> Value {
    Value::Mapping(seq![(Value::String("key"@), key), (Value::String("value"@), value)])
}

/// A loop over items from `from` on: each item is written under `keys`,
/// then the body is evaluated and its written form added to `acc`. The
/// first failure, of a write or of the body, is the result.
pub open spec fn loop_eval<F: Filter, G: Function>(
    keys: Seq<Value>,
    items: Seq<Value>,
    body: Node<F, G>,
    c: ContextView,
    from: int,
    acc: Seq<char>,
) -> (Value, ContextView)
    decreases body.size(), 2nat, items.len() - from,
{
    if from < 0 || from >= items.len() {
        (Value::String(acc), c)
    } else {
        match c.set_path(keys, items[from]) {
            Err(e) => (Value::Error(e), c),
            Ok(c1) => {
                let r = body.eval(c1);
                match document_of(r.0) {
                    Err(e) => (Value::Error(e), r.1),
                    Ok(d) => loop_eval(keys, items, body, r.1, from + 1, acc + text(d)),
                }
            },
        }
    }
}

/// The values that a loop over the given entries binds, in their order.
pub open spec fn entry_values(entries: Seq<(Value, Value)>) -> Seq<Value> {
    Seq::new(entries.len(), |i: int| entry_value(entries[i].0, entries[i].1))
}

/// A loop: the iterable is evaluated, and a failure there is the result.
/// The binding has to be a variable. Over a sequence the body runs once
/// for each item, over a mapping once for each entry, with the entry's key
/// and value bound under `key` and `value`; the written forms of the body
/// are joined. Any other value is bound once, and the body's value is the
/// result.
pub open spec fn for_loop_eval<F: Filter, G: Function>(
    binding: Node<F, G>,
    iterable: Node<F, G>,
    body: Node<F, G>,
    c: ContextView,
) -> (Value, ContextView)
    decreases binding.size() + iterable.size() + body.size(), 3nat, 0nat,
{
    let it = iterable.eval(c);
    if it.0 is Error {
        it
    } else {
        match binding {
            Node::Value(path) => {
                let keys = string_keys(segments(path@));
                match it.0 {
                    Value::Sequence(items) => loop_eval(keys, items, body, it.1, 0, Seq::empty()),
                    Value::Mapping(entries) => loop_eval(
                        keys,
                        entry_values(entries),
                        body,
                        it.1,
                        0,
                        Seq::empty(),
                    ),
                    _ => match it.1.set_path(keys, it.0) {
                        Err(e) => (Value::Error(e), it.1),
                        Ok(c1) => body.eval(c1),
                    },
                }
            },
            _ => (Value::Error(loop_failure()), it.1),
        }
    }
}

impl<F: Filter, G: Function> Operation<F, G> {
    /// What this operation evaluates to in the context `c`, and the
    /// context that the evaluation leaves.
    pub open spec fn eval(self, c: ContextView) -> (Value, ContextView)
        decreases 1 + total_size(self.nodes@), 9nat, 0nat,
    {
        self.oper.eval(self.nodes@, c)
    }

    /// Evaluates this operation in `ctx`.
    pub fn exec(&self, ctx: &mut Context) -> (r: Data)
        ensures
            (r@, final(ctx)@) == self.eval(old(ctx)@),
        decreases 1 + total_size(self.nodes@), 9nat, 0nat,
    {
        self.oper.exec(ctx, &self.nodes)
    }

    /// An operation that pipes the first of `nodes` through a filter, with
    /// the second as its arguments.
    pub fn from_filter(name: String, ex: FilterExecutor<F>, nodes: Vec<Node<F, G>>) -> (r: Self)
        ensures
            r.name@ == name@,
            r.oper == Executors::<F, G>::Filter(ex),
            r.nodes == nodes,
    {
        Operation { name, oper: Executors::Filter(ex), nodes }
    }

    /// An operation that calls a function on `node`.
    pub fn from_function(name: String, ex: FunctionExecutor<G>, node: Node<F, G>) -> (r: Self)
        ensures
            r.name@ == name@,
            r.oper == Executors::<F, G>::Function(ex),
            r.nodes@ == seq![node],
    {
        let mut nodes: Vec<Node<F, G>> = Vec::new();
        nodes.push(node);
        assert(nodes@ =~= seq![node]);
        Operation { name, oper: Executors::Function(ex), nodes }
    }
}

impl Operations {
    /// The name of this operation.
    pub open spec fn name(self) -> Seq<char> {
        match self {
            Operations::Add => "Add"@,
            Operations::Subtract => "Subtract"@,
            Operations::Divide => "Divide"@,
            Operations::Multiply => "Multiply"@,
            Operations::Modulus => "Modulus"@,
            Operations::And => "And"@,
            Operations::Or => "Or"@,
            Operations::Equals => "Equals"@,
            Operations::NotEquals => "NotEquals"@,
            Operations::GreaterThan => "GreaterThan"@,
            Operations::LessThan => "LessThan"@,
            Operations::GreaterThanEquals => "GreaterThanEquals"@,
            Operations::LessThanEquals => "LessThanEquals"@,
            Operations::Assign => "Set"@,
            Operations::IfThen => "IfThen"@,
            Operations::Concat => "Concat"@,
            Operations::ForLoop => "ForLoop"@,
        }
    }

    /// The executor that this operation is bound to.
    pub open spec fn executor<F, G>(self) -> Executors<F, G> {
        match self {
            Operations::Add => Executors::Piped(PipedExecutor(PipedOperation::Add)),
            Operations::Subtract => Executors::Piped(PipedExecutor(PipedOperation::Subtract)),
            Operations::Divide => Executors::Piped(PipedExecutor(PipedOperation::Divide)),
            Operations::Multiply => Executors::Piped(PipedExecutor(PipedOperation::Multiply)),
            Operations::Modulus => Executors::Piped(PipedExecutor(PipedOperation::Modulus)),
            Operations::And => Executors::Piped(PipedExecutor(PipedOperation::And)),
            Operations::Or => Executors::Piped(PipedExecutor(PipedOperation::Or)),
            Operations::Equals => Executors::Piped(PipedExecutor(PipedOperation::Equals)),
            Operations::NotEquals => Executors::Piped(PipedExecutor(PipedOperation::NotEquals)),
            Operations::GreaterThan => Executors::Piped(
                PipedExecutor(PipedOperation::GreaterThan),
            ),
            Operations::LessThan => Executors::Piped(PipedExecutor(PipedOperation::LessThan)),
            Operations::GreaterThanEquals => Executors::Piped(
                PipedExecutor(PipedOperation::GreaterThanEquals),
            ),
            Operations::LessThanEquals => Executors::Piped(
                PipedExecutor(PipedOperation::LessThanEquals),
            ),
            Operations::Assign => Executors::Piped(PipedExecutor(PipedOperation::Assign)),
            Operations::IfThen => Executors::Conditional(
                ConditionalExecutor(ConditionalOperation::IfThen),
            ),
            Operations::Concat => Executors::Indeterminate(
                IndeterminateExecutor(IndeterminateOperation::Concat),
            ),
            Operations::ForLoop => Executors::Loop(LoopExecutor(LoopOperation::ForLoop)),
        }
    }

    /// The number of nodes that this operation takes.
    pub open spec fn shape(self) -> Metadata {
        match self {
            Operations::IfThen => Metadata { minimum_nodes: 2, maximum_nodes: Some(3u16) },
            Operations::Concat => Metadata { minimum_nodes: 0, maximum_nodes: None },
            Operations::ForLoop => Metadata { minimum_nodes: 3, maximum_nodes: Some(3u16) },
            _ => Metadata { minimum_nodes: 2, maximum_nodes: Some(2u16) },
        }
    }

    /// Whether `op` is this operation applied to `nodes`.
    pub open spec fn is_built<F, G>(self, op: Operation<F, G>, nodes: Vec<Node<F, G>>) -> bool {
        &&& op.oper == self.executor::<F, G>()
        &&& op.name@ == self.name()
        &&& op.nodes == nodes
    }

    /// The number of nodes that this operation takes.
    pub fn metadata(&self) -> (r: Metadata)
        ensures
            r == self.shape(),
    {
        match self {
            Operations::IfThen => ConditionalExecutor::metadata(),
            Operations::Concat => IndeterminateExecutor::metadata(),
            Operations::ForLoop => LoopExecutor::metadata(),
            _ => PipedExecutor::metadata(),
        }
    }

    /// The name of this operation.
    pub fn label(&self) -> (r: String)
        ensures
            r@ == self.name(),
    {
        match self {
            Operations::Add => String::from_str("Add"),
            Operations::Subtract => String::from_str("Subtract"),
            Operations::Divide => String::from_str("Divide"),
            Operations::Multiply => String::from_str("Multiply"),
            Operations::Modulus => String::from_str("Modulus"),
            Operations::And => String::from_str("And"),
            Operations::Or => String::from_str("Or"),
            Operations::Equals => String::from_str("Equals"),
            Operations::NotEquals => String::from_str("NotEquals"),
            Operations::GreaterThan => String::from_str("GreaterThan"),
            Operations::LessThan => String::from_str("LessThan"),
            Operations::GreaterThanEquals => String::from_str("GreaterThanEquals"),
            Operations::LessThanEquals => String::from_str("LessThanEquals"),
            Operations::Assign => String::from_str("Set"),
            Operations::IfThen => String::from_str("IfThen"),
            Operations::Concat => String::from_str("Concat"),
            Operations::ForLoop => String::from_str("ForLoop"),
        }
    }

    /// The executor that this operation is bound to.
    pub fn bind<F, G>(&self) -> (r: Executors<F, G>)
        ensures
            r == self.executor::<F, G>(),
    {
        match self {
            Operations::Add => Executors::Piped(PipedExecutor::new(PipedOperation::Add)),
            Operations::Subtract => Executors::Piped(PipedExecutor::new(PipedOperation::Subtract)),
            Operations::Divide => Executors::Piped(PipedExecutor::new(PipedOperation::Divide)),
            Operations::Multiply => Executors::Piped(PipedExecutor::new(PipedOperation::Multiply)),
            Operations::Modulus => Executors::Piped(PipedExecutor::new(PipedOperation::Modulus)),
            Operations::And => Executors::Piped(PipedExecutor::new(PipedOperation::And)),
            Operations::Or => Executors::Piped(PipedExecutor::new(PipedOperation::Or)),
            Operations::Equals => Executors::Piped(PipedExecutor::new(PipedOperation::Equals)),
            Operations::NotEquals => Executors::Piped(
                PipedExecutor::new(PipedOperation::NotEquals),
            ),
            Operations::GreaterThan => Executors::Piped(
                PipedExecutor::new(PipedOperation::GreaterThan),
            ),
            Operations::LessThan => Executors::Piped(PipedExecutor::new(PipedOperation::LessThan)),
            Operations::GreaterThanEquals => Executors::Piped(
                PipedExecutor::new(PipedOperation::GreaterThanEquals),
            ),
            Operations::LessThanEquals => Executors::Piped(
                PipedExecutor::new(PipedOperation::LessThanEquals),
            ),
            Operations::Assign => Executors::Piped(PipedExecutor::new(PipedOperation::Assign)),
            Operations::IfThen => Executors::Conditional(
                ConditionalExecutor::new(ConditionalOperation::IfThen),
            ),
            Operations::Concat => Executors::Indeterminate(
                IndeterminateExecutor::new(IndeterminateOperation::Concat),
            ),
            Operations::ForLoop => Executors::Loop(LoopExecutor::new(LoopOperation::ForLoop)),
        }
    }

    /// This operation applied to `nodes`, however many they are: a number
    /// that the executor does not take shows as a failure when the
    /// operation is evaluated.
    pub fn build<F, G>(&self, nodes: Vec<Node<F, G>>) -> (r: Operation<F, G>)
        ensures
            self.is_built(r, nodes),
    {
        Operation { name: self.label(), oper: self.bind(), nodes }
    }

    /// This operation applied to `nodes`, where the executor takes that
    /// many; a failure otherwise.
    pub fn checked_build<F, G>(&self, nodes: Vec<Node<F, G>>) -> (r: Result<
        Operation<F, G>,
        TemplarError,
    >)
        ensures
            self.shape().admits(nodes@.len() as int) ==> r is Ok && self.is_built(r->Ok_0, nodes),
            !self.shape().admits(nodes@.len() as int) ==> r is Err && r->Err_0@ == build_failure(),
    {
        if self.metadata().accepts(nodes.len()) {
            Ok(self.build(nodes))
        } else {
            Err(
                TemplarError::ParseFailure(
                    String::from_str("Operation built with the wrong number of nodes"),
                ),
            )
        }
    }
}

/// The keys that a path stands for.
pub fn path_keys(path: &Vec<String>) -> (r: Vec<InnerData>)
    ensures
        inner_views(r@) == string_keys(segments(path@)),
{
    let mut keys: Vec<InnerData> = Vec::new();
    let mut i: usize = 0;
    while i < path.len()
        invariant
            i <= path.len(),
            keys@.len() == i,
            forall|j: int| 0 <= j < i ==> (#[trigger] keys@[j])@ == Value::String(path@[j]@),
        decreases path.len() - i,
    {
        keys.push(InnerData::String(path[i].clone()));
        i += 1;
    }
    assert(inner_views(keys@) =~= string_keys(segments(path@)));
    keys
}

fn truth_of(d: &Document) -> (r: bool)
    ensures
        r == truth(d@),
{
    match d {
        Document::Bool(b) => *b,
        _ => false,
    }
}

fn compute(kind: PipedOperation, a: &Document, b: &Document) -> (r: Data)
    ensures
        r@ == arithmetic(kind, a@, b@),
{
    match (a, b) {
        (Document::Integer(x), Document::Integer(y)) => {
            let x: i64 = *x;
            let y: i64 = *y;
            match kind {
                PipedOperation::Add => Data::from_i64(x.wrapping_add(y)),
                PipedOperation::Subtract => Data::from_i64(x.wrapping_sub(y)),
                PipedOperation::Multiply => Data::from_i64(x.wrapping_mul(y)),
                PipedOperation::Divide => {
                    if y == 0 {
                        Data::from_error(TemplarError::render("Division by zero"))
                    } else {
                        Data::from_i64(crate::integer::divide(x, y))
                    }
                },
                _ => {
                    if y == 0 {
                        Data::from_error(TemplarError::render("Division by zero"))
                    } else {
                        Data::from_i64(crate::integer::modulo(x, y))
                    }
                },
            }
        },
        _ => Data::from_error(TemplarError::render("Math operations require numeric types")),
    }
}

/// What a binary operation makes of two documents.
pub fn apply(kind: PipedOperation, a: &Document, b: &Document) -> (r: Data)
    ensures
        r@ == apply_binary(kind, a@, b@),
{
    proof {
        lemma_compare_equal(a@, b@);
    }
    match kind {
        PipedOperation::Add => compute(kind, a, b),
        PipedOperation::Subtract => compute(kind, a, b),
        PipedOperation::Divide => compute(kind, a, b),
        PipedOperation::Multiply => compute(kind, a, b),
        PipedOperation::Modulus => compute(kind, a, b),
        PipedOperation::And => {
            let x = truth_of(a);
            let y = truth_of(b);
            Data::from_bool(x && y)
        },
        PipedOperation::Or => {
            let x = truth_of(a);
            let y = truth_of(b);
            Data::from_bool(x || y)
        },
        PipedOperation::Equals => match a.compare(b) {
            Order::Equal => Data::from_bool(true),
            _ => Data::from_bool(false),
        },
        PipedOperation::NotEquals => match a.compare(b) {
            Order::Equal => Data::from_bool(false),
            _ => Data::from_bool(true),
        },
        PipedOperation::GreaterThan => match a.compare(b) {
            Order::Greater => Data::from_bool(true),
            _ => Data::from_bool(false),
        },
        PipedOperation::LessThan => match a.compare(b) {
            Order::Less => Data::from_bool(true),
            _ => Data::from_bool(false),
        },
        PipedOperation::GreaterThanEquals => match a.compare(b) {
            Order::Less => Data::from_bool(false),
            _ => Data::from_bool(true),
        },
        PipedOperation::LessThanEquals => match a.compare(b) {
            Order::Greater => Data::from_bool(false),
            _ => Data::from_bool(true),
        },
        PipedOperation::Assign => Data::empty(),
    }
}

/// What a binary operation makes of two evaluated nodes.
pub fn merge(kind: PipedOperation, left: Data, right: Data) -> (r: Data)
    ensures
        r@ == combine(kind, left@, right@),
{
    match left.into_document() {
        Err(e) => Data::from_error(e),
        Ok(a) => match right.into_document() {
            Err(e) => Data::from_error(e),
            Ok(b) => apply(kind, &a, &b),
        },
    }
}

fn binary<F: Filter, G: Function>(
    kind: PipedOperation,
    ctx: &mut Context,
    left: &Node<F, G>,
    right: &Node<F, G>,
) -> (r: Data)
    ensures
        (r@, final(ctx)@) == binary_eval(kind, *left, *right, old(ctx)@),
    decreases left.size() + right.size(), 1nat, 0nat,
{
    let l = left.exec(ctx);
    let r = right.exec(ctx);
    merge(kind, l, r)
}

/// The sum of two nodes.
pub fn add<F: Filter, G: Function>(ctx: &mut Context, left: &Node<F, G>, right: &Node<F, G>) -> (r:
    Data)
    ensures
        (r@, final(ctx)@) == binary_eval(PipedOperation::Add, *left, *right, old(ctx)@),
    decreases left.size() + right.size(), 2nat, 0nat,
{
    binary(PipedOperation::Add, ctx, left, right)
}

/// The difference of two nodes.
pub fn subtract<F: Filter, G: Function>(
    ctx: &mut Context,
    left: &Node<F, G>,
    right: &Node<F, G>,
) -> (r: Data)
    ensures
        (r@, final(ctx)@) == binary_eval(PipedOperation::Subtract, *left, *right, old(ctx)@),
    decreases left.size() + right.size(), 2nat, 0nat,
{
    binary(PipedOperation::Subtract, ctx, left, right)
}

/// The quotient of two nodes.
pub fn divide<F: Filter, G: Function>(
    ctx: &mut Context,
    left: &Node<F, G>,
    right: &Node<F, G>,
) -> (r: Data)
    ensures
        (r@, final(ctx)@) == binary_eval(PipedOperation::Divide, *left, *right, old(ctx)@),
    decreases left.size() + right.size(), 2nat, 0nat,
{
    binary(PipedOperation::Divide, ctx, left, right)
}

/// The product of two nodes.
pub fn multiply<F: Filter, G: Function>(
    ctx: &mut Context,
    left: &Node<F, G>,
    right: &Node<F, G>,
) -> (r: Data)
    ensures
        (r@, final(ctx)@) == binary_eval(PipedOperation::Multiply, *left, *right, old(ctx)@),
    decreases left.size() + right.size(), 2nat, 0nat,
{
    binary(PipedOperation::Multiply, ctx, left, right)
}

/// The remainder of two nodes.
pub fn modulus<F: Filter, G: Function>(
    ctx: &mut Context,
    left: &Node<F, G>,
    right: &Node<F, G>,
) -> (r: Data)
    ensures
        (r@, final(ctx)@) == binary_eval(PipedOperation::Modulus, *left, *right, old(ctx)@),
    decreases left.size() + right.size(), 2nat, 0nat,
{
    binary(PipedOperation::Modulus, ctx, left, right)
}

/// Whether both nodes are true.
pub fn and<F: Filter, G: Function>(ctx: &mut Context, left: &Node<F, G>, right: &Node<F, G>) -> (r:
    Data)
    ensures
        (r@, final(ctx)@) == binary_eval(PipedOperation::And, *left, *right, old(ctx)@),
    decreases left.size() + right.size(), 2nat, 0nat,
{
    binary(PipedOperation::And, ctx, left, right)
}

/// Whether one of the nodes is true.
pub fn or<F: Filter, G: Function>(ctx: &mut Context, left: &Node<F, G>, right: &Node<F, G>) -> (r:
    Data)
    ensures
        (r@, final(ctx)@) == binary_eval(PipedOperation::Or, *left, *right, old(ctx)@),
    decreases left.size() + right.size(), 2nat, 0nat,
{
    binary(PipedOperation::Or, ctx, left, right)
}

/// Whether the two nodes are the same value.
pub fn equals<F: Filter, G: Function>(
    ctx: &mut Context,
    left: &Node<F, G>,
    right: &Node<F, G>,
) -> (r: Data)
    ensures
        (r@, final(ctx)@) == binary_eval(PipedOperation::Equals, *left, *right, old(ctx)@),
    decreases left.size() + right.size(), 2nat, 0nat,
{
    binary(PipedOperation::Equals, ctx, left, right)
}

/// Whether the two nodes are different values.
pub fn not_equals<F: Filter, G: Function>(
    ctx: &mut Context,
    left: &Node<F, G>,
    right: &Node<F, G>,
) -> (r: Data)
    ensures
        (r@, final(ctx)@) == binary_eval(PipedOperation::NotEquals, *left, *right, old(ctx)@),
    decreases left.size() + right.size(), 2nat, 0nat,
{
    binary(PipedOperation::NotEquals, ctx, left, right)
}

/// Whether the left node is greater than the right one.
pub fn greater_than<F: Filter, G: Function>(
    ctx: &mut Context,
    left: &Node<F, G>,
    right: &Node<F, G>,
) -> (r: Data)
    ensures
        (r@, final(ctx)@) == binary_eval(PipedOperation::GreaterThan, *left, *right, old(ctx)@),
    decreases left.size() + right.size(), 2nat, 0nat,
{
    binary(PipedOperation::GreaterThan, ctx, left, right)
}

/// Whether the left node is less than the right one.
pub fn less_than<F: Filter, G: Function>(
    ctx: &mut Context,
    left: &Node<F, G>,
    right: &Node<F, G>,
) -> (r: Data)
    ensures
        (r@, final(ctx)@) == binary_eval(PipedOperation::LessThan, *left, *right, old(ctx)@),
    decreases left.size() + right.size(), 2nat, 0nat,
{
    binary(PipedOperation::LessThan, ctx, left, right)
}

/// Whether the left node is not less than the right one.
pub fn greater_than_equals<F: Filter, G: Function>(
    ctx: &mut Context,
    left: &Node<F, G>,
    right: &Node<F, G>,
) -> (r: Data)
    ensures
        (r@, final(ctx)@) == binary_eval(
            PipedOperation::GreaterThanEquals,
            *left,
            *right,
            old(ctx)@,
        ),
    decreases left.size() + right.size(), 2nat, 0nat,
{
    binary(PipedOperation::GreaterThanEquals, ctx, left, right)
}

/// Whether the left node is not greater than the right one.
pub fn less_than_equals<F: Filter, G: Function>(
    ctx: &mut Context,
    left: &Node<F, G>,
    right: &Node<F, G>,
) -> (r: Data)
    ensures
        (r@, final(ctx)@) == binary_eval(PipedOperation::LessThanEquals, *left, *right, old(ctx)@),
    decreases left.size() + right.size(), 2nat, 0nat,
{
    binary(PipedOperation::LessThanEquals, ctx, left, right)
}

/// Evaluates the condition, then the branch that it selects.
pub fn if_then<F: Filter, G: Function>(
    ctx: &mut Context,
    cnd: &Node<F, G>,
    p: &Node<F, G>,
    n: &Node<F, G>,
) -> (r: Data)
    ensures
        (r@, final(ctx)@) == if_then_eval(*cnd, *p, *n, old(ctx)@),
    decreases cnd.size() + p.size() + n.size(), 2nat, 0nat,
{
    let condition = cnd.exec(ctx).into_inner();
    match condition {
        InnerData::Bool(b) => {
            if b {
                p.exec(ctx)
            } else {
                n.exec(ctx)
            }
        },
        InnerData::Error(e) => Data::from_error(e),
        _ => Data::from_error(TemplarError::render("If condition must evaluate to boolean!")),
    }
}

/// Renders each node and joins what comes out.
pub fn concat<F: Filter, G: Function>(ctx: &mut Context, input: &Vec<Node<F, G>>) -> (r: Data)
    ensures
        (r@, final(ctx)@) == concat_eval(input@, old(ctx)@, 0, Seq::empty()),
    decreases total_size(input@), 2nat, 0nat,
{
    let mut out = String::new();
    let mut i: usize = 0;
    while i < input.len()
        invariant
            i <= input.len(),
            concat_eval(input@, old(ctx)@, 0, Seq::empty()) == concat_eval(
                input@,
                ctx@,
                i as int,
                out@,
            ),
        decreases input.len() - i,
    {
        proof {
            lemma_size_within(input@, i as int);
        }
        match input[i].render(ctx) {
            Ok(s) => {
                out.append(s.as_str());
            },
            Err(e) => {
                return Data::from_error(e);
            },
        }
        i += 1;
    }
    Data::from_string(out)
}

/// Runs the body once for each of `items`, bound under `keys`, and joins
/// what comes out.
pub fn run_loop<F: Filter, G: Function>(
    ctx: &mut Context,
    keys: &Vec<InnerData>,
    items: Vec<InnerData>,
    body: &Node<F, G>,
) -> (r: Data)
    ensures
        (r@, final(ctx)@) == loop_eval(
            inner_views(keys@),
            inner_views(items@),
            *body,
            old(ctx)@,
            0,
            Seq::empty(),
        ),
    decreases body.size(), 2nat, 0nat,
{
    let mut rest = items;
    let ghost all = inner_views(items@);
    let mut out = String::new();
    let mut i: usize = 0;
    while i < rest.len()
        invariant
            i <= rest.len(),
            rest@.len() == all.len(),
            all == inner_views(items@),
            forall|j: int| i <= j < rest@.len() ==> (#[trigger] rest@[j])@ == all[j],
            loop_eval(inner_views(keys@), all, *body, old(ctx)@, 0, Seq::empty()) == loop_eval(
                inner_views(keys@),
                all,
                *body,
                ctx@,
                i as int,
                out@,
            ),
        decreases rest.len() - i,
    {
        let item = rest[i].take();
        match ctx.set_path(keys, item) {
            Err(e) => {
                return Data::from_error(e);
            },
            Ok(_) => {},
        }
        match body.exec(ctx).into_document() {
            Err(e) => {
                return Data::from_error(e);
            },
            Ok(d) => {
                let part = d.to_text();
                out.append(part.as_str());
            },
        }
        i += 1;
    }
    Data::from_string(out)
}

/// The values that a loop over the given entries binds.
pub fn bind_entries(entries: Vec<(InnerData, InnerData)>) -> (r: Vec<InnerData>)
    ensures
        inner_views(r@) == entry_values(crate::data::inner_entry_views(entries@)),
{
    let mut rest = entries;
    let ghost all = crate::data::inner_entry_views(entries@);
    let mut out: Vec<InnerData> = Vec::new();
    let mut i: usize = 0;
    while i < rest.len()
        invariant
            i <= rest.len(),
            rest@.len() == all.len(),
            out@.len() == i,
            forall|j: int|
                i <= j < rest@.len() ==> (#[trigger] rest@[j]).0@ == all[j].0 && rest@[j].1@
                    == all[j].1,
            forall|j: int| 0 <= j < i ==> (#[trigger] out@[j])@ == entry_value(all[j].0, all[j].1),
        decreases rest.len() - i,
    {
        let key = rest[i].0.clone();
        let value = rest[i].1.take();
        let mut pair: Vec<(InnerData, InnerData)> = Vec::new();
        pair.push((InnerData::String(String::from_str("key")), key));
        pair.push((InnerData::String(String::from_str("value")), value));
        let bound = InnerData::Mapping(pair);
        proof {
            lemma_view_inner(bound);
            assert(bound@->Mapping_0 =~= entry_value(all[i as int].0, all[i as int].1)->Mapping_0);
        }
        out.push(bound);
        i += 1;
    }
    assert(inner_views(out@) =~= entry_values(all));
    out
}

/// Evaluates the iterable, then the body once for each thing in it.
pub fn for_loop<F: Filter, G: Function>(
    ctx: &mut Context,
    val_name: &Node<F, G>,
    array_path: &Node<F, G>,
    exec: &Node<F, G>,
) -> (r: Data)
    ensures
        (r@, final(ctx)@) == for_loop_eval(*val_name, *array_path, *exec, old(ctx)@),
    decreases val_name.size() + array_path.size() + exec.size(), 3nat, 0nat,
{
    let array = array_path.exec(ctx);
    if array.is_error() {
        return array;
    }
    match val_name {
        Node::Value(path) => {
            let keys = path_keys(path);
            let inner = array.into_inner();
            proof {
                lemma_view_inner(inner);
            }
            match inner {
                InnerData::Sequence(items) => run_loop(ctx, &keys, items, exec),
                InnerData::Mapping(entries) => {
                    let items = bind_entries(entries);
                    run_loop(ctx, &keys, items, exec)
                },
                other => match ctx.set_path(&keys, other) {
                    Err(e) => Data::from_error(e),
                    Ok(_) => exec.exec(ctx),
                },
            }
        },
        _ => Data::from_error(TemplarError::render("Unexpected render failure in for loop")),
    }
}

/// Evaluates the right node and writes its value where the left node says.
pub fn set<F: Filter, G: Function>(ctx: &mut Context, left: &Node<F, G>, right: &Node<F, G>) -> (r:
    Data)
    ensures
        (r@, final(ctx)@) == set_eval(*left, *right, old(ctx)@),
    decreases left.size() + right.size(), 2nat, 0nat,
{
    let val = right.exec(ctx);
    if val.is_error() {
        return val;
    }
    match left {
        Node::Value(path) => {
            let keys = path_keys(path);
            Data::check(ctx.set_path(&keys, val.into_inner()))
        },
        other => {
            let key = other.exec(ctx);
            if key.is_error() {
                return key;
            }
            let mut keys: Vec<InnerData> = Vec::new();
            let ghost k = key@;
            keys.push(key.into_inner());
            assert(inner_views(keys@) =~= seq![k]);
            Data::check(ctx.set_path(&keys, val.into_inner()))
        },
    }
}

} // verus!
