//! Executors: the shapes an operation can have, each with the number of
//! nodes it takes and the way it hands them to its implementation.

use std::sync::Arc;
use vstd::prelude::*;
use crate::context::{Context, ContextView};
use crate::data::Data;
use crate::error::{Failure, TemplarError};
use crate::execution::node::{
    Filter, Function, Node, total_size, lemma_total_size_small, filter_eval, function_eval,
    run_filter, run_function,
};
use crate::execution::operation::{
    piped_eval, if_then_eval, concat_eval, for_loop_eval, subtract, divide, multiply,
    modulus, and, or, equals, not_equals, greater_than, less_than, greater_than_equals,
    less_than_equals, if_then, concat, for_loop,
};
use crate::value::Value;

verus! {

/// How many nodes an executor takes.
#[derive(Clone, Copy, Debug, PartialEq, Eq)]
pub struct Metadata {
    pub minimum_nodes: u16,
    pub maximum_nodes: Option<u16>,
}

impl Metadata {
    /// Whether an operation of this shape can have `n` nodes.
    pub open spec fn admits(self, n: int) -> bool {
        self.minimum_nodes <= n && match self.maximum_nodes {
            Some(m) => n <= m,
            None => true,
        }
    }

    /// Whether an operation of this shape can have `n` nodes.
    pub fn accepts(&self, n: usize) -> (r: bool)
        ensures
            r == self.admits(n as int),
    {
        self.minimum_nodes as usize <= n && match self.maximum_nodes {
            Some(m) => n <= m as usize,
            None => true,
        }
    }
}

/// The implementations that take a left and a right node.
#[derive(Clone, Copy, Debug, PartialEq, Eq, Structural)]
pub enum PipedOperation {
    Add,
    Subtract,
    Divide,
    Multiply,
    Modulus,
    And,
    Or,
    Equals,
    NotEquals,
    GreaterThan,
    LessThan,
    GreaterThanEquals,
    LessThanEquals,
    Assign,
}

/// The implementations that take a condition and one or two branches.
#[derive(Clone, Copy, Debug, PartialEq, Eq, Structural)]
pub enum ConditionalOperation {
    IfThen,
}

/// The implementations that take any number of nodes.
#[derive(Clone, Copy, Debug, PartialEq, Eq, Structural)]
pub enum IndeterminateOperation {
    Concat,
}

/// The implementations that take a binding, an iterable and a body.
#[derive(Clone, Copy, Debug, PartialEq, Eq, Structural)]
pub enum LoopOperation {
    ForLoop,
}

/// Hands every node it is given to its implementation.
pub struct IndeterminateExecutor(pub IndeterminateOperation);

/// Hands a condition and its branches to its implementation.
pub struct ConditionalExecutor(pub ConditionalOperation);

/// Hands a left and a right node to its implementation.
pub struct PipedExecutor(pub PipedOperation);

/// Hands a binding, an iterable and a body to its implementation.
pub struct LoopExecutor(pub LoopOperation);

/// Evaluates a piped node and arguments and hands them to a filter.
pub struct FilterExecutor<F>(pub Arc<F>);

/// Evaluates arguments and hands them to a function.
pub struct FunctionExecutor<G>(pub Arc<G>);

/// The closed family of executors.
pub enum Executors<F, G> {
    Piped(PipedExecutor),
    Conditional(ConditionalExecutor),
    Indeterminate(IndeterminateExecutor),
    Loop(LoopExecutor),
    Filter(FilterExecutor<F>),
    Function(FunctionExecutor<G>),
}

/// The failure of an operation that was given a number of nodes that its
/// executor does not take.
pub open spec fn arity_failure() -> Failure {
    Failure::Render("Operation applied to the wrong number of nodes"@)
}

fn arity_error() -> (r: Data)
    ensures
        r@ == Value::Error(arity_failure()),
{
    Data::from_error(TemplarError::render("Operation applied to the wrong number of nodes"))
}

impl<F: Filter, G: Function> Executors<F, G> {
    /// The number of nodes that this executor takes.
    pub open spec fn shape(self) -> Metadata {
        match self {
            Executors::Piped(_) => Metadata { minimum_nodes: 2, maximum_nodes: Some(2u16) },
            Executors::Conditional(_) => Metadata { minimum_nodes: 2, maximum_nodes: Some(3u16) },
            Executors::Indeterminate(_) => Metadata { minimum_nodes: 0, maximum_nodes: None },
            Executors::Loop(_) => Metadata { minimum_nodes: 3, maximum_nodes: Some(3u16) },
            Executors::Filter(_) => Metadata { minimum_nodes: 2, maximum_nodes: Some(2u16) },
            Executors::Function(_) => Metadata { minimum_nodes: 1, maximum_nodes: Some(1u16) },
        }
    }

    /// What this executor makes of `nodes` in the context `c`. A number of
    /// nodes that the executor does not take is a failure. A conditional
    /// without a negative branch has nothing in its place.
    pub open spec fn eval(self, nodes: Seq<Node<F, G>>, c: ContextView) -> (Value, ContextView)
        decreases 1 + total_size(nodes), 8nat, 0nat,
    {
        if !self.shape().admits(nodes.len() as int) {
            (Value::Error(arity_failure()), c)
        } else {
            proof {
                lemma_total_size_small(nodes);
            }
            match self {
                Executors::Piped(ex) => piped_eval(ex.0, nodes[0], nodes[1], c),
                Executors::Conditional(ex) => if_then_eval(
                    nodes[0],
                    nodes[1],
                    if nodes.len() == 3 {
                        nodes[2]
                    } else {
                        Node::Empty()
                    },
                    c,
                ),
                Executors::Indeterminate(ex) => concat_eval(nodes, c, 0, Seq::empty()),
                Executors::Loop(ex) => for_loop_eval(nodes[0], nodes[1], nodes[2], c),
                Executors::Filter(ex) => filter_eval(*ex.0, nodes[0], nodes[1], c),
                Executors::Function(ex) => function_eval(*ex.0, nodes[0], c),
            }
        }
    }

    /// The number of nodes that this executor takes.
    pub fn metadata(&self) -> (r: Metadata)
        ensures
            r == self.shape(),
    {
        match self {
            Executors::Piped(_) => PipedExecutor::metadata(),
            Executors::Conditional(_) => ConditionalExecutor::metadata(),
            Executors::Indeterminate(_) => IndeterminateExecutor::metadata(),
            Executors::Loop(_) => LoopExecutor::metadata(),
            Executors::Filter(_) => Metadata { minimum_nodes: 2, maximum_nodes: Some(2) },
            Executors::Function(_) => Metadata { minimum_nodes: 1, maximum_nodes: Some(1) },
        }
    }

    /// Runs this executor on `nodes` in `ctx`.
    pub fn exec(&self, ctx: &mut Context, nodes: &Vec<Node<F, G>>) -> (r: Data)
        ensures
            (r@, final(ctx)@) == self.eval(nodes@, old(ctx)@),
        decreases 1 + total_size(nodes@), 8nat, 0nat,
    {
        match self {
            Executors::Piped(ex) => ex.exec(ctx, nodes),
            Executors::Conditional(ex) => ex.exec(ctx, nodes),
            Executors::Indeterminate(ex) => ex.exec(ctx, nodes),
            Executors::Loop(ex) => ex.exec(ctx, nodes),
            Executors::Filter(ex) => ex.exec(ctx, nodes),
            Executors::Function(ex) => ex.exec(ctx, nodes),
        }
    }
}

impl IndeterminateExecutor {
    /// An executor for the given implementation.
    pub fn new(operation: IndeterminateOperation) -> (r: Self)
        ensures
            r.0 == operation,
    {
        IndeterminateExecutor(operation)
    }

    /// Any number of nodes.
    pub fn metadata() -> (r: Metadata)
        ensures
            r == (Metadata { minimum_nodes: 0, maximum_nodes: None }),
    {
        Metadata { minimum_nodes: 0, maximum_nodes: None }
    }

    /// Hands all of `nodes` to the implementation.
    pub fn exec<F: Filter, G: Function>(&self, ctx: &mut Context, nodes: &Vec<Node<F, G>>) -> (r:
        Data)
        ensures
            (r@, final(ctx)@) == Executors::<F, G>::Indeterminate(*self).eval(nodes@, old(ctx)@),
        decreases 1 + total_size(nodes@), 7nat, 0nat,
    {
        match self.0 {
            IndeterminateOperation::Concat => concat(ctx, nodes),
        }
    }
}

impl ConditionalExecutor {
    /// An executor for the given implementation.
    pub fn new(operation: ConditionalOperation) -> (r: Self)
        ensures
            r.0 == operation,
    {
        ConditionalExecutor(operation)
    }

    /// A condition, a positive branch, and perhaps a negative one.
    pub fn metadata() -> (r: Metadata)
        ensures
            r == (Metadata { minimum_nodes: 2, maximum_nodes: Some(3u16) }),
    {
        Metadata { minimum_nodes: 2, maximum_nodes: Some(3) }
    }

    /// Hands the condition and the branches to the implementation; where
    /// there is no negative branch, nothing stands in its place.
    pub fn exec<F: Filter, G: Function>(&self, ctx: &mut Context, nodes: &Vec<Node<F, G>>) -> (r:
        Data)
        ensures
            (r@, final(ctx)@) == Executors::<F, G>::Conditional(*self).eval(nodes@, old(ctx)@),
        decreases 1 + total_size(nodes@), 7nat, 0nat,
    {
        proof {
            lemma_total_size_small(nodes@);
        }
        if nodes.len() == 3 {
            match self.0 {
                ConditionalOperation::IfThen => if_then(ctx, &nodes[0], &nodes[1], &nodes[2]),
            }
        } else if nodes.len() == 2 {
            let nothing = Node::Empty();
            match self.0 {
                ConditionalOperation::IfThen => if_then(ctx, &nodes[0], &nodes[1], &nothing),
            }
        } else {
            arity_error()
        }
    }
}

impl PipedExecutor {
    /// An executor for the given implementation.
    pub fn new(operation: PipedOperation) -> (r: Self)
        ensures
            r.0 == operation,
    {
        PipedExecutor(operation)
    }

    /// A left and a right node.
    pub fn metadata() -> (r: Metadata)
        ensures
            r == (Metadata { minimum_nodes: 2, maximum_nodes: Some(2u16) }),
    {
        Metadata { minimum_nodes: 2, maximum_nodes: Some(2) }
    }

    /// Hands the two nodes to the implementation.
    pub fn exec<F: Filter, G: Function>(&self, ctx: &mut Context, nodes: &Vec<Node<F, G>>) -> (r:
        Data)
        ensures
            (r@, final(ctx)@) == Executors::<F, G>::Piped(*self).eval(nodes@, old(ctx)@),
        decreases 1 + total_size(nodes@), 7nat, 0nat,
    {
        if nodes.len() != 2 {
            return arity_error();
        }
        proof {
            lemma_total_size_small(nodes@);
        }
        let left = &nodes[0];
        let right = &nodes[1];
        match self.0 {
            PipedOperation::Add => crate::execution::operation::add(ctx, left, right),
            PipedOperation::Subtract => subtract(ctx, left, right),
            PipedOperation::Divide => divide(ctx, left, right),
            PipedOperation::Multiply => multiply(ctx, left, right),
            PipedOperation::Modulus => modulus(ctx, left, right),
            PipedOperation::And => and(ctx, left, right),
            PipedOperation::Or => or(ctx, left, right),
            PipedOperation::Equals => equals(ctx, left, right),
            PipedOperation::NotEquals => not_equals(ctx, left, right),
            PipedOperation::GreaterThan => greater_than(ctx, left, right),
            PipedOperation::LessThan => less_than(ctx, left, right),
            PipedOperation::GreaterThanEquals => greater_than_equals(ctx, left, right),
            PipedOperation::LessThanEquals => less_than_equals(ctx, left, right),
            PipedOperation::Assign => crate::execution::operation::set(ctx, left, right),
        }
    }
}

impl LoopExecutor {
    /// An executor for the given implementation.
    pub fn new(operation: LoopOperation) -> (r: Self)
        ensures
            r.0 == operation,
    {
        LoopExecutor(operation)
    }

    /// A binding, an iterable and a body.
    pub fn metadata() -> (r: Metadata)
        ensures
            r == (Metadata { minimum_nodes: 3, maximum_nodes: Some(3u16) }),
    {
        Metadata { minimum_nodes: 3, maximum_nodes: Some(3) }
    }

    /// Hands the three nodes to the implementation.
    pub fn exec<F: Filter, G: Function>(&self, ctx: &mut Context, nodes: &Vec<Node<F, G>>) -> (r:
        Data)
        ensures
            (r@, final(ctx)@) == Executors::<F, G>::Loop(*self).eval(nodes@, old(ctx)@),
        decreases 1 + total_size(nodes@), 7nat, 0nat,
    {
        if nodes.len() != 3 {
            return arity_error();
        }
        proof {
            lemma_total_size_small(nodes@);
        }
        match self.0 {
            LoopOperation::ForLoop => for_loop(ctx, &nodes[0], &nodes[1], &nodes[2]),
        }
    }
}

impl<F: Filter> FilterExecutor<F> {
    /// An executor for the given filter.
    pub fn new(filter: Arc<F>) -> (r: Self)
        ensures
            r.0 == filter,
    {
        FilterExecutor(filter)
    }

    /// Evaluates the piped node and the arguments, then applies the filter.
    pub fn exec<G: Function>(&self, ctx: &mut Context, nodes: &Vec<Node<F, G>>) -> (r: Data)
        ensures
            (r@, final(ctx)@) == Executors::<F, G>::Filter(*self).eval(nodes@, old(ctx)@),
        decreases 1 + total_size(nodes@), 7nat, 0nat,
    {
        if nodes.len() != 2 {
            return arity_error();
        }
        proof {
            lemma_total_size_small(nodes@);
        }
        let p = nodes[0].exec(ctx);
        let a = nodes[1].exec(ctx);
        run_filter(&*self.0, p, a)
    }
}

impl<G: Function> FunctionExecutor<G> {
    /// An executor for the given function.
    pub fn new(function: Arc<G>) -> (r: Self)
        ensures
            r.0 == function,
    {
        FunctionExecutor(function)
    }

    /// Evaluates the arguments, then calls the function.
    pub fn exec<F: Filter>(&self, ctx: &mut Context, nodes: &Vec<Node<F, G>>) -> (r: Data)
        ensures
            (r@, final(ctx)@) == Executors::<F, G>::Function(*self).eval(nodes@, old(ctx)@),
        decreases 1 + total_size(nodes@), 7nat, 0nat,
    {
        if nodes.len() != 1 {
            return arity_error();
        }
        proof {
            lemma_total_size_small(nodes@);
        }
        let a = nodes[0].exec(ctx);
        run_function(&*self.0, a)
    }
}

} // verus!
