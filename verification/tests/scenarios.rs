use std::sync::Arc;
use templar::context::Context;
use templar::data::Data;
use templar::document::Document;
use templar::error::{Failure, TemplarError};
use templar::execution::node::{Filter, Function, Node};
use templar::execution::operation::Operations;
use templar::value::Value;

struct Length;

impl Filter for Length {
    fn apply_spec(&self, _piped: Value, _args: Value) -> Result<Value, Failure> {
        unreachable!()
    }

    fn apply(&self, piped: Document, _args: Document) -> Result<Document, TemplarError> {
        match piped {
            Document::Sequence(items) => Ok(Document::Integer(items.len() as i64)),
            Document::Mapping(entries) => Ok(Document::Integer(entries.len() as i64)),
            Document::String(s) => Ok(Document::Integer(s.chars().count() as i64)),
            _ => Err(TemplarError::ExternalFailure("length of a scalar".to_string())),
        }
    }
}

struct Twice;

impl Function for Twice {
    fn call_spec(&self, _args: Value) -> Result<Value, Failure> {
        unreachable!()
    }

    fn call(&self, args: Document) -> Result<Document, TemplarError> {
        match args {
            Document::Integer(i) => Ok(Document::Integer(i.wrapping_mul(2))),
            _ => Err(TemplarError::ExternalFailure("twice of no number".to_string())),
        }
    }
}

type Tree = Node<Length, Twice>;

fn text(s: &str) -> Document {
    Document::String(s.to_string())
}

fn literal(d: Document) -> Tree {
    Node::Data(Data::from_document(d))
}

fn variable(path: &[&str]) -> Tree {
    Node::Value(path.iter().map(|s| s.to_string()).collect())
}

fn operation(op: Operations, nodes: Vec<Tree>) -> Tree {
    Node::Operation(op.build(nodes))
}

fn sample() -> Context {
    Context::new(Document::Mapping(vec![
        (text("name"), text("world")),
        (
            text("nums"),
            Document::Sequence(vec![
                Document::Integer(1),
                Document::Integer(2),
                Document::Integer(3),
            ]),
        ),
        (
            text("obj"),
            Document::Mapping(vec![
                (text("a"), Document::Integer(1)),
                (text("b"), Document::Integer(2)),
            ]),
        ),
    ]))
}

#[test]
fn renders_a_variable_inside_text() {
    let tree = operation(
        Operations::Concat,
        vec![literal(text("hello ")), variable(&["name"])],
    );
    let mut ctx = sample();
    assert_eq!(tree.render(&mut ctx), Ok("hello world".to_string()));
}

#[test]
fn evaluates_nested_arithmetic() {
    let product = operation(
        Operations::Multiply,
        vec![literal(Document::Integer(3)), literal(Document::Integer(4))],
    );
    let tree = operation(Operations::Add, vec![literal(Document::Integer(2)), product]);
    let mut ctx = sample();
    assert_eq!(tree.render(&mut ctx), Ok("14".to_string()));
}

#[test]
fn loops_over_a_sequence() {
    let body = operation(
        Operations::Concat,
        vec![variable(&["n"]), literal(text(","))],
    );
    let tree = operation(
        Operations::ForLoop,
        vec![variable(&["n"]), variable(&["nums"]), body],
    )
    .into_scope();
    let mut ctx = sample();
    assert_eq!(tree.render(&mut ctx), Ok("1,2,3,".to_string()));
}

#[test]
fn loops_over_a_mapping_in_its_order() {
    let body = operation(
        Operations::Concat,
        vec![
            variable(&["e", "key"]),
            literal(text("=")),
            variable(&["e", "value"]),
            literal(text(";")),
        ],
    );
    let tree = operation(
        Operations::ForLoop,
        vec![variable(&["e"]), variable(&["obj"]), body],
    )
    .into_scope();
    let mut ctx = sample();
    assert_eq!(tree.render(&mut ctx), Ok("a=1;b=2;".to_string()));
}

#[test]
fn branches_on_a_filtered_comparison() {
    let length = Node::Filter(Box::new((variable(&["nums"]), Arc::new(Length), Node::Empty())));
    let condition = operation(
        Operations::GreaterThan,
        vec![length, literal(Document::Integer(2))],
    );
    let tree = operation(
        Operations::IfThen,
        vec![condition, literal(text("big")), literal(text("small"))],
    );
    let mut ctx = sample();
    assert_eq!(tree.render(&mut ctx), Ok("big".to_string()));
}

#[test]
fn renders_a_missing_path_as_nothing() {
    let tree = variable(&["missing", "path"]);
    let mut ctx = sample();
    assert_eq!(tree.render(&mut ctx), Ok(String::new()));
}

#[test]
fn calls_a_function_on_its_arguments() {
    let tree: Tree = Node::Function(Box::new((Arc::new(Twice), literal(Document::Integer(21)))));
    let mut ctx = sample();
    assert_eq!(tree.render(&mut ctx), Ok("42".to_string()));
}

fn number(i: i64) -> Tree {
    literal(Document::Integer(i))
}

fn failing(message: &str) -> Tree {
    Node::Data(Data::from_error(TemplarError::ExternalFailure(message.to_string())))
}

fn external(message: &str) -> Data {
    Data::from_error(TemplarError::ExternalFailure(message.to_string()))
}

fn render_failure(message: &str) -> Data {
    Data::from_error(TemplarError::RenderFailure(message.to_string()))
}

fn assign(path: &[&str], value: Tree) -> Tree {
    operation(Operations::Assign, vec![variable(path), value])
}

fn binary(op: Operations, a: Tree, b: Tree) -> Data {
    let mut ctx = sample();
    operation(op, vec![a, b]).exec(&mut ctx)
}

#[test]
fn a_literal_evaluates_to_itself() {
    let mut ctx = sample();
    assert_eq!(number(5).exec(&mut ctx), Data::from_i64(5));
    assert_eq!(failing("x").exec(&mut ctx), external("x"));
    let empty: Tree = Node::Empty();
    assert_eq!(empty.exec(&mut ctx), Data::empty());
    assert_eq!(empty.render(&mut ctx), Ok(String::new()));
    let default: Tree = Node::default();
    assert!(matches!(default, Node::Empty()));
}

#[test]
fn a_literal_renders_as_its_written_form() {
    let mut ctx = sample();
    assert_eq!(number(-12).render(&mut ctx), Ok("-12".to_string()));
    assert_eq!(literal(Document::Bool(true)).render(&mut ctx), Ok("true".to_string()));
    assert_eq!(literal(Document::Unit).render(&mut ctx), Ok(String::new()));
    let doc = Document::Sequence(vec![Document::Integer(1), text("a")]);
    assert_eq!(literal(doc.clone()).render(&mut ctx), Ok(doc.to_text()));
    assert_eq!(
        failing("no").render(&mut ctx),
        Err(TemplarError::ExternalFailure("no".to_string()))
    );
}

#[test]
fn a_quiet_node_yields_the_same_data_again() {
    let tree = operation(
        Operations::Concat,
        vec![
            variable(&["name"]),
            operation(Operations::Add, vec![number(1), variable(&["nums", "2"])]),
            assign(&["name"], literal(text("changed"))).into_scope(),
        ],
    );
    let mut ctx = sample();
    let first = tree.exec(&mut ctx);
    let second = tree.exec(&mut ctx);
    assert_eq!(first, Data::from_string("world4".to_string()));
    assert_eq!(first, second);
    assert_eq!(ctx.root, sample().root);
    assert!(ctx.overlays.is_empty());
}

#[test]
fn an_assignment_outside_a_scope_shows_in_the_next_evaluation() {
    let tree: Tree = Node::Array(vec![variable(&["x"]), assign(&["x"], number(1))]);
    let mut ctx = sample();
    assert_eq!(
        tree.exec(&mut ctx),
        Data::from_vec(vec![Data::empty(), Data::empty()])
    );
    assert_eq!(
        tree.exec(&mut ctx),
        Data::from_vec(vec![Data::from_i64(1), Data::empty()])
    );
}

#[test]
fn the_first_failure_of_a_container_is_its_result() {
    let mut ctx = sample();
    let array: Tree = Node::Array(vec![
        number(1),
        assign(&["seen"], number(1)),
        failing("first"),
        failing("second"),
        assign(&["late"], number(1)),
    ]);
    assert_eq!(array.exec(&mut ctx), external("first"));
    assert_eq!(ctx.get_path(&vec!["seen".to_string()]), Document::Integer(1));
    assert_eq!(ctx.get_path(&vec!["late".to_string()]), Document::Unit);
    let expr: Tree = Node::Expr(vec![number(1), failing("e1"), failing("e2")]);
    assert_eq!(expr.exec(&mut ctx), external("e1"));
    let mapping: Tree = Node::Mapping(vec![
        (text("a"), number(1)),
        (text("b"), failing("m1")),
        (text("c"), failing("m2")),
    ]);
    assert_eq!(mapping.exec(&mut ctx), external("m1"));
    let joined = operation(
        Operations::Concat,
        vec![number(1), failing("c1"), failing("c2")],
    );
    assert_eq!(joined.exec(&mut ctx), external("c1"));
    let looped = operation(
        Operations::ForLoop,
        vec![variable(&["n"]), variable(&["nums"]), failing("body")],
    );
    assert_eq!(looped.exec(&mut ctx), external("body"));
}

#[test]
fn a_write_inside_a_scope_is_gone_afterwards() {
    let mut ctx = sample();
    let inner: Tree = Node::Array(vec![
        assign(&["fresh"], number(7)),
        assign(&["name"], literal(text("shadow"))),
        variable(&["fresh"]),
        variable(&["name"]),
    ]);
    let scoped = inner.into_scope();
    assert_eq!(
        scoped.exec(&mut ctx),
        Data::from_vec(vec![
            Data::empty(),
            Data::empty(),
            Data::from_i64(7),
            Data::from_string("shadow".to_string()),
        ])
    );
    assert_eq!(ctx.get_path(&vec!["fresh".to_string()]), Document::Unit);
    assert_eq!(ctx.get_path(&vec!["name".to_string()]), text("world"));
    assert_eq!(ctx.root, sample().root);
    assert!(ctx.overlays.is_empty());
}

#[test]
fn a_failure_inside_a_scope_still_closes_it() {
    let mut ctx = sample();
    let scoped = Node::Array(vec![assign(&["x"], number(1)), failing("inside")]).into_scope();
    assert_eq!(scoped.exec(&mut ctx), external("inside"));
    assert!(ctx.overlays.is_empty());
    assert_eq!(ctx.get_path(&vec!["x".to_string()]), Document::Unit);
}

#[test]
fn sums_and_products_do_not_depend_on_the_order() {
    for (a, b) in [(2i64, 3i64), (-7, 11), (0, 5), (i64::MAX, 1), (i64::MIN, -1), (i64::MAX, i64::MAX)] {
        assert_eq!(
            binary(Operations::Add, number(a), number(b)),
            binary(Operations::Add, number(b), number(a))
        );
        assert_eq!(
            binary(Operations::Multiply, number(a), number(b)),
            binary(Operations::Multiply, number(b), number(a))
        );
        assert_eq!(
            binary(Operations::Equals, number(a), number(b)),
            binary(Operations::Equals, number(b), number(a))
        );
        assert_eq!(
            binary(Operations::NotEquals, number(a), number(b)),
            binary(Operations::NotEquals, number(b), number(a))
        );
    }
    for (a, b) in [(true, false), (false, false), (true, true)] {
        let x = || literal(Document::Bool(a));
        let y = || literal(Document::Bool(b));
        assert_eq!(binary(Operations::And, x(), y()), binary(Operations::And, y(), x()));
        assert_eq!(binary(Operations::Or, x(), y()), binary(Operations::Or, y(), x()));
    }
}

#[test]
fn arithmetic_on_integers() {
    assert_eq!(binary(Operations::Add, number(2), number(3)), Data::from_i64(5));
    assert_eq!(binary(Operations::Subtract, number(2), number(3)), Data::from_i64(-1));
    assert_eq!(binary(Operations::Multiply, number(-4), number(3)), Data::from_i64(-12));
    assert_eq!(binary(Operations::Divide, number(-7), number(2)), Data::from_i64(-3));
    assert_eq!(binary(Operations::Modulus, number(-7), number(2)), Data::from_i64(-1));
}

#[test]
fn arithmetic_wraps_on_overflow() {
    assert_eq!(
        binary(Operations::Add, number(i64::MAX), number(1)),
        Data::from_i64(i64::MIN)
    );
    assert_eq!(
        binary(Operations::Subtract, number(i64::MIN), number(1)),
        Data::from_i64(i64::MAX)
    );
    assert_eq!(
        binary(Operations::Multiply, number(i64::MAX), number(2)),
        Data::from_i64(-2)
    );
    assert_eq!(
        binary(Operations::Divide, number(i64::MIN), number(-1)),
        Data::from_i64(i64::MIN)
    );
    assert_eq!(
        binary(Operations::Modulus, number(i64::MIN), number(-1)),
        Data::from_i64(0)
    );
}

#[test]
fn arithmetic_rejects_what_is_no_number_and_a_zero_divisor() {
    let math = render_failure("Math operations require numeric types");
    assert_eq!(binary(Operations::Add, number(1), literal(text("2"))), math);
    assert_eq!(binary(Operations::Multiply, literal(Document::Bool(true)), number(2)), math);
    assert_eq!(binary(Operations::Subtract, literal(Document::Unit), number(2)), math);
    assert_eq!(binary(Operations::Divide, number(1), literal(Document::Unit)), math);
    let zero = render_failure("Division by zero");
    assert_eq!(binary(Operations::Divide, number(1), number(0)), zero);
    assert_eq!(binary(Operations::Modulus, number(1), number(0)), zero);
}

#[test]
fn a_binary_operation_forwards_the_failure_of_an_operand() {
    assert_eq!(binary(Operations::Add, failing("l"), failing("r")), external("l"));
    assert_eq!(binary(Operations::Add, number(1), failing("r")), external("r"));
    assert_eq!(binary(Operations::Equals, failing("l"), number(1)), external("l"));
    assert_eq!(binary(Operations::And, number(1), failing("r")), external("r"));
}

#[test]
fn booleans_default_to_false() {
    let t = || literal(Document::Bool(true));
    let f = || literal(Document::Bool(false));
    assert_eq!(binary(Operations::And, t(), t()), Data::from_bool(true));
    assert_eq!(binary(Operations::And, t(), f()), Data::from_bool(false));
    assert_eq!(binary(Operations::Or, f(), t()), Data::from_bool(true));
    assert_eq!(binary(Operations::Or, f(), f()), Data::from_bool(false));
    assert_eq!(binary(Operations::And, t(), number(1)), Data::from_bool(false));
    assert_eq!(binary(Operations::Or, literal(text("true")), f()), Data::from_bool(false));
    assert_eq!(binary(Operations::Or, literal(Document::Unit), t()), Data::from_bool(true));
}

#[test]
fn comparisons_follow_the_order_of_values() {
    assert_eq!(binary(Operations::Equals, number(2), number(2)), Data::from_bool(true));
    assert_eq!(binary(Operations::Equals, number(2), literal(text("2"))), Data::from_bool(false));
    assert_eq!(binary(Operations::NotEquals, number(2), number(3)), Data::from_bool(true));
    assert_eq!(binary(Operations::NotEquals, literal(text("a")), literal(text("a"))), Data::from_bool(false));
    assert_eq!(binary(Operations::GreaterThan, number(3), number(2)), Data::from_bool(true));
    assert_eq!(binary(Operations::GreaterThan, number(2), number(2)), Data::from_bool(false));
    assert_eq!(binary(Operations::LessThan, literal(text("a")), literal(text("b"))), Data::from_bool(true));
    assert_eq!(binary(Operations::LessThan, number(2), number(2)), Data::from_bool(false));
    assert_eq!(binary(Operations::GreaterThanEquals, number(2), number(2)), Data::from_bool(true));
    assert_eq!(binary(Operations::GreaterThanEquals, number(1), number(2)), Data::from_bool(false));
    assert_eq!(binary(Operations::LessThanEquals, number(2), number(2)), Data::from_bool(true));
    assert_eq!(binary(Operations::LessThanEquals, number(3), number(2)), Data::from_bool(false));
    assert_eq!(binary(Operations::LessThan, number(100), literal(text(""))), Data::from_bool(true));
}

#[test]
fn concatenating_nothing_yields_the_empty_string() {
    let mut ctx = sample();
    let tree = operation(Operations::Concat, vec![]);
    assert_eq!(tree.exec(&mut ctx), Data::from_string(String::new()));
    assert_eq!(tree.render(&mut ctx), Ok(String::new()));
}

#[test]
fn concatenation_joins_written_forms_from_the_left() {
    let mut ctx = sample();
    let parts = || vec![literal(text("a")), number(1), Node::Empty(), variable(&["nums"])];
    let mut longer = parts();
    longer.push(literal(Document::Bool(false)));
    let short = operation(Operations::Concat, parts()).exec(&mut ctx);
    let long = operation(Operations::Concat, longer).exec(&mut ctx);
    assert_eq!(short, Data::from_string("a1[1,2,3]".to_string()));
    assert_eq!(long, Data::from_string("a1[1,2,3]false".to_string()));
}

#[test]
fn an_expression_of_one_node_is_that_node() {
    let mut ctx = sample();
    let inner = || operation(Operations::Add, vec![number(1), variable(&["nums", "0"])]);
    let wrapped: Tree = Node::Expr(vec![inner()]);
    assert_eq!(wrapped.exec(&mut ctx), inner().exec(&mut ctx));
    let failure: Tree = Node::Expr(vec![failing("only")]);
    assert_eq!(failure.exec(&mut ctx), external("only"));
    let none: Tree = Node::Expr(vec![]);
    assert_eq!(none.exec(&mut ctx), Data::empty());
    let two: Tree = Node::Expr(vec![number(1), number(2)]);
    assert_eq!(
        two.exec(&mut ctx),
        Data::from_vec(vec![Data::from_i64(1), Data::from_i64(2)])
    );
}

#[test]
fn a_conditional_takes_the_branch_that_its_condition_selects() {
    let mut ctx = sample();
    let branch = |c: Tree| {
        operation(
            Operations::IfThen,
            vec![c, assign(&["yes"], number(1)), assign(&["no"], number(1))],
        )
    };
    assert_eq!(branch(literal(Document::Bool(true))).exec(&mut ctx), Data::empty());
    assert_eq!(ctx.get_path(&vec!["yes".to_string()]), Document::Integer(1));
    assert_eq!(ctx.get_path(&vec!["no".to_string()]), Document::Unit);
    assert_eq!(branch(literal(Document::Bool(false))).exec(&mut ctx), Data::empty());
    assert_eq!(ctx.get_path(&vec!["no".to_string()]), Document::Integer(1));
}

#[test]
fn a_conditional_rejects_a_condition_that_is_no_boolean() {
    let mut ctx = sample();
    let branch = |c: Tree| {
        operation(
            Operations::IfThen,
            vec![c, assign(&["yes"], number(1)), assign(&["no"], number(1))],
        )
    };
    let failure = render_failure("If condition must evaluate to boolean!");
    assert_eq!(branch(number(1)).exec(&mut ctx), failure);
    assert_eq!(branch(literal(text("true"))).exec(&mut ctx), failure);
    assert_eq!(branch(literal(Document::Unit)).exec(&mut ctx), failure);
    assert_eq!(branch(failing("cond")).exec(&mut ctx), external("cond"));
    assert_eq!(ctx.get_path(&vec!["yes".to_string()]), Document::Unit);
    assert_eq!(ctx.get_path(&vec!["no".to_string()]), Document::Unit);
}

#[test]
fn a_conditional_without_a_negative_branch_yields_unit() {
    let mut ctx = sample();
    let only_then = |c: bool| {
        operation(
            Operations::IfThen,
            vec![literal(Document::Bool(c)), literal(text("then"))],
        )
    };
    assert_eq!(only_then(false).exec(&mut ctx), Data::empty());
    assert_eq!(only_then(false).render(&mut ctx), Ok(String::new()));
    assert_eq!(only_then(true).exec(&mut ctx), Data::from_string("then".to_string()));
}

#[test]
fn a_loop_binds_key_and_value_of_each_entry() {
    let mut ctx = Context::new(Document::Mapping(vec![(
        text("m"),
        Document::Mapping(vec![
            (Document::Integer(2), text("two")),
            (text("k"), Document::Sequence(vec![Document::Integer(1)])),
        ]),
    )]));
    let body = operation(
        Operations::Concat,
        vec![
            literal(text("<")),
            variable(&["e", "key"]),
            literal(text(">")),
            variable(&["e", "value"]),
        ],
    );
    let tree = operation(Operations::ForLoop, vec![variable(&["e"]), variable(&["m"]), body]);
    assert_eq!(tree.exec(&mut ctx), Data::from_string("<2>two<k>[1]".to_string()));
    assert_eq!(
        ctx.get_path(&vec!["e".to_string()]),
        Document::Mapping(vec![
            (text("key"), text("k")),
            (text("value"), Document::Sequence(vec![Document::Integer(1)])),
        ])
    );
}

#[test]
fn a_loop_over_a_scalar_binds_it_once() {
    let mut ctx = sample();
    let body = operation(Operations::Add, vec![variable(&["v"]), number(1)]);
    let tree = operation(Operations::ForLoop, vec![variable(&["v"]), number(41), body]);
    assert_eq!(tree.exec(&mut ctx), Data::from_i64(42));
    let empty = operation(
        Operations::ForLoop,
        vec![variable(&["v"]), literal(Document::Sequence(vec![])), failing("never")],
    );
    assert_eq!(empty.exec(&mut ctx), Data::from_string(String::new()));
}

#[test]
fn a_loop_needs_a_variable_to_bind() {
    let mut ctx = sample();
    let tree = operation(
        Operations::ForLoop,
        vec![number(1), variable(&["nums"]), variable(&["n"])],
    );
    assert_eq!(tree.exec(&mut ctx), render_failure("Unexpected render failure in for loop"));
    let broken = operation(
        Operations::ForLoop,
        vec![number(1), failing("iterable"), variable(&["n"])],
    );
    assert_eq!(broken.exec(&mut ctx), external("iterable"));
}

#[test]
fn a_loop_stops_at_a_binding_that_cannot_be_written() {
    let mut ctx = sample();
    let tree = operation(
        Operations::ForLoop,
        vec![variable(&["name", "x"]), variable(&["nums"]), number(1)],
    );
    assert_eq!(tree.exec(&mut ctx), render_failure("cannot assign through non-map"));
}

#[test]
fn an_assignment_through_a_scalar_fails() {
    let mut ctx = sample();
    let tree = assign(&["name", "first"], number(1));
    assert_eq!(tree.exec(&mut ctx), render_failure("cannot assign through non-map"));
    assert_eq!(ctx.root, sample().root);
    let deeper = assign(&["obj", "a", "b"], number(1));
    assert_eq!(deeper.exec(&mut ctx), render_failure("cannot assign through non-map"));
    assert_eq!(
        tree.render(&mut ctx),
        Err(TemplarError::RenderFailure("cannot assign through non-map".to_string()))
    );
}

#[test]
fn an_assignment_evaluates_its_right_side_first() {
    let mut ctx = sample();
    assert_eq!(assign(&["x", "y"], failing("right")).exec(&mut ctx), external("right"));
    assert_eq!(ctx.get_path(&vec!["x".to_string()]), Document::Unit);
    assert_eq!(assign(&["x", "y"], variable(&["nums"])).exec(&mut ctx), Data::empty());
    assert_eq!(
        ctx.get_path(&vec!["x".to_string(), "y".to_string(), "1".to_string()]),
        Document::Integer(2)
    );
}

#[test]
fn an_assignment_to_an_expression_writes_under_its_value() {
    let mut ctx = sample();
    let tree = operation(Operations::Assign, vec![variable(&["name"]).into_scope(), number(9)]);
    assert_eq!(tree.exec(&mut ctx), Data::empty());
    assert_eq!(ctx.get_path(&vec!["world".to_string()]), Document::Integer(9));
    let keyed = operation(Operations::Assign, vec![number(5), number(6)]);
    assert_eq!(keyed.exec(&mut ctx), Data::empty());
    assert_eq!(
        ctx.root.lookup(&vec![], 0).map(|d| match d {
            Document::Mapping(entries) => entries[0].clone(),
            _ => (Document::Unit, Document::Unit),
        }),
        Some((Document::Integer(5), Document::Integer(6)))
    );
    let failed = operation(Operations::Assign, vec![failing("left"), number(1)]);
    assert_eq!(failed.exec(&mut ctx), external("left"));
}

#[test]
fn a_mapping_literal_binds_its_keys_in_order() {
    let mut ctx = sample();
    let tree: Tree = Node::Mapping(vec![
        (text("b"), number(1)),
        (text("a"), variable(&["name"])),
        (text("b"), number(3)),
        (Document::Integer(0), literal(Document::Unit)),
    ]);
    assert_eq!(
        tree.exec(&mut ctx).into_document(),
        Ok(Document::Mapping(vec![
            (Document::Integer(0), Document::Unit),
            (text("a"), text("world")),
            (text("b"), Document::Integer(3)),
        ]))
    );
}

#[test]
fn a_filter_sees_the_documents_of_both_nodes() {
    let mut ctx = sample();
    let length = |piped: Tree| -> Tree { Node::Filter(Box::new((piped, Arc::new(Length), Node::Empty()))) };
    assert_eq!(length(variable(&["obj"])).exec(&mut ctx), Data::from_i64(2));
    assert_eq!(length(literal(text("héllo"))).exec(&mut ctx), Data::from_i64(5));
    assert_eq!(length(number(1)).exec(&mut ctx), external("length of a scalar"));
    assert_eq!(length(failing("piped")).exec(&mut ctx), external("piped"));
    let args: Tree = Node::Filter(Box::new((failing("piped"), Arc::new(Length), failing("args"))));
    assert_eq!(args.exec(&mut ctx), external("piped"));
    let late: Tree = Node::Filter(Box::new((variable(&["nums"]), Arc::new(Length), failing("args"))));
    assert_eq!(late.exec(&mut ctx), external("args"));
}

#[test]
fn a_function_reports_its_own_failure() {
    let mut ctx = sample();
    let twice = |args: Tree| -> Tree { Node::Function(Box::new((Arc::new(Twice), args))) };
    assert_eq!(twice(number(4)).exec(&mut ctx), Data::from_i64(8));
    assert_eq!(twice(literal(text("4"))).exec(&mut ctx), external("twice of no number"));
    assert_eq!(twice(failing("args")).exec(&mut ctx), external("args"));
}
