use templar::context::Context;
use templar::data::{Data, InnerData};
use templar::document::{find_entry, find_position, find_segment, fresh_document, insert_entry, Document};
use templar::error::TemplarError;
use templar::integer::{divide, modulo};
use templar::text::{compare_strings, decimal_string, read_index, Order};

fn word(s: &str) -> Document {
    Document::String(s.to_string())
}

fn number(i: i64) -> Document {
    Document::Integer(i)
}

fn list(items: Vec<Document>) -> Document {
    Document::Sequence(items)
}

fn table(entries: Vec<(&str, Document)>) -> Document {
    Document::Mapping(entries.into_iter().map(|(k, v)| (word(k), v)).collect())
}

fn segments_of(path: &[&str]) -> Vec<String> {
    path.iter().map(|s| s.to_string()).collect()
}

fn keys_of(path: &[&str]) -> Vec<InnerData> {
    path.iter().map(|s| InnerData::String(s.to_string())).collect()
}

fn render_failure(message: &str) -> TemplarError {
    TemplarError::RenderFailure(message.to_string())
}

#[test]
fn decimal_notation_of_integers() {
    assert_eq!(decimal_string(0), "0");
    assert_eq!(decimal_string(7), "7");
    assert_eq!(decimal_string(10), "10");
    assert_eq!(decimal_string(-1), "-1");
    assert_eq!(decimal_string(1234567890), "1234567890");
    assert_eq!(decimal_string(i64::MAX), "9223372036854775807");
    assert_eq!(decimal_string(i64::MIN), "-9223372036854775808");
}

#[test]
fn decimal_notation_agrees_with_the_standard_library() {
    for i in [-1000i64, -99, -10, -9, 0, 9, 10, 99, 100, 101, 65536, 999999999999] {
        assert_eq!(decimal_string(i), i.to_string());
    }
}

#[test]
fn segments_read_as_indices() {
    assert_eq!(read_index("0"), Some(0));
    assert_eq!(read_index("12"), Some(12));
    assert_eq!(read_index("007"), Some(7));
    assert_eq!(read_index(""), None);
    assert_eq!(read_index("1a"), None);
    assert_eq!(read_index("-1"), None);
    assert_eq!(read_index("+1"), None);
    assert_eq!(read_index(" 1"), None);
    assert_eq!(read_index("١"), None);
    assert_eq!(read_index("99999999999999999999999999"), None);
    assert_eq!(
        read_index(&usize::MAX.to_string()),
        Some(usize::MAX)
    );
}

#[test]
fn strings_compare_by_code_point() {
    assert_eq!(compare_strings("a", "b"), Order::Less);
    assert_eq!(compare_strings("b", "a"), Order::Greater);
    assert_eq!(compare_strings("abc", "abc"), Order::Equal);
    assert_eq!(compare_strings("ab", "abc"), Order::Less);
    assert_eq!(compare_strings("abc", "ab"), Order::Greater);
    assert_eq!(compare_strings("", ""), Order::Equal);
    assert_eq!(compare_strings("", "a"), Order::Less);
    assert_eq!(compare_strings("z", "é"), Order::Less);
    assert_eq!(compare_strings("Z", "a"), Order::Less);
}

#[test]
fn quotients_round_toward_zero() {
    assert_eq!(divide(7, 2), 3);
    assert_eq!(divide(-7, 2), -3);
    assert_eq!(divide(7, -2), -3);
    assert_eq!(divide(-7, -2), 3);
    assert_eq!(divide(0, 5), 0);
    assert_eq!(divide(i64::MIN, 1), i64::MIN);
    assert_eq!(divide(i64::MIN, -1), i64::MIN);
    assert_eq!(divide(i64::MAX, -1), -i64::MAX);
    assert_eq!(divide(i64::MIN, i64::MIN), 1);
}

#[test]
fn remainders_take_the_sign_of_the_dividend() {
    assert_eq!(modulo(7, 3), 1);
    assert_eq!(modulo(-7, 3), -1);
    assert_eq!(modulo(7, -3), 1);
    assert_eq!(modulo(-7, -3), -1);
    assert_eq!(modulo(6, 3), 0);
    assert_eq!(modulo(i64::MIN, -1), 0);
    assert_eq!(modulo(i64::MIN, i64::MAX), -1);
}

#[test]
fn quotient_and_remainder_agree_with_the_machine() {
    for x in [-9i64, -8, -1, 0, 1, 8, 9, i64::MAX, i64::MIN + 1] {
        for y in [-4i64, -3, -1, 1, 3, 4, i64::MAX] {
            assert_eq!(divide(x, y), x.wrapping_div(y));
            assert_eq!(modulo(x, y), x.wrapping_rem(y));
        }
    }
}

#[test]
fn documents_are_ordered_by_variant_first() {
    let ladder = vec![
        Document::Unit,
        Document::Bool(false),
        Document::Bool(true),
        number(-5),
        number(0),
        number(3),
        word(""),
        word("a"),
        word("b"),
        list(vec![]),
        list(vec![number(1)]),
        list(vec![number(1), number(0)]),
        list(vec![number(2)]),
        table(vec![]),
        table(vec![("a", number(1))]),
        table(vec![("a", number(2))]),
        table(vec![("b", number(0))]),
    ];
    for i in 0..ladder.len() {
        for j in 0..ladder.len() {
            let expected = if i < j {
                Order::Less
            } else if i == j {
                Order::Equal
            } else {
                Order::Greater
            };
            assert_eq!(ladder[i].compare(&ladder[j]), expected);
        }
    }
}

#[test]
fn documents_are_written_out() {
    assert_eq!(Document::Unit.to_text(), "");
    assert_eq!(Document::Bool(true).to_text(), "true");
    assert_eq!(Document::Bool(false).to_text(), "false");
    assert_eq!(number(-42).to_text(), "-42");
    assert_eq!(word("hi there").to_text(), "hi there");
    assert_eq!(list(vec![]).to_text(), "[]");
    assert_eq!(
        list(vec![number(1), word("x"), list(vec![number(2)])]).to_text(),
        "[1,x,[2]]"
    );
    assert_eq!(table(vec![]).to_text(), "{}");
    assert_eq!(
        table(vec![("a", number(1)), ("b", list(vec![Document::Unit, Document::Bool(true)]))])
            .to_text(),
        "{a:1,b:[,true]}"
    );
}

#[test]
fn a_clone_is_the_same_document() {
    let doc = table(vec![("a", list(vec![number(1), word("x")])), ("b", Document::Unit)]);
    assert_eq!(doc.clone(), doc);
}

#[test]
fn paths_are_read_through_mappings_and_sequences() {
    let doc = table(vec![
        ("a", table(vec![("b", number(5))])),
        ("l", list(vec![word("zero"), table(vec![("k", word("deep"))])])),
    ]);
    assert_eq!(doc.lookup(&segments_of(&[]), 0), Some(&doc));
    assert_eq!(doc.lookup(&segments_of(&["a", "b"]), 0), Some(&number(5)));
    assert_eq!(doc.lookup(&segments_of(&["l", "0"]), 0), Some(&word("zero")));
    assert_eq!(doc.lookup(&segments_of(&["l", "1", "k"]), 0), Some(&word("deep")));
    assert_eq!(doc.lookup(&segments_of(&["l", "2"]), 0), None);
    assert_eq!(doc.lookup(&segments_of(&["l", "x"]), 0), None);
    assert_eq!(doc.lookup(&segments_of(&["a", "c"]), 0), None);
    assert_eq!(doc.lookup(&segments_of(&["a", "b", "c"]), 0), None);
    assert_eq!(doc.lookup(&segments_of(&["zzz", "a", "b"]), 1), Some(&number(5)));
    assert_eq!(doc.lookup(&segments_of(&["a"]), 7), Some(&doc));
}

#[test]
fn entries_are_found_by_key() {
    let entries = vec![(number(1), word("one")), (word("k"), word("v")), (number(1), word("again"))];
    assert_eq!(find_entry(&entries, &number(1)), Some(0));
    assert_eq!(find_entry(&entries, &word("k")), Some(1));
    assert_eq!(find_entry(&entries, &word("1")), None);
    assert_eq!(find_segment(&entries, &"k".to_string()), Some(1));
    assert_eq!(find_segment(&entries, &"1".to_string()), None);
}

#[test]
fn new_entries_keep_a_mapping_sorted() {
    let mut entries: Vec<(Document, Document)> = Vec::new();
    insert_entry(&mut entries, word("m"), number(1));
    insert_entry(&mut entries, word("a"), number(2));
    insert_entry(&mut entries, word("z"), number(3));
    insert_entry(&mut entries, number(9), number(4));
    insert_entry(&mut entries, word("m"), number(5));
    assert_eq!(
        entries,
        vec![
            (number(9), number(4)),
            (word("a"), number(2)),
            (word("m"), number(5)),
            (word("z"), number(3)),
        ]
    );
    assert_eq!(find_position(&entries, &word("b")), 2);
    assert_eq!(find_position(&entries, &word("zz")), 4);
    assert_eq!(find_position(&entries, &Document::Unit), 0);
}

#[test]
fn a_fresh_document_is_a_chain_of_mappings() {
    let keys = vec![word("a"), number(2)];
    assert_eq!(
        fresh_document(&keys, 0, word("v")),
        Document::Mapping(vec![(word("a"), Document::Mapping(vec![(number(2), word("v"))]))])
    );
    assert_eq!(fresh_document(&keys, 2, word("v")), word("v"));
    assert_eq!(fresh_document(&keys, 5, word("v")), word("v"));
}

#[test]
fn writes_create_the_mappings_they_need() {
    let mut doc = Document::Unit;
    assert_eq!(doc.assign(&vec![word("a"), word("b")], 0, number(1)), Ok(()));
    assert_eq!(doc, table(vec![("a", table(vec![("b", number(1))]))]));
    assert_eq!(doc.assign(&vec![word("a"), word("a")], 0, number(2)), Ok(()));
    assert_eq!(
        doc,
        table(vec![("a", table(vec![("a", number(2)), ("b", number(1))]))])
    );
    assert_eq!(doc.assign(&vec![word("a"), word("b")], 0, word("new")), Ok(()));
    assert_eq!(
        doc,
        table(vec![("a", table(vec![("a", number(2)), ("b", word("new"))]))])
    );
    assert_eq!(doc.assign(&vec![], 0, number(3)), Ok(()));
    assert_eq!(doc, number(3));
}

#[test]
fn writes_enter_a_sequence_by_an_integer_within_bounds() {
    let mut doc = list(vec![number(1), table(vec![])]);
    assert_eq!(doc.assign(&vec![number(0)], 0, word("x")), Ok(()));
    assert_eq!(doc.assign(&vec![number(1), word("k")], 0, word("y")), Ok(()));
    assert_eq!(doc, list(vec![word("x"), table(vec![("k", word("y"))])]));
    let before = doc.clone();
    let failure = Err(render_failure("cannot assign through non-map"));
    assert_eq!(doc.assign(&vec![number(2)], 0, word("z")), failure);
    assert_eq!(doc.assign(&vec![number(-1)], 0, word("z")), failure);
    assert_eq!(doc.assign(&vec![word("0")], 0, word("z")), failure);
    assert_eq!(doc, before);
}

#[test]
fn a_write_through_a_scalar_fails_and_changes_nothing() {
    let mut doc = table(vec![("a", number(1)), ("s", word("text")), ("t", Document::Bool(true))]);
    let before = doc.clone();
    let failure = Err(render_failure("cannot assign through non-map"));
    assert_eq!(doc.assign(&vec![word("a"), word("b")], 0, number(2)), failure);
    assert_eq!(doc.assign(&vec![word("s"), word("b")], 0, number(2)), failure);
    assert_eq!(doc.assign(&vec![word("t"), word("b"), word("c")], 0, number(2)), failure);
    assert_eq!(doc, before);
}

#[test]
fn inner_data_and_documents_convert_into_each_other() {
    let doc = table(vec![("a", list(vec![number(1), Document::Bool(false)])), ("u", Document::Unit)]);
    let inner = InnerData::from_document(&doc);
    assert_eq!(
        inner,
        InnerData::Mapping(vec![
            (
                InnerData::String("a".to_string()),
                InnerData::Sequence(vec![InnerData::Integer(1), InnerData::Bool(false)])
            ),
            (InnerData::String("u".to_string()), InnerData::Unit),
        ])
    );
    assert_eq!(inner.to_document(), Ok(doc));
    assert_eq!(inner.clone(), inner);
}

#[test]
fn the_first_failure_inside_data_is_what_a_conversion_yields() {
    let first = TemplarError::RenderFailure("first".to_string());
    let second = TemplarError::ExternalFailure("second".to_string());
    let inner = InnerData::Sequence(vec![
        InnerData::Integer(1),
        InnerData::Mapping(vec![(InnerData::Unit, InnerData::Error(first.clone()))]),
        InnerData::Error(second.clone()),
    ]);
    assert_eq!(inner.to_document(), Err(first.clone()));
    assert_eq!(Data::new(inner).into_document(), Err(first));
    let keyed = InnerData::Mapping(vec![(
        InnerData::Error(second.clone()),
        InnerData::Error(TemplarError::ParseFailure("third".to_string())),
    )]);
    assert_eq!(keyed.to_document(), Err(second));
}

#[test]
fn the_carrier_of_nothing_is_unit() {
    assert_eq!(Data::empty().into_inner(), InnerData::Unit);
    assert_eq!(Data::empty().into_document(), Ok(Document::Unit));
}

#[test]
fn a_sequence_of_carriers_collapses_to_its_first_failure() {
    let e1 = TemplarError::RenderFailure("one".to_string());
    let e2 = TemplarError::RenderFailure("two".to_string());
    let good = Data::from_vec(vec![Data::from_i64(1), Data::from_bool(true), Data::empty()]);
    assert_eq!(
        good.into_inner(),
        InnerData::Sequence(vec![InnerData::Integer(1), InnerData::Bool(true), InnerData::Unit])
    );
    assert_eq!(Data::from_vec(vec![]).into_inner(), InnerData::Sequence(vec![]));
    let bad = Data::from_vec(vec![
        Data::from_i64(1),
        Data::from_error(e1.clone()),
        Data::from_i64(2),
        Data::from_error(e2),
    ]);
    assert_eq!(bad.into_inner(), InnerData::Error(e1));
}

#[test]
fn results_and_checks_tell_failures_from_values() {
    let e = TemplarError::ExternalFailure("boom".to_string());
    assert_eq!(Data::from_i64(3).into_result(), Ok(Data::from_i64(3)));
    assert_eq!(Data::from_error(e.clone()).into_result(), Err(e.clone()));
    assert_eq!(Data::check(Ok(())), Data::empty());
    assert_eq!(Data::check(Err(e.clone())), Data::from_error(e.clone()));
    assert!(Data::from_error(e).is_error());
    assert!(!Data::from_string("x".to_string()).is_error());
}

#[test]
fn an_outcome_is_carried_as_it_is() {
    let e = TemplarError::ExternalFailure("out".to_string());
    assert_eq!(Data::from_result(Ok(number(4))), Data::from_i64(4));
    assert_eq!(Data::from_result(Err(e.clone())), Data::from_error(e));
    assert_eq!(
        Data::from_document(list(vec![number(1)])).into_inner(),
        InnerData::Sequence(vec![InnerData::Integer(1)])
    );
}

#[test]
fn taking_leaves_unit_behind() {
    let mut data = Data::from_string("moved".to_string());
    assert_eq!(data.take(), InnerData::String("moved".to_string()));
    assert_eq!(data, Data::empty());
    let mut inner = InnerData::Sequence(vec![InnerData::Integer(1)]);
    assert_eq!(inner.take(), InnerData::Sequence(vec![InnerData::Integer(1)]));
    assert_eq!(inner, InnerData::Unit);
}

#[test]
fn casts_accept_their_own_variant_only() {
    assert_eq!(InnerData::Integer(5).cast_i64(), Some(5));
    assert_eq!(InnerData::Bool(true).cast_i64(), None);
    assert_eq!(InnerData::String("5".to_string()).cast_i64(), None);
    assert_eq!(InnerData::Bool(true).cast_bool(), Some(true));
    assert_eq!(InnerData::Integer(1).cast_bool(), None);
    assert_eq!(InnerData::Unit.cast_bool(), None);
}

#[test]
fn failures_carry_their_message() {
    assert_eq!(TemplarError::render("m"), TemplarError::RenderFailure("m".to_string()));
    assert_eq!(TemplarError::RenderFailure("a".to_string()).message(), "a");
    assert_eq!(TemplarError::ParseFailure("b".to_string()).message(), "b");
    assert_eq!(TemplarError::ExternalFailure("c".to_string()).message(), "c");
    let e = TemplarError::ParseFailure("p".to_string());
    assert_eq!(e.clone(), e);
}

#[test]
fn a_missing_path_reads_as_unit() {
    let ctx = Context::new(table(vec![("a", number(1))]));
    assert_eq!(ctx.get_path(&segments_of(&["b"])), Document::Unit);
    assert_eq!(ctx.get_path(&segments_of(&["a", "b"])), Document::Unit);
    assert_eq!(ctx.get_path(&segments_of(&["a"])), number(1));
}

#[test]
fn reads_consult_the_innermost_scope_first() {
    let mut ctx = Context::new(table(vec![("a", number(1)), ("b", number(2))]));
    ctx.scoped();
    assert_eq!(ctx.get_path(&segments_of(&["a"])), number(1));
    assert_eq!(ctx.set_path(&keys_of(&["a"]), InnerData::Integer(10)), Ok(()));
    assert_eq!(ctx.get_path(&segments_of(&["a"])), number(10));
    assert_eq!(ctx.get_path(&segments_of(&["b"])), number(2));
    ctx.scoped();
    assert_eq!(ctx.get_path(&segments_of(&["a"])), number(10));
    assert_eq!(ctx.set_path(&keys_of(&["a"]), InnerData::Integer(100)), Ok(()));
    assert_eq!(ctx.get_path(&segments_of(&["a"])), number(100));
    ctx.unscoped();
    assert_eq!(ctx.get_path(&segments_of(&["a"])), number(10));
    ctx.unscoped();
    assert_eq!(ctx.get_path(&segments_of(&["a"])), number(1));
    ctx.unscoped();
    assert_eq!(ctx.get_path(&segments_of(&["a"])), number(1));
}

#[test]
fn writes_in_a_scope_do_not_reach_the_parent() {
    let mut ctx = Context::new(table(vec![("a", table(vec![("x", number(1))]))]));
    ctx.scoped();
    assert_eq!(ctx.set_path(&keys_of(&["a", "y"]), InnerData::Integer(2)), Ok(()));
    assert_eq!(ctx.get_path(&segments_of(&["a", "y"])), number(2));
    assert_eq!(ctx.get_path(&segments_of(&["a", "x"])), number(1));
    assert_eq!(ctx.root, table(vec![("a", table(vec![("x", number(1))]))]));
    ctx.unscoped();
    assert_eq!(ctx.get_path(&segments_of(&["a", "y"])), Document::Unit);
}

#[test]
fn writes_without_a_scope_go_to_the_root() {
    let mut ctx = Context::new(Document::Unit);
    assert_eq!(ctx.set_path(&keys_of(&["a", "b"]), InnerData::Bool(true)), Ok(()));
    assert_eq!(ctx.root, table(vec![("a", table(vec![("b", Document::Bool(true))]))]));
    assert_eq!(
        ctx.set_path(&vec![InnerData::String("n".to_string()), InnerData::Integer(3)], InnerData::Unit),
        Ok(())
    );
    assert_eq!(
        ctx.get_path(&segments_of(&["n"])),
        Document::Mapping(vec![(number(3), Document::Unit)])
    );
}

#[test]
fn a_failed_write_leaves_the_context_as_it_was() {
    let mut ctx = Context::new(table(vec![("a", number(1))]));
    let failure = Err(render_failure("cannot assign through non-map"));
    assert_eq!(ctx.set_path(&keys_of(&["a", "b"]), InnerData::Integer(2)), failure);
    assert_eq!(ctx.root, table(vec![("a", number(1))]));
    let e = TemplarError::ExternalFailure("bad".to_string());
    assert_eq!(
        ctx.set_path(&keys_of(&["x"]), InnerData::Sequence(vec![InnerData::Error(e.clone())])),
        Err(e.clone())
    );
    let k = TemplarError::RenderFailure("key".to_string());
    assert_eq!(
        ctx.set_path(&vec![InnerData::Error(k.clone())], InnerData::Error(e)),
        Err(k)
    );
    assert_eq!(ctx.root, table(vec![("a", number(1))]));
    assert!(ctx.overlays.is_empty());
}
