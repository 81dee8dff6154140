//! The mathematical model of structured values: what a value is, how two
//! values are ordered, how a value is written out, and how a path reads or
//! writes inside one.

use vstd::prelude::*;
use crate::error::Failure;
use crate::text::{
    Order, compare_int, compare_chars, decimal, parse_index, lemma_compare_chars_equal,
    lemma_compare_chars_reverse, lemma_compare_chars_transitive,
};

verus! {

/// A structured value as contracts see it. Documents and carried data both
/// view to this type; only carried data can hold `Error`.
pub enum Value {
    Unit,
    Bool(bool),
    Integer(i64),
    String(Seq<char>),
    Sequence(Seq<Value>),
    Mapping(Seq<(Value, Value)>),
    Error(Failure),
}

/// The first failure met when `v` is walked in pre-order, keys before the
/// values they map to; `None` when `v` holds no failure at all.
pub open spec fn first_error(v: Value) -> Option<Failure>
    decreases v, 0nat,
{
    match v {
        Value::Error(e) => Some(e),
        Value::Sequence(items) => first_error_in(items, 0),
        Value::Mapping(entries) => first_error_among(entries, 0),
        _ => None,
    }
}

/// The first failure in `items[from..]`.
pub open spec fn first_error_in(items: Seq<Value>, from: int) -> Option<Failure>
    decreases items, items.len() - from,
{
    if from < 0 || from >= items.len() {
        None
    } else {
        match first_error(items[from]) {
            Some(e) => Some(e),
            None => first_error_in(items, from + 1),
        }
    }
}

/// The first failure in `entries[from..]`, each key before its value.
pub open spec fn first_error_among(entries: Seq<(Value, Value)>, from: int) -> Option<Failure>
    decreases entries, entries.len() - from,
{
    if from < 0 || from >= entries.len() {
        None
    } else {
        match first_error(entries[from].0) {
            Some(e) => Some(e),
            None => match first_error(entries[from].1) {
                Some(e) => Some(e),
                None => first_error_among(entries, from + 1),
            },
        }
    }
}

/// The place of a value's variant in the order of variants.
pub open spec fn rank(v: Value) -> int {
    match v {
        Value::Unit => 0,
        Value::Bool(_) => 1,
        Value::Integer(_) => 2,
        Value::String(_) => 3,
        Value::Sequence(_) => 4,
        Value::Mapping(_) => 5,
        Value::Error(_) => 6,
    }
}

/// The place of a failure's kind in the order of kinds.
pub open spec fn failure_rank(f: Failure) -> int {
    match f {
        Failure::Render(_) => 0,
        Failure::Parse(_) => 1,
        Failure::External(_) => 2,
    }
}

/// The order of two failures: by kind, then by message.
pub open spec fn compare_failures(a: Failure, b: Failure) -> Order {
    if failure_rank(a) != failure_rank(b) {
        compare_int(failure_rank(a), failure_rank(b))
    } else {
        compare_chars(a.message(), b.message(), 0)
    }
}

/// The total order of values. Values of different variants are ordered by
/// variant; booleans have `false` first; integers are ordered by size;
/// strings, sequences and mappings lexicographically.
pub open spec fn compare(a: Value, b: Value) -> Order
    decreases a, 0nat,
{
    if rank(a) != rank(b) {
        compare_int(rank(a), rank(b))
    } else {
        match (a, b) {
            (Value::Bool(x), Value::Bool(y)) => compare_int(
                if x { 1 } else { 0 },
                if y { 1 } else { 0 },
            ),
            (Value::Integer(x), Value::Integer(y)) => compare_int(x as int, y as int),
            (Value::String(x), Value::String(y)) => compare_chars(x, y, 0),
            (Value::Sequence(x), Value::Sequence(y)) => compare_items(x, y, 0),
            (Value::Mapping(x), Value::Mapping(y)) => compare_entries(x, y, 0),
            (Value::Error(x), Value::Error(y)) => compare_failures(x, y),
            _ => Order::Equal,
        }
    }
}

/// Lexicographic order of `a[from..]` and `b[from..]`.
pub open spec fn compare_items(a: Seq<Value>, b: Seq<Value>, from: int) -> Order
    decreases a, a.len() - from,
{
    if from < 0 {
        Order::Equal
    } else if from >= a.len() {
        if from >= b.len() {
            Order::Equal
        } else {
            Order::Less
        }
    } else if from >= b.len() {
        Order::Greater
    } else {
        match compare(a[from], b[from]) {
            Order::Equal => compare_items(a, b, from + 1),
            o => o,
        }
    }
}

/// Lexicographic order of `a[from..]` and `b[from..]`, each entry by its
/// key and then by its value.
pub open spec fn compare_entries(a: Seq<(Value, Value)>, b: Seq<(Value, Value)>, from: int) -> Order
    decreases a, a.len() - from,
{
    if from < 0 {
        Order::Equal
    } else if from >= a.len() {
        if from >= b.len() {
            Order::Equal
        } else {
            Order::Less
        }
    } else if from >= b.len() {
        Order::Greater
    } else {
        match compare(a[from].0, b[from].0) {
            Order::Equal => match compare(a[from].1, b[from].1) {
                Order::Equal => compare_entries(a, b, from + 1),
                o => o,
            },
            o => o,
        }
    }
}

/// The written form of a value. Unit is the empty string, a boolean is
/// `true` or `false`, an integer its decimal notation, a string itself. A
/// sequence is its items between square brackets, a mapping its entries
/// between braces, key and value parted by a colon; items and entries are
/// parted by commas. A failure is written as its message.
pub open spec fn text(v: Value) -> Seq<char>
    decreases v, 0nat,
{
    match v {
        Value::Unit => Seq::empty(),
        Value::Bool(b) => if b {
            "true"@
        } else {
            "false"@
        },
        Value::Integer(i) => decimal(i as int),
        Value::String(s) => s,
        Value::Sequence(items) => text_items(items, 0, "["@) + "]"@,
        Value::Mapping(entries) => text_entries(entries, 0, "{"@) + "}"@,
        Value::Error(e) => e.message(),
    }
}

/// `acc` followed by the written forms of `items[from..]`.
pub open spec fn text_items(items: Seq<Value>, from: int, acc: Seq<char>) -> Seq<char>
    decreases items, items.len() - from,
{
    if from < 0 || from >= items.len() {
        acc
    } else {
        let sep = if from == 0 {
            Seq::<char>::empty()
        } else {
            ","@
        };
        text_items(items, from + 1, acc + sep + text(items[from]))
    }
}

/// `acc` followed by the written forms of `entries[from..]`.
pub open spec fn text_entries(entries: Seq<(Value, Value)>, from: int, acc: Seq<char>) -> Seq<char>
    decreases entries, entries.len() - from,
{
    if from < 0 || from >= entries.len() {
        acc
    } else {
        let sep = if from == 0 {
            Seq::<char>::empty()
        } else {
            ","@
        };
        text_entries(
            entries,
            from + 1,
            acc + sep + text(entries[from].0) + ":"@ + text(entries[from].1),
        )
    }
}

/// The index of the first entry at or after `from` whose key is `key`.
pub open spec fn find_key(entries: Seq<(Value, Value)>, key: Value, from: int) -> Option<int>
    decreases entries.len() - from,
{
    if from < 0 || from >= entries.len() {
        None
    } else if entries[from].0 == key {
        Some(from)
    } else {
        find_key(entries, key, from + 1)
    }
}

/// The index of the first entry at or after `from` whose key is greater
/// than `key`; the number of entries when there is none.
pub open spec fn insert_position(entries: Seq<(Value, Value)>, key: Value, from: int) -> int
    decreases entries.len() - from,
{
    if from < 0 || from >= entries.len() {
        entries.len() as int
    } else if compare(entries[from].0, key) is Greater {
        from
    } else {
        insert_position(entries, key, from + 1)
    }
}

/// The entries after `key` has been bound to `value`: the first entry with
/// that key is overwritten in place; where there is none, the new entry
/// goes before the first entry with a greater key.
pub open spec fn map_insert(entries: Seq<(Value, Value)>, key: Value, value: Value) -> Seq<
    (Value, Value),
> {
    match find_key(entries, key, 0) {
        Some(i) => entries.update(i, (key, value)),
        None => entries.insert(insert_position(entries, key, 0), (key, value)),
    }
}

/// Whether the keys of `entries` strictly increase.
pub open spec fn sorted(entries: Seq<(Value, Value)>) -> bool {
    forall|i: int, j: int|
        0 <= i < j < entries.len() ==> #[trigger] compare(entries[i].0, entries[j].0) is Less
}

/// What a read of `path[from..]` inside `v` finds: `None` where a segment
/// names nothing. A mapping is entered by the entry whose key is the
/// segment as a string, a sequence by the item at the index that the
/// segment denotes; nothing else can be entered.
pub open spec fn lookup(v: Value, path: Seq<Seq<char>>, from: int) -> Option<Value>
    decreases path.len() - from,
{
    if from < 0 {
        None
    } else if from >= path.len() {
        Some(v)
    } else {
        match v {
            Value::Mapping(entries) => match find_key(entries, Value::String(path[from]), 0) {
                Some(i) => lookup(entries[i].1, path, from + 1),
                None => None,
            },
            Value::Sequence(items) => match parse_index(path[from]) {
                Some(n) => if n < items.len() {
                    lookup(items[n as int], path, from + 1)
                } else {
                    None
                },
                None => None,
            },
            _ => None,
        }
    }
}

/// The keys that the segments of a path stand for: each segment as a
/// string.
pub open spec fn string_keys(path: Seq<Seq<char>>) -> Seq<Value> {
    Seq::new(path.len(), |i: int| Value::String(path[i]))
}

/// The value that holds `value` under `keys[from..]` and nothing else: a
/// chain of mappings with one entry each.
pub open spec fn fresh(keys: Seq<Value>, from: int, value: Value) -> Value
    decreases keys.len() - from,
{
    if from < 0 || from >= keys.len() {
        value
    } else {
        Value::Mapping(seq![(keys[from], fresh(keys, from + 1, value))])
    }
}

/// The failure of a write that would have to pass through a value that is
/// no mapping.
pub open spec fn assign_failure() -> Failure {
    Failure::Render("cannot assign through non-map"@)
}

/// `target` after a write of `value` under `keys[from..]`. A mapping is
/// entered by key, and gets a new entry where the key is missing; Unit is
/// taken for a mapping without entries; a sequence is entered by an integer
/// key within its bounds. A write through anything else fails.
pub open spec fn assign(target: Value, keys: Seq<Value>, from: int, value: Value) -> Result<
    Value,
    Failure,
>
    decreases keys.len() - from,
{
    if from < 0 || from >= keys.len() {
        Ok(value)
    } else {
        match target {
            Value::Unit => Ok(fresh(keys, from, value)),
            Value::Mapping(entries) => match find_key(entries, keys[from], 0) {
                Some(i) => match assign(entries[i].1, keys, from + 1, value) {
                    Ok(child) => Ok(Value::Mapping(entries.update(i, (entries[i].0, child)))),
                    Err(e) => Err(e),
                },
                None => Ok(
                    Value::Mapping(
                        entries.insert(
                            insert_position(entries, keys[from], 0),
                            (keys[from], fresh(keys, from + 1, value)),
                        ),
                    ),
                ),
            },
            Value::Sequence(items) => match keys[from] {
                Value::Integer(n) => if 0 <= n < items.len() {
                    match assign(items[n as int], keys, from + 1, value) {
                        Ok(child) => Ok(Value::Sequence(items.update(n as int, child))),
                        Err(e) => Err(e),
                    }
                } else {
                    Err(assign_failure())
                },
                _ => Err(assign_failure()),
            },
            _ => Err(assign_failure()),
        }
    }
}

/// Two values compare as equal exactly when they are the same value.
pub proof fn lemma_compare_equal(a: Value, b: Value)
    ensures
        compare(a, b) is Equal <==> a == b,
    decreases a, 0nat,
{
    if rank(a) == rank(b) {
        match (a, b) {
            (Value::String(x), Value::String(y)) => {
                lemma_compare_chars_equal(x, y, 0);
                if compare(a, b) is Equal {
                    assert(x =~= y);
                }
            },
            (Value::Sequence(x), Value::Sequence(y)) => {
                lemma_compare_items_equal(x, y, 0);
                if compare(a, b) is Equal {
                    assert(x =~= y);
                }
            },
            (Value::Mapping(x), Value::Mapping(y)) => {
                lemma_compare_entries_equal(x, y, 0);
                if compare(a, b) is Equal {
                    assert(x =~= y);
                }
            },
            (Value::Error(x), Value::Error(y)) => {
                lemma_compare_chars_equal(x.message(), y.message(), 0);
                if compare(a, b) is Equal {
                    assert(x.message() =~= y.message());
                }
            },
            _ => {},
        }
    }
}

/// Two runs of items compare as equal exactly when they are as long as
/// each other and agree item by item.
pub proof fn lemma_compare_items_equal(a: Seq<Value>, b: Seq<Value>, from: int)
    requires
        0 <= from,
    ensures
        compare_items(a, b, from) is Equal <==> (a.len() == b.len() || (from >= a.len() && from
            >= b.len())) && forall|i: int| from <= i < a.len() && i < b.len() ==> a[i] == b[i],
    decreases a, a.len() - from,
{
    if from < a.len() && from < b.len() {
        lemma_compare_equal(a[from], b[from]);
        if compare(a[from], b[from]) is Equal {
            lemma_compare_items_equal(a, b, from + 1);
        }
    }
}

/// Two runs of entries compare as equal exactly when they are as long as
/// each other and agree entry by entry.
pub proof fn lemma_compare_entries_equal(
    a: Seq<(Value, Value)>,
    b: Seq<(Value, Value)>,
    from: int,
)
    requires
        0 <= from,
    ensures
        compare_entries(a, b, from) is Equal <==> (a.len() == b.len() || (from >= a.len() && from
            >= b.len())) && forall|i: int| from <= i < a.len() && i < b.len() ==> a[i] == b[i],
    decreases a, a.len() - from,
{
    if from < a.len() && from < b.len() {
        lemma_compare_equal(a[from].0, b[from].0);
        lemma_compare_equal(a[from].1, b[from].1);
        if compare(a[from].0, b[from].0) is Equal && compare(a[from].1, b[from].1) is Equal {
            lemma_compare_entries_equal(a, b, from + 1);
        }
    }
}

/// Exchanging the sides of a comparison reverses its outcome.
pub proof fn lemma_compare_reverse(a: Value, b: Value)
    ensures
        compare(b, a) == compare(a, b).reverse(),
    decreases a, 0nat,
{
    if rank(a) == rank(b) {
        match (a, b) {
            (Value::String(x), Value::String(y)) => {
                lemma_compare_chars_reverse(x, y, 0);
            },
            (Value::Sequence(x), Value::Sequence(y)) => {
                lemma_compare_items_reverse(x, y, 0);
            },
            (Value::Mapping(x), Value::Mapping(y)) => {
                lemma_compare_entries_reverse(x, y, 0);
            },
            (Value::Error(x), Value::Error(y)) => {
                lemma_compare_chars_reverse(x.message(), y.message(), 0);
            },
            _ => {},
        }
    }
}

/// [`lemma_compare_reverse`] for runs of items.
pub proof fn lemma_compare_items_reverse(a: Seq<Value>, b: Seq<Value>, from: int)
    requires
        0 <= from,
    ensures
        compare_items(b, a, from) == compare_items(a, b, from).reverse(),
    decreases a, a.len() - from,
{
    if from < a.len() && from < b.len() {
        lemma_compare_reverse(a[from], b[from]);
        if compare(a[from], b[from]) is Equal {
            lemma_compare_items_reverse(a, b, from + 1);
        }
    }
}

/// [`lemma_compare_reverse`] for runs of entries.
pub proof fn lemma_compare_entries_reverse(
    a: Seq<(Value, Value)>,
    b: Seq<(Value, Value)>,
    from: int,
)
    requires
        0 <= from,
    ensures
        compare_entries(b, a, from) == compare_entries(a, b, from).reverse(),
    decreases a, a.len() - from,
{
    if from < a.len() && from < b.len() {
        lemma_compare_reverse(a[from].0, b[from].0);
        lemma_compare_reverse(a[from].1, b[from].1);
        if compare(a[from].0, b[from].0) is Equal && compare(a[from].1, b[from].1) is Equal {
            lemma_compare_entries_reverse(a, b, from + 1);
        }
    }
}

/// The order of values is transitive.
pub proof fn lemma_compare_transitive(a: Value, b: Value, c: Value)
    requires
        compare(a, b) is Less,
        compare(b, c) is Less,
    ensures
        compare(a, c) is Less,
    decreases a, 0nat,
{
    if rank(a) == rank(b) && rank(b) == rank(c) {
        match (a, b, c) {
            (Value::String(x), Value::String(y), Value::String(z)) => {
                lemma_compare_chars_transitive(x, y, z, 0);
            },
            (Value::Sequence(x), Value::Sequence(y), Value::Sequence(z)) => {
                lemma_compare_items_transitive(x, y, z, 0);
            },
            (Value::Mapping(x), Value::Mapping(y), Value::Mapping(z)) => {
                lemma_compare_entries_transitive(x, y, z, 0);
            },
            (Value::Error(x), Value::Error(y), Value::Error(z)) => {
                if failure_rank(x) == failure_rank(y) && failure_rank(y) == failure_rank(z) {
                    lemma_compare_chars_transitive(x.message(), y.message(), z.message(), 0);
                }
            },
            _ => {},
        }
    }
}

/// [`lemma_compare_transitive`] for runs of items.
pub proof fn lemma_compare_items_transitive(
    a: Seq<Value>,
    b: Seq<Value>,
    c: Seq<Value>,
    from: int,
)
    requires
        0 <= from,
        compare_items(a, b, from) is Less,
        compare_items(b, c, from) is Less,
    ensures
        compare_items(a, c, from) is Less,
    decreases a, a.len() - from,
{
    if from < a.len() && from < b.len() && from < c.len() {
        lemma_compare_equal(a[from], b[from]);
        lemma_compare_equal(b[from], c[from]);
        lemma_compare_equal(a[from], c[from]);
        lemma_compare_reverse(a[from], b[from]);
        lemma_compare_reverse(b[from], c[from]);
        lemma_compare_reverse(a[from], c[from]);
        if compare(a[from], b[from]) is Equal && compare(b[from], c[from]) is Equal {
            lemma_compare_items_transitive(a, b, c, from + 1);
        } else if compare(a[from], b[from]) is Less && compare(b[from], c[from]) is Less {
            lemma_compare_transitive(a[from], b[from], c[from]);
        }
    }
}

/// [`lemma_compare_transitive`] for runs of entries.
pub proof fn lemma_compare_entries_transitive(
    a: Seq<(Value, Value)>,
    b: Seq<(Value, Value)>,
    c: Seq<(Value, Value)>,
    from: int,
)
    requires
        0 <= from,
        compare_entries(a, b, from) is Less,
        compare_entries(b, c, from) is Less,
    ensures
        compare_entries(a, c, from) is Less,
    decreases a, a.len() - from,
{
    if from < a.len() && from < b.len() && from < c.len() {
        lemma_compare_equal(a[from].0, b[from].0);
        lemma_compare_equal(b[from].0, c[from].0);
        lemma_compare_equal(a[from].0, c[from].0);
        lemma_compare_equal(a[from].1, b[from].1);
        lemma_compare_equal(b[from].1, c[from].1);
        lemma_compare_equal(a[from].1, c[from].1);
        if compare(a[from].0, b[from].0) is Less && compare(b[from].0, c[from].0) is Less {
            lemma_compare_transitive(a[from].0, b[from].0, c[from].0);
        } else if a[from].0 == b[from].0 && b[from].0 == c[from].0 {
            if compare(a[from].1, b[from].1) is Less && compare(b[from].1, c[from].1) is Less {
                lemma_compare_transitive(a[from].1, b[from].1, c[from].1);
            } else if a[from].1 == b[from].1 && b[from].1 == c[from].1 {
                lemma_compare_entries_transitive(a, b, c, from + 1);
            }
        }
    }
}

/// Where [`find_key`] finds an entry, the entry has the key; where it finds
/// none, no entry from `from` on has it.
pub proof fn lemma_find_key(entries: Seq<(Value, Value)>, key: Value, from: int)
    requires
        0 <= from,
    ensures
        match find_key(entries, key, from) {
            Some(i) => from <= i < entries.len() && entries[i].0 == key && forall|j: int|
                from <= j < i ==> (#[trigger] entries[j]).0 != key,
            None => forall|j: int| from <= j < entries.len() ==> (#[trigger] entries[j]).0 != key,
        },
    decreases entries.len() - from,
{
    if from < entries.len() && entries[from].0 != key {
        lemma_find_key(entries, key, from + 1);
    }
}

/// The position that [`insert_position`] gives lies behind every entry
/// from `from` on whose key is not greater than `key`, and at the first
/// whose key is.
pub proof fn lemma_insert_position(entries: Seq<(Value, Value)>, key: Value, from: int)
    requires
        0 <= from <= entries.len(),
    ensures
        from <= insert_position(entries, key, from) <= entries.len(),
        forall|j: int|
            from <= j < insert_position(entries, key, from) ==> !(compare(
                (#[trigger] entries[j]).0,
                key,
            ) is Greater),
        insert_position(entries, key, from) < entries.len() ==> compare(
            entries[insert_position(entries, key, from)].0,
            key,
        ) is Greater,
    decreases entries.len() - from,
{
    if from < entries.len() && !(compare(entries[from].0, key) is Greater) {
        lemma_insert_position(entries, key, from + 1);
    }
}

/// Binding a key in sorted entries leaves them sorted: a mapping that is
/// built by binding one key after another has its keys in increasing
/// order, each of them once.
pub proof fn lemma_map_insert_sorted(entries: Seq<(Value, Value)>, key: Value, value: Value)
    requires
        sorted(entries),
    ensures
        sorted(map_insert(entries, key, value)),
{
    lemma_find_key(entries, key, 0);
    let after = map_insert(entries, key, value);
    match find_key(entries, key, 0) {
        Some(i) => {
            assert forall|a: int, b: int| 0 <= a < b < after.len() implies #[trigger] compare(
                after[a].0,
                after[b].0,
            ) is Less by {
                assert(after[a].0 == entries[a].0);
                assert(after[b].0 == entries[b].0);
                assert(compare(entries[a].0, entries[b].0) is Less);
            }
        },
        None => {
            lemma_insert_position(entries, key, 0);
            let p = insert_position(entries, key, 0);
            assert forall|a: int, b: int| 0 <= a < b < after.len() implies #[trigger] compare(
                after[a].0,
                after[b].0,
            ) is Less by {
                if b < p {
                    assert(after[a] == entries[a] && after[b] == entries[b]);
                    assert(compare(entries[a].0, entries[b].0) is Less);
                } else if b == p {
                    assert(after[a] == entries[a] && after[b].0 == key);
                    lemma_compare_equal(entries[a].0, key);
                    assert(!(compare(entries[a].0, key) is Greater));
                } else if a < p {
                    assert(after[a] == entries[a] && after[b] == entries[b - 1]);
                    assert(compare(entries[a].0, entries[b - 1].0) is Less);
                } else if a == p {
                    assert(after[a].0 == key && after[b] == entries[b - 1]);
                    lemma_compare_reverse(entries[p].0, key);
                    if b - 1 > p {
                        assert(compare(entries[p].0, entries[b - 1].0) is Less);
                        lemma_compare_transitive(key, entries[p].0, entries[b - 1].0);
                    }
                } else {
                    assert(after[a] == entries[a - 1] && after[b] == entries[b - 1]);
                    assert(compare(entries[a - 1].0, entries[b - 1].0) is Less);
                }
            }
        },
    }
}

/// The first entry with a key is what [`find_key`] finds.
pub proof fn lemma_find_key_is_first(entries: Seq<(Value, Value)>, key: Value, from: int, at: int)
    requires
        0 <= from <= at < entries.len(),
        entries[at].0 == key,
        forall|j: int| from <= j < at ==> (#[trigger] entries[j]).0 != key,
    ensures
        find_key(entries, key, from) == Some(at),
    decreases at - from,
{
    if from < at {
        lemma_find_key_is_first(entries, key, from + 1, at);
    }
}

/// What is written under a path of strings into nothing is read back
/// under that path.
pub proof fn lemma_fresh_read(path: Seq<Seq<char>>, from: int, value: Value)
    requires
        0 <= from,
    ensures
        lookup(fresh(string_keys(path), from, value), path, from) == Some(value),
    decreases path.len() - from,
{
    if from < path.len() {
        let entries = seq![
            (Value::String(path[from]), fresh(string_keys(path), from + 1, value)),
        ];
        assert(fresh(string_keys(path), from, value) == Value::Mapping(entries));
        lemma_find_key_is_first(entries, Value::String(path[from]), 0, 0);
        lemma_fresh_read(path, from + 1, value);
    }
}

/// What is written under a path of strings is read back under that path.
pub proof fn lemma_read_after_write(target: Value, path: Seq<Seq<char>>, from: int, value: Value)
    requires
        0 <= from,
        assign(target, string_keys(path), from, value) is Ok,
    ensures
        lookup(assign(target, string_keys(path), from, value)->Ok_0, path, from) == Some(value),
    decreases path.len() - from,
{
    let keys = string_keys(path);
    if from < path.len() {
        let key = Value::String(path[from]);
        assert(keys[from] == key);
        match target {
            Value::Unit => {
                lemma_fresh_read(path, from, value);
            },
            Value::Mapping(entries) => {
                lemma_find_key(entries, key, 0);
                match find_key(entries, key, 0) {
                    Some(i) => {
                        let child = assign(entries[i].1, keys, from + 1, value)->Ok_0;
                        let after = entries.update(i, (entries[i].0, child));
                        assert forall|j: int| 0 <= j < i implies (#[trigger] after[j]).0
                            != key by {
                            assert(after[j] == entries[j]);
                        }
                        lemma_find_key_is_first(after, key, 0, i);
                        lemma_read_after_write(entries[i].1, path, from + 1, value);
                    },
                    None => {
                        lemma_insert_position(entries, key, 0);
                        let p = insert_position(entries, key, 0);
                        let after = entries.insert(p, (key, fresh(keys, from + 1, value)));
                        assert forall|j: int| 0 <= j < p implies (#[trigger] after[j]).0
                            != key by {
                            assert(after[j] == entries[j]);
                        }
                        lemma_find_key_is_first(after, key, 0, p);
                        lemma_fresh_read(path, from + 1, value);
                    },
                }
            },
            _ => {},
        }
    }
}

} // verus!
