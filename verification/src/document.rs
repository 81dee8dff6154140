//! Documents: structured values that hold no failure.

use vstd::prelude::*;
use vstd::string::*;
use crate::error::TemplarError;
use crate::text::{Order, compare_strings, decimal_string, read_index};
use crate::value::{
    Value, rank, compare, compare_items, compare_entries, text, text_items, text_entries,
    find_key, insert_position, map_insert, lookup, fresh, assign, lemma_compare_equal,
};

verus! {

/// A structured value: a scalar, an ordered sequence, or an ordered list of
/// key and value entries.
#[derive(Debug, PartialEq, Eq)]
pub enum Document {
    Unit,
    Bool(bool),
    Integer(i64),
    String(String),
    Sequence(Vec<Document>),
    Mapping(Vec<(Document, Document)>),
}

impl View for Document {
    type V = Value;

    open spec fn view(&self) -> Value
        decreases self,
    {
        match self {
            Document::Unit => Value::Unit,
            Document::Bool(b) => Value::Bool(*b),
            Document::Integer(i) => Value::Integer(*i),
            Document::String(s) => Value::String(s@),
            Document::Sequence(items) => Value::Sequence(
                Seq::new(
                    items@.len(),
                    |i: int|
                        if 0 <= i < items@.len() {
                            items@[i].view()
                        } else {
                            Value::Unit
                        },
                ),
            ),
            Document::Mapping(entries) => Value::Mapping(
                Seq::new(
                    entries@.len(),
                    |i: int|
                        if 0 <= i < entries@.len() {
                            (entries@[i].0.view(), entries@[i].1.view())
                        } else {
                            (Value::Unit, Value::Unit)
                        },
                ),
            ),
        }
    }
}

/// The values that a run of documents stands for.
pub open spec fn views(items: Seq<Document>) -> Seq<Value> {
    Seq::new(items.len(), |i: int| items[i]@)
}

/// The entries that a run of pairs of documents stands for.
pub open spec fn entry_views(entries: Seq<(Document, Document)>) -> Seq<(Value, Value)> {
    Seq::new(entries.len(), |i: int| (entries[i].0@, entries[i].1@))
}

/// The segments that a run of strings stands for.
pub open spec fn segments(path: Seq<String>) -> Seq<Seq<char>> {
    Seq::new(path.len(), |i: int| path[i]@)
}

/// A document's view is that of its parts.
pub proof fn lemma_view(d: Document)
    ensures
        d is Sequence ==> d@ == Value::Sequence(views(d->Sequence_0@)),
        d is Mapping ==> d@ == Value::Mapping(entry_views(d->Mapping_0@)),
{
    reveal_with_fuel(<Document as View>::view, 2);
    if d is Sequence {
        assert(d@->Sequence_0 =~= views(d->Sequence_0@));
    }
    if d is Mapping {
        assert(d@->Mapping_0 =~= entry_views(d->Mapping_0@));
    }
}

impl Clone for Document {
    #[verifier::loop_isolation(false)]
    fn clone(&self) -> (r: Self)
        ensures
            r@ == self@,
        decreases self,
    {
        proof {
            lemma_view(*self);
        }
        match self {
            Document::Unit => Document::Unit,
            Document::Bool(b) => Document::Bool(*b),
            Document::Integer(i) => Document::Integer(*i),
            Document::String(s) => Document::String(s.clone()),
            Document::Sequence(items) => {
                let mut out: Vec<Document> = Vec::new();
                let mut i: usize = 0;
                while i < items.len()
                    invariant
                        i <= items.len(),
                        out@.len() == i,
                        forall|j: int| 0 <= j < i ==> (#[trigger] out@[j])@ == items@[j]@,
                    decreases items.len() - i,
                {
                    out.push(items[i].clone());
                    i += 1;
                }
                let r = Document::Sequence(out);
                proof {
                    lemma_view(r);
                    assert(r@->Sequence_0 =~= self@->Sequence_0);
                }
                r
            },
            Document::Mapping(entries) => {
                let mut out: Vec<(Document, Document)> = Vec::new();
                let mut i: usize = 0;
                while i < entries.len()
                    invariant
                        i <= entries.len(),
                        out@.len() == i,
                        forall|j: int|
                            0 <= j < i ==> (#[trigger] out@[j]).0@ == entries@[j].0@ && out@[j].1@
                                == entries@[j].1@,
                    decreases entries.len() - i,
                {
                    out.push((entries[i].0.clone(), entries[i].1.clone()));
                    i += 1;
                }
                let r = Document::Mapping(out);
                proof {
                    lemma_view(r);
                    assert(r@->Mapping_0 =~= self@->Mapping_0);
                }
                r
            },
        }
    }
}

/// The index of the first entry whose key is `key`.
pub fn find_entry(entries: &Vec<(Document, Document)>, key: &Document) -> (r: Option<usize>)
    ensures
        match find_key(entry_views(entries@), key@, 0) {
            Some(i) => 0 <= i < entries.len() && r == Some(i as usize),
            None => r is None,
        },
{
    let mut i: usize = 0;
    while i < entries.len()
        invariant
            i <= entries.len(),
            find_key(entry_views(entries@), key@, 0) == find_key(
                entry_views(entries@),
                key@,
                i as int,
            ),
        decreases entries.len() - i,
    {
        proof {
            lemma_compare_equal(entries@[i as int].0@, key@);
        }
        match entries[i].0.compare(key) {
            Order::Equal => {
                return Some(i);
            },
            _ => {},
        }
        i += 1;
    }
    None
}

/// The index of the first entry whose key is the string `key`.
pub fn find_segment(entries: &Vec<(Document, Document)>, key: &String) -> (r: Option<usize>)
    ensures
        match find_key(entry_views(entries@), Value::String(key@), 0) {
            Some(i) => 0 <= i < entries.len() && r == Some(i as usize),
            None => r is None,
        },
{
    let mut i: usize = 0;
    while i < entries.len()
        invariant
            i <= entries.len(),
            find_key(entry_views(entries@), Value::String(key@), 0) == find_key(
                entry_views(entries@),
                Value::String(key@),
                i as int,
            ),
        decreases entries.len() - i,
    {
        let found = match &entries[i].0 {
            Document::String(k) => *k == *key,
            _ => false,
        };
        if found {
            return Some(i);
        }
        i += 1;
    }
    None
}

/// The index at which a new entry with `key` keeps sorted entries sorted.
pub fn find_position(entries: &Vec<(Document, Document)>, key: &Document) -> (r: usize)
    ensures
        r == insert_position(entry_views(entries@), key@, 0),
        r <= entries.len(),
{
    let mut i: usize = 0;
    while i < entries.len()
        invariant
            i <= entries.len(),
            insert_position(entry_views(entries@), key@, 0) == insert_position(
                entry_views(entries@),
                key@,
                i as int,
            ),
        decreases entries.len() - i,
    {
        match entries[i].0.compare(key) {
            Order::Greater => {
                return i;
            },
            _ => {},
        }
        i += 1;
    }
    i
}

/// Binds `key` to `value` in `entries`: an entry with that key is
/// overwritten, a new one goes where it keeps sorted entries sorted.
pub fn insert_entry(entries: &mut Vec<(Document, Document)>, key: Document, value: Document)
    ensures
        entry_views(final(entries)@) == map_insert(entry_views(old(entries)@), key@, value@),
{
    let ghost before = entries@;
    match find_entry(entries, &key) {
        Some(i) => {
            entries[i] = (key, value);
            assert(entry_views(entries@) =~= entry_views(before).update(
                i as int,
                (key@, value@),
            ));
        },
        None => {
            let p = find_position(entries, &key);
            entries.insert(p, (key, value));
            assert(entry_views(entries@) =~= entry_views(before).insert(
                p as int,
                (key@, value@),
            ));
        },
    }
}

/// The document that holds `value` under `keys[from..]` and nothing else.
pub fn fresh_document(keys: &Vec<Document>, from: usize, value: Document) -> (r: Document)
    ensures
        r@ == fresh(views(keys@), from as int, value@),
    decreases keys.len() - from,
{
    if from >= keys.len() {
        value
    } else {
        let child = fresh_document(keys, from + 1, value);
        let mut entries: Vec<(Document, Document)> = Vec::new();
        entries.push((keys[from].clone(), child));
        let r = Document::Mapping(entries);
        proof {
            lemma_view(r);
            assert(r@->Mapping_0 =~= seq![
                (views(keys@)[from as int], fresh(views(keys@), from + 1, value@)),
            ]);
        }
        r
    }
}

impl Document {
    /// The place of this document's variant in the order of variants.
    pub fn rank(&self) -> (r: u8)
        ensures
            r == rank(self@),
    {
        match self {
            Document::Unit => 0,
            Document::Bool(_) => 1,
            Document::Integer(_) => 2,
            Document::String(_) => 3,
            Document::Sequence(_) => 4,
            Document::Mapping(_) => 5,
        }
    }

    /// Three-way comparison in the total order of values.
    #[verifier::loop_isolation(false)]
    pub fn compare(&self, other: &Document) -> (r: Order)
        ensures
            r == compare(self@, other@),
        decreases self,
    {
        proof {
            lemma_view(*self);
            lemma_view(*other);
        }
        match (self, other) {
            (Document::Unit, Document::Unit) => Order::Equal,
            (Document::Bool(a), Document::Bool(b)) => {
                if *a == *b {
                    Order::Equal
                } else if *b {
                    Order::Less
                } else {
                    Order::Greater
                }
            },
            (Document::Integer(a), Document::Integer(b)) => {
                if *a < *b {
                    Order::Less
                } else if *a == *b {
                    Order::Equal
                } else {
                    Order::Greater
                }
            },
            (Document::String(a), Document::String(b)) => compare_strings(a.as_str(), b.as_str()),
            (Document::Sequence(a), Document::Sequence(b)) => {
                let mut i: usize = 0;
                while i < a.len() && i < b.len()
                    invariant
                        i <= a.len(),
                        i <= b.len(),
                        compare(self@, other@) == compare_items(views(a@), views(b@), i as int),
                    decreases a.len() - i,
                {
                    let o = a[i].compare(&b[i]);
                    match o {
                        Order::Equal => {},
                        _ => {
                            return o;
                        },
                    }
                    i += 1;
                }
                if i < b.len() {
                    Order::Less
                } else if i < a.len() {
                    Order::Greater
                } else {
                    Order::Equal
                }
            },
            (Document::Mapping(a), Document::Mapping(b)) => {
                let mut i: usize = 0;
                while i < a.len() && i < b.len()
                    invariant
                        i <= a.len(),
                        i <= b.len(),
                        compare(self@, other@) == compare_entries(
                            entry_views(a@),
                            entry_views(b@),
                            i as int,
                        ),
                    decreases a.len() - i,
                {
                    let o = a[i].0.compare(&b[i].0);
                    match o {
                        Order::Equal => {},
                        _ => {
                            return o;
                        },
                    }
                    let o = a[i].1.compare(&b[i].1);
                    match o {
                        Order::Equal => {},
                        _ => {
                            return o;
                        },
                    }
                    i += 1;
                }
                if i < b.len() {
                    Order::Less
                } else if i < a.len() {
                    Order::Greater
                } else {
                    Order::Equal
                }
            },
            _ => {
                if self.rank() < other.rank() {
                    Order::Less
                } else {
                    Order::Greater
                }
            },
        }
    }

    /// The written form of this document.
    #[verifier::loop_isolation(false)]
    pub fn to_text(&self) -> (r: String)
        ensures
            r@ == text(self@),
        decreases self,
    {
        proof {
            lemma_view(*self);
        }
        match self {
            Document::Unit => String::new(),
            Document::Bool(b) => {
                if *b {
                    String::from_str("true")
                } else {
                    String::from_str("false")
                }
            },
            Document::Integer(i) => decimal_string(*i),
            Document::String(s) => s.clone(),
            Document::Sequence(items) => {
                let mut out = String::from_str("[");
                let mut i: usize = 0;
                while i < items.len()
                    invariant
                        i <= items.len(),
                        text_items(views(items@), 0, "["@) == text_items(
                            views(items@),
                            i as int,
                            out@,
                        ),
                    decreases items.len() - i,
                {
                    if i > 0 {
                        out.append(",");
                    } else {
                        assert(out@ + Seq::<char>::empty() =~= out@);
                    }
                    let part = items[i].to_text();
                    out.append(part.as_str());
                    i += 1;
                }
                out.append("]");
                out
            },
            Document::Mapping(entries) => {
                let mut out = String::from_str("{");
                let mut i: usize = 0;
                while i < entries.len()
                    invariant
                        i <= entries.len(),
                        text_entries(entry_views(entries@), 0, "{"@) == text_entries(
                            entry_views(entries@),
                            i as int,
                            out@,
                        ),
                    decreases entries.len() - i,
                {
                    if i > 0 {
                        out.append(",");
                    } else {
                        assert(out@ + Seq::<char>::empty() =~= out@);
                    }
                    let key = entries[i].0.to_text();
                    out.append(key.as_str());
                    out.append(":");
                    let value = entries[i].1.to_text();
                    out.append(value.as_str());
                    i += 1;
                }
                out.append("}");
                out
            },
        }
    }

    /// What a read of `path[from..]` inside this document finds.
    pub fn lookup<'a>(&'a self, path: &Vec<String>, from: usize) -> (r: Option<&'a Document>)
        ensures
            match lookup(self@, segments(path@), from as int) {
                Some(v) => r is Some && r->Some_0@ == v,
                None => r is None,
            },
        decreases path.len() - from,
    {
        proof {
            lemma_view(*self);
        }
        if from >= path.len() {
            return Some(self);
        }
        assert(segments(path@)[from as int] == path@[from as int]@);
        match self {
            Document::Mapping(entries) => match find_segment(entries, &path[from]) {
                Some(i) => {
                    assert(entry_views(entries@)[i as int].1 == entries@[i as int].1@);
                    entries[i].1.lookup(path, from + 1)
                },
                None => None,
            },
            Document::Sequence(items) => match read_index(path[from].as_str()) {
                Some(n) => {
                    if n < items.len() {
                        items[n].lookup(path, from + 1)
                    } else {
                        None
                    }
                },
                None => {
                    assert(items@.len() == items.len());
                    None
                },
            },
            _ => None,
        }
    }

    /// Writes `value` under `keys[from..]` inside this document. On failure
    /// the document is left as it was.
    pub fn assign(&mut self, keys: &Vec<Document>, from: usize, value: Document) -> (r: Result<
        (),
        TemplarError,
    >)
        ensures
            match assign(old(self)@, views(keys@), from as int, value@) {
                Ok(v) => r is Ok && final(self)@ == v,
                Err(e) => r is Err && r->Err_0@ == e && final(self)@ == old(self)@,
            },
        decreases keys.len() - from,
    {
        proof {
            lemma_view(*self);
        }
        if from >= keys.len() {
            *self = value;
            return Ok(());
        }
        match self {
            Document::Unit => {
                *self = fresh_document(keys, from, value);
                Ok(())
            },
            Document::Mapping(entries) => {
                let ghost before = entries@;
                match find_entry(entries, &keys[from]) {
                    Some(i) => {
                        let r = entries[i].1.assign(keys, from + 1, value);
                        proof {
                            lemma_view(*self);
                            if r is Ok {
                                assert(self@->Mapping_0 =~= entry_views(before).update(
                                    i as int,
                                    (before[i as int].0@, self->Mapping_0@[i as int].1@),
                                ));
                            } else {
                                assert(self@->Mapping_0 =~= entry_views(before));
                            }
                        }
                        r
                    },
                    None => {
                        let p = find_position(entries, &keys[from]);
                        let child = fresh_document(keys, from + 1, value);
                        entries.insert(p, (keys[from].clone(), child));
                        proof {
                            lemma_view(*self);
                            assert(self@->Mapping_0 =~= entry_views(before).insert(
                                p as int,
                                (views(keys@)[from as int], fresh(views(keys@), from + 1, value@)),
                            ));
                        }
                        Ok(())
                    },
                }
            },
            Document::Sequence(items) => {
                let ghost before = items@;
                match &keys[from] {
                    Document::Integer(n) => {
                        if 0 <= *n && (*n as u64) < (items.len() as u64) {
                            let at = *n as usize;
                            let r = items[at].assign(keys, from + 1, value);
                            proof {
                                lemma_view(*self);
                                if r is Ok {
                                    assert(self@->Sequence_0 =~= views(before).update(
                                        at as int,
                                        self->Sequence_0@[at as int]@,
                                    ));
                                } else {
                                    assert(self@->Sequence_0 =~= views(before));
                                }
                            }
                            r
                        } else {
                            Err(TemplarError::render("cannot assign through non-map"))
                        }
                    },
                    _ => Err(TemplarError::render("cannot assign through non-map")),
                }
            },
            _ => Err(TemplarError::render("cannot assign through non-map")),
        }
    }
}

} // verus!
