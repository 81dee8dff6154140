//! The value carrier: data that is either a structured value or a failure
//! on its way to the caller.

use vstd::prelude::*;
use crate::document::{Document, lemma_view, views, entry_views};
use crate::error::{Failure, TemplarError};
use crate::value::{Value, first_error, first_error_in, first_error_among};

verus! {

/// What a carrier holds: a structured value whose parts may be failures.
#[derive(Debug, PartialEq, Eq)]
pub enum InnerData {
    Unit,
    Bool(bool),
    Integer(i64),
    String(String),
    Sequence(Vec<InnerData>),
    Mapping(Vec<(InnerData, InnerData)>),
    Error(TemplarError),
}

impl View for InnerData {
    type V = Value;

    open spec fn view(&self) -> Value
        decreases self,
    {
        match self {
            InnerData::Unit => Value::Unit,
            InnerData::Bool(b) => Value::Bool(*b),
            InnerData::Integer(i) => Value::Integer(*i),
            InnerData::String(s) => Value::String(s@),
            InnerData::Sequence(items) => Value::Sequence(
                Seq::new(
                    items@.len(),
                    |i: int|
                        if 0 <= i < items@.len() {
                            items@[i].view()
                        } else {
                            Value::Unit
                        },
                ),
            ),
            InnerData::Mapping(entries) => Value::Mapping(
                Seq::new(
                    entries@.len(),
                    |i: int|
                        if 0 <= i < entries@.len() {
                            (entries@[i].0.view(), entries@[i].1.view())
                        } else {
                            (Value::Unit, Value::Unit)
                        },
                ),
            ),
            InnerData::Error(e) => Value::Error(e@),
        }
    }
}

/// The values that a run of inner data stands for.
pub open spec fn inner_views(items: Seq<InnerData>) -> Seq<Value> {
    Seq::new(items.len(), |i: int| items[i]@)
}

/// The entries that a run of pairs of inner data stands for.
pub open spec fn inner_entry_views(entries: Seq<(InnerData, InnerData)>) -> Seq<(Value, Value)> {
    Seq::new(entries.len(), |i: int| (entries[i].0@, entries[i].1@))
}

/// The values that a run of carriers stands for.
pub open spec fn data_views(items: Seq<Data>) -> Seq<Value> {
    Seq::new(items.len(), |i: int| items[i]@)
}

/// The view of inner data is that of its parts.
pub proof fn lemma_view_inner(d: InnerData)
    ensures
        d is Sequence ==> d@ == Value::Sequence(inner_views(d->Sequence_0@)),
        d is Mapping ==> d@ == Value::Mapping(inner_entry_views(d->Mapping_0@)),
{
    reveal_with_fuel(<InnerData as View>::view, 2);
    if d is Sequence {
        assert(d@->Sequence_0 =~= inner_views(d->Sequence_0@));
    }
    if d is Mapping {
        assert(d@->Mapping_0 =~= inner_entry_views(d->Mapping_0@));
    }
}

/// A document holds no failure.
pub proof fn lemma_document_has_no_error(d: Document)
    ensures
        first_error(d@) is None,
    decreases d,
{
    lemma_view(d);
    match d {
        Document::Sequence(items) => {
            lemma_documents_have_no_error(items@, 0);
        },
        Document::Mapping(entries) => {
            lemma_entries_have_no_error(entries@, 0);
        },
        _ => {},
    }
}

/// A failure is what its own conversion to a document yields: it is
/// never taken for a document.
pub proof fn lemma_failure_survives(e: Failure)
    ensures
        document_of(Value::Error(e)) == Err::<Value, Failure>(e),
{
}

/// A document that is carried and converted back is the same document.
pub proof fn lemma_document_survives(d: Document)
    ensures
        document_of(d@) == Ok::<Value, Failure>(d@),
{
    lemma_document_has_no_error(d);
}

/// No document in a run of documents holds a failure.
pub proof fn lemma_documents_have_no_error(items: Seq<Document>, from: int)
    requires
        0 <= from,
    ensures
        first_error_in(views(items), from) is None,
    decreases items, items.len() - from,
{
    if from < items.len() {
        lemma_document_has_no_error(items[from]);
        lemma_documents_have_no_error(items, from + 1);
    }
}

/// No entry in a run of entries of documents holds a failure.
pub proof fn lemma_entries_have_no_error(entries: Seq<(Document, Document)>, from: int)
    requires
        0 <= from,
    ensures
        first_error_among(entry_views(entries), from) is None,
    decreases entries, entries.len() - from,
{
    if from < entries.len() {
        lemma_document_has_no_error(entries[from].0);
        lemma_document_has_no_error(entries[from].1);
        lemma_entries_have_no_error(entries, from + 1);
    }
}

/// The index of the first item at or after `from` that is itself a
/// failure.
pub open spec fn first_failed(items: Seq<Value>, from: int) -> Option<int>
    decreases items.len() - from,
{
    if from < 0 || from >= items.len() {
        None
    } else if items[from] is Error {
        Some(from)
    } else {
        first_failed(items, from + 1)
    }
}

/// A sequence of the given items, unless one of them is itself a failure:
/// then the first such item.
pub open spec fn collapse(items: Seq<Value>) -> Value {
    match first_failed(items, 0) {
        Some(i) => items[i],
        None => Value::Sequence(items),
    }
}

/// What a conversion to a document yields: the first failure inside the
/// value, or the value itself where it holds none.
pub open spec fn document_of(v: Value) -> Result<Value, Failure> {
    match first_error(v) {
        Some(e) => Err(e),
        None => Ok(v),
    }
}

impl Clone for InnerData {
    #[verifier::loop_isolation(false)]
    fn clone(&self) -> (r: Self)
        ensures
            r@ == self@,
        decreases self,
    {
        proof {
            lemma_view_inner(*self);
        }
        match self {
            InnerData::Unit => InnerData::Unit,
            InnerData::Bool(b) => InnerData::Bool(*b),
            InnerData::Integer(i) => InnerData::Integer(*i),
            InnerData::String(s) => InnerData::String(s.clone()),
            InnerData::Sequence(items) => {
                let mut out: Vec<InnerData> = Vec::new();
                let mut i: usize = 0;
                while i < items.len()
                    invariant
                        i <= items.len(),
                        out@.len() == i,
                        forall|j: int| 0 <= j < i ==> (#[trigger] out@[j])@ == items@[j]@,
                    decreases items.len() - i,
                {
                    out.push(items[i].clone());
                    i += 1;
                }
                let r = InnerData::Sequence(out);
                proof {
                    lemma_view_inner(r);
                    assert(r@->Sequence_0 =~= self@->Sequence_0);
                }
                r
            },
            InnerData::Mapping(entries) => {
                let mut out: Vec<(InnerData, InnerData)> = Vec::new();
                let mut i: usize = 0;
                while i < entries.len()
                    invariant
                        i <= entries.len(),
                        out@.len() == i,
                        forall|j: int|
                            0 <= j < i ==> (#[trigger] out@[j]).0@ == entries@[j].0@ && out@[j].1@
                                == entries@[j].1@,
                    decreases entries.len() - i,
                {
                    out.push((entries[i].0.clone(), entries[i].1.clone()));
                    i += 1;
                }
                let r = InnerData::Mapping(out);
                proof {
                    lemma_view_inner(r);
                    assert(r@->Mapping_0 =~= self@->Mapping_0);
                }
                r
            },
            InnerData::Error(e) => InnerData::Error(e.clone()),
        }
    }
}

impl InnerData {
    /// The inner data that stands for the same value as `doc`.
    #[verifier::loop_isolation(false)]
    pub fn from_document(doc: &Document) -> (r: InnerData)
        ensures
            r@ == doc@,
        decreases doc,
    {
        proof {
            lemma_view(*doc);
        }
        match doc {
            Document::Unit => InnerData::Unit,
            Document::Bool(b) => InnerData::Bool(*b),
            Document::Integer(i) => InnerData::Integer(*i),
            Document::String(s) => InnerData::String(s.clone()),
            Document::Sequence(items) => {
                let mut out: Vec<InnerData> = Vec::new();
                let mut i: usize = 0;
                while i < items.len()
                    invariant
                        i <= items.len(),
                        out@.len() == i,
                        forall|j: int| 0 <= j < i ==> (#[trigger] out@[j])@ == items@[j]@,
                    decreases items.len() - i,
                {
                    out.push(InnerData::from_document(&items[i]));
                    i += 1;
                }
                let r = InnerData::Sequence(out);
                proof {
                    lemma_view_inner(r);
                    assert(r@->Sequence_0 =~= doc@->Sequence_0);
                }
                r
            },
            Document::Mapping(entries) => {
                let mut out: Vec<(InnerData, InnerData)> = Vec::new();
                let mut i: usize = 0;
                while i < entries.len()
                    invariant
                        i <= entries.len(),
                        out@.len() == i,
                        forall|j: int|
                            0 <= j < i ==> (#[trigger] out@[j]).0@ == entries@[j].0@ && out@[j].1@
                                == entries@[j].1@,
                    decreases entries.len() - i,
                {
                    out.push(
                        (
                            InnerData::from_document(&entries[i].0),
                            InnerData::from_document(&entries[i].1),
                        ),
                    );
                    i += 1;
                }
                let r = InnerData::Mapping(out);
                proof {
                    lemma_view_inner(r);
                    assert(r@->Mapping_0 =~= doc@->Mapping_0);
                }
                r
            },
        }
    }

    /// The document that stands for the same value, or the first failure
    /// that this data holds.
    #[verifier::loop_isolation(false)]
    pub fn to_document(&self) -> (r: Result<Document, TemplarError>)
        ensures
            match document_of(self@) {
                Ok(v) => r is Ok && r->Ok_0@ == v,
                Err(e) => r is Err && r->Err_0@ == e,
            },
        decreases self,
    {
        proof {
            lemma_view_inner(*self);
        }
        match self {
            InnerData::Unit => Ok(Document::Unit),
            InnerData::Bool(b) => Ok(Document::Bool(*b)),
            InnerData::Integer(i) => Ok(Document::Integer(*i)),
            InnerData::String(s) => Ok(Document::String(s.clone())),
            InnerData::Sequence(items) => {
                let mut out: Vec<Document> = Vec::new();
                let mut i: usize = 0;
                while i < items.len()
                    invariant
                        i <= items.len(),
                        out@.len() == i,
                        first_error(self@) == first_error_in(inner_views(items@), i as int),
                        forall|j: int| 0 <= j < i ==> (#[trigger] out@[j])@ == items@[j]@,
                    decreases items.len() - i,
                {
                    match items[i].to_document() {
                        Ok(d) => {
                            out.push(d);
                        },
                        Err(e) => {
                            return Err(e);
                        },
                    }
                    i += 1;
                }
                let r = Document::Sequence(out);
                proof {
                    lemma_view(r);
                    assert(r@->Sequence_0 =~= self@->Sequence_0);
                }
                Ok(r)
            },
            InnerData::Mapping(entries) => {
                let mut out: Vec<(Document, Document)> = Vec::new();
                let mut i: usize = 0;
                while i < entries.len()
                    invariant
                        i <= entries.len(),
                        out@.len() == i,
                        first_error(self@) == first_error_among(
                            inner_entry_views(entries@),
                            i as int,
                        ),
                        forall|j: int|
                            0 <= j < i ==> (#[trigger] out@[j]).0@ == entries@[j].0@ && out@[j].1@
                                == entries@[j].1@,
                    decreases entries.len() - i,
                {
                    let key = match entries[i].0.to_document() {
                        Ok(d) => d,
                        Err(e) => {
                            return Err(e);
                        },
                    };
                    let value = match entries[i].1.to_document() {
                        Ok(d) => d,
                        Err(e) => {
                            return Err(e);
                        },
                    };
                    out.push((key, value));
                    i += 1;
                }
                let r = Document::Mapping(out);
                proof {
                    lemma_view(r);
                    assert(r@->Mapping_0 =~= self@->Mapping_0);
                }
                Ok(r)
            },
            InnerData::Error(e) => Err(e.clone()),
        }
    }

    /// Moves the data out and leaves Unit in its place.
    pub fn take(&mut self) -> (r: InnerData)
        ensures
            r == *old(self),
            *final(self) == InnerData::Unit,
    {
        let mut out = InnerData::Unit;
        core::mem::swap(self, &mut out);
        out
    }

    /// The integer that this data is, if it is one.
    pub fn cast_i64(&self) -> (r: Option<i64>)
        ensures
            r == as_integer(self@),
    {
        match self {
            InnerData::Integer(i) => Some(*i),
            _ => None,
        }
    }

    /// The boolean that this data is, if it is one.
    pub fn cast_bool(&self) -> (r: Option<bool>)
        ensures
            r == as_bool(self@),
    {
        match self {
            InnerData::Bool(b) => Some(*b),
            _ => None,
        }
    }
}

/// The integer that a value is, if it is one.
pub open spec fn as_integer(v: Value) -> Option<i64> {
    match v {
        Value::Integer(i) => Some(i),
        _ => None,
    }
}

/// The boolean that a value is, if it is one.
pub open spec fn as_bool(v: Value) -> Option<bool> {
    match v {
        Value::Bool(b) => Some(b),
        _ => None,
    }
}

/// The carrier that node evaluations hand to each other.
#[derive(Debug, PartialEq, Eq)]
pub struct Data {
    pub inner: InnerData,
}

impl View for Data {
    type V = Value;

    open spec fn view(&self) -> Value {
        self.inner@
    }
}

impl Clone for Data {
    fn clone(&self) -> (r: Self)
        ensures
            r@ == self@,
    {
        Data { inner: self.inner.clone() }
    }
}

impl Data {
    /// A carrier of the given inner data.
    pub fn new(inner: InnerData) -> (r: Data)
        ensures
            r.inner == inner,
    {
        Data { inner }
    }

    /// The carrier of Unit.
    pub fn empty() -> (r: Data)
        ensures
            r@ == Value::Unit,
    {
        Data { inner: InnerData::Unit }
    }

    /// The carrier of a document.
    pub fn from_document(doc: Document) -> (r: Data)
        ensures
            r@ == doc@,
    {
        Data { inner: InnerData::from_document(&doc) }
    }

    /// The carrier of a failure.
    pub fn from_error(error: TemplarError) -> (r: Data)
        ensures
            r@ == Value::Error(error@),
    {
        Data { inner: InnerData::Error(error) }
    }

    /// The carrier of what a filter or a function handed back: the document
    /// where it succeeded, its failure where it did not.
    pub fn from_result(outcome: Result<Document, TemplarError>) -> (r: Data)
        ensures
            match outcome {
                Ok(d) => r@ == d@,
                Err(e) => r@ == Value::Error(e@),
            },
    {
        match outcome {
            Ok(d) => Data::from_document(d),
            Err(e) => Data::from_error(e),
        }
    }

    /// The carrier of a string.
    pub fn from_string(s: String) -> (r: Data)
        ensures
            r@ == Value::String(s@),
    {
        Data { inner: InnerData::String(s) }
    }

    /// The carrier of an integer.
    pub fn from_i64(i: i64) -> (r: Data)
        ensures
            r@ == Value::Integer(i),
    {
        Data { inner: InnerData::Integer(i) }
    }

    /// The carrier of a boolean.
    pub fn from_bool(b: bool) -> (r: Data)
        ensures
            r@ == Value::Bool(b),
    {
        Data { inner: InnerData::Bool(b) }
    }

    /// A carrier of the sequence of the given items; where an item is
    /// itself a failure, the first such item instead.
    pub fn from_vec(items: Vec<Data>) -> (r: Data)
        ensures
            r@ == collapse(data_views(items@)),
    {
        let mut rest = items;
        let ghost all = items@;
        let mut i: usize = 0;
        while i < rest.len()
            invariant
                i <= rest.len(),
                rest@ == all,
                all == items@,
                first_failed(data_views(all), 0) == first_failed(data_views(all), i as int),
            decreases rest.len() - i,
        {
            let failed = match &rest[i].inner {
                InnerData::Error(_) => true,
                _ => false,
            };
            if failed {
                assert(data_views(all)[i as int] == all[i as int]@);
                assert(first_failed(data_views(all), i as int) == Some(i as int));
                return rest.swap_remove(i);
            }
            assert(data_views(all)[i as int] == all[i as int]@);
            i += 1;
        }
        let mut reversed: Vec<InnerData> = Vec::new();
        while rest.len() > 0
            invariant
                rest@.len() + reversed@.len() == all.len(),
                rest@ == all.take(rest@.len() as int),
                forall|j: int|
                    0 <= j < reversed@.len() ==> #[trigger] reversed@[j] == all[all.len() - 1
                        - j].inner,
            decreases rest.len(),
        {
            let last = rest.pop().unwrap();
            reversed.push(last.inner);
        }
        let mut out: Vec<InnerData> = Vec::new();
        let ghost turned = reversed@;
        while reversed.len() > 0
            invariant
                turned.len() == all.len(),
                out@.len() + reversed@.len() == all.len(),
                reversed@ == turned.take(reversed@.len() as int),
                forall|j: int|
                    0 <= j < turned.len() ==> #[trigger] turned[j] == all[all.len() - 1 - j].inner,
                forall|j: int| 0 <= j < out@.len() ==> #[trigger] out@[j] == all[j].inner,
            decreases reversed.len(),
        {
            let next = reversed.pop().unwrap();
            out.push(next);
        }
        let r = Data { inner: InnerData::Sequence(out) };
        proof {
            lemma_view_inner(r.inner);
            assert(r@->Sequence_0 =~= data_views(all));
        }
        r
    }

    /// The inner data of this carrier.
    pub fn into_inner(self) -> (r: InnerData)
        ensures
            r == self.inner,
    {
        self.inner
    }

    /// The document that this carrier stands for, or the first failure that
    /// it holds.
    pub fn into_document(self) -> (r: Result<Document, TemplarError>)
        ensures
            match document_of(self@) {
                Ok(v) => r is Ok && r->Ok_0@ == v,
                Err(e) => r is Err && r->Err_0@ == e,
            },
    {
        self.inner.to_document()
    }

    /// The carrier itself, unless it is a failure: then that failure.
    pub fn into_result(self) -> (r: Result<Data, TemplarError>)
        ensures
            match self.inner {
                InnerData::Error(e) => r == Err::<Data, TemplarError>(e),
                _ => r == Ok::<Data, TemplarError>(self),
            },
    {
        match self.inner {
            InnerData::Error(e) => Err(e),
            inner => Ok(Data { inner }),
        }
    }

    /// Unit for a success, the failure for a failure.
    pub fn check(outcome: Result<(), TemplarError>) -> (r: Data)
        ensures
            match outcome {
                Ok(_) => r@ == Value::Unit,
                Err(e) => r@ == Value::Error(e@),
            },
    {
        match outcome {
            Ok(_) => Data::empty(),
            Err(e) => Data::from_error(e),
        }
    }

    /// Moves the inner data out and leaves Unit in its place.
    pub fn take(&mut self) -> (r: InnerData)
        ensures
            r == old(self).inner,
            final(self).inner == InnerData::Unit,
    {
        self.inner.take()
    }

    /// Whether this carrier is itself a failure.
    pub fn is_error(&self) -> (r: bool)
        ensures
            r == (self@ is Error),
    {
        match &self.inner {
            InnerData::Error(_) => true,
            _ => false,
        }
    }
}

} // verus!
