//! The variable environment of an evaluation: a root document under a stack
//! of scopes.

use vstd::prelude::*;
use crate::data::{InnerData, inner_views};
use crate::document::{Document, lemma_view, views, segments};
use crate::error::{Failure, TemplarError};
use crate::value::{
    Value, lookup, assign, first_error, first_error_in, string_keys, lemma_read_after_write,
};

verus! {

/// A context as contracts see it: the root value and the overlays of the
/// scopes that are open, the innermost last.
pub struct ContextView {
    pub root: Value,
    pub overlays: Seq<Value>,
}

impl ContextView {
    /// What a read of `path` finds below the `depth` outermost overlays:
    /// the innermost of them that holds the path answers; the root answers
    /// where none does, with Unit for a missing path.
    pub open spec fn read(self, path: Seq<Seq<char>>, depth: int) -> Value
        decreases depth,
    {
        if depth <= 0 || depth > self.overlays.len() {
            match lookup(self.root, path, 0) {
                Some(v) => v,
                None => Value::Unit,
            }
        } else {
            match lookup(self.overlays[depth - 1], path, 0) {
                Some(v) => v,
                None => self.read(path, depth - 1),
            }
        }
    }

    /// What a read of `path` finds.
    pub open spec fn get_path(self, path: Seq<Seq<char>>) -> Value {
        self.read(path, self.overlays.len() as int)
    }

    /// The context after a write of `value` under `keys`. The write goes to
    /// the innermost scope, or to the root where no scope is open. It fails
    /// where a key or the value holds a failure, and where the path passes
    /// through a value that cannot be entered.
    pub open spec fn set_path(self, keys: Seq<Value>, value: Value) -> Result<
        ContextView,
        Failure,
    > {
        match first_error_in(keys, 0) {
            Some(e) => Err(e),
            None => match first_error(value) {
                Some(e) => Err(e),
                None => if self.overlays.len() == 0 {
                    match assign(self.root, keys, 0, value) {
                        Ok(root) => Ok(ContextView { root, overlays: self.overlays }),
                        Err(e) => Err(e),
                    }
                } else {
                    match assign(self.overlays.last(), keys, 0, value) {
                        Ok(top) => Ok(
                            ContextView {
                                root: self.root,
                                overlays: self.overlays.update(self.overlays.len() - 1, top),
                            },
                        ),
                        Err(e) => Err(e),
                    }
                },
            },
        }
    }

    /// The context with one more scope open, which holds nothing yet.
    pub open spec fn scoped(self) -> ContextView {
        ContextView {
            root: self.root,
            overlays: self.overlays.push(Value::Mapping(Seq::empty())),
        }
    }

    /// The context without its innermost scope.
    pub open spec fn unscoped(self) -> ContextView {
        if self.overlays.len() == 0 {
            self
        } else {
            ContextView { root: self.root, overlays: self.overlays.drop_last() }
        }
    }
}

/// The variable environment of an evaluation.
pub struct Context {
    pub root: Document,
    pub overlays: Vec<Document>,
}

impl View for Context {
    type V = ContextView;

    open spec fn view(&self) -> ContextView {
        ContextView { root: self.root@, overlays: views(self.overlays@) }
    }
}

impl Context {
    /// A context over the given root document, with no scope open.
    pub fn new(root: Document) -> (r: Context)
        ensures
            r@ == (ContextView { root: root@, overlays: Seq::empty() }),
    {
        let r = Context { root, overlays: Vec::new() };
        assert(r@.overlays =~= Seq::empty());
        r
    }

    /// The document found under `path`; Unit where the path names nothing.
    pub fn get_path(&self, path: &Vec<String>) -> (r: Document)
        ensures
            r@ == self@.get_path(segments(path@)),
    {
        let mut depth: usize = self.overlays.len();
        while depth > 0
            invariant
                depth <= self.overlays.len(),
                self@.get_path(segments(path@)) == self@.read(segments(path@), depth as int),
            decreases depth,
        {
            match self.overlays[depth - 1].lookup(path, 0) {
                Some(found) => {
                    return found.clone();
                },
                None => {},
            }
            depth -= 1;
        }
        match self.root.lookup(path, 0) {
            Some(found) => found.clone(),
            None => Document::Unit,
        }
    }

    /// Writes `value` under `keys` in the innermost scope, or in the root
    /// where no scope is open. On failure the context is left as it was.
    pub fn set_path(&mut self, keys: &Vec<InnerData>, value: InnerData) -> (r: Result<
        (),
        TemplarError,
    >)
        ensures
            match old(self)@.set_path(inner_views(keys@), value@) {
                Ok(c) => r is Ok && final(self)@ == c,
                Err(e) => r is Err && r->Err_0@ == e && final(self)@ == old(self)@,
            },
    {
        let mut path: Vec<Document> = Vec::new();
        let mut i: usize = 0;
        while i < keys.len()
            invariant
                i <= keys.len(),
                path@.len() == i,
                first_error_in(inner_views(keys@), 0) == first_error_in(
                    inner_views(keys@),
                    i as int,
                ),
                forall|j: int| 0 <= j < i ==> (#[trigger] path@[j])@ == keys@[j]@,
            decreases keys.len() - i,
        {
            match keys[i].to_document() {
                Ok(key) => {
                    path.push(key);
                },
                Err(e) => {
                    return Err(e);
                },
            }
            i += 1;
        }
        assert(views(path@) =~= inner_views(keys@));
        let value = match value.to_document() {
            Ok(v) => v,
            Err(e) => {
                return Err(e);
            },
        };
        let n = self.overlays.len();
        if n == 0 {
            self.root.assign(&path, 0, value)
        } else {
            let ghost before = self.overlays@;
            let r = self.overlays[n - 1].assign(&path, 0, value);
            proof {
                if r is Ok {
                    assert(views(self.overlays@) =~= views(before).update(
                        n - 1,
                        self.overlays@[n - 1]@,
                    ));
                } else {
                    assert(views(self.overlays@) =~= views(before));
                }
            }
            r
        }
    }

    /// Opens a scope: writes from now on go to a fresh overlay, and reads
    /// consult it first.
    pub fn scoped(&mut self)
        ensures
            final(self)@ == old(self)@.scoped(),
    {
        let overlay = Document::Mapping(Vec::new());
        proof {
            lemma_view(overlay);
            assert(overlay@->Mapping_0 =~= Seq::empty());
        }
        self.overlays.push(overlay);
        assert(views(self.overlays@) =~= views(old(self).overlays@).push(
            Value::Mapping(Seq::empty()),
        ));
    }

    /// Closes the innermost scope and forgets what was written in it.
    pub fn unscoped(&mut self)
        ensures
            final(self)@ == old(self)@.unscoped(),
    {
        if self.overlays.len() > 0 {
            self.overlays.pop();
            assert(views(self.overlays@) =~= views(old(self).overlays@).drop_last());
        }
    }
}

/// What is written under a path is what a read of that path finds
/// afterwards.
pub proof fn lemma_written_is_read(c: ContextView, path: Seq<Seq<char>>, value: Value)
    requires
        c.set_path(string_keys(path), value) is Ok,
    ensures
        c.set_path(string_keys(path), value)->Ok_0.get_path(path) == value,
{
    let target = if c.overlays.len() == 0 {
        c.root
    } else {
        c.overlays.last()
    };
    lemma_read_after_write(target, path, 0, value);
}

} // verus!
