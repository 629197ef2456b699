//! Runtime values, runtime errors, and the environment: a chain of scope
//! frames used for lexical variable resolution.
//!
//! Frames are held in an arena and addressed by index, with a parent index
//! per frame.  A frame is shared by every closure created while it was the
//! active scope, so a later definition in that frame is observed by all of
//! them; only `set_var` ever changes a frame, and only the frame it targets.

use vstd::prelude::*;

verus! {

use std::rc::Rc;

use crate::ast::{exp_wf, Exp};

/// The kind of a runtime value, as named in type-mismatch errors.
#[derive(Debug, Clone, Copy, PartialEq, Eq, Structural)]
pub enum ValueKind {
    Number,
    Boolean,
    Function,
}

/// A runtime error.  Every fallible evaluator operation returns one of
/// these; evaluation never panics.
#[derive(Debug, PartialEq)]
pub enum RuntimeError {
    /// An identifier was not bound in any enclosing scope.
    UnboundVariable(String),
    /// A value of one kind stood where another kind was required.
    TypeMismatch { expected: ValueKind, got: ValueKind },
    /// An operator or a call received the wrong number of arguments.
    ArityMismatch,
    /// Division or modulus by zero.
    DivisionByZero,
    /// The call depth budget ran out; stands for the host's call-stack
    /// limit, which unbounded recursion is expected to exhaust.
    ResourceExhausted,
}

/// The mathematical form of a runtime error.
#[verifier::ext_equal]
pub enum ErrorModel {
    UnboundVariable(Seq<char>),
    TypeMismatch { expected: ValueKind, got: ValueKind },
    ArityMismatch,
    DivisionByZero,
    ResourceExhausted,
}

impl View for RuntimeError {
    type V = ErrorModel;

    open spec fn view(&self) -> ErrorModel {
        match self {
            RuntimeError::UnboundVariable(s) => ErrorModel::UnboundVariable(s@),
            RuntimeError::TypeMismatch { expected, got } => ErrorModel::TypeMismatch {
                expected: *expected,
                got: *got,
            },
            RuntimeError::ArityMismatch => ErrorModel::ArityMismatch,
            RuntimeError::DivisionByZero => ErrorModel::DivisionByZero,
            RuntimeError::ResourceExhausted => ErrorModel::ResourceExhausted,
        }
    }
}

/// A runtime value.  Values are immutable: a binding can be replaced, but
/// the value it referred to is never changed in place.
#[verifier::ext_equal]
#[derive(Debug)]
pub enum Value {
    Num(i64),
    Bool(bool),
    Closure(Closure),
}

/// A function value: parameter names, a body expression, and the handle of
/// the environment frame captured at its creation point.
#[verifier::ext_equal]
#[derive(Debug)]
pub struct Closure {
    pub params: Vec<String>,
    pub body: Rc<Exp>,
    pub env: usize,
}

/// The mathematical form of a closure.
#[verifier::ext_equal]
pub struct ClosureModel {
    pub params: Seq<Seq<char>>,
    pub body: Exp,
    pub env: int,
}

/// The mathematical form of a runtime value.
#[verifier::ext_equal]
pub enum ValueModel {
    Num(i64),
    Bool(bool),
    Closure(ClosureModel),
}

impl View for Closure {
    type V = ClosureModel;

    open spec fn view(&self) -> ClosureModel {
        ClosureModel { params: self.params.deep_view(), body: *self.body, env: self.env as int }
    }
}

impl View for Value {
    type V = ValueModel;

    open spec fn view(&self) -> ValueModel {
        match self {
            Value::Num(n) => ValueModel::Num(*n),
            Value::Bool(b) => ValueModel::Bool(*b),
            Value::Closure(c) => ValueModel::Closure(c@),
        }
    }
}

impl Closure {
    pub fn new(params: Vec<String>, body: Rc<Exp>, env: usize) -> (c: Closure)
        ensures
            c@ == (ClosureModel { params: params.deep_view(), body: *body, env: env as int }),
    {
        Closure { params, body, env }
    }
}

/// The kind of a value model.
pub open spec fn kind_of(v: ValueModel) -> ValueKind {
    match v {
        ValueModel::Num(_) => ValueKind::Number,
        ValueModel::Bool(_) => ValueKind::Boolean,
        ValueModel::Closure(_) => ValueKind::Function,
    }
}

/// Coercion of a value to a boolean, as the specification sees it.
pub open spec fn to_bool_s(v: ValueModel) -> Result<bool, ErrorModel> {
    match v {
        ValueModel::Bool(b) => Ok(b),
        _ => Err(ErrorModel::TypeMismatch { expected: ValueKind::Boolean, got: kind_of(v) }),
    }
}

/// Coercion of a value to a number, as the specification sees it.
pub open spec fn to_num_s(v: ValueModel) -> Result<i64, ErrorModel> {
    match v {
        ValueModel::Num(n) => Ok(n),
        _ => Err(ErrorModel::TypeMismatch { expected: ValueKind::Number, got: kind_of(v) }),
    }
}

pub open spec fn res_bool_view(r: Result<bool, RuntimeError>) -> Result<bool, ErrorModel> {
    match r {
        Ok(b) => Ok(b),
        Err(e) => Err(e@),
    }
}

pub open spec fn res_num_view(r: Result<i64, RuntimeError>) -> Result<i64, ErrorModel> {
    match r {
        Ok(n) => Ok(n),
        Err(e) => Err(e@),
    }
}

pub open spec fn res_val_view(r: Result<Value, RuntimeError>) -> Result<ValueModel, ErrorModel> {
    match r {
        Ok(v) => Ok(v@),
        Err(e) => Err(e@),
    }
}

pub open spec fn res_unit_view(r: Result<(), RuntimeError>) -> Result<(), ErrorModel> {
    match r {
        Ok(u) => Ok(u),
        Err(e) => Err(e@),
    }
}

pub open spec fn opt_val_view(r: Option<Value>) -> Option<ValueModel> {
    match r {
        Some(v) => Some(v@),
        None => None,
    }
}

impl Value {
    /// The kind of this value.
    pub fn kind(&self) -> (k: ValueKind)
        ensures
            k == kind_of(self@),
    {
        match self {
            Value::Num(_) => ValueKind::Number,
            Value::Bool(_) => ValueKind::Boolean,
            Value::Closure(_) => ValueKind::Function,
        }
    }

    /// The boolean this value carries; a type-mismatch error otherwise.
    pub fn to_bool(&self) -> (r: Result<bool, RuntimeError>)
        ensures
            res_bool_view(r) == to_bool_s(self@),
    {
        match self {
            Value::Bool(b) => Ok(*b),
            _ => Err(
                RuntimeError::TypeMismatch { expected: ValueKind::Boolean, got: self.kind() },
            ),
        }
    }

    /// The number this value carries; a type-mismatch error otherwise.
    pub fn to_num(&self) -> (r: Result<i64, RuntimeError>)
        ensures
            res_num_view(r) == to_num_s(self@),
    {
        match self {
            Value::Num(n) => Ok(*n),
            _ => Err(RuntimeError::TypeMismatch { expected: ValueKind::Number, got: self.kind() }),
        }
    }
}

/// A copy of a value; it denotes the same model value, and a copied
/// closure shares the body and captured frame of the original.
pub fn clone_value(v: &Value) -> (r: Value)
    ensures
        r@ == v@,
{
    match v {
        Value::Num(n) => Value::Num(*n),
        Value::Bool(b) => Value::Bool(*b),
        Value::Closure(c) => {
            let r = Value::Closure(
                Closure { params: clone_strings(&c.params), body: c.body.clone(), env: c.env },
            );
            proof {
                assert(r@ =~~= v@);
            }
            r
        },
    }
}

fn clone_strings(ss: &Vec<String>) -> (r: Vec<String>)
    ensures
        r@ == ss@,
{
    let mut r: Vec<String> = Vec::new();
    let mut i: usize = 0;
    while i < ss.len()
        invariant
            i <= ss@.len(),
            r@ =~= ss@.take(i as int),
        decreases ss@.len() - i,
    {
        r.push(ss[i].clone());
        i = i + 1;
    }
    proof {
        assert(r@ =~= ss@);
    }
    r
}

/// A value that is well formed against an environment of `n` frames: a
/// closure's captured frame exists and its body is well formed.
pub open spec fn val_wf(v: ValueModel, n: int) -> bool {
    match v {
        ValueModel::Closure(c) => 0 <= c.env < n && exp_wf(c.body),
        _ => true,
    }
}

/// One scope frame: a parent link and a mapping from names to values.
#[verifier::ext_equal]
pub struct FrameModel {
    pub parent: Option<int>,
    pub bindings: Map<Seq<char>, ValueModel>,
}

/// The mathematical form of an environment: the arena of frames.
#[verifier::ext_equal]
pub struct EnvModel {
    pub frames: Seq<FrameModel>,
}

impl EnvModel {
    /// The empty top-level environment: one root frame, no bindings.
    pub open spec fn init() -> EnvModel {
        EnvModel {
            frames: seq![FrameModel { parent: None, bindings: Map::empty() }],
        }
    }

    /// Well-formedness: every parent link points to an earlier frame, and
    /// every stored closure is well formed against this arena.
    pub open spec fn wf(self) -> bool {
        forall|i: int|
            0 <= i < self.frames.len() ==> frame_wf(
                #[trigger] self.frames[i],
                i,
                self.frames.len() as int,
            )
    }

    /// Lexical lookup: the current frame first, then each ancestor in turn;
    /// the first binding found wins.
    pub open spec fn lookup(self, frame: int, name: Seq<char>) -> Option<ValueModel>
        decreases frame,
    {
        if 0 <= frame < self.frames.len() {
            let fm = self.frames[frame];
            if fm.bindings.dom().contains(name) {
                Some(fm.bindings[name])
            } else {
                match fm.parent {
                    Some(p) => if 0 <= p < frame {
                        self.lookup(p, name)
                    } else {
                        None
                    },
                    None => None,
                }
            }
        } else {
            None
        }
    }

    /// Inserts or overwrites `name` in frame `frame` only, never an ancestor.
    pub open spec fn bind(self, frame: int, name: Seq<char>, v: ValueModel) -> EnvModel
        recommends
            0 <= frame < self.frames.len(),
    {
        EnvModel {
            frames: self.frames.update(
                frame,
                FrameModel {
                    parent: self.frames[frame].parent,
                    bindings: self.frames[frame].bindings.insert(name, v),
                },
            ),
        }
    }

    /// Appends a fresh empty frame whose parent is `parent`.
    pub open spec fn extend_m(self, parent: int) -> EnvModel {
        EnvModel {
            frames: self.frames.push(FrameModel { parent: Some(parent), bindings: Map::empty() }),
        }
    }
}

/// Well-formedness of one frame at position `i` in an arena of `n` frames.
pub open spec fn frame_wf(fm: FrameModel, i: int, n: int) -> bool {
    &&& match fm.parent {
        Some(p) => 0 <= p < i,
        None => true,
    }
    &&& forall|k: Seq<char>|
        #[trigger] fm.bindings.dom().contains(k) ==> val_wf(fm.bindings[k], n)
}

pub open spec fn opt_int(o: Option<usize>) -> Option<int> {
    match o {
        Some(p) => Some(p as int),
        None => None,
    }
}

/// The bindings of frame `f`, read off the append-only entry log: a later
/// entry for the same name in the same frame wins.
pub open spec fn entries_map(s: Seq<(usize, String, Value)>, f: int) -> Map<Seq<char>, ValueModel>
    decreases s.len(),
{
    if s.len() == 0 {
        Map::empty()
    } else {
        let prev = entries_map(s.drop_last(), f);
        if s.last().0 as int == f {
            prev.insert(s.last().1@, s.last().2@)
        } else {
            prev
        }
    }
}

/// The environment arena.  `parents` has one entry per frame; `entries` is
/// the append-only log of bindings, each tagged with its frame.
pub struct Env {
    parents: Vec<Option<usize>>,
    entries: Vec<(usize, String, Value)>,
}

impl View for Env {
    type V = EnvModel;

    closed spec fn view(&self) -> EnvModel {
        EnvModel {
            frames: Seq::new(
                self.parents@.len(),
                |i: int|
                    FrameModel {
                        parent: opt_int(self.parents@[i]),
                        bindings: entries_map(self.entries@, i),
                    },
            ),
        }
    }
}

impl Env {
    /// Representation invariant: every logged binding targets an existing
    /// frame.
    pub closed spec fn inv(&self) -> bool {
        forall|i: int|
            0 <= i < self.entries@.len() ==> (#[trigger] self.entries@[i]).0 < self.parents@.len()
    }

    /// A fresh environment holding only the empty top-level frame.
    pub fn new() -> (e: Env)
        ensures
            e.inv(),
            e@ == EnvModel::init(),
    {
        let mut parents: Vec<Option<usize>> = Vec::new();
        parents.push(None);
        let e = Env { parents, entries: Vec::new() };
        proof {
            assert(e@.frames =~= EnvModel::init().frames);
        }
        e
    }

    /// Appends a fresh empty frame whose parent is `parent` and returns its
    /// handle.
    pub fn extend(&mut self, parent: usize) -> (h: usize)
        requires
            old(self).inv(),
            parent < old(self)@.frames.len(),
        ensures
            final(self).inv(),
            final(self)@ == old(self)@.extend_m(parent as int),
            h as int == old(self)@.frames.len(),
    {
        let h = self.parents.len();
        self.parents.push(Some(parent));
        proof {
            lemma_entries_map_empty(self.entries@, h as int);
            assert(self@.frames =~= old(self)@.extend_m(parent as int).frames);
        }
        h
    }

    /// Inserts or overwrites `id` in frame `frame` only.
    pub fn set_var(&mut self, frame: usize, id: String, val: Value)
        requires
            old(self).inv(),
            frame < old(self)@.frames.len(),
        ensures
            final(self).inv(),
            final(self)@ == old(self)@.bind(frame as int, id@, val@),
    {
        let ghost old_entries = self.entries@;
        self.entries.push((frame, id, val));
        proof {
            assert(self.entries@.drop_last() =~= old_entries);
            assert forall|i: int| 0 <= i < self@.frames.len() implies self@.frames[i]
                == old(self)@.bind(frame as int, id@, val@).frames[i] by {
                if i != frame as int {
                    assert(entries_map(self.entries@, i) =~= entries_map(old_entries, i));
                } else {
                    assert(entries_map(self.entries@, i) =~= entries_map(old_entries, i).insert(
                        id@,
                        val@,
                    ));
                }
            }
            assert(self@.frames =~= old(self)@.bind(frame as int, id@, val@).frames);
        }
    }

    /// Lexical lookup of `id` starting at frame `frame`: this frame first,
    /// then each ancestor; the first binding found wins.
    pub fn get_var(&self, frame: usize, id: &str) -> (r: Option<Value>)
        requires
            self.inv(),
            self@.wf(),
            frame < self@.frames.len(),
        ensures
            opt_val_view(r) == self@.lookup(frame as int, id@),
    {
        let key: String = id.to_owned();
        let mut cur = frame;
        loop
            invariant
                self.inv(),
                self@.wf(),
                cur < self@.frames.len(),
                key@ == id@,
                self@.lookup(frame as int, id@) == self@.lookup(cur as int, id@),
            decreases cur,
        {
            // scan this frame's entries, newest first
            let mut j = self.entries.len();
            let mut found: Option<Value> = None;
            while j > 0 && found.is_none()
                invariant
                    self.inv(),
                    j <= self.entries@.len(),
                    cur < self@.frames.len(),
                    key@ == id@,
                    match found {
                        Some(v) => {
                            &&& entries_map(self.entries@, cur as int).dom().contains(id@)
                            &&& entries_map(self.entries@, cur as int)[id@] == v@
                        },
                        None => forall|m: int|
                            j <= m < self.entries@.len() ==> !((#[trigger] self.entries@[m]).0
                                == cur && self.entries@[m].1@ == id@),
                    },
                decreases j,
            {
                j = j - 1;
                let ent = &self.entries[j];
                if ent.0 == cur && ent.1 == key {
                    proof {
                        lemma_entries_map_found(self.entries@, cur as int, j as int, id@);
                    }
                    found = Some(clone_value(&ent.2));
                }
            }
            match found {
                Some(v) => {
                    proof {
                        assert(self@.frames[cur as int].bindings.dom().contains(id@));
                        assert(self@.frames[cur as int].bindings[id@] == v@);
                    }
                    return Some(v);
                },
                None => {
                    proof {
                        lemma_entries_map_absent(self.entries@, cur as int, id@);
                        assert(!self@.frames[cur as int].bindings.dom().contains(id@));
                    }
                    match self.parents[cur] {
                        Some(p) => {
                            proof {
                                assert(self@.frames[cur as int].parent == Some(p as int));
                                assert(frame_wf(
                                    self@.frames[cur as int],
                                    cur as int,
                                    self@.frames.len() as int,
                                ));
                            }
                            cur = p;
                        },
                        None => {
                            proof {
                                assert(self@.frames[cur as int].parent is None);
                            }
                            return None;
                        },
                    }
                },
            }
        }
    }
}

/// A frame no log entry targets has no bindings.
proof fn lemma_entries_map_empty(s: Seq<(usize, String, Value)>, f: int)
    requires
        forall|m: int| 0 <= m < s.len() ==> (#[trigger] s[m]).0 as int != f,
    ensures
        entries_map(s, f) == Map::<Seq<char>, ValueModel>::empty(),
    decreases s.len(),
{
    if s.len() > 0 {
        lemma_entries_map_empty(s.drop_last(), f);
    }
}

/// If entry `j` targets frame `f` under name `k` and no later entry does,
/// the frame's map binds `k` to that entry's value.
proof fn lemma_entries_map_found(s: Seq<(usize, String, Value)>, f: int, j: int, k: Seq<char>)
    requires
        0 <= j < s.len(),
        s[j].0 as int == f,
        s[j].1@ == k,
        forall|m: int| j < m < s.len() ==> !((#[trigger] s[m]).0 as int == f && s[m].1@ == k),
    ensures
        entries_map(s, f).dom().contains(k),
        entries_map(s, f)[k] == s[j].2@,
    decreases s.len(),
{
    if j + 1 < s.len() {
        lemma_entries_map_found(s.drop_last(), f, j, k);
    }
}

/// If no entry targets frame `f` under name `k` among the first `n`
/// entries, the map of the first `n` entries does not bind `k`.
proof fn lemma_entries_map_absent(s: Seq<(usize, String, Value)>, f: int, k: Seq<char>)
    requires
        forall|m: int| 0 <= m < s.len() ==> !((#[trigger] s[m]).0 as int == f && s[m].1@ == k),
    ensures
        !entries_map(s, f).dom().contains(k),
    decreases s.len(),
{
    if s.len() > 0 {
        lemma_entries_map_absent(s.drop_last(), f, k);
    }
}

} // verus!
