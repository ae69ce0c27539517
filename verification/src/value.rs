//! The runtime value model.
//!
//! A [`Value`] is a tagged variant. Aggregates — lists, dictionaries and
//! frozen dictionaries — are owned by a [`Heap`] and referred to by handle,
//! so stack slots, environment slots and container elements may all share
//! (alias) one aggregate, and mutation through one alias is visible through
//! the others. Cycles can form; the stringifier in this module detects them.

use vstd::prelude::*;

use crate::error::RuntimeError;
use crate::text;

verus! {

/// A runtime value; aggregates live on the [`Heap`] and are shared by handle.
#[derive(Debug)]
pub enum Value {
    /// 64-bit signed integer.
    Int(i64),
    /// UTF-8 string.
    Str(String),
    /// Boolean truth value.
    Bool(bool),
    /// Handle of a mutable list on the heap.
    List(usize),
    /// Handle of a mutable dictionary on the heap.
    Dict(usize),
    /// Handle of a frozen (immutable) dictionary on the heap.
    FrozenDict(usize),
    /// Sentinel for no value.
    Null,
}

impl Clone for Value {
    fn clone(&self) -> (r: Self)
        ensures
            r == *self,
    {
        match self {
            Value::Int(i) => Value::Int(*i),
            Value::Str(s) => Value::Str(s.clone()),
            Value::Bool(b) => Value::Bool(*b),
            Value::List(h) => Value::List(*h),
            Value::Dict(h) => Value::Dict(*h),
            Value::FrozenDict(h) => Value::FrozenDict(*h),
            Value::Null => Value::Null,
        }
    }
}

/// One key/value pair of a dictionary or an environment.
#[derive(Debug)]
pub struct Entry {
    pub key: String,
    pub val: Value,
}

impl Clone for Entry {
    fn clone(&self) -> (r: Self)
        ensures
            r == *self,
    {
        Entry { key: self.key.clone(), val: self.val.clone() }
    }
}

/// The arena that owns every aggregate. A `List(h)`, `Dict(h)` or
/// `FrozenDict(h)` value addresses `lists[h]`, `dicts[h]` or `frozen[h]`.
/// Handles are only ever created by pushing, so they stay valid for the
/// life of the machine.
#[derive(Debug)]
pub struct Heap {
    pub lists: Vec<Vec<Value>>,
    pub dicts: Vec<Vec<Entry>>,
    pub frozen: Vec<Vec<Entry>>,
}

/// Does `v`'s handle, if any, point into the heap?
pub open spec fn value_wf(v: Value, h: Heap) -> bool {
    match v {
        Value::List(i) => i < h.lists@.len(),
        Value::Dict(i) => i < h.dicts@.len(),
        Value::FrozenDict(i) => i < h.frozen@.len(),
        _ => true,
    }
}

/// Every value of `vs` is well formed for `h`.
pub open spec fn values_wf(vs: Seq<Value>, h: Heap) -> bool {
    forall|i: int| 0 <= i < vs.len() ==> value_wf(vs[i], h)
}

/// Every value of the entries `es` is well formed for `h`.
pub open spec fn entries_wf(es: Seq<Entry>, h: Heap) -> bool {
    forall|i: int| 0 <= i < es.len() ==> value_wf(es[i].val, h)
}

/// No two entries share a key.
pub open spec fn entries_keys_unique(es: Seq<Entry>) -> bool {
    forall|i: int, j: int| 0 <= i < j < es.len() ==> es[i].key@ != es[j].key@
}

/// Every aggregate on the heap holds only well-formed values, and every
/// dictionary has unique keys.
pub open spec fn heap_wf(h: Heap) -> bool {
    &&& forall|i: int| 0 <= i < h.lists@.len() ==> values_wf(#[trigger] h.lists@[i]@, h)
    &&& forall|i: int|
        0 <= i < h.dicts@.len() ==> entries_wf(#[trigger] h.dicts@[i]@, h) && entries_keys_unique(
            h.dicts@[i]@,
        )
    &&& forall|i: int|
        0 <= i < h.frozen@.len() ==> entries_wf(#[trigger] h.frozen@[i]@, h)
            && entries_keys_unique(h.frozen@[i]@)
}

/// `h2` has every handle of `h1` (the heap only grows).
pub open spec fn heap_extends(h2: Heap, h1: Heap) -> bool {
    &&& h1.lists@.len() <= h2.lists@.len()
    &&& h1.dicts@.len() <= h2.dicts@.len()
    &&& h1.frozen@.len() <= h2.frozen@.len()
}

pub proof fn lemma_values_wf_extends(vs: Seq<Value>, h1: Heap, h2: Heap)
    requires
        values_wf(vs, h1),
        heap_extends(h2, h1),
    ensures
        values_wf(vs, h2),
{
}

pub proof fn lemma_entries_wf_extends(es: Seq<Entry>, h1: Heap, h2: Heap)
    requires
        entries_wf(es, h1),
        heap_extends(h2, h1),
    ensures
        entries_wf(es, h2),
{
}

// --- association-list dictionaries ---

/// The mapping that a sequence of entries denotes: later entries win,
/// although with unique keys no two entries compete.
pub open spec fn entries_map(es: Seq<Entry>) -> Map<Seq<char>, Value>
    decreases es.len(),
{
    if es.len() == 0 {
        Map::empty()
    } else {
        entries_map(es.drop_last()).insert(es.last().key@, es.last().val)
    }
}

pub proof fn lemma_entries_map_lookup(es: Seq<Entry>, i: int)
    requires
        entries_keys_unique(es),
        0 <= i < es.len(),
    ensures
        entries_map(es).contains_key(es[i].key@),
        entries_map(es)[es[i].key@] == es[i].val,
    decreases es.len(),
{
    if i < es.len() - 1 {
        lemma_entries_map_lookup(es.drop_last(), i);
    }
}

pub proof fn lemma_entries_map_missing(es: Seq<Entry>, key: Seq<char>)
    requires
        forall|i: int| 0 <= i < es.len() ==> es[i].key@ != key,
    ensures
        !entries_map(es).contains_key(key),
    decreases es.len(),
{
    if es.len() > 0 {
        lemma_entries_map_missing(es.drop_last(), key);
    }
}

/// A value taken out of a well-formed entry list is well formed.
pub proof fn lemma_entries_map_value_wf(es: Seq<Entry>, h: Heap, key: Seq<char>)
    requires
        entries_wf(es, h),
        entries_map(es).contains_key(key),
    ensures
        value_wf(entries_map(es)[key], h),
    decreases es.len(),
{
    if es.len() > 0 {
        if es.last().key@ != key {
            assert(entries_wf(es.drop_last(), h)) by {
                assert(forall|i: int|
                    0 <= i < es.drop_last().len() ==> es.drop_last()[i] == es[i]);
            }
            lemma_entries_map_value_wf(es.drop_last(), h, key);
        }
    }
}

/// Find the entry holding `key`, if any.
pub fn entries_find(es: &Vec<Entry>, key: &str) -> (r: Option<usize>)
    ensures
        match r {
            Some(i) => i < es@.len() && es@[i as int].key@ == key@,
            None => forall|i: int| 0 <= i < es@.len() ==> es@[i].key@ != key@,
        },
{
    let n = es.len();
    let mut i: usize = 0;
    while i < n
        invariant
            i <= n,
            n == es@.len(),
            forall|j: int| 0 <= j < i ==> es@[j].key@ != key@,
        decreases n - i,
    {
        if text::str_eq(es[i].key.as_str(), key) {
            return Some(i);
        }
        i = i + 1;
    }
    None
}

/// Look `key` up in an entry list with unique keys.
pub fn entries_get(es: &Vec<Entry>, key: &str) -> (r: Option<Value>)
    requires
        entries_keys_unique(es@),
    ensures
        match r {
            Some(v) => entries_map(es@).contains_key(key@) && v == entries_map(es@)[key@],
            None => !entries_map(es@).contains_key(key@),
        },
{
    match entries_find(es, key) {
        Some(i) => {
            proof {
                lemma_entries_map_lookup(es@, i as int);
            }
            Some(es[i].val.clone())
        },
        None => {
            proof {
                lemma_entries_map_missing(es@, key@);
            }
            None
        },
    }
}

/// Bind `key` to `val`: overwrite the entry holding `key`, or add one.
pub fn entries_set(es: &mut Vec<Entry>, key: String, val: Value)
    requires
        entries_keys_unique(old(es)@),
    ensures
        entries_keys_unique(final(es)@),
        entries_map(final(es)@) == entries_map(old(es)@).insert(key@, val),
        final(es)@.len() <= old(es)@.len() + 1,
        forall|j: int|
            0 <= j < final(es)@.len() ==> (#[trigger] final(es)@[j]).val == val || (j < old(
                es,
            )@.len() && final(es)@[j] == old(es)@[j]),
{
    match entries_find(es, key.as_str()) {
        Some(i) => {
            es[i].val = val;
            proof {
                lemma_entries_set_update(old(es)@, es@, i as int, key@);
            }
        },
        None => {
            es.push(Entry { key, val });
            proof {
                lemma_entries_set_push(old(es)@, es@, key@);
            }
        },
    }
}

proof fn lemma_entries_set_update(es0: Seq<Entry>, es1: Seq<Entry>, i: int, key: Seq<char>)
    requires
        entries_keys_unique(es0),
        0 <= i < es0.len(),
        es0[i].key@ == key,
        es1.len() == es0.len(),
        es1[i].key@ == key,
        forall|j: int| 0 <= j < es0.len() && j != i ==> es1[j] == es0[j],
    ensures
        entries_keys_unique(es1),
        entries_map(es1) == entries_map(es0).insert(key, es1[i].val),
    decreases es0.len(),
{
    assert forall|a: int, b: int| 0 <= a < b < es1.len() implies es1[a].key@ != es1[b].key@ by {
        assert(es0[a].key@ != es0[b].key@);
        assert(es1[a].key@ == es0[a].key@ && es1[b].key@ == es0[b].key@);
    }
    if i == es0.len() - 1 {
        assert(es1.drop_last() =~= es0.drop_last());
        assert(entries_map(es1) =~= entries_map(es0).insert(key, es1[i].val));
    } else {
        lemma_entries_set_update(es0.drop_last(), es1.drop_last(), i, key);
        assert(es1.last() == es0.last());
        assert(es0.last().key@ != key);
        assert(entries_map(es1) =~= entries_map(es0).insert(key, es1[i].val));
    }
}

proof fn lemma_entries_set_push(es0: Seq<Entry>, es1: Seq<Entry>, key: Seq<char>)
    requires
        entries_keys_unique(es0),
        forall|j: int| 0 <= j < es0.len() ==> es0[j].key@ != key,
        es1.len() == es0.len() + 1,
        es1.last().key@ == key,
        forall|j: int| 0 <= j < es0.len() ==> es1[j] == es0[j],
    ensures
        entries_keys_unique(es1),
        entries_map(es1) == entries_map(es0).insert(key, es1.last().val),
{
    assert(es1.drop_last() =~= es0);
}

/// Clone an entry list.
pub fn entries_clone(es: &Vec<Entry>) -> (r: Vec<Entry>)
    ensures
        r@ == es@,
{
    let n = es.len();
    let mut r: Vec<Entry> = Vec::new();
    let mut i: usize = 0;
    while i < n
        invariant
            i <= n,
            n == es@.len(),
            r@ =~= es@.subrange(0, i as int),
        decreases n - i,
    {
        r.push(es[i].clone());
        i = i + 1;
        assert(r@ =~= es@.subrange(0, i as int));
    }
    proof {
        assert(es@.subrange(0, n as int) =~= es@);
    }
    r
}

/// Clone a value list.
pub fn values_clone(vs: &Vec<Value>) -> (r: Vec<Value>)
    ensures
        r@ == vs@,
{
    let n = vs.len();
    let mut r: Vec<Value> = Vec::new();
    let mut i: usize = 0;
    while i < n
        invariant
            i <= n,
            n == vs@.len(),
            r@ =~= vs@.subrange(0, i as int),
        decreases n - i,
    {
        r.push(vs[i].clone());
        i = i + 1;
        assert(r@ =~= vs@.subrange(0, i as int));
    }
    proof {
        assert(vs@.subrange(0, n as int) =~= vs@);
    }
    r
}

// --- heap operations ---

impl Heap {
    /// An empty heap.
    pub fn new() -> (h: Heap)
        ensures
            h.lists@.len() == 0,
            h.dicts@.len() == 0,
            h.frozen@.len() == 0,
            heap_wf(h),
    {
        Heap { lists: Vec::new(), dicts: Vec::new(), frozen: Vec::new() }
    }

    /// Allocate a new list holding `elems` and return its handle.
    pub fn new_list(&mut self, elems: Vec<Value>) -> (h: usize)
        requires
            heap_wf(*old(self)),
            values_wf(elems@, *old(self)),
        ensures
            heap_wf(*final(self)),
            heap_extends(*final(self), *old(self)),
            final(self).lists@ == old(self).lists@.push(elems),
            final(self).dicts@ == old(self).dicts@,
            final(self).frozen@ == old(self).frozen@,
            h == old(self).lists@.len(),
            value_wf(Value::List(h as usize), *final(self)),
    {
        let h = self.lists.len();
        self.lists.push(elems);
        proof {
            lemma_heap_push_wf(*old(self), *self);
        }
        h
    }

    /// Allocate a new mutable dictionary holding `entries`.
    pub fn new_dict(&mut self, entries: Vec<Entry>) -> (h: usize)
        requires
            heap_wf(*old(self)),
            entries_wf(entries@, *old(self)),
            entries_keys_unique(entries@),
        ensures
            heap_wf(*final(self)),
            heap_extends(*final(self), *old(self)),
            final(self).dicts@ == old(self).dicts@.push(entries),
            final(self).lists@ == old(self).lists@,
            final(self).frozen@ == old(self).frozen@,
            h == old(self).dicts@.len(),
            value_wf(Value::Dict(h as usize), *final(self)),
    {
        let h = self.dicts.len();
        self.dicts.push(entries);
        proof {
            lemma_heap_push_wf(*old(self), *self);
        }
        h
    }

    /// Allocate a new frozen dictionary holding `entries`.
    pub fn new_frozen(&mut self, entries: Vec<Entry>) -> (h: usize)
        requires
            heap_wf(*old(self)),
            entries_wf(entries@, *old(self)),
            entries_keys_unique(entries@),
        ensures
            heap_wf(*final(self)),
            heap_extends(*final(self), *old(self)),
            final(self).frozen@ == old(self).frozen@.push(entries),
            final(self).lists@ == old(self).lists@,
            final(self).dicts@ == old(self).dicts@,
            h == old(self).frozen@.len(),
            value_wf(Value::FrozenDict(h as usize), *final(self)),
    {
        let h = self.frozen.len();
        self.frozen.push(entries);
        proof {
            lemma_heap_push_wf(*old(self), *self);
        }
        h
    }

    /// The number of elements of list `h`.
    pub fn list_len(&self, h: usize) -> (n: usize)
        requires
            h < self.lists@.len(),
        ensures
            n == self.lists@[h as int]@.len(),
    {
        self.lists[h].len()
    }

    /// A copy of element `i` of list `h`.
    pub fn list_get(&self, h: usize, i: usize) -> (v: Value)
        requires
            h < self.lists@.len(),
            i < self.lists@[h as int]@.len(),
        ensures
            v == self.lists@[h as int]@[i as int],
    {
        self.lists[h][i].clone()
    }

    /// Overwrite element `i` of list `h`, growing the list with `Int(0)`
    /// padding first when `i` is past the end.
    pub fn list_grow_set(&mut self, h: usize, i: usize, v: Value)
        requires
            heap_wf(*old(self)),
            h < old(self).lists@.len(),
            value_wf(v, *old(self)),
        ensures
            heap_wf(*final(self)),
            heap_extends(*final(self), *old(self)),
            final(self).dicts@ == old(self).dicts@,
            final(self).frozen@ == old(self).frozen@,
            final(self).lists@.len() == old(self).lists@.len(),
            forall|j: int|
                0 <= j < final(self).lists@.len() && j != h ==> final(self).lists@[j] == old(
                    self,
                ).lists@[j],
            final(self).lists@[h as int]@ == grow_set(old(self).lists@[h as int]@, i as int, v),
    {
        let ghost h0 = *self;
        let len = self.lists[h].len();
        if i >= len {
            if i == usize::MAX {
                self.lists[h].resize(i, Value::Int(0));
                self.lists[h].push(v);
            } else {
                self.lists[h].resize(i + 1, Value::Int(0));
                self.lists[h][i] = v;
            }
        } else {
            self.lists[h][i] = v;
        }
        proof {
            lemma_resize_pad(h0.lists@[h as int]@, self.lists@[h as int]@, i as int, v);
            lemma_heap_list_update_wf(h0, *self, h as int, v);
        }
    }

    /// Extend list `dst` in place with the elements of list `src`
    /// (which may be `dst` itself).
    pub fn list_extend(&mut self, dst: usize, src: usize)
        requires
            heap_wf(*old(self)),
            dst < old(self).lists@.len(),
            src < old(self).lists@.len(),
        ensures
            heap_wf(*final(self)),
            heap_extends(*final(self), *old(self)),
            final(self).dicts@ == old(self).dicts@,
            final(self).frozen@ == old(self).frozen@,
            final(self).lists@.len() == old(self).lists@.len(),
            forall|j: int|
                0 <= j < final(self).lists@.len() && j != dst ==> final(self).lists@[j] == old(
                    self,
                ).lists@[j],
            final(self).lists@[dst as int]@ == old(self).lists@[dst as int]@ + old(
                self,
            ).lists@[src as int]@,
    {
        let ghost h0 = *self;
        let mut sv = values_clone(&self.lists[src]);
        self.lists[dst].append(&mut sv);
        proof {
            assert forall|i: int|
                0 <= i < self.lists@[dst as int]@.len() implies value_wf(
                #[trigger] self.lists@[dst as int]@[i],
                h0,
            ) by {
                let s = self.lists@[dst as int]@;
                if i < h0.lists@[dst as int]@.len() {
                    assert(s[i] == h0.lists@[dst as int]@[i]);
                } else {
                    assert(s[i] == h0.lists@[src as int]@[i - h0.lists@[dst as int]@.len()]);
                }
            }
            lemma_heap_list_update_wf2(h0, *self, dst as int);
        }
    }

    /// The number of entries of dictionary `h`.
    pub fn dict_len(&self, h: usize) -> (n: usize)
        requires
            h < self.dicts@.len(),
        ensures
            n == self.dicts@[h as int]@.len(),
    {
        self.dicts[h].len()
    }

    /// The number of entries of frozen dictionary `h`.
    pub fn frozen_len(&self, h: usize) -> (n: usize)
        requires
            h < self.frozen@.len(),
        ensures
            n == self.frozen@[h as int]@.len(),
    {
        self.frozen[h].len()
    }

    /// Look `key` up in dictionary `h`.
    pub fn dict_get(&self, h: usize, key: &str) -> (r: Option<Value>)
        requires
            heap_wf(*self),
            h < self.dicts@.len(),
        ensures
            match r {
                Some(v) => entries_map(self.dicts@[h as int]@).contains_key(key@) && v
                    == entries_map(self.dicts@[h as int]@)[key@],
                None => !entries_map(self.dicts@[h as int]@).contains_key(key@),
            },
    {
        entries_get(&self.dicts[h], key)
    }

    /// Look `key` up in frozen dictionary `h`.
    pub fn frozen_get(&self, h: usize, key: &str) -> (r: Option<Value>)
        requires
            heap_wf(*self),
            h < self.frozen@.len(),
        ensures
            match r {
                Some(v) => entries_map(self.frozen@[h as int]@).contains_key(key@) && v
                    == entries_map(self.frozen@[h as int]@)[key@],
                None => !entries_map(self.frozen@[h as int]@).contains_key(key@),
            },
    {
        entries_get(&self.frozen[h], key)
    }

    /// Bind `key` to `val` in dictionary `h`.
    pub fn dict_set(&mut self, h: usize, key: String, val: Value)
        requires
            heap_wf(*old(self)),
            h < old(self).dicts@.len(),
            value_wf(val, *old(self)),
        ensures
            heap_wf(*final(self)),
            heap_extends(*final(self), *old(self)),
            final(self).lists@ == old(self).lists@,
            final(self).frozen@ == old(self).frozen@,
            final(self).dicts@.len() == old(self).dicts@.len(),
            forall|j: int|
                0 <= j < final(self).dicts@.len() && j != h ==> final(self).dicts@[j] == old(
                    self,
                ).dicts@[j],
            entries_map(final(self).dicts@[h as int]@) == entries_map(
                old(self).dicts@[h as int]@,
            ).insert(key@, val),
    {
        let ghost h0 = *self;
        let inner = &mut self.dicts[h];
        entries_set(inner, key, val);
        proof {
            assert forall|i: int|
                0 <= i < self.dicts@[h as int]@.len() implies value_wf(
                #[trigger] self.dicts@[h as int]@[i].val,
                h0,
            ) by {
                let es = self.dicts@[h as int]@;
                if es[i].val != val {
                    assert(es[i] == h0.dicts@[h as int]@[i]);
                }
            }
            lemma_heap_dict_update_wf(h0, *self, h as int);
        }
    }

    /// A copy of the entries of dictionary `h` (for `freeze`).
    pub fn dict_entries(&self, h: usize) -> (r: Vec<Entry>)
        requires
            h < self.dicts@.len(),
        ensures
            r@ == self.dicts@[h as int]@,
    {
        entries_clone(&self.dicts[h])
    }

    /// A copy of elements `start..end` of list `h` (for `Slice`).
    pub fn list_slice(&self, h: usize, start: usize, end: usize) -> (r: Vec<Value>)
        requires
            h < self.lists@.len(),
            start <= end,
            end <= self.lists@[h as int]@.len(),
        ensures
            r@ == self.lists@[h as int]@.subrange(start as int, end as int),
    {
        let mut r: Vec<Value> = Vec::new();
        let mut i = start;
        while i < end
            invariant
                start <= i <= end,
                h < self.lists@.len(),
                end <= self.lists@[h as int]@.len(),
                r@ =~= self.lists@[h as int]@.subrange(start as int, i as int),
            decreases end - i,
        {
            let v = self.lists[h][i].clone();
            r.push(v);
            i = i + 1;
            assert(r@ =~= self.lists@[h as int]@.subrange(start as int, i as int));
        }
        r
    }
}

/// `s` grown with `Int(0)` padding so that index `i` exists, then updated
/// at `i` with `v`.
pub open spec fn grow_set(s: Seq<Value>, i: int, v: Value) -> Seq<Value> {
    if i < s.len() {
        s.update(i, v)
    } else {
        (s + Seq::new((i - s.len()) as nat, |j: int| Value::Int(0))).push(v)
    }
}

proof fn lemma_resize_pad(s0: Seq<Value>, s1: Seq<Value>, i: int, v: Value)
    requires
        i >= 0,
        i < s0.len() ==> s1 == s0.update(i, v),
        i >= s0.len() ==> {
            &&& s1.len() == i + 1
            &&& forall|j: int| 0 <= j < s0.len() ==> s1[j] == s0[j]
            &&& forall|j: int| s0.len() <= j < i ==> s1[j] == Value::Int(0)
            &&& s1[i] == v
        },
    ensures
        s1 == grow_set(s0, i, v),
{
    if i >= s0.len() {
        assert(s1 =~= (s0 + Seq::new((i - s0.len()) as nat, |j: int| Value::Int(0))).push(v));
    }
}

proof fn lemma_heap_push_wf(h1: Heap, h2: Heap)
    requires
        heap_wf(h1),
        heap_extends(h2, h1),
        forall|i: int| 0 <= i < h1.lists@.len() ==> h2.lists@[i] == h1.lists@[i],
        forall|i: int| 0 <= i < h1.dicts@.len() ==> h2.dicts@[i] == h1.dicts@[i],
        forall|i: int| 0 <= i < h1.frozen@.len() ==> h2.frozen@[i] == h1.frozen@[i],
        forall|i: int|
            h1.lists@.len() <= i < h2.lists@.len() ==> values_wf(#[trigger] h2.lists@[i]@, h1),
        forall|i: int|
            h1.dicts@.len() <= i < h2.dicts@.len() ==> entries_wf(#[trigger] h2.dicts@[i]@, h1)
                && entries_keys_unique(h2.dicts@[i]@),
        forall|i: int|
            h1.frozen@.len() <= i < h2.frozen@.len() ==> entries_wf(#[trigger] h2.frozen@[i]@, h1)
                && entries_keys_unique(h2.frozen@[i]@),
    ensures
        heap_wf(h2),
{
    assert forall|i: int| 0 <= i < h2.lists@.len() implies values_wf(
        #[trigger] h2.lists@[i]@,
        h2,
    ) by {
        if i < h1.lists@.len() {
            assert(values_wf(h1.lists@[i]@, h1));
        }
        lemma_values_wf_extends(h2.lists@[i]@, h1, h2);
    }
    assert forall|i: int| 0 <= i < h2.dicts@.len() implies entries_wf(#[trigger] h2.dicts@[i]@, h2)
        && entries_keys_unique(h2.dicts@[i]@) by {
        if i < h1.dicts@.len() {
            assert(entries_wf(h1.dicts@[i]@, h1));
            assert(entries_keys_unique(h1.dicts@[i]@));
        }
        lemma_entries_wf_extends(h2.dicts@[i]@, h1, h2);
    }
    assert forall|i: int| 0 <= i < h2.frozen@.len() implies entries_wf(
        #[trigger] h2.frozen@[i]@,
        h2,
    ) && entries_keys_unique(h2.frozen@[i]@) by {
        if i < h1.frozen@.len() {
            assert(entries_wf(h1.frozen@[i]@, h1));
            assert(entries_keys_unique(h1.frozen@[i]@));
        }
        lemma_entries_wf_extends(h2.frozen@[i]@, h1, h2);
    }
}

proof fn lemma_heap_list_update_wf(h1: Heap, h2: Heap, k: int, v: Value)
    requires
        heap_wf(h1),
        0 <= k < h1.lists@.len(),
        h2.lists@.len() == h1.lists@.len(),
        h2.dicts@ == h1.dicts@,
        h2.frozen@ == h1.frozen@,
        forall|i: int| 0 <= i < h1.lists@.len() && i != k ==> h2.lists@[i] == h1.lists@[i],
        values_wf(h2.lists@[k]@, h1),
    ensures
        heap_wf(h2),
{
    assert(heap_extends(h2, h1));
    assert forall|i: int| 0 <= i < h2.lists@.len() implies values_wf(
        #[trigger] h2.lists@[i]@,
        h2,
    ) by {
        if i != k {
            assert(values_wf(h1.lists@[i]@, h1));
        }
        lemma_values_wf_extends(h2.lists@[i]@, h1, h2);
    }
    assert forall|i: int| 0 <= i < h2.dicts@.len() implies entries_wf(#[trigger] h2.dicts@[i]@, h2)
        && entries_keys_unique(h2.dicts@[i]@) by {
        assert(entries_wf(h1.dicts@[i]@, h1));
        lemma_entries_wf_extends(h2.dicts@[i]@, h1, h2);
    }
    assert forall|i: int| 0 <= i < h2.frozen@.len() implies entries_wf(
        #[trigger] h2.frozen@[i]@,
        h2,
    ) && entries_keys_unique(h2.frozen@[i]@) by {
        assert(entries_wf(h1.frozen@[i]@, h1));
        lemma_entries_wf_extends(h2.frozen@[i]@, h1, h2);
    }
}

proof fn lemma_heap_list_update_wf2(h1: Heap, h2: Heap, k: int)
    requires
        heap_wf(h1),
        0 <= k < h1.lists@.len(),
        h2.lists@.len() == h1.lists@.len(),
        h2.dicts@ == h1.dicts@,
        h2.frozen@ == h1.frozen@,
        forall|i: int| 0 <= i < h1.lists@.len() && i != k ==> h2.lists@[i] == h1.lists@[i],
        values_wf(h2.lists@[k]@, h1),
    ensures
        heap_wf(h2),
{
    lemma_heap_list_update_wf(h1, h2, k, Value::Null);
}

proof fn lemma_heap_dict_update_wf(h1: Heap, h2: Heap, k: int)
    requires
        heap_wf(h1),
        0 <= k < h1.dicts@.len(),
        h2.dicts@.len() == h1.dicts@.len(),
        h2.lists@ == h1.lists@,
        h2.frozen@ == h1.frozen@,
        forall|i: int| 0 <= i < h1.dicts@.len() && i != k ==> h2.dicts@[i] == h1.dicts@[i],
        entries_wf(h2.dicts@[k]@, h1),
        entries_keys_unique(h2.dicts@[k]@),
    ensures
        heap_wf(h2),
{
    assert(heap_extends(h2, h1));
    assert forall|i: int| 0 <= i < h2.lists@.len() implies values_wf(
        #[trigger] h2.lists@[i]@,
        h2,
    ) by {
        assert(values_wf(h1.lists@[i]@, h1));
        lemma_values_wf_extends(h2.lists@[i]@, h1, h2);
    }
    assert forall|i: int| 0 <= i < h2.dicts@.len() implies entries_wf(#[trigger] h2.dicts@[i]@, h2)
        && entries_keys_unique(h2.dicts@[i]@) by {
        if i != k {
            assert(entries_wf(h1.dicts@[i]@, h1));
            assert(entries_keys_unique(h1.dicts@[i]@));
        }
        lemma_entries_wf_extends(h2.dicts@[i]@, h1, h2);
    }
    assert forall|i: int| 0 <= i < h2.frozen@.len() implies entries_wf(
        #[trigger] h2.frozen@[i]@,
        h2,
    ) && entries_keys_unique(h2.frozen@[i]@) by {
        assert(entries_wf(h1.frozen@[i]@, h1));
        lemma_entries_wf_extends(h2.frozen@[i]@, h1, h2);
    }
}

// --- coercions ---

/// What converting `v` to an integer yields: strings parse as decimal
/// integers, booleans map to 0 and 1, aggregates to their length, the
/// sentinel to 0; only an unparsable string has no integer value.
pub open spec fn as_int_spec(v: Value, h: Heap) -> Option<i64> {
    match v {
        Value::Int(i) => Some(i),
        Value::Str(s) => text::parse_i64_spec(s@),
        Value::Bool(b) => Some(if b { 1 as i64 } else { 0 as i64 }),
        Value::List(i) => Some(h.lists@[i as int]@.len() as i64),
        Value::Dict(i) => Some(h.dicts@[i as int]@.len() as i64),
        Value::FrozenDict(i) => Some(h.frozen@[i as int]@.len() as i64),
        Value::Null => Some(0),
    }
}

/// Truthiness: `false`, `0`, the empty string, empty aggregates and the
/// sentinel are falsy; everything else is truthy.
pub open spec fn as_bool_spec(v: Value, h: Heap) -> bool {
    match v {
        Value::Bool(b) => b,
        Value::Int(i) => i != 0,
        Value::Str(s) => s@.len() != 0,
        Value::List(i) => h.lists@[i as int]@.len() != 0,
        Value::Dict(i) => h.dicts@[i as int]@.len() != 0,
        Value::FrozenDict(i) => h.frozen@[i as int]@.len() != 0,
        Value::Null => false,
    }
}

impl Value {
    /// Convert the value into an integer, following [`as_int_spec`]; the
    /// one failure is a string that does not parse, rejected with a
    /// `TypeError` naming the string.
    pub fn as_int(&self, heap: &Heap) -> (r: Result<i64, RuntimeError>)
        requires
            value_wf(*self, *heap),
        ensures
            match r {
                Ok(n) => as_int_spec(*self, *heap) == Some(n),
                Err(e) => {
                    &&& as_int_spec(*self, *heap) is None
                    &&& self matches Value::Str(s)
                    &&& e matches RuntimeError::TypeError(m) && m@ == "Invalid literal for int(): '"@
                        + s@ + "'"@
                },
            },
    {
        match self {
            Value::Int(i) => Ok(*i),
            Value::Str(s) => match text::parse_i64(s.as_str()) {
                Some(n) => Ok(n),
                None => {
                    let mut m = String::from_str("Invalid literal for int(): '");
                    m.append(s.as_str());
                    m.append("'");
                    Err(RuntimeError::TypeError(m))
                },
            },
            Value::Bool(b) => Ok(if *b {
                1
            } else {
                0
            }),
            Value::List(h) => Ok(self_len_as_i64(heap.lists[*h].len())),
            Value::Dict(h) => Ok(self_len_as_i64(heap.dicts[*h].len())),
            Value::FrozenDict(h) => Ok(self_len_as_i64(heap.frozen[*h].len())),
            Value::Null => Ok(0),
        }
    }

    /// The truthiness of the value, following [`as_bool_spec`].
    pub fn as_bool(&self, heap: &Heap) -> (r: bool)
        requires
            value_wf(*self, *heap),
        ensures
            r == as_bool_spec(*self, *heap),
    {
        match self {
            Value::Bool(b) => *b,
            Value::Int(i) => *i != 0,
            Value::Str(s) => !s.as_str().is_empty(),
            Value::List(h) => heap.lists[*h].len() != 0,
            Value::Dict(h) => heap.dicts[*h].len() != 0,
            Value::FrozenDict(h) => heap.frozen[*h].len() != 0,
            Value::Null => false,
        }
    }
}

/// The length of an aggregate as a signed integer (truncating, as `as`
/// does; lengths in practice are far below the signed range).
fn self_len_as_i64(n: usize) -> (r: i64)
    ensures
        r == n as i64,
{
    n as i64
}

} // verus!
