//! Name-to-value environments: the global environment and each call
//! frame's local environment.

use vstd::prelude::*;

use crate::value::{
    entries_get, entries_keys_unique, entries_map, entries_set, entries_wf, heap_extends, Entry,
    Heap, Value,
};

verus! {

/// A mapping from names to values, with one entry per name.
pub struct EnvMap {
    pub entries: Vec<Entry>,
}

impl EnvMap {
    /// The mapping this environment denotes.
    pub open spec fn view(&self) -> Map<Seq<char>, Value> {
        entries_map(self.entries@)
    }

    /// Unique keys, and every value's handle points into `h`.
    pub open spec fn wf(&self, h: Heap) -> bool {
        entries_keys_unique(self.entries@) && entries_wf(self.entries@, h)
    }

    /// An empty environment.
    pub fn new() -> (r: EnvMap)
        ensures
            r@ == Map::<Seq<char>, Value>::empty(),
            r.entries@ == Seq::<Entry>::empty(),
            entries_keys_unique(r.entries@),
            forall|h: Heap| r.wf(h),
    {
        let r = EnvMap { entries: Vec::new() };
        proof {
            assert(r@ =~= Map::<Seq<char>, Value>::empty());
            assert(r.entries@ =~= Seq::<Entry>::empty());
        }
        r
    }

    /// Look a name up.
    pub fn get(&self, name: &str) -> (r: Option<Value>)
        requires
            entries_keys_unique(self.entries@),
        ensures
            match r {
                Some(v) => self@.contains_key(name@) && v == self@[name@],
                None => !self@.contains_key(name@),
            },
    {
        entries_get(&self.entries, name)
    }

    /// Bind a name, overwriting any previous binding.
    pub fn set(&mut self, name: String, val: Value)
        requires
            entries_keys_unique(old(self).entries@),
        ensures
            entries_keys_unique(final(self).entries@),
            final(self)@ == old(self)@.insert(name@, val),
            forall|h: Heap|
                old(self).wf(h) && crate::value::value_wf(val, h) ==> #[trigger] final(self).wf(
                    h,
                ),
    {
        entries_set(&mut self.entries, name, val);
        proof {
            assert forall|h: Heap|
                old(self).wf(h) && crate::value::value_wf(val, h) implies #[trigger] self.wf(h) by {
                assert forall|i: int| 0 <= i < self.entries@.len() implies crate::value::value_wf(
                    #[trigger] self.entries@[i].val,
                    h,
                ) by {
                    if self.entries@[i].val != val {
                        assert(self.entries@[i] == old(self).entries@[i]);
                    }
                }
            }
        }
    }

    /// Is a name bound?
    pub fn contains(&self, name: &str) -> (r: bool)
        requires
            entries_keys_unique(self.entries@),
        ensures
            r == self@.contains_key(name@),
    {
        match self.get(name) {
            Some(_) => true,
            None => false,
        }
    }
}

/// An environment stays well formed when the heap only grows.
pub proof fn lemma_env_wf_extends(e: EnvMap, h1: Heap, h2: Heap)
    requires
        e.wf(h1),
        heap_extends(h2, h1),
    ensures
        e.wf(h2),
{
    assert forall|i: int| 0 <= i < e.entries@.len() implies crate::value::value_wf(
        #[trigger] e.entries@[i].val,
        h2,
    ) by {
        assert(crate::value::value_wf(e.entries@[i].val, h1));
    }
}

} // verus!
