//! Cycle-safe stringification of values.
//!
//! Aggregates can form cycles through mutation, so rendering tracks the
//! handles it has already entered; meeting one again prints `[...]` or
//! `{...}` instead of descending. The visited set only grows, so the
//! recursion is bounded by the number of aggregates on the heap — this is
//! what makes `to_string` terminate on every value, cyclic ones included.

use vstd::prelude::*;
use vstd::string::{StrSliceExecFns, StringExecFns};

use crate::text;
use crate::text::push_char;
use crate::value::{entries_wf, heap_wf, value_wf, values_wf, Entry, Heap, Value};

verus! {

/// The number of aggregates on the heap.
pub open spec fn total_handles(h: Heap) -> nat {
    h.lists@.len() + h.dicts@.len() + h.frozen@.len()
}

/// Is `p` the tag/index pair of an aggregate of `h`? Lists carry tag 0,
/// mutable dictionaries 1, frozen dictionaries 2.
pub open spec fn valid_handle(p: (int, int), h: Heap) -> bool {
    ||| p.0 == 0 && 0 <= p.1 < h.lists@.len()
    ||| p.0 == 1 && 0 <= p.1 < h.dicts@.len()
    ||| p.0 == 2 && 0 <= p.1 < h.frozen@.len()
}

/// A well-formed visited set: finite, and holding only handles of `h`.
pub open spec fn seen_wf(seen: Set<(int, int)>, h: Heap) -> bool {
    seen.finite() && (forall|p: (int, int)| seen.contains(p) ==> valid_handle(p, h))
}

/// What rendering `v` yields, along with the visited set afterwards.
/// `fuel` only serves to found the recursion; with the canonical fuel of
/// [`nfuel`] it never runs out, because every descent into an aggregate
/// adds one handle to `seen`.
pub open spec fn str_of_val(v: Value, h: Heap, seen: Set<(int, int)>, fuel: nat) -> (Seq<char>, Set<
    (int, int),
>)
    decreases fuel, 0int, 0int,
{
    match v {
        Value::Int(i) => (text::int_str(i as int), seen),
        Value::Str(s) => (s@, seen),
        Value::Bool(b) => (
            if b {
                "true"@
            } else {
                "false"@
            },
            seen,
        ),
        Value::Null => (Seq::empty(), seen),
        Value::List(idx) => {
            if seen.contains((0, idx as int)) {
                ("[...]"@, seen)
            } else if fuel == 0 {
                (Seq::empty(), seen)
            } else {
                let r = str_of_items(
                    h.lists@[idx as int]@,
                    h,
                    seen.insert((0, idx as int)),
                    (fuel - 1) as nat,
                );
                (seq!['['] + r.0 + seq![']'], r.1)
            }
        },
        Value::Dict(idx) => {
            if seen.contains((1, idx as int)) {
                ("{...}"@, seen)
            } else if fuel == 0 {
                (Seq::empty(), seen)
            } else {
                let r = str_of_entries(
                    h.dicts@[idx as int]@,
                    h,
                    seen.insert((1, idx as int)),
                    (fuel - 1) as nat,
                );
                (seq!['{'] + r.0 + seq!['}'], r.1)
            }
        },
        Value::FrozenDict(idx) => {
            if seen.contains((2, idx as int)) {
                ("{...}"@, seen)
            } else if fuel == 0 {
                (Seq::empty(), seen)
            } else {
                let r = str_of_entries(
                    h.frozen@[idx as int]@,
                    h,
                    seen.insert((2, idx as int)),
                    (fuel - 1) as nat,
                );
                (seq!['{'] + r.0 + seq!['}'], r.1)
            }
        },
    }
}

/// Rendering of list elements, joined by `", "`, threading the visited set
/// from one element to the next.
pub open spec fn str_of_items(vs: Seq<Value>, h: Heap, seen: Set<(int, int)>, fuel: nat) -> (Seq<
    char,
>, Set<(int, int)>)
    decreases fuel, vs.len(), 1int,
{
    if vs.len() == 0 {
        (Seq::empty(), seen)
    } else {
        let r0 = str_of_val(vs.first(), h, seen, fuel);
        if vs.len() == 1 {
            r0
        } else {
            let r1 = str_of_items(vs.drop_first(), h, r0.1, fuel);
            (r0.0 + ", "@ + r1.0, r1.1)
        }
    }
}

/// Rendering of dictionary entries as `key: value`, joined by `", "`.
pub open spec fn str_of_entries(es: Seq<Entry>, h: Heap, seen: Set<(int, int)>, fuel: nat) -> (Seq<
    char,
>, Set<(int, int)>)
    decreases fuel, es.len(), 1int,
{
    if es.len() == 0 {
        (Seq::empty(), seen)
    } else {
        let r0 = str_of_val(es.first().val, h, seen, fuel);
        let piece = es.first().key@ + ": "@ + r0.0;
        if es.len() == 1 {
            (piece, r0.1)
        } else {
            let r1 = str_of_entries(es.drop_first(), h, r0.1, fuel);
            (piece + ", "@ + r1.0, r1.1)
        }
    }
}

/// The canonical fuel: more than one unit per aggregate of the heap.
pub open spec fn nfuel(h: Heap) -> nat {
    total_handles(h) + 1
}

/// The rendering of `v` on heap `h`, as `to_string` returns it.
pub open spec fn str_of(v: Value, h: Heap) -> Seq<char> {
    str_of_val(v, h, Set::empty(), nfuel(h)).0
}

// --- cardinality of visited sets ---

proof fn lemma_tagged_range_card(k: int, n: nat)
    ensures
        Set::new(|p: (int, int)| p.0 == k && 0 <= p.1 < n).finite(),
        Set::new(|p: (int, int)| p.0 == k && 0 <= p.1 < n).len() == n,
    decreases n,
{
    let s = Set::new(|p: (int, int)| p.0 == k && 0 <= p.1 < n);
    if n == 0 {
        assert(s =~= Set::empty());
    } else {
        lemma_tagged_range_card(k, (n - 1) as nat);
        let s0 = Set::new(|p: (int, int)| p.0 == k && 0 <= p.1 < n - 1);
        assert(s =~= s0.insert((k, n - 1)));
        assert(!s0.contains((k, n - 1)));
    }
}

/// A well-formed visited set cannot outgrow the heap.
pub proof fn lemma_seen_card(seen: Set<(int, int)>, h: Heap)
    requires
        seen_wf(seen, h),
    ensures
        seen.len() <= total_handles(h),
{
    let s0 = Set::new(|p: (int, int)| p.0 == 0 && 0 <= p.1 < h.lists@.len());
    let s1 = Set::new(|p: (int, int)| p.0 == 1 && 0 <= p.1 < h.dicts@.len());
    let s2 = Set::new(|p: (int, int)| p.0 == 2 && 0 <= p.1 < h.frozen@.len());
    lemma_tagged_range_card(0, h.lists@.len());
    lemma_tagged_range_card(1, h.dicts@.len());
    lemma_tagged_range_card(2, h.frozen@.len());
    vstd::set_lib::lemma_len_union(s0, s1);
    vstd::set_lib::lemma_len_union(s0.union(s1), s2);
    let u = s0.union(s1).union(s2);
    assert(seen.subset_of(u));
    vstd::set_lib::lemma_len_subset(seen, u);
}

// --- the visited set only grows and stays well formed ---

proof fn lemma_val_seen(v: Value, h: Heap, seen: Set<(int, int)>, fuel: nat)
    requires
        heap_wf(h),
        value_wf(v, h),
        seen_wf(seen, h),
    ensures
        ({
            let r = str_of_val(v, h, seen, fuel);
            seen.subset_of(r.1) && seen_wf(r.1, h)
        }),
    decreases fuel, 0int, 0int,
{
    match v {
        Value::List(idx) => {
            if !seen.contains((0, idx as int)) && fuel > 0 {
                let seen1 = seen.insert((0, idx as int));
                lemma_items_seen(h.lists@[idx as int]@, h, seen1, (fuel - 1) as nat);
            }
        },
        Value::Dict(idx) => {
            if !seen.contains((1, idx as int)) && fuel > 0 {
                let seen1 = seen.insert((1, idx as int));
                lemma_entries_seen(h.dicts@[idx as int]@, h, seen1, (fuel - 1) as nat);
            }
        },
        Value::FrozenDict(idx) => {
            if !seen.contains((2, idx as int)) && fuel > 0 {
                let seen1 = seen.insert((2, idx as int));
                lemma_entries_seen(h.frozen@[idx as int]@, h, seen1, (fuel - 1) as nat);
            }
        },
        _ => {},
    }
}

proof fn lemma_items_seen(vs: Seq<Value>, h: Heap, seen: Set<(int, int)>, fuel: nat)
    requires
        heap_wf(h),
        values_wf(vs, h),
        seen_wf(seen, h),
    ensures
        ({
            let r = str_of_items(vs, h, seen, fuel);
            seen.subset_of(r.1) && seen_wf(r.1, h)
        }),
    decreases fuel, vs.len(), 1int,
{
    if vs.len() > 0 {
        assert(value_wf(vs.first(), h));
        lemma_val_seen(vs.first(), h, seen, fuel);
        if vs.len() > 1 {
            let r0 = str_of_val(vs.first(), h, seen, fuel);
            assert(values_wf(vs.drop_first(), h)) by {
                assert(forall|i: int|
                    0 <= i < vs.drop_first().len() ==> vs.drop_first()[i] == vs[i + 1]);
            }
            lemma_items_seen(vs.drop_first(), h, r0.1, fuel);
        }
    }
}

proof fn lemma_entries_seen(es: Seq<Entry>, h: Heap, seen: Set<(int, int)>, fuel: nat)
    requires
        heap_wf(h),
        entries_wf(es, h),
        seen_wf(seen, h),
    ensures
        ({
            let r = str_of_entries(es, h, seen, fuel);
            seen.subset_of(r.1) && seen_wf(r.1, h)
        }),
    decreases fuel, es.len(), 1int,
{
    if es.len() > 0 {
        assert(value_wf(es.first().val, h));
        lemma_val_seen(es.first().val, h, seen, fuel);
        if es.len() > 1 {
            let r0 = str_of_val(es.first().val, h, seen, fuel);
            assert(entries_wf(es.drop_first(), h)) by {
                assert(forall|i: int|
                    0 <= i < es.drop_first().len() ==> es.drop_first()[i] == es[i + 1]);
            }
            lemma_entries_seen(es.drop_first(), h, r0.1, fuel);
        }
    }
}

// --- the result does not depend on the fuel, once there is enough ---

proof fn lemma_val_fuel(v: Value, h: Heap, seen: Set<(int, int)>, f1: nat, f2: nat)
    requires
        heap_wf(h),
        value_wf(v, h),
        seen_wf(seen, h),
        f1 + seen.len() > total_handles(h),
        f2 + seen.len() > total_handles(h),
    ensures
        str_of_val(v, h, seen, f1) == str_of_val(v, h, seen, f2),
    decreases f1 + f2, 0int, 0int,
{
    lemma_seen_card(seen, h);
    match v {
        Value::List(idx) => {
            if !seen.contains((0, idx as int)) {
                let seen1 = seen.insert((0, idx as int));
                assert(seen1.len() == seen.len() + 1);
                lemma_items_fuel(
                    h.lists@[idx as int]@,
                    h,
                    seen1,
                    (f1 - 1) as nat,
                    (f2 - 1) as nat,
                );
            }
        },
        Value::Dict(idx) => {
            if !seen.contains((1, idx as int)) {
                let seen1 = seen.insert((1, idx as int));
                assert(seen1.len() == seen.len() + 1);
                lemma_entries_fuel(
                    h.dicts@[idx as int]@,
                    h,
                    seen1,
                    (f1 - 1) as nat,
                    (f2 - 1) as nat,
                );
            }
        },
        Value::FrozenDict(idx) => {
            if !seen.contains((2, idx as int)) {
                let seen1 = seen.insert((2, idx as int));
                assert(seen1.len() == seen.len() + 1);
                lemma_entries_fuel(
                    h.frozen@[idx as int]@,
                    h,
                    seen1,
                    (f1 - 1) as nat,
                    (f2 - 1) as nat,
                );
            }
        },
        _ => {},
    }
}

proof fn lemma_items_fuel(vs: Seq<Value>, h: Heap, seen: Set<(int, int)>, f1: nat, f2: nat)
    requires
        heap_wf(h),
        values_wf(vs, h),
        seen_wf(seen, h),
        f1 + seen.len() > total_handles(h),
        f2 + seen.len() > total_handles(h),
    ensures
        str_of_items(vs, h, seen, f1) == str_of_items(vs, h, seen, f2),
    decreases f1 + f2, vs.len(), 1int,
{
    if vs.len() > 0 {
        assert(value_wf(vs.first(), h));
        lemma_val_fuel(vs.first(), h, seen, f1, f2);
        if vs.len() > 1 {
            let r0 = str_of_val(vs.first(), h, seen, f1);
            lemma_val_seen(vs.first(), h, seen, f1);
            vstd::set_lib::lemma_len_subset(seen, r0.1);
            assert(values_wf(vs.drop_first(), h)) by {
                assert(forall|i: int|
                    0 <= i < vs.drop_first().len() ==> vs.drop_first()[i] == vs[i + 1]);
            }
            lemma_items_fuel(vs.drop_first(), h, r0.1, f1, f2);
        }
    }
}

proof fn lemma_entries_fuel(es: Seq<Entry>, h: Heap, seen: Set<(int, int)>, f1: nat, f2: nat)
    requires
        heap_wf(h),
        entries_wf(es, h),
        seen_wf(seen, h),
        f1 + seen.len() > total_handles(h),
        f2 + seen.len() > total_handles(h),
    ensures
        str_of_entries(es, h, seen, f1) == str_of_entries(es, h, seen, f2),
    decreases f1 + f2, es.len(), 1int,
{
    if es.len() > 0 {
        assert(value_wf(es.first().val, h));
        lemma_val_fuel(es.first().val, h, seen, f1, f2);
        if es.len() > 1 {
            let r0 = str_of_val(es.first().val, h, seen, f1);
            lemma_val_seen(es.first().val, h, seen, f1);
            vstd::set_lib::lemma_len_subset(seen, r0.1);
            assert(entries_wf(es.drop_first(), h)) by {
                assert(forall|i: int|
                    0 <= i < es.drop_first().len() ==> es.drop_first()[i] == es[i + 1]);
            }
            lemma_entries_fuel(es.drop_first(), h, r0.1, f1, f2);
        }
    }
}

// --- the executable renderer ---

/// The marks of the aggregates the renderer has entered, one slot per
/// aggregate of the heap.
pub struct SeenSet {
    pub lists: Vec<bool>,
    pub dicts: Vec<bool>,
    pub frozen: Vec<bool>,
}

/// The set of handles marked in `s`.
pub open spec fn seen_set(s: SeenSet) -> Set<(int, int)> {
    Set::new(
        |p: (int, int)|
            {
                ||| p.0 == 0 && 0 <= p.1 < s.lists@.len() && s.lists@[p.1]
                ||| p.0 == 1 && 0 <= p.1 < s.dicts@.len() && s.dicts@[p.1]
                ||| p.0 == 2 && 0 <= p.1 < s.frozen@.len() && s.frozen@[p.1]
            },
    )
}

/// The marks cover exactly the aggregates of `h`.
pub open spec fn seen_set_wf(s: SeenSet, h: Heap) -> bool {
    &&& s.lists@.len() == h.lists@.len()
    &&& s.dicts@.len() == h.dicts@.len()
    &&& s.frozen@.len() == h.frozen@.len()
}

proof fn lemma_seen_set_wf(s: SeenSet, h: Heap)
    requires
        seen_set_wf(s, h),
    ensures
        seen_wf(seen_set(s), h),
{
    let s0 = Set::new(|p: (int, int)| p.0 == 0 && 0 <= p.1 < h.lists@.len());
    let s1 = Set::new(|p: (int, int)| p.0 == 1 && 0 <= p.1 < h.dicts@.len());
    let s2 = Set::new(|p: (int, int)| p.0 == 2 && 0 <= p.1 < h.frozen@.len());
    lemma_tagged_range_card(0, h.lists@.len());
    lemma_tagged_range_card(1, h.dicts@.len());
    lemma_tagged_range_card(2, h.frozen@.len());
    let u = s0.union(s1).union(s2);
    assert(seen_set(s).subset_of(u));
    vstd::set_lib::lemma_set_subset_finite(u, seen_set(s));
}

fn false_vec(n: usize) -> (r: Vec<bool>)
    ensures
        r@.len() == n,
        forall|i: int| 0 <= i < n ==> !r@[i],
{
    let mut r: Vec<bool> = Vec::new();
    let mut i: usize = 0;
    while i < n
        invariant
            i <= n,
            r@.len() == i,
            forall|j: int| 0 <= j < i ==> !r@[j],
        decreases n - i,
    {
        r.push(false);
        i = i + 1;
    }
    r
}

fn new_seen(heap: &Heap) -> (s: SeenSet)
    ensures
        seen_set_wf(s, *heap),
        seen_set(s) == Set::<(int, int)>::empty(),
{
    let nl = heap.lists.len();
    let nd = heap.dicts.len();
    let nf = heap.frozen.len();
    let s = SeenSet { lists: false_vec(nl), dicts: false_vec(nd), frozen: false_vec(nf) };
    proof {
        assert(seen_set(s) =~= Set::<(int, int)>::empty());
    }
    s
}

fn to_string_rec(v: &Value, heap: &Heap, seen: SeenSet) -> (r: (String, SeenSet))
    requires
        heap_wf(*heap),
        value_wf(*v, *heap),
        seen_set_wf(seen, *heap),
    ensures
        ({
            let sr = str_of_val(*v, *heap, seen_set(seen), nfuel(*heap));
            r.0@ == sr.0 && seen_set(r.1) == sr.1 && seen_set_wf(r.1, *heap)
        }),
    decreases total_handles(*heap) - seen_set(seen).len(), 0int, 0int,
{
    proof {
        lemma_seen_set_wf(seen, *heap);
        lemma_seen_card(seen_set(seen), *heap);
    }
    match v {
        Value::Int(i) => (text::i64_to_dec(*i), seen),
        Value::Str(s) => (s.clone(), seen),
        Value::Bool(b) => (
            String::from_str(
                if *b {
                    "true"
                } else {
                    "false"
                },
            ),
            seen,
        ),
        Value::Null => (String::new(), seen),
        Value::List(idx) => {
            let lh = *idx;
            if seen.lists[lh] {
                proof {
                    assert(seen_set(seen).contains((0, lh as int)));
                }
                (String::from_str("[...]"), seen)
            } else {
                let ghost seen_in = seen_set(seen);
                let mut seen1 = seen;
                seen1.lists[lh] = true;
                proof {
                    assert(seen_set(seen1) =~= seen_in.insert((0, lh as int)));
                    lemma_seen_set_wf(seen1, *heap);
                    vstd::set::axiom_set_insert_len(seen_in, (0, lh as int));
                    lemma_seen_card(seen_set(seen1), *heap);
                }
                let rr = list_items_to_string(heap, lh, 0, seen1);
                let mut out = String::new();
                push_char(&mut out, '[');
                out.append(rr.0.as_str());
                push_char(&mut out, ']');
                proof {
                    assert(heap.lists@[lh as int]@.skip(0) =~= heap.lists@[lh as int]@);
                    let sr = str_of_val(*v, *heap, seen_in, nfuel(*heap));
                    assert(out@ =~= seq!['['] + str_of_items(
                        heap.lists@[lh as int]@,
                        *heap,
                        seen_in.insert((0, lh as int)),
                        (nfuel(*heap) - 1) as nat,
                    ).0 + seq![']']);
                }
                (out, rr.1)
            }
        },
        Value::Dict(idx) => {
            let dh = *idx;
            if seen.dicts[dh] {
                proof {
                    assert(seen_set(seen).contains((1, dh as int)));
                }
                (String::from_str("{...}"), seen)
            } else {
                let ghost seen_in = seen_set(seen);
                let mut seen1 = seen;
                seen1.dicts[dh] = true;
                proof {
                    assert(seen_set(seen1) =~= seen_in.insert((1, dh as int)));
                    lemma_seen_set_wf(seen1, *heap);
                    vstd::set::axiom_set_insert_len(seen_in, (1, dh as int));
                    lemma_seen_card(seen_set(seen1), *heap);
                }
                let rr = entry_items_to_string(heap, false, dh, 0, seen1);
                let mut out = String::new();
                push_char(&mut out, '{');
                out.append(rr.0.as_str());
                push_char(&mut out, '}');
                proof {
                    assert(heap.dicts@[dh as int]@.skip(0) =~= heap.dicts@[dh as int]@);
                    assert(out@ =~= seq!['{'] + str_of_entries(
                        heap.dicts@[dh as int]@,
                        *heap,
                        seen_in.insert((1, dh as int)),
                        (nfuel(*heap) - 1) as nat,
                    ).0 + seq!['}']);
                }
                (out, rr.1)
            }
        },
        Value::FrozenDict(idx) => {
            let dh = *idx;
            if seen.frozen[dh] {
                proof {
                    assert(seen_set(seen).contains((2, dh as int)));
                }
                (String::from_str("{...}"), seen)
            } else {
                let ghost seen_in = seen_set(seen);
                let mut seen1 = seen;
                seen1.frozen[dh] = true;
                proof {
                    assert(seen_set(seen1) =~= seen_in.insert((2, dh as int)));
                    lemma_seen_set_wf(seen1, *heap);
                    vstd::set::axiom_set_insert_len(seen_in, (2, dh as int));
                    lemma_seen_card(seen_set(seen1), *heap);
                }
                let rr = entry_items_to_string(heap, true, dh, 0, seen1);
                let mut out = String::new();
                push_char(&mut out, '{');
                out.append(rr.0.as_str());
                push_char(&mut out, '}');
                proof {
                    assert(heap.frozen@[dh as int]@.skip(0) =~= heap.frozen@[dh as int]@);
                    assert(out@ =~= seq!['{'] + str_of_entries(
                        heap.frozen@[dh as int]@,
                        *heap,
                        seen_in.insert((2, dh as int)),
                        (nfuel(*heap) - 1) as nat,
                    ).0 + seq!['}']);
                }
                (out, rr.1)
            }
        },
    }
}

fn list_items_to_string(heap: &Heap, lh: usize, i: usize, seen: SeenSet) -> (r: (String, SeenSet))
    requires
        heap_wf(*heap),
        lh < heap.lists@.len(),
        i <= heap.lists@[lh as int]@.len(),
        seen_set_wf(seen, *heap),
        seen_set(seen).len() >= 1,
    ensures
        ({
            let sr = str_of_items(
                heap.lists@[lh as int]@.skip(i as int),
                *heap,
                seen_set(seen),
                (nfuel(*heap) - 1) as nat,
            );
            r.0@ == sr.0 && seen_set(r.1) == sr.1 && seen_set_wf(r.1, *heap) && seen_set(
                r.1,
            ).len() >= 1
        }),
    decreases
            total_handles(*heap) - seen_set(seen).len(),
            heap.lists@[lh as int]@.len() - i,
            1int,
{
    proof {
        lemma_seen_set_wf(seen, *heap);
        lemma_seen_card(seen_set(seen), *heap);
    }
    let ghost vs = heap.lists@[lh as int]@.skip(i as int);
    let ghost f = (nfuel(*heap) - 1) as nat;
    let n = heap.list_len(lh);
    if i >= n {
        (String::new(), seen)
    } else {
        let elem = heap.list_get(lh, i);
        proof {
            assert(vs.first() == elem);
            assert(value_wf(elem, *heap));
        }
        let rv = to_string_rec(&elem, heap, seen);
        proof {
            lemma_seen_set_wf(rv.1, *heap);
            lemma_val_seen(elem, *heap, seen_set(seen), nfuel(*heap));
            vstd::set_lib::lemma_len_subset(seen_set(seen), seen_set(rv.1));
            lemma_val_fuel(elem, *heap, seen_set(seen), nfuel(*heap), f);
        }
        if i + 1 >= n {
            proof {
                assert(vs.len() == 1);
            }
            rv
        } else {
            proof {
                lemma_seen_card(seen_set(rv.1), *heap);
            }
            let rest = list_items_to_string(heap, lh, i + 1, rv.1);
            let mut out = rv.0;
            out.append(", ");
            out.append(rest.0.as_str());
            proof {
                assert(heap.lists@[lh as int]@.skip(i as int + 1) =~= vs.drop_first());
                let r0 = str_of_val(vs.first(), *heap, seen_set(seen), f);
                let r1 = str_of_items(vs.drop_first(), *heap, r0.1, f);
                assert(out@ =~= r0.0 + ", "@ + r1.0);
            }
            (out, rest.1)
        }
    }
}

fn entry_items_to_string(heap: &Heap, from_frozen: bool, dh: usize, i: usize, seen: SeenSet) -> (r:
    (String, SeenSet))
    requires
        heap_wf(*heap),
        from_frozen ==> dh < heap.frozen@.len() && i <= heap.frozen@[dh as int]@.len(),
        !from_frozen ==> dh < heap.dicts@.len() && i <= heap.dicts@[dh as int]@.len(),
        seen_set_wf(seen, *heap),
        seen_set(seen).len() >= 1,
    ensures
        ({
            let es = if from_frozen {
                heap.frozen@[dh as int]@
            } else {
                heap.dicts@[dh as int]@
            };
            let sr = str_of_entries(
                es.skip(i as int),
                *heap,
                seen_set(seen),
                (nfuel(*heap) - 1) as nat,
            );
            r.0@ == sr.0 && seen_set(r.1) == sr.1 && seen_set_wf(r.1, *heap) && seen_set(
                r.1,
            ).len() >= 1
        }),
    decreases
            total_handles(*heap) - seen_set(seen).len(),
            (if from_frozen {
                heap.frozen@[dh as int]@.len()
            } else {
                heap.dicts@[dh as int]@.len()
            }) - i,
            1int,
{
    proof {
        lemma_seen_set_wf(seen, *heap);
        lemma_seen_card(seen_set(seen), *heap);
    }
    let ghost es = if from_frozen {
        heap.frozen@[dh as int]@
    } else {
        heap.dicts@[dh as int]@
    };
    let ghost f = (nfuel(*heap) - 1) as nat;
    let n = if from_frozen {
        heap.frozen_len(dh)
    } else {
        heap.dict_len(dh)
    };
    if i >= n {
        (String::new(), seen)
    } else {
        let key = if from_frozen {
            heap.frozen[dh][i].key.clone()
        } else {
            heap.dicts[dh][i].key.clone()
        };
        let elem = if from_frozen {
            heap.frozen[dh][i].val.clone()
        } else {
            heap.dicts[dh][i].val.clone()
        };
        proof {
            assert(es.skip(i as int).first() == es[i as int]);
            assert(value_wf(elem, *heap));
        }
        let rv = to_string_rec(&elem, heap, seen);
        proof {
            lemma_seen_set_wf(rv.1, *heap);
            lemma_val_seen(elem, *heap, seen_set(seen), nfuel(*heap));
            vstd::set_lib::lemma_len_subset(seen_set(seen), seen_set(rv.1));
            lemma_val_fuel(elem, *heap, seen_set(seen), nfuel(*heap), f);
        }
        let mut piece = key;
        piece.append(": ");
        piece.append(rv.0.as_str());
        if i + 1 >= n {
            proof {
                assert(es.skip(i as int).len() == 1);
                let r0 = str_of_val(es.skip(i as int).first().val, *heap, seen_set(seen), f);
                assert(piece@ =~= es[i as int].key@ + ": "@ + r0.0);
            }
            (piece, rv.1)
        } else {
            proof {
                lemma_seen_card(seen_set(rv.1), *heap);
            }
            let rest = entry_items_to_string(heap, from_frozen, dh, i + 1, rv.1);
            let mut out = piece;
            out.append(", ");
            out.append(rest.0.as_str());
            proof {
                assert(es.skip(i as int + 1) =~= es.skip(i as int).drop_first());
                let r0 = str_of_val(es.skip(i as int).first().val, *heap, seen_set(seen), f);
                let r1 = str_of_entries(es.skip(i as int).drop_first(), *heap, r0.1, f);
                assert(out@ =~= (es[i as int].key@ + ": "@ + r0.0) + ", "@ + r1.0);
            }
            (out, rest.1)
        }
    }
}

impl Value {
    /// Render the value as `Emit` prints it and as string conversion needs
    /// it. Aggregates render their elements recursively; one that is met
    /// again while it is being rendered prints as `[...]` or `{...}`, so
    /// rendering terminates on every value, cyclic structures included.
    pub fn to_string(&self, heap: &Heap) -> (r: String)
        requires
            heap_wf(*heap),
            value_wf(*self, *heap),
        ensures
            r@ == str_of(*self, *heap),
    {
        let seen = new_seen(heap);
        let rr = to_string_rec(self, heap, seen);
        rr.0
    }
}

} // verus!
