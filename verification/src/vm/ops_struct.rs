//! Construction, indexing, slicing and attribute access of aggregates.
//!
//! Lists index by integer, dictionaries by string (an integer key is
//! rendered first), strings by integer yielding a one-character string.
//! Slicing is bounds-checked; element stores grow lists with zero padding;
//! every write that reaches a frozen dictionary fails.

use vstd::prelude::*;

use crate::error::RuntimeError;
use crate::render::str_of;
use crate::text;
use crate::value::{
    as_int_spec, entries_keys_unique, entries_map, entries_set, entries_wf, grow_set, heap_extends,
    heap_wf, value_wf, values_wf, Entry, Heap, Value,
};
use crate::vm::{is_underflow, pop, popped};
use crate::vm::ops_arith::{coerce_err, pushed_str};
use vstd::string::{StrSliceExecFns, StringExecFns};

verus! {

broadcast use crate::vm::group_vm;

/// The mapping the top `n` key/value pairs of the stack build: keys are
/// rendered to strings, and of pairs sharing a key the last-pushed
/// (topmost) pair wins — the topmost pair's insert comes last.
pub open spec fn dict_pairs_map(s: Seq<Value>, h: Heap, n: int) -> Map<Seq<char>, Value>
    decreases n,
{
    if n <= 0 {
        Map::empty()
    } else {
        dict_pairs_map(popped(s, 2), h, n - 1).insert(
            str_of(s[s.len() - 2], h),
            s[s.len() - 1],
        )
    }
}

/// `BuildList(n)`: pop `n` values and push a fresh list holding them in
/// source order.
pub fn handle_build_list(n: usize, stack: &mut Vec<Value>, heap: &mut Heap) -> (r: Result<
    (),
    RuntimeError,
>)
    requires
        heap_wf(*old(heap)),
        values_wf(old(stack)@, *old(heap)),
    ensures
        heap_wf(*final(heap)),
        heap_extends(*final(heap), *old(heap)),
        values_wf(final(stack)@, *final(heap)),
        match r {
            Ok(()) => {
                &&& n <= old(stack)@.len()
                &&& final(heap).dicts@ == old(heap).dicts@
                &&& final(heap).frozen@ == old(heap).frozen@
                &&& final(heap).lists@.len() == old(heap).lists@.len() + 1
                &&& final(heap).lists@.subrange(0, old(heap).lists@.len() as int) == old(
                    heap,
                ).lists@
                &&& final(heap).lists@.last()@ == old(stack)@.skip(
                    old(stack)@.len() - n as int,
                )
                &&& final(stack)@ == popped(old(stack)@, n as int).push(
                    Value::List(old(heap).lists@.len() as usize),
                )
            },
            Err(e) => n > old(stack)@.len() && is_underflow(e) && final(stack)@ == Seq::<
                Value,
            >::empty() && *final(heap) == *old(heap),
        },
{
    let ghost s0 = old(stack)@;
    let ghost h0 = *old(heap);
    let len = stack.len();
    if len < n {
        stack.clear();
        return Err(RuntimeError::VmInvariant(String::from_str("stack underflow")));
    }
    let elems = stack.split_off(len - n);
    proof {
        assert(values_wf(elems@, h0)) by {
            assert forall|i: int| 0 <= i < elems@.len() implies value_wf(
                #[trigger] elems@[i],
                h0,
            ) by {
                assert(elems@[i] == s0[s0.len() - n + i]);
            }
        }
    }
    let h = heap.new_list(elems);
    stack.push(Value::List(h));
    proof {
        assert(heap.lists@.subrange(0, h0.lists@.len() as int) =~= h0.lists@);
        assert(stack@ == popped(s0, n as int).push(Value::List(h0.lists@.len() as usize)));
        crate::vm::lemma_values_wf_popped(s0, h0, n as int);
        crate::value::lemma_values_wf_extends(popped(s0, n as int), h0, *heap);
    }
    Ok(())
}

/// `BuildDict(n)`: pop `n` key/value pairs and push a fresh dictionary
/// mapping each rendered key to its value; of pairs sharing a key, the
/// last-pushed one wins.
pub fn handle_build_dict(n: usize, stack: &mut Vec<Value>, heap: &mut Heap) -> (r: Result<
    (),
    RuntimeError,
>)
    requires
        heap_wf(*old(heap)),
        values_wf(old(stack)@, *old(heap)),
    ensures
        heap_wf(*final(heap)),
        heap_extends(*final(heap), *old(heap)),
        values_wf(final(stack)@, *final(heap)),
        match r {
            Ok(()) => {
                &&& 2 * n <= old(stack)@.len()
                &&& final(heap).lists@ == old(heap).lists@
                &&& final(heap).frozen@ == old(heap).frozen@
                &&& final(heap).dicts@.len() == old(heap).dicts@.len() + 1
                &&& final(heap).dicts@.subrange(0, old(heap).dicts@.len() as int) == old(
                    heap,
                ).dicts@
                &&& entries_map(final(heap).dicts@.last()@) == dict_pairs_map(
                    old(stack)@,
                    *old(heap),
                    n as int,
                )
                &&& final(stack)@ == popped(old(stack)@, 2 * n as int).push(
                    Value::Dict(old(heap).dicts@.len() as usize),
                )
            },
            Err(e) => 2 * n > old(stack)@.len() && is_underflow(e) && final(stack)@ == Seq::<
                Value,
            >::empty() && *final(heap) == *old(heap),
        },
{
    let ghost s0 = old(stack)@;
    let ghost h0 = *old(heap);
    let len = stack.len();
    if n > len / 2 {
        stack.clear();
        return Err(RuntimeError::VmInvariant(String::from_str("stack underflow")));
    }
    let block = stack.split_off(len - 2 * n);
    proof {
        assert(stack@ =~= popped(s0, 2 * n as int));
        assert(block@ =~= s0.skip(s0.len() - 2 * n as int));
        assert(values_wf(block@, h0)) by {
            assert forall|i: int| 0 <= i < block@.len() implies value_wf(
                #[trigger] block@[i],
                h0,
            ) by {
                assert(block@[i] == s0[s0.len() - 2 * n + i]);
            }
        }
    }
    let mut es: Vec<Entry> = Vec::new();
    let mut j: usize = 0;
    proof {
        assert(es@ =~= Seq::<Entry>::empty());
        assert(entries_map(es@) =~= dict_pairs_map(
            s0.take(s0.len() - 2 * n as int),
            h0,
            0,
        ));
    }
    while j < n
        invariant
            j <= n,
            2 * n <= s0.len(),
            2 * n <= usize::MAX,
            heap_wf(h0),
            values_wf(s0, h0),
            *heap == h0,
            block@.len() == 2 * n,
            block@ == s0.skip(s0.len() - 2 * n as int),
            values_wf(block@, h0),
            entries_keys_unique(es@),
            entries_wf(es@, h0),
            entries_map(es@) == dict_pairs_map(
                s0.take(s0.len() - 2 * (n - j) as int),
                h0,
                j as int,
            ),
        decreases n - j,
    {
        let keyv = block[2 * j].clone();
        let val = block[2 * j + 1].clone();
        let ghost pj = s0.take(s0.len() - 2 * (n - j) as int);
        let ghost pj1 = s0.take(s0.len() - 2 * (n - j - 1) as int);
        proof {
            assert(keyv == s0[s0.len() - 2 * (n - j)]);
            assert(val == s0[s0.len() - 2 * (n - j) + 1]);
            assert(value_wf(keyv, h0) && value_wf(val, h0));
            assert(popped(pj1, 2) =~= pj);
            assert(pj1[pj1.len() - 2] == keyv);
            assert(pj1[pj1.len() - 1] == val);
        }
        let key = keyv.to_string(heap);
        let ghost es_prev = es@;
        entries_set(&mut es, key, val);
        proof {
            assert forall|i: int| 0 <= i < es@.len() implies value_wf(
                (#[trigger] es@[i]).val,
                h0,
            ) by {
                if es@[i].val != val {
                    assert(i < es_prev.len() && es@[i] == es_prev[i]);
                }
            }
            assert(entries_map(es@) == dict_pairs_map(pj1, h0, j + 1));
        }
        j = j + 1;
    }
    proof {
        assert(s0.take(s0.len() - 0) =~= s0);
    }
    let h = heap.new_dict(es);
    stack.push(Value::Dict(h));
    proof {
        assert(heap.dicts@.subrange(0, h0.dicts@.len() as int) =~= h0.dicts@);
        crate::vm::lemma_values_wf_popped(s0, h0, 2 * n as int);
        crate::value::lemma_values_wf_extends(popped(s0, 2 * n as int), h0, *heap);
    }
    Ok(())
}

/// The base of an indexing operation (under the index).
pub open spec fn idx_base(s: Seq<Value>) -> Value {
    s[s.len() - 2]
}

/// The index operand (top of stack).
pub open spec fn idx_key(s: Seq<Value>) -> Value {
    s[s.len() - 1]
}

/// What a successful `Index` pushes.
pub open spec fn index_ok_post(s: Seq<Value>, h: Heap, sf: Seq<Value>) -> bool {
    match (idx_base(s), idx_key(s)) {
        (Value::List(lh), Value::Int(i)) => 0 <= i < h.lists@[lh as int]@.len() && sf == popped(
            s,
            2,
        ).push(h.lists@[lh as int]@[i as int]),
        (Value::Dict(dh), Value::Str(k)) => entries_map(h.dicts@[dh as int]@).contains_key(k@)
            && sf == popped(s, 2).push(entries_map(h.dicts@[dh as int]@)[k@]),
        (Value::Dict(dh), Value::Int(i)) => entries_map(h.dicts@[dh as int]@).contains_key(
            text::int_str(i as int),
        ) && sf == popped(s, 2).push(entries_map(h.dicts@[dh as int]@)[text::int_str(i as int)]),
        (Value::FrozenDict(dh), Value::Str(k)) => entries_map(h.frozen@[dh as int]@).contains_key(
            k@,
        ) && sf == popped(s, 2).push(entries_map(h.frozen@[dh as int]@)[k@]),
        (Value::FrozenDict(dh), Value::Int(i)) => entries_map(h.frozen@[dh as int]@).contains_key(
            text::int_str(i as int),
        ) && sf == popped(s, 2).push(entries_map(h.frozen@[dh as int]@)[text::int_str(i as int)]),
        (Value::Str(st), Value::Int(i)) => 0 <= i < st@.len() && pushed_str(
            s,
            sf,
            seq![st@[i as int]],
        ),
        _ => false,
    }
}

/// How `Index` fails: a missing operand, an out-of-range index, a missing
/// key (named in the error), or a base that is not indexable.
pub open spec fn index_err(s: Seq<Value>, h: Heap, e: RuntimeError, sf: Seq<Value>) -> bool {
    ||| (s.len() == 0 && is_underflow(e) && sf == s)
    ||| (s.len() == 1 && is_underflow(e) && sf == popped(s, 1))
    ||| (s.len() >= 2 && sf == popped(s, 2) && match (idx_base(s), idx_key(s)) {
        (Value::List(lh), Value::Int(i)) => !(0 <= i < h.lists@[lh as int]@.len()) && (e matches
            RuntimeError::IndexError(m) && m@ == "List index out of bounds!"@),
        (Value::Dict(dh), Value::Str(k)) => !entries_map(h.dicts@[dh as int]@).contains_key(k@)
            && (e matches RuntimeError::KeyError(k2) && k2@ == k@),
        (Value::Dict(dh), Value::Int(i)) => !entries_map(h.dicts@[dh as int]@).contains_key(
            text::int_str(i as int),
        ) && (e matches RuntimeError::KeyError(k2) && k2@ == text::int_str(i as int)),
        (Value::FrozenDict(dh), Value::Str(k)) => !entries_map(
            h.frozen@[dh as int]@,
        ).contains_key(k@) && (e matches RuntimeError::KeyError(k2) && k2@ == k@),
        (Value::FrozenDict(dh), Value::Int(i)) => !entries_map(
            h.frozen@[dh as int]@,
        ).contains_key(text::int_str(i as int)) && (e matches RuntimeError::KeyError(k2) && k2@
            == text::int_str(i as int)),
        (Value::Str(st), Value::Int(i)) => !(0 <= i < st@.len()) && (e matches
            RuntimeError::IndexError(m) && m@ == "String index out of bounds!"@),
        _ => e matches RuntimeError::TypeError(m) && m@ == str_of(idx_base(s), h)
            + " is not indexable"@,
    })
}

/// `Index`: `base[key]` for lists, dictionaries and strings.
pub fn handle_index(stack: &mut Vec<Value>, heap: &Heap) -> (r: Result<(), RuntimeError>)
    requires
        heap_wf(*heap),
        values_wf(old(stack)@, *heap),
    ensures
        values_wf(final(stack)@, *heap),
        match r {
            Ok(()) => old(stack)@.len() >= 2 && index_ok_post(old(stack)@, *heap, final(stack)@),
            Err(e) => index_err(old(stack)@, *heap, e, final(stack)@),
        },
{
    let ghost s0 = old(stack)@;
    let idxv = pop(stack)?;
    let base = pop(stack)?;
    proof {
        assert(value_wf(base, *heap) && value_wf(idxv, *heap));
    }
    match (base, idxv) {
        (Value::List(lh), Value::Int(i)) => {
            let len = heap.list_len(lh);
            if i < 0 || (i as u64) >= (len as u64) {
                return Err(RuntimeError::IndexError(String::from_str("List index out of bounds!")));
            }
            let v = heap.list_get(lh, i as usize);
            proof {
                assert(values_wf(heap.lists@[lh as int]@, *heap));
            }
            stack.push(v);
        },
        (Value::Dict(dh), Value::Str(k)) => {
            match heap.dict_get(dh, k.as_str()) {
                Some(v) => {
                    proof {
                        crate::value::lemma_entries_map_value_wf(heap.dicts@[dh as int]@, *heap, k@);
                    }
                    stack.push(v);
                },
                None => {
                    return Err(RuntimeError::KeyError(k));
                },
            }
        },
        (Value::Dict(dh), Value::Int(i)) => {
            let key = text::i64_to_dec(i);
            match heap.dict_get(dh, key.as_str()) {
                Some(v) => {
                    proof {
                        crate::value::lemma_entries_map_value_wf(
                            heap.dicts@[dh as int]@,
                            *heap,
                            key@,
                        );
                    }
                    stack.push(v);
                },
                None => {
                    return Err(RuntimeError::KeyError(key));
                },
            }
        },
        (Value::FrozenDict(dh), Value::Str(k)) => {
            match heap.frozen_get(dh, k.as_str()) {
                Some(v) => {
                    proof {
                        crate::value::lemma_entries_map_value_wf(
                            heap.frozen@[dh as int]@,
                            *heap,
                            k@,
                        );
                    }
                    stack.push(v);
                },
                None => {
                    return Err(RuntimeError::KeyError(k));
                },
            }
        },
        (Value::FrozenDict(dh), Value::Int(i)) => {
            let key = text::i64_to_dec(i);
            match heap.frozen_get(dh, key.as_str()) {
                Some(v) => {
                    proof {
                        crate::value::lemma_entries_map_value_wf(
                            heap.frozen@[dh as int]@,
                            *heap,
                            key@,
                        );
                    }
                    stack.push(v);
                },
                None => {
                    return Err(RuntimeError::KeyError(key));
                },
            }
        },
        (Value::Str(st), Value::Int(i)) => {
            let len = st.as_str().unicode_len();
            if i < 0 || (i as u64) >= (len as u64) {
                return Err(
                    RuntimeError::IndexError(String::from_str("String index out of bounds!")),
                );
            }
            let c = st.as_str().get_char(i as usize);
            let mut one = String::new();
            crate::text::push_char(&mut one, c);
            stack.push(Value::Str(one));
            proof {
                assert(one@ =~= seq![st@[i as int]]);
                assert(stack@.drop_last() == popped(s0, 2));
            }
        },
        (other, _) => {
            let mut m = other.to_string(heap);
            m.append(" is not indexable");
            return Err(RuntimeError::TypeError(m));
        },
    }
    Ok(())
}

/// The three operands of `Slice`, base deepest.
pub open spec fn slc_base(s: Seq<Value>) -> Value {
    s[s.len() - 3]
}

pub open spec fn slc_start(s: Seq<Value>) -> Value {
    s[s.len() - 2]
}

pub open spec fn slc_end(s: Seq<Value>) -> Value {
    s[s.len() - 1]
}

/// The stack after three pops and the push of a string with view `x`.
pub open spec fn pushed_str3(s: Seq<Value>, sf: Seq<Value>, x: Seq<char>) -> bool {
    &&& sf.len() == s.len() - 2
    &&& sf.drop_last() == popped(s, 3)
    &&& sf.last() matches Value::Str(ss) && ss@ == x
}

/// The end bound of a slice: the sentinel means "to the length".
pub open spec fn slice_end_val(s: Seq<Value>, h: Heap, len: int) -> i64 {
    if slc_end(s) == Value::Null {
        len as i64
    } else {
        as_int_spec(slc_end(s), h)->Some_0
    }
}

/// Does the end bound of a slice coerce?
pub open spec fn slice_end_ok(s: Seq<Value>, h: Heap) -> bool {
    slc_end(s) == Value::Null || as_int_spec(slc_end(s), h) is Some
}

/// What a successful `Slice` leaves: for a list a fresh list of the chosen
/// range, for a string the substring; the bounds satisfy
/// `0 <= start <= end <= len`. Any other base pushes `Int(0)`.
pub open spec fn slice_ok_post(s: Seq<Value>, h: Heap, sf: Seq<Value>, hf: Heap) -> bool {
    &&& s.len() >= 3
    &&& as_int_spec(slc_start(s), h) is Some
    &&& match slc_base(s) {
        Value::List(lh) => {
            let len = h.lists@[lh as int]@.len() as int;
            let st = as_int_spec(slc_start(s), h)->Some_0;
            let en = slice_end_val(s, h, len);
            &&& slice_end_ok(s, h)
            &&& 0 <= st <= en <= len
            &&& hf.dicts@ == h.dicts@
            &&& hf.frozen@ == h.frozen@
            &&& hf.lists@.len() == h.lists@.len() + 1
            &&& hf.lists@.subrange(0, h.lists@.len() as int) == h.lists@
            &&& hf.lists@.last()@ == h.lists@[lh as int]@.subrange(st as int, en as int)
            &&& sf == popped(s, 3).push(Value::List(h.lists@.len() as usize))
        },
        Value::Str(sv) => {
            let len = sv@.len() as int;
            let st = as_int_spec(slc_start(s), h)->Some_0;
            let en = slice_end_val(s, h, len);
            &&& slice_end_ok(s, h)
            &&& 0 <= st <= en <= len
            &&& hf == h
            &&& pushed_str3(s, sf, sv@.subrange(st as int, en as int))
        },
        _ => hf == h && sf == popped(s, 3).push(Value::Int(0)),
    }
}

/// How `Slice` fails: a missing operand, a bound that does not coerce, or
/// bounds outside `0 <= start <= end <= len`.
pub open spec fn slice_err(s: Seq<Value>, h: Heap, e: RuntimeError, sf: Seq<Value>) -> bool {
    ||| (s.len() == 0 && is_underflow(e) && sf == s)
    ||| (s.len() == 1 && is_underflow(e) && sf == popped(s, 1))
    ||| (s.len() == 2 && is_underflow(e) && sf == popped(s, 2))
    ||| (s.len() >= 3 && sf == popped(s, 3) && as_int_spec(slc_start(s), h) is None && coerce_err(
        slc_start(s),
        h,
        e,
    ))
    ||| (s.len() >= 3 && sf == popped(s, 3) && as_int_spec(slc_start(s), h) is Some && sliceable(
        s,
    ) && as_int_spec(slc_start(s), h)->Some_0 < 0 && (e matches RuntimeError::IndexError(m) && m@
        == "Slice indices out of bounds!"@))
    ||| (s.len() >= 3 && sf == popped(s, 3) && as_int_spec(slc_start(s), h) is Some && sliceable(
        s,
    ) && as_int_spec(slc_start(s), h)->Some_0 >= 0 && !slice_end_ok(s, h) && coerce_err(
        slc_end(s),
        h,
        e,
    ))
    ||| (s.len() >= 3 && sf == popped(s, 3) && as_int_spec(slc_start(s), h) is Some && sliceable(
        s,
    ) && as_int_spec(slc_start(s), h)->Some_0 >= 0 && slice_end_ok(s, h) && !slice_bounds_ok(s, h)
        && (e matches RuntimeError::IndexError(m) && m@ == "Slice indices out of bounds!"@))
}

/// Is the base of a slice a list or a string?
pub open spec fn sliceable(s: Seq<Value>) -> bool {
    slc_base(s) matches Value::List(_) || slc_base(s) matches Value::Str(_)
}

/// Are the coerced bounds of a slice within range?
pub open spec fn slice_bounds_ok(s: Seq<Value>, h: Heap) -> bool {
    let len: int = match slc_base(s) {
        Value::List(lh) => h.lists@[lh as int]@.len() as int,
        Value::Str(sv) => sv@.len() as int,
        _ => 0,
    };
    let st = as_int_spec(slc_start(s), h)->Some_0;
    let en = slice_end_val(s, h, len);
    0 <= st <= en <= len
}

/// `Slice`: `base[start:end]` for lists and strings.
pub fn handle_slice(stack: &mut Vec<Value>, heap: &mut Heap) -> (r: Result<(), RuntimeError>)
    requires
        heap_wf(*old(heap)),
        values_wf(old(stack)@, *old(heap)),
    ensures
        heap_wf(*final(heap)),
        heap_extends(*final(heap), *old(heap)),
        values_wf(final(stack)@, *final(heap)),
        match r {
            Ok(()) => slice_ok_post(old(stack)@, *old(heap), final(stack)@, *final(heap)),
            Err(e) => *final(heap) == *old(heap) && slice_err(
                old(stack)@,
                *old(heap),
                e,
                final(stack)@,
            ),
        },
{
    let ghost s0 = old(stack)@;
    let ghost h0 = *old(heap);
    let end_val = pop(stack)?;
    let start_val = pop(stack)?;
    let base = pop(stack)?;
    proof {
        assert(value_wf(base, h0) && value_wf(start_val, h0) && value_wf(end_val, h0));
        assert(stack@ =~= popped(s0, 3));
    }
    let start_i64 = start_val.as_int(heap)?;
    match base {
        Value::List(lh) => {
            if start_i64 < 0 {
                return Err(
                    RuntimeError::IndexError(String::from_str("Slice indices out of bounds!")),
                );
            }
            let len = heap.list_len(lh);
            let end_i64 = match end_val {
                Value::Null => self_len_i64(len),
                v => v.as_int(heap)?,
            };
            if end_i64 < 0 {
                return Err(
                    RuntimeError::IndexError(String::from_str("Slice indices out of bounds!")),
                );
            }
            if (start_i64 as u64) > (end_i64 as u64) || (end_i64 as u64) > (len as u64) {
                return Err(
                    RuntimeError::IndexError(String::from_str("Slice indices out of bounds!")),
                );
            }
            let part = heap.list_slice(lh, start_i64 as usize, end_i64 as usize);
            proof {
                assert(values_wf(part@, h0)) by {
                    assert forall|i: int| 0 <= i < part@.len() implies value_wf(
                        #[trigger] part@[i],
                        h0,
                    ) by {
                        assert(values_wf(h0.lists@[lh as int]@, h0));
                        assert(part@[i] == h0.lists@[lh as int]@[start_i64 + i]);
                    }
                }
            }
            let h = heap.new_list(part);
            stack.push(Value::List(h));
            proof {
                assert(heap.lists@.subrange(0, h0.lists@.len() as int) =~= h0.lists@);
                crate::vm::lemma_values_wf_popped(s0, h0, 3);
                crate::value::lemma_values_wf_extends(popped(s0, 3), h0, *heap);
            }
        },
        Value::Str(sv) => {
            if start_i64 < 0 {
                return Err(
                    RuntimeError::IndexError(String::from_str("Slice indices out of bounds!")),
                );
            }
            let len = sv.as_str().unicode_len();
            let end_i64 = match end_val {
                Value::Null => self_len_i64(len),
                v => v.as_int(heap)?,
            };
            if end_i64 < 0 {
                return Err(
                    RuntimeError::IndexError(String::from_str("Slice indices out of bounds!")),
                );
            }
            if (start_i64 as u64) > (end_i64 as u64) || (end_i64 as u64) > (len as u64) {
                return Err(
                    RuntimeError::IndexError(String::from_str("Slice indices out of bounds!")),
                );
            }
            let part = sv.as_str().substring_char(start_i64 as usize, end_i64 as usize);
            let owned = part.to_owned();
            stack.push(Value::Str(owned));
            proof {
                assert(stack@.drop_last() == popped(s0, 3));
            }
        },
        _ => {
            stack.push(Value::Int(0));
        },
    }
    Ok(())
}

/// The length of an aggregate as a signed integer, as the sentinel end
/// bound of a slice uses it.
fn self_len_i64(n: usize) -> (r: i64)
    ensures
        r == n as i64,
{
    n as i64
}

/// What a successful `StoreIndex` does: a list grows as needed and takes
/// the value at the index; a dictionary binds the (rendered) key; any
/// other mutable base ignores the write.
pub open spec fn store_index_ok_post(s: Seq<Value>, h: Heap, hf: Heap) -> bool {
    let base = s[s.len() - 3];
    let key = s[s.len() - 2];
    let val = s[s.len() - 1];
    match (base, key) {
        (Value::List(lh), Value::Int(i)) => {
            &&& 0 <= i <= usize::MAX
            &&& hf.dicts@ == h.dicts@
            &&& hf.frozen@ == h.frozen@
            &&& hf.lists@.len() == h.lists@.len()
            &&& (forall|j: int|
                0 <= j < hf.lists@.len() && j != lh ==> hf.lists@[j] == h.lists@[j])
            &&& hf.lists@[lh as int]@ == grow_set(h.lists@[lh as int]@, i as int, val)
        },
        (Value::Dict(dh), Value::Str(k)) => {
            &&& hf.lists@ == h.lists@
            &&& hf.frozen@ == h.frozen@
            &&& hf.dicts@.len() == h.dicts@.len()
            &&& (forall|j: int|
                0 <= j < hf.dicts@.len() && j != dh ==> hf.dicts@[j] == h.dicts@[j])
            &&& entries_map(hf.dicts@[dh as int]@) == entries_map(h.dicts@[dh as int]@).insert(
                k@,
                val,
            )
        },
        (Value::Dict(dh), Value::Int(i)) => {
            &&& hf.lists@ == h.lists@
            &&& hf.frozen@ == h.frozen@
            &&& hf.dicts@.len() == h.dicts@.len()
            &&& (forall|j: int|
                0 <= j < hf.dicts@.len() && j != dh ==> hf.dicts@[j] == h.dicts@[j])
            &&& entries_map(hf.dicts@[dh as int]@) == entries_map(h.dicts@[dh as int]@).insert(
                text::int_str(i as int),
                val,
            )
        },
        (Value::FrozenDict(_), _) => false,
        _ => hf == h,
    }
}

/// How `StoreIndex` fails: a missing operand, a write to a frozen
/// dictionary, or a list index outside the machine's range.
pub open spec fn store_index_err(s: Seq<Value>, h: Heap, e: RuntimeError, sf: Seq<Value>) -> bool {
    ||| (s.len() == 0 && is_underflow(e) && sf == s)
    ||| (s.len() == 1 && is_underflow(e) && sf == popped(s, 1))
    ||| (s.len() == 2 && is_underflow(e) && sf == popped(s, 2))
    ||| (s.len() >= 3 && sf == popped(s, 3) && (s[s.len() - 3] matches Value::FrozenDict(_)) && e
        == RuntimeError::FrozenWriteError)
    ||| (s.len() >= 3 && sf == popped(s, 3) && (s[s.len() - 3] matches Value::List(_)) && (
    s[s.len() - 2] matches Value::Int(i) && !(0 <= i <= usize::MAX)) && (e matches
        RuntimeError::IndexError(m) && m@ == "List index out of bounds!"@))
}

/// `StoreIndex`: `base[key] = value`.
pub fn handle_store_index(stack: &mut Vec<Value>, heap: &mut Heap) -> (r: Result<
    (),
    RuntimeError,
>)
    requires
        heap_wf(*old(heap)),
        values_wf(old(stack)@, *old(heap)),
    ensures
        heap_wf(*final(heap)),
        heap_extends(*final(heap), *old(heap)),
        values_wf(final(stack)@, *final(heap)),
        match r {
            Ok(()) => old(stack)@.len() >= 3 && final(stack)@ == popped(old(stack)@, 3)
                && store_index_ok_post(old(stack)@, *old(heap), *final(heap)),
            Err(e) => *final(heap) == *old(heap) && store_index_err(
                old(stack)@,
                *old(heap),
                e,
                final(stack)@,
            ),
        },
{
    let ghost s0 = old(stack)@;
    let ghost h0 = *old(heap);
    let val = pop(stack)?;
    let idx = pop(stack)?;
    let base = pop(stack)?;
    proof {
        assert(value_wf(base, h0) && value_wf(idx, h0) && value_wf(val, h0));
        assert(stack@ =~= popped(s0, 3));
    }
    match (base, idx) {
        (Value::List(lh), Value::Int(i)) => {
            if i < 0 || (i as u64) > (usize::MAX as u64) {
                return Err(RuntimeError::IndexError(String::from_str("List index out of bounds!")));
            }
            heap.list_grow_set(lh, i as usize, val);
        },
        (Value::Dict(dh), Value::Str(k)) => {
            heap.dict_set(dh, k, val);
        },
        (Value::Dict(dh), Value::Int(i)) => {
            let key = text::i64_to_dec(i);
            heap.dict_set(dh, key, val);
        },
        (Value::FrozenDict(_), _) => {
            return Err(RuntimeError::FrozenWriteError);
        },
        _ => {},
    }
    proof {
        crate::vm::lemma_values_wf_popped(s0, h0, 3);
        crate::value::lemma_values_wf_extends(popped(s0, 3), h0, *heap);
    }
    Ok(())
}

/// What a successful `Attr` pushes: the value under the attribute in a
/// dictionary-like base.
pub open spec fn attr_ok_post(s: Seq<Value>, h: Heap, attr: Seq<char>, sf: Seq<Value>) -> bool {
    match s[s.len() - 1] {
        Value::Dict(dh) => entries_map(h.dicts@[dh as int]@).contains_key(attr) && sf == popped(
            s,
            1,
        ).push(entries_map(h.dicts@[dh as int]@)[attr]),
        Value::FrozenDict(dh) => entries_map(h.frozen@[dh as int]@).contains_key(attr) && sf
            == popped(s, 1).push(entries_map(h.frozen@[dh as int]@)[attr]),
        _ => false,
    }
}

/// How `Attr` fails: a missing operand, a missing key, or a base without
/// attributes.
pub open spec fn attr_err(s: Seq<Value>, h: Heap, attr: Seq<char>, e: RuntimeError, sf: Seq<
    Value,
>) -> bool {
    ||| (s.len() == 0 && is_underflow(e) && sf == s)
    ||| (s.len() >= 1 && sf == popped(s, 1) && match s[s.len() - 1] {
        Value::Dict(dh) => !entries_map(h.dicts@[dh as int]@).contains_key(attr) && (e matches
            RuntimeError::KeyError(k2) && k2@ == attr),
        Value::FrozenDict(dh) => !entries_map(h.frozen@[dh as int]@).contains_key(attr) && (e
            matches RuntimeError::KeyError(k2) && k2@ == attr),
        _ => e matches RuntimeError::TypeError(m) && m@ == str_of(s[s.len() - 1], h)
            + " has no attribute '"@ + attr + "'"@,
    })
}

/// `Attr`: read `base.attr`; only dictionary-like bases have attributes.
pub fn handle_attr(attr: &String, stack: &mut Vec<Value>, heap: &Heap) -> (r: Result<
    (),
    RuntimeError,
>)
    requires
        heap_wf(*heap),
        values_wf(old(stack)@, *heap),
    ensures
        values_wf(final(stack)@, *heap),
        match r {
            Ok(()) => old(stack)@.len() >= 1 && attr_ok_post(old(stack)@, *heap, attr@, final(stack)@),
            Err(e) => attr_err(old(stack)@, *heap, attr@, e, final(stack)@),
        },
{
    let base = pop(stack)?;
    proof {
        assert(value_wf(base, *heap));
    }
    match base {
        Value::Dict(dh) => {
            match heap.dict_get(dh, attr.as_str()) {
                Some(v) => {
                    proof {
                        crate::value::lemma_entries_map_value_wf(
                            heap.dicts@[dh as int]@,
                            *heap,
                            attr@,
                        );
                    }
                    stack.push(v);
                },
                None => {
                    return Err(RuntimeError::KeyError(attr.clone()));
                },
            }
        },
        Value::FrozenDict(dh) => {
            match heap.frozen_get(dh, attr.as_str()) {
                Some(v) => {
                    proof {
                        crate::value::lemma_entries_map_value_wf(
                            heap.frozen@[dh as int]@,
                            *heap,
                            attr@,
                        );
                    }
                    stack.push(v);
                },
                None => {
                    return Err(RuntimeError::KeyError(attr.clone()));
                },
            }
        },
        other => {
            let mut m = other.to_string(heap);
            m.append(" has no attribute '");
            m.append(attr.as_str());
            m.append("'");
            return Err(RuntimeError::TypeError(m));
        },
    }
    Ok(())
}

/// What a successful `StoreAttr` does: bind the attribute in a mutable
/// dictionary; any other mutable base ignores the write.
pub open spec fn store_attr_ok_post(s: Seq<Value>, h: Heap, attr: Seq<char>, hf: Heap) -> bool {
    let base = s[s.len() - 2];
    let val = s[s.len() - 1];
    match base {
        Value::Dict(dh) => {
            &&& hf.lists@ == h.lists@
            &&& hf.frozen@ == h.frozen@
            &&& hf.dicts@.len() == h.dicts@.len()
            &&& (forall|j: int|
                0 <= j < hf.dicts@.len() && j != dh ==> hf.dicts@[j] == h.dicts@[j])
            &&& entries_map(hf.dicts@[dh as int]@) == entries_map(h.dicts@[dh as int]@).insert(
                attr,
                val,
            )
        },
        Value::FrozenDict(_) => false,
        _ => hf == h,
    }
}

/// How `StoreAttr` fails: a missing operand, or a write to a frozen
/// dictionary.
pub open spec fn store_attr_err(s: Seq<Value>, e: RuntimeError, sf: Seq<Value>) -> bool {
    ||| (s.len() == 0 && is_underflow(e) && sf == s)
    ||| (s.len() == 1 && is_underflow(e) && sf == popped(s, 1))
    ||| (s.len() >= 2 && sf == popped(s, 2) && (s[s.len() - 2] matches Value::FrozenDict(_)) && e
        == RuntimeError::FrozenWriteError)
}

/// `StoreAttr`: `base.attr = value`.
pub fn handle_store_attr(attr: &String, stack: &mut Vec<Value>, heap: &mut Heap) -> (r: Result<
    (),
    RuntimeError,
>)
    requires
        heap_wf(*old(heap)),
        values_wf(old(stack)@, *old(heap)),
    ensures
        heap_wf(*final(heap)),
        heap_extends(*final(heap), *old(heap)),
        values_wf(final(stack)@, *final(heap)),
        match r {
            Ok(()) => old(stack)@.len() >= 2 && final(stack)@ == popped(old(stack)@, 2)
                && store_attr_ok_post(old(stack)@, *old(heap), attr@, *final(heap)),
            Err(e) => *final(heap) == *old(heap) && store_attr_err(old(stack)@, e, final(stack)@),
        },
{
    let ghost s0 = old(stack)@;
    let ghost h0 = *old(heap);
    let val = pop(stack)?;
    let base = pop(stack)?;
    proof {
        assert(value_wf(base, h0) && value_wf(val, h0));
    }
    match base {
        Value::Dict(dh) => {
            heap.dict_set(dh, attr.clone(), val);
        },
        Value::FrozenDict(_) => {
            return Err(RuntimeError::FrozenWriteError);
        },
        _ => {},
    }
    proof {
        crate::vm::lemma_values_wf_popped(s0, h0, 2);
        crate::value::lemma_values_wf_extends(popped(s0, 2), h0, *heap);
    }
    Ok(())
}

} // verus!
