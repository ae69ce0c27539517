//! The stack-based virtual machine.
//!
//! State: an operand stack of values, a heap of shared aggregates, the
//! global environment, the current frame's local environment, the stack of
//! saved frames, the parallel return-address stack, and a stack of
//! exception-handler blocks. The driver fetches `code[pc]`, dispatches to a
//! handler, and on an error unwinds to the nearest block or ends the run.
//!
//! The machine's behaviour is specified twice over: each handler carries
//! its exact contract, and the relations around [`machine_step`] restate
//! them as a small-step semantics over [`MachineV`] states, against which
//! [`run`] promises its whole execution. Throughout a run the return stack
//! and the frame stack have equal length: calls push both, returns pop
//! both, tail calls touch neither, and unwinding truncates both to the
//! depths a block captured together ([`lemma_trace_balanced`]).

use vstd::prelude::*;

use crate::bytecode::{FuncTable, Instr};
use crate::envmap::EnvMap;
use crate::error::RuntimeError;
use crate::host::HostIo;
use crate::value::{heap_extends, heap_wf, value_wf, values_wf, Heap, Value};
use vstd::string::StringExecFns;

pub mod builtins;
pub mod ops_arith;
pub mod ops_control;
pub mod ops_struct;

verus! {

broadcast use vstd::string::group_string_axioms;

/// Exception-handling metadata for one protected region: the handler's
/// instruction index and the depths to restore on unwind.
pub struct Block {
    pub handler: usize,
    pub stack_size: usize,
    pub env_depth: usize,
    pub ret_depth: usize,
}

/// The stack with its top `n` values removed.
pub open spec fn popped(s: Seq<Value>, n: int) -> Seq<Value> {
    s.take(s.len() - n)
}

/// Is `e` the internal stack-underflow error?
pub open spec fn is_underflow(e: RuntimeError) -> bool {
    e matches RuntimeError::VmInvariant(m) && m@ == "stack underflow"@
}

/// Pop one value from the operand stack, or report underflow.
pub fn pop(stack: &mut Vec<Value>) -> (r: Result<Value, RuntimeError>)
    ensures
        match r {
            Ok(v) => old(stack)@.len() >= 1 && v == old(stack)@.last() && final(stack)@ == popped(
                old(stack)@,
                1,
            ),
            Err(e) => old(stack)@.len() == 0 && final(stack)@ == old(stack)@ && is_underflow(e),
        },
{
    match stack.pop() {
        Some(v) => {
            proof {
                assert(stack@ =~= popped(old(stack)@, 1));
            }
            Ok(v)
        },
        None => Err(RuntimeError::VmInvariant(String::from_str("stack underflow"))),
    }
}

pub broadcast proof fn lemma_popped_popped(s: Seq<Value>, m: int, n: int)
    requires
        m >= 0,
        n >= 0,
        m + n <= s.len(),
    ensures
        #[trigger] popped(popped(s, m), n) == popped(s, m + n),
{
    assert(popped(popped(s, m), n) =~= popped(s, m + n));
}

pub broadcast proof fn lemma_popped_zero(s: Seq<Value>)
    ensures
        #[trigger] popped(s, 0) == s,
{
    assert(popped(s, 0) =~= s);
}

pub broadcast proof fn lemma_values_wf_popped(s: Seq<Value>, h: Heap, n: int)
    requires
        values_wf(s, h),
        0 <= n <= s.len(),
    ensures
        #[trigger] values_wf(popped(s, n), h),
{
    assert forall|i: int| 0 <= i < popped(s, n).len() implies value_wf(
        #[trigger] popped(s, n)[i],
        h,
    ) by {
        assert(popped(s, n)[i] == s[i]);
    }
}

pub broadcast proof fn lemma_values_wf_push(s: Seq<Value>, h: Heap, v: Value)
    requires
        values_wf(s, h),
        value_wf(v, h),
    ensures
        #[trigger] values_wf(s.push(v), h),
{
    assert forall|i: int| 0 <= i < s.push(v).len() implies value_wf(#[trigger] s.push(v)[i], h) by {
        if i < s.len() {
            assert(s.push(v)[i] == s[i]);
        } else {
            assert(s.push(v)[i] == v);
        }
    }
}

/// The workaday facts about stacks of values that the handlers lean on.
pub broadcast group group_vm {
    lemma_popped_popped,
    lemma_popped_zero,
    lemma_values_wf_popped,
    lemma_values_wf_push,
}

/// Every saved frame is a well-formed environment for `h`.
pub open spec fn frames_wf(frames: Seq<EnvMap>, h: Heap) -> bool {
    forall|i: int| 0 <= i < frames.len() ==> (#[trigger] frames[i]).wf(h)
}

/// Saved frames stay well formed when the heap grows.
pub proof fn lemma_frames_wf_extends(frames: Seq<EnvMap>, h1: Heap, h2: Heap)
    requires
        frames_wf(frames, h1),
        heap_extends(h2, h1),
    ensures
        frames_wf(frames, h2),
{
    assert forall|i: int| 0 <= i < frames.len() implies (#[trigger] frames[i]).wf(h2) by {
        crate::envmap::lemma_env_wf_extends(frames[i], h1, h2);
    }
}

/// The local environment a call builds, after `j` of the parameters are
/// bound: parameters are bound last-to-first from the top of the stack, so
/// the last parameter takes the topmost argument and, should a name
/// repeat, its first position wins.
pub open spec fn bind_params_map(params: Seq<String>, s: Seq<Value>, j: int) -> Map<
    Seq<char>,
    Value,
>
    decreases j,
{
    if j <= 0 {
        Map::empty()
    } else {
        bind_params_map(params, s, j - 1).insert(
            params[params.len() - j]@,
            s[s.len() - j],
        )
    }
}

/// Every block records the frame depth and return depth as the same
/// number, because they are captured together while the two stacks have
/// equal length.
pub open spec fn blocks_wf(bs: Seq<Block>) -> bool {
    forall|i: int| 0 <= i < bs.len() ==> (#[trigger] bs[i]).env_depth == bs[i].ret_depth
}

proof fn lemma_state_wf_extends(env: EnvMap, globals: EnvMap, frames: Seq<EnvMap>, h1: Heap, h2: Heap)
    requires
        env.wf(h1),
        globals.wf(h1),
        frames_wf(frames, h1),
        heap_extends(h2, h1),
    ensures
        env.wf(h2),
        globals.wf(h2),
        frames_wf(frames, h2),
{
    crate::envmap::lemma_env_wf_extends(env, h1, h2);
    crate::envmap::lemma_env_wf_extends(globals, h1, h2);
    lemma_frames_wf_extends(frames, h1, h2);
}

// --- the machine's small-step semantics ---

/// A machine state as the contracts see it: the operand stack, the heap,
/// the two environments, the frame and return stacks, the handler blocks,
/// the program counter, and everything emitted so far (as rendered lines).
pub struct MachineV {
    pub stack: Seq<Value>,
    pub heap: Heap,
    pub globals: EnvMap,
    pub env: EnvMap,
    pub env_stack: Seq<EnvMap>,
    pub ret_stack: Seq<usize>,
    pub block_stack: Seq<Block>,
    pub pc: usize,
    pub output: Seq<Seq<char>>,
}

/// Everything but the operand stack, the heap and the program counter is
/// unchanged.
pub open spec fn frames_unchanged(s1: MachineV, s2: MachineV) -> bool {
    &&& s2.globals == s1.globals
    &&& s2.env == s1.env
    &&& s2.env_stack == s1.env_stack
    &&& s2.ret_stack == s1.ret_stack
    &&& s2.block_stack == s1.block_stack
    &&& s2.output == s1.output
}

/// The state the machine starts a run in: empty stacks, the arguments on
/// the heap as list 0, and the three seeded globals — `args`, the
/// normalized `module_file` (or the stand-in for none), and its parent as
/// `current_dir`.
pub open spec fn machine_init_rel(args: Seq<String>, s: MachineV) -> bool {
    &&& s.stack == Seq::<Value>::empty()
    &&& s.env@ == Map::<Seq<char>, Value>::empty()
    &&& s.env_stack == Seq::<EnvMap>::empty()
    &&& s.ret_stack == Seq::<usize>::empty()
    &&& s.block_stack == Seq::<Block>::empty()
    &&& s.pc == 0
    &&& s.output == Seq::<Seq<char>>::empty()
    &&& s.heap.lists@.len() == 1
    &&& s.heap.dicts@.len() == 0
    &&& s.heap.frozen@.len() == 0
    &&& s.heap.lists@[0]@.len() == args.len()
    &&& (forall|i: int|
        0 <= i < args.len() ==> ((#[trigger] s.heap.lists@[0]@[i]) matches Value::Str(x) && x@
            == args[i]@))
    &&& s.globals@.dom() == set!["args"@, "module_file"@, "current_dir"@]
    &&& s.globals@["args"@] == Value::List(0usize)
    &&& (s.globals@["module_file"@] matches Value::Str(mf) && mf@ == (if args.len() > 0 {
        crate::vm::builtins::norm_slashes(args[0]@)
    } else {
        "<stdin>"@
    }))
    &&& (s.globals@["current_dir"@] matches Value::Str(cd) && cd@ == (if args.len() > 0 {
        crate::vm::builtins::parent_dir_spec(crate::vm::builtins::norm_slashes(args[0]@))
    } else {
        "."@
    }))
}

/// The heap after a fresh list is allocated with elements `elems`.
pub open spec fn heap_after_new_list(h1: Heap, h2: Heap, elems: Seq<Value>) -> bool {
    &&& h2.dicts@ == h1.dicts@
    &&& h2.frozen@ == h1.frozen@
    &&& h2.lists@.len() == h1.lists@.len() + 1
    &&& h2.lists@.subrange(0, h1.lists@.len() as int) == h1.lists@
    &&& h2.lists@.last()@ == elems
}

/// The heap after a fresh dictionary is allocated denoting the mapping `m`.
pub open spec fn heap_after_new_dict(h1: Heap, h2: Heap, m: Map<Seq<char>, Value>) -> bool {
    &&& h2.lists@ == h1.lists@
    &&& h2.frozen@ == h1.frozen@
    &&& h2.dicts@.len() == h1.dicts@.len() + 1
    &&& h2.dicts@.subrange(0, h1.dicts@.len() as int) == h1.dicts@
    &&& crate::value::entries_map(h2.dicts@.last()@) == m
}

/// One instruction of `code` completes normally and takes `s1` to `s2`
/// (§4.G: handlers that do not take control of the program counter advance
/// it by one).
pub open spec fn instr_ok_step(code: Seq<Instr>, funcs: FuncTable, s1: MachineV, s2: MachineV) -> bool {
    &&& s1.pc < code.len()
    &&& {
        let s = s1.stack;
        let h = s1.heap;
        let pcn = (s1.pc + 1) as usize;
        match code[s1.pc as int] {
            Instr::PushInt(v) => frames_unchanged(s1, s2) && s2.heap == h && s2.stack == s.push(
                Value::Int(v),
            ) && s2.pc == pcn,
            Instr::PushStr(sv) => frames_unchanged(s1, s2) && s2.heap == h && s2.stack == s.push(
                Value::Str(sv),
            ) && s2.pc == pcn,
            Instr::PushBool(b) => frames_unchanged(s1, s2) && s2.heap == h && s2.stack == s.push(
                Value::Bool(b),
            ) && s2.pc == pcn,
            Instr::PushNone => frames_unchanged(s1, s2) && s2.heap == h && s2.stack == s.push(
                Value::Null,
            ) && s2.pc == pcn,
            Instr::BuildList(n) => {
                &&& frames_unchanged(s1, s2)
                &&& n <= s.len()
                &&& heap_after_new_list(h, s2.heap, s.skip(s.len() - n as int))
                &&& s2.stack == popped(s, n as int).push(Value::List(h.lists@.len() as usize))
                &&& s2.pc == pcn
            },
            Instr::BuildDict(n) => {
                &&& frames_unchanged(s1, s2)
                &&& 2 * n <= s.len()
                &&& heap_after_new_dict(
                    h,
                    s2.heap,
                    crate::vm::ops_struct::dict_pairs_map(s, h, n as int),
                )
                &&& s2.stack == popped(s, 2 * n as int).push(
                    Value::Dict(h.dicts@.len() as usize),
                )
                &&& s2.pc == pcn
            },
            Instr::Load(nm) => {
                &&& frames_unchanged(s1, s2)
                &&& s2.heap == h
                &&& s2.pc == pcn
                &&& if s1.env@.contains_key(nm@) {
                    s2.stack == s.push(s1.env@[nm@])
                } else {
                    s1.globals@.contains_key(nm@) && s2.stack == s.push(s1.globals@[nm@])
                }
            },
            Instr::Store(nm) => {
                &&& s2.heap == h
                &&& s2.env_stack == s1.env_stack
                &&& s2.ret_stack == s1.ret_stack
                &&& s2.block_stack == s1.block_stack
                &&& s2.output == s1.output
                &&& s2.pc == pcn
                &&& if s.len() == 0 {
                    s2.stack == s && s2.env == s1.env && s2.globals == s1.globals
                } else {
                    &&& s2.stack == popped(s, 1)
                    &&& if s1.env_stack.len() == 0 {
                        s2.env == s1.env && s2.globals@ == s1.globals@.insert(nm@, s.last())
                    } else if s1.env@.contains_key(nm@) {
                        s2.globals == s1.globals && s2.env@ == s1.env@.insert(nm@, s.last())
                    } else if s1.globals@.contains_key(nm@) {
                        s2.env == s1.env && s2.globals@ == s1.globals@.insert(nm@, s.last())
                    } else {
                        s2.globals == s1.globals && s2.env@ == s1.env@.insert(nm@, s.last())
                    }
                }
            },
            Instr::Add => frames_unchanged(s1, s2) && s.len() >= 2
                && crate::vm::ops_arith::add_post(s, h, s2.stack, s2.heap) && s2.pc == pcn,
            Instr::Sub => frames_unchanged(s1, s2) && s2.heap == h
                && crate::vm::ops_arith::bin_int_ok(s, h) && s2.stack == popped(s, 2).push(
                Value::Int(
                    crate::vm::ops_arith::bin_a(s, h).wrapping_sub(
                        crate::vm::ops_arith::bin_b(s, h),
                    ),
                ),
            ) && s2.pc == pcn,
            Instr::Mul => frames_unchanged(s1, s2) && s2.heap == h
                && crate::vm::ops_arith::bin_int_ok(s, h) && s2.stack == popped(s, 2).push(
                Value::Int(
                    match crate::vm::ops_arith::bin_a(s, h).checked_mul(
                        crate::vm::ops_arith::bin_b(s, h),
                    ) {
                        Some(p) => p,
                        None => 0,
                    },
                ),
            ) && s2.pc == pcn,
            Instr::Div => frames_unchanged(s1, s2) && s2.heap == h
                && crate::vm::ops_arith::bin_int_ok(s, h) && crate::vm::ops_arith::bin_b(s, h)
                != 0 && s2.stack == popped(s, 2).push(
                Value::Int(
                    crate::vm::ops_arith::div_vm(
                        crate::vm::ops_arith::bin_a(s, h),
                        crate::vm::ops_arith::bin_b(s, h),
                    ),
                ),
            ) && s2.pc == pcn,
            Instr::Mod => frames_unchanged(s1, s2) && s2.heap == h
                && crate::vm::ops_arith::bin_int_ok(s, h) && crate::vm::ops_arith::bin_b(s, h)
                != 0 && s2.stack == popped(s, 2).push(
                Value::Int(
                    crate::vm::ops_arith::mod_vm(
                        crate::vm::ops_arith::bin_a(s, h),
                        crate::vm::ops_arith::bin_b(s, h),
                    ),
                ),
            ) && s2.pc == pcn,
            Instr::Eq => frames_unchanged(s1, s2) && s2.heap == h && s.len() >= 2 && s2.stack
                == popped(s, 2).push(
                Value::Bool(
                    crate::render::str_of(crate::vm::ops_arith::opnd_a(s), h)
                        == crate::render::str_of(crate::vm::ops_arith::opnd_b(s), h),
                ),
            ) && s2.pc == pcn,
            Instr::Ne => frames_unchanged(s1, s2) && s2.heap == h && s.len() >= 2 && s2.stack
                == popped(s, 2).push(
                Value::Bool(
                    crate::render::str_of(crate::vm::ops_arith::opnd_a(s), h)
                        != crate::render::str_of(crate::vm::ops_arith::opnd_b(s), h),
                ),
            ) && s2.pc == pcn,
            Instr::Lt => frames_unchanged(s1, s2) && s2.heap == h
                && crate::vm::ops_arith::cmp_ok(s, h) && s2.stack == popped(s, 2).push(
                Value::Bool(
                    if crate::vm::ops_arith::cmp_strings(s) {
                        crate::text::seq_lt(
                            crate::vm::ops_arith::cmp_str_a(s),
                            crate::vm::ops_arith::cmp_str_b(s),
                        )
                    } else {
                        crate::vm::ops_arith::bin_a(s, h) < crate::vm::ops_arith::bin_b(s, h)
                    },
                ),
            ) && s2.pc == pcn,
            Instr::Le => frames_unchanged(s1, s2) && s2.heap == h
                && crate::vm::ops_arith::cmp_ok(s, h) && s2.stack == popped(s, 2).push(
                Value::Bool(
                    if crate::vm::ops_arith::cmp_strings(s) {
                        crate::text::seq_le(
                            crate::vm::ops_arith::cmp_str_a(s),
                            crate::vm::ops_arith::cmp_str_b(s),
                        )
                    } else {
                        crate::vm::ops_arith::bin_a(s, h) <= crate::vm::ops_arith::bin_b(s, h)
                    },
                ),
            ) && s2.pc == pcn,
            Instr::Gt => frames_unchanged(s1, s2) && s2.heap == h
                && crate::vm::ops_arith::cmp_ok(s, h) && s2.stack == popped(s, 2).push(
                Value::Bool(
                    if crate::vm::ops_arith::cmp_strings(s) {
                        crate::text::seq_lt(
                            crate::vm::ops_arith::cmp_str_b(s),
                            crate::vm::ops_arith::cmp_str_a(s),
                        )
                    } else {
                        crate::vm::ops_arith::bin_a(s, h) > crate::vm::ops_arith::bin_b(s, h)
                    },
                ),
            ) && s2.pc == pcn,
            Instr::Ge => frames_unchanged(s1, s2) && s2.heap == h
                && crate::vm::ops_arith::cmp_ok(s, h) && s2.stack == popped(s, 2).push(
                Value::Bool(
                    if crate::vm::ops_arith::cmp_strings(s) {
                        crate::text::seq_le(
                            crate::vm::ops_arith::cmp_str_b(s),
                            crate::vm::ops_arith::cmp_str_a(s),
                        )
                    } else {
                        crate::vm::ops_arith::bin_a(s, h) >= crate::vm::ops_arith::bin_b(s, h)
                    },
                ),
            ) && s2.pc == pcn,
            Instr::BAnd => frames_unchanged(s1, s2) && s2.heap == h
                && crate::vm::ops_arith::bin_int_ok(s, h) && s2.stack == popped(s, 2).push(
                Value::Int(crate::vm::ops_arith::bin_a(s, h) & crate::vm::ops_arith::bin_b(s, h)),
            ) && s2.pc == pcn,
            Instr::BOr => frames_unchanged(s1, s2) && s2.heap == h
                && crate::vm::ops_arith::bin_int_ok(s, h) && s2.stack == popped(s, 2).push(
                Value::Int(crate::vm::ops_arith::bin_a(s, h) | crate::vm::ops_arith::bin_b(s, h)),
            ) && s2.pc == pcn,
            Instr::BXor => frames_unchanged(s1, s2) && s2.heap == h
                && crate::vm::ops_arith::bin_int_ok(s, h) && s2.stack == popped(s, 2).push(
                Value::Int(crate::vm::ops_arith::bin_a(s, h) ^ crate::vm::ops_arith::bin_b(s, h)),
            ) && s2.pc == pcn,
            Instr::Shl => frames_unchanged(s1, s2) && s2.heap == h
                && crate::vm::ops_arith::bin_int_ok(s, h) && s2.stack == popped(s, 2).push(
                Value::Int(
                    crate::vm::ops_arith::shl_vm(
                        crate::vm::ops_arith::bin_a(s, h),
                        crate::vm::ops_arith::bin_b(s, h),
                    ),
                ),
            ) && s2.pc == pcn,
            Instr::Shr => frames_unchanged(s1, s2) && s2.heap == h
                && crate::vm::ops_arith::bin_int_ok(s, h) && s2.stack == popped(s, 2).push(
                Value::Int(
                    crate::vm::ops_arith::shr_vm(
                        crate::vm::ops_arith::bin_a(s, h),
                        crate::vm::ops_arith::bin_b(s, h),
                    ),
                ),
            ) && s2.pc == pcn,
            Instr::And => frames_unchanged(s1, s2) && s2.heap == h && s.len() >= 2 && s2.stack
                == popped(s, 2).push(
                Value::Bool(
                    crate::value::as_bool_spec(crate::vm::ops_arith::opnd_a(s), h)
                        && crate::value::as_bool_spec(crate::vm::ops_arith::opnd_b(s), h),
                ),
            ) && s2.pc == pcn,
            Instr::Or => frames_unchanged(s1, s2) && s2.heap == h && s.len() >= 2 && s2.stack
                == popped(s, 2).push(
                Value::Bool(
                    crate::value::as_bool_spec(crate::vm::ops_arith::opnd_a(s), h)
                        || crate::value::as_bool_spec(crate::vm::ops_arith::opnd_b(s), h),
                ),
            ) && s2.pc == pcn,
            Instr::Not => frames_unchanged(s1, s2) && s2.heap == h && s.len() >= 1
                && crate::value::as_int_spec(crate::vm::ops_arith::opnd_b(s), h) is Some
                && s2.stack == popped(s, 1).push(
                Value::Int(crate::vm::ops_arith::not_vm(crate::vm::ops_arith::bin_b(s, h))),
            ) && s2.pc == pcn,
            Instr::Neg => frames_unchanged(s1, s2) && s2.heap == h && s.len() >= 1
                && crate::value::as_int_spec(crate::vm::ops_arith::opnd_b(s), h) is Some
                && s2.stack == popped(s, 1).push(
                Value::Int(crate::vm::ops_arith::neg_vm(crate::vm::ops_arith::bin_b(s, h))),
            ) && s2.pc == pcn,
            Instr::Index => frames_unchanged(s1, s2) && s2.heap == h && s.len() >= 2
                && crate::vm::ops_struct::index_ok_post(s, h, s2.stack) && s2.pc == pcn,
            Instr::Slice => frames_unchanged(s1, s2) && crate::vm::ops_struct::slice_ok_post(
                s,
                h,
                s2.stack,
                s2.heap,
            ) && s2.pc == pcn,
            Instr::StoreIndex => frames_unchanged(s1, s2) && s.len() >= 3 && s2.stack == popped(
                s,
                3,
            ) && crate::vm::ops_struct::store_index_ok_post(s, h, s2.heap) && s2.pc == pcn,
            Instr::Attr(at) => frames_unchanged(s1, s2) && s2.heap == h && s.len() >= 1
                && crate::vm::ops_struct::attr_ok_post(s, h, at@, s2.stack) && s2.pc == pcn,
            Instr::StoreAttr(at) => frames_unchanged(s1, s2) && s.len() >= 2 && s2.stack
                == popped(s, 2) && crate::vm::ops_struct::store_attr_ok_post(s, h, at@, s2.heap)
                && s2.pc == pcn,
            Instr::Assert => frames_unchanged(s1, s2) && s2.heap == h && s.len() >= 1
                && crate::value::as_bool_spec(s.last(), h) && s2.stack == popped(s, 1) && s2.pc
                == pcn,
            Instr::Jump(t) => frames_unchanged(s1, s2) && s2.heap == h && s2.stack == s && s2.pc
                == t,
            Instr::JumpIfFalse(t) => frames_unchanged(s1, s2) && s2.heap == h && s.len() >= 1
                && s2.stack == popped(s, 1) && s2.pc == (
            if crate::value::as_bool_spec(s.last(), h) {
                pcn
            } else {
                t
            }),
            Instr::Call(nm) => {
                &&& funcs@.contains_key(nm@)
                &&& s.len() >= funcs@[nm@].params@.len()
                &&& s2.stack == popped(s, funcs@[nm@].params@.len() as int)
                &&& s2.env@ == bind_params_map(
                    funcs@[nm@].params@,
                    s,
                    funcs@[nm@].params@.len() as int,
                )
                &&& s2.env_stack == s1.env_stack.push(s1.env)
                &&& s2.ret_stack == s1.ret_stack.push(pcn)
                &&& s2.pc == funcs@[nm@].address
                &&& s2.heap == h
                &&& s2.globals == s1.globals
                &&& s2.block_stack == s1.block_stack
                &&& s2.output == s1.output
            },
            Instr::TailCall(nm) => {
                &&& funcs@.contains_key(nm@)
                &&& s.len() >= funcs@[nm@].params@.len()
                &&& s2.stack == popped(s, funcs@[nm@].params@.len() as int)
                &&& s2.env@ == bind_params_map(
                    funcs@[nm@].params@,
                    s,
                    funcs@[nm@].params@.len() as int,
                )
                &&& s2.env_stack == s1.env_stack
                &&& s2.ret_stack == s1.ret_stack
                &&& s2.pc == funcs@[nm@].address
                &&& s2.heap == h
                &&& s2.globals == s1.globals
                &&& s2.block_stack == s1.block_stack
                &&& s2.output == s1.output
            },
            Instr::CallValue(argc) => {
                &&& s.len() >= argc + 1
                &&& crate::vm::ops_control::call_value_callee(s, argc as int) matches Value::Str(
                    n2,
                )
                &&& funcs@.contains_key(n2@)
                &&& funcs@[n2@].params@.len() <= argc
                &&& s2.stack == popped(s, argc + 1)
                &&& s2.env@ == bind_params_map(
                    funcs@[n2@].params@,
                    s,
                    funcs@[n2@].params@.len() as int,
                )
                &&& s2.env_stack == s1.env_stack.push(s1.env)
                &&& s2.ret_stack == s1.ret_stack.push(pcn)
                &&& s2.pc == funcs@[n2@].address
                &&& s2.heap == h
                &&& s2.globals == s1.globals
                &&& s2.block_stack == s1.block_stack
                &&& s2.output == s1.output
            },
            Instr::CallBuiltin(nm, argc) => {
                &&& frames_unchanged(s1, s2)
                &&& s.len() >= argc
                &&& s2.stack.len() == s.len() - argc + 1
                &&& s2.stack.drop_last() == popped(s, argc as int)
                &&& crate::vm::builtins::builtin_post(
                    nm@,
                    s.skip(s.len() - argc as int),
                    h,
                    s2.heap,
                    s1.env@,
                    s1.globals@,
                    Ok(s2.stack.last()),
                )
                &&& s2.pc == pcn
            },
            Instr::Pop => frames_unchanged(s1, s2) && s2.heap == h && s2.pc == pcn && (if s.len()
                >= 1 {
                s2.stack == popped(s, 1)
            } else {
                s2.stack == s
            }),
            Instr::Ret => {
                &&& s1.ret_stack.len() >= 1
                &&& s1.env_stack.len() >= 1
                &&& s2.stack == crate::vm::ops_control::ret_result_stack(s)
                &&& s2.pc == s1.ret_stack.last()
                &&& s2.env == s1.env_stack.last()
                &&& s2.env_stack == s1.env_stack.drop_last()
                &&& s2.ret_stack == s1.ret_stack.drop_last()
                &&& s2.heap == h
                &&& s2.globals == s1.globals
                &&& s2.block_stack == s1.block_stack
                &&& s2.output == s1.output
            },
            Instr::Emit => {
                &&& s2.heap == h
                &&& s2.globals == s1.globals
                &&& s2.env == s1.env
                &&& s2.env_stack == s1.env_stack
                &&& s2.ret_stack == s1.ret_stack
                &&& s2.block_stack == s1.block_stack
                &&& s2.pc == pcn
                &&& if s.len() >= 1 {
                    s2.stack == popped(s, 1) && s2.output == s1.output.push(
                        crate::render::str_of(s.last(), h),
                    )
                } else {
                    s2.stack == s && s2.output == s1.output
                }
            },
            Instr::Halt => frames_unchanged(s1, s2) && s2.heap == h && s2.stack == s && s2.pc
                == code.len(),
            Instr::SetupExcept(t) => {
                &&& s2.heap == h
                &&& s2.stack == s
                &&& s2.globals == s1.globals
                &&& s2.env == s1.env
                &&& s2.env_stack == s1.env_stack
                &&& s2.ret_stack == s1.ret_stack
                &&& s2.output == s1.output
                &&& s2.pc == pcn
                &&& s2.block_stack == s1.block_stack.push(
                    Block {
                        handler: t,
                        stack_size: s.len() as usize,
                        env_depth: s1.env_stack.len() as usize,
                        ret_depth: s1.ret_stack.len() as usize,
                    },
                )
            },
            Instr::PopBlock => {
                &&& s2.heap == h
                &&& s2.stack == s
                &&& s2.globals == s1.globals
                &&& s2.env == s1.env
                &&& s2.env_stack == s1.env_stack
                &&& s2.ret_stack == s1.ret_stack
                &&& s2.output == s1.output
                &&& s2.pc == pcn
                &&& if s1.block_stack.len() >= 1 {
                    s2.block_stack == s1.block_stack.drop_last()
                } else {
                    s2.block_stack == s1.block_stack
                }
            },
            Instr::Raise(_) => false,
        }
    }
}

/// Instruction `code[s1.pc]` faults with `e`, leaving the operand stack as
/// `sf` and the heap as `hf` (the heap never changes on a fault; `hf` makes
/// that explicit case by case through the handlers' own error conditions).
pub open spec fn instr_err(
    code: Seq<Instr>,
    funcs: FuncTable,
    s1: MachineV,
    e: RuntimeError,
    sf: Seq<Value>,
    hf: Heap,
) -> bool {
    &&& s1.pc < code.len()
    &&& {
        let s = s1.stack;
        let h = s1.heap;
        match code[s1.pc as int] {
            Instr::Load(nm) => !s1.env@.contains_key(nm@) && !s1.globals@.contains_key(nm@) && (
            e matches RuntimeError::UndefinedIdentError(m) && m@ == nm@) && sf == s && hf == h,
            Instr::BuildList(n) => n > s.len() && is_underflow(e) && sf == Seq::<Value>::empty()
                && hf == h,
            Instr::BuildDict(n) => 2 * n > s.len() && is_underflow(e) && sf == Seq::<
                Value,
            >::empty() && hf == h,
            Instr::Add => crate::vm::ops_arith::add_err(s, h, e, sf) && hf == h,
            Instr::Sub => crate::vm::ops_arith::bin_int_err(s, h, e, sf) && hf == h,
            Instr::Mul => crate::vm::ops_arith::bin_int_err(s, h, e, sf) && hf == h,
            Instr::Div => crate::vm::ops_arith::div_err(s, h, e, sf) && hf == h,
            Instr::Mod => crate::vm::ops_arith::div_err(s, h, e, sf) && hf == h,
            Instr::Eq => crate::vm::ops_arith::pop2_err(s, e, sf) && hf == h,
            Instr::Ne => crate::vm::ops_arith::pop2_err(s, e, sf) && hf == h,
            Instr::Lt => crate::vm::ops_arith::cmp_err(s, h, e, sf) && hf == h,
            Instr::Le => crate::vm::ops_arith::cmp_err(s, h, e, sf) && hf == h,
            Instr::Gt => crate::vm::ops_arith::cmp_err(s, h, e, sf) && hf == h,
            Instr::Ge => crate::vm::ops_arith::cmp_err(s, h, e, sf) && hf == h,
            Instr::BAnd => crate::vm::ops_arith::bin_int_err(s, h, e, sf) && hf == h,
            Instr::BOr => crate::vm::ops_arith::bin_int_err(s, h, e, sf) && hf == h,
            Instr::BXor => crate::vm::ops_arith::bin_int_err(s, h, e, sf) && hf == h,
            Instr::Shl => crate::vm::ops_arith::bin_int_err(s, h, e, sf) && hf == h,
            Instr::Shr => crate::vm::ops_arith::bin_int_err(s, h, e, sf) && hf == h,
            Instr::And => crate::vm::ops_arith::pop2_err(s, e, sf) && hf == h,
            Instr::Or => crate::vm::ops_arith::pop2_err(s, e, sf) && hf == h,
            Instr::Not => crate::vm::ops_arith::un_int_err(s, h, e, sf) && hf == h,
            Instr::Neg => crate::vm::ops_arith::un_int_err(s, h, e, sf) && hf == h,
            Instr::Index => crate::vm::ops_struct::index_err(s, h, e, sf) && hf == h,
            Instr::Slice => crate::vm::ops_struct::slice_err(s, h, e, sf) && hf == h,
            Instr::StoreIndex => crate::vm::ops_struct::store_index_err(s, h, e, sf) && hf == h,
            Instr::Attr(at) => crate::vm::ops_struct::attr_err(s, h, at@, e, sf) && hf == h,
            Instr::StoreAttr(_) => crate::vm::ops_struct::store_attr_err(s, e, sf) && hf == h,
            Instr::Assert => {
                &&& hf == h
                &&& {
                    ||| (s.len() == 0 && is_underflow(e) && sf == s)
                    ||| (s.len() >= 1 && !crate::value::as_bool_spec(s.last(), h) && e
                        == RuntimeError::AssertionError && sf == popped(s, 1))
                }
            },
            Instr::JumpIfFalse(_) => s.len() == 0 && is_underflow(e) && sf == s && hf == h,
            Instr::Call(nm) => {
                &&& hf == h
                &&& {
                    ||| (!funcs@.contains_key(nm@) && sf == s && (e matches
                        RuntimeError::UndefinedIdentError(m) && m@ == nm@))
                    ||| (funcs@.contains_key(nm@) && s.len() < funcs@[nm@].params@.len()
                        && is_underflow(e) && sf == Seq::<Value>::empty())
                }
            },
            Instr::TailCall(nm) => {
                &&& hf == h
                &&& {
                    ||| (!funcs@.contains_key(nm@) && sf == s && (e matches
                        RuntimeError::UndefinedIdentError(m) && m@ == nm@))
                    ||| (funcs@.contains_key(nm@) && s.len() < funcs@[nm@].params@.len()
                        && is_underflow(e) && sf == Seq::<Value>::empty())
                }
            },
            Instr::CallValue(argc) => crate::vm::ops_control::call_value_err(
                s,
                argc as int,
                funcs,
                e,
                sf,
            ) && hf == h,
            Instr::CallBuiltin(nm, argc) => {
                ||| (s.len() < argc && is_underflow(e) && sf == Seq::<Value>::empty() && hf == h)
                ||| (s.len() >= argc && sf == popped(s, argc as int)
                    && crate::vm::builtins::builtin_post(
                    nm@,
                    s.skip(s.len() - argc as int),
                    h,
                    hf,
                    s1.env@,
                    s1.globals@,
                    Err(e),
                ))
            },
            Instr::Ret => s1.ret_stack.len() == 0 && (e matches RuntimeError::VmInvariant(m)
                && m@ == "return stack underflow"@) && sf == s && hf == h,
            Instr::Raise(k) => {
                &&& hf == h
                &&& {
                    ||| (s.len() == 0 && sf == s && (e matches RuntimeError::VmInvariant(m) && m@
                        == "stack underflow on RAISE"@))
                    ||| (s.len() >= 1 && sf == popped(s, 1) && crate::error::kind_matches_runtime(
                        k,
                        crate::render::str_of(s.last(), h),
                        e,
                    ))
                }
            },
            _ => false,
        }
    }
}

/// The stack truncated to `k` values, as `Vec::truncate` leaves it.
pub open spec fn trunc(s: Seq<Value>, k: nat) -> Seq<Value> {
    if k <= s.len() {
        s.take(k as int)
    } else {
        s
    }
}

/// The §4.E unwind rule: pop the newest block; pop saved frames (and their
/// return addresses) down to the block's captured depth, the deepest popped
/// frame becoming current; truncate the return stack and the faulted
/// operand stack to the captured depths; push the error's rendered form for
/// the handler; jump to the handler without advancing.
pub open spec fn unwind_step(
    s1: MachineV,
    sf: Seq<Value>,
    hf: Heap,
    e: RuntimeError,
    s2: MachineV,
) -> bool {
    let b = s1.block_stack.last();
    &&& s1.block_stack.len() >= 1
    &&& s2.block_stack == s1.block_stack.drop_last()
    &&& if s1.env_stack.len() > b.env_depth {
        s2.env == s1.env_stack[b.env_depth as int] && s2.env_stack == s1.env_stack.take(
            b.env_depth as int,
        )
    } else {
        s2.env == s1.env && s2.env_stack == s1.env_stack
    }
    &&& s2.ret_stack == (if s1.ret_stack.len() > b.ret_depth {
        s1.ret_stack.take(b.ret_depth as int)
    } else {
        s1.ret_stack
    })
    &&& (exists|ev: Value|
        (#[trigger] s2.stack.last()) == ev && (ev matches Value::Str(m) && m@
            == crate::error::error_display(e)) && s2.stack == trunc(sf, b.stack_size as nat).push(
            ev,
        ))
    &&& s2.heap == hf
    &&& s2.globals == s1.globals
    &&& s2.pc == b.handler
    &&& s2.output == s1.output
}

/// One fetch–dispatch iteration of the driver: the instruction at `s1.pc`
/// either completes, or faults under a handler block and unwinds to it.
pub open spec fn machine_step(code: Seq<Instr>, funcs: FuncTable, s1: MachineV, s2: MachineV) -> bool {
    ||| instr_ok_step(code, funcs, s1, s2)
    ||| (exists|e: RuntimeError, sf: Seq<Value>, hf: Heap|
        #[trigger] instr_err(code, funcs, s1, e, sf, hf) && s1.block_stack.len() >= 1
            && unwind_step(s1, sf, hf, e, s2))
}

/// `s` faults on its current instruction with `e` and no block catches it:
/// the run ends with `Err(e)` (§4.E).
pub open spec fn machine_faults(code: Seq<Instr>, funcs: FuncTable, s: MachineV, e: RuntimeError) -> bool {
    &&& s.block_stack.len() == 0
    &&& exists|sf: Seq<Value>, hf: Heap| instr_err(code, funcs, s, e, sf, hf)
}

/// The run has nothing left to do.
pub open spec fn machine_halted(code: Seq<Instr>, s: MachineV) -> bool {
    s.pc >= code.len()
}

/// `tr` is an execution of `code`: it starts in the seeded initial state
/// and every consecutive pair is one machine step.
pub open spec fn machine_trace(
    code: Seq<Instr>,
    funcs: FuncTable,
    args: Seq<String>,
    tr: Seq<MachineV>,
) -> bool {
    &&& tr.len() >= 1
    &&& machine_init_rel(args, tr.first())
    &&& forall|i: int|
        0 <= i < tr.len() - 1 ==> machine_step(code, funcs, tr[i], #[trigger] tr[i + 1])
}

/// Execute a bytecode stream to completion.
///
/// The contract states the whole run against the machine's small-step
/// semantics: there is an execution trace from the seeded initial state
/// ([`machine_init_rel`]: the globals `args`, `module_file`, `current_dir`,
/// and everything else empty) whose steps are [`machine_step`] — each
/// instruction's exact effect, or the §4.E unwind to a handler block — such
/// that `Ok(())` means the trace ran off the end of the code and `Err(e)`
/// means its last state faults with `e` under no handler block; either way
/// the host's output grew by exactly the trace's emitted lines. (The one
/// further outcome is the cut-off of a run beyond `u64::MAX` instructions —
/// its witness trace is longer than the budget, so it arises only for
/// executions no real program reaches — reported as the named
/// machine-invariant violation.)
///
/// The loop also maintains the machine's structural invariants: every
/// handle on the operand stack and in every environment points into the
/// heap, the heap's aggregates are well formed, and the return stack and
/// the frame stack always have the same length.
pub fn run<H: HostIo>(
    code: &Vec<Instr>,
    funcs: &FuncTable,
    program_args: &Vec<String>,
    host: &mut H,
) -> (r: Result<(), RuntimeError>)
    requires
        funcs.wf(),
    ensures
        exists|tr: Seq<MachineV>|
            {
                &&& #[trigger] machine_trace(code@, *funcs, program_args@, tr)
                &&& final(host).log() == old(host).log() + tr.last().output
                &&& match r {
                    Ok(()) => machine_halted(code@, tr.last()),
                    Err(e) => machine_faults(code@, *funcs, tr.last(), e) || ((e matches
                        RuntimeError::VmInvariant(m) && m@ == "instruction budget exhausted"@)
                        && tr.len() > u64::MAX),
                }
            },
{
    let ghost log0 = host.log();
    let mut stack: Vec<Value> = Vec::new();
    let mut heap = Heap::new();
    let mut globals = EnvMap::new();

    // Expose the program arguments as the global list `args`.
    let mut arg_values: Vec<Value> = Vec::new();
    let mut ai: usize = 0;
    while ai < program_args.len()
        invariant
            heap_wf(heap),
            heap.lists@.len() == 0,
            heap.dicts@.len() == 0,
            heap.frozen@.len() == 0,
            ai <= program_args@.len(),
            arg_values@.len() == ai,
            forall|j: int|
                0 <= j < ai ==> ((#[trigger] arg_values@[j]) matches Value::Str(x) && x@
                    == program_args@[j]@),
        decreases program_args@.len() - ai,
    {
        arg_values.push(Value::Str(program_args[ai].clone()));
        ai = ai + 1;
    }
    proof {
        assert(values_wf(arg_values@, heap));
    }
    let argsh = heap.new_list(arg_values);
    globals.set(String::from_str("args"), Value::List(argsh));

    // Seed `module_file` and `current_dir` from the first argument.
    if program_args.len() > 0 {
        let mf = crate::vm::builtins::norm_slashes_exec(program_args[0].as_str());
        let parent = crate::vm::builtins::parent_dir(mf.as_str());
        globals.set(String::from_str("module_file"), Value::Str(mf));
        globals.set(String::from_str("current_dir"), Value::Str(parent));
    } else {
        globals.set(String::from_str("module_file"), Value::Str(String::from_str("<stdin>")));
        globals.set(String::from_str("current_dir"), Value::Str(String::from_str(".")));
    }

    let mut env = EnvMap::new();
    let mut env_stack: Vec<EnvMap> = Vec::new();
    let mut ret_stack: Vec<usize> = Vec::new();
    let mut pc: usize = 0;
    let mut block_stack: Vec<Block> = Vec::new();
    let mut budget: u64 = u64::MAX;

    let ghost s_init = MachineV {
        stack: stack@,
        heap: heap,
        globals: globals,
        env: env,
        env_stack: env_stack@,
        ret_stack: ret_stack@,
        block_stack: block_stack@,
        pc: pc,
        output: Seq::empty(),
    };
    proof {
        // The three seeded names are distinct, so each lookup below finds
        // its own binding.
        reveal_strlit("args");
        reveal_strlit("module_file");
        reveal_strlit("current_dir");
        assert(s_init.stack =~= Seq::<Value>::empty());
        assert(s_init.env_stack =~= Seq::<EnvMap>::empty());
        assert(s_init.ret_stack =~= Seq::<usize>::empty());
        assert(s_init.block_stack =~= Seq::<Block>::empty());
        assert(s_init.globals@.dom() =~= set!["args"@, "module_file"@, "current_dir"@]);
        assert(s_init.heap.lists@[0]@.len() == program_args@.len());
        assert forall|i: int| 0 <= i < program_args@.len() implies ((
        #[trigger] s_init.heap.lists@[0]@[i]) matches Value::Str(x) && x@
            == program_args@[i]@) by {
            assert(s_init.heap.lists@[0]@[i] == arg_values@[i]);
        }
        assert(s_init.env@ =~= Map::<Seq<char>, Value>::empty());
        assert(argsh == 0);
        assert("args"@.len() == 4);
        assert("module_file"@.len() == 11);
        assert("current_dir"@.len() == 11);
        assert("module_file"@[0] == 'm');
        assert("current_dir"@[0] == 'c');
        assert("args"@ != "module_file"@ && "args"@ != "current_dir"@ && "module_file"@
            != "current_dir"@);
        assert(s_init.globals@["args"@] == Value::List(argsh));
        assert(s_init.globals@["args"@] == Value::List(0usize));
        assert(s_init.globals@["module_file"@] matches Value::Str(mf) && mf@ == (
        if program_args@.len() > 0 {
            crate::vm::builtins::norm_slashes(program_args@[0]@)
        } else {
            "<stdin>"@
        }));
        assert(s_init.globals@["current_dir"@] matches Value::Str(cd) && cd@ == (
        if program_args@.len() > 0 {
            crate::vm::builtins::parent_dir_spec(
                crate::vm::builtins::norm_slashes(program_args@[0]@),
            )
        } else {
            "."@
        }));
        assert(machine_init_rel(program_args@, s_init));
    }
    let ghost mut tr: Seq<MachineV> = seq![s_init];
    proof {
        assert(tr.first() == s_init);
        assert(machine_trace(code@, *funcs, program_args@, tr));
        assert(host.log() =~= log0 + s_init.output);
    }

    let n = code.len();
    while pc < n
        invariant
            n == code@.len(),
            funcs.wf(),
            heap_wf(heap),
            values_wf(stack@, heap),
            env.wf(heap),
            globals.wf(heap),
            frames_wf(env_stack@, heap),
            ret_stack@.len() == env_stack@.len(),
            blocks_wf(block_stack@),
            machine_trace(code@, *funcs, program_args@, tr),
            tr.len() >= 1,
            tr.last().stack == stack@,
            tr.last().heap == heap,
            tr.last().globals == globals,
            tr.last().env == env,
            tr.last().env_stack == env_stack@,
            tr.last().ret_stack == ret_stack@,
            tr.last().block_stack == block_stack@,
            tr.last().pc == pc,
            host.log() == log0 + tr.last().output,
            log0 == old(host).log(),
            budget + tr.len() == u64::MAX + 1,
        decreases budget,
    {
        if budget == 0 {
            // Unreachable for any real program: the trace behind this
            // verdict is longer than the budget itself.
            proof {
                assert(machine_trace(code@, *funcs, program_args@, tr));
                assert(tr.len() > u64::MAX);
            }
            return Err(RuntimeError::VmInvariant(String::from_str("instruction budget exhausted")));
        }
        budget = budget - 1;
        let ghost s_prev = tr.last();
        let ghost h_it = heap;
        let mut advance_pc = true;
        let instr_res: Result<(), RuntimeError> = match &code[pc] {
            Instr::PushInt(v) => {
                stack.push(Value::Int(*v));
                Ok(())
            },
            Instr::PushStr(sv) => {
                stack.push(Value::Str(sv.clone()));
                Ok(())
            },
            Instr::PushBool(b) => {
                stack.push(Value::Bool(*b));
                Ok(())
            },
            Instr::PushNone => {
                stack.push(Value::Null);
                Ok(())
            },
            Instr::BuildList(bn) => {
                let rr = ops_struct::handle_build_list(*bn, &mut stack, &mut heap);
                proof {
                    lemma_state_wf_extends(env, globals, env_stack@, h_it, heap);
                }
                rr
            },
            Instr::BuildDict(bn) => {
                let rr = ops_struct::handle_build_dict(*bn, &mut stack, &mut heap);
                proof {
                    lemma_state_wf_extends(env, globals, env_stack@, h_it, heap);
                }
                rr
            },
            Instr::Load(nm) => {
                match env.get(nm.as_str()) {
                    Some(v) => {
                        proof {
                            crate::value::lemma_entries_map_value_wf(env.entries@, heap, nm@);
                        }
                        stack.push(v);
                        Ok(())
                    },
                    None => match globals.get(nm.as_str()) {
                        Some(v) => {
                            proof {
                                crate::value::lemma_entries_map_value_wf(
                                    globals.entries@,
                                    heap,
                                    nm@,
                                );
                            }
                            stack.push(v);
                            Ok(())
                        },
                        None => Err(RuntimeError::UndefinedIdentError(nm.clone())),
                    },
                }
            },
            Instr::Store(nm) => {
                match stack.pop() {
                    Some(v) => {
                        proof {
                            assert(value_wf(v, heap));
                        }
                        if env_stack.len() == 0 {
                            globals.set(nm.clone(), v);
                        } else if env.contains(nm.as_str()) {
                            env.set(nm.clone(), v);
                        } else if globals.contains(nm.as_str()) {
                            globals.set(nm.clone(), v);
                        } else {
                            env.set(nm.clone(), v);
                        }
                    },
                    None => {},
                }
                Ok(())
            },
            Instr::Add => {
                let rr = ops_arith::handle_add(&mut stack, &mut heap);
                proof {
                    lemma_state_wf_extends(env, globals, env_stack@, h_it, heap);
                }
                rr
            },
            Instr::Sub => ops_arith::handle_sub(&mut stack, &heap),
            Instr::Mul => ops_arith::handle_mul(&mut stack, &heap),
            Instr::Div => ops_arith::handle_div(&mut stack, &heap),
            Instr::Mod => ops_arith::handle_mod(&mut stack, &heap),
            Instr::Eq => ops_arith::handle_eq(&mut stack, &heap),
            Instr::Ne => ops_arith::handle_ne(&mut stack, &heap),
            Instr::Lt => ops_arith::handle_lt(&mut stack, &heap),
            Instr::Le => ops_arith::handle_le(&mut stack, &heap),
            Instr::Gt => ops_arith::handle_gt(&mut stack, &heap),
            Instr::Ge => ops_arith::handle_ge(&mut stack, &heap),
            Instr::BAnd => ops_arith::handle_band(&mut stack, &heap),
            Instr::BOr => ops_arith::handle_bor(&mut stack, &heap),
            Instr::BXor => ops_arith::handle_bxor(&mut stack, &heap),
            Instr::Shl => ops_arith::handle_shl(&mut stack, &heap),
            Instr::Shr => ops_arith::handle_shr(&mut stack, &heap),
            Instr::And => ops_arith::handle_and(&mut stack, &heap),
            Instr::Or => ops_arith::handle_or(&mut stack, &heap),
            Instr::Not => ops_arith::handle_not(&mut stack, &heap),
            Instr::Neg => ops_arith::handle_neg(&mut stack, &heap),
            Instr::Index => ops_struct::handle_index(&mut stack, &heap),
            Instr::Slice => {
                let rr = ops_struct::handle_slice(&mut stack, &mut heap);
                proof {
                    lemma_state_wf_extends(env, globals, env_stack@, h_it, heap);
                }
                rr
            },
            Instr::StoreIndex => {
                let rr = ops_struct::handle_store_index(&mut stack, &mut heap);
                proof {
                    lemma_state_wf_extends(env, globals, env_stack@, h_it, heap);
                }
                rr
            },
            Instr::Attr(at) => ops_struct::handle_attr(at, &mut stack, &heap),
            Instr::StoreAttr(at) => {
                let rr = ops_struct::handle_store_attr(at, &mut stack, &mut heap);
                proof {
                    lemma_state_wf_extends(env, globals, env_stack@, h_it, heap);
                }
                rr
            },
            Instr::Assert => ops_control::handle_assert(&mut stack, &heap),
            Instr::Jump(t) => {
                ops_control::handle_jump(*t, &mut pc, &mut advance_pc);
                Ok(())
            },
            Instr::JumpIfFalse(t) => ops_control::handle_jump_if_false(
                *t,
                &mut stack,
                &heap,
                &mut pc,
                &mut advance_pc,
            ),
            Instr::Call(nm) => {
                let ghost env0 = env;
                let ghost frames0 = env_stack@;
                let rr = ops_control::handle_call(
                    nm,
                    funcs,
                    &mut stack,
                    &mut env,
                    &mut env_stack,
                    &mut ret_stack,
                    &mut pc,
                    &mut advance_pc,
                );
                proof {
                    if rr is Ok {
                        assert(env.wf(heap));
                        assert forall|i: int| 0 <= i < env_stack@.len() implies (
                        #[trigger] env_stack@[i]).wf(heap) by {
                            if i < frames0.len() {
                                assert(env_stack@[i] == frames0[i]);
                            } else {
                                assert(env_stack@[i] == env0);
                            }
                        }
                    }
                }
                rr
            },
            Instr::TailCall(nm) => {
                let rr = ops_control::handle_tail_call(
                    nm,
                    funcs,
                    &mut stack,
                    &mut env,
                    &mut pc,
                    &mut advance_pc,
                );
                proof {
                    if rr is Ok {
                        assert(env.wf(heap));
                    }
                }
                rr
            },
            Instr::CallValue(ac) => {
                let ghost env0 = env;
                let ghost frames0 = env_stack@;
                let rr = ops_control::handle_call_value(
                    *ac,
                    &mut stack,
                    funcs,
                    &mut env,
                    &mut env_stack,
                    &mut ret_stack,
                    &mut pc,
                    &mut advance_pc,
                );
                proof {
                    if rr is Ok {
                        assert(env.wf(heap));
                        assert forall|i: int| 0 <= i < env_stack@.len() implies (
                        #[trigger] env_stack@[i]).wf(heap) by {
                            if i < frames0.len() {
                                assert(env_stack@[i] == frames0[i]);
                            } else {
                                assert(env_stack@[i] == env0);
                            }
                        }
                    }
                }
                rr
            },
            Instr::CallBuiltin(nm, ac) => {
                let rr = ops_control::handle_call_builtin(
                    nm,
                    *ac,
                    &mut stack,
                    &mut heap,
                    &env,
                    &globals,
                    host,
                );
                proof {
                    lemma_state_wf_extends(env, globals, env_stack@, h_it, heap);
                }
                rr
            },
            Instr::Pop => {
                ops_control::handle_pop(&mut stack);
                Ok(())
            },
            Instr::Ret => {
                let ghost frames0 = env_stack@;
                let rr = ops_control::handle_ret(
                    &mut stack,
                    &mut pc,
                    &mut env,
                    &mut env_stack,
                    &mut ret_stack,
                    &mut advance_pc,
                );
                proof {
                    if rr is Ok {
                        assert(env == frames0.last());
                        assert(frames0[frames0.len() - 1].wf(heap));
                        assert forall|i: int| 0 <= i < env_stack@.len() implies (
                        #[trigger] env_stack@[i]).wf(heap) by {
                            assert(env_stack@[i] == frames0[i]);
                        }
                    }
                }
                rr
            },
            Instr::Emit => {
                ops_control::handle_emit(&mut stack, &heap, host);
                Ok(())
            },
            Instr::Halt => {
                ops_control::handle_halt(n, &mut pc, &mut advance_pc);
                Ok(())
            },
            Instr::SetupExcept(t) => {
                let ghost blocks0 = block_stack@;
                ops_control::handle_setup_except(
                    *t,
                    &stack,
                    &env_stack,
                    &ret_stack,
                    &mut block_stack,
                );
                proof {
                    assert forall|i: int| 0 <= i < block_stack@.len() implies (
                    #[trigger] block_stack@[i]).env_depth == block_stack@[i].ret_depth by {
                        if i < blocks0.len() {
                            assert(block_stack@[i] == blocks0[i]);
                        }
                    }
                }
                Ok(())
            },
            Instr::PopBlock => {
                let ghost blocks0 = block_stack@;
                ops_control::handle_pop_block(&mut block_stack);
                proof {
                    assert forall|i: int| 0 <= i < block_stack@.len() implies (
                    #[trigger] block_stack@[i]).env_depth == block_stack@[i].ret_depth by {
                        assert(block_stack@[i] == blocks0[i]);
                    }
                }
                Ok(())
            },
            Instr::Raise(k) => ops_control::handle_raise(k, &mut stack, &heap),
        };
        if let Err(err) = instr_res {
            let ghost e_sf = stack@;
            let ghost e_hf = heap;
            proof {
                assert(instr_err(code@, *funcs, s_prev, err, e_sf, e_hf));
            }
            // Unwind to the newest handler block, or end the run.
            match block_stack.pop() {
                Some(block) => {
                    let ghost es0 = env_stack@;
                    let ghost rs0 = ret_stack@;
                    let ghost env0 = env;
                    proof {
                        assert(env_stack@ =~= es0.take(env_stack@.len() as int));
                        assert(ret_stack@ =~= rs0.take(ret_stack@.len() as int));
                    }
                    while env_stack.len() > block.env_depth
                        invariant
                            ret_stack@.len() == env_stack@.len(),
                            heap_wf(heap),
                            env.wf(heap),
                            globals.wf(heap),
                            frames_wf(env_stack@, heap),
                            values_wf(stack@, heap),
                            blocks_wf(block_stack@),
                            es0.len() == rs0.len(),
                            env_stack@.len() <= es0.len(),
                            env_stack@.len() >= block.env_depth || env_stack@.len() == es0.len(),
                            env_stack@ == es0.take(env_stack@.len() as int),
                            ret_stack@ == rs0.take(ret_stack@.len() as int),
                            env_stack@.len() == es0.len() ==> env == env0,
                            env_stack@.len() < es0.len() ==> env == es0[env_stack@.len() as int],
                        decreases env_stack@.len(),
                    {
                        let ghost k0 = env_stack@.len();
                        match env_stack.pop() {
                            Some(prev) => {
                                env = prev;
                            },
                            None => {},
                        }
                        let _ = ret_stack.pop();
                        proof {
                            assert(env_stack@ =~= es0.take(env_stack@.len() as int));
                            assert(ret_stack@ =~= rs0.take(ret_stack@.len() as int));
                            assert(env == es0[k0 - 1]);
                        }
                    }
                    ret_stack.truncate(block.ret_depth);
                    stack.truncate(block.stack_size);
                    pc = block.handler;
                    let msg = err.display();
                    stack.push(Value::Str(msg));
                    proof {
                        assert(block.env_depth == block.ret_depth);
                        if es0.len() > block.env_depth {
                            assert(env_stack@.len() == block.env_depth);
                            assert(ret_stack@ =~= rs0.take(block.ret_depth as int));
                        } else {
                            assert(env_stack@.len() == es0.len());
                            assert(ret_stack@ =~= rs0);
                        }
                        assert(ret_stack@.len() == env_stack@.len());
                        let s_next = MachineV {
                            stack: stack@,
                            heap: heap,
                            globals: globals,
                            env: env,
                            env_stack: env_stack@,
                            ret_stack: ret_stack@,
                            block_stack: block_stack@,
                            pc: pc,
                            output: host.log().skip(log0.len() as int),
                        };
                        lemma_log_skip(log0, s_prev.output, host.log());
                        assert(s_next.output == s_prev.output);
                        assert(stack@ =~= trunc(e_sf, block.stack_size as nat).push(
                            stack@.last(),
                        ));
                        assert(es0 == s_prev.env_stack);
                        assert(rs0 == s_prev.ret_stack);
                        assert(env0 == s_prev.env);
                        assert(block == s_prev.block_stack.last());
                        assert(s_next.block_stack == s_prev.block_stack.drop_last());
                        if s_prev.env_stack.len() > block.env_depth {
                            assert(s_next.env == s_prev.env_stack[block.env_depth as int]);
                            assert(s_next.env_stack =~= s_prev.env_stack.take(
                                block.env_depth as int,
                            ));
                        } else {
                            assert(s_next.env_stack =~= s_prev.env_stack);
                        }
                        assert(s_next.stack.last() matches Value::Str(m) && m@
                            == crate::error::error_display(err));
                        assert(unwind_step(s_prev, e_sf, e_hf, err, s_next));
                        assert(machine_step(code@, *funcs, s_prev, s_next));
                        lemma_trace_extend(code@, *funcs, program_args@, tr, s_next);
                        tr = tr.push(s_next);
                        assert(host.log() =~= log0 + s_next.output);
                    }
                    continue ;
                },
                None => {
                    proof {
                        assert(machine_faults(code@, *funcs, tr.last(), err));
                        lemma_log_skip(log0, s_prev.output, host.log());
                        assert(machine_trace(code@, *funcs, program_args@, tr));
                    }
                    return Err(err);
                },
            }
        }
        if advance_pc {
            pc = pc + 1;
        }
        proof {
            let s_next = MachineV {
                stack: stack@,
                heap: heap,
                globals: globals,
                env: env,
                env_stack: env_stack@,
                ret_stack: ret_stack@,
                block_stack: block_stack@,
                pc: pc,
                output: host.log().skip(log0.len() as int),
            };
            lemma_log_skip(log0, s_prev.output, host.log());
            // One case for each instruction keeps the step-relation proof
            // tractable; each case is its handler's postcondition restated.
            match code@[s_prev.pc as int] {
                Instr::SetupExcept(t) => {
                    vstd::std_specs::vec::axiom_spec_len(&stack);
                    vstd::std_specs::vec::axiom_spec_len(&env_stack);
                    vstd::std_specs::vec::axiom_spec_len(&ret_stack);
                    assert(s_prev.stack.len() <= usize::MAX);
                    assert(s_prev.env_stack.len() <= usize::MAX);
                    assert(s_prev.ret_stack.len() <= usize::MAX);
                    assert(s_next.block_stack =~= s_prev.block_stack.push(
                        Block {
                            handler: t,
                            stack_size: s_prev.stack.len() as usize,
                            env_depth: s_prev.env_stack.len() as usize,
                            ret_depth: s_prev.ret_stack.len() as usize,
                        },
                    ));
                    assert(instr_ok_step(code@, *funcs, s_prev, s_next));
                },
                _ => {
                    assert(instr_ok_step(code@, *funcs, s_prev, s_next));
                },
            }
            assert(machine_step(code@, *funcs, s_prev, s_next));
            lemma_trace_extend(code@, *funcs, program_args@, tr, s_next);
            tr = tr.push(s_next);
            assert(host.log() =~= log0 + s_next.output);
        }
    }
    proof {
        assert(machine_halted(code@, tr.last()));
        assert(machine_trace(code@, *funcs, program_args@, tr));
    }
    Ok(())
}

/// Splitting a grown log back into the part a run added.
proof fn lemma_log_skip(log0: Seq<Seq<char>>, out: Seq<Seq<char>>, log: Seq<Seq<char>>)
    ensures
        log == log0 + out ==> log.skip(log0.len() as int) == out,
        forall|x: Seq<char>|
            log == (log0 + out).push(x) ==> log.skip(log0.len() as int) == out.push(x),
{
    if log == log0 + out {
        assert(log.skip(log0.len() as int) =~= out);
    }
    assert forall|x: Seq<char>|
        log == (log0 + out).push(x) implies log.skip(log0.len() as int) == out.push(x) by {
        assert(log.skip(log0.len() as int) =~= out.push(x));
    }
}

/// A trace extends by one machine step.
proof fn lemma_trace_extend(
    code: Seq<Instr>,
    funcs: FuncTable,
    args: Seq<String>,
    tr: Seq<MachineV>,
    s2: MachineV,
)
    requires
        machine_trace(code, funcs, args, tr),
        machine_step(code, funcs, tr.last(), s2),
    ensures
        machine_trace(code, funcs, args, tr.push(s2)),
        tr.push(s2).last() == s2,
{
    let tr2 = tr.push(s2);
    assert(tr2.first() == tr.first());
    assert forall|i: int| 0 <= i < tr2.len() - 1 implies machine_step(
        code,
        funcs,
        tr2[i],
        #[trigger] tr2[i + 1],
    ) by {
        if i < tr.len() - 1 {
            assert(tr2[i] == tr[i]);
            assert(tr2[i + 1] == tr[i + 1]);
        } else {
            assert(tr2[i] == tr.last());
            assert(tr2[i + 1] == s2);
        }
    }
}

/// The two stacks a machine state keeps in lockstep, and the equal depths
/// every handler block captured.
pub open spec fn state_balanced(s: MachineV) -> bool {
    &&& s.ret_stack.len() == s.env_stack.len()
    &&& blocks_wf(s.block_stack)
}

/// Every step of the machine preserves the balance of the return stack and
/// the frame stack: a call pushes one entry on each, a return pops one from
/// each, a tail call touches neither, and unwinding truncates both toward
/// the one depth the handler block captured.
#[verifier::rlimit(100)]
#[verifier::spinoff_prover]
pub proof fn lemma_step_preserves_balance(
    code: Seq<Instr>,
    funcs: FuncTable,
    s1: MachineV,
    s2: MachineV,
)
    requires
        machine_step(code, funcs, s1, s2),
        state_balanced(s1),
    ensures
        state_balanced(s2),
{
    if !instr_ok_step(code, funcs, s1, s2) {
        let (e, sf, hf) = choose|e: RuntimeError, sf: Seq<Value>, hf: Heap|
            #[trigger] instr_err(code, funcs, s1, e, sf, hf) && s1.block_stack.len() >= 1
                && unwind_step(s1, sf, hf, e, s2);
        let b = s1.block_stack.last();
        assert(b.env_depth == b.ret_depth);
        assert forall|i: int| 0 <= i < s2.block_stack.len() implies (
        #[trigger] s2.block_stack[i]).env_depth == s2.block_stack[i].ret_depth by {
            assert(s2.block_stack[i] == s1.block_stack[i]);
        }
    } else {
        match code[s1.pc as int] {
            Instr::SetupExcept(t) => {
                assert forall|i: int| 0 <= i < s2.block_stack.len() implies (
                #[trigger] s2.block_stack[i]).env_depth == s2.block_stack[i].ret_depth by {
                    if i < s1.block_stack.len() {
                        assert(s2.block_stack[i] == s1.block_stack[i]);
                    } else {
                        assert(s2.block_stack[i] == s2.block_stack.last());
                    }
                }
            },
            Instr::PopBlock => {
                assert forall|i: int| 0 <= i < s2.block_stack.len() implies (
                #[trigger] s2.block_stack[i]).env_depth == s2.block_stack[i].ret_depth by {
                    assert(s2.block_stack[i] == s1.block_stack[i]);
                }
            },
            _ => {},
        }
    }
}

/// The stack-balance invariant, stated of whole runs: in every state of
/// every execution trace — that is, at every instruction boundary of `run`
/// — the return stack and the frame stack have the same length.
pub proof fn lemma_trace_balanced(
    code: Seq<Instr>,
    funcs: FuncTable,
    args: Seq<String>,
    tr: Seq<MachineV>,
    i: int,
)
    requires
        machine_trace(code, funcs, args, tr),
        0 <= i < tr.len(),
    ensures
        state_balanced(tr[i]),
    decreases i,
{
    if i == 0 {
        assert(tr[0] == tr.first());
    } else {
        lemma_trace_balanced(code, funcs, args, tr, i - 1);
        assert(tr[(i - 1) + 1] == tr[i]);
        lemma_step_preserves_balance(code, funcs, tr[i - 1], tr[i]);
    }
}

/// A call and a tail call of the same function from the same operand stack
/// set up the same frame: the same parameter bindings, the same entry
/// point, the same remaining stack. The difference is confined to the
/// bookkeeping stacks — `handle_call` pushes one saved frame and one
/// return address, while `handle_tail_call` takes neither stack at all,
/// so a tail call cannot grow them.
pub proof fn lemma_tail_call_same_frame(
    f: crate::bytecode::Function,
    s0: Seq<Value>,
    sf1: Seq<Value>,
    env1: EnvMap,
    pc1: usize,
    adv1: bool,
    sf2: Seq<Value>,
    env2: EnvMap,
    pc2: usize,
    adv2: bool,
)
    requires
        crate::vm::ops_control::call_ok_post(f, s0, sf1, env1, pc1, adv1),
        crate::vm::ops_control::call_ok_post(f, s0, sf2, env2, pc2, adv2),
    ensures
        env1@ == env2@,
        pc1 == pc2,
        sf1 == sf2,
        adv1 == adv2,
{
}

/// After `Ret`, the operand stack height equals the height before the
/// call, minus the arguments the call consumed, plus the one returned
/// value: a call pops one operand per parameter, and a body that leaves
/// one net value for its `Ret` hands the caller a stack one taller than
/// what the arguments left behind.
pub proof fn lemma_call_ret_stack_height(
    f: crate::bytecode::Function,
    s0: Seq<Value>,
    body: Seq<Value>,
)
    requires
        s0.len() >= f.params@.len(),
        body.len() == popped(s0, f.params@.len() as int).len() + 1,
    ensures
        crate::vm::ops_control::ret_result_stack(body).len() == s0.len() - f.params@.len() + 1,
{
}

} // verus!
