//! Control flow: assertions, jumps, calls, tail calls, first-class calls,
//! returns, halting, and the structured-exception scaffolding.
//!
//! Calls bind parameters right-to-left from the operand stack into a fresh
//! local environment, push the caller's environment and return address, and
//! jump to the function's entry. A tail call binds the same way but reuses
//! the current frame: neither the frame stack nor the return stack grows.

use vstd::prelude::*;

use crate::bytecode::{FuncTable, Function};
use crate::envmap::EnvMap;
use crate::error::{ErrorKind, RuntimeError};
use crate::value::{as_bool_spec, entries_keys_unique, heap_wf, value_wf, values_wf, Heap, Value};
use crate::vm::{bind_params_map, is_underflow, pop, popped, Block};
use crate::render::str_of;
use vstd::string::StringExecFns;

verus! {

broadcast use crate::vm::group_vm;

/// `Assert`: pop a condition; a falsy one is an assertion failure.
pub fn handle_assert(stack: &mut Vec<Value>, heap: &Heap) -> (r: Result<(), RuntimeError>)
    requires
        heap_wf(*heap),
        values_wf(old(stack)@, *heap),
    ensures
        values_wf(final(stack)@, *heap),
        match r {
            Ok(()) => old(stack)@.len() >= 1 && as_bool_spec(old(stack)@.last(), *heap) && final(stack)@ == popped(old(stack)@, 1),
            Err(e) => {
                ||| (old(stack)@.len() == 0 && is_underflow(e) && final(stack)@ == old(stack)@)
                ||| (old(stack)@.len() >= 1 && !as_bool_spec(old(stack)@.last(), *heap) && e
                    == RuntimeError::AssertionError && final(stack)@ == popped(old(stack)@, 1))
            },
        },
{
    let v = pop(stack)?;
    proof {
        assert(value_wf(v, *heap));
    }
    if !v.as_bool(heap) {
        return Err(RuntimeError::AssertionError);
    }
    Ok(())
}

/// `Jump`: set the program counter and suppress the automatic advance.
pub fn handle_jump(target: usize, pc: &mut usize, advance_pc: &mut bool)
    ensures
        *final(pc) == target,
        *final(advance_pc) == false,
{
    *pc = target;
    *advance_pc = false;
}

/// `JumpIfFalse`: pop a condition and jump when it is falsy.
pub fn handle_jump_if_false(
    target: usize,
    stack: &mut Vec<Value>,
    heap: &Heap,
    pc: &mut usize,
    advance_pc: &mut bool,
) -> (r: Result<(), RuntimeError>)
    requires
        heap_wf(*heap),
        values_wf(old(stack)@, *heap),
    ensures
        values_wf(final(stack)@, *heap),
        match r {
            Ok(()) => {
                &&& old(stack)@.len() >= 1
                &&& final(stack)@ == popped(old(stack)@, 1)
                &&& if as_bool_spec(old(stack)@.last(), *heap) {
                    *final(pc) == *old(pc) && *final(advance_pc) == *old(advance_pc)
                } else {
                    *final(pc) == target && *final(advance_pc) == false
                }
            },
            Err(e) => old(stack)@.len() == 0 && is_underflow(e) && final(stack)@ == old(stack)@
                && *final(pc) == *old(pc) && *final(advance_pc) == *old(advance_pc),
        },
{
    let v = pop(stack)?;
    proof {
        assert(value_wf(v, *heap));
    }
    if !v.as_bool(heap) {
        *pc = target;
        *advance_pc = false;
    }
    Ok(())
}

/// What a completed call set up, whatever its entry: arguments popped, the
/// parameters bound into the fresh local environment, control at the
/// function's entry.
pub open spec fn call_ok_post(
    f: Function,
    s0: Seq<Value>,
    sf: Seq<Value>,
    envf: EnvMap,
    pcf: usize,
    adv: bool,
) -> bool {
    &&& s0.len() >= f.params@.len()
    &&& sf == popped(s0, f.params@.len() as int)
    &&& envf@ == bind_params_map(f.params@, s0, f.params@.len() as int)
    &&& entries_keys_unique(envf.entries@)
    &&& pcf == f.address
    &&& adv == false
}

/// Bind the parameters of `func` right-to-left from the stack into a fresh
/// environment (the shared step of every kind of call).
fn bind_args(func: &Function, stack: &mut Vec<Value>) -> (r: Result<EnvMap, RuntimeError>)
    ensures
        match r {
            Ok(envf) => {
                &&& old(stack)@.len() >= func.params@.len()
                &&& final(stack)@ == popped(old(stack)@, func.params@.len() as int)
                &&& envf@ == bind_params_map(
                    func.params@,
                    old(stack)@,
                    func.params@.len() as int,
                )
                &&& entries_keys_unique(envf.entries@)
                &&& forall|h: Heap| values_wf(old(stack)@, h) ==> #[trigger] envf.wf(h)
            },
            Err(e) => old(stack)@.len() < func.params@.len() && is_underflow(e) && final(stack)@
                == Seq::<Value>::empty(),
        },
{
    let ghost s0 = old(stack)@;
    let plen = func.params.len();
    let mut new_env = EnvMap::new();
    let mut j: usize = 0;
    proof {
        assert(stack@ =~= popped(s0, 0));
        assert(new_env@ =~= bind_params_map(func.params@, s0, 0));
    }
    while j < plen
        invariant
            j <= plen,
            old(stack)@ == s0,
            plen == func.params@.len(),
            stack@ == popped(s0, j as int),
            s0.len() >= j,
            new_env@ == bind_params_map(func.params@, s0, j as int),
            entries_keys_unique(new_env.entries@),
            forall|h: Heap| values_wf(s0, h) ==> #[trigger] new_env.wf(h),
        decreases plen - j,
    {
        let arg = match stack.pop() {
            Some(v) => v,
            None => {
                proof {
                    assert(stack@.len() == 0);
                    assert(s0.len() == j);
                    assert(j < plen);
                    assert(s0.len() < func.params@.len());
                    assert(stack@ =~= Seq::<Value>::empty());
                }
                return Err(RuntimeError::VmInvariant(String::from_str("stack underflow")));
            },
        };
        proof {
            assert(arg == s0[s0.len() - 1 - j]);
            assert(stack@ =~= popped(s0, j + 1));
        }
        let pname = func.params[plen - 1 - j].clone();
        let ghost env_prev = new_env;
        new_env.set(pname, arg);
        proof {
            assert(new_env@ == bind_params_map(func.params@, s0, j + 1));
            assert forall|h: Heap| values_wf(s0, h) implies #[trigger] new_env.wf(h) by {
                assert(env_prev.wf(h));
                assert(value_wf(arg, h));
            }
        }
        j = j + 1;
    }
    Ok(new_env)
}

/// `Call`: call the named function, pushing the caller's frame and return
/// address.
pub fn handle_call(
    name: &String,
    funcs: &FuncTable,
    stack: &mut Vec<Value>,
    env: &mut EnvMap,
    env_stack: &mut Vec<EnvMap>,
    ret_stack: &mut Vec<usize>,
    pc: &mut usize,
    advance_pc: &mut bool,
) -> (r: Result<(), RuntimeError>)
    requires
        funcs.wf(),
        *old(pc) < usize::MAX,
    ensures
        match r {
            Ok(()) => {
                &&& funcs@.contains_key(name@)
                &&& call_ok_post(
                    funcs@[name@],
                    old(stack)@,
                    final(stack)@,
                    *final(env),
                    *final(pc),
                    *final(advance_pc),
                )
                &&& final(env_stack)@ == old(env_stack)@.push(*old(env))
                &&& final(ret_stack)@ == old(ret_stack)@.push((*old(pc) + 1) as usize)
                &&& forall|h: Heap|
                    values_wf(old(stack)@, h) ==> #[trigger] final(env).wf(h)
            },
            Err(e) => {
                &&& final(env_stack)@ == old(env_stack)@
                &&& final(ret_stack)@ == old(ret_stack)@
                &&& *final(pc) == *old(pc)
                &&& *final(advance_pc) == *old(advance_pc)
                &&& *final(env) == *old(env)
                &&& {
                    ||| (!funcs@.contains_key(name@) && final(stack)@ == old(stack)@ && (e
                        matches RuntimeError::UndefinedIdentError(n) && n@ == name@))
                    ||| (funcs@.contains_key(name@) && old(stack)@.len()
                        < funcs@[name@].params@.len() && is_underflow(e) && final(stack)@ == Seq::<
                        Value,
                    >::empty())
                }
            },
        },
{
    match funcs.get(name.as_str()) {
        Some(func) => {
            let mut new_env = bind_args(func, stack)?;
            core::mem::swap(env, &mut new_env);
            env_stack.push(new_env);
            ret_stack.push(*pc + 1);
            *pc = func.address;
            *advance_pc = false;
            Ok(())
        },
        None => Err(RuntimeError::UndefinedIdentError(name.clone())),
    }
}

/// `TailCall`: call the named function in the current frame; the frame and
/// return stacks do not grow, which is the whole point of a tail call.
pub fn handle_tail_call(
    name: &String,
    funcs: &FuncTable,
    stack: &mut Vec<Value>,
    env: &mut EnvMap,
    pc: &mut usize,
    advance_pc: &mut bool,
) -> (r: Result<(), RuntimeError>)
    requires
        funcs.wf(),
    ensures
        match r {
            Ok(()) => {
                &&& funcs@.contains_key(name@)
                &&& call_ok_post(
                    funcs@[name@],
                    old(stack)@,
                    final(stack)@,
                    *final(env),
                    *final(pc),
                    *final(advance_pc),
                )
                &&& forall|h: Heap|
                    values_wf(old(stack)@, h) ==> #[trigger] final(env).wf(h)
            },
            Err(e) => {
                &&& *final(pc) == *old(pc)
                &&& *final(advance_pc) == *old(advance_pc)
                &&& *final(env) == *old(env)
                &&& {
                    ||| (!funcs@.contains_key(name@) && final(stack)@ == old(stack)@ && (e
                        matches RuntimeError::UndefinedIdentError(n) && n@ == name@))
                    ||| (funcs@.contains_key(name@) && old(stack)@.len()
                        < funcs@[name@].params@.len() && is_underflow(e) && final(stack)@ == Seq::<
                        Value,
                    >::empty())
                }
            },
        },
{
    match funcs.get(name.as_str()) {
        Some(func) => {
            let new_env = bind_args(func, stack)?;
            *env = new_env;
            *pc = func.address;
            *advance_pc = false;
            Ok(())
        },
        None => Err(RuntimeError::UndefinedIdentError(name.clone())),
    }
}

/// `CallValue`: pop `argc` arguments and then the callee, which must be a
/// string naming a function; dispatch like `Call`. The arguments sit on
/// the stack exactly as for `Call`, so the binding is the same; a callee
/// declaring more parameters than `argc` underflows.
pub fn handle_call_value(
    argc: usize,
    stack: &mut Vec<Value>,
    funcs: &FuncTable,
    env: &mut EnvMap,
    env_stack: &mut Vec<EnvMap>,
    ret_stack: &mut Vec<usize>,
    pc: &mut usize,
    advance_pc: &mut bool,
) -> (r: Result<(), RuntimeError>)
    requires
        funcs.wf(),
        *old(pc) < usize::MAX,
    ensures
        match r {
            Ok(()) => {
                &&& old(stack)@.len() >= argc + 1
                &&& call_value_callee(old(stack)@, argc as int) matches Value::Str(n)
                &&& funcs@.contains_key(n@)
                &&& funcs@[n@].params@.len() <= argc
                &&& final(env)@ == bind_params_map(
                    funcs@[n@].params@,
                    old(stack)@,
                    funcs@[n@].params@.len() as int,
                )
                &&& entries_keys_unique(final(env).entries@)
                &&& *final(pc) == funcs@[n@].address
                &&& *final(advance_pc) == false
                &&& final(stack)@ == popped(old(stack)@, argc + 1)
                &&& final(env_stack)@ == old(env_stack)@.push(*old(env))
                &&& final(ret_stack)@ == old(ret_stack)@.push((*old(pc) + 1) as usize)
                &&& forall|h: Heap|
                    values_wf(old(stack)@, h) ==> #[trigger] final(env).wf(h)
            },
            Err(e) => {
                &&& final(env_stack)@ == old(env_stack)@
                &&& final(ret_stack)@ == old(ret_stack)@
                &&& *final(pc) == *old(pc)
                &&& *final(advance_pc) == *old(advance_pc)
                &&& *final(env) == *old(env)
                &&& call_value_err(old(stack)@, argc as int, *funcs, e, final(stack)@)
            },
        },
{
    let ghost s0 = old(stack)@;
    let mut args_rev: Vec<Value> = Vec::new();
    let mut j: usize = 0;
    proof {
        assert(stack@ =~= popped(s0, 0));
    }
    while j < argc
        invariant
            j <= argc,
            old(stack)@ == s0,
            stack@ == popped(s0, j as int),
            s0.len() >= j,
            args_rev@.len() == j,
            forall|i: int| 0 <= i < j ==> args_rev@[i] == s0[s0.len() - 1 - i],
        decreases argc - j,
    {
        let arg = match stack.pop() {
            Some(v) => v,
            None => {
                proof {
                    assert(s0.len() == j);
                    assert(stack@ =~= Seq::<Value>::empty());
                }
                return Err(RuntimeError::VmInvariant(String::from_str("stack underflow")));
            },
        };
        args_rev.push(arg);
        proof {
            assert(stack@ =~= popped(s0, j + 1));
        }
        j = j + 1;
    }
    let func_val = match stack.pop() {
        Some(v) => v,
        None => {
            proof {
                assert(s0.len() == argc);
                assert(stack@ =~= Seq::<Value>::empty());
            }
            return Err(RuntimeError::VmInvariant(String::from_str("stack underflow")));
        },
    };
    proof {
        assert(func_val == s0[s0.len() - 1 - argc]);
        assert(stack@ =~= popped(s0, argc + 1));
    }
    let name = match func_val {
        Value::Str(n) => n,
        _ => {
            return Err(RuntimeError::TypeError(String::from_str("Call value expects function name")));
        },
    };
    let func = match funcs.get(name.as_str()) {
        Some(f) => f,
        None => {
            return Err(RuntimeError::UndefinedIdentError(name));
        },
    };
    let plen = func.params.len();
    if plen > argc {
        return Err(RuntimeError::VmInvariant(String::from_str("stack underflow")));
    }
    let mut new_env = EnvMap::new();
    let mut k: usize = 0;
    proof {
        assert(new_env@ =~= bind_params_map(funcs@[name@].params@, s0, 0));
    }
    while k < plen
        invariant
            k <= plen,
            plen <= argc,
            old(stack)@ == s0,
            stack@ == popped(s0, argc + 1),
            *func == funcs@[name@],
            plen == funcs@[name@].params@.len(),
            funcs@.contains_key(name@),
            s0.len() >= argc + 1,
            args_rev@.len() == argc,
            forall|i: int| 0 <= i < argc ==> args_rev@[i] == s0[s0.len() - 1 - i],
            new_env@ == bind_params_map(funcs@[name@].params@, s0, k as int),
            entries_keys_unique(new_env.entries@),
            forall|h: Heap| values_wf(s0, h) ==> #[trigger] new_env.wf(h),
        decreases plen - k,
    {
        let arg = args_rev[k].clone();
        proof {
            assert(arg == s0[s0.len() - 1 - k]);
        }
        let pname = func.params[plen - 1 - k].clone();
        let ghost env_prev = new_env;
        new_env.set(pname, arg);
        proof {
            assert(new_env@ == bind_params_map(funcs@[name@].params@, s0, k + 1));
            assert forall|h: Heap| values_wf(s0, h) implies #[trigger] new_env.wf(h) by {
                assert(env_prev.wf(h));
                assert(value_wf(arg, h));
            }
        }
        k = k + 1;
    }
    core::mem::swap(env, &mut new_env);
    env_stack.push(new_env);
    ret_stack.push(*pc + 1);
    *pc = func.address;
    *advance_pc = false;
    proof {
        assert(stack@ =~= cv_mid_stack(s0, argc as int));
    }
    Ok(())
}

/// The callee of `CallValue`: the value under the `argc` arguments.
pub open spec fn call_value_callee(s: Seq<Value>, argc: int) -> Value {
    s[s.len() - 1 - argc]
}

/// The stack as the callee of a `CallValue` sees it when binding: the
/// arguments only, with the callee below them already removed.
pub open spec fn cv_mid_stack(s: Seq<Value>, argc: int) -> Seq<Value> {
    popped(s, argc + 1)
}

/// How `CallValue` fails: missing operands, a callee that is not a string,
/// an unknown function name, or more parameters than arguments.
pub open spec fn call_value_err(
    s: Seq<Value>,
    argc: int,
    funcs: FuncTable,
    e: RuntimeError,
    sf: Seq<Value>,
) -> bool {
    ||| (s.len() < argc + 1 && is_underflow(e) && sf == Seq::<Value>::empty())
    ||| (s.len() >= argc + 1 && sf == popped(s, argc + 1) && {
        ||| (!(call_value_callee(s, argc) matches Value::Str(_)) && (e matches
            RuntimeError::TypeError(m) && m@ == "Call value expects function name"@))
        ||| (call_value_callee(s, argc) matches Value::Str(n) && !funcs@.contains_key(n@) && (e
            matches RuntimeError::UndefinedIdentError(n2) && n2@ == n@))
        ||| (call_value_callee(s, argc) matches Value::Str(n) && funcs@.contains_key(n@)
            && funcs@[n@].params@.len() > argc && is_underflow(e))
    })
}

/// `Pop`: discard the top of stack, if any.
pub fn handle_pop(stack: &mut Vec<Value>)
    ensures
        old(stack)@.len() >= 1 ==> final(stack)@ == popped(old(stack)@, 1),
        old(stack)@.len() == 0 ==> final(stack)@ == old(stack)@,
{
    let _ = stack.pop();
    proof {
        if old(stack)@.len() >= 1 {
            assert(stack@ =~= popped(old(stack)@, 1));
        }
    }
}

/// `Ret`: pop the return value (the sentinel result `Int(0)` stands in on
/// an empty stack), restore the caller's program counter and environment,
/// and push the return value back. Returning with no saved frame is a
/// machine-invariant violation.
pub fn handle_ret(
    stack: &mut Vec<Value>,
    pc: &mut usize,
    env: &mut EnvMap,
    env_stack: &mut Vec<EnvMap>,
    ret_stack: &mut Vec<usize>,
    advance_pc: &mut bool,
) -> (r: Result<(), RuntimeError>)
    requires
        old(env_stack)@.len() == old(ret_stack)@.len(),
    ensures
        final(env_stack)@.len() == final(ret_stack)@.len(),
        match r {
            Ok(()) => {
                &&& old(ret_stack)@.len() >= 1
                &&& final(ret_stack)@ == old(ret_stack)@.drop_last()
                &&& final(env_stack)@ == old(env_stack)@.drop_last()
                &&& *final(env) == old(env_stack)@.last()
                &&& *final(pc) == old(ret_stack)@.last()
                &&& *final(advance_pc) == false
                &&& final(stack)@ == ret_result_stack(old(stack)@)
            },
            Err(e) => {
                &&& old(ret_stack)@.len() == 0
                &&& (e matches RuntimeError::VmInvariant(m) && m@ == "return stack underflow"@)
                &&& final(stack)@ == old(stack)@
                &&& final(ret_stack)@ == old(ret_stack)@
                &&& final(env_stack)@ == old(env_stack)@
                &&& *final(env) == *old(env)
                &&& *final(pc) == *old(pc)
                &&& *final(advance_pc) == *old(advance_pc)
            },
        },
{
    if ret_stack.len() == 0 {
        return Err(RuntimeError::VmInvariant(String::from_str("return stack underflow")));
    }
    let ret_val = match stack.pop() {
        Some(v) => v,
        None => Value::Int(0),
    };
    let rpc = match ret_stack.pop() {
        Some(p) => p,
        None => 0,
    };
    let prev_env = match env_stack.pop() {
        Some(e) => e,
        None => EnvMap::new(),
    };
    *pc = rpc;
    *env = prev_env;
    stack.push(ret_val);
    *advance_pc = false;
    proof {
        assert(stack@ =~= ret_result_stack(old(stack)@));
    }
    Ok(())
}

/// The operand stack after `Ret`: the return value stays on top (an empty
/// stack gains the stand-in `Int(0)`), so the height is unchanged unless
/// the stack was empty.
pub open spec fn ret_result_stack(s: Seq<Value>) -> Seq<Value> {
    if s.len() == 0 {
        seq![Value::Int(0)]
    } else {
        s
    }
}

/// `Halt`: move the program counter past the end of the code.
pub fn handle_halt(code_len: usize, pc: &mut usize, advance_pc: &mut bool)
    ensures
        *final(pc) == code_len,
        *final(advance_pc) == false,
{
    *pc = code_len;
    *advance_pc = false;
}

/// `SetupExcept`: push a handler block capturing the current depths.
pub fn handle_setup_except(
    target: usize,
    stack: &Vec<Value>,
    env_stack: &Vec<EnvMap>,
    ret_stack: &Vec<usize>,
    block_stack: &mut Vec<Block>,
)
    ensures
        final(block_stack)@.len() == old(block_stack)@.len() + 1,
        final(block_stack)@.drop_last() == old(block_stack)@,
        final(block_stack)@.last() == (Block {
            handler: target,
            stack_size: stack.len(),
            env_depth: env_stack.len(),
            ret_depth: ret_stack.len(),
        }),
{
    let b = Block {
        handler: target,
        stack_size: stack.len(),
        env_depth: env_stack.len(),
        ret_depth: ret_stack.len(),
    };
    block_stack.push(b);
    proof {
        assert(block_stack@.drop_last() =~= old(block_stack)@);
    }
}

/// `PopBlock`: discard the most recent handler block, if any.
pub fn handle_pop_block(block_stack: &mut Vec<Block>)
    ensures
        old(block_stack)@.len() >= 1 ==> final(block_stack)@ == old(block_stack)@.drop_last(),
        old(block_stack)@.len() == 0 ==> final(block_stack)@ == old(block_stack)@,
{
    let _ = block_stack.pop();
}

/// `Raise`: pop the message value and fail with the kind's error carrying
/// its rendered form; raising on an empty stack is the machine-invariant
/// violation the bytecode verifier tests pin down.
pub fn handle_raise(kind: &ErrorKind, stack: &mut Vec<Value>, heap: &Heap) -> (r: Result<
    (),
    RuntimeError,
>)
    requires
        heap_wf(*heap),
        values_wf(old(stack)@, *heap),
    ensures
        values_wf(final(stack)@, *heap),
        r is Err,
        match r {
            Ok(()) => false,
            Err(e) => {
                ||| (old(stack)@.len() == 0 && final(stack)@ == old(stack)@ && (e matches
                    RuntimeError::VmInvariant(m) && m@ == "stack underflow on RAISE"@))
                ||| (old(stack)@.len() >= 1 && final(stack)@ == popped(old(stack)@, 1)
                    && crate::error::kind_matches_runtime(
                    *kind,
                    str_of(old(stack)@.last(), *heap),
                    e,
                ))
            },
        },
{
    let msg_val = match stack.pop() {
        Some(v) => v,
        None => {
            return Err(RuntimeError::VmInvariant(String::from_str("stack underflow on RAISE")));
        },
    };
    proof {
        assert(value_wf(msg_val, *heap));
        assert(stack@ =~= popped(old(stack)@, 1));
    }
    let msg = msg_val.to_string(heap);
    Err((*kind).into_runtime(msg))
}

/// `CallBuiltin`: pop `argc` arguments (restoring their source order) and
/// dispatch to the built-in table; push the result.
pub fn handle_call_builtin<H: crate::host::HostIo>(
    name: &String,
    argc: usize,
    stack: &mut Vec<Value>,
    heap: &mut Heap,
    env: &EnvMap,
    globals: &EnvMap,
    host: &mut H,
) -> (r: Result<(), RuntimeError>)
    requires
        heap_wf(*old(heap)),
        values_wf(old(stack)@, *old(heap)),
        entries_keys_unique(env.entries@),
        entries_keys_unique(globals.entries@),
    ensures
        heap_wf(*final(heap)),
        crate::value::heap_extends(*final(heap), *old(heap)),
        values_wf(final(stack)@, *final(heap)),
        final(host).log() == old(host).log(),
        match r {
            Ok(()) => {
                &&& old(stack)@.len() >= argc
                &&& final(stack)@.len() == old(stack)@.len() - argc + 1
                &&& final(stack)@.drop_last() == popped(old(stack)@, argc as int)
                &&& crate::vm::builtins::builtin_post(
                    name@,
                    old(stack)@.skip(old(stack)@.len() - argc as int),
                    *old(heap),
                    *final(heap),
                    env@,
                    globals@,
                    Ok(final(stack)@.last()),
                )
            },
            Err(e) => {
                ||| (old(stack)@.len() < argc && is_underflow(e) && final(stack)@ == Seq::<
                    Value,
                >::empty() && *final(heap) == *old(heap))
                ||| (old(stack)@.len() >= argc && final(stack)@ == popped(old(stack)@, argc as int)
                    && crate::vm::builtins::builtin_post(
                    name@,
                    old(stack)@.skip(old(stack)@.len() - argc as int),
                    *old(heap),
                    *final(heap),
                    env@,
                    globals@,
                    Err(e),
                ))
            },
        },
{
    let ghost s0 = old(stack)@;
    let ghost h0 = *old(heap);
    let len = stack.len();
    if len < argc {
        stack.clear();
        return Err(RuntimeError::VmInvariant(String::from_str("stack underflow")));
    }
    let args = stack.split_off(len - argc);
    proof {
        assert(values_wf(args@, h0)) by {
            assert forall|i: int| 0 <= i < args@.len() implies value_wf(
                #[trigger] args@[i],
                h0,
            ) by {
                assert(args@[i] == s0[s0.len() - argc + i]);
            }
        }
        crate::vm::lemma_values_wf_popped(s0, h0, argc as int);
    }
    match crate::vm::builtins::call_builtin(name.as_str(), args, heap, env, globals, host) {
        Ok(v) => {
            stack.push(v);
            proof {
                crate::value::lemma_values_wf_extends(popped(s0, argc as int), h0, *heap);
            }
            Ok(())
        },
        Err(e) => {
            proof {
                crate::value::lemma_values_wf_extends(popped(s0, argc as int), h0, *heap);
            }
            Err(e)
        },
    }
}

/// `Emit`: pop the top of stack, if any, and deliver its rendered form to
/// the host's output sink, appending it to the host's output log.
pub fn handle_emit<H: crate::host::HostIo>(stack: &mut Vec<Value>, heap: &Heap, host: &mut H)
    requires
        heap_wf(*heap),
        values_wf(old(stack)@, *heap),
    ensures
        values_wf(final(stack)@, *heap),
        old(stack)@.len() >= 1 ==> final(stack)@ == popped(old(stack)@, 1) && final(host).log()
            == old(host).log().push(str_of(old(stack)@.last(), *heap)),
        old(stack)@.len() == 0 ==> final(stack)@ == old(stack)@ && final(host).log() == old(
            host,
        ).log(),
{
    match stack.pop() {
        Some(v) => {
            proof {
                assert(value_wf(v, *heap));
                assert(stack@ =~= popped(old(stack)@, 1));
            }
            let line = v.to_string(heap);
            host.emit(line);
        },
        None => {},
    }
}

} // verus!
