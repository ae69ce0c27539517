//! Arithmetic, comparison, bitwise and boolean operators.
//!
//! Each handler pops its operands (right first, then left), applies the
//! operation, and pushes one result. Overflow is wrapping; `Mul` pushes 0
//! on overflow; division and modulo reject a zero divisor. Equality
//! compares the rendered forms of the operands, so values of different
//! types compare consistently; ordering is lexicographic between two
//! strings and integral otherwise.

use vstd::prelude::*;

use crate::error::RuntimeError;
use crate::render::str_of;
use crate::text;
use crate::value::{as_bool_spec, as_int_spec, heap_wf, value_wf, values_wf, Heap, Value};
use crate::vm::{is_underflow, pop, popped};

verus! {

broadcast use crate::vm::group_vm;

/// The right operand of a binary operator (top of stack).
pub open spec fn opnd_b(s: Seq<Value>) -> Value {
    s[s.len() - 1]
}

/// The left operand of a binary operator (under the top).
pub open spec fn opnd_a(s: Seq<Value>) -> Value {
    s[s.len() - 2]
}

/// Both operands coerce to integers.
pub open spec fn bin_int_ok(s: Seq<Value>, h: Heap) -> bool {
    &&& s.len() >= 2
    &&& as_int_spec(opnd_b(s), h) is Some
    &&& as_int_spec(opnd_a(s), h) is Some
}

/// The left operand as an integer.
pub open spec fn bin_a(s: Seq<Value>, h: Heap) -> i64 {
    as_int_spec(opnd_a(s), h)->Some_0
}

/// The right operand as an integer.
pub open spec fn bin_b(s: Seq<Value>, h: Heap) -> i64 {
    as_int_spec(opnd_b(s), h)->Some_0
}

/// The error integer coercion gives for `v`: a `TypeError` naming the
/// string that did not parse.
pub open spec fn coerce_err(v: Value, h: Heap, e: RuntimeError) -> bool {
    &&& as_int_spec(v, h) is None
    &&& v matches Value::Str(s)
    &&& e matches RuntimeError::TypeError(m) && m@ == "Invalid literal for int(): '"@ + s@ + "'"@
}

/// How a binary integer operator fails, and the stack each failure leaves:
/// an empty stack underflows untouched; a right operand that does not
/// coerce is reported after one pop; a missing left operand after one pop;
/// a left operand that does not coerce after two.
pub open spec fn bin_int_err(s: Seq<Value>, h: Heap, e: RuntimeError, sf: Seq<Value>) -> bool {
    ||| (s.len() == 0 && is_underflow(e) && sf == s)
    ||| (s.len() >= 1 && as_int_spec(opnd_b(s), h) is None && coerce_err(opnd_b(s), h, e) && sf
        == popped(s, 1))
    ||| (s.len() == 1 && as_int_spec(opnd_b(s), h) is Some && is_underflow(e) && sf == popped(s, 1))
    ||| (s.len() >= 2 && as_int_spec(opnd_b(s), h) is Some && as_int_spec(opnd_a(s), h) is None
        && coerce_err(opnd_a(s), h, e) && sf == popped(s, 2))
}

/// How an operator that only pops two values fails.
pub open spec fn pop2_err(s: Seq<Value>, e: RuntimeError, sf: Seq<Value>) -> bool {
    ||| (s.len() == 0 && is_underflow(e) && sf == s)
    ||| (s.len() == 1 && is_underflow(e) && sf == popped(s, 1))
}

/// `Sub`: `a - b`, wrapping.
pub fn handle_sub(stack: &mut Vec<Value>, heap: &Heap) -> (r: Result<(), RuntimeError>)
    requires
        heap_wf(*heap),
        values_wf(old(stack)@, *heap),
    ensures
        values_wf(final(stack)@, *heap),
        match r {
            Ok(()) => bin_int_ok(old(stack)@, *heap) && final(stack)@ == popped(
                old(stack)@,
                2,
            ).push(Value::Int(bin_a(old(stack)@, *heap).wrapping_sub(bin_b(old(stack)@, *heap)))),
            Err(e) => bin_int_err(old(stack)@, *heap, e, final(stack)@),
        },
{
    let b = pop(stack)?;
    let bi = b.as_int(heap)?;
    let a = pop(stack)?;
    let ai = a.as_int(heap)?;
    stack.push(Value::Int(ai.wrapping_sub(bi)));
    Ok(())
}

/// `Mul`: `a * b`; on overflow the result is 0.
pub fn handle_mul(stack: &mut Vec<Value>, heap: &Heap) -> (r: Result<(), RuntimeError>)
    requires
        heap_wf(*heap),
        values_wf(old(stack)@, *heap),
    ensures
        values_wf(final(stack)@, *heap),
        match r {
            Ok(()) => bin_int_ok(old(stack)@, *heap) && final(stack)@ == popped(
                old(stack)@,
                2,
            ).push(
                Value::Int(
                    match bin_a(old(stack)@, *heap).checked_mul(bin_b(old(stack)@, *heap)) {
                        Some(p) => p,
                        None => 0,
                    },
                ),
            ),
            Err(e) => bin_int_err(old(stack)@, *heap, e, final(stack)@),
        },
{
    let b = pop(stack)?;
    let bi = b.as_int(heap)?;
    let a = pop(stack)?;
    let ai = a.as_int(heap)?;
    let p = match ai.checked_mul(bi) {
        Some(p) => p,
        None => 0,
    };
    stack.push(Value::Int(p));
    Ok(())
}

/// How `Div` and `Mod` fail: as any binary integer operator, or with
/// `ZeroDivisionError` when the right operand coerces to zero (found
/// before the left operand is popped).
pub open spec fn div_err(s: Seq<Value>, h: Heap, e: RuntimeError, sf: Seq<Value>) -> bool {
    ||| (s.len() == 0 && is_underflow(e) && sf == s)
    ||| (s.len() >= 1 && as_int_spec(opnd_b(s), h) is None && coerce_err(opnd_b(s), h, e) && sf
        == popped(s, 1))
    ||| (s.len() >= 1 && as_int_spec(opnd_b(s), h) == Some(0i64) && e
        == RuntimeError::ZeroDivisionError && sf == popped(s, 1))
    ||| (s.len() == 1 && as_int_spec(opnd_b(s), h) is Some && bin_b(s, h) != 0 && is_underflow(e)
        && sf == popped(s, 1))
    ||| (s.len() >= 2 && as_int_spec(opnd_b(s), h) is Some && bin_b(s, h) != 0 && as_int_spec(
        opnd_a(s),
        h,
    ) is None && coerce_err(opnd_a(s), h, e) && sf == popped(s, 2))
}

/// Truncated division of `a` by nonzero `b`; the one unrepresentable
/// quotient (the smallest integer divided by minus one) wraps to itself.
pub open spec fn div_vm(a: i64, b: i64) -> i64 {
    match a.checked_div(b) {
        Some(q) => q,
        None => i64::MIN,
    }
}

/// Remainder of `a` by nonzero `b` (sign of the dividend); the one
/// overflowing case yields 0.
pub open spec fn mod_vm(a: i64, b: i64) -> i64 {
    match a.checked_rem(b) {
        Some(q) => q,
        None => 0,
    }
}

/// `Div`: `a / b` truncated; a zero divisor is rejected.
pub fn handle_div(stack: &mut Vec<Value>, heap: &Heap) -> (r: Result<(), RuntimeError>)
    requires
        heap_wf(*heap),
        values_wf(old(stack)@, *heap),
    ensures
        values_wf(final(stack)@, *heap),
        match r {
            Ok(()) => bin_int_ok(old(stack)@, *heap) && bin_b(old(stack)@, *heap) != 0 && final(stack)@ == popped(old(stack)@, 2).push(
                Value::Int(div_vm(bin_a(old(stack)@, *heap), bin_b(old(stack)@, *heap))),
            ),
            Err(e) => div_err(old(stack)@, *heap, e, final(stack)@),
        },
{
    let b = pop(stack)?;
    let bi = b.as_int(heap)?;
    if bi == 0 {
        return Err(RuntimeError::ZeroDivisionError);
    }
    let a = pop(stack)?;
    let ai = a.as_int(heap)?;
    let q = match ai.checked_div(bi) {
        Some(q) => q,
        None => i64::MIN,
    };
    stack.push(Value::Int(q));
    Ok(())
}

/// `Mod`: `a % b` with the dividend's sign; a zero divisor is rejected.
pub fn handle_mod(stack: &mut Vec<Value>, heap: &Heap) -> (r: Result<(), RuntimeError>)
    requires
        heap_wf(*heap),
        values_wf(old(stack)@, *heap),
    ensures
        values_wf(final(stack)@, *heap),
        match r {
            Ok(()) => bin_int_ok(old(stack)@, *heap) && bin_b(old(stack)@, *heap) != 0 && final(stack)@ == popped(old(stack)@, 2).push(
                Value::Int(mod_vm(bin_a(old(stack)@, *heap), bin_b(old(stack)@, *heap))),
            ),
            Err(e) => div_err(old(stack)@, *heap, e, final(stack)@),
        },
{
    let b = pop(stack)?;
    let bi = b.as_int(heap)?;
    if bi == 0 {
        return Err(RuntimeError::ZeroDivisionError);
    }
    let a = pop(stack)?;
    let ai = a.as_int(heap)?;
    let q = match ai.checked_rem(bi) {
        Some(q) => q,
        None => 0,
    };
    stack.push(Value::Int(q));
    Ok(())
}

/// `Eq`: compare the rendered forms of the operands.
pub fn handle_eq(stack: &mut Vec<Value>, heap: &Heap) -> (r: Result<(), RuntimeError>)
    requires
        heap_wf(*heap),
        values_wf(old(stack)@, *heap),
    ensures
        values_wf(final(stack)@, *heap),
        match r {
            Ok(()) => old(stack)@.len() >= 2 && final(stack)@ == popped(old(stack)@, 2).push(
                Value::Bool(
                    str_of(opnd_a(old(stack)@), *heap) == str_of(opnd_b(old(stack)@), *heap),
                ),
            ),
            Err(e) => pop2_err(old(stack)@, e, final(stack)@),
        },
{
    let b = pop(stack)?;
    let a = pop(stack)?;
    let sb = b.to_string(heap);
    let sa = a.to_string(heap);
    let eq = text::str_eq(sa.as_str(), sb.as_str());
    stack.push(Value::Bool(eq));
    Ok(())
}

/// `Ne`: the negation of `Eq`.
pub fn handle_ne(stack: &mut Vec<Value>, heap: &Heap) -> (r: Result<(), RuntimeError>)
    requires
        heap_wf(*heap),
        values_wf(old(stack)@, *heap),
    ensures
        values_wf(final(stack)@, *heap),
        match r {
            Ok(()) => old(stack)@.len() >= 2 && final(stack)@ == popped(old(stack)@, 2).push(
                Value::Bool(
                    str_of(opnd_a(old(stack)@), *heap) != str_of(opnd_b(old(stack)@), *heap),
                ),
            ),
            Err(e) => pop2_err(old(stack)@, e, final(stack)@),
        },
{
    let b = pop(stack)?;
    let a = pop(stack)?;
    let sb = b.to_string(heap);
    let sa = a.to_string(heap);
    let eq = text::str_eq(sa.as_str(), sb.as_str());
    stack.push(Value::Bool(!eq));
    Ok(())
}

/// Do both operands order as strings?
pub open spec fn cmp_strings(s: Seq<Value>) -> bool {
    opnd_a(s) matches Value::Str(_) && opnd_b(s) matches Value::Str(_)
}

/// The operands' string views (when both are strings).
pub open spec fn cmp_str_a(s: Seq<Value>) -> Seq<char> {
    opnd_a(s)->Str_0@
}

pub open spec fn cmp_str_b(s: Seq<Value>) -> Seq<char> {
    opnd_b(s)->Str_0@
}

/// A comparison succeeds on two strings, or when both operands coerce to
/// integers (the left is coerced first).
pub open spec fn cmp_ok(s: Seq<Value>, h: Heap) -> bool {
    s.len() >= 2 && (cmp_strings(s) || bin_int_ok(s, h))
}

/// How a comparison fails: a missing operand, or (between non-strings) an
/// operand that does not coerce, the left one reported first.
pub open spec fn cmp_err(s: Seq<Value>, h: Heap, e: RuntimeError, sf: Seq<Value>) -> bool {
    ||| (s.len() == 0 && is_underflow(e) && sf == s)
    ||| (s.len() == 1 && is_underflow(e) && sf == popped(s, 1))
    ||| (s.len() >= 2 && !cmp_strings(s) && as_int_spec(opnd_a(s), h) is None && coerce_err(
        opnd_a(s),
        h,
        e,
    ) && sf == popped(s, 2))
    ||| (s.len() >= 2 && !cmp_strings(s) && as_int_spec(opnd_a(s), h) is Some && as_int_spec(
        opnd_b(s),
        h,
    ) is None && coerce_err(opnd_b(s), h, e) && sf == popped(s, 2))
}

/// `Lt`: lexicographic between strings, integral otherwise.
pub fn handle_lt(stack: &mut Vec<Value>, heap: &Heap) -> (r: Result<(), RuntimeError>)
    requires
        heap_wf(*heap),
        values_wf(old(stack)@, *heap),
    ensures
        values_wf(final(stack)@, *heap),
        match r {
            Ok(()) => cmp_ok(old(stack)@, *heap) && final(stack)@ == popped(old(stack)@, 2).push(
                Value::Bool(
                    if cmp_strings(old(stack)@) {
                        text::seq_lt(cmp_str_a(old(stack)@), cmp_str_b(old(stack)@))
                    } else {
                        bin_a(old(stack)@, *heap) < bin_b(old(stack)@, *heap)
                    },
                ),
            ),
            Err(e) => cmp_err(old(stack)@, *heap, e, final(stack)@),
        },
{
    let b = pop(stack)?;
    let a = pop(stack)?;
    let res: bool = match (&a, &b) {
        (Value::Str(sa), Value::Str(sb)) => text::str_lt(sa.as_str(), sb.as_str()),
        _ => {
            let ai = a.as_int(heap)?;
            let bi = b.as_int(heap)?;
            ai < bi
        },
    };
    stack.push(Value::Bool(res));
    Ok(())
}

/// `Le`: lexicographic-or-equal between strings, integral otherwise.
pub fn handle_le(stack: &mut Vec<Value>, heap: &Heap) -> (r: Result<(), RuntimeError>)
    requires
        heap_wf(*heap),
        values_wf(old(stack)@, *heap),
    ensures
        values_wf(final(stack)@, *heap),
        match r {
            Ok(()) => cmp_ok(old(stack)@, *heap) && final(stack)@ == popped(old(stack)@, 2).push(
                Value::Bool(
                    if cmp_strings(old(stack)@) {
                        text::seq_le(cmp_str_a(old(stack)@), cmp_str_b(old(stack)@))
                    } else {
                        bin_a(old(stack)@, *heap) <= bin_b(old(stack)@, *heap)
                    },
                ),
            ),
            Err(e) => cmp_err(old(stack)@, *heap, e, final(stack)@),
        },
{
    let b = pop(stack)?;
    let a = pop(stack)?;
    let res: bool = match (&a, &b) {
        (Value::Str(sa), Value::Str(sb)) => {
            text::str_lt(sa.as_str(), sb.as_str()) || text::str_eq(sa.as_str(), sb.as_str())
        },
        _ => {
            let ai = a.as_int(heap)?;
            let bi = b.as_int(heap)?;
            ai <= bi
        },
    };
    stack.push(Value::Bool(res));
    Ok(())
}

/// `Gt`: the strict order with the operands exchanged.
pub fn handle_gt(stack: &mut Vec<Value>, heap: &Heap) -> (r: Result<(), RuntimeError>)
    requires
        heap_wf(*heap),
        values_wf(old(stack)@, *heap),
    ensures
        values_wf(final(stack)@, *heap),
        match r {
            Ok(()) => cmp_ok(old(stack)@, *heap) && final(stack)@ == popped(old(stack)@, 2).push(
                Value::Bool(
                    if cmp_strings(old(stack)@) {
                        text::seq_lt(cmp_str_b(old(stack)@), cmp_str_a(old(stack)@))
                    } else {
                        bin_a(old(stack)@, *heap) > bin_b(old(stack)@, *heap)
                    },
                ),
            ),
            Err(e) => cmp_err(old(stack)@, *heap, e, final(stack)@),
        },
{
    let b = pop(stack)?;
    let a = pop(stack)?;
    let res: bool = match (&a, &b) {
        (Value::Str(sa), Value::Str(sb)) => text::str_lt(sb.as_str(), sa.as_str()),
        _ => {
            let ai = a.as_int(heap)?;
            let bi = b.as_int(heap)?;
            ai > bi
        },
    };
    stack.push(Value::Bool(res));
    Ok(())
}

/// `Ge`: order-or-equal with the operands exchanged.
pub fn handle_ge(stack: &mut Vec<Value>, heap: &Heap) -> (r: Result<(), RuntimeError>)
    requires
        heap_wf(*heap),
        values_wf(old(stack)@, *heap),
    ensures
        values_wf(final(stack)@, *heap),
        match r {
            Ok(()) => cmp_ok(old(stack)@, *heap) && final(stack)@ == popped(old(stack)@, 2).push(
                Value::Bool(
                    if cmp_strings(old(stack)@) {
                        text::seq_le(cmp_str_b(old(stack)@), cmp_str_a(old(stack)@))
                    } else {
                        bin_a(old(stack)@, *heap) >= bin_b(old(stack)@, *heap)
                    },
                ),
            ),
            Err(e) => cmp_err(old(stack)@, *heap, e, final(stack)@),
        },
{
    let b = pop(stack)?;
    let a = pop(stack)?;
    let res: bool = match (&a, &b) {
        (Value::Str(sa), Value::Str(sb)) => {
            text::str_lt(sb.as_str(), sa.as_str()) || text::str_eq(sb.as_str(), sa.as_str())
        },
        _ => {
            let ai = a.as_int(heap)?;
            let bi = b.as_int(heap)?;
            ai >= bi
        },
    };
    stack.push(Value::Bool(res));
    Ok(())
}

/// `BAnd`: bitwise and.
pub fn handle_band(stack: &mut Vec<Value>, heap: &Heap) -> (r: Result<(), RuntimeError>)
    requires
        heap_wf(*heap),
        values_wf(old(stack)@, *heap),
    ensures
        values_wf(final(stack)@, *heap),
        match r {
            Ok(()) => bin_int_ok(old(stack)@, *heap) && final(stack)@ == popped(
                old(stack)@,
                2,
            ).push(Value::Int(bin_a(old(stack)@, *heap) & bin_b(old(stack)@, *heap))),
            Err(e) => bin_int_err(old(stack)@, *heap, e, final(stack)@),
        },
{
    let b = pop(stack)?;
    let bi = b.as_int(heap)?;
    let a = pop(stack)?;
    let ai = a.as_int(heap)?;
    stack.push(Value::Int(ai & bi));
    Ok(())
}

/// `BOr`: bitwise or.
pub fn handle_bor(stack: &mut Vec<Value>, heap: &Heap) -> (r: Result<(), RuntimeError>)
    requires
        heap_wf(*heap),
        values_wf(old(stack)@, *heap),
    ensures
        values_wf(final(stack)@, *heap),
        match r {
            Ok(()) => bin_int_ok(old(stack)@, *heap) && final(stack)@ == popped(
                old(stack)@,
                2,
            ).push(Value::Int(bin_a(old(stack)@, *heap) | bin_b(old(stack)@, *heap))),
            Err(e) => bin_int_err(old(stack)@, *heap, e, final(stack)@),
        },
{
    let b = pop(stack)?;
    let bi = b.as_int(heap)?;
    let a = pop(stack)?;
    let ai = a.as_int(heap)?;
    stack.push(Value::Int(ai | bi));
    Ok(())
}

/// `BXor`: bitwise exclusive or.
pub fn handle_bxor(stack: &mut Vec<Value>, heap: &Heap) -> (r: Result<(), RuntimeError>)
    requires
        heap_wf(*heap),
        values_wf(old(stack)@, *heap),
    ensures
        values_wf(final(stack)@, *heap),
        match r {
            Ok(()) => bin_int_ok(old(stack)@, *heap) && final(stack)@ == popped(
                old(stack)@,
                2,
            ).push(Value::Int(bin_a(old(stack)@, *heap) ^ bin_b(old(stack)@, *heap))),
            Err(e) => bin_int_err(old(stack)@, *heap, e, final(stack)@),
        },
{
    let b = pop(stack)?;
    let bi = b.as_int(heap)?;
    let a = pop(stack)?;
    let ai = a.as_int(heap)?;
    stack.push(Value::Int(ai ^ bi));
    Ok(())
}

/// The left shift of the machine: the shift count is taken modulo 64.
pub open spec fn shl_vm(a: i64, b: i64) -> i64 {
    (((a as u64) << ((b as u64) % 64)) as i64)
}

/// The right shift of the machine: sign-propagating, count modulo 64.
pub open spec fn shr_vm(a: i64, b: i64) -> i64 {
    if a >= 0 {
        (((a as u64) >> ((b as u64) % 64)) as i64)
    } else {
        ((!((!(a as u64)) >> ((b as u64) % 64))) as i64)
    }
}

/// `Shl`: shift left.
pub fn handle_shl(stack: &mut Vec<Value>, heap: &Heap) -> (r: Result<(), RuntimeError>)
    requires
        heap_wf(*heap),
        values_wf(old(stack)@, *heap),
    ensures
        values_wf(final(stack)@, *heap),
        match r {
            Ok(()) => bin_int_ok(old(stack)@, *heap) && final(stack)@ == popped(
                old(stack)@,
                2,
            ).push(Value::Int(shl_vm(bin_a(old(stack)@, *heap), bin_b(old(stack)@, *heap)))),
            Err(e) => bin_int_err(old(stack)@, *heap, e, final(stack)@),
        },
{
    let b = pop(stack)?;
    let bi = b.as_int(heap)?;
    let a = pop(stack)?;
    let ai = a.as_int(heap)?;
    let amt = (bi as u64) % 64;
    stack.push(Value::Int(((ai as u64) << amt) as i64));
    Ok(())
}

/// `Shr`: shift right.
pub fn handle_shr(stack: &mut Vec<Value>, heap: &Heap) -> (r: Result<(), RuntimeError>)
    requires
        heap_wf(*heap),
        values_wf(old(stack)@, *heap),
    ensures
        values_wf(final(stack)@, *heap),
        match r {
            Ok(()) => bin_int_ok(old(stack)@, *heap) && final(stack)@ == popped(
                old(stack)@,
                2,
            ).push(Value::Int(shr_vm(bin_a(old(stack)@, *heap), bin_b(old(stack)@, *heap)))),
            Err(e) => bin_int_err(old(stack)@, *heap, e, final(stack)@),
        },
{
    let b = pop(stack)?;
    let bi = b.as_int(heap)?;
    let a = pop(stack)?;
    let ai = a.as_int(heap)?;
    let amt = (bi as u64) % 64;
    let res: i64 = if ai >= 0 {
        ((ai as u64) >> amt) as i64
    } else {
        (!((!(ai as u64)) >> amt)) as i64
    };
    stack.push(Value::Int(res));
    Ok(())
}

/// `And`: boolean conjunction over truthiness (not short-circuiting).
pub fn handle_and(stack: &mut Vec<Value>, heap: &Heap) -> (r: Result<(), RuntimeError>)
    requires
        heap_wf(*heap),
        values_wf(old(stack)@, *heap),
    ensures
        values_wf(final(stack)@, *heap),
        match r {
            Ok(()) => old(stack)@.len() >= 2 && final(stack)@ == popped(old(stack)@, 2).push(
                Value::Bool(
                    as_bool_spec(opnd_a(old(stack)@), *heap) && as_bool_spec(
                        opnd_b(old(stack)@),
                        *heap,
                    ),
                ),
            ),
            Err(e) => pop2_err(old(stack)@, e, final(stack)@),
        },
{
    let b = pop(stack)?;
    let a = pop(stack)?;
    let bb = b.as_bool(heap);
    let ab = a.as_bool(heap);
    stack.push(Value::Bool(ab && bb));
    Ok(())
}

/// `Or`: boolean disjunction over truthiness (not short-circuiting).
pub fn handle_or(stack: &mut Vec<Value>, heap: &Heap) -> (r: Result<(), RuntimeError>)
    requires
        heap_wf(*heap),
        values_wf(old(stack)@, *heap),
    ensures
        values_wf(final(stack)@, *heap),
        match r {
            Ok(()) => old(stack)@.len() >= 2 && final(stack)@ == popped(old(stack)@, 2).push(
                Value::Bool(
                    as_bool_spec(opnd_a(old(stack)@), *heap) || as_bool_spec(
                        opnd_b(old(stack)@),
                        *heap,
                    ),
                ),
            ),
            Err(e) => pop2_err(old(stack)@, e, final(stack)@),
        },
{
    let b = pop(stack)?;
    let a = pop(stack)?;
    let bb = b.as_bool(heap);
    let ab = a.as_bool(heap);
    stack.push(Value::Bool(ab || bb));
    Ok(())
}

/// How a unary integer operator fails.
pub open spec fn un_int_err(s: Seq<Value>, h: Heap, e: RuntimeError, sf: Seq<Value>) -> bool {
    ||| (s.len() == 0 && is_underflow(e) && sf == s)
    ||| (s.len() >= 1 && as_int_spec(opnd_b(s), h) is None && coerce_err(opnd_b(s), h, e) && sf
        == popped(s, 1))
}

/// The bitwise complement: in two's complement, `!v == -1 - v`.
pub open spec fn not_vm(v: i64) -> i64 {
    (-1 - v) as i64
}

/// Wrapping negation: the smallest integer is its own negation.
pub open spec fn neg_vm(v: i64) -> i64 {
    if v == i64::MIN {
        i64::MIN
    } else {
        (-v) as i64
    }
}

/// `Not`: bitwise complement of an integer.
pub fn handle_not(stack: &mut Vec<Value>, heap: &Heap) -> (r: Result<(), RuntimeError>)
    requires
        heap_wf(*heap),
        values_wf(old(stack)@, *heap),
    ensures
        values_wf(final(stack)@, *heap),
        match r {
            Ok(()) => old(stack)@.len() >= 1 && as_int_spec(opnd_b(old(stack)@), *heap) is Some
                && final(stack)@ == popped(old(stack)@, 1).push(
                Value::Int(not_vm(bin_b(old(stack)@, *heap))),
            ),
            Err(e) => un_int_err(old(stack)@, *heap, e, final(stack)@),
        },
{
    let v = pop(stack)?;
    let vi = v.as_int(heap)?;
    stack.push(Value::Int(-1 - vi));
    Ok(())
}

/// `Neg`: arithmetic negation of an integer (wrapping).
pub fn handle_neg(stack: &mut Vec<Value>, heap: &Heap) -> (r: Result<(), RuntimeError>)
    requires
        heap_wf(*heap),
        values_wf(old(stack)@, *heap),
    ensures
        values_wf(final(stack)@, *heap),
        match r {
            Ok(()) => old(stack)@.len() >= 1 && as_int_spec(opnd_b(old(stack)@), *heap) is Some
                && final(stack)@ == popped(old(stack)@, 1).push(
                Value::Int(neg_vm(bin_b(old(stack)@, *heap))),
            ),
            Err(e) => un_int_err(old(stack)@, *heap, e, final(stack)@),
        },
{
    let v = pop(stack)?;
    let vi = v.as_int(heap)?;
    let res: i64 = if vi == i64::MIN {
        i64::MIN
    } else {
        -vi
    };
    stack.push(Value::Int(res));
    Ok(())
}

/// `Add`: string concatenation when either side is a string (the other
/// side rendered), in-place extension when both are lists (the left list
/// keeps its identity), wrapping integer addition otherwise.
pub fn handle_add(stack: &mut Vec<Value>, heap: &mut Heap) -> (r: Result<(), RuntimeError>)
    requires
        heap_wf(*old(heap)),
        values_wf(old(stack)@, *old(heap)),
    ensures
        heap_wf(*final(heap)),
        crate::value::heap_extends(*final(heap), *old(heap)),
        values_wf(final(stack)@, *final(heap)),
        match r {
            Ok(()) => old(stack)@.len() >= 2 && add_post(
                old(stack)@,
                *old(heap),
                final(stack)@,
                *final(heap),
            ),
            Err(e) => *final(heap) == *old(heap) && add_err(
                old(stack)@,
                *old(heap),
                e,
                final(stack)@,
            ),
        },
{
    let ghost s0 = old(stack)@;
    let ghost h0 = *old(heap);
    let b = pop(stack)?;
    let a = pop(stack)?;
    proof {
        assert(value_wf(a, h0) && value_wf(b, h0));
    }
    match (a, b) {
        (Value::Str(sa), Value::Str(sb)) => {
            let mut s = sa;
            s.append(sb.as_str());
            stack.push(Value::Str(s));
            proof {
                assert(stack@.drop_last() == popped(s0, 2));
            }
        },
        (Value::Str(sa), bv) => {
            let mut s = sa;
            let rendered = bv.to_string(heap);
            s.append(rendered.as_str());
            stack.push(Value::Str(s));
            proof {
                assert(stack@.drop_last() == popped(s0, 2));
            }
        },
        (av, Value::Str(sb)) => {
            let mut s = av.to_string(heap);
            s.append(sb.as_str());
            stack.push(Value::Str(s));
            proof {
                assert(stack@.drop_last() == popped(s0, 2));
            }
        },
        (Value::List(la), Value::List(lb)) => {
            heap.list_extend(la, lb);
            stack.push(Value::List(la));
            proof {
                crate::value::lemma_values_wf_extends(popped(s0, 2), h0, *heap);
                assert(values_wf(stack@, *heap));
            }
        },
        (av, bv) => {
            let ai = av.as_int(heap)?;
            let bi = bv.as_int(heap)?;
            stack.push(Value::Int(ai.wrapping_add(bi)));
        },
    }
    Ok(())
}

/// What `Add` leaves on success: the stack with both operands replaced by
/// the sum, and — only for two lists — the left list extended in place.
pub open spec fn add_post(s: Seq<Value>, h: Heap, sf: Seq<Value>, hf: Heap) -> bool {
    let a = opnd_a(s);
    let b = opnd_b(s);
    match (a, b) {
        (Value::Str(sa), Value::Str(sb)) => hf == h && pushed_str(s, sf, sa@ + sb@),
        (Value::Str(sa), bv) => hf == h && pushed_str(s, sf, sa@ + str_of(bv, h)),
        (av, Value::Str(sb)) => hf == h && pushed_str(s, sf, str_of(av, h) + sb@),
        (Value::List(la), Value::List(lb)) => {
            &&& hf.lists@.len() == h.lists@.len()
            &&& hf.dicts@ == h.dicts@
            &&& hf.frozen@ == h.frozen@
            &&& (forall|j: int|
                0 <= j < hf.lists@.len() && j != la ==> hf.lists@[j] == h.lists@[j])
            &&& hf.lists@[la as int]@ == h.lists@[la as int]@ + h.lists@[lb as int]@
            &&& sf == popped(s, 2).push(Value::List(la))
        },
        (av, bv) => hf == h && bin_int_ok(s, h) && sf == popped(s, 2).push(
            Value::Int(bin_a(s, h).wrapping_add(bin_b(s, h))),
        ),
    }
}

/// The stack after two pops and the push of a string with view `x`.
pub open spec fn pushed_str(s: Seq<Value>, sf: Seq<Value>, x: Seq<char>) -> bool {
    &&& sf.len() == s.len() - 1
    &&& sf.drop_last() == popped(s, 2)
    &&& sf.last() matches Value::Str(ss) && ss@ == x
}

/// How `Add` fails: a missing operand, or (outside the string and list
/// cases) an operand that does not coerce, the left one reported first.
pub open spec fn add_err(s: Seq<Value>, h: Heap, e: RuntimeError, sf: Seq<Value>) -> bool {
    ||| (s.len() == 0 && is_underflow(e) && sf == s)
    ||| (s.len() == 1 && is_underflow(e) && sf == popped(s, 1))
    ||| (s.len() >= 2 && add_is_int_case(s) && as_int_spec(opnd_a(s), h) is None && coerce_err(
        opnd_a(s),
        h,
        e,
    ) && sf == popped(s, 2))
    ||| (s.len() >= 2 && add_is_int_case(s) && as_int_spec(opnd_a(s), h) is Some && as_int_spec(
        opnd_b(s),
        h,
    ) is None && coerce_err(opnd_b(s), h, e) && sf == popped(s, 2))
}

/// Does `Add` fall through to integer addition for these operands?
pub open spec fn add_is_int_case(s: Seq<Value>) -> bool {
    !(opnd_a(s) matches Value::Str(_)) && !(opnd_b(s) matches Value::Str(_)) && !(opnd_a(s) matches
    Value::List(_) && opnd_b(s) matches Value::List(_))
}

} // verus!
