//! The instruction set, function metadata and the binary bytecode codec.
//!
//! The on-disk image is, little-endian: the magic `"OMGB"`, a packed
//! version word, the function table (name, parameter names, entry address),
//! and the code stream of one-byte opcodes with their operands. Strings are
//! length-prefixed UTF-8 (a `u32` byte count, then the bytes).

use vstd::prelude::*;

use crate::error::{ErrorKind, RuntimeError};
use crate::text;
use vstd::string::{StringExecFns, StrSliceExecFns};

verus! {

/// A compiled function: parameter names in declaration order, and the index
/// of its first instruction within the decoded code vector.
pub struct Function {
    pub params: Vec<String>,
    pub address: usize,
}

/// The instruction set of the stack machine, one variant per opcode.
pub enum Instr {
    /// Push an integer literal.
    PushInt(i64),
    /// Push a string literal.
    PushStr(String),
    /// Push a boolean literal.
    PushBool(bool),
    /// Build a list from the top `n` stack values, in source order.
    BuildList(usize),
    /// Build a dictionary from the top `n` key/value pairs.
    BuildDict(usize),
    /// Load a variable (local first, then global).
    Load(String),
    /// Store to a variable per the local/global resolution rules.
    Store(String),
    Add,
    Sub,
    Mul,
    Div,
    Mod,
    Eq,
    Ne,
    Lt,
    Le,
    Gt,
    Ge,
    BAnd,
    BOr,
    BXor,
    Shl,
    Shr,
    And,
    Or,
    Not,
    Neg,
    /// `container[index]`.
    Index,
    /// `container[start:end]`.
    Slice,
    /// Unconditional jump to an absolute instruction index.
    Jump(usize),
    /// Pop a condition; jump when it is falsy.
    JumpIfFalse(usize),
    /// Call a named user function.
    Call(String),
    /// Tail-call a named user function, reusing the current frame.
    TailCall(String),
    /// Call a built-in by name with a fixed arity.
    CallBuiltin(String, usize),
    /// Discard the top of stack.
    Pop,
    /// Push the sentinel.
    PushNone,
    /// Return from the current function.
    Ret,
    /// Deliver the top of stack to the host's output sink.
    Emit,
    /// Stop execution.
    Halt,
    /// `container[index] = value`.
    StoreIndex,
    /// Read attribute of a dictionary-like value.
    Attr(String),
    /// Write attribute of a dictionary-like value.
    StoreAttr(String),
    /// Error on a falsy top of stack.
    Assert,
    /// Call through a function name on the stack; arity given here.
    CallValue(usize),
    /// Establish an exception handler at the given instruction index.
    SetupExcept(usize),
    /// Pop the most recent exception handler.
    PopBlock,
    /// Raise a runtime error of the given kind.
    Raise(ErrorKind),
}

/// One name/function binding of the function table.
pub struct FuncEntry {
    pub name: String,
    pub func: Function,
}

/// The function table: a mapping from unique names to functions.
pub struct FuncTable {
    pub entries: Vec<FuncEntry>,
}

/// The mapping a function-table entry list denotes; later entries win.
pub open spec fn func_entries_map(es: Seq<FuncEntry>) -> Map<Seq<char>, Function>
    decreases es.len(),
{
    if es.len() == 0 {
        Map::empty()
    } else {
        func_entries_map(es.drop_last()).insert(es.last().name@, es.last().func)
    }
}

/// No two entries share a name.
pub open spec fn func_names_unique(es: Seq<FuncEntry>) -> bool {
    forall|i: int, j: int| 0 <= i < j < es.len() ==> es[i].name@ != es[j].name@
}

proof fn lemma_func_map_lookup(es: Seq<FuncEntry>, i: int)
    requires
        func_names_unique(es),
        0 <= i < es.len(),
    ensures
        func_entries_map(es).contains_key(es[i].name@),
        func_entries_map(es)[es[i].name@] == es[i].func,
    decreases es.len(),
{
    if i < es.len() - 1 {
        lemma_func_map_lookup(es.drop_last(), i);
    }
}

proof fn lemma_func_map_missing(es: Seq<FuncEntry>, name: Seq<char>)
    requires
        forall|i: int| 0 <= i < es.len() ==> es[i].name@ != name,
    ensures
        !func_entries_map(es).contains_key(name),
    decreases es.len(),
{
    if es.len() > 0 {
        lemma_func_map_missing(es.drop_last(), name);
    }
}

impl FuncTable {
    /// The name-to-function mapping of the table.
    pub open spec fn view(&self) -> Map<Seq<char>, Function> {
        func_entries_map(self.entries@)
    }

    /// Each name stands at most once.
    pub open spec fn wf(&self) -> bool {
        func_names_unique(self.entries@)
    }

    /// An empty table.
    pub fn new() -> (r: FuncTable)
        ensures
            r@ == Map::<Seq<char>, Function>::empty(),
            r.wf(),
    {
        let r = FuncTable { entries: Vec::new() };
        proof {
            assert(r@ =~= Map::<Seq<char>, Function>::empty());
        }
        r
    }

    /// Bind `name` to `func`, replacing any previous binding.
    pub fn insert(&mut self, name: String, func: Function)
        requires
            old(self).wf(),
        ensures
            final(self).wf(),
            final(self)@ == old(self)@.insert(name@, func),
    {
        let n = self.entries.len();
        let mut i: usize = 0;
        while i < n
            invariant
                i <= n,
                n == self.entries@.len(),
                self.entries@ == old(self).entries@,
                func_names_unique(self.entries@),
                forall|j: int| 0 <= j < i ==> self.entries@[j].name@ != name@,
            decreases n - i,
        {
            if text::str_eq(self.entries[i].name.as_str(), name.as_str()) {
                self.entries[i] = FuncEntry { name, func };
                proof {
                    lemma_func_set_update(old(self).entries@, self.entries@, i as int, name@);
                }
                return ;
            }
            i = i + 1;
        }
        self.entries.push(FuncEntry { name, func });
        proof {
            lemma_func_set_push(old(self).entries@, self.entries@, name@);
        }
    }

    /// Look a function up by name.
    pub fn get(&self, name: &str) -> (r: Option<&Function>)
        requires
            self.wf(),
        ensures
            match r {
                Some(f) => self@.contains_key(name@) && *f == self@[name@],
                None => !self@.contains_key(name@),
            },
    {
        let n = self.entries.len();
        let mut i: usize = 0;
        while i < n
            invariant
                i <= n,
                n == self.entries@.len(),
                func_names_unique(self.entries@),
                forall|j: int| 0 <= j < i ==> self.entries@[j].name@ != name@,
            decreases n - i,
        {
            if text::str_eq(self.entries[i].name.as_str(), name) {
                proof {
                    lemma_func_map_lookup(self.entries@, i as int);
                }
                return Some(&self.entries[i].func);
            }
            i = i + 1;
        }
        proof {
            lemma_func_map_missing(self.entries@, name@);
        }
        None
    }
}

proof fn lemma_func_set_update(es0: Seq<FuncEntry>, es1: Seq<FuncEntry>, i: int, name: Seq<char>)
    requires
        func_names_unique(es0),
        0 <= i < es0.len(),
        es0[i].name@ == name,
        es1.len() == es0.len(),
        es1[i].name@ == name,
        forall|j: int| 0 <= j < es0.len() && j != i ==> es1[j] == es0[j],
    ensures
        func_names_unique(es1),
        func_entries_map(es1) == func_entries_map(es0).insert(name, es1[i].func),
    decreases es0.len(),
{
    assert forall|a: int, b: int| 0 <= a < b < es1.len() implies es1[a].name@ != es1[b].name@ by {
        assert(es0[a].name@ != es0[b].name@);
        assert(es1[a].name@ == es0[a].name@ && es1[b].name@ == es0[b].name@);
    }
    if i == es0.len() - 1 {
        assert(es1.drop_last() =~= es0.drop_last());
        assert(func_entries_map(es1) =~= func_entries_map(es0).insert(name, es1[i].func));
    } else {
        lemma_func_set_update(es0.drop_last(), es1.drop_last(), i, name);
        assert(es1.last() == es0.last());
        assert(es0.last().name@ != name);
        assert(func_entries_map(es1) =~= func_entries_map(es0).insert(name, es1[i].func));
    }
}

proof fn lemma_func_set_push(es0: Seq<FuncEntry>, es1: Seq<FuncEntry>, name: Seq<char>)
    requires
        func_names_unique(es0),
        forall|j: int| 0 <= j < es0.len() ==> es0[j].name@ != name,
        es1.len() == es0.len() + 1,
        es1.last().name@ == name,
        forall|j: int| 0 <= j < es0.len() ==> es1[j] == es0[j],
    ensures
        func_names_unique(es1),
        func_entries_map(es1) == func_entries_map(es0).insert(name, es1.last().func),
{
    assert(es1.drop_last() =~= es0);
}

// --- the binary image ---

/// The packed bytecode version this machine accepts:
/// `(major << 16) | (minor << 8) | patch`.
pub const BC_VERSION: u32 = (0 << 16) | (1 << 8) | 1;

/// The view of a function-table record as decoding sees it.
pub struct FuncRecV {
    pub name: Seq<char>,
    pub params: Seq<Seq<char>>,
    pub address: nat,
}

/// The view of an instruction: payload strings as character sequences,
/// payload counts and addresses as the numbers the image carries.
pub enum InstrV {
    PushInt(i64),
    PushStr(Seq<char>),
    PushBool(bool),
    BuildList(nat),
    BuildDict(nat),
    Load(Seq<char>),
    Store(Seq<char>),
    Add,
    Sub,
    Mul,
    Div,
    Mod,
    Eq,
    Ne,
    Lt,
    Le,
    Gt,
    Ge,
    BAnd,
    BOr,
    BXor,
    Shl,
    Shr,
    And,
    Or,
    Not,
    Neg,
    Index,
    Slice,
    Jump(nat),
    JumpIfFalse(nat),
    Call(Seq<char>),
    TailCall(Seq<char>),
    CallBuiltin(Seq<char>, nat),
    Pop,
    PushNone,
    Ret,
    Emit,
    Halt,
    StoreIndex,
    Attr(Seq<char>),
    StoreAttr(Seq<char>),
    Assert,
    CallValue(nat),
    SetupExcept(nat),
    PopBlock,
    Raise(ErrorKind),
}

/// The view of a decoded instruction.
pub open spec fn instr_view(i: Instr) -> InstrV {
    match i {
        Instr::PushInt(v) => InstrV::PushInt(v),
        Instr::PushStr(sv) => InstrV::PushStr(sv@),
        Instr::PushBool(b) => InstrV::PushBool(b),
        Instr::BuildList(n) => InstrV::BuildList(n as nat),
        Instr::BuildDict(n) => InstrV::BuildDict(n as nat),
        Instr::Load(sv) => InstrV::Load(sv@),
        Instr::Store(sv) => InstrV::Store(sv@),
        Instr::Add => InstrV::Add,
        Instr::Sub => InstrV::Sub,
        Instr::Mul => InstrV::Mul,
        Instr::Div => InstrV::Div,
        Instr::Mod => InstrV::Mod,
        Instr::Eq => InstrV::Eq,
        Instr::Ne => InstrV::Ne,
        Instr::Lt => InstrV::Lt,
        Instr::Le => InstrV::Le,
        Instr::Gt => InstrV::Gt,
        Instr::Ge => InstrV::Ge,
        Instr::BAnd => InstrV::BAnd,
        Instr::BOr => InstrV::BOr,
        Instr::BXor => InstrV::BXor,
        Instr::Shl => InstrV::Shl,
        Instr::Shr => InstrV::Shr,
        Instr::And => InstrV::And,
        Instr::Or => InstrV::Or,
        Instr::Not => InstrV::Not,
        Instr::Neg => InstrV::Neg,
        Instr::Index => InstrV::Index,
        Instr::Slice => InstrV::Slice,
        Instr::Jump(t) => InstrV::Jump(t as nat),
        Instr::JumpIfFalse(t) => InstrV::JumpIfFalse(t as nat),
        Instr::Call(sv) => InstrV::Call(sv@),
        Instr::TailCall(sv) => InstrV::TailCall(sv@),
        Instr::CallBuiltin(sv, n) => InstrV::CallBuiltin(sv@, n as nat),
        Instr::Pop => InstrV::Pop,
        Instr::PushNone => InstrV::PushNone,
        Instr::Ret => InstrV::Ret,
        Instr::Emit => InstrV::Emit,
        Instr::Halt => InstrV::Halt,
        Instr::StoreIndex => InstrV::StoreIndex,
        Instr::Attr(sv) => InstrV::Attr(sv@),
        Instr::StoreAttr(sv) => InstrV::StoreAttr(sv@),
        Instr::Assert => InstrV::Assert,
        Instr::CallValue(n) => InstrV::CallValue(n as nat),
        Instr::SetupExcept(t) => InstrV::SetupExcept(t as nat),
        Instr::PopBlock => InstrV::PopBlock,
        Instr::Raise(k) => InstrV::Raise(k),
    }
}

/// The views of a code vector.
pub open spec fn code_view(c: Seq<Instr>) -> Seq<InstrV> {
    c.map_values(|i: Instr| instr_view(i))
}

/// The views of a parameter list.
pub open spec fn params_view(ps: Seq<String>) -> Seq<Seq<char>> {
    ps.map_values(|p: String| p@)
}

// --- the mathematical decoder ---

/// One byte at `pos`, with the next position.
pub open spec fn dec_byte_at(d: Seq<u8>, pos: int) -> Option<(u8, int)> {
    if 0 <= pos < d.len() {
        Some((d[pos], pos + 1))
    } else {
        None
    }
}

/// A little-endian 32-bit word at `pos`.
pub open spec fn dec_u32_at(d: Seq<u8>, pos: int) -> Option<(nat, int)> {
    if 0 <= pos && pos + 4 <= d.len() {
        Some(
            (
                (d[pos] as nat) + (d[pos + 1] as nat) * 0x100 + (d[pos + 2] as nat) * 0x10000 + (
                d[pos + 3] as nat) * 0x1000000,
                pos + 4,
            ),
        )
    } else {
        None
    }
}

/// A little-endian 64-bit word at `pos`.
pub open spec fn dec_u64_at(d: Seq<u8>, pos: int) -> Option<(nat, int)> {
    if 0 <= pos && pos + 8 <= d.len() {
        Some(
            (
                (d[pos] as nat) + (d[pos + 1] as nat) * 0x100 + (d[pos + 2] as nat) * 0x10000 + (
                d[pos + 3] as nat) * 0x1000000 + (d[pos + 4] as nat) * 0x1_0000_0000 + (d[pos
                    + 5] as nat) * 0x100_0000_0000 + (d[pos + 6] as nat) * 0x1_0000_0000_0000 + (
                d[pos + 7] as nat) * 0x100_0000_0000_0000,
                pos + 8,
            ),
        )
    } else {
        None
    }
}

/// A length-prefixed UTF-8 string at `pos`: a 32-bit byte count, then that
/// many bytes, which must be valid UTF-8.
pub open spec fn dec_str_at(d: Seq<u8>, pos: int) -> Option<(Seq<char>, int)> {
    match dec_u32_at(d, pos) {
        Some((len, p1)) => {
            if p1 + len <= d.len() && vstd::utf8::valid_utf8(
                d.subrange(p1, p1 + len),
            ) {
                Some((vstd::utf8::decode_utf8(d.subrange(p1, p1 + len)), p1 + len as int))
            } else {
                None
            }
        },
        None => None,
    }
}

/// One instruction at `pos`: its opcode byte, then its operands.
#[verifier::opaque]
pub open spec fn dec_instr_at(d: Seq<u8>, pos: int) -> Option<(InstrV, int)> {
    match dec_byte_at(d, pos) {
        None => None,
        Some((op, p1)) => {
            if op == 0 {
                match dec_u64_at(d, p1) {
                    Some((v, p2)) => Some((InstrV::PushInt(((v as u64) as i64)), p2)),
                    None => None,
                }
            } else if op == 1 {
                match dec_str_at(d, p1) {
                    Some((sv, p2)) => Some((InstrV::PushStr(sv), p2)),
                    None => None,
                }
            } else if op == 2 {
                match dec_byte_at(d, p1) {
                    Some((b, p2)) => Some((InstrV::PushBool(b != 0), p2)),
                    None => None,
                }
            } else if op == 3 {
                match dec_u32_at(d, p1) {
                    Some((n, p2)) => Some((InstrV::BuildList(n), p2)),
                    None => None,
                }
            } else if op == 4 {
                match dec_u32_at(d, p1) {
                    Some((n, p2)) => Some((InstrV::BuildDict(n), p2)),
                    None => None,
                }
            } else if op == 5 {
                match dec_str_at(d, p1) {
                    Some((sv, p2)) => Some((InstrV::Load(sv), p2)),
                    None => None,
                }
            } else if op == 6 {
                match dec_str_at(d, p1) {
                    Some((sv, p2)) => Some((InstrV::Store(sv), p2)),
                    None => None,
                }
            } else if op == 7 {
                Some((InstrV::Add, p1))
            } else if op == 8 {
                Some((InstrV::Sub, p1))
            } else if op == 9 {
                Some((InstrV::Mul, p1))
            } else if op == 10 {
                Some((InstrV::Div, p1))
            } else if op == 11 {
                Some((InstrV::Mod, p1))
            } else if op == 12 {
                Some((InstrV::Eq, p1))
            } else if op == 13 {
                Some((InstrV::Ne, p1))
            } else if op == 14 {
                Some((InstrV::Lt, p1))
            } else if op == 15 {
                Some((InstrV::Le, p1))
            } else if op == 16 {
                Some((InstrV::Gt, p1))
            } else if op == 17 {
                Some((InstrV::Ge, p1))
            } else if op == 18 {
                Some((InstrV::BAnd, p1))
            } else if op == 19 {
                Some((InstrV::BOr, p1))
            } else if op == 20 {
                Some((InstrV::BXor, p1))
            } else if op == 21 {
                Some((InstrV::Shl, p1))
            } else if op == 22 {
                Some((InstrV::Shr, p1))
            } else if op == 23 {
                Some((InstrV::And, p1))
            } else if op == 24 {
                Some((InstrV::Or, p1))
            } else if op == 25 {
                Some((InstrV::Not, p1))
            } else if op == 26 {
                Some((InstrV::Neg, p1))
            } else if op == 27 {
                Some((InstrV::Index, p1))
            } else if op == 28 {
                Some((InstrV::Slice, p1))
            } else if op == 29 {
                match dec_u32_at(d, p1) {
                    Some((n, p2)) => Some((InstrV::Jump(n), p2)),
                    None => None,
                }
            } else if op == 30 {
                match dec_u32_at(d, p1) {
                    Some((n, p2)) => Some((InstrV::JumpIfFalse(n), p2)),
                    None => None,
                }
            } else if op == 31 {
                match dec_str_at(d, p1) {
                    Some((sv, p2)) => Some((InstrV::Call(sv), p2)),
                    None => None,
                }
            } else if op == 32 {
                match dec_str_at(d, p1) {
                    Some((sv, p2)) => Some((InstrV::TailCall(sv), p2)),
                    None => None,
                }
            } else if op == 33 {
                match dec_str_at(d, p1) {
                    Some((sv, p2)) => match dec_u32_at(d, p2) {
                        Some((n, p3)) => Some((InstrV::CallBuiltin(sv, n), p3)),
                        None => None,
                    },
                    None => None,
                }
            } else if op == 34 {
                Some((InstrV::Pop, p1))
            } else if op == 35 {
                Some((InstrV::PushNone, p1))
            } else if op == 36 {
                Some((InstrV::Ret, p1))
            } else if op == 37 {
                Some((InstrV::Emit, p1))
            } else if op == 38 {
                Some((InstrV::Halt, p1))
            } else if op == 39 {
                Some((InstrV::StoreIndex, p1))
            } else if op == 40 {
                match dec_str_at(d, p1) {
                    Some((sv, p2)) => Some((InstrV::Attr(sv), p2)),
                    None => None,
                }
            } else if op == 41 {
                match dec_str_at(d, p1) {
                    Some((sv, p2)) => Some((InstrV::StoreAttr(sv), p2)),
                    None => None,
                }
            } else if op == 42 {
                Some((InstrV::Assert, p1))
            } else if op == 43 {
                match dec_u32_at(d, p1) {
                    Some((n, p2)) => Some((InstrV::CallValue(n), p2)),
                    None => None,
                }
            } else if op == 44 {
                match dec_u32_at(d, p1) {
                    Some((n, p2)) => Some((InstrV::SetupExcept(n), p2)),
                    None => None,
                }
            } else if op == 45 {
                Some((InstrV::PopBlock, p1))
            } else if op == 46 {
                match dec_byte_at(d, p1) {
                    Some((kb, p2)) => {
                        if kb <= 5 {
                            Some(
                                (
                                    InstrV::Raise(
                                        if kb == 0 {
                                            ErrorKind::Generic
                                        } else if kb == 1 {
                                            ErrorKind::Syntax
                                        } else if kb == 2 {
                                            ErrorKind::Type
                                        } else if kb == 3 {
                                            ErrorKind::UndefinedIdent
                                        } else if kb == 4 {
                                            ErrorKind::Value
                                        } else {
                                            ErrorKind::ModuleImport
                                        },
                                    ),
                                    p2,
                                ),
                            )
                        } else {
                            None
                        }
                    },
                    None => None,
                }
            } else if op == 47 {
                Some((InstrV::Raise(ErrorKind::Syntax), p1))
            } else if op == 48 {
                Some((InstrV::Raise(ErrorKind::Type), p1))
            } else if op == 49 {
                Some((InstrV::Raise(ErrorKind::UndefinedIdent), p1))
            } else if op == 50 {
                Some((InstrV::Raise(ErrorKind::Value), p1))
            } else if op == 51 {
                Some((InstrV::Raise(ErrorKind::ModuleImport), p1))
            } else {
                None
            }
        },
    }
}

/// `k` instructions starting at `pos`.
pub open spec fn dec_code_at(d: Seq<u8>, pos: int, k: nat) -> Option<(Seq<InstrV>, int)>
    decreases k,
{
    if k == 0 {
        Some((Seq::empty(), pos))
    } else {
        match dec_instr_at(d, pos) {
            Some((iv, p1)) => match dec_code_at(d, p1, (k - 1) as nat) {
                Some((rest, p2)) => Some((seq![iv] + rest, p2)),
                None => None,
            },
            None => None,
        }
    }
}

/// `k` parameter names starting at `pos`.
pub open spec fn dec_params_at(d: Seq<u8>, pos: int, k: nat) -> Option<(Seq<Seq<char>>, int)>
    decreases k,
{
    if k == 0 {
        Some((Seq::empty(), pos))
    } else {
        match dec_str_at(d, pos) {
            Some((sv, p1)) => match dec_params_at(d, p1, (k - 1) as nat) {
                Some((rest, p2)) => Some((seq![sv] + rest, p2)),
                None => None,
            },
            None => None,
        }
    }
}

/// One function record at `pos`: name, parameter count, parameter names,
/// entry address.
pub open spec fn dec_rec_at(d: Seq<u8>, pos: int) -> Option<(FuncRecV, int)> {
    match dec_str_at(d, pos) {
        Some((name, p1)) => match dec_u32_at(d, p1) {
            Some((pcount, p2)) => match dec_params_at(d, p2, pcount) {
                Some((params, p3)) => match dec_u32_at(d, p3) {
                    Some((addr, p4)) => Some((FuncRecV { name, params, address: addr }, p4)),
                    None => None,
                },
                None => None,
            },
            None => None,
        },
        None => None,
    }
}

/// `k` function records starting at `pos`.
pub open spec fn dec_recs_at(d: Seq<u8>, pos: int, k: nat) -> Option<(Seq<FuncRecV>, int)>
    decreases k,
{
    if k == 0 {
        Some((Seq::empty(), pos))
    } else {
        match dec_rec_at(d, pos) {
            Some((rec, p1)) => match dec_recs_at(d, p1, (k - 1) as nat) {
                Some((rest, p2)) => Some((seq![rec] + rest, p2)),
                None => None,
            },
            None => None,
        }
    }
}

/// Does every record's entry address lie within a code stream of `n`
/// instructions?
pub open spec fn recs_addrs_ok(recs: Seq<FuncRecV>, n: nat) -> bool {
    forall|i: int| 0 <= i < recs.len() ==> (#[trigger] recs[i]).address < n
}

/// The whole image: the magic `"OMGB"`, the exact version word, the
/// function table, and the code stream; every declared entry address must
/// lie within the instruction vector. Bytes after the decoded stream are
/// ignored, as they always were.
pub open spec fn dec_image(d: Seq<u8>) -> Option<(Seq<FuncRecV>, Seq<InstrV>, int)> {
    if d.len() >= 4 && d[0] == 79 && d[1] == 77 && d[2] == 71 && d[3] == 66 {
        match dec_u32_at(d, 4) {
            Some((ver, p1)) => {
                if ver == BC_VERSION {
                    match dec_u32_at(d, p1) {
                        Some((fc, p2)) => match dec_recs_at(d, p2, fc) {
                            Some((recs, p3)) => match dec_u32_at(d, p3) {
                                Some((cl, p4)) => {
                                    if recs_addrs_ok(recs, cl) {
                                        match dec_code_at(d, p4, cl) {
                                            Some((ivs, p5)) => Some((recs, ivs, p5)),
                                            None => None,
                                        }
                                    } else {
                                        None
                                    }
                                },
                                None => None,
                            },
                            None => None,
                        },
                        None => None,
                    }
                } else {
                    None
                }
            },
            None => None,
        }
    } else {
        None
    }
}

/// A value of the table denoted by in-range records has an in-range
/// address.
proof fn lemma_recs_map_addrs(recs: Seq<FuncRecV>, n: nat, k: Seq<char>)
    requires
        recs_addrs_ok(recs, n),
        recs_map(recs).contains_key(k),
    ensures
        recs_map(recs)[k].address < n,
    decreases recs.len(),
{
    if recs.len() > 0 && recs.last().name != k {
        assert(recs_addrs_ok(recs.drop_last(), n)) by {
            assert(forall|i: int|
                0 <= i < recs.drop_last().len() ==> recs.drop_last()[i] == recs[i]);
        }
        lemma_recs_map_addrs(recs.drop_last(), n, k);
    }
}

/// The function table a record list denotes: later records win a name.
pub open spec fn recs_map(recs: Seq<FuncRecV>) -> Map<Seq<char>, FuncRecV>
    decreases recs.len(),
{
    if recs.len() == 0 {
        Map::empty()
    } else {
        recs_map(recs.drop_last()).insert(recs.last().name, recs.last())
    }
}

// --- the executable decoder ---

/// Relies on String::from_utf8: it succeeds exactly on valid UTF-8 and
/// yields the string whose bytes are the input.
#[verifier::external_body]
fn bytes_to_string(v: Vec<u8>) -> (r: Option<String>)
    ensures
        match r {
            Some(s) => vstd::utf8::valid_utf8(v@) && s@ == vstd::utf8::decode_utf8(v@),
            None => !vstd::utf8::valid_utf8(v@),
        },
{
    match String::from_utf8(v) {
        Ok(s) => Some(s),
        Err(_) => None,
    }
}

/// Read one byte and advance.
fn read_byte(data: &[u8], idx: &mut usize) -> (r: Option<u8>)
    requires
        *old(idx) <= data@.len(),
    ensures
        *final(idx) <= data@.len(),
        match r {
            Some(b) => dec_byte_at(data@, *old(idx) as int) == Some((b, *final(idx) as int)),
            None => dec_byte_at(data@, *old(idx) as int) is None && *final(idx) == *old(idx),
        },
{
    if *idx < data.len() {
        let b = *vstd::slice::slice_index_get(data, *idx);
        *idx = *idx + 1;
        Some(b)
    } else {
        None
    }
}

/// Read a little-endian 32-bit word and advance.
fn read_u32(data: &[u8], idx: &mut usize) -> (r: Option<u32>)
    requires
        *old(idx) <= data@.len(),
    ensures
        *final(idx) <= data@.len(),
        match r {
            Some(v) => dec_u32_at(data@, *old(idx) as int) == Some((v as nat, *final(idx) as int)),
            None => dec_u32_at(data@, *old(idx) as int) is None && *final(idx) == *old(idx),
        },
{
    if data.len() - *idx >= 4 {
        let p = *idx;
        let b0 = *vstd::slice::slice_index_get(data, p) as u32;
        let b1 = *vstd::slice::slice_index_get(data, p + 1) as u32;
        let b2 = *vstd::slice::slice_index_get(data, p + 2) as u32;
        let b3 = *vstd::slice::slice_index_get(data, p + 3) as u32;
        *idx = p + 4;
        Some(b0 + b1 * 0x100 + b2 * 0x10000 + b3 * 0x1000000)
    } else {
        None
    }
}

/// Read a little-endian 64-bit word as a signed integer and advance.
fn read_i64(data: &[u8], idx: &mut usize) -> (r: Option<i64>)
    requires
        *old(idx) <= data@.len(),
    ensures
        *final(idx) <= data@.len(),
        match r {
            Some(v) => dec_u64_at(data@, *old(idx) as int) matches Some(t) && v == ((t.0 as u64)
                as i64) && t.1 == *final(idx) as int,
            None => dec_u64_at(data@, *old(idx) as int) is None && *final(idx) == *old(idx),
        },
{
    if data.len() - *idx >= 8 {
        let p = *idx;
        let b0 = *vstd::slice::slice_index_get(data, p) as u64;
        let b1 = *vstd::slice::slice_index_get(data, p + 1) as u64;
        let b2 = *vstd::slice::slice_index_get(data, p + 2) as u64;
        let b3 = *vstd::slice::slice_index_get(data, p + 3) as u64;
        let b4 = *vstd::slice::slice_index_get(data, p + 4) as u64;
        let b5 = *vstd::slice::slice_index_get(data, p + 5) as u64;
        let b6 = *vstd::slice::slice_index_get(data, p + 6) as u64;
        let b7 = *vstd::slice::slice_index_get(data, p + 7) as u64;
        *idx = p + 8;
        let v: u64 = b0 + b1 * 0x100 + b2 * 0x10000 + b3 * 0x1000000 + b4 * 0x1_0000_0000 + b5
            * 0x100_0000_0000 + b6 * 0x1_0000_0000_0000 + b7 * 0x100_0000_0000_0000;
        Some(v as i64)
    } else {
        None
    }
}

/// Read a length-prefixed UTF-8 string and advance.
fn read_string(data: &[u8], idx: &mut usize) -> (r: Option<String>)
    requires
        *old(idx) <= data@.len(),
    ensures
        *final(idx) <= data@.len(),
        match r {
            Some(sv) => dec_str_at(data@, *old(idx) as int) == Some(
                (sv@, *final(idx) as int),
            ),
            None => dec_str_at(data@, *old(idx) as int) is None,
        },
{
    let len32 = match read_u32(data, idx) {
        Some(v) => v,
        None => {
            return None;
        },
    };
    let len = len32 as usize;
    if data.len() - *idx < len {
        return None;
    }
    let start = *idx;
    let mut bytes: Vec<u8> = Vec::new();
    let mut i: usize = 0;
    while i < len
        invariant
            i <= len,
            start + len <= data@.len(),
            data@.len() <= usize::MAX,
            bytes@ =~= data@.subrange(start as int, start + i as int),
        decreases len - i,
    {
        bytes.push(*vstd::slice::slice_index_get(data, start + i));
        i = i + 1;
        proof {
            assert(bytes@ =~= data@.subrange(start as int, start + i as int));
        }
    }
    *idx = start + len;
    match bytes_to_string(bytes) {
        Some(sv) => Some(sv),
        None => None,
    }
}

/// Read one instruction and advance.
#[verifier::loop_isolation(false)]
fn read_instr(data: &[u8], idx: &mut usize) -> (r: Option<Instr>)
    requires
        *old(idx) <= data@.len(),
    ensures
        *final(idx) <= data@.len(),
        match r {
            Some(ins) => dec_instr_at(data@, *old(idx) as int) == Some(
                (instr_view(ins), *final(idx) as int),
            ),
            None => dec_instr_at(data@, *old(idx) as int) is None,
        },
{
    proof {
        reveal(dec_instr_at);
    }
    let op = match read_byte(data, idx) {
        Some(b) => b,
        None => {
            return None;
        },
    };
    if op == 0 {
        match read_i64(data, idx) {
            Some(v) => Some(Instr::PushInt(v)),
            None => None,
        }
    } else if op == 1 {
        match read_string(data, idx) {
            Some(sv) => Some(Instr::PushStr(sv)),
            None => None,
        }
    } else if op == 2 {
        match read_byte(data, idx) {
            Some(b) => Some(Instr::PushBool(b != 0)),
            None => None,
        }
    } else if op == 3 {
        match read_u32(data, idx) {
            Some(n) => Some(Instr::BuildList(n as usize)),
            None => None,
        }
    } else if op == 4 {
        match read_u32(data, idx) {
            Some(n) => Some(Instr::BuildDict(n as usize)),
            None => None,
        }
    } else if op == 5 {
        match read_string(data, idx) {
            Some(sv) => Some(Instr::Load(sv)),
            None => None,
        }
    } else if op == 6 {
        match read_string(data, idx) {
            Some(sv) => Some(Instr::Store(sv)),
            None => None,
        }
    } else if op == 7 {
        Some(Instr::Add)
    } else if op == 8 {
        Some(Instr::Sub)
    } else if op == 9 {
        Some(Instr::Mul)
    } else if op == 10 {
        Some(Instr::Div)
    } else if op == 11 {
        Some(Instr::Mod)
    } else if op == 12 {
        Some(Instr::Eq)
    } else if op == 13 {
        Some(Instr::Ne)
    } else if op == 14 {
        Some(Instr::Lt)
    } else if op == 15 {
        Some(Instr::Le)
    } else if op == 16 {
        Some(Instr::Gt)
    } else if op == 17 {
        Some(Instr::Ge)
    } else if op == 18 {
        Some(Instr::BAnd)
    } else if op == 19 {
        Some(Instr::BOr)
    } else if op == 20 {
        Some(Instr::BXor)
    } else if op == 21 {
        Some(Instr::Shl)
    } else if op == 22 {
        Some(Instr::Shr)
    } else if op == 23 {
        Some(Instr::And)
    } else if op == 24 {
        Some(Instr::Or)
    } else if op == 25 {
        Some(Instr::Not)
    } else if op == 26 {
        Some(Instr::Neg)
    } else if op == 27 {
        Some(Instr::Index)
    } else if op == 28 {
        Some(Instr::Slice)
    } else if op == 29 {
        match read_u32(data, idx) {
            Some(n) => Some(Instr::Jump(n as usize)),
            None => None,
        }
    } else if op == 30 {
        match read_u32(data, idx) {
            Some(n) => Some(Instr::JumpIfFalse(n as usize)),
            None => None,
        }
    } else if op == 31 {
        match read_string(data, idx) {
            Some(sv) => Some(Instr::Call(sv)),
            None => None,
        }
    } else if op == 32 {
        match read_string(data, idx) {
            Some(sv) => Some(Instr::TailCall(sv)),
            None => None,
        }
    } else if op == 33 {
        match read_string(data, idx) {
            Some(sv) => match read_u32(data, idx) {
                Some(n) => Some(Instr::CallBuiltin(sv, n as usize)),
                None => None,
            },
            None => None,
        }
    } else if op == 34 {
        Some(Instr::Pop)
    } else if op == 35 {
        Some(Instr::PushNone)
    } else if op == 36 {
        Some(Instr::Ret)
    } else if op == 37 {
        Some(Instr::Emit)
    } else if op == 38 {
        Some(Instr::Halt)
    } else if op == 39 {
        Some(Instr::StoreIndex)
    } else if op == 40 {
        match read_string(data, idx) {
            Some(sv) => Some(Instr::Attr(sv)),
            None => None,
        }
    } else if op == 41 {
        match read_string(data, idx) {
            Some(sv) => Some(Instr::StoreAttr(sv)),
            None => None,
        }
    } else if op == 42 {
        Some(Instr::Assert)
    } else if op == 43 {
        match read_u32(data, idx) {
            Some(n) => Some(Instr::CallValue(n as usize)),
            None => None,
        }
    } else if op == 44 {
        match read_u32(data, idx) {
            Some(n) => Some(Instr::SetupExcept(n as usize)),
            None => None,
        }
    } else if op == 45 {
        Some(Instr::PopBlock)
    } else if op == 46 {
        match read_byte(data, idx) {
            Some(kb) => match ErrorKind::from_code(kb) {
                Some(k) => Some(Instr::Raise(k)),
                None => None,
            },
            None => None,
        }
    } else if op == 47 {
        Some(Instr::Raise(ErrorKind::Syntax))
    } else if op == 48 {
        Some(Instr::Raise(ErrorKind::Type))
    } else if op == 49 {
        Some(Instr::Raise(ErrorKind::UndefinedIdent))
    } else if op == 50 {
        Some(Instr::Raise(ErrorKind::Value))
    } else if op == 51 {
        Some(Instr::Raise(ErrorKind::ModuleImport))
    } else {
        None
    }
}

/// Append `rest` to already-decoded records.
pub open spec fn compose_recs(done: Seq<FuncRecV>, rest: Option<(Seq<FuncRecV>, int)>) -> Option<
    (Seq<FuncRecV>, int),
> {
    match rest {
        Some((r, p)) => Some((done + r, p)),
        None => None,
    }
}

/// Append `rest` to already-decoded instructions.
pub open spec fn compose_code(done: Seq<InstrV>, rest: Option<(Seq<InstrV>, int)>) -> Option<
    (Seq<InstrV>, int),
> {
    match rest {
        Some((r, p)) => Some((done + r, p)),
        None => None,
    }
}

/// Append `rest` to already-decoded parameter names.
pub open spec fn compose_params(done: Seq<Seq<char>>, rest: Option<(Seq<Seq<char>>, int)>) -> Option<
    (Seq<Seq<char>>, int),
> {
    match rest {
        Some((r, p)) => Some((done + r, p)),
        None => None,
    }
}

/// Read `count` parameter names and advance.
fn read_params(data: &[u8], idx: &mut usize, count: usize) -> (r: Option<Vec<String>>)
    requires
        *old(idx) <= data@.len(),
    ensures
        *final(idx) <= data@.len(),
        match r {
            Some(ps) => dec_params_at(data@, *old(idx) as int, count as nat) == Some(
                (params_view(ps@), *final(idx) as int),
            ),
            None => dec_params_at(data@, *old(idx) as int, count as nat) is None,
        },
{
    let ghost pos0 = *idx;
    let mut ps: Vec<String> = Vec::new();
    let mut i: usize = 0;
    proof {
        assert(params_view(ps@) =~= Seq::<Seq<char>>::empty());
        if dec_params_at(data@, pos0 as int, count as nat) is Some {
            assert(params_view(ps@) + dec_params_at(
                data@,
                pos0 as int,
                count as nat,
            )->Some_0.0 =~= dec_params_at(data@, pos0 as int, count as nat)->Some_0.0);
        }
    }
    while i < count
        invariant
            i <= count,
            *idx <= data@.len(),
            pos0 == *old(idx),
            ps@.len() == i,
            dec_params_at(data@, pos0 as int, count as nat) == compose_params(
                params_view(ps@),
                dec_params_at(data@, *idx as int, (count - i) as nat),
            ),
        decreases count - i,
    {
        let ghost pos_cur = *idx;
        let ghost ps_prev = ps@;
        let sv = match read_string(data, idx) {
            Some(sv) => sv,
            None => {
                return None;
            },
        };
        ps.push(sv);
        i = i + 1;
        proof {
            let rest1 = dec_params_at(data@, *idx as int, (count - i) as nat);
            if rest1 is Some {
                assert(params_view(ps@) =~= params_view(ps_prev).push(sv@));
                assert(params_view(ps@) + rest1->Some_0.0 =~= params_view(ps_prev) + (seq![sv@]
                    + rest1->Some_0.0));
            }
        }
    }
    proof {
        assert(params_view(ps@) + Seq::<Seq<char>>::empty() =~= params_view(ps@));
    }
    Some(ps)
}

/// Read one function record and advance.
fn read_rec(data: &[u8], idx: &mut usize) -> (r: Option<(String, Function)>)
    requires
        *old(idx) <= data@.len(),
    ensures
        *final(idx) <= data@.len(),
        match r {
            Some(nf) => dec_rec_at(data@, *old(idx) as int) == Some(
                (
                    FuncRecV {
                        name: nf.0@,
                        params: params_view(nf.1.params@),
                        address: nf.1.address as nat,
                    },
                    *final(idx) as int,
                ),
            ),
            None => dec_rec_at(data@, *old(idx) as int) is None,
        },
{
    let name = match read_string(data, idx) {
        Some(sv) => sv,
        None => {
            return None;
        },
    };
    let pcount = match read_u32(data, idx) {
        Some(v) => v,
        None => {
            return None;
        },
    };
    let params = match read_params(data, idx, pcount as usize) {
        Some(ps) => ps,
        None => {
            return None;
        },
    };
    let address = match read_u32(data, idx) {
        Some(v) => v,
        None => {
            return None;
        },
    };
    Some((name, Function { params, address: address as usize }))
}

/// Decode a binary bytecode image into the instruction stream and the
/// function table. Exactly the images the mathematical decoder
/// [`dec_image`] accepts are accepted — the magic and version must match,
/// every string must be valid UTF-8, every opcode known, nothing truncated,
/// every declared entry address within the instruction vector — and the
/// result carries precisely the decoded instructions and records (of
/// records sharing a name, the later wins).
pub fn parse_bytecode(data: &[u8]) -> (r: Result<(Vec<Instr>, FuncTable), RuntimeError>)
    ensures
        match r {
            Ok(cf) => dec_image(data@) matches Some(t) && {
                &&& code_view(cf.0@) == t.1
                &&& cf.1.wf()
                &&& (forall|k: Seq<char>|
                    #[trigger] cf.1@.contains_key(k) ==> recs_map(t.0).contains_key(k)
                        && params_view(cf.1@[k].params@) == recs_map(t.0)[k].params
                        && cf.1@[k].address as nat == recs_map(t.0)[k].address)
                &&& (forall|k: Seq<char>|
                    #[trigger] recs_map(t.0).contains_key(k) ==> cf.1@.contains_key(k))
                &&& (forall|k: Seq<char>|
                    #[trigger] cf.1@.contains_key(k) ==> cf.1@[k].address < cf.0@.len())
            },
            Err(e) => dec_image(data@) is None && (e matches RuntimeError::SyntaxError(m) && m@
                == "malformed bytecode image"@),
        },
{
    let mut idx: usize = 0;
    if data.len() < 4 {
        return Err(RuntimeError::SyntaxError(String::from_str("malformed bytecode image")));
    }
    let m0 = *vstd::slice::slice_index_get(data, 0);
    let m1 = *vstd::slice::slice_index_get(data, 1);
    let m2 = *vstd::slice::slice_index_get(data, 2);
    let m3 = *vstd::slice::slice_index_get(data, 3);
    if !(m0 == 79 && m1 == 77 && m2 == 71 && m3 == 66) {
        return Err(RuntimeError::SyntaxError(String::from_str("malformed bytecode image")));
    }
    idx = 4;
    let ver = match read_u32(data, &mut idx) {
        Some(v) => v,
        None => {
            return Err(RuntimeError::SyntaxError(String::from_str("malformed bytecode image")));
        },
    };
    if ver != BC_VERSION {
        return Err(RuntimeError::SyntaxError(String::from_str("malformed bytecode image")));
    }
    let fc32 = match read_u32(data, &mut idx) {
        Some(v) => v,
        None => {
            return Err(RuntimeError::SyntaxError(String::from_str("malformed bytecode image")));
        },
    };
    let fc = fc32 as usize;
    let ghost pos_recs = idx as int;
    let mut funcs = FuncTable::new();
    let mut addrs: Vec<usize> = Vec::new();
    let ghost mut recs_done = Seq::<FuncRecV>::empty();
    let mut i: usize = 0;
    proof {
        if dec_recs_at(data@, pos_recs, fc as nat) is Some {
            assert(recs_done + dec_recs_at(data@, pos_recs, fc as nat)->Some_0.0 =~= dec_recs_at(
                data@,
                pos_recs,
                fc as nat,
            )->Some_0.0);
        }
        assert(recs_map(recs_done) =~= Map::<Seq<char>, FuncRecV>::empty());
    }
    while i < fc
        invariant
            i <= fc,
            idx <= data@.len(),
            data@.len() >= 4,
            data@[0] == 79 && data@[1] == 77 && data@[2] == 71 && data@[3] == 66,
            dec_u32_at(data@, 4) == Some(((BC_VERSION as nat), 8int)),
            dec_u32_at(data@, 8) == Some(((fc as nat), pos_recs)),
            funcs.wf(),
            addrs@.len() == recs_done.len(),
            forall|j: int|
                0 <= j < recs_done.len() ==> (#[trigger] addrs@[j]) as nat == recs_done[j].address,
            dec_recs_at(data@, pos_recs, fc as nat) == compose_recs(
                recs_done,
                dec_recs_at(data@, idx as int, (fc - i) as nat),
            ),
            forall|k: Seq<char>|
                #[trigger] funcs@.contains_key(k) ==> recs_map(recs_done).contains_key(k)
                    && params_view(funcs@[k].params@) == recs_map(recs_done)[k].params
                    && funcs@[k].address as nat == recs_map(recs_done)[k].address,
            forall|k: Seq<char>|
                #[trigger] recs_map(recs_done).contains_key(k) ==> funcs@.contains_key(k),
        decreases fc - i,
    {
        let ghost done_prev = recs_done;
        let (nm, f) = match read_rec(data, &mut idx) {
            Some(nf) => nf,
            None => {
                return Err(
                    RuntimeError::SyntaxError(String::from_str("malformed bytecode image")),
                );
            },
        };
        let ghost rec = FuncRecV {
            name: nm@,
            params: params_view(f.params@),
            address: f.address as nat,
        };
        addrs.push(f.address);
        funcs.insert(nm, f);
        proof {
            recs_done = recs_done.push(rec);
            assert(recs_done.drop_last() =~= done_prev);
            assert(recs_map(recs_done) == recs_map(done_prev).insert(rec.name, rec));
            let rest1 = dec_recs_at(data@, idx as int, (fc - i - 1) as nat);
            if rest1 is Some {
                assert(recs_done + rest1->Some_0.0 =~= done_prev + (seq![rec] + rest1->Some_0.0));
            }
        }
        i = i + 1;
    }
    proof {
        assert(recs_done + Seq::<FuncRecV>::empty() =~= recs_done);
    }
    let ghost pos_cl = idx as int;
    let cl32 = match read_u32(data, &mut idx) {
        Some(v) => v,
        None => {
            return Err(RuntimeError::SyntaxError(String::from_str("malformed bytecode image")));
        },
    };
    let cl = cl32 as usize;
    let ghost pos_code = idx as int;
    proof {
        assert(dec_recs_at(data@, pos_recs, fc as nat) == Some((recs_done, pos_cl)));
    }
    // Every declared entry address must lie within the instruction vector.
    let fcount = addrs.len();
    let mut ci: usize = 0;
    while ci < fcount
        invariant
            ci <= fcount,
            fcount == addrs@.len(),
            data@.len() >= 4,
            data@[0] == 79 && data@[1] == 77 && data@[2] == 71 && data@[3] == 66,
            dec_u32_at(data@, 4) == Some(((BC_VERSION as nat), 8int)),
            dec_u32_at(data@, 8) == Some(((fc as nat), pos_recs)),
            dec_recs_at(data@, pos_recs, fc as nat) == Some((recs_done, pos_cl)),
            dec_u32_at(data@, pos_cl) == Some(((cl as nat), pos_code)),
            addrs@.len() == recs_done.len(),
            forall|j: int|
                0 <= j < recs_done.len() ==> (#[trigger] addrs@[j]) as nat == recs_done[j].address,
            forall|j: int| 0 <= j < ci ==> (#[trigger] recs_done[j]).address < cl as nat,
        decreases fcount - ci,
    {
        if addrs[ci] >= cl {
            proof {
                assert(recs_done[ci as int].address >= cl as nat);
                assert(!recs_addrs_ok(recs_done, cl as nat));
            }
            return Err(RuntimeError::SyntaxError(String::from_str("malformed bytecode image")));
        }
        ci = ci + 1;
    }
    proof {
        assert(recs_addrs_ok(recs_done, cl as nat));
    }
    let mut code: Vec<Instr> = Vec::new();
    let mut j: usize = 0;
    proof {
        assert(code_view(code@) =~= Seq::<InstrV>::empty());
        if dec_code_at(data@, pos_code, cl as nat) is Some {
            assert(code_view(code@) + dec_code_at(data@, pos_code, cl as nat)->Some_0.0
                =~= dec_code_at(data@, pos_code, cl as nat)->Some_0.0);
        }
    }
    while j < cl
        invariant
            j <= cl,
            idx <= data@.len(),
            data@.len() >= 4,
            data@[0] == 79 && data@[1] == 77 && data@[2] == 71 && data@[3] == 66,
            dec_u32_at(data@, 4) == Some(((BC_VERSION as nat), 8int)),
            dec_u32_at(data@, 8) == Some(((fc as nat), pos_recs)),
            dec_recs_at(data@, pos_recs, fc as nat) == Some((recs_done, pos_cl)),
            dec_u32_at(data@, pos_cl) == Some(((cl as nat), pos_code)),
            recs_addrs_ok(recs_done, cl as nat),
            funcs.wf(),
            forall|k: Seq<char>|
                #[trigger] funcs@.contains_key(k) ==> recs_map(recs_done).contains_key(k)
                    && params_view(funcs@[k].params@) == recs_map(recs_done)[k].params
                    && funcs@[k].address as nat == recs_map(recs_done)[k].address,
            forall|k: Seq<char>|
                #[trigger] recs_map(recs_done).contains_key(k) ==> funcs@.contains_key(k),
            code@.len() == j,
            dec_code_at(data@, pos_code, cl as nat) == compose_code(
                code_view(code@),
                dec_code_at(data@, idx as int, (cl - j) as nat),
            ),
        decreases cl - j,
    {
        let ghost cv_prev = code_view(code@);
        let ins = match read_instr(data, &mut idx) {
            Some(ins) => ins,
            None => {
                return Err(
                    RuntimeError::SyntaxError(String::from_str("malformed bytecode image")),
                );
            },
        };
        code.push(ins);
        j = j + 1;
        proof {
            assert(code_view(code@) =~= cv_prev.push(instr_view(code@.last())));
            let rest1 = dec_code_at(data@, idx as int, (cl - j) as nat);
            if rest1 is Some {
                assert(code_view(code@) + rest1->Some_0.0 =~= cv_prev + (seq![instr_view(
                    code@.last(),
                )] + rest1->Some_0.0));
            }
        }
    }
    proof {
        assert(code_view(code@) + Seq::<InstrV>::empty() =~= code_view(code@));
        assert forall|k: Seq<char>| #[trigger] funcs@.contains_key(k) implies funcs@[k].address
            < code@.len() by {
            lemma_recs_map_addrs(recs_done, cl as nat, k);
        }
    }
    Ok((code, funcs))
}

// --- the encoder ---

/// The four little-endian bytes of a 32-bit word.
pub open spec fn enc_u32(v: nat) -> Seq<u8> {
    seq![
        (v % 256) as u8,
        ((v / 0x100) % 256) as u8,
        ((v / 0x10000) % 256) as u8,
        ((v / 0x1000000) % 256) as u8,
    ]
}

/// The eight little-endian bytes of a 64-bit word.
pub open spec fn enc_u64(v: nat) -> Seq<u8> {
    seq![
        (v % 256) as u8,
        ((v / 0x100) % 256) as u8,
        ((v / 0x10000) % 256) as u8,
        ((v / 0x1000000) % 256) as u8,
        ((v / 0x1_0000_0000) % 256) as u8,
        ((v / 0x100_0000_0000) % 256) as u8,
        ((v / 0x1_0000_0000_0000) % 256) as u8,
        ((v / 0x100_0000_0000_0000) % 256) as u8,
    ]
}

/// Can this string be written (its byte length fits the length prefix)?
pub open spec fn str_wf_v(sv: Seq<char>) -> bool {
    vstd::utf8::encode_utf8(sv).len() < 0x1_0000_0000
}

/// A length-prefixed UTF-8 string.
pub open spec fn enc_str_v(sv: Seq<char>) -> Seq<u8> {
    enc_u32(vstd::utf8::encode_utf8(sv).len()) + vstd::utf8::encode_utf8(sv)
}

/// Do the operands of this instruction fit their encodings?
pub open spec fn instr_wf_v(iv: InstrV) -> bool {
    match iv {
        InstrV::PushStr(sv) => str_wf_v(sv),
        InstrV::BuildList(n) => n < 0x1_0000_0000,
        InstrV::BuildDict(n) => n < 0x1_0000_0000,
        InstrV::Load(sv) => str_wf_v(sv),
        InstrV::Store(sv) => str_wf_v(sv),
        InstrV::Jump(n) => n < 0x1_0000_0000,
        InstrV::JumpIfFalse(n) => n < 0x1_0000_0000,
        InstrV::Call(sv) => str_wf_v(sv),
        InstrV::TailCall(sv) => str_wf_v(sv),
        InstrV::CallBuiltin(sv, n) => str_wf_v(sv) && n < 0x1_0000_0000,
        InstrV::Attr(sv) => str_wf_v(sv),
        InstrV::StoreAttr(sv) => str_wf_v(sv),
        InstrV::CallValue(n) => n < 0x1_0000_0000,
        InstrV::SetupExcept(n) => n < 0x1_0000_0000,
        _ => true,
    }
}

/// The opcode byte and operand bytes of one instruction.
pub open spec fn enc_instr_v(iv: InstrV) -> Seq<u8> {
    match iv {
        InstrV::PushInt(v) => seq![0u8] + enc_u64((v as u64) as nat),
        InstrV::PushStr(sv) => seq![1u8] + enc_str_v(sv),
        InstrV::PushBool(b) => seq![
            2u8,
            if b {
                1u8
            } else {
                0u8
            },
        ],
        InstrV::BuildList(n) => seq![3u8] + enc_u32(n),
        InstrV::BuildDict(n) => seq![4u8] + enc_u32(n),
        InstrV::Load(sv) => seq![5u8] + enc_str_v(sv),
        InstrV::Store(sv) => seq![6u8] + enc_str_v(sv),
        InstrV::Add => seq![7u8],
        InstrV::Sub => seq![8u8],
        InstrV::Mul => seq![9u8],
        InstrV::Div => seq![10u8],
        InstrV::Mod => seq![11u8],
        InstrV::Eq => seq![12u8],
        InstrV::Ne => seq![13u8],
        InstrV::Lt => seq![14u8],
        InstrV::Le => seq![15u8],
        InstrV::Gt => seq![16u8],
        InstrV::Ge => seq![17u8],
        InstrV::BAnd => seq![18u8],
        InstrV::BOr => seq![19u8],
        InstrV::BXor => seq![20u8],
        InstrV::Shl => seq![21u8],
        InstrV::Shr => seq![22u8],
        InstrV::And => seq![23u8],
        InstrV::Or => seq![24u8],
        InstrV::Not => seq![25u8],
        InstrV::Neg => seq![26u8],
        InstrV::Index => seq![27u8],
        InstrV::Slice => seq![28u8],
        InstrV::Jump(n) => seq![29u8] + enc_u32(n),
        InstrV::JumpIfFalse(n) => seq![30u8] + enc_u32(n),
        InstrV::Call(sv) => seq![31u8] + enc_str_v(sv),
        InstrV::TailCall(sv) => seq![32u8] + enc_str_v(sv),
        InstrV::CallBuiltin(sv, n) => seq![33u8] + enc_str_v(sv) + enc_u32(n),
        InstrV::Pop => seq![34u8],
        InstrV::PushNone => seq![35u8],
        InstrV::Ret => seq![36u8],
        InstrV::Emit => seq![37u8],
        InstrV::Halt => seq![38u8],
        InstrV::StoreIndex => seq![39u8],
        InstrV::Attr(sv) => seq![40u8] + enc_str_v(sv),
        InstrV::StoreAttr(sv) => seq![41u8] + enc_str_v(sv),
        InstrV::Assert => seq![42u8],
        InstrV::CallValue(n) => seq![43u8] + enc_u32(n),
        InstrV::SetupExcept(n) => seq![44u8] + enc_u32(n),
        InstrV::PopBlock => seq![45u8],
        InstrV::Raise(k) => seq![46u8, crate::error::kind_code(k)],
    }
}

/// Every instruction's operands fit.
pub open spec fn code_wf_v(c: Seq<InstrV>) -> bool {
    forall|i: int| 0 <= i < c.len() ==> instr_wf_v(#[trigger] c[i])
}

/// The code stream, instruction after instruction.
pub open spec fn enc_code_v(c: Seq<InstrV>) -> Seq<u8>
    decreases c.len(),
{
    if c.len() == 0 {
        Seq::empty()
    } else {
        enc_instr_v(c.first()) + enc_code_v(c.drop_first())
    }
}

/// The parameter names, one length-prefixed string each.
pub open spec fn enc_params_v(ps: Seq<Seq<char>>) -> Seq<u8>
    decreases ps.len(),
{
    if ps.len() == 0 {
        Seq::empty()
    } else {
        enc_str_v(ps.first()) + enc_params_v(ps.drop_first())
    }
}

/// Does this record fit its encoding?
pub open spec fn rec_wf_v(r: FuncRecV) -> bool {
    &&& str_wf_v(r.name)
    &&& r.params.len() < 0x1_0000_0000
    &&& (forall|i: int| 0 <= i < r.params.len() ==> str_wf_v(#[trigger] r.params[i]))
    &&& r.address < 0x1_0000_0000
}

/// One function record: name, parameter count, parameters, entry address.
pub open spec fn enc_rec_v(r: FuncRecV) -> Seq<u8> {
    enc_str_v(r.name) + enc_u32(r.params.len()) + enc_params_v(r.params) + enc_u32(r.address)
}

/// Every record fits.
pub open spec fn recs_wf_v(recs: Seq<FuncRecV>) -> bool {
    forall|i: int| 0 <= i < recs.len() ==> rec_wf_v(#[trigger] recs[i])
}

/// The function table, record after record.
pub open spec fn enc_recs_v(recs: Seq<FuncRecV>) -> Seq<u8>
    decreases recs.len(),
{
    if recs.len() == 0 {
        Seq::empty()
    } else {
        enc_rec_v(recs.first()) + enc_recs_v(recs.drop_first())
    }
}

/// Does the whole image fit, with every entry address inside the code
/// stream?
pub open spec fn image_wf_v(recs: Seq<FuncRecV>, c: Seq<InstrV>) -> bool {
    &&& recs_wf_v(recs)
    &&& recs.len() < 0x1_0000_0000
    &&& code_wf_v(c)
    &&& c.len() < 0x1_0000_0000
    &&& recs_addrs_ok(recs, c.len())
}

/// The whole image: magic, version, function table, code stream.
pub open spec fn enc_image_v(recs: Seq<FuncRecV>, c: Seq<InstrV>) -> Seq<u8> {
    seq![79u8, 77u8, 71u8, 66u8] + enc_u32(BC_VERSION as nat) + enc_u32(recs.len())
        + enc_recs_v(recs) + enc_u32(c.len()) + enc_code_v(c)
}

// --- decoding inverts encoding ---

proof fn lemma_dec_enc_u32(pre: Seq<u8>, v: nat, rest: Seq<u8>)
    requires
        v < 0x1_0000_0000,
    ensures
        dec_u32_at(pre + enc_u32(v) + rest, pre.len() as int) == Some(
            (v, pre.len() + 4 as int),
        ),
{
    let d = pre + enc_u32(v) + rest;
    let pos = pre.len() as int;
    assert(d[pos] == enc_u32(v)[0]);
    assert(d[pos + 1] == enc_u32(v)[1]);
    assert(d[pos + 2] == enc_u32(v)[2]);
    assert(d[pos + 3] == enc_u32(v)[3]);
    let x = v as u32;
    assert(x % 256 + x / 0x100 % 256 * 0x100 + x / 0x10000 % 256 * 0x10000 + x / 0x1000000 % 256
        * 0x1000000 == x) by (bit_vector);
}

proof fn lemma_dec_enc_u64(pre: Seq<u8>, v: nat, rest: Seq<u8>)
    requires
        v < 0x1_0000_0000_0000_0000,
    ensures
        dec_u64_at(pre + enc_u64(v) + rest, pre.len() as int) == Some(
            (v, pre.len() + 8 as int),
        ),
{
    let d = pre + enc_u64(v) + rest;
    let pos = pre.len() as int;
    assert forall|i: int| 0 <= i < 8 implies d[pos + i] == enc_u64(v)[i] by {}
    assert(d[pos] == enc_u64(v)[0]);
    assert(d[pos + 1] == enc_u64(v)[1]);
    assert(d[pos + 2] == enc_u64(v)[2]);
    assert(d[pos + 3] == enc_u64(v)[3]);
    assert(d[pos + 4] == enc_u64(v)[4]);
    assert(d[pos + 5] == enc_u64(v)[5]);
    assert(d[pos + 6] == enc_u64(v)[6]);
    assert(d[pos + 7] == enc_u64(v)[7]);
    let x = v as u64;
    assert(x % 256 + x / 0x100 % 256 * 0x100 + x / 0x10000 % 256 * 0x10000 + x / 0x1000000 % 256
        * 0x1000000 + x / 0x1_0000_0000 % 256 * 0x1_0000_0000 + x / 0x100_0000_0000 % 256
        * 0x100_0000_0000 + x / 0x1_0000_0000_0000 % 256 * 0x1_0000_0000_0000 + x
        / 0x100_0000_0000_0000 % 256 * 0x100_0000_0000_0000 == x) by (bit_vector);
}

proof fn lemma_dec_enc_str(pre: Seq<u8>, sv: Seq<char>, rest: Seq<u8>)
    requires
        str_wf_v(sv),
    ensures
        dec_str_at(pre + enc_str_v(sv) + rest, pre.len() as int) == Some(
            (sv, pre.len() + enc_str_v(sv).len() as int),
        ),
{
    let bytes = vstd::utf8::encode_utf8(sv);
    let d = pre + enc_str_v(sv) + rest;
    assert(d =~= pre + enc_u32(bytes.len()) + (bytes + rest));
    lemma_dec_enc_u32(pre, bytes.len(), bytes + rest);
    let p1 = pre.len() + 4 as int;
    assert(d.subrange(p1 as int, p1 + bytes.len()) =~= bytes);
    vstd::utf8::encode_utf8_valid_utf8(sv);
    vstd::utf8::encode_utf8_decode_utf8(sv);
}

/// Does this instruction carry an operand?
pub open spec fn instr_has_payload(iv: InstrV) -> bool {
    match iv {
        InstrV::PushInt(_) => true,
        InstrV::PushStr(_) => true,
        InstrV::PushBool(_) => true,
        InstrV::BuildList(_) => true,
        InstrV::BuildDict(_) => true,
        InstrV::Load(_) => true,
        InstrV::Store(_) => true,
        InstrV::Jump(_) => true,
        InstrV::JumpIfFalse(_) => true,
        InstrV::Call(_) => true,
        InstrV::TailCall(_) => true,
        InstrV::CallBuiltin(_, _) => true,
        InstrV::Attr(_) => true,
        InstrV::StoreAttr(_) => true,
        InstrV::CallValue(_) => true,
        InstrV::SetupExcept(_) => true,
        InstrV::Raise(_) => true,
        _ => false,
    }
}

/// Does this instruction carry a 32-bit count or address?
pub open spec fn instr_u32_payload(iv: InstrV) -> bool {
    match iv {
        InstrV::BuildList(_) => true,
        InstrV::BuildDict(_) => true,
        InstrV::Jump(_) => true,
        InstrV::JumpIfFalse(_) => true,
        InstrV::CallValue(_) => true,
        InstrV::SetupExcept(_) => true,
        _ => false,
    }
}

/// Does this instruction carry one string?
pub open spec fn instr_str_payload(iv: InstrV) -> bool {
    match iv {
        InstrV::PushStr(_) => true,
        InstrV::Load(_) => true,
        InstrV::Store(_) => true,
        InstrV::Call(_) => true,
        InstrV::TailCall(_) => true,
        InstrV::Attr(_) => true,
        InstrV::StoreAttr(_) => true,
        _ => false,
    }
}

#[verifier::rlimit(100)]
#[verifier::spinoff_prover]
proof fn lemma_dec_enc_instr_u32c(pre: Seq<u8>, iv: InstrV, rest: Seq<u8>)
    requires
        instr_wf_v(iv),
        instr_u32_payload(iv),
    ensures
        dec_instr_at(pre + enc_instr_v(iv) + rest, pre.len() as int) == Some(
            (iv, pre.len() + enc_instr_v(iv).len() as int),
        ),
{
    reveal(dec_instr_at);
    let d = pre + enc_instr_v(iv) + rest;
    let pos = pre.len() as int;
    assert(d[pos] == enc_instr_v(iv)[0]);
    match iv {
        InstrV::BuildList(n) => {
            assert(d =~= (pre + seq![3u8]) + enc_u32(n) + rest);
            lemma_dec_enc_u32(pre + seq![3u8], n, rest);
        },
        InstrV::BuildDict(n) => {
            assert(d =~= (pre + seq![4u8]) + enc_u32(n) + rest);
            lemma_dec_enc_u32(pre + seq![4u8], n, rest);
        },
        InstrV::Jump(n) => {
            assert(d =~= (pre + seq![29u8]) + enc_u32(n) + rest);
            lemma_dec_enc_u32(pre + seq![29u8], n, rest);
        },
        InstrV::JumpIfFalse(n) => {
            assert(d =~= (pre + seq![30u8]) + enc_u32(n) + rest);
            lemma_dec_enc_u32(pre + seq![30u8], n, rest);
        },
        InstrV::CallValue(n) => {
            assert(d =~= (pre + seq![43u8]) + enc_u32(n) + rest);
            lemma_dec_enc_u32(pre + seq![43u8], n, rest);
        },
        InstrV::SetupExcept(n) => {
            assert(d =~= (pre + seq![44u8]) + enc_u32(n) + rest);
            lemma_dec_enc_u32(pre + seq![44u8], n, rest);
        },
        _ => {},
    }
}

#[verifier::rlimit(100)]
#[verifier::spinoff_prover]
proof fn lemma_dec_enc_instr_strc(pre: Seq<u8>, iv: InstrV, rest: Seq<u8>)
    requires
        instr_wf_v(iv),
        instr_str_payload(iv),
    ensures
        dec_instr_at(pre + enc_instr_v(iv) + rest, pre.len() as int) == Some(
            (iv, pre.len() + enc_instr_v(iv).len() as int),
        ),
{
    reveal(dec_instr_at);
    let d = pre + enc_instr_v(iv) + rest;
    let pos = pre.len() as int;
    assert(d[pos] == enc_instr_v(iv)[0]);
    match iv {
        InstrV::PushStr(sv) => {
            assert(d =~= (pre + seq![1u8]) + enc_str_v(sv) + rest);
            lemma_dec_enc_str(pre + seq![1u8], sv, rest);
        },
        InstrV::Load(sv) => {
            assert(d =~= (pre + seq![5u8]) + enc_str_v(sv) + rest);
            lemma_dec_enc_str(pre + seq![5u8], sv, rest);
        },
        InstrV::Store(sv) => {
            assert(d =~= (pre + seq![6u8]) + enc_str_v(sv) + rest);
            lemma_dec_enc_str(pre + seq![6u8], sv, rest);
        },
        InstrV::Call(sv) => {
            assert(d =~= (pre + seq![31u8]) + enc_str_v(sv) + rest);
            lemma_dec_enc_str(pre + seq![31u8], sv, rest);
        },
        InstrV::TailCall(sv) => {
            assert(d =~= (pre + seq![32u8]) + enc_str_v(sv) + rest);
            lemma_dec_enc_str(pre + seq![32u8], sv, rest);
        },
        InstrV::Attr(sv) => {
            assert(d =~= (pre + seq![40u8]) + enc_str_v(sv) + rest);
            lemma_dec_enc_str(pre + seq![40u8], sv, rest);
        },
        InstrV::StoreAttr(sv) => {
            assert(d =~= (pre + seq![41u8]) + enc_str_v(sv) + rest);
            lemma_dec_enc_str(pre + seq![41u8], sv, rest);
        },
        _ => {},
    }
}

#[verifier::rlimit(100)]
#[verifier::spinoff_prover]
proof fn lemma_dec_enc_instr_payload(pre: Seq<u8>, iv: InstrV, rest: Seq<u8>)
    requires
        instr_wf_v(iv),
        instr_has_payload(iv),
    ensures
        dec_instr_at(pre + enc_instr_v(iv) + rest, pre.len() as int) == Some(
            (iv, pre.len() + enc_instr_v(iv).len() as int),
        ),
{
    if instr_u32_payload(iv) {
        lemma_dec_enc_instr_u32c(pre, iv, rest);
    } else if instr_str_payload(iv) {
        lemma_dec_enc_instr_strc(pre, iv, rest);
    } else {
        reveal(dec_instr_at);
        let d = pre + enc_instr_v(iv) + rest;
        let pos = pre.len() as int;
        assert(d[pos] == enc_instr_v(iv)[0]);
        let p1 = pos + 1;
        match iv {
            InstrV::PushInt(v) => {
                assert(d =~= (pre + seq![0u8]) + enc_u64((v as u64) as nat) + rest);
                lemma_dec_enc_u64(pre + seq![0u8], (v as u64) as nat, rest);
                assert((((v as u64) as nat) as u64) as i64 == v) by (bit_vector);
            },
            InstrV::PushBool(b) => {
                assert(d[p1] == enc_instr_v(iv)[1]);
            },
            InstrV::CallBuiltin(sv, n) => {
                assert(d =~= (pre + seq![33u8]) + enc_str_v(sv) + (enc_u32(n) + rest));
                lemma_dec_enc_str(pre + seq![33u8], sv, enc_u32(n) + rest);
                assert(d =~= (pre + seq![33u8] + enc_str_v(sv)) + enc_u32(n) + rest);
                lemma_dec_enc_u32(pre + seq![33u8] + enc_str_v(sv), n, rest);
            },
            InstrV::Raise(k) => {
                assert(d[p1] == enc_instr_v(iv)[1]);
            },
            _ => {},
        }
    }
}

#[verifier::rlimit(100)]
#[verifier::spinoff_prover]
proof fn lemma_dec_enc_instr(pre: Seq<u8>, iv: InstrV, rest: Seq<u8>)
    requires
        instr_wf_v(iv),
    ensures
        dec_instr_at(pre + enc_instr_v(iv) + rest, pre.len() as int) == Some(
            (iv, pre.len() + enc_instr_v(iv).len() as int),
        ),
{
    if instr_has_payload(iv) {
        lemma_dec_enc_instr_payload(pre, iv, rest);
    } else {
        reveal(dec_instr_at);
        let d = pre + enc_instr_v(iv) + rest;
        let pos = pre.len() as int;
        assert(d[pos] == enc_instr_v(iv)[0]);
    }
}

proof fn lemma_dec_enc_code(pre: Seq<u8>, c: Seq<InstrV>, rest: Seq<u8>)
    requires
        code_wf_v(c),
    ensures
        dec_code_at(pre + enc_code_v(c) + rest, pre.len() as int, c.len()) == Some(
            (c, pre.len() + enc_code_v(c).len() as int),
        ),
    decreases c.len(),
{
    let d = pre + enc_code_v(c) + rest;
    if c.len() == 0 {
        assert(dec_code_at(d, pre.len() as int, 0) == Some(
            (Seq::<InstrV>::empty(), pre.len() as int),
        ));
        assert(c =~= Seq::<InstrV>::empty());
    } else {
        let hd = c.first();
        let tl = c.drop_first();
        assert(d =~= pre + enc_instr_v(hd) + (enc_code_v(tl) + rest));
        lemma_dec_enc_instr(pre, hd, enc_code_v(tl) + rest);
        assert(code_wf_v(tl)) by {
            assert(forall|i: int| 0 <= i < tl.len() ==> tl[i] == c[i + 1]);
        }
        assert(d =~= (pre + enc_instr_v(hd)) + enc_code_v(tl) + rest);
        lemma_dec_enc_code(pre + enc_instr_v(hd), tl, rest);
        assert(seq![hd] + tl =~= c);
    }
}

proof fn lemma_dec_enc_params(pre: Seq<u8>, ps: Seq<Seq<char>>, rest: Seq<u8>)
    requires
        forall|i: int| 0 <= i < ps.len() ==> str_wf_v(#[trigger] ps[i]),
    ensures
        dec_params_at(pre + enc_params_v(ps) + rest, pre.len() as int, ps.len()) == Some(
            (ps, pre.len() + enc_params_v(ps).len() as int),
        ),
    decreases ps.len(),
{
    let d = pre + enc_params_v(ps) + rest;
    if ps.len() == 0 {
        assert(ps =~= Seq::<Seq<char>>::empty());
    } else {
        let hd = ps.first();
        let tl = ps.drop_first();
        assert(d =~= pre + enc_str_v(hd) + (enc_params_v(tl) + rest));
        lemma_dec_enc_str(pre, hd, enc_params_v(tl) + rest);
        assert(forall|i: int| 0 <= i < tl.len() ==> tl[i] == ps[i + 1]);
        assert(d =~= (pre + enc_str_v(hd)) + enc_params_v(tl) + rest);
        lemma_dec_enc_params(pre + enc_str_v(hd), tl, rest);
        assert(seq![hd] + tl =~= ps);
    }
}

#[verifier::rlimit(100)]
#[verifier::spinoff_prover]
proof fn lemma_dec_enc_rec(pre: Seq<u8>, r: FuncRecV, rest: Seq<u8>)
    requires
        rec_wf_v(r),
    ensures
        dec_rec_at(pre + enc_rec_v(r) + rest, pre.len() as int) == Some(
            (r, pre.len() + enc_rec_v(r).len() as int),
        ),
{
    let d = pre + enc_rec_v(r) + rest;
    let t1 = enc_u32(r.params.len()) + enc_params_v(r.params) + enc_u32(r.address) + rest;
    assert(d =~= pre + enc_str_v(r.name) + t1);
    lemma_dec_enc_str(pre, r.name, t1);
    let pre2 = pre + enc_str_v(r.name);
    let t2 = enc_params_v(r.params) + enc_u32(r.address) + rest;
    assert(d =~= pre2 + enc_u32(r.params.len()) + t2);
    lemma_dec_enc_u32(pre2, r.params.len(), t2);
    let pre3 = pre2 + enc_u32(r.params.len());
    let t3 = enc_u32(r.address) + rest;
    assert(d =~= pre3 + enc_params_v(r.params) + t3);
    lemma_dec_enc_params(pre3, r.params, t3);
    let pre4 = pre3 + enc_params_v(r.params);
    assert(d =~= pre4 + enc_u32(r.address) + rest);
    lemma_dec_enc_u32(pre4, r.address, rest);
    assert(FuncRecV { name: r.name, params: r.params, address: r.address } == r);
}

#[verifier::rlimit(100)]
#[verifier::spinoff_prover]
proof fn lemma_dec_enc_recs(pre: Seq<u8>, recs: Seq<FuncRecV>, rest: Seq<u8>)
    requires
        recs_wf_v(recs),
    ensures
        dec_recs_at(pre + enc_recs_v(recs) + rest, pre.len() as int, recs.len()) == Some(
            (recs, pre.len() + enc_recs_v(recs).len() as int),
        ),
    decreases recs.len(),
{
    let d = pre + enc_recs_v(recs) + rest;
    if recs.len() == 0 {
        assert(recs =~= Seq::<FuncRecV>::empty());
    } else {
        let hd = recs.first();
        let tl = recs.drop_first();
        assert(d =~= pre + enc_rec_v(hd) + (enc_recs_v(tl) + rest));
        lemma_dec_enc_rec(pre, hd, enc_recs_v(tl) + rest);
        assert(recs_wf_v(tl)) by {
            assert(forall|i: int| 0 <= i < tl.len() ==> tl[i] == recs[i + 1]);
        }
        assert(d =~= (pre + enc_rec_v(hd)) + enc_recs_v(tl) + rest);
        lemma_dec_enc_recs(pre + enc_rec_v(hd), tl, rest);
        assert(seq![hd] + tl =~= recs);
    }
}

/// An unknown opcode is rejected wherever it stands: the decoder has no
/// case for a byte above the last assigned opcode.
pub proof fn lemma_unknown_opcode_rejected(d: Seq<u8>, pos: int)
    requires
        dec_byte_at(d, pos) matches Some(t) && t.0 > 51,
    ensures
        dec_instr_at(d, pos) is None,
{
    reveal(dec_instr_at);
}

/// Decoding inverts encoding: the image a conforming encoder writes for a
/// function table and an instruction stream decodes to exactly that table
/// and stream, consuming the whole image.
#[verifier::rlimit(100)]
#[verifier::spinoff_prover]
pub proof fn lemma_image_round_trip(recs: Seq<FuncRecV>, c: Seq<InstrV>)
    requires
        image_wf_v(recs, c),
    ensures
        dec_image(enc_image_v(recs, c)) == Some((recs, c, enc_image_v(recs, c).len() as int)),
{
    let d = enc_image_v(recs, c);
    let magic = seq![79u8, 77u8, 71u8, 66u8];
    assert(d[0] == 79 && d[1] == 77 && d[2] == 71 && d[3] == 66);
    let t1 = enc_u32(recs.len()) + enc_recs_v(recs) + enc_u32(c.len()) + enc_code_v(c);
    assert(d =~= magic + enc_u32(BC_VERSION as nat) + t1);
    lemma_dec_enc_u32(magic, BC_VERSION as nat, t1);
    let pre2 = magic + enc_u32(BC_VERSION as nat);
    let t2 = enc_recs_v(recs) + enc_u32(c.len()) + enc_code_v(c);
    assert(d =~= pre2 + enc_u32(recs.len()) + t2);
    lemma_dec_enc_u32(pre2, recs.len(), t2);
    let pre3 = pre2 + enc_u32(recs.len());
    let t3 = enc_u32(c.len()) + enc_code_v(c);
    assert(d =~= pre3 + enc_recs_v(recs) + t3);
    lemma_dec_enc_recs(pre3, recs, t3);
    let pre4 = pre3 + enc_recs_v(recs);
    assert(d =~= pre4 + enc_u32(c.len()) + enc_code_v(c));
    lemma_dec_enc_u32(pre4, c.len(), enc_code_v(c));
    let pre5 = pre4 + enc_u32(c.len());
    assert(d =~= pre5 + enc_code_v(c) + Seq::<u8>::empty());
    lemma_dec_enc_code(pre5, c, Seq::empty());
}

// --- the executable encoder ---

/// The record a table entry denotes.
pub open spec fn rec_of(e: FuncEntry) -> FuncRecV {
    FuncRecV { name: e.name@, params: params_view(e.func.params@), address: e.func.address as nat }
}

/// The records of a whole table, in table order.
pub open spec fn table_recs(es: Seq<FuncEntry>) -> Seq<FuncRecV> {
    es.map_values(|e: FuncEntry| rec_of(e))
}

proof fn lemma_enc_code_snoc(c: Seq<InstrV>, iv: InstrV)
    ensures
        enc_code_v(c.push(iv)) == enc_code_v(c) + enc_instr_v(iv),
    decreases c.len(),
{
    if c.len() == 0 {
        assert(c.push(iv).drop_first() =~= Seq::<InstrV>::empty());
        assert(c.push(iv).first() == iv);
        assert(enc_code_v(Seq::<InstrV>::empty()) == Seq::<u8>::empty());
        assert(c =~= Seq::<InstrV>::empty());
        assert(enc_code_v(c.push(iv)) == enc_instr_v(iv) + Seq::<u8>::empty());
        assert(enc_instr_v(iv) + Seq::<u8>::empty() =~= Seq::<u8>::empty() + enc_instr_v(iv));
    } else {
        assert(c.push(iv).drop_first() =~= c.drop_first().push(iv));
        assert(c.push(iv).first() == c.first());
        lemma_enc_code_snoc(c.drop_first(), iv);
        assert(enc_code_v(c.push(iv)) == enc_instr_v(c.first()) + (enc_code_v(
            c.drop_first(),
        ) + enc_instr_v(iv)));
        assert(enc_instr_v(c.first()) + (enc_code_v(c.drop_first()) + enc_instr_v(iv)) =~= (
        enc_instr_v(c.first()) + enc_code_v(c.drop_first())) + enc_instr_v(iv));
        assert(enc_code_v(c) == enc_instr_v(c.first()) + enc_code_v(c.drop_first()));
    }
}

proof fn lemma_enc_params_snoc(ps: Seq<Seq<char>>, sv: Seq<char>)
    ensures
        enc_params_v(ps.push(sv)) == enc_params_v(ps) + enc_str_v(sv),
    decreases ps.len(),
{
    if ps.len() == 0 {
        assert(ps.push(sv).drop_first() =~= Seq::<Seq<char>>::empty());
        assert(ps.push(sv).first() == sv);
        assert(enc_params_v(Seq::<Seq<char>>::empty()) == Seq::<u8>::empty());
        assert(ps =~= Seq::<Seq<char>>::empty());
        assert(enc_params_v(ps.push(sv)) == enc_str_v(sv) + Seq::<u8>::empty());
        assert(enc_str_v(sv) + Seq::<u8>::empty() =~= Seq::<u8>::empty() + enc_str_v(sv));
    } else {
        assert(ps.push(sv).drop_first() =~= ps.drop_first().push(sv));
        assert(ps.push(sv).first() == ps.first());
        lemma_enc_params_snoc(ps.drop_first(), sv);
        assert(enc_params_v(ps.push(sv)) == enc_str_v(ps.first()) + (enc_params_v(
            ps.drop_first(),
        ) + enc_str_v(sv)));
        assert(enc_str_v(ps.first()) + (enc_params_v(ps.drop_first()) + enc_str_v(sv)) =~= (
        enc_str_v(ps.first()) + enc_params_v(ps.drop_first())) + enc_str_v(sv));
        assert(enc_params_v(ps) == enc_str_v(ps.first()) + enc_params_v(ps.drop_first()));
    }
}

proof fn lemma_enc_recs_snoc(recs: Seq<FuncRecV>, r: FuncRecV)
    ensures
        enc_recs_v(recs.push(r)) == enc_recs_v(recs) + enc_rec_v(r),
    decreases recs.len(),
{
    if recs.len() == 0 {
        assert(recs.push(r).drop_first() =~= Seq::<FuncRecV>::empty());
        assert(recs.push(r).first() == r);
        assert(enc_recs_v(Seq::<FuncRecV>::empty()) == Seq::<u8>::empty());
        assert(recs =~= Seq::<FuncRecV>::empty());
        assert(enc_recs_v(recs.push(r)) == enc_rec_v(r) + Seq::<u8>::empty());
        assert(enc_rec_v(r) + Seq::<u8>::empty() =~= Seq::<u8>::empty() + enc_rec_v(r));
    } else {
        assert(recs.push(r).drop_first() =~= recs.drop_first().push(r));
        assert(recs.push(r).first() == recs.first());
        lemma_enc_recs_snoc(recs.drop_first(), r);
        assert(enc_recs_v(recs.push(r)) == enc_rec_v(recs.first()) + (enc_recs_v(
            recs.drop_first(),
        ) + enc_rec_v(r)));
        assert(enc_rec_v(recs.first()) + (enc_recs_v(recs.drop_first()) + enc_rec_v(r)) =~= (
        enc_rec_v(recs.first()) + enc_recs_v(recs.drop_first())) + enc_rec_v(r));
        assert(enc_recs_v(recs) == enc_rec_v(recs.first()) + enc_recs_v(recs.drop_first()));
    }
}

/// Write a little-endian 32-bit word.
fn write_u32(out: &mut Vec<u8>, v: u32)
    ensures
        final(out)@ == old(out)@ + enc_u32(v as nat),
{
    out.push((v % 256) as u8);
    out.push(((v / 0x100) % 256) as u8);
    out.push(((v / 0x10000) % 256) as u8);
    out.push(((v / 0x1000000) % 256) as u8);
    proof {
        assert(out@ =~= old(out)@ + enc_u32(v as nat));
    }
}

/// Write a little-endian 64-bit word.
fn write_u64(out: &mut Vec<u8>, v: u64)
    ensures
        final(out)@ == old(out)@ + enc_u64(v as nat),
{
    out.push((v % 256) as u8);
    out.push(((v / 0x100) % 256) as u8);
    out.push(((v / 0x10000) % 256) as u8);
    out.push(((v / 0x1000000) % 256) as u8);
    out.push(((v / 0x1_0000_0000) % 256) as u8);
    out.push(((v / 0x100_0000_0000) % 256) as u8);
    out.push(((v / 0x1_0000_0000_0000) % 256) as u8);
    out.push(((v / 0x100_0000_0000_0000) % 256) as u8);
    proof {
        assert(out@ =~= old(out)@ + enc_u64(v as nat));
    }
}

/// Write a length-prefixed UTF-8 string.
fn write_str(out: &mut Vec<u8>, s: &str)
    requires
        str_wf_v(s@),
    ensures
        final(out)@ == old(out)@ + enc_str_v(s@),
{
    let ghost base = out@;
    let bl = s.len();
    write_u32(out, bl as u32);
    let bs = s.as_bytes();
    let n = bs.len();
    let ghost mid = out@;
    let mut i: usize = 0;
    while i < n
        invariant
            i <= n,
            n == bs@.len(),
            out@ =~= mid + bs@.subrange(0, i as int),
        decreases n - i,
    {
        out.push(*vstd::slice::slice_index_get(bs, i));
        i = i + 1;
        proof {
            assert(out@ =~= mid + bs@.subrange(0, i as int));
        }
    }
    proof {
        assert(bs@.subrange(0, n as int) =~= bs@);
        assert(out@ =~= base + enc_str_v(s@));
    }
}

/// Write one instruction: its opcode byte, then its operands.
#[verifier::rlimit(100)]
#[verifier::spinoff_prover]
fn write_instr(out: &mut Vec<u8>, ins: &Instr)
    requires
        instr_wf_v(instr_view(*ins)),
    ensures
        final(out)@ == old(out)@ + enc_instr_v(instr_view(*ins)),
{
    let ghost base = out@;
    match ins {
        Instr::PushInt(v) => {
            out.push(0);
            write_u64(out, *v as u64);
            proof {
                assert(out@ =~= base + enc_instr_v(instr_view(*ins)));
            }
        },
        Instr::PushStr(sv) => {
            out.push(1);
            write_str(out, sv.as_str());
            proof {
                assert(out@ =~= base + enc_instr_v(instr_view(*ins)));
            }
        },
        Instr::PushBool(b) => {
            out.push(2);
            out.push(
                if *b {
                    1
                } else {
                    0
                },
            );
            proof {
                assert(out@ =~= base + enc_instr_v(instr_view(*ins)));
            }
        },
        Instr::BuildList(n) => {
            out.push(3);
            write_u32(out, *n as u32);
            proof {
                assert(out@ =~= base + enc_instr_v(instr_view(*ins)));
            }
        },
        Instr::BuildDict(n) => {
            out.push(4);
            write_u32(out, *n as u32);
            proof {
                assert(out@ =~= base + enc_instr_v(instr_view(*ins)));
            }
        },
        Instr::Load(sv) => {
            out.push(5);
            write_str(out, sv.as_str());
            proof {
                assert(out@ =~= base + enc_instr_v(instr_view(*ins)));
            }
        },
        Instr::Store(sv) => {
            out.push(6);
            write_str(out, sv.as_str());
            proof {
                assert(out@ =~= base + enc_instr_v(instr_view(*ins)));
            }
        },
        Instr::Add => {
            out.push(7);
            proof {
                assert(out@ =~= base + enc_instr_v(instr_view(*ins)));
            }
        },
        Instr::Sub => {
            out.push(8);
            proof {
                assert(out@ =~= base + enc_instr_v(instr_view(*ins)));
            }
        },
        Instr::Mul => {
            out.push(9);
            proof {
                assert(out@ =~= base + enc_instr_v(instr_view(*ins)));
            }
        },
        Instr::Div => {
            out.push(10);
            proof {
                assert(out@ =~= base + enc_instr_v(instr_view(*ins)));
            }
        },
        Instr::Mod => {
            out.push(11);
            proof {
                assert(out@ =~= base + enc_instr_v(instr_view(*ins)));
            }
        },
        Instr::Eq => {
            out.push(12);
            proof {
                assert(out@ =~= base + enc_instr_v(instr_view(*ins)));
            }
        },
        Instr::Ne => {
            out.push(13);
            proof {
                assert(out@ =~= base + enc_instr_v(instr_view(*ins)));
            }
        },
        Instr::Lt => {
            out.push(14);
            proof {
                assert(out@ =~= base + enc_instr_v(instr_view(*ins)));
            }
        },
        Instr::Le => {
            out.push(15);
            proof {
                assert(out@ =~= base + enc_instr_v(instr_view(*ins)));
            }
        },
        Instr::Gt => {
            out.push(16);
            proof {
                assert(out@ =~= base + enc_instr_v(instr_view(*ins)));
            }
        },
        Instr::Ge => {
            out.push(17);
            proof {
                assert(out@ =~= base + enc_instr_v(instr_view(*ins)));
            }
        },
        Instr::BAnd => {
            out.push(18);
            proof {
                assert(out@ =~= base + enc_instr_v(instr_view(*ins)));
            }
        },
        Instr::BOr => {
            out.push(19);
            proof {
                assert(out@ =~= base + enc_instr_v(instr_view(*ins)));
            }
        },
        Instr::BXor => {
            out.push(20);
            proof {
                assert(out@ =~= base + enc_instr_v(instr_view(*ins)));
            }
        },
        Instr::Shl => {
            out.push(21);
            proof {
                assert(out@ =~= base + enc_instr_v(instr_view(*ins)));
            }
        },
        Instr::Shr => {
            out.push(22);
            proof {
                assert(out@ =~= base + enc_instr_v(instr_view(*ins)));
            }
        },
        Instr::And => {
            out.push(23);
            proof {
                assert(out@ =~= base + enc_instr_v(instr_view(*ins)));
            }
        },
        Instr::Or => {
            out.push(24);
            proof {
                assert(out@ =~= base + enc_instr_v(instr_view(*ins)));
            }
        },
        Instr::Not => {
            out.push(25);
            proof {
                assert(out@ =~= base + enc_instr_v(instr_view(*ins)));
            }
        },
        Instr::Neg => {
            out.push(26);
            proof {
                assert(out@ =~= base + enc_instr_v(instr_view(*ins)));
            }
        },
        Instr::Index => {
            out.push(27);
            proof {
                assert(out@ =~= base + enc_instr_v(instr_view(*ins)));
            }
        },
        Instr::Slice => {
            out.push(28);
            proof {
                assert(out@ =~= base + enc_instr_v(instr_view(*ins)));
            }
        },
        Instr::Jump(t) => {
            out.push(29);
            write_u32(out, *t as u32);
            proof {
                assert(out@ =~= base + enc_instr_v(instr_view(*ins)));
            }
        },
        Instr::JumpIfFalse(t) => {
            out.push(30);
            write_u32(out, *t as u32);
            proof {
                assert(out@ =~= base + enc_instr_v(instr_view(*ins)));
            }
        },
        Instr::Call(sv) => {
            out.push(31);
            write_str(out, sv.as_str());
            proof {
                assert(out@ =~= base + enc_instr_v(instr_view(*ins)));
            }
        },
        Instr::TailCall(sv) => {
            out.push(32);
            write_str(out, sv.as_str());
            proof {
                assert(out@ =~= base + enc_instr_v(instr_view(*ins)));
            }
        },
        Instr::CallBuiltin(sv, n) => {
            out.push(33);
            write_str(out, sv.as_str());
            write_u32(out, *n as u32);
            proof {
                assert(out@ =~= base + enc_instr_v(instr_view(*ins)));
            }
        },
        Instr::Pop => {
            out.push(34);
            proof {
                assert(out@ =~= base + enc_instr_v(instr_view(*ins)));
            }
        },
        Instr::PushNone => {
            out.push(35);
            proof {
                assert(out@ =~= base + enc_instr_v(instr_view(*ins)));
            }
        },
        Instr::Ret => {
            out.push(36);
            proof {
                assert(out@ =~= base + enc_instr_v(instr_view(*ins)));
            }
        },
        Instr::Emit => {
            out.push(37);
            proof {
                assert(out@ =~= base + enc_instr_v(instr_view(*ins)));
            }
        },
        Instr::Halt => {
            out.push(38);
            proof {
                assert(out@ =~= base + enc_instr_v(instr_view(*ins)));
            }
        },
        Instr::StoreIndex => {
            out.push(39);
            proof {
                assert(out@ =~= base + enc_instr_v(instr_view(*ins)));
            }
        },
        Instr::Attr(sv) => {
            out.push(40);
            write_str(out, sv.as_str());
            proof {
                assert(out@ =~= base + enc_instr_v(instr_view(*ins)));
            }
        },
        Instr::StoreAttr(sv) => {
            out.push(41);
            write_str(out, sv.as_str());
            proof {
                assert(out@ =~= base + enc_instr_v(instr_view(*ins)));
            }
        },
        Instr::Assert => {
            out.push(42);
            proof {
                assert(out@ =~= base + enc_instr_v(instr_view(*ins)));
            }
        },
        Instr::CallValue(n) => {
            out.push(43);
            write_u32(out, *n as u32);
            proof {
                assert(out@ =~= base + enc_instr_v(instr_view(*ins)));
            }
        },
        Instr::SetupExcept(t) => {
            out.push(44);
            write_u32(out, *t as u32);
            proof {
                assert(out@ =~= base + enc_instr_v(instr_view(*ins)));
            }
        },
        Instr::PopBlock => {
            out.push(45);
            proof {
                assert(out@ =~= base + enc_instr_v(instr_view(*ins)));
            }
        },
        Instr::Raise(k) => {
            out.push(46);
            let kb = k.code();
            out.push(kb);
            proof {
                assert(out@ =~= base + enc_instr_v(instr_view(*ins)));
            }
        },
    }
}

/// Write one function record.
fn write_rec(out: &mut Vec<u8>, e: &FuncEntry)
    requires
        rec_wf_v(rec_of(*e)),
    ensures
        final(out)@ == old(out)@ + enc_rec_v(rec_of(*e)),
{
    let ghost base = out@;
    write_str(out, e.name.as_str());
    let pn = e.func.params.len();
    write_u32(out, pn as u32);
    let ghost mid = out@;
    let mut i: usize = 0;
    while i < pn
        invariant
            i <= pn,
            pn == e.func.params@.len(),
            rec_wf_v(rec_of(*e)),
            out@ =~= mid + enc_params_v(params_view(e.func.params@.subrange(0, i as int))),
        decreases pn - i,
    {
        proof {
            assert(rec_of(*e).params[i as int] == e.func.params@[i as int]@);
            assert(str_wf_v(rec_of(*e).params[i as int]));
        }
        write_str(out, e.func.params[i].as_str());
        proof {
            lemma_enc_params_snoc(
                params_view(e.func.params@.subrange(0, i as int)),
                e.func.params@[i as int]@,
            );
            assert(params_view(e.func.params@.subrange(0, i + 1)) =~= params_view(
                e.func.params@.subrange(0, i as int),
            ).push(e.func.params@[i as int]@));
        }
        i = i + 1;
    }
    proof {
        assert(e.func.params@.subrange(0, pn as int) =~= e.func.params@);
    }
    write_u32(out, e.func.address as u32);
    proof {
        assert(out@ =~= base + enc_rec_v(rec_of(*e)));
    }
}

/// Encode a function table and an instruction stream as a binary image,
/// exactly as [`enc_image_v`] lays it out; [`lemma_image_round_trip`] shows
/// that decoding such an image yields the table and stream back.
pub fn encode_bytecode(code: &Vec<Instr>, funcs: &FuncTable) -> (out: Vec<u8>)
    requires
        image_wf_v(table_recs(funcs.entries@), code_view(code@)),
    ensures
        out@ == enc_image_v(table_recs(funcs.entries@), code_view(code@)),
{
    let ghost recs = table_recs(funcs.entries@);
    let ghost cv = code_view(code@);
    let mut out: Vec<u8> = Vec::new();
    out.push(79);
    out.push(77);
    out.push(71);
    out.push(66);
    proof {
        assert(out@ =~= seq![79u8, 77u8, 71u8, 66u8]);
    }
    write_u32(&mut out, BC_VERSION);
    let fc = funcs.entries.len();
    write_u32(&mut out, fc as u32);
    let ghost mid1 = out@;
    let mut i: usize = 0;
    while i < fc
        invariant
            i <= fc,
            fc == funcs.entries@.len(),
            recs == table_recs(funcs.entries@),
            recs_wf_v(recs),
            out@ =~= mid1 + enc_recs_v(table_recs(funcs.entries@.subrange(0, i as int))),
        decreases fc - i,
    {
        proof {
            assert(rec_of(funcs.entries@[i as int]) == recs[i as int]);
            assert(rec_wf_v(recs[i as int]));
        }
        write_rec(&mut out, &funcs.entries[i]);
        proof {
            lemma_enc_recs_snoc(
                table_recs(funcs.entries@.subrange(0, i as int)),
                rec_of(funcs.entries@[i as int]),
            );
            assert(table_recs(funcs.entries@.subrange(0, i + 1)) =~= table_recs(
                funcs.entries@.subrange(0, i as int),
            ).push(rec_of(funcs.entries@[i as int])));
        }
        i = i + 1;
    }
    proof {
        assert(funcs.entries@.subrange(0, fc as int) =~= funcs.entries@);
    }
    let cl = code.len();
    write_u32(&mut out, cl as u32);
    let ghost mid2 = out@;
    let mut j: usize = 0;
    while j < cl
        invariant
            j <= cl,
            cl == code@.len(),
            cv == code_view(code@),
            code_wf_v(cv),
            out@ =~= mid2 + enc_code_v(code_view(code@.subrange(0, j as int))),
        decreases cl - j,
    {
        proof {
            assert(instr_view(code@[j as int]) == cv[j as int]);
            assert(instr_wf_v(cv[j as int]));
        }
        write_instr(&mut out, &code[j]);
        proof {
            lemma_enc_code_snoc(
                code_view(code@.subrange(0, j as int)),
                instr_view(code@[j as int]),
            );
            assert(code_view(code@.subrange(0, j + 1)) =~= code_view(
                code@.subrange(0, j as int),
            ).push(instr_view(code@[j as int])));
        }
        j = j + 1;
    }
    proof {
        assert(code@.subrange(0, cl as int) =~= code@);
        assert(out@ =~= enc_image_v(recs, cv));
    }
    out
}

} // verus!
