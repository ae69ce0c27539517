//! The built-in function surface.
//!
//! Every built-in takes its already-evaluated arguments and yields a value
//! or a runtime error; arity and type mismatches are `TypeError`, bad
//! argument values `ValueError`. The conversion built-ins are computed
//! here; the file built-ins validate their arguments, resolve paths against
//! `current_dir`, hand plain values to the host, and map what comes back —
//! nothing is assumed about a host's answers.

use vstd::prelude::*;

use crate::envmap::EnvMap;
use crate::error::RuntimeError;
use crate::host::{FileMode, HostFileData, HostFileErr, HostIo};
use crate::text;
use crate::value::{entries_keys_unique, heap_extends, heap_wf, value_wf, values_wf, Heap, Value};
use vstd::string::{StrSliceExecFns, StringExecFns};

verus! {

// --- path resolution ---

/// Backslashes normalized to forward slashes.
pub open spec fn norm_slashes(s: Seq<char>) -> Seq<char> {
    s.map_values(
        |c: char|
            if c == '\\' {
                '/'
            } else {
                c
            },
    )
}

/// A path is relative unless it starts with a slash.
pub open spec fn is_relative(s: Seq<char>) -> bool {
    s.len() == 0 || s[0] != '/'
}

/// `base` and `rel` joined with exactly one separating slash.
pub open spec fn join_path(base: Seq<char>, rel: Seq<char>) -> Seq<char> {
    if base.len() == 0 {
        rel
    } else if base.last() == '/' {
        base + rel
    } else {
        base + seq!['/'] + rel
    }
}

/// The `current_dir` value the built-ins resolve against: the local
/// environment's binding first, then the global one.
pub open spec fn current_dir_of(em: Map<Seq<char>, Value>, gm: Map<Seq<char>, Value>) -> Option<
    Value,
> {
    if em.contains_key("current_dir"@) {
        Some(em["current_dir"@])
    } else if gm.contains_key("current_dir"@) {
        Some(gm["current_dir"@])
    } else {
        None
    }
}

/// Where a user-supplied path leads: slashes normalized, and a relative
/// path joined onto the (normalized) string bound to `current_dir`.
pub open spec fn resolve_path_spec(
    p: Seq<char>,
    em: Map<Seq<char>, Value>,
    gm: Map<Seq<char>, Value>,
) -> Seq<char> {
    let pn = norm_slashes(p);
    if is_relative(pn) {
        match current_dir_of(em, gm) {
            Some(Value::Str(c)) => join_path(norm_slashes(c@), pn),
            _ => pn,
        }
    } else {
        pn
    }
}

/// Normalize backslashes to forward slashes.
pub(crate) fn norm_slashes_exec(s: &str) -> (r: String)
    ensures
        r@ == norm_slashes(s@),
{
    let n = s.unicode_len();
    let mut r = String::new();
    let mut i: usize = 0;
    while i < n
        invariant
            i <= n,
            n == s@.len(),
            r@ =~= norm_slashes(s@.subrange(0, i as int)),
        decreases n - i,
    {
        let c = s.get_char(i);
        if c as u32 == 92 {
            text::push_char(&mut r, '/');
        } else {
            text::push_char(&mut r, c);
        }
        i = i + 1;
        proof {
            assert(s@.subrange(0, i as int).drop_last() =~= s@.subrange(0, i - 1));
            assert(r@ =~= norm_slashes(s@.subrange(0, i as int)));
        }
    }
    proof {
        assert(s@.subrange(0, n as int) =~= s@);
    }
    r
}

/// Resolve a user-supplied path against `current_dir` from the local or
/// global environment, normalizing separators.
pub fn resolve_path(path: &str, env: &EnvMap, globals: &EnvMap) -> (r: String)
    requires
        entries_keys_unique(env.entries@),
        entries_keys_unique(globals.entries@),
    ensures
        r@ == resolve_path_spec(path@, env@, globals@),
{
    let pn = norm_slashes_exec(path);
    let rel = pn.as_str().is_empty() || !(pn.as_str().get_char(0) as u32 == 47);
    proof {
        assert(rel == is_relative(pn@));
    }
    if !rel {
        return pn;
    }
    let cur = match env.get("current_dir") {
        Some(v) => Some(v),
        None => globals.get("current_dir"),
    };
    match cur {
        Some(Value::Str(c)) => {
            let base = norm_slashes_exec(c.as_str());
            if base.as_str().is_empty() {
                pn
            } else {
                let n = base.as_str().unicode_len();
                let lastc = base.as_str().get_char(n - 1);
                let mut r = base;
                if !(lastc as u32 == 47) {
                    text::push_char(&mut r, '/');
                }
                r.append(pn.as_str());
                proof {
                    if lastc as u32 == 47 {
                        assert(r@ =~= join_path(norm_slashes(c@), pn@));
                    } else {
                        assert(r@ =~= join_path(norm_slashes(c@), pn@));
                    }
                }
                r
            }
        },
        _ => pn,
    }
}

/// The index of the last slash of `s`, or a negative number when there is
/// none.
pub open spec fn last_slash(s: Seq<char>) -> int
    decreases s.len(),
{
    if s.len() == 0 {
        -1
    } else if s.last() == '/' {
        s.len() - 1
    } else {
        last_slash(s.drop_last())
    }
}

/// The textual parent of a path: everything before its last slash, the
/// root alone, or `"."` for a bare name.
pub open spec fn parent_dir_spec(s: Seq<char>) -> Seq<char> {
    let k = last_slash(s);
    if k < 0 {
        seq!['.']
    } else if k == 0 {
        seq!['/']
    } else {
        s.subrange(0, k)
    }
}

/// The parent directory of a path, as the machine seeds `current_dir`.
pub fn parent_dir(s: &str) -> (r: String)
    ensures
        r@ == parent_dir_spec(s@),
{
    let n = s.unicode_len();
    let mut i = n;
    proof {
        assert(s@.subrange(0, n as int) =~= s@);
    }
    loop
        invariant
            i <= n,
            n == s@.len(),
            last_slash(s@) == last_slash(s@.subrange(0, i as int)),
        decreases i,
    {
        if i == 0 {
            let mut dot = String::new();
            text::push_char(&mut dot, '.');
            proof {
                assert(dot@ =~= seq!['.']);
            }
            return dot;
        }
        let c = s.get_char(i - 1);
        if c as u32 == 47 {
            proof {
                assert(s@.subrange(0, i as int).last() == s@[i - 1]);
                assert(last_slash(s@.subrange(0, i as int)) == i - 1);
            }
            if i - 1 == 0 {
                let mut root = String::new();
                text::push_char(&mut root, '/');
                proof {
                    assert(root@ =~= seq!['/']);
                }
                return root;
            }
            let part = s.substring_char(0, i - 1);
            return part.to_owned();
        }
        proof {
            assert(s@.subrange(0, i as int).last() == s@[i - 1]);
            assert(s@.subrange(0, i as int).drop_last() =~= s@.subrange(0, i - 1));
        }
        i = i - 1;
    }
}

// --- outcome specifications ---

/// Is `r` the given `TypeError`?
pub open spec fn is_type_err(r: Result<Value, RuntimeError>, msg: Seq<char>) -> bool {
    r matches Err(RuntimeError::TypeError(m)) && m@ == msg
}

/// Is `r` the given `ValueError`?
pub open spec fn is_value_err(r: Result<Value, RuntimeError>, msg: Seq<char>) -> bool {
    r matches Err(RuntimeError::ValueError(m)) && m@ == msg
}

/// The mode a mode string denotes, if any.
pub open spec fn mode_of(m: Seq<char>) -> Option<FileMode> {
    if m == "r"@ {
        Some(FileMode::Read)
    } else if m == "rb"@ {
        Some(FileMode::ReadBin)
    } else if m == "w"@ {
        Some(FileMode::Write)
    } else if m == "wb"@ {
        Some(FileMode::WriteBin)
    } else if m == "a"@ {
        Some(FileMode::Append)
    } else if m == "ab"@ {
        Some(FileMode::AppendBin)
    } else {
        None
    }
}

/// The mask the two-argument `binary` built-in applies: the low `w` bits.
pub open spec fn bin_mask(w: i64) -> u64 {
    if w >= 64 {
        0xffff_ffff_ffff_ffffu64
    } else {
        ((1u64 << (w as u64)) - 1) as u64
    }
}

/// Do all elements of `vs` fit in a byte?
pub open spec fn all_bytes(vs: Seq<Value>) -> bool {
    forall|i: int|
        0 <= i < vs.len() ==> ((#[trigger] vs[i]) matches Value::Int(b) && 0 <= b <= 255)
}

/// What each built-in other than the dynamic dispatcher returns or changes.
/// Where a host answers (the file built-ins), this holds for every answer.
pub open spec fn base_builtin_post(
    n: Seq<char>,
    args: Seq<Value>,
    h0: Heap,
    hf: Heap,
    em: Map<Seq<char>, Value>,
    gm: Map<Seq<char>, Value>,
    r: Result<Value, RuntimeError>,
) -> bool {
    if n == "chr"@ {
        &&& hf == h0
        &&& if args.len() == 1 && (args[0] matches Value::Int(_)) {
            r matches Ok(v) && (v matches Value::Str(s) && s@ == seq![
                ((args[0]->Int_0 as u8) as char),
            ])
        } else {
            is_type_err(r, "chr() expects one integer"@)
        }
    } else if n == "ascii"@ {
        &&& hf == h0
        &&& if args.len() == 1 && (args[0] matches Value::Str(sv) && sv@.len() == 1) {
            r == Ok::<Value, RuntimeError>(Value::Int(args[0]->Str_0@[0] as i64))
        } else {
            is_type_err(r, "ascii() expects a single character (arity mismatch)"@)
        }
    } else if n == "hex"@ {
        &&& hf == h0
        &&& if args.len() == 1 && (args[0] matches Value::Int(_)) {
            r matches Ok(v) && (v matches Value::Str(s) && s@ == text::hex_str(
                (args[0]->Int_0 as u64) as nat,
            ))
        } else {
            is_type_err(r, "hex() expects one integer (arity mismatch)"@)
        }
    } else if n == "binary"@ {
        &&& hf == h0
        &&& if args.len() == 1 && (args[0] matches Value::Int(_)) {
            r matches Ok(v) && (v matches Value::Str(s) && s@ == text::bin_str(
                (args[0]->Int_0 as u64) as nat,
            ))
        } else if args.len() == 2 && (args[0] matches Value::Int(_)) && (args[1] matches
        Value::Int(_)) {
            let w = args[1]->Int_0;
            if w <= 0 {
                is_value_err(r, "binary() width must be positive"@)
            } else if w > usize::MAX {
                is_value_err(r, "binary() width exceeds the machine limit"@)
            } else {
                r matches Ok(v) && (v matches Value::Str(s) && s@ == text::bin_pad(
                    ((args[0]->Int_0 as u64) & bin_mask(w)) as nat,
                    w as nat,
                ))
            }
        } else {
            is_type_err(r, "binary() expects one or two integers (arity mismatch)"@)
        }
    } else if n == "length"@ {
        &&& hf == h0
        &&& if args.len() != 1 {
            is_type_err(r, "length() expects one positional argument (arity mismatch)"@)
        } else {
            match args[0] {
                Value::List(lh) => r == Ok::<Value, RuntimeError>(
                    Value::Int(h0.lists@[lh as int]@.len() as i64),
                ),
                Value::Str(s) => r == Ok::<Value, RuntimeError>(Value::Int(s@.len() as i64)),
                _ => is_type_err(r, "length() expects list or string (type mismatch)"@),
            }
        }
    } else if n == "freeze"@ {
        if args.len() == 1 && (args[0] matches Value::Dict(_)) {
            &&& hf.lists@ == h0.lists@
            &&& hf.dicts@ == h0.dicts@
            &&& hf.frozen@.len() == h0.frozen@.len() + 1
            &&& hf.frozen@.subrange(0, h0.frozen@.len() as int) == h0.frozen@
            &&& hf.frozen@.last()@ == h0.dicts@[args[0]->Dict_0 as int]@
            &&& r == Ok::<Value, RuntimeError>(
                Value::FrozenDict(h0.frozen@.len() as usize),
            )
        } else if args.len() == 1 && (args[0] matches Value::FrozenDict(_)) {
            hf == h0 && r == Ok::<Value, RuntimeError>(args[0])
        } else {
            hf == h0 && is_type_err(r, "freeze() expects a dict (type mismatch)"@)
        }
    } else if n == "panic"@ {
        &&& hf == h0
        &&& if args.len() == 1 && (args[0] matches Value::Str(_)) {
            r matches Err(RuntimeError::Raised(m)) && m@ == args[0]->Str_0@
        } else {
            is_type_err(r, "panic() expects a string (type mismatch)"@)
        }
    } else if n == "raise"@ {
        &&& hf == h0
        &&& if args.len() == 1 && (args[0] matches Value::Str(_)) {
            r matches Err(RuntimeError::Raised(m)) && m@ == args[0]->Str_0@
        } else {
            is_type_err(r, "raise() expects a string (type mismatch)"@)
        }
    } else if n == "read_file"@ {
        &&& hf == h0
        &&& if args.len() == 1 && (args[0] matches Value::Str(_)) {
            ||| (r matches Ok(v) && (v matches Value::Str(_)))
            ||| (r matches Err(RuntimeError::ModuleImportError(m)) && (exists|tail: Seq<char>|
                m@ == "failed to read '"@ + resolve_path_spec(args[0]->Str_0@, em, gm) + "': "@
                    + tail))
        } else {
            is_type_err(r, "read_file() expects a file path"@)
        }
    } else if n == "file_exists"@ {
        &&& hf == h0
        &&& if args.len() == 1 && (args[0] matches Value::Str(_)) {
            r matches Ok(v) && (v matches Value::Bool(_))
        } else {
            is_type_err(r, "file_exists() expects a path"@)
        }
    } else if n == "file_open"@ {
        &&& hf == h0
        &&& if args.len() == 2 && (args[0] matches Value::Str(_)) && (args[1] matches
        Value::Str(_)) {
            if mode_of(args[1]->Str_0@) is None {
                is_value_err(r, "invalid file mode"@)
            } else {
                ||| (r matches Ok(v) && (v matches Value::Int(_)))
                ||| (r matches Err(RuntimeError::ValueError(m)) && (exists|tail: Seq<char>|
                    m@ == "cannot open '"@ + resolve_path_spec(args[0]->Str_0@, em, gm) + "': "@
                        + tail))
            }
        } else {
            is_type_err(r, "file_open() expects path and mode"@)
        }
    } else if n == "file_read"@ {
        if args.len() == 1 && (args[0] matches Value::Int(_)) {
            ||| (hf == h0 && (r matches Ok(v) && (v matches Value::Str(_))))
            ||| (r matches Ok(v) && v == Value::List(h0.lists@.len() as usize) && {
                &&& hf.dicts@ == h0.dicts@
                &&& hf.frozen@ == h0.frozen@
                &&& hf.lists@.len() == h0.lists@.len() + 1
                &&& hf.lists@.subrange(0, h0.lists@.len() as int) == h0.lists@
                &&& all_bytes(hf.lists@.last()@)
            })
            ||| (hf == h0 && r matches Err(RuntimeError::ValueError(_)))
        } else {
            hf == h0 && is_type_err(r, "file_read() expects a handle"@)
        }
    } else if n == "file_write"@ {
        &&& hf == h0
        &&& if args.len() == 2 && (args[0] matches Value::Int(_)) && (args[1] matches
        Value::Str(_)) {
            ||| r == Ok::<Value, RuntimeError>(
                Value::Int(
                    (vstd::utf8::encode_utf8(args[1]->Str_0@).len() as usize) as i64,
                ),
            )
            ||| is_type_err(r, "file_write() binary handle expects list"@)
            ||| r matches Err(RuntimeError::ValueError(_))
        } else if args.len() == 2 && (args[0] matches Value::Int(_)) && (args[1] matches
        Value::List(_)) {
            if all_bytes(h0.lists@[args[1]->List_0 as int]@) {
                ||| r == Ok::<Value, RuntimeError>(
                    Value::Int(h0.lists@[args[1]->List_0 as int]@.len() as i64),
                )
                ||| is_type_err(r, "file_write() text handle expects string"@)
                ||| r matches Err(RuntimeError::ValueError(_))
            } else {
                is_type_err(r, "file_write() expects bytes 0-255"@)
            }
        } else {
            is_type_err(r, "file_write() expects handle and data"@)
        }
    } else if n == "file_close"@ {
        &&& hf == h0
        &&& if args.len() == 1 && (args[0] matches Value::Int(_)) {
            ||| r == Ok::<Value, RuntimeError>(Value::Null)
            ||| is_value_err(r, "invalid file handle"@)
        } else {
            is_type_err(r, "file_close() expects handle"@)
        }
    } else {
        hf == h0 && (r matches Err(RuntimeError::TypeError(m)) && m@ == "unknown builtin: "@ + n)
    }
}

/// Does the dynamic dispatcher's argument pair have the right shape?
pub open spec fn cb_args_ok(args: Seq<Value>) -> bool {
    args.len() == 2 && (args[0] matches Value::Str(_)) && (args[1] matches Value::List(_))
}

/// Where a chain of dynamic dispatches ends: at a built-in proper, or at a
/// malformed dispatcher call.
pub open spec fn cb_end(
    n: Seq<char>,
    a: Seq<Value>,
    h0: Heap,
    hf: Heap,
    em: Map<Seq<char>, Value>,
    gm: Map<Seq<char>, Value>,
    r: Result<Value, RuntimeError>,
) -> bool {
    if n == "call_builtin"@ {
        hf == h0 && is_type_err(r, "call_builtin() expects a name and argument list"@)
    } else {
        base_builtin_post(n, a, h0, hf, em, gm, r)
    }
}

/// What a dynamic dispatch resolves to once the dispatcher has unfolded at
/// least once: a built-in proper, a malformed dispatcher call, or — only
/// where the argument lists chase the dispatcher ever deeper — the nesting
/// guard.
pub open spec fn cb_tail_post(
    n: Seq<char>,
    a: Seq<Value>,
    h0: Heap,
    hf: Heap,
    em: Map<Seq<char>, Value>,
    gm: Map<Seq<char>, Value>,
    r: Result<Value, RuntimeError>,
) -> bool {
    if n == "call_builtin"@ {
        if cb_args_ok(a) {
            ||| exists|n2: Seq<char>, a2: Seq<Value>| cb_end(n2, a2, h0, hf, em, gm, r)
            ||| (hf == h0 && (r matches Err(RuntimeError::VmInvariant(m)) && m@
                == "call_builtin nesting too deep"@))
        } else {
            hf == h0 && is_type_err(r, "call_builtin() expects a name and argument list"@)
        }
    } else {
        base_builtin_post(n, a, h0, hf, em, gm, r)
    }
}

/// What dispatching a built-in by name returns or changes. The dynamic
/// dispatcher behaves exactly as the built-in named by its first argument
/// on the elements of the list behind its second: one unfolding is stated
/// here, and deeper chains fall under [`cb_tail_post`] (a chain whose
/// argument lists cycle through the dispatcher itself never returns).
pub open spec fn builtin_post(
    n: Seq<char>,
    args: Seq<Value>,
    h0: Heap,
    hf: Heap,
    em: Map<Seq<char>, Value>,
    gm: Map<Seq<char>, Value>,
    r: Result<Value, RuntimeError>,
) -> bool {
    if n == "call_builtin"@ {
        if cb_args_ok(args) {
            cb_tail_post(
                args[0]->Str_0@,
                h0.lists@[args[1]->List_0 as int]@,
                h0,
                hf,
                em,
                gm,
                r,
            )
        } else {
            hf == h0 && is_type_err(r, "call_builtin() expects a name and argument list"@)
        }
    } else {
        base_builtin_post(n, args, h0, hf, em, gm, r)
    }
}

/// Where the dispatcher's unfolding loop stands: still at the original
/// call, exactly one unfolding in, or deeper inside a chain whose first
/// unfolding already chased the dispatcher.
pub open spec fn chase_inv(
    name: Seq<char>,
    args: Seq<Value>,
    h0: Heap,
    nm: Seq<char>,
    ca: Seq<Value>,
    budget: u64,
) -> bool {
    ||| (nm == name && ca == args && budget == u64::MAX)
    ||| (name == "call_builtin"@ && cb_args_ok(args) && {
        let in_n = args[0]->Str_0@;
        let in_a = h0.lists@[args[1]->List_0 as int]@;
        ||| (nm == in_n && ca == in_a)
        ||| (in_n == "call_builtin"@ && cb_args_ok(in_a))
    })
}

/// Dispatch a built-in by name.
pub fn call_builtin<H: HostIo>(
    name: &str,
    args: Vec<Value>,
    heap: &mut Heap,
    env: &EnvMap,
    globals: &EnvMap,
    host: &mut H,
) -> (r: Result<Value, RuntimeError>)
    requires
        heap_wf(*old(heap)),
        values_wf(args@, *old(heap)),
        entries_keys_unique(env.entries@),
        entries_keys_unique(globals.entries@),
    ensures
        heap_wf(*final(heap)),
        heap_extends(*final(heap), *old(heap)),
        final(host).log() == old(host).log(),
        r matches Ok(v) ==> value_wf(v, *final(heap)),
        builtin_post(name@, args@, *old(heap), *final(heap), env@, globals@, r),
{
    let ghost h0 = *old(heap);
    let mut nm = String::from_str(name);
    let mut cur_args = args;
    let mut budget: u64 = u64::MAX;
    loop
        invariant
            heap_wf(*heap),
            *heap == h0,
            values_wf(cur_args@, h0),
            entries_keys_unique(env.entries@),
            entries_keys_unique(globals.entries@),
            chase_inv(name@, args@, h0, nm@, cur_args@, budget),
        ensures
            heap_wf(*heap),
            *heap == h0,
            values_wf(cur_args@, h0),
            entries_keys_unique(env.entries@),
            entries_keys_unique(globals.entries@),
            nm@ != "call_builtin"@,
            chase_inv(name@, args@, h0, nm@, cur_args@, budget),
        decreases budget,
    {
        if !text::str_eq(nm.as_str(), "call_builtin") {
            break ;
        }
        // Unfold one dynamic dispatch: the named built-in with the listed
        // arguments.
        if cur_args.len() == 2 {
            let inner = match &cur_args[0] {
                Value::Str(s) => Some(s.clone()),
                _ => None,
            };
            let lh = match &cur_args[1] {
                Value::List(l) => Some(*l),
                _ => None,
            };
            match (inner, lh) {
                (Some(iname), Some(listh)) => {
                    if budget == 0 {
                        // No real dispatch chain is anywhere near this deep;
                        // a cyclic one never ends, and the machine reports it
                        // rather than spin.
                        let e = Err::<Value, RuntimeError>(
                            RuntimeError::VmInvariant(
                                String::from_str("call_builtin nesting too deep"),
                            ),
                        );
                        proof {
                            assert(!(nm@ == name@ && cur_args@ == args@ && budget == u64::MAX));
                        }
                        return e;
                    }
                    budget = budget - 1;
                    proof {
                        assert(value_wf(cur_args@[1], h0));
                    }
                    let inner_args = crate::value::values_clone(&heap.lists[listh]);
                    proof {
                        assert(values_wf(inner_args@, h0));
                    }
                    nm = iname;
                    cur_args = inner_args;
                },
                _ => {
                    let e = Err::<Value, RuntimeError>(
                        RuntimeError::TypeError(
                            String::from_str("call_builtin() expects a name and argument list"),
                        ),
                    );
                    proof {
                        lemma_chase_mismatch(name@, args@, h0, nm@, cur_args@, budget, *heap, env@, globals@, e);
                    }
                    return e;
                },
            }
        } else {
            let e = Err::<Value, RuntimeError>(
                RuntimeError::TypeError(
                    String::from_str("call_builtin() expects a name and argument list"),
                ),
            );
            proof {
                lemma_chase_mismatch(name@, args@, h0, nm@, cur_args@, budget, *heap, env@, globals@, e);
            }
            return e;
        }
    }
    let ghost nv = nm@;
    let ghost ca = cur_args@;
    let r = dispatch_builtin(&nm, cur_args, heap, env, globals, host);
    proof {
        if !(nv == name@ && ca == args@) {
            assert(name@ == "call_builtin"@ && cb_args_ok(args@));
            let in_n = args@[0]->Str_0@;
            let in_a = h0.lists@[args@[1]->List_0 as int]@;
            if nv == in_n && ca == in_a {
            } else {
                assert(cb_end(nv, ca, h0, *heap, env@, globals@, r));
            }
        }
    }
    r
}

/// A malformed dispatcher call at any depth of the chase satisfies the
/// dispatcher's contract.
proof fn lemma_chase_mismatch(
    name: Seq<char>,
    args: Seq<Value>,
    h0: Heap,
    nm: Seq<char>,
    ca: Seq<Value>,
    budget: u64,
    hf: Heap,
    em: Map<Seq<char>, Value>,
    gm: Map<Seq<char>, Value>,
    e: Result<Value, RuntimeError>,
)
    requires
        chase_inv(name, args, h0, nm, ca, budget),
        nm == "call_builtin"@,
        !cb_args_ok(ca),
        hf == h0,
        is_type_err(e, "call_builtin() expects a name and argument list"@),
    ensures
        builtin_post(name, args, h0, hf, em, gm, e),
{
    if nm == name && ca == args {
    } else {
        let in_n = args[0]->Str_0@;
        let in_a = h0.lists@[args[1]->List_0 as int]@;
        if nm == in_n && ca == in_a {
        } else {
            assert(cb_end("call_builtin"@, ca, h0, hf, em, gm, e));
        }
    }
}

/// The arity and type checks, computation, path resolution and error
/// mapping of each named built-in.
#[verifier::loop_isolation(false)]
fn dispatch_builtin<H: HostIo>(
    name: &String,
    args: Vec<Value>,
    heap: &mut Heap,
    env: &EnvMap,
    globals: &EnvMap,
    host: &mut H,
) -> (r: Result<Value, RuntimeError>)
    requires
        heap_wf(*old(heap)),
        values_wf(args@, *old(heap)),
        entries_keys_unique(env.entries@),
        entries_keys_unique(globals.entries@),
        name@ != "call_builtin"@,
    ensures
        heap_wf(*final(heap)),
        heap_extends(*final(heap), *old(heap)),
        final(host).log() == old(host).log(),
        r matches Ok(v) ==> value_wf(v, *final(heap)),
        base_builtin_post(name@, args@, *old(heap), *final(heap), env@, globals@, r),
{
    let ghost h0 = *old(heap);
    if text::str_eq(name.as_str(), "chr") {
        if args.len() == 1 {
            match &args[0] {
                Value::Int(i) => {
                    let mut s1 = String::new();
                    text::push_char(&mut s1, (*i as u8) as char);
                    proof {
                        assert(s1@ =~= seq![((args@[0]->Int_0 as u8) as char)]);
                    }
                    return Ok(Value::Str(s1));
                },
                _ => {},
            }
        }
        return Err(RuntimeError::TypeError(String::from_str("chr() expects one integer")));
    }
    if text::str_eq(name.as_str(), "ascii") {
        if args.len() == 1 {
            match &args[0] {
                Value::Str(sv) => {
                    if sv.as_str().unicode_len() == 1 {
                        let c = sv.as_str().get_char(0);
                        return Ok(Value::Int(c as i64));
                    }
                },
                _ => {},
            }
        }
        return Err(
            RuntimeError::TypeError(
                String::from_str("ascii() expects a single character (arity mismatch)"),
            ),
        );
    }
    if text::str_eq(name.as_str(), "hex") {
        if args.len() == 1 {
            match &args[0] {
                Value::Int(i) => {
                    return Ok(Value::Str(text::u64_to_hex(*i as u64)));
                },
                _ => {},
            }
        }
        return Err(
            RuntimeError::TypeError(
                String::from_str("hex() expects one integer (arity mismatch)"),
            ),
        );
    }
    if text::str_eq(name.as_str(), "binary") {
        if args.len() == 1 {
            match &args[0] {
                Value::Int(i) => {
                    return Ok(Value::Str(text::u64_to_bin(*i as u64)));
                },
                _ => {},
            }
        }
        if args.len() == 2 {
            match (&args[0], &args[1]) {
                (Value::Int(nv), Value::Int(w)) => {
                    if *w <= 0 {
                        return Err(
                            RuntimeError::ValueError(
                                String::from_str("binary() width must be positive"),
                            ),
                        );
                    }
                    if (*w as u64) > (usize::MAX as u64) {
                        return Err(
                            RuntimeError::ValueError(
                                String::from_str("binary() width exceeds the machine limit"),
                            ),
                        );
                    }
                    let mask: u64 = if *w >= 64 {
                        u64::MAX
                    } else {
                        let wa = *w as u64;
                        proof {
                            assert((1u64 << wa) >= 1) by (bit_vector)
                                requires
                                    wa < 64,
                            ;
                        }
                        (1u64 << wa) - 1
                    };
                    let bits = (*nv as u64) & mask;
                    return Ok(Value::Str(text::u64_to_bin_pad(bits, *w as usize)));
                },
                _ => {},
            }
        }
        return Err(
            RuntimeError::TypeError(
                String::from_str("binary() expects one or two integers (arity mismatch)"),
            ),
        );
    }
    if text::str_eq(name.as_str(), "length") {
        if args.len() != 1 {
            return Err(
                RuntimeError::TypeError(
                    String::from_str("length() expects one positional argument (arity mismatch)"),
                ),
            );
        }
        proof {
            assert(value_wf(args@[0], h0));
        }
        match &args[0] {
            Value::List(lh) => {
                let n = heap.list_len(*lh);
                return Ok(Value::Int(len_i64(n)));
            },
            Value::Str(sv) => {
                let n = sv.as_str().unicode_len();
                return Ok(Value::Int(len_i64(n)));
            },
            _ => {},
        }
        return Err(
            RuntimeError::TypeError(
                String::from_str("length() expects list or string (type mismatch)"),
            ),
        );
    }
    if text::str_eq(name.as_str(), "freeze") {
        if args.len() == 1 {
            match &args[0] {
                Value::Dict(dh) => {
                    proof {
                        assert(value_wf(args@[0], h0));
                    }
                    let es = heap.dict_entries(*dh);
                    let fh = heap.new_frozen(es);
                    proof {
                        assert(heap.frozen@.subrange(0, h0.frozen@.len() as int)
                            =~= h0.frozen@);
                    }
                    return Ok(Value::FrozenDict(fh));
                },
                Value::FrozenDict(fh) => {
                    return Ok(Value::FrozenDict(*fh));
                },
                _ => {},
            }
        }
        return Err(
            RuntimeError::TypeError(String::from_str("freeze() expects a dict (type mismatch)")),
        );
    }
    if text::str_eq(name.as_str(), "panic") {
        if args.len() == 1 {
            match &args[0] {
                Value::Str(m) => {
                    return Err(RuntimeError::Raised(m.clone()));
                },
                _ => {},
            }
        }
        return Err(
            RuntimeError::TypeError(String::from_str("panic() expects a string (type mismatch)")),
        );
    }
    if text::str_eq(name.as_str(), "raise") {
        if args.len() == 1 {
            match &args[0] {
                Value::Str(m) => {
                    return Err(RuntimeError::Raised(m.clone()));
                },
                _ => {},
            }
        }
        return Err(
            RuntimeError::TypeError(String::from_str("raise() expects a string (type mismatch)")),
        );
    }
    if text::str_eq(name.as_str(), "read_file") {
        if args.len() == 1 {
            match &args[0] {
                Value::Str(p) => {
                    let resolved = resolve_path(p.as_str(), env, globals);
                    match host.read_file(&resolved) {
                        Ok(content) => {
                            return Ok(Value::Str(content));
                        },
                        Err(err) => {
                            let mut m = String::from_str("failed to read '");
                            m.append(resolved.as_str());
                            m.append("': ");
                            m.append(err.as_str());
                            proof {
                                assert(m@ =~= "failed to read '"@ + resolve_path_spec(
                                    args@[0]->Str_0@,
                                    env@,
                                    globals@,
                                ) + "': "@ + err@);
                            }
                            return Err(RuntimeError::ModuleImportError(m));
                        },
                    }
                },
                _ => {},
            }
        }
        return Err(RuntimeError::TypeError(String::from_str("read_file() expects a file path")));
    }
    if text::str_eq(name.as_str(), "file_exists") {
        if args.len() == 1 {
            match &args[0] {
                Value::Str(p) => {
                    let resolved = resolve_path(p.as_str(), env, globals);
                    let b = host.file_exists(&resolved);
                    return Ok(Value::Bool(b));
                },
                _ => {},
            }
        }
        return Err(RuntimeError::TypeError(String::from_str("file_exists() expects a path")));
    }
    if text::str_eq(name.as_str(), "file_open") {
        if args.len() == 2 {
            match (&args[0], &args[1]) {
                (Value::Str(p), Value::Str(m)) => {
                    let mode: Option<FileMode> = if text::str_eq(m.as_str(), "r") {
                        Some(FileMode::Read)
                    } else if text::str_eq(m.as_str(), "rb") {
                        Some(FileMode::ReadBin)
                    } else if text::str_eq(m.as_str(), "w") {
                        Some(FileMode::Write)
                    } else if text::str_eq(m.as_str(), "wb") {
                        Some(FileMode::WriteBin)
                    } else if text::str_eq(m.as_str(), "a") {
                        Some(FileMode::Append)
                    } else if text::str_eq(m.as_str(), "ab") {
                        Some(FileMode::AppendBin)
                    } else {
                        None
                    };
                    match mode {
                        None => {
                            return Err(
                                RuntimeError::ValueError(String::from_str("invalid file mode")),
                            );
                        },
                        Some(md) => {
                            let resolved = resolve_path(p.as_str(), env, globals);
                            match host.file_open(&resolved, md) {
                                Ok(hd) => {
                                    return Ok(Value::Int(hd));
                                },
                                Err(err) => {
                                    let mut msg = String::from_str("cannot open '");
                                    msg.append(resolved.as_str());
                                    msg.append("': ");
                                    msg.append(err.as_str());
                                    proof {
                                        assert(msg@ =~= "cannot open '"@ + resolve_path_spec(
                                            args@[0]->Str_0@,
                                            env@,
                                            globals@,
                                        ) + "': "@ + err@);
                                    }
                                    return Err(RuntimeError::ValueError(msg));
                                },
                            }
                        },
                    }
                },
                _ => {},
            }
        }
        return Err(
            RuntimeError::TypeError(String::from_str("file_open() expects path and mode")),
        );
    }
    if text::str_eq(name.as_str(), "file_read") {
        if args.len() == 1 {
            match &args[0] {
                Value::Int(hd) => {
                    match host.file_read(*hd) {
                        Ok(HostFileData::Text(content)) => {
                            return Ok(Value::Str(content));
                        },
                        Ok(HostFileData::Bytes(bs)) => {
                            let m = bs.len();
                            let mut vals: Vec<Value> = Vec::new();
                            let mut i: usize = 0;
                            while i < m
                                invariant
                                    i <= m,
                                    m == bs@.len(),
                                    vals@.len() == i,
                                    forall|j: int|
                                        0 <= j < i ==> ((#[trigger] vals@[j]) matches Value::Int(
                                            b,
                                        ) && 0 <= b <= 255),
                                decreases m - i,
                            {
                                let b = bs[i];
                                vals.push(Value::Int(b as i64));
                                i = i + 1;
                            }
                            proof {
                                assert(values_wf(vals@, *heap));
                                assert(all_bytes(vals@));
                            }
                            let lhn = heap.new_list(vals);
                            proof {
                                assert(heap.lists@.subrange(0, h0.lists@.len() as int)
                                    =~= h0.lists@);
                            }
                            return Ok(Value::List(lhn));
                        },
                        Err(HostFileErr::Io(m)) => {
                            return Err(RuntimeError::ValueError(m));
                        },
                        Err(_) => {
                            return Err(
                                RuntimeError::ValueError(String::from_str("invalid file handle")),
                            );
                        },
                    }
                },
                _ => {},
            }
        }
        return Err(RuntimeError::TypeError(String::from_str("file_read() expects a handle")));
    }
    if text::str_eq(name.as_str(), "file_write") {
        if args.len() == 2 {
            match (&args[0], &args[1]) {
                (Value::Int(hd), Value::Str(d)) => {
                    match host.file_write_text(*hd, d) {
                        Ok(()) => {
                            let bl = d.as_str().len();
                            return Ok(Value::Int(len_i64(bl)));
                        },
                        Err(HostFileErr::WrongKind) => {
                            return Err(
                                RuntimeError::TypeError(
                                    String::from_str("file_write() binary handle expects list"),
                                ),
                            );
                        },
                        Err(HostFileErr::BadHandle) => {
                            return Err(
                                RuntimeError::ValueError(String::from_str("invalid file handle")),
                            );
                        },
                        Err(HostFileErr::Io(m)) => {
                            return Err(RuntimeError::ValueError(m));
                        },
                    }
                },
                (Value::Int(hd), Value::List(lh)) => {
                    proof {
                        assert(value_wf(args@[1], h0));
                    }
                    let n = heap.list_len(*lh);
                    let mut bytes: Vec<u8> = Vec::new();
                    let mut i: usize = 0;
                    while i < n
                        invariant
                            i <= n,
                            heap_wf(*heap),
                            *heap == h0,
                            lh < heap.lists@.len(),
                            n == heap.lists@[*lh as int]@.len(),
                            forall|j: int|
                                0 <= j < i ==> ((#[trigger] heap.lists@[*lh as int]@[j]) matches
                                Value::Int(b) && 0 <= b <= 255),
                        decreases n - i,
                    {
                        let v = heap.list_get(*lh, i);
                        match v {
                            Value::Int(b) => {
                                if b >= 0 && b <= 255 {
                                    bytes.push(b as u8);
                                } else {
                                    proof {
                                        assert(!all_bytes(h0.lists@[*lh as int]@));
                                    }
                                    return Err(
                                        RuntimeError::TypeError(
                                            String::from_str("file_write() expects bytes 0-255"),
                                        ),
                                    );
                                }
                            },
                            _ => {
                                proof {
                                    assert(!all_bytes(h0.lists@[*lh as int]@));
                                }
                                return Err(
                                    RuntimeError::TypeError(
                                        String::from_str("file_write() expects bytes 0-255"),
                                    ),
                                );
                            },
                        }
                        i = i + 1;
                    }
                    proof {
                        assert(all_bytes(h0.lists@[*lh as int]@));
                    }
                    match host.file_write_bytes(*hd, &bytes) {
                        Ok(()) => {
                            return Ok(Value::Int(len_i64(n)));
                        },
                        Err(HostFileErr::WrongKind) => {
                            return Err(
                                RuntimeError::TypeError(
                                    String::from_str("file_write() text handle expects string"),
                                ),
                            );
                        },
                        Err(HostFileErr::BadHandle) => {
                            return Err(
                                RuntimeError::ValueError(String::from_str("invalid file handle")),
                            );
                        },
                        Err(HostFileErr::Io(m)) => {
                            return Err(RuntimeError::ValueError(m));
                        },
                    }
                },
                _ => {},
            }
        }
        return Err(
            RuntimeError::TypeError(String::from_str("file_write() expects handle and data")),
        );
    }
    if text::str_eq(name.as_str(), "file_close") {
        if args.len() == 1 {
            match &args[0] {
                Value::Int(hd) => {
                    if host.file_close(*hd) {
                        return Ok(Value::Null);
                    } else {
                        return Err(
                            RuntimeError::ValueError(String::from_str("invalid file handle")),
                        );
                    }
                },
                _ => {},
            }
        }
        return Err(RuntimeError::TypeError(String::from_str("file_close() expects handle")));
    }
    let mut m = String::from_str("unknown builtin: ");
    m.append(name.as_str());
    Err(RuntimeError::TypeError(m))
}

/// An aggregate length as a signed integer (truncating, as `as` does).
fn len_i64(n: usize) -> (r: i64)
    ensures
        r == n as i64,
{
    n as i64
}

} // verus!
