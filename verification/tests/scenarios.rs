//! Whole-program behavior: literal instruction streams and the output,
//! result or error each one must produce.

use omg_runtime::bytecode::{FuncTable, Function, Instr};
use omg_runtime::error::{ErrorKind, RuntimeError};
use omg_runtime::host::BufferHost;
use omg_runtime::vm::run;

fn run_collect(code: Vec<Instr>, funcs: &FuncTable) -> (Result<(), RuntimeError>, Vec<String>) {
    let mut host = BufferHost::new();
    let r = run(&code, funcs, &Vec::new(), &mut host);
    (r, host.lines)
}

#[test]
fn emit_sum_prints_five() {
    let code = vec![
        Instr::PushInt(2),
        Instr::PushInt(3),
        Instr::Add,
        Instr::Emit,
        Instr::Halt,
    ];
    let (r, lines) = run_collect(code, &FuncTable::new());
    assert!(r.is_ok());
    assert_eq!(lines, vec!["5".to_string()]);
}

#[test]
fn zero_division_surfaces_with_message() {
    let code = vec![Instr::PushInt(1), Instr::PushInt(0), Instr::Div, Instr::Halt];
    let (r, _) = run_collect(code, &FuncTable::new());
    let e = r.unwrap_err();
    assert_eq!(e, RuntimeError::ZeroDivisionError);
    assert_eq!(
        e.display(),
        "ZeroDivisionError: integer division or modulo by zero"
    );
}

#[test]
fn frozen_write_surfaces_with_message() {
    let code = vec![
        Instr::BuildDict(0),
        Instr::CallBuiltin("freeze".to_string(), 1),
        Instr::PushInt(1),
        Instr::StoreAttr("a".to_string()),
        Instr::Halt,
    ];
    let (r, _) = run_collect(code, &FuncTable::new());
    let e = r.unwrap_err();
    assert_eq!(e, RuntimeError::FrozenWriteError);
    assert_eq!(e.display(), "FrozenWriteError: Imported modules are read-only");
}

#[test]
fn caught_raise_leaves_error_string_for_handler() {
    // The handler at 5 emits what the unwind pushed, then halts cleanly.
    let code = vec![
        Instr::SetupExcept(5),
        Instr::PushStr("boom".to_string()),
        Instr::Raise(ErrorKind::Generic),
        Instr::PopBlock,
        Instr::Jump(7),
        Instr::Emit,
        Instr::Halt,
        Instr::Halt,
    ];
    let (r, lines) = run_collect(code, &FuncTable::new());
    assert!(r.is_ok());
    assert_eq!(lines, vec!["RuntimeError: boom".to_string()]);
}

#[test]
fn undefined_ident_surfaces_with_message() {
    let code = vec![Instr::Load("x".to_string()), Instr::Halt];
    let (r, _) = run_collect(code, &FuncTable::new());
    let e = r.unwrap_err();
    assert_eq!(e, RuntimeError::UndefinedIdentError("x".to_string()));
    assert_eq!(e.display(), "UndefinedIdentError: x");
}

#[test]
fn list_concat_extends_left_list_through_both_aliases() {
    // Store one list under two names, concatenate through the aliases, and
    // observe the mutation through both.
    let code = vec![
        Instr::PushInt(1),
        Instr::PushInt(2),
        Instr::BuildList(2),
        Instr::Store("a".to_string()),
        Instr::Load("a".to_string()),
        Instr::Store("b".to_string()),
        Instr::Load("a".to_string()),
        Instr::Load("b".to_string()),
        Instr::Add,
        Instr::Pop,
        Instr::Load("a".to_string()),
        Instr::Emit,
        Instr::Load("b".to_string()),
        Instr::Emit,
        Instr::Halt,
    ];
    let (r, lines) = run_collect(code, &FuncTable::new());
    assert!(r.is_ok());
    assert_eq!(
        lines,
        vec!["[1, 2, 1, 2]".to_string(), "[1, 2, 1, 2]".to_string()]
    );
}

#[test]
fn slice_bounds_error_on_empty_list() {
    let code = vec![
        Instr::BuildList(0),
        Instr::PushInt(1),
        Instr::PushInt(0),
        Instr::Slice,
        Instr::Halt,
    ];
    let (r, _) = run_collect(code, &FuncTable::new());
    assert_eq!(
        r,
        Err(RuntimeError::IndexError(
            "Slice indices out of bounds!".to_string()
        ))
    );
}

#[test]
fn division_truncates_toward_zero() {
    let code = vec![
        Instr::PushInt(-7),
        Instr::PushInt(2),
        Instr::Div,
        Instr::Emit,
        Instr::PushInt(-7),
        Instr::PushInt(2),
        Instr::Mod,
        Instr::Emit,
        Instr::Halt,
    ];
    let (r, lines) = run_collect(code, &FuncTable::new());
    assert!(r.is_ok());
    assert_eq!(lines, vec!["-3".to_string(), "-1".to_string()]);
}

#[test]
fn cyclic_list_renders_with_placeholder() {
    // l[0] = l builds a cycle; rendering must terminate and mark the knot.
    let code = vec![
        Instr::PushInt(0),
        Instr::BuildList(1),
        Instr::Store("l".to_string()),
        Instr::Load("l".to_string()),
        Instr::PushInt(0),
        Instr::Load("l".to_string()),
        Instr::StoreIndex,
        Instr::Load("l".to_string()),
        Instr::Emit,
        Instr::Halt,
    ];
    let (r, lines) = run_collect(code, &FuncTable::new());
    assert!(r.is_ok());
    assert_eq!(lines, vec!["[[...]]".to_string()]);
}

#[test]
fn dict_renders_entries_in_insertion_order() {
    let code = vec![
        Instr::PushStr("k".to_string()),
        Instr::PushInt(1),
        Instr::PushStr("m".to_string()),
        Instr::PushInt(2),
        Instr::BuildDict(2),
        Instr::Emit,
        Instr::Halt,
    ];
    let (r, lines) = run_collect(code, &FuncTable::new());
    assert!(r.is_ok());
    assert_eq!(lines, vec!["{k: 1, m: 2}".to_string()]);
}

#[test]
fn dict_duplicate_key_keeps_the_last_pushed_pair() {
    let code = vec![
        Instr::PushStr("k".to_string()),
        Instr::PushInt(1),
        Instr::PushStr("k".to_string()),
        Instr::PushInt(2),
        Instr::BuildDict(2),
        Instr::Emit,
        Instr::Halt,
    ];
    let (r, lines) = run_collect(code, &FuncTable::new());
    assert!(r.is_ok());
    assert_eq!(lines, vec!["{k: 2}".to_string()]);
}

#[test]
fn equality_compares_rendered_forms() {
    let code = vec![
        Instr::PushInt(1),
        Instr::PushStr("1".to_string()),
        Instr::Eq,
        Instr::Emit,
        Instr::PushInt(1),
        Instr::PushBool(true),
        Instr::Eq,
        Instr::Emit,
        Instr::Halt,
    ];
    let (r, lines) = run_collect(code, &FuncTable::new());
    assert!(r.is_ok());
    assert_eq!(lines, vec!["true".to_string(), "false".to_string()]);
}

#[test]
fn call_and_tail_call_produce_the_same_value() {
    // Both `dbl` variants double their argument; one returns normally, the
    // other ends in a tail call of a helper.
    let mut funcs = FuncTable::new();
    funcs.insert(
        "dbl".to_string(),
        Function {
            params: vec!["x".to_string()],
            address: 7,
        },
    );
    funcs.insert(
        "dbl_tail".to_string(),
        Function {
            params: vec!["x".to_string()],
            address: 11,
        },
    );
    let code = vec![
        Instr::PushInt(21),
        Instr::Call("dbl".to_string()),
        Instr::Emit,
        Instr::PushInt(21),
        Instr::Call("dbl_tail".to_string()),
        Instr::Emit,
        Instr::Halt,
        // dbl: x + x
        Instr::Load("x".to_string()),
        Instr::Load("x".to_string()),
        Instr::Add,
        Instr::Ret,
        // dbl_tail: tail-call dbl with the same argument
        Instr::Load("x".to_string()),
        Instr::TailCall("dbl".to_string()),
    ];
    let (r, lines) = run_collect(code, &funcs);
    assert!(r.is_ok());
    assert_eq!(lines, vec!["42".to_string(), "42".to_string()]);
}

#[test]
fn call_value_dispatches_by_name_on_stack() {
    let mut funcs = FuncTable::new();
    funcs.insert(
        "inc".to_string(),
        Function {
            params: vec!["x".to_string()],
            address: 5,
        },
    );
    let code = vec![
        Instr::PushStr("inc".to_string()),
        Instr::PushInt(41),
        Instr::CallValue(1),
        Instr::Emit,
        Instr::Halt,
        // inc
        Instr::Load("x".to_string()),
        Instr::PushInt(1),
        Instr::Add,
        Instr::Ret,
    ];
    let (r, lines) = run_collect(code, &funcs);
    assert!(r.is_ok());
    assert_eq!(lines, vec!["42".to_string()]);
}

#[test]
fn builtins_convert_values() {
    let code = vec![
        Instr::PushInt(5),
        Instr::PushInt(3),
        Instr::CallBuiltin("binary".to_string(), 2),
        Instr::Emit,
        Instr::PushInt(255),
        Instr::CallBuiltin("hex".to_string(), 1),
        Instr::Emit,
        Instr::PushInt(97),
        Instr::CallBuiltin("chr".to_string(), 1),
        Instr::Emit,
        Instr::PushStr("a".to_string()),
        Instr::CallBuiltin("ascii".to_string(), 1),
        Instr::Emit,
        Instr::PushStr("hello".to_string()),
        Instr::CallBuiltin("length".to_string(), 1),
        Instr::Emit,
        Instr::Halt,
    ];
    let (r, lines) = run_collect(code, &FuncTable::new());
    assert!(r.is_ok());
    assert_eq!(
        lines,
        vec![
            "101".to_string(),
            "ff".to_string(),
            "a".to_string(),
            "97".to_string(),
            "5".to_string()
        ]
    );
}

#[test]
fn read_file_without_file_system_reports_import_error() {
    let code = vec![
        Instr::PushStr("lib.omg".to_string()),
        Instr::CallBuiltin("read_file".to_string(), 1),
        Instr::Halt,
    ];
    let (r, _) = run_collect(code, &FuncTable::new());
    match r {
        Err(RuntimeError::ModuleImportError(m)) => {
            assert!(m.starts_with("failed to read '"));
        }
        other => panic!("expected a module import error, got {:?}", other),
    }
}

#[test]
fn string_index_and_slice() {
    let code = vec![
        Instr::PushStr("hello".to_string()),
        Instr::PushInt(1),
        Instr::Index,
        Instr::Emit,
        Instr::PushStr("hello".to_string()),
        Instr::PushInt(1),
        Instr::PushInt(4),
        Instr::Slice,
        Instr::Emit,
        Instr::PushStr("hello".to_string()),
        Instr::PushInt(2),
        Instr::PushNone,
        Instr::Slice,
        Instr::Emit,
        Instr::Halt,
    ];
    let (r, lines) = run_collect(code, &FuncTable::new());
    assert!(r.is_ok());
    assert_eq!(
        lines,
        vec!["e".to_string(), "ell".to_string(), "llo".to_string()]
    );
}

#[test]
fn mul_overflow_yields_zero() {
    let code = vec![
        Instr::PushInt(i64::MAX),
        Instr::PushInt(2),
        Instr::Mul,
        Instr::Emit,
        Instr::Halt,
    ];
    let (r, lines) = run_collect(code, &FuncTable::new());
    assert!(r.is_ok());
    assert_eq!(lines, vec!["0".to_string()]);
}

#[test]
fn program_args_are_seeded_as_globals() {
    let code = vec![
        Instr::Load("module_file".to_string()),
        Instr::Emit,
        Instr::Load("current_dir".to_string()),
        Instr::Emit,
        Instr::Load("args".to_string()),
        Instr::Emit,
        Instr::Halt,
    ];
    let mut host = BufferHost::new();
    let args = vec!["dir\\prog.omg".to_string(), "x".to_string()];
    let r = run(&code, &FuncTable::new(), &args, &mut host);
    assert!(r.is_ok());
    assert_eq!(
        host.lines,
        vec![
            "dir/prog.omg".to_string(),
            "dir".to_string(),
            "[dir\\prog.omg, x]".to_string()
        ]
    );
}
