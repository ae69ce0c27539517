//! Unit behavior of the value model, the text helpers and the errors.

use omg_runtime::error::{ErrorKind, RuntimeError};
use omg_runtime::text;
use omg_runtime::value::{Heap, Value};
use omg_runtime::vm::builtins::parent_dir;

#[test]
fn decimal_rendering_covers_the_edges() {
    assert_eq!(text::i64_to_dec(0), "0");
    assert_eq!(text::i64_to_dec(42), "42");
    assert_eq!(text::i64_to_dec(-1), "-1");
    assert_eq!(text::i64_to_dec(i64::MIN), "-9223372036854775808");
    assert_eq!(text::i64_to_dec(i64::MAX), "9223372036854775807");
}

#[test]
fn hex_and_binary_render_the_bit_pattern() {
    assert_eq!(text::u64_to_hex(0), "0");
    assert_eq!(text::u64_to_hex(255), "ff");
    assert_eq!(text::u64_to_hex((-1i64) as u64), "ffffffffffffffff");
    assert_eq!(text::u64_to_bin(5), "101");
    assert_eq!(text::u64_to_bin_pad(5, 8), "00000101");
    assert_eq!(text::u64_to_bin_pad(5, 2), "101");
}

#[test]
fn integer_parsing_follows_the_library_rules() {
    assert_eq!(text::parse_i64("123"), Some(123));
    assert_eq!(text::parse_i64("-123"), Some(-123));
    assert_eq!(text::parse_i64("+7"), Some(7));
    assert_eq!(text::parse_i64("007"), Some(7));
    assert_eq!(text::parse_i64(""), None);
    assert_eq!(text::parse_i64("-"), None);
    assert_eq!(text::parse_i64("12a"), None);
    assert_eq!(text::parse_i64(" 12"), None);
    assert_eq!(text::parse_i64("9223372036854775807"), Some(i64::MAX));
    assert_eq!(text::parse_i64("9223372036854775808"), None);
    assert_eq!(text::parse_i64("-9223372036854775808"), Some(i64::MIN));
    assert_eq!(text::parse_i64("-9223372036854775809"), None);
}

#[test]
fn string_order_is_lexicographic() {
    assert!(text::str_lt("abc", "abd"));
    assert!(text::str_lt("ab", "abc"));
    assert!(!text::str_lt("abc", "abc"));
    assert!(!text::str_lt("b", "abc"));
    assert!(text::str_eq("abc", "abc"));
    assert!(!text::str_eq("abc", "abd"));
}

#[test]
fn coercions_follow_the_value_rules() {
    let mut heap = Heap::new();
    let empty = heap.new_list(Vec::new());
    let one = heap.new_list(vec![Value::Int(7)]);
    assert_eq!(Value::Int(3).as_int(&heap), Ok(3));
    assert_eq!(Value::Str("41".to_string()).as_int(&heap), Ok(41));
    assert_eq!(Value::Bool(true).as_int(&heap), Ok(1));
    assert_eq!(Value::Null.as_int(&heap), Ok(0));
    assert_eq!(Value::List(one).as_int(&heap), Ok(1));
    assert_eq!(
        Value::Str("x".to_string()).as_int(&heap),
        Err(RuntimeError::TypeError(
            "Invalid literal for int(): 'x'".to_string()
        ))
    );
    assert!(!Value::Bool(false).as_bool(&heap));
    assert!(!Value::Int(0).as_bool(&heap));
    assert!(!Value::Str(String::new()).as_bool(&heap));
    assert!(!Value::List(empty).as_bool(&heap));
    assert!(!Value::Null.as_bool(&heap));
    assert!(Value::Int(-1).as_bool(&heap));
    assert!(Value::List(one).as_bool(&heap));
}

#[test]
fn rendering_each_kind_of_value() {
    let mut heap = Heap::new();
    let lh = heap.new_list(vec![Value::Int(1), Value::Str("x".to_string()), Value::Null]);
    assert_eq!(Value::Int(-5).to_string(&heap), "-5");
    assert_eq!(Value::Bool(true).to_string(&heap), "true");
    assert_eq!(Value::Str("hi".to_string()).to_string(&heap), "hi");
    assert_eq!(Value::Null.to_string(&heap), "");
    assert_eq!(Value::List(lh).to_string(&heap), "[1, x, ]");
}

#[test]
fn error_display_forms() {
    assert_eq!(
        RuntimeError::AssertionError.display(),
        "AssertionError: assertion failed"
    );
    assert_eq!(
        RuntimeError::KeyError("k".to_string()).display(),
        "KeyError: \"Key 'k' not found\""
    );
    assert_eq!(
        RuntimeError::IndexError("m".to_string()).display(),
        "IndexError: m"
    );
    assert_eq!(
        RuntimeError::ModuleImportError("m".to_string()).display(),
        "ModuleImportError: m"
    );
    assert_eq!(RuntimeError::SyntaxError("m".to_string()).display(), "SyntaxError: m");
    assert_eq!(RuntimeError::TypeError("m".to_string()).display(), "TypeError: m");
    assert_eq!(
        RuntimeError::UndefinedIdentError("m".to_string()).display(),
        "UndefinedIdentError: m"
    );
    assert_eq!(RuntimeError::ValueError("m".to_string()).display(), "ValueError: m");
    assert_eq!(RuntimeError::Raised("m".to_string()).display(), "RuntimeError: m");
    assert_eq!(RuntimeError::VmInvariant("m".to_string()).display(), "VmInvariant: m");
}

#[test]
fn error_kind_codes_round_trip() {
    let kinds = [
        ErrorKind::Generic,
        ErrorKind::Syntax,
        ErrorKind::Type,
        ErrorKind::UndefinedIdent,
        ErrorKind::Value,
        ErrorKind::ModuleImport,
    ];
    for (i, k) in kinds.iter().enumerate() {
        assert_eq!(k.code() as usize, i);
        assert_eq!(ErrorKind::from_code(k.code()), Some(*k));
    }
    assert_eq!(ErrorKind::from_code(6), None);
    assert_eq!(
        ErrorKind::Syntax.into_runtime("m".to_string()),
        RuntimeError::SyntaxError("m".to_string())
    );
}

#[test]
fn parent_dir_finds_the_last_slash() {
    assert_eq!(parent_dir("a/b/c.omg"), "a/b");
    assert_eq!(parent_dir("/c.omg"), "/");
    assert_eq!(parent_dir("c.omg"), ".");
    assert_eq!(parent_dir(""), ".");
}
