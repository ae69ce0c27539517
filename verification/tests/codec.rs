//! The binary image: encoding, decoding, and their round trip.

use omg_runtime::bytecode::{encode_bytecode, parse_bytecode, FuncTable, Function, Instr};
use omg_runtime::error::{ErrorKind, RuntimeError};
use omg_runtime::host::BufferHost;
use omg_runtime::vm::run;

fn sample_code() -> Vec<Instr> {
    vec![
        Instr::PushInt(-42),
        Instr::PushStr("héllo".to_string()),
        Instr::PushBool(true),
        Instr::BuildList(2),
        Instr::Store("xs".to_string()),
        Instr::Load("xs".to_string()),
        Instr::CallBuiltin("length".to_string(), 1),
        Instr::Emit,
        Instr::PushInt(20),
        Instr::PushInt(1),
        Instr::Call("inc".to_string()),
        Instr::Add,
        Instr::Emit,
        Instr::Jump(15),
        Instr::Raise(ErrorKind::Value),
        Instr::Halt,
        // inc
        Instr::Load("n".to_string()),
        Instr::PushInt(1),
        Instr::Add,
        Instr::Ret,
    ]
}

fn sample_funcs() -> FuncTable {
    let mut funcs = FuncTable::new();
    funcs.insert(
        "inc".to_string(),
        Function {
            params: vec!["n".to_string()],
            address: 16,
        },
    );
    funcs
}

#[test]
fn image_round_trips_through_encode_and_parse() {
    let code = sample_code();
    let funcs = sample_funcs();
    let img = encode_bytecode(&code, &funcs);
    let (code2, funcs2) = parse_bytecode(&img).expect("a conforming image must decode");
    // The decoded stream and table re-encode to the identical image.
    let img2 = encode_bytecode(&code2, &funcs2);
    assert_eq!(img, img2);
    // And the decoded program behaves like the original.
    let mut host1 = BufferHost::new();
    let r1 = run(&code, &funcs, &Vec::new(), &mut host1);
    let mut host2 = BufferHost::new();
    let r2 = run(&code2, &funcs2, &Vec::new(), &mut host2);
    assert_eq!(r1, r2);
    assert_eq!(host1.lines, host2.lines);
    assert_eq!(host1.lines, vec!["2".to_string(), "22".to_string()]);
}

#[test]
fn image_layout_starts_with_magic_and_version() {
    let img = encode_bytecode(&vec![Instr::Halt], &FuncTable::new());
    assert_eq!(&img[0..4], b"OMGB");
    // Packed version (0 << 16) | (1 << 8) | 1, little-endian.
    assert_eq!(&img[4..8], &[1, 1, 0, 0]);
    // No functions, one instruction.
    assert_eq!(&img[8..12], &[0, 0, 0, 0]);
    assert_eq!(&img[12..16], &[1, 0, 0, 0]);
    assert_eq!(&img[16..], &[38]);
}

#[test]
fn bad_magic_is_rejected() {
    let mut img = encode_bytecode(&vec![Instr::Halt], &FuncTable::new());
    img[0] = b'X';
    match parse_bytecode(&img) {
        Err(e) => assert_eq!(
            e,
            RuntimeError::SyntaxError("malformed bytecode image".to_string())
        ),
        Ok(_) => panic!("a mangled magic must be rejected"),
    }
}

#[test]
fn version_mismatch_is_rejected() {
    let mut img = encode_bytecode(&vec![Instr::Halt], &FuncTable::new());
    img[4] = 99;
    assert!(parse_bytecode(&img).is_err());
}

#[test]
fn truncated_image_is_rejected() {
    let img = encode_bytecode(&sample_code(), &sample_funcs());
    for cut in [0, 3, 8, 11, img.len() - 1] {
        assert!(parse_bytecode(&img[..cut]).is_err());
    }
}

#[test]
fn unknown_opcode_is_rejected() {
    let img = encode_bytecode(&vec![Instr::Halt], &FuncTable::new());
    let mut bad = img.clone();
    let last = bad.len() - 1;
    bad[last] = 250;
    assert!(parse_bytecode(&bad).is_err());
}

#[test]
fn invalid_utf8_in_a_string_is_rejected() {
    let img = encode_bytecode(&vec![Instr::PushStr("ab".to_string())], &FuncTable::new());
    let mut bad = img.clone();
    let last = bad.len() - 1;
    bad[last] = 0xff;
    assert!(parse_bytecode(&bad).is_err());
}

#[test]
fn later_function_record_wins_the_name() {
    // Encode two records under one name by writing the table by hand.
    let code = vec![Instr::Halt, Instr::Halt, Instr::Halt];
    let mut funcs = FuncTable::new();
    funcs.insert(
        "f".to_string(),
        Function {
            params: vec![],
            address: 1,
        },
    );
    let img1 = encode_bytecode(&code, &funcs);
    funcs.insert(
        "f".to_string(),
        Function {
            params: vec![],
            address: 2,
        },
    );
    let img2 = encode_bytecode(&code, &funcs);
    // Splice both records into one image: count 2, then record(addr 1),
    // record(addr 2), then the code-length word and three instructions.
    let rec1 = &img1[12..img1.len() - 7];
    let rec2 = &img2[12..img2.len() - 7];
    let mut img = Vec::new();
    img.extend_from_slice(&img1[0..8]);
    img.extend_from_slice(&[2, 0, 0, 0]);
    img.extend_from_slice(rec1);
    img.extend_from_slice(rec2);
    img.extend_from_slice(&img1[img1.len() - 7..]);
    let (_, table) = parse_bytecode(&img).expect("spliced image must decode");
    let f = table.get("f").expect("the name must be bound");
    assert_eq!(f.address, 2);
}

#[test]
fn entry_address_outside_the_code_is_rejected() {
    // One Halt gives a code stream of length 1; an entry address of 1 does
    // not lie within it.
    let mut funcs = FuncTable::new();
    funcs.insert(
        "f".to_string(),
        Function {
            params: vec![],
            address: 1,
        },
    );
    let img = encode_bytecode(&vec![Instr::Halt], &funcs);
    assert!(parse_bytecode(&img).is_err());
    // The same record is fine once the code is long enough.
    let img2 = encode_bytecode(&vec![Instr::Halt, Instr::Halt], &funcs);
    assert!(parse_bytecode(&img2).is_ok());
}
