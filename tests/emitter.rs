use gigli::compiler::{compile, compile_ast, CompileError};
use gigli::emitter::{create_import_section, generate_wasm_binary};
use gigli::ir::{IRExpr, IRFunction, IRModule, IRStmt};
use gigli::leb128::{decode_leb128, encode_leb128};

fn find(haystack: &[u8], needle: &[u8]) -> Option<usize> {
    haystack.windows(needle.len()).position(|w| w == needle)
}

/// The sections of a module after its header: (id, body).
fn sections(bytes: &[u8]) -> Vec<(u8, Vec<u8>)> {
    let mut out = Vec::new();
    let mut i = 8;
    while i < bytes.len() {
        let id = bytes[i];
        let (len, n) = decode_leb128(&bytes[i + 1..]).unwrap();
        let start = i + 1 + n;
        let end = start + len as usize;
        out.push((id, bytes[start..end].to_vec()));
        i = end;
    }
    out
}

#[test]
fn leb128_small_values() {
    assert_eq!(encode_leb128(0), vec![0x00]);
    assert_eq!(encode_leb128(127), vec![0x7f]);
    assert_eq!(encode_leb128(128), vec![0x80, 0x01]);
}

#[test]
fn leb128_of_300() {
    let bytes = encode_leb128(300);
    assert_eq!(bytes, vec![0xac, 0x02]);
    assert!(bytes[0] & 0x80 != 0);
    assert!(bytes[1] & 0x80 == 0);
}

#[test]
fn leb128_round_trip() {
    for v in [0u64, 1, 127, 128, 300, 16384, 624485, u32::MAX as u64, u64::MAX] {
        let mut bytes = encode_leb128(v);
        let n = bytes.len();
        bytes.push(0x55);
        assert_eq!(decode_leb128(&bytes), Some((v, n)));
    }
}

#[test]
fn leb128_decode_errors() {
    assert_eq!(decode_leb128(&[]), None);
    assert_eq!(decode_leb128(&[0x80, 0x80]), None);
    let too_big = [0xff, 0xff, 0xff, 0xff, 0xff, 0xff, 0xff, 0xff, 0xff, 0x7f];
    assert_eq!(decode_leb128(&too_big), None);
}

#[test]
fn module_header_and_sections() {
    let bytes = compile("fn main() { log(1); } component App { state n = 0; <p>{n}</p> }").unwrap();
    assert_eq!(&bytes[..8], &[0x00, 0x61, 0x73, 0x6d, 0x01, 0x00, 0x00, 0x00]);
    let ids: Vec<u8> = sections(&bytes).iter().map(|s| s.0).collect();
    assert_eq!(ids, vec![1, 2, 3, 5, 7, 10, 11]);
}

#[test]
fn import_section_lists_the_three_dom_functions() {
    let bytes = compile("fn main() { }").unwrap();
    let imports = sections(&bytes).into_iter().find(|s| s.0 == 2).unwrap().1;
    assert_eq!(imports[0], 3);
    assert_eq!(imports.windows(3).filter(|w| *w == b"dom").count(), 3);
    assert!(find(&imports, b"set_inner_html").is_some());
    assert!(find(&imports, b"add_event_listener").is_some());
    assert!(find(&imports, b"get_element_by_id").is_some());
    assert_eq!(create_import_section()[2..].to_vec(), imports);
}

#[test]
fn export_section_exports_main_after_imports() {
    let bytes = compile("component App { }").unwrap();
    let exports = sections(&bytes).into_iter().find(|s| s.0 == 7).unwrap().1;
    let at = find(&exports, b"main").unwrap();
    assert_eq!(exports[at - 1], 4);
    assert_eq!(&exports[at + 4..], &[0x00, 0x03]);
    assert!(find(&exports, b"memory").is_some());
}

#[test]
fn function_and_code_sections_count_entry_function() {
    let bytes = compile("fn a() { } fn b() { }").unwrap();
    let secs = sections(&bytes);
    let funcs = &secs.iter().find(|s| s.0 == 3).unwrap().1;
    assert_eq!(funcs, &vec![3, 1, 1, 1]);
    let code = &secs.iter().find(|s| s.0 == 10).unwrap().1;
    assert_eq!(code[0], 3);
    // entry function: calls functions 4 and 5
    assert_eq!(&code[1..10], &[6, 0x00, 0x10, 0x04, 0x10, 0x05, 0x0b, 2, 0x00]);
}

#[test]
fn statement_instructions() {
    let module = IRModule {
        functions: vec![IRFunction {
            name: "f".to_string(),
            body: vec![
                IRStmt::Call { func: "dom.set_inner_html".to_string(), args: vec![IRExpr::Identifier("a".to_string())] },
                IRStmt::Call { func: "other".to_string(), args: vec![] },
                IRStmt::Assign { target: "x".to_string(), value: IRExpr::NumberLiteral("1".to_string()) },
                IRStmt::Return(None),
            ],
        }],
    };
    let bytes = generate_wasm_binary(&module);
    let code = sections(&bytes).into_iter().find(|s| s.0 == 10).unwrap().1;
    let body_at = 1 + 5;
    assert_eq!(
        &code[body_at..],
        &[12, 0x00, 0x41, 0x00, 0x10, 0x00, 0x1a, 0x41, 0x00, 0x24, 0x00, 0x0f, 0x0b]
    );
}

#[test]
fn compile_reports_lex_and_parse_errors() {
    assert!(matches!(compile("fn @"), Err(CompileError::Lex(_))));
    assert!(matches!(compile("fn f( {"), Err(CompileError::Parse(_))));
}

#[test]
fn empty_program_still_has_entry_function() {
    let bytes = compile("").unwrap();
    let code = sections(&bytes).into_iter().find(|s| s.0 == 10).unwrap().1;
    assert_eq!(code, vec![1, 2, 0x00, 0x0b]);
    let data = sections(&bytes).into_iter().find(|s| s.0 == 11).unwrap().1;
    assert_eq!(&data[data.len() - 5..], b"Hello");
}

#[test]
fn compile_ast_emits_the_lowered_program() {
    let tokens = gigli::lexer::tokenize("fn a() { }").unwrap();
    let ast = gigli::parser::parse_program(&tokens).unwrap();
    let bytes = compile_ast(&ast).unwrap();
    assert_eq!(bytes, compile("fn a() { }").unwrap());
}
