use wasm_views::text::{check_text_length, MAX_TEXT_BYTES};
use wasm_views::{wasm2wat, wat2wasm, ConversionError};

#[test]
fn wat2wasm_assembles_the_empty_module() {
    let bytes = wat2wasm("(module)".to_string()).unwrap();
    assert_eq!(bytes, vec![0x00, 0x61, 0x73, 0x6d, 0x01, 0x00, 0x00, 0x00]);
}

#[test]
fn wat2wasm_rejects_text_that_is_no_module() {
    let error = wat2wasm("module".to_string()).unwrap_err();
    assert!(!error.message().is_empty());
    assert!(wat2wasm("(module (func $f".to_string()).is_err());
}

#[test]
fn wat2wasm_fails_with_the_message_of_the_parser() {
    for text in ["module", "()", "(module (func $f", "(module (func (result i32)) \"", ""] {
        let expected = wat::parse_str(text).unwrap_err().to_string();
        let error = wat2wasm(text.to_string()).unwrap_err();
        assert_eq!(error.message(), expected);
    }
    let error = wat2wasm("()".to_string()).unwrap_err();
    assert_eq!(
        error.message(),
        "expected valid module field\n     --> <anon>:1:2\n      |\n    1 | ()\n      |  ^"
    );
}

#[test]
fn wat2wasm_agrees_with_the_parser_on_what_it_accepts() {
    for text in ["(module)", "(module (memory 1))", "(func)", "(module (func $f (param i64)))"] {
        assert_eq!(wat2wasm(text.to_string()).unwrap(), wat::parse_str(text).unwrap());
    }
}

#[test]
fn text_beyond_the_limit_of_the_parser_is_refused() {
    assert_eq!(MAX_TEXT_BYTES, 4294967295);
    assert!(check_text_length(0).is_ok());
    assert!(check_text_length(8).is_ok());
    assert!(check_text_length(MAX_TEXT_BYTES).is_ok());
    if let Some(longer) = MAX_TEXT_BYTES.checked_add(1) {
        let error = check_text_length(longer).unwrap_err();
        assert_eq!(error.message(), "the text is longer than 4294967295 bytes");
        assert!(check_text_length(usize::MAX).is_err());
    }
}

#[test]
fn wasm2wat_prints_the_empty_module() {
    let text = wasm2wat(&[0x00, 0x61, 0x73, 0x6d, 0x01, 0x00, 0x00, 0x00]).unwrap();
    assert_eq!(text, "(module)\n");
}

#[test]
fn wasm2wat_rejects_bytes_that_are_no_module() {
    let error = wasm2wat(&[1, 2, 3]).unwrap_err();
    assert!(!error.message().is_empty());
    assert!(wasm2wat(&[]).is_err());
}

#[test]
fn wasm2wat_fails_with_the_message_of_the_printer() {
    let rejected: [&[u8]; 4] = [
        &[1, 2, 3],
        &[],
        &[0x00, 0x61, 0x73, 0x6d],
        &[0x00, 0x61, 0x73, 0x6d, 0x01, 0x00, 0x00, 0x00, 0xff],
    ];
    for bytes in rejected {
        let expected = wasmprinter::print_bytes(bytes).unwrap_err().to_string();
        let error = wasm2wat(bytes).unwrap_err();
        assert_eq!(error.message(), expected);
    }
}

#[test]
fn wasm2wat_agrees_with_the_printer_on_what_it_accepts() {
    let bytes = wat::parse_str("(module (memory 1) (func (param i32)))").unwrap();
    assert_eq!(wasm2wat(&bytes).unwrap(), wasmprinter::print_bytes(&bytes).unwrap());
}

#[test]
fn text_survives_the_round_trip() {
    let source = "(module (func (export \"answer\") (result i32) i32.const 42))";
    let bytes = wat2wasm(source.to_string()).unwrap();
    assert_eq!(&bytes[0..4], b"\0asm");
    let text = wasm2wat(&bytes).unwrap();
    assert!(text.contains("i32.const 42"));
    assert!(text.contains("(export \"answer\""));
    assert_eq!(wat2wasm(text).unwrap(), bytes);
}

#[test]
fn conversion_error_carries_its_message() {
    let error = ConversionError::new("no module".to_string());
    assert_eq!(error.message(), "no module");
}
