//! Conversion between the WebAssembly text format and the binary format.
//!
//! The work is done by the `wat` and `wasmprinter` crates. What they compute
//! is not proved here: it is given a name, and the contracts of this module
//! say how their answers are passed on.

use vstd::prelude::*;
use vstd::utf8::encode_utf8;

verus! {

/// What `wat::parse_str` makes of the text `wat`: the binary module it
/// assembles, or the message, as `Display` renders it, of the error it
/// rejects the text with.
pub uninterp spec fn wat_outcome(wat: Seq<char>) -> Result<Seq<u8>, Seq<char>>;

/// What `wasmprinter::print_bytes` makes of the binary `wasm`: the text it
/// prints, or the message, as `Display` renders it, of the error it rejects
/// the bytes with.
pub uninterp spec fn wasm_outcome(wasm: Seq<u8>) -> Result<Seq<char>, Seq<char>>;

/// Number of bytes that `text` takes as a string.
pub open spec fn byte_len(text: Seq<char>) -> nat {
    encode_utf8(text).len()
}

/// The longest text, in bytes, that is handed to the parser. Its lexer keeps
/// the length of a token in 32 bits and gives up on a longer one, so a text
/// within this bound holds no token that it gives up on.
pub const MAX_TEXT_BYTES: usize = 0xffff_ffff;

/// The message of the error that a text beyond `MAX_TEXT_BYTES` is refused
/// with.
pub open spec fn text_too_long() -> Seq<char> {
    "the text is longer than 4294967295 bytes"@
}

/// Calls `wat::parse_str` and renders the error, where there is one, through
/// its `Display` impl. Assumed: on a text of at most `MAX_TEXT_BYTES` bytes
/// the call returns, and what it returns depends on the text alone; it is the
/// outcome that `wat_outcome` names.
#[verifier::external_body]
fn parse_wat(wat: &str) -> (result: Result<Vec<u8>, String>)
    requires
        byte_len(wat@) <= MAX_TEXT_BYTES,
    ensures
        match result {
            Ok(bytes) => wat_outcome(wat@) == Ok::<Seq<u8>, Seq<char>>(bytes@),
            Err(message) => wat_outcome(wat@) == Err::<Seq<u8>, Seq<char>>(message@),
        },
{
    wat::parse_str(wat).map_err(|error| error.to_string())
}

/// Calls `wasmprinter::print_bytes` and renders the error, where there is
/// one, through its `Display` impl. Assumed: what the call returns depends on
/// the bytes alone; it is the outcome that `wasm_outcome` names.
#[verifier::external_body]
fn print_wasm(wasm: &[u8]) -> (result: Result<String, String>)
    ensures
        match result {
            Ok(text) => wasm_outcome(wasm@) == Ok::<Seq<char>, Seq<char>>(text@),
            Err(message) => wasm_outcome(wasm@) == Err::<Seq<char>, Seq<char>>(message@),
        },
{
    wasmprinter::print_bytes(wasm).map_err(|error| error.to_string())
}

/// A failed conversion, with an account of what went wrong.
#[derive(Debug)]
pub struct ConversionError {
    message: String,
}

impl View for ConversionError {
    type V = Seq<char>;

    closed spec fn view(&self) -> Seq<char> {
        self.message@
    }
}

impl ConversionError {
    /// An error that carries `message`.
    pub fn new(message: String) -> (error: ConversionError)
        ensures
            error@ == message@,
    {
        ConversionError { message }
    }

    /// The message of the error.
    pub fn message(&self) -> (message: &str)
        ensures
            message@ == self@,
    {
        self.message.as_str()
    }
}

/// Decides whether a text of `byte_length` bytes is handed to the parser:
/// one of more than `MAX_TEXT_BYTES` bytes is refused.
pub fn check_text_length(byte_length: usize) -> (result: Result<(), ConversionError>)
    ensures
        byte_length <= MAX_TEXT_BYTES ==> result is Ok,
        byte_length > MAX_TEXT_BYTES ==> result is Err && result->Err_0@ == text_too_long(),
{
    if byte_length > MAX_TEXT_BYTES {
        Err(ConversionError::new(String::from_str("the text is longer than 4294967295 bytes")))
    } else {
        Ok(())
    }
}

/// Assembles WebAssembly text into the binary format.
///
/// A text of more than `MAX_TEXT_BYTES` bytes is refused unread. Any other
/// succeeds if the parser accepts it, with the module the parser assembles,
/// and fails if not, with the parser's message.
pub fn wat2wasm(wat: String) -> (result: Result<Vec<u8>, ConversionError>)
    ensures
        byte_len(wat@) > MAX_TEXT_BYTES ==> result is Err && result->Err_0@ == text_too_long(),
        byte_len(wat@) <= MAX_TEXT_BYTES ==> match result {
            Ok(bytes) => wat_outcome(wat@) == Ok::<Seq<u8>, Seq<char>>(bytes@),
            Err(error) => wat_outcome(wat@) == Err::<Seq<u8>, Seq<char>>(error@),
        },
{
    let text = wat.as_str();
    match check_text_length(text.as_bytes().len()) {
        Err(error) => Err(error),
        Ok(()) => match parse_wat(text) {
            Ok(bytes) => Ok(bytes),
            Err(message) => Err(ConversionError::new(message)),
        },
    }
}

/// Disassembles a WebAssembly binary to the text format.
///
/// Succeeds if the printer accepts the bytes, with the text it prints, and
/// fails if not, with the printer's message.
pub fn wasm2wat(bytes: &[u8]) -> (result: Result<String, ConversionError>)
    ensures
        match result {
            Ok(text) => wasm_outcome(bytes@) == Ok::<Seq<char>, Seq<char>>(text@),
            Err(error) => wasm_outcome(bytes@) == Err::<Seq<char>, Seq<char>>(error@),
        },
{
    match print_wasm(bytes) {
        Ok(text) => Ok(text),
        Err(message) => Err(ConversionError::new(message)),
    }
}

} // verus!
