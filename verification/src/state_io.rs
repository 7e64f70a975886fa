//! The persistent side of the UI around a workbook file: which sheet was
//! on screen, and the browser autosave payload — the workbook bytes as
//! standard base64 text, capped in size.

use vstd::prelude::*;
use vstd::string::StringSliceAdditionalSpecFns;

verus! {

/// The sheet on screen when the workbook was saved; `Square` when a
/// snapshot does not say.
#[derive(Debug, Clone, Copy, PartialEq, Eq, Default, Structural)]
pub enum ActiveSheetTag {
    #[default]
    Square,
    Hex,
    Triangle,
}

/// The storage key of the autosave. Versioned, so a later format can
/// ignore stale autosaves.
pub const AUTOSAVE_KEY: &'static str = "tescellate.autosave.v1";

/// The longest autosave payload, in bytes of base64 text, the autosave
/// writes: browsers give an origin about 5 MiB of storage, and a longer
/// payload is skipped rather than written into a quota error.
pub const AUTOSAVE_MAX_BYTES: usize = 4194304;

#[verifier::external_type_specification]
#[verifier::external_body]
pub struct ExDecodeError(base64::DecodeError);

/// The standard base64 text (RFC 4648 alphabet, `=` padding) of `bytes`.
pub uninterp spec fn base64_text(bytes: Seq<u8>) -> Seq<char>;

/// The bytes standard base64 decoding gives for the text `text`, or
/// `None` when the text is not canonical standard base64.
pub uninterp spec fn base64_bytes(text: Seq<u8>) -> Option<Seq<u8>>;

/// base64's `Engine::encode` on the `general_purpose::STANDARD` engine:
/// the standard base64 text of `bytes`, which that engine's decoder turns
/// back into `bytes`; with `=` padding the text is four characters for
/// every three bytes or part of them. The encoder panics only when the
/// output length overflows `usize`, which the bound on the input rules
/// out.
#[verifier::external_body]
fn encode_standard(bytes: &[u8]) -> (s: String)
    requires
        bytes@.len() <= 0x3fff_ffff,
    ensures
        s@ == base64_text(bytes@),
        s@.len() == 4 * ((bytes@.len() + 2) / 3),
        base64_bytes(vstd::utf8::encode_utf8(s@)) == Some(bytes@),
{
    base64::Engine::encode(&base64::engine::general_purpose::STANDARD, bytes)
}

/// base64's `Engine::decode` on the `general_purpose::STANDARD` engine:
/// the decoded bytes, or its `DecodeError` when the text is not canonical
/// standard base64.
#[verifier::external_body]
fn decode_standard(text: &[u8]) -> (r: Result<Vec<u8>, base64::DecodeError>)
    ensures
        match r {
            Ok(v) => base64_bytes(text@) == Some(v@),
            Err(_) => base64_bytes(text@) is None,
        },
{
    base64::Engine::decode(&base64::engine::general_purpose::STANDARD, text)
}

/// The length of the standard base64 text of `n` bytes.
pub open spec fn base64_len(n: int) -> int {
    4 * ((n + 2) / 3)
}

/// The text the autosave stores for a workbook of `bytes`: its standard
/// base64 text, or `None` when that text would be longer than
/// [`AUTOSAVE_MAX_BYTES`] and the workbook is not autosaved.
pub fn autosave_payload(bytes: &[u8]) -> (r: Option<String>)
    ensures
        base64_len(bytes@.len() as int) > AUTOSAVE_MAX_BYTES <==> r is None,
        match r {
            Some(s) => s@ == base64_text(bytes@) && base64_bytes(vstd::utf8::encode_utf8(s@))
                == Some(bytes@) && s@.len() == base64_len(bytes@.len() as int),
            None => true,
        },
{
    let n = bytes.len();
    proof {
        let m = n as int;
        if m <= 3145728 {
            assert(4 * ((m + 2) / 3) <= 4194304) by (nonlinear_arith)
                requires
                    0 <= m <= 3145728,
            ;
        } else {
            assert(4 * ((m + 2) / 3) > 4194304) by (nonlinear_arith)
                requires
                    m > 3145728,
            ;
        }
    }
    if n > AUTOSAVE_MAX_BYTES / 4 * 3 {
        return None;
    }
    Some(encode_standard(bytes))
}

/// The workbook bytes an autosave text stands for, or `None` when the
/// stored text is not valid base64.
pub fn autosave_bytes(encoded: &str) -> (r: Option<Vec<u8>>)
    ensures
        match r {
            Some(v) => base64_bytes(encoded.spec_bytes()) == Some(v@),
            None => base64_bytes(encoded.spec_bytes()) is None,
        },
{
    match decode_standard(encoded.as_bytes()) {
        Ok(v) => Some(v),
        Err(_) => None,
    }
}

/// Autosaving a workbook. The browser build stores [`autosave_payload`]
/// under [`AUTOSAVE_KEY`]; elsewhere explicit Save and Open are the
/// persistence path and this does nothing.
pub fn autosave_to_local_storage(_bytes: &[u8]) {
}

/// Reading back the autosave. The browser build reads the text stored
/// under [`AUTOSAVE_KEY`] and decodes it with [`autosave_bytes`];
/// elsewhere there is no autosave and this gives `None`.
pub fn load_from_local_storage() -> (r: Option<Vec<u8>>)
    ensures
        r is None,
{
    None
}

} // verus!
