//! The per-file transforms that rest on outside codecs: JSON and YAML
//! minification, PNG recompression, and the archive digest.
use vstd::prelude::*;
use crate::text::{chars_of, is_white_space, is_white_space_char, string_of};

verus! {

#[verifier::external_type_specification]
#[verifier::external_body]
pub struct ExJsonError(serde_json::Error);

#[verifier::external_type_specification]
#[verifier::external_body]
pub struct ExPngError(oxipng::PngError);

/// Why a file could not be transformed.
#[derive(Debug, Clone, Copy, PartialEq, Eq, Structural)]
pub enum CodecError {
    /// The text is not a well-formed document of its format.
    Parse,
    /// The image could not be decoded or re-encoded.
    Image,
}

/// Whether `serde_json` accepts the text as one JSON value.
pub uninterp spec fn json_accepts(s: Seq<char>) -> bool;

/// The compact JSON text of the value that the JSON text holds.
pub uninterp spec fn json_minified(s: Seq<char>) -> Seq<char>;

/// Whether `serde_yaml` accepts the text as one document that a JSON value can hold.
pub uninterp spec fn yaml_accepts(s: Seq<char>) -> bool;

/// The compact JSON text of the value that the YAML text holds.
pub uninterp spec fn yaml_as_json(s: Seq<char>) -> Seq<char>;

/// Whether `oxipng` decodes the bytes as a PNG image that it can re-encode.
pub uninterp spec fn png_accepts(data: Seq<u8>) -> bool;

/// The bytes of the losslessly recompressed image.
pub uninterp spec fn png_optimized(data: Seq<u8>) -> Seq<u8>;

/// The lower-case hexadecimal SHA-1 digest of the bytes.
pub uninterp spec fn sha1_hex(data: Seq<u8>) -> Seq<char>;

/// Whether the text is empty or holds nothing but white space.
pub open spec fn blank(s: Seq<char>) -> bool {
    forall|i: int| 0 <= i < s.len() ==> is_white_space(#[trigger] s[i])
}

/// Relies on `serde_json::from_str::<Value>` and `serde_json::to_string` of that
/// value: success is decided by the text alone (a `Value` always serialises, its
/// map keys being strings), the output depends on the text alone, and a blank
/// text is no JSON value (end of input while parsing).
#[verifier::external_body]
fn compact_json(s: &str) -> (r: Result<String, serde_json::Error>)
    ensures
        r is Ok <==> json_accepts(s@),
        r is Ok ==> r->Ok_0@ == json_minified(s@),
        blank(s@) ==> r is Err,
{
    let v = serde_json::from_str::<serde_json::Value>(s)?;
    serde_json::to_string(&v)
}

/// Relies on `serde_yaml::from_str::<serde_json::Value>` and `serde_json::to_string`
/// of that value: success and output are decided by the text alone.
#[verifier::external_body]
fn yaml_compact_json(s: &str) -> (r: Option<String>)
    ensures
        r is Some <==> yaml_accepts(s@),
        r is Some ==> r->Some_0@ == yaml_as_json(s@),
{
    match serde_yaml::from_str::<serde_json::Value>(s) {
        Ok(v) => serde_json::to_string(&v).ok(),
        Err(_) => None,
    }
}

/// Relies on `oxipng::optimize_from_memory` with `Options::max_compression()`:
/// a lossless re-encoding of a PNG held in memory. With no timeout set and ties
/// between trials broken by trial number, success and output depend on the
/// bytes alone.
#[verifier::external_body]
fn optimize_png(data: &[u8]) -> (r: Result<Vec<u8>, oxipng::PngError>)
    ensures
        r is Ok <==> png_accepts(data@),
        r is Ok ==> r->Ok_0@ == png_optimized(data@),
{
    oxipng::optimize_from_memory(data, &oxipng::Options::max_compression())
}

/// Relies on `sha1::Sha1::from(..).hexdigest()`: the digest of the bytes as 40
/// lower-case hexadecimal digits.
#[verifier::external_body]
fn sha1_hexdigest(data: &[u8]) -> (r: String)
    ensures
        r@ == sha1_hex(data@),
        r@.len() == 40,
{
    sha1::Sha1::from(data).hexdigest()
}

/// Whether the text is blank.
pub fn is_blank(text: &str) -> (r: bool)
    ensures
        r == blank(text@),
{
    let c = chars_of(text);
    let mut i: usize = 0;
    while i < c.len()
        invariant
            i <= c@.len(),
            c@ == text@,
            forall|j: int| 0 <= j < i ==> is_white_space(#[trigger] c@[j]),
        decreases c@.len() - i,
    {
        if !is_white_space_char(c[i]) {
            return false;
        }
        i = i + 1;
    }
    true
}

/// Minifies a JSON document: parsed, then written back in the most compact form.
/// Fails with `Parse` exactly when the text is not a JSON value (a blank text
/// never is).
pub fn minify_json(text: &str) -> (r: Result<String, CodecError>)
    ensures
        json_accepts(text@) ==> r is Ok && r->Ok_0@ == json_minified(text@),
        !json_accepts(text@) ==> r == Err::<String, CodecError>(CodecError::Parse),
        blank(text@) ==> r == Err::<String, CodecError>(CodecError::Parse),
{
    match compact_json(text) {
        Ok(s) => Ok(s),
        Err(_) => Err(CodecError::Parse),
    }
}

/// Converts a YAML document to minified JSON: its content is kept, its syntax is
/// not. A blank text, or one that is no YAML document, fails with `Parse`.
pub fn minify_yaml(text: &str) -> (r: Result<String, CodecError>)
    ensures
        !blank(text@) && yaml_accepts(text@) ==> r is Ok && r->Ok_0@ == yaml_as_json(text@),
        blank(text@) || !yaml_accepts(text@) ==> r == Err::<String, CodecError>(
            CodecError::Parse,
        ),
{
    if is_blank(text) {
        return Err(CodecError::Parse);
    }
    match yaml_compact_json(text) {
        Some(s) => Ok(s),
        None => Err(CodecError::Parse),
    }
}

/// Recompresses a PNG losslessly at maximum effort; bytes that the codec does not
/// accept fail with `Image`.
pub fn recompress_png(data: &Vec<u8>) -> (r: Result<Vec<u8>, CodecError>)
    ensures
        png_accepts(data@) ==> r is Ok && r->Ok_0@ == png_optimized(data@),
        !png_accepts(data@) ==> r == Err::<Vec<u8>, CodecError>(CodecError::Image),
{
    match optimize_png(data.as_slice()) {
        Ok(out) => Ok(out),
        Err(_) => Err(CodecError::Image),
    }
}

/// The operator-facing report of an archive's digest.
pub open spec fn digest_report_text(archive: Seq<u8>) -> Seq<char> {
    "Zip file SHA-1 hash: "@ + sha1_hex(archive)
}

/// The line that reports the SHA-1 digest of the finished archive's bytes.
pub fn digest_report(archive: &Vec<u8>) -> (r: String)
    ensures
        r@ == digest_report_text(archive@),
        r@.len() == 61,
{
    let hex = sha1_hexdigest(archive.as_slice());
    let mut out = chars_of("Zip file SHA-1 hash: ");
    let h = chars_of(hex.as_str());
    let ghost head = out@;
    let mut k: usize = 0;
    while k < h.len()
        invariant
            k <= h@.len(),
            out@ == head + h@.subrange(0, k as int),
        decreases h@.len() - k,
    {
        out.push(h[k]);
        k = k + 1;
        assert(out@ =~= head + h@.subrange(0, k as int));
    }
    assert(h@.subrange(0, h@.len() as int) =~= h@);
    proof {
        reveal_strlit("Zip file SHA-1 hash: ");
    }
    string_of(&out)
}

} // verus!
