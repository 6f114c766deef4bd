//! Format classification: input kind from MIME type and extension, PDF
//! detection with a magic-byte fallback, and output-mode resolution.
//!
//! The comparisons are case-sensitive; callers lower-case MIME type and
//! extension before classification.

use vstd::prelude::*;
use crate::text::{contains_seq, str_contains, str_eq};

verus! {

pub open spec fn spec_says_pdf(m: Seq<char>, e: Seq<char>) -> bool {
    contains_seq(m, "pdf"@) || e == "pdf"@
}

pub open spec fn spec_says_png(m: Seq<char>, e: Seq<char>) -> bool {
    contains_seq(m, "png"@) || e == "png"@
}

pub open spec fn spec_says_jpeg(m: Seq<char>, e: Seq<char>) -> bool {
    contains_seq(m, "jpg"@) || contains_seq(m, "jpeg"@) || e == "jpg"@ || e == "jpeg"@
}

/// The input kind that MIME type and extension imply; MIME substring match
/// takes priority over extension match.
pub open spec fn spec_input_kind(m: Seq<char>, e: Seq<char>) -> Seq<char> {
    if spec_says_pdf(m, e) {
        "pdf"@
    } else if spec_says_png(m, e) {
        "png"@
    } else if spec_says_jpeg(m, e) {
        "jpeg"@
    } else {
        "unknown"@
    }
}

pub fn input_kind(mime: &str, ext: &str) -> (r: &'static str)
    ensures
        r@ == spec_input_kind(mime@, ext@),
{
    if str_contains(mime, "pdf") || str_eq(ext, "pdf") {
        return "pdf";
    }
    if str_contains(mime, "png") || str_eq(ext, "png") {
        return "png";
    }
    if str_contains(mime, "jpg") || str_contains(mime, "jpeg") || str_eq(ext, "jpg") || str_eq(
        ext,
        "jpeg",
    ) {
        return "jpeg";
    }
    "unknown"
}

/// The first four bytes are the PDF signature `%PDF`.
pub open spec fn spec_pdf_magic(bytes: Seq<u8>) -> bool {
    bytes.len() >= 4 && bytes[0] == 37u8 && bytes[1] == 80u8 && bytes[2] == 68u8 && bytes[3]
        == 70u8
}

pub open spec fn spec_is_pdf(m: Seq<char>, e: Seq<char>, bytes: Seq<u8>) -> bool {
    spec_says_pdf(m, e) || spec_pdf_magic(bytes)
}

/// PDF detection: metadata says so, or the file starts with the `%PDF`
/// signature — uploaded files may carry incorrect or missing metadata.
pub fn is_pdf(mime: &str, ext: &str, bytes: &[u8]) -> (r: bool)
    ensures
        r == spec_is_pdf(mime@, ext@, bytes@),
{
    if str_contains(mime, "pdf") || str_eq(ext, "pdf") {
        return true;
    }
    bytes.len() >= 4 && bytes[0] == 37 && bytes[1] == 80 && bytes[2] == 68 && bytes[3] == 70
}

/// The output mode inferred from MIME type and extension alone, defaulting
/// to jpeg when nothing matches.
pub open spec fn spec_infer_mode(m: Seq<char>, e: Seq<char>) -> Seq<char> {
    if spec_says_pdf(m, e) {
        "pdf"@
    } else if spec_says_png(m, e) {
        "png"@
    } else {
        "jpeg"@
    }
}

/// An explicit selection other than `auto` is honored verbatim; otherwise
/// the mode is inferred from MIME type and extension.
pub open spec fn spec_choose_out_mode(m: Seq<char>, e: Seq<char>, sel: Seq<char>) -> Seq<char> {
    if sel != "auto"@ {
        sel
    } else {
        spec_infer_mode(m, e)
    }
}

pub fn choose_out_mode(mime: &str, ext: &str, out_mode_sel: &str) -> (r: String)
    ensures
        r@ == spec_choose_out_mode(mime@, ext@, out_mode_sel@),
{
    if !str_eq(out_mode_sel, "auto") {
        return out_mode_sel.to_owned();
    }
    if str_contains(mime, "pdf") || str_eq(ext, "pdf") {
        return "pdf".to_owned();
    }
    if str_contains(mime, "png") || str_eq(ext, "png") {
        return "png".to_owned();
    }
    "jpeg".to_owned()
}

/// The resolved output mode: a detected PDF input forces pdf output; a pdf
/// selection over non-PDF input falls back to raster inference; and a
/// transparent-background request turns a jpeg resolution back into png when
/// the input was PNG, since JPEG has no alpha channel.
pub open spec fn spec_resolve_out_mode(
    m: Seq<char>,
    e: Seq<char>,
    sel: Seq<char>,
    pdf_input: bool,
    bg_transparent: bool,
) -> Seq<char> {
    let chosen = spec_choose_out_mode(m, e, sel);
    let adjusted = if pdf_input {
        "pdf"@
    } else if chosen == "pdf"@ {
        spec_infer_mode(m, e)
    } else {
        chosen
    };
    if bg_transparent && adjusted == "jpeg"@ && spec_input_kind(m, e) == "png"@ {
        "png"@
    } else {
        adjusted
    }
}

pub fn resolve_out_mode(
    mime: &str,
    ext: &str,
    out_mode_sel: &str,
    pdf_input: bool,
    bg_transparent: bool,
) -> (r: String)
    ensures
        r@ == spec_resolve_out_mode(mime@, ext@, out_mode_sel@, pdf_input, bg_transparent),
{
    let mut out_mode: String = choose_out_mode(mime, ext, out_mode_sel);
    if pdf_input {
        out_mode = "pdf".to_owned();
    } else if str_eq(out_mode.as_str(), "pdf") {
        out_mode = choose_out_mode(mime, ext, "auto");
    }
    if bg_transparent && str_eq(out_mode.as_str(), "jpeg") && str_eq(input_kind(mime, ext), "png") {
        out_mode = "png".to_owned();
    }
    out_mode
}

} // verus!
