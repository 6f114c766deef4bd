//! PDF image-stream rewriter: locate eligible raster image objects inside a
//! parsed PDF, decode their content, re-encode it as JPEG, and substitute
//! the stream in place, leaving everything else untouched.
//!
//! The parsed document is opaque; what the rewriter reads and writes of it
//! is modeled by named accessor functions over the document value, tied to
//! the underlying library by the trusted wrappers below.

use vstd::prelude::*;
use crate::util::{clamp_u8, lemma_mul3_index, spec_clamp};
use crate::codec::{jpeg_encoding_of, pixo_encode_jpeg};

verus! {

#[verifier::external_type_specification]
#[verifier::external_body]
pub struct ExDocument(lopdf::Document);

/// Whether these bytes parse as a PDF document; parsing is deterministic.
pub uninterp spec fn spec_pdf_parses(bytes: Seq<u8>) -> bool;

/// The document these bytes parse to, when they parse.
pub uninterp spec fn parsed_doc_of(bytes: Seq<u8>) -> lopdf::Document;

/// The ids of the document's object map, in the map's (sorted) order.
pub uninterp spec fn doc_ids_of(doc: lopdf::Document) -> Seq<(u32, u16)>;

/// Whether the object under this id is a stream object.
pub uninterp spec fn doc_is_stream(doc: lopdf::Document, id: (u32, u16)) -> bool;

/// The name value under `key` in a stream object's dictionary; None when the
/// object is not a stream, the key is absent, or the value is not a name.
pub uninterp spec fn doc_dict_name(doc: lopdf::Document, id: (u32, u16), key: Seq<char>) -> Option<
    Seq<u8>,
>;

/// The integer value under `key` in a stream object's dictionary; None when
/// the object is not a stream, the key is absent, or the value is not an
/// integer.
pub uninterp spec fn doc_dict_int(doc: lopdf::Document, id: (u32, u16), key: Seq<char>) -> Option<
    i64,
>;

/// The stream's filter-name list; None when the object is not a stream or
/// its `Filter` entry is absent or malformed.
pub uninterp spec fn doc_filters(doc: lopdf::Document, id: (u32, u16)) -> Option<Seq<Seq<u8>>>;

/// The stream's content after undoing its filters; None when the object is
/// not a stream or decoding fails.
pub uninterp spec fn doc_decompressed(doc: lopdf::Document, id: (u32, u16)) -> Option<Seq<u8>>;

/// The stream's raw (encoded) content; None when the object is not a stream.
pub uninterp spec fn doc_content(doc: lopdf::Document, id: (u32, u16)) -> Option<Seq<u8>>;

/// Whether serializing the document succeeds; the writer is deterministic.
pub uninterp spec fn doc_saves(doc: lopdf::Document) -> bool;

/// The bytes the document serializes to, when serialization succeeds.
pub uninterp spec fn saved_bytes_of(doc: lopdf::Document) -> Seq<u8>;

pub open spec fn opt_bytes_view(v: Option<Vec<u8>>) -> Option<Seq<u8>> {
    match v {
        Some(b) => Some(b@),
        None => None,
    }
}

pub open spec fn opt_filters_view(v: Option<Vec<Vec<u8>>>) -> Option<Seq<Seq<u8>>> {
    match v {
        Some(fs) => Some(fs@.map_values(|f: Vec<u8>| f@)),
        None => None,
    }
}

/// The object under `id` reads the same in both documents.
pub open spec fn object_unchanged(d0: lopdf::Document, d1: lopdf::Document, id: (u32, u16)) -> bool {
    &&& doc_is_stream(d1, id) == doc_is_stream(d0, id)
    &&& forall|k: Seq<char>| #[trigger] doc_dict_name(d1, id, k) == doc_dict_name(d0, id, k)
    &&& forall|k: Seq<char>| #[trigger] doc_dict_int(d1, id, k) == doc_dict_int(d0, id, k)
    &&& doc_filters(d1, id) == doc_filters(d0, id)
    &&& doc_decompressed(d1, id) == doc_decompressed(d0, id)
    &&& doc_content(d1, id) == doc_content(d0, id)
}

/// A mutation of one object leaves the id list and every other object alone.
pub open spec fn others_unchanged(d0: lopdf::Document, d1: lopdf::Document, id: (u32, u16)) -> bool {
    &&& doc_ids_of(d1) == doc_ids_of(d0)
    &&& forall|id2: (u32, u16)| id2 != id ==> #[trigger] object_unchanged(d0, d1, id2)
}

/// Relies on lopdf::Document::load_mem: deterministic parsing of a PDF from
/// bytes (this build disables the parallel reader feature, so the whole
/// parse is sequential); None exactly when parsing fails.
#[verifier::external_body]
fn pdf_load(bytes: &[u8]) -> (r: Option<lopdf::Document>)
    ensures
        r is Some <==> spec_pdf_parses(bytes@),
        r matches Some(d) ==> d == parsed_doc_of(bytes@),
{
    lopdf::Document::load_mem(bytes).ok()
}

/// Relies on lopdf: the keys of Document.objects, a BTreeMap, so the ids
/// come in sorted order without duplicates.
#[verifier::external_body]
fn pdf_object_ids(doc: &lopdf::Document) -> (r: Vec<(u32, u16)>)
    ensures
        r@ == doc_ids_of(*doc),
        forall|i: int, j: int| 0 <= i < j < r@.len() ==> r@[i] != r@[j],
{
    doc.objects.keys().copied().collect()
}

/// Relies on lopdf::Dictionary::get and lopdf::Object::as_name on a stream
/// object's dictionary; None when the object is not a stream, the key is
/// absent, or the value is not a name.
#[verifier::external_body]
fn pdf_stream_dict_name(doc: &lopdf::Document, id: (u32, u16), key: &str) -> (r: Option<Vec<u8>>)
    ensures
        opt_bytes_view(r) == doc_dict_name(*doc, id, key@),
        r is Some ==> doc_is_stream(*doc, id),
{
    match doc.objects.get(&id) {
        Some(lopdf::Object::Stream(s)) => s.dict.get(key.as_bytes()).ok().and_then(
            |o| o.as_name().ok(),
        ).map(|n| n.to_vec()),
        _ => None,
    }
}

/// Relies on lopdf::Dictionary::get and lopdf::Object::as_i64 on a stream
/// object's dictionary; None when the object is not a stream, the key is
/// absent, or the value is not an integer.
#[verifier::external_body]
fn pdf_stream_dict_int(doc: &lopdf::Document, id: (u32, u16), key: &str) -> (r: Option<i64>)
    ensures
        r == doc_dict_int(*doc, id, key@),
        r is Some ==> doc_is_stream(*doc, id),
{
    match doc.objects.get(&id) {
        Some(lopdf::Object::Stream(s)) => s.dict.get(key.as_bytes()).ok().and_then(
            |o| o.as_i64().ok(),
        ),
        _ => None,
    }
}

/// Relies on lopdf::Stream::filters, which reads only the `Filter` entry;
/// None when the object is not a stream or the entry is absent or malformed.
#[verifier::external_body]
fn pdf_stream_filters(doc: &lopdf::Document, id: (u32, u16)) -> (r: Option<Vec<Vec<u8>>>)
    ensures
        opt_filters_view(r) == doc_filters(*doc, id),
        r is Some ==> doc_is_stream(*doc, id),
{
    match doc.objects.get(&id) {
        Some(lopdf::Object::Stream(s)) => s.filters().ok().map(
            |fs| fs.iter().map(|f| f.to_vec()).collect(),
        ),
        _ => None,
    }
}

/// Relies on lopdf::Stream::decompressed_content: the stream's content after
/// undoing its filters; None when the object is not a stream or decoding
/// fails.
#[verifier::external_body]
fn pdf_stream_decompressed(doc: &lopdf::Document, id: (u32, u16)) -> (r: Option<Vec<u8>>)
    ensures
        opt_bytes_view(r) == doc_decompressed(*doc, id),
        r is Some ==> doc_is_stream(*doc, id),
{
    match doc.objects.get(&id) {
        Some(lopdf::Object::Stream(s)) => s.decompressed_content().ok(),
        _ => None,
    }
}

/// Relies on lopdf::Stream::set_content: replaces a stream object's content
/// and updates its declared `Length` entry, touching nothing else; a non-
/// stream object is left alone.
#[verifier::external_body]
fn pdf_set_stream_content(doc: &mut lopdf::Document, id: (u32, u16), content: Vec<u8>)
    ensures
        others_unchanged(*old(doc), *final(doc), id),
        doc_is_stream(*final(doc), id) == doc_is_stream(*old(doc), id),
        !doc_is_stream(*old(doc), id) ==> object_unchanged(*old(doc), *final(doc), id),
        doc_is_stream(*old(doc), id) ==> doc_content(*final(doc), id) == Some(content@),
        doc_filters(*final(doc), id) == doc_filters(*old(doc), id),
        forall|k: Seq<char>|
            k != "Length"@ ==> #[trigger] doc_dict_name(*final(doc), id, k) == doc_dict_name(
                *old(doc),
                id,
                k,
            ),
        forall|k: Seq<char>|
            k != "Length"@ ==> #[trigger] doc_dict_int(*final(doc), id, k) == doc_dict_int(
                *old(doc),
                id,
                k,
            ),
{
    if let Some(lopdf::Object::Stream(s)) = doc.objects.get_mut(&id) {
        s.set_content(content);
    }
}

/// Relies on lopdf::Dictionary::set with a name value: the entry under `key`
/// becomes that name, other entries, the raw content and every other object
/// stay as they were; when `key` is `Filter`, the stream's filter list
/// becomes exactly that one name.
#[verifier::external_body]
fn pdf_set_dict_name(doc: &mut lopdf::Document, id: (u32, u16), key: &str, value: Vec<u8>)
    ensures
        others_unchanged(*old(doc), *final(doc), id),
        doc_is_stream(*final(doc), id) == doc_is_stream(*old(doc), id),
        !doc_is_stream(*old(doc), id) ==> object_unchanged(*old(doc), *final(doc), id),
        doc_is_stream(*old(doc), id) ==> doc_dict_name(*final(doc), id, key@) == Some(value@),
        doc_is_stream(*old(doc), id) ==> doc_dict_int(*final(doc), id, key@) is None,
        doc_is_stream(*old(doc), id) && key@ == "Filter"@ ==> doc_filters(*final(doc), id) == Some(
            seq![value@],
        ),
        key@ != "Filter"@ ==> doc_filters(*final(doc), id) == doc_filters(*old(doc), id),
        doc_content(*final(doc), id) == doc_content(*old(doc), id),
        forall|k: Seq<char>|
            k != key@ ==> #[trigger] doc_dict_name(*final(doc), id, k) == doc_dict_name(
                *old(doc),
                id,
                k,
            ),
        forall|k: Seq<char>|
            k != key@ ==> #[trigger] doc_dict_int(*final(doc), id, k) == doc_dict_int(
                *old(doc),
                id,
                k,
            ),
{
    if let Some(lopdf::Object::Stream(s)) = doc.objects.get_mut(&id) {
        s.dict.set(key.as_bytes().to_vec(), lopdf::Object::Name(value));
    }
}

/// Relies on lopdf::Dictionary::set with an integer value; same framing as
/// the name setter.
#[verifier::external_body]
fn pdf_set_dict_int(doc: &mut lopdf::Document, id: (u32, u16), key: &str, value: i64)
    ensures
        others_unchanged(*old(doc), *final(doc), id),
        doc_is_stream(*final(doc), id) == doc_is_stream(*old(doc), id),
        !doc_is_stream(*old(doc), id) ==> object_unchanged(*old(doc), *final(doc), id),
        doc_is_stream(*old(doc), id) ==> doc_dict_int(*final(doc), id, key@) == Some(value),
        doc_is_stream(*old(doc), id) ==> doc_dict_name(*final(doc), id, key@) is None,
        key@ != "Filter"@ ==> doc_filters(*final(doc), id) == doc_filters(*old(doc), id),
        doc_content(*final(doc), id) == doc_content(*old(doc), id),
        forall|k: Seq<char>|
            k != key@ ==> #[trigger] doc_dict_name(*final(doc), id, k) == doc_dict_name(
                *old(doc),
                id,
                k,
            ),
        forall|k: Seq<char>|
            k != key@ ==> #[trigger] doc_dict_int(*final(doc), id, k) == doc_dict_int(
                *old(doc),
                id,
                k,
            ),
{
    if let Some(lopdf::Object::Stream(s)) = doc.objects.get_mut(&id) {
        s.dict.set(key.as_bytes().to_vec(), lopdf::Object::Integer(value));
    }
}

/// Relies on lopdf::Dictionary::remove: the entry under `key` disappears,
/// everything else stays.
#[verifier::external_body]
fn pdf_remove_dict_key(doc: &mut lopdf::Document, id: (u32, u16), key: &str)
    ensures
        others_unchanged(*old(doc), *final(doc), id),
        doc_is_stream(*final(doc), id) == doc_is_stream(*old(doc), id),
        !doc_is_stream(*old(doc), id) ==> object_unchanged(*old(doc), *final(doc), id),
        doc_is_stream(*old(doc), id) ==> doc_dict_name(*final(doc), id, key@) is None,
        doc_is_stream(*old(doc), id) ==> doc_dict_int(*final(doc), id, key@) is None,
        key@ != "Filter"@ ==> doc_filters(*final(doc), id) == doc_filters(*old(doc), id),
        doc_content(*final(doc), id) == doc_content(*old(doc), id),
        forall|k: Seq<char>|
            k != key@ ==> #[trigger] doc_dict_name(*final(doc), id, k) == doc_dict_name(
                *old(doc),
                id,
                k,
            ),
        forall|k: Seq<char>|
            k != key@ ==> #[trigger] doc_dict_int(*final(doc), id, k) == doc_dict_int(
                *old(doc),
                id,
                k,
            ),
{
    if let Some(lopdf::Object::Stream(s)) = doc.objects.get_mut(&id) {
        s.dict.remove(key.as_bytes());
    }
}

/// Relies on lopdf::Document::save_to into a byte vector: deterministic
/// serialization of the document as it stands; None exactly when the writer
/// fails.
#[verifier::external_body]
fn pdf_save(doc: &mut lopdf::Document) -> (r: Option<Vec<u8>>)
    ensures
        r is Some <==> doc_saves(*old(doc)),
        r matches Some(b) ==> b@ == saved_bytes_of(*old(doc)),
{
    let mut out: Vec<u8> = Vec::new();
    match doc.save_to(&mut out) {
        Ok(_) => Some(out),
        Err(_) => None,
    }
}

/// The PDF name `Image` in bytes.
pub open spec fn name_image() -> Seq<u8> {
    seq![73u8, 109u8, 97u8, 103u8, 101u8]
}

/// The PDF name `FlateDecode` in bytes.
pub open spec fn name_flate_decode() -> Seq<u8> {
    seq![70u8, 108u8, 97u8, 116u8, 101u8, 68u8, 101u8, 99u8, 111u8, 100u8, 101u8]
}

/// The PDF name `DCTDecode` in bytes.
pub open spec fn name_dct_decode() -> Seq<u8> {
    seq![68u8, 67u8, 84u8, 68u8, 101u8, 99u8, 111u8, 100u8, 101u8]
}

/// The PDF name `DeviceRGB` in bytes.
pub open spec fn name_device_rgb() -> Seq<u8> {
    seq![68u8, 101u8, 118u8, 105u8, 99u8, 101u8, 82u8, 71u8, 66u8]
}

/// The PDF name `DeviceGray` in bytes.
pub open spec fn name_device_gray() -> Seq<u8> {
    seq![68u8, 101u8, 118u8, 105u8, 99u8, 101u8, 71u8, 114u8, 97u8, 121u8]
}

pub fn is_name_image(v: &[u8]) -> (r: bool)
    ensures
        r == (v@ == name_image()),
{
    let r = v.len() == 5 && v[0] == 73 && v[1] == 109 && v[2] == 97 && v[3] == 103 && v[4] == 101;
    proof {
        if r {
            assert(v@ =~= name_image());
        }
    }
    r
}

pub fn is_name_flate_decode(v: &[u8]) -> (r: bool)
    ensures
        r == (v@ == name_flate_decode()),
{
    let r = v.len() == 11 && v[0] == 70 && v[1] == 108 && v[2] == 97 && v[3] == 116 && v[4] == 101
        && v[5] == 68 && v[6] == 101 && v[7] == 99 && v[8] == 111 && v[9] == 100 && v[10] == 101;
    proof {
        if r {
            assert(v@ =~= name_flate_decode());
        }
    }
    r
}

pub fn is_name_device_rgb(v: &[u8]) -> (r: bool)
    ensures
        r == (v@ == name_device_rgb()),
{
    let r = v.len() == 9 && v[0] == 68 && v[1] == 101 && v[2] == 118 && v[3] == 105 && v[4] == 99
        && v[5] == 101 && v[6] == 82 && v[7] == 71 && v[8] == 66;
    proof {
        if r {
            assert(v@ =~= name_device_rgb());
        }
    }
    r
}

pub fn is_name_device_gray(v: &[u8]) -> (r: bool)
    ensures
        r == (v@ == name_device_gray()),
{
    let r = v.len() == 10 && v[0] == 68 && v[1] == 101 && v[2] == 118 && v[3] == 105 && v[4] == 99
        && v[5] == 101 && v[6] == 71 && v[7] == 114 && v[8] == 97 && v[9] == 121;
    proof {
        if r {
            assert(v@ =~= name_device_gray());
        }
    }
    r
}

fn dct_decode_name() -> (v: Vec<u8>)
    ensures
        v@ == name_dct_decode(),
{
    let mut v: Vec<u8> = Vec::new();
    v.push(68);
    v.push(67);
    v.push(84);
    v.push(68);
    v.push(101);
    v.push(99);
    v.push(111);
    v.push(100);
    v.push(101);
    proof {
        assert(v@ =~= name_dct_decode());
    }
    v
}

fn device_rgb_name() -> (v: Vec<u8>)
    ensures
        v@ == name_device_rgb(),
{
    let mut v: Vec<u8> = Vec::new();
    v.push(68);
    v.push(101);
    v.push(118);
    v.push(105);
    v.push(99);
    v.push(101);
    v.push(82);
    v.push(71);
    v.push(66);
    proof {
        assert(v@ =~= name_device_rgb());
    }
    v
}

/// Everything the eligibility decision reads off one PDF object.
pub struct StreamMeta {
    /// The object's `Subtype` name, if it is a stream and has one.
    pub subtype: Option<Vec<u8>>,
    /// The stream's filter names, if readable.
    pub filters: Option<Vec<Vec<u8>>>,
    /// The `Width` entry, if present and an integer.
    pub width: Option<i64>,
    /// The `Height` entry, if present and an integer.
    pub height: Option<i64>,
    /// The `BitsPerComponent` entry, if present and an integer.
    pub bits: Option<i64>,
    /// The `ColorSpace` name, if present and a plain name.
    pub color_space: Option<Vec<u8>>,
}

/// Whether a stream object may be rewritten, and with which geometry: it
/// must be an `Image` stream whose single filter is `FlateDecode`, with
/// positive integer `Width` and `Height`, 8 bits per component (the default
/// when the entry is absent), and a `DeviceRGB` or `DeviceGray` color space.
/// The result carries width, height and whether the content is grayscale.
pub open spec fn spec_stream_eligible_v(
    subtype: Option<Seq<u8>>,
    filters: Option<Seq<Seq<u8>>>,
    width: Option<i64>,
    height: Option<i64>,
    bits: Option<i64>,
    color_space: Option<Seq<u8>>,
) -> Option<(i64, i64, bool)> {
    if !(subtype matches Some(s) && s == name_image()) {
        None
    } else if !(filters matches Some(fs) && fs.len() == 1 && fs[0] == name_flate_decode()) {
        None
    } else if !(width matches Some(w) && w > 0) {
        None
    } else if !(height matches Some(h) && h > 0) {
        None
    } else if !(bits matches Some(b) ==> b == 8) {
        None
    } else if color_space matches Some(cs) && cs == name_device_rgb() {
        Some((width->Some_0, height->Some_0, false))
    } else if color_space matches Some(cs) && cs == name_device_gray() {
        Some((width->Some_0, height->Some_0, true))
    } else {
        None
    }
}

pub open spec fn spec_stream_eligible(m: StreamMeta) -> Option<(i64, i64, bool)> {
    spec_stream_eligible_v(
        opt_bytes_view(m.subtype),
        opt_filters_view(m.filters),
        m.width,
        m.height,
        m.bits,
        opt_bytes_view(m.color_space),
    )
}

pub fn stream_eligible(m: &StreamMeta) -> (r: Option<(i64, i64, bool)>)
    ensures
        r == spec_stream_eligible(*m),
{
    let sub_ok = match &m.subtype {
        Some(s) => is_name_image(s.as_slice()),
        None => false,
    };
    if !sub_ok {
        return None;
    }
    let fl_ok = match &m.filters {
        Some(fs) => fs.len() == 1 && is_name_flate_decode(fs[0].as_slice()),
        None => false,
    };
    if !fl_ok {
        return None;
    }
    let w: i64 = match &m.width {
        Some(w) => *w,
        None => {
            return None;
        },
    };
    if w <= 0 {
        return None;
    }
    let h: i64 = match &m.height {
        Some(h) => *h,
        None => {
            return None;
        },
    };
    if h <= 0 {
        return None;
    }
    let bits_ok = match &m.bits {
        Some(b) => *b == 8,
        None => true,
    };
    if !bits_ok {
        return None;
    }
    match &m.color_space {
        Some(cs) => {
            if is_name_device_rgb(cs.as_slice()) {
                Some((w, h, false))
            } else if is_name_device_gray(cs.as_slice()) {
                Some((w, h, true))
            } else {
                None
            }
        },
        None => None,
    }
}

/// A stream whose single filter is already `DCTDecode` — which is what every
/// rewrite installs — is never eligible again: re-running the rewriter on
/// its own output leaves every previously rewritten object untouched.
pub proof fn lemma_rewritten_stream_not_eligible(m: StreamMeta)
    requires
        m.filters matches Some(fs) && fs@.len() == 1 && fs@[0]@ == name_dct_decode(),
    ensures
        spec_stream_eligible(m) is None,
{
    let fs = m.filters->Some_0;
    assert(opt_filters_view(m.filters)->Some_0[0] == fs@[0]@);
    assert(fs@[0]@ != name_flate_decode()) by {
        assert(name_dct_decode().len() != name_flate_decode().len());
    }
}

/// Gray samples expanded to RGB by repeating each one three times.
pub open spec fn spec_gray_expand(g: Seq<u8>) -> Seq<u8> {
    Seq::new((3 * g.len()) as nat, |j: int| g[j / 3])
}

/// The RGB buffer a stream's decoded content yields: grayscale content of
/// exactly width*height samples is expanded to RGB; color content must be
/// exactly width*height*3 bytes and passes through unchanged; any length
/// mismatch disqualifies the stream.
pub open spec fn spec_rgb_payload(decoded: Seq<u8>, w: int, h: int, gray: bool) -> Option<Seq<u8>> {
    if gray {
        if decoded.len() == w * h {
            Some(spec_gray_expand(decoded))
        } else {
            None
        }
    } else {
        if decoded.len() == w * h * 3 {
            Some(decoded)
        } else {
            None
        }
    }
}

pub fn build_rgb_payload(decoded: Vec<u8>, width: u32, height: u32, gray: bool) -> (r: Option<
    Vec<u8>,
>)
    requires
        1 <= width <= 65535,
        1 <= height <= 65535,
    ensures
        ({
            let sp = spec_rgb_payload(decoded@, width as int, height as int, gray);
            match r {
                Some(v) => sp matches Some(s) && v@ == s,
                None => sp is None,
            }
        }),
{
    proof {
        assert(width as int * height as int <= 65535 * 65535) by (nonlinear_arith)
            requires width as int <= 65535 && height as int <= 65535,
        ;
        assert(width as int * height as int >= 1) by (nonlinear_arith)
            requires width as int >= 1 && height as int >= 1,
        ;
    }
    let px: u64 = (width as u64) * (height as u64);
    if gray {
        if (decoded.len() as u64) != px {
            return None;
        }
        let n: usize = decoded.len();
        let mut out: Vec<u8> = Vec::new();
        let mut i: usize = 0;
        while i < n
            invariant
                n == decoded@.len(),
                0 <= i <= n,
                out@.len() == 3 * i,
                forall|j: int| 0 <= j < 3 * i ==> out@[j] == decoded@[j / 3],
            decreases n - i,
        {
            let s = decoded[i];
            out.push(s);
            out.push(s);
            out.push(s);
            proof {
                lemma_mul3_index(i as int, 0);
                lemma_mul3_index(i as int, 1);
                lemma_mul3_index(i as int, 2);
            }
            i += 1;
        }
        proof {
            assert(out@ =~= spec_gray_expand(decoded@));
        }
        Some(out)
    } else {
        if (decoded.len() as u64) != px * 3 {
            return None;
        }
        Some(decoded)
    }
}

/// The JPEG encoding of a bare RGB buffer at the given quality and preset:
/// empty when the encoder would reject the input (out-of-range dimensions,
/// quality, or buffer length), otherwise the actual encoding, which begins
/// with the JPEG start-of-image marker.
pub open spec fn spec_jpeg_from_rgb(
    rgb: Seq<u8>,
    width: u32,
    height: u32,
    quality: u8,
    preset: u8,
) -> Seq<u8> {
    if 1 <= width <= 65535 && 1 <= height <= 65535 && 1 <= quality <= 100 && rgb.len() == width
        as int * height as int * 3 {
        jpeg_encoding_of(rgb, width, height, quality, preset)
    } else {
        Seq::empty()
    }
}

pub fn encode_rgb_jpeg(rgb: &Vec<u8>, width: u32, height: u32, quality: u8, preset: u8) -> (r:
    Vec<u8>)
    ensures
        r@ == spec_jpeg_from_rgb(rgb@, width, height, quality, preset),
        r@.len() != 0 ==> r@.len() >= 2 && r@[0] == 0xffu8 && r@[1] == 0xd8u8,
{
    if width == 0 || width > 65535 || height == 0 || height > 65535 || quality == 0 || quality
        > 100 {
        return Vec::new();
    }
    proof {
        assert(width as int * height as int <= 65535 * 65535) by (nonlinear_arith)
            requires width as int <= 65535 && height as int <= 65535,
        ;
    }
    let expected: u64 = (width as u64) * (height as u64) * 3;
    if (rgb.len() as u64) != expected {
        return Vec::new();
    }
    pixo_encode_jpeg(rgb, width, height, quality, preset)
}

/// What the rewrite decision reads of one object in a document.
pub open spec fn spec_eligible_in_doc(doc: lopdf::Document, id: (u32, u16)) -> Option<
    (i64, i64, bool),
> {
    spec_stream_eligible_v(
        doc_dict_name(doc, id, "Subtype"@),
        doc_filters(doc, id),
        doc_dict_int(doc, id, "Width"@),
        doc_dict_int(doc, id, "Height"@),
        doc_dict_int(doc, id, "BitsPerComponent"@),
        doc_dict_name(doc, id, "ColorSpace"@),
    )
}

/// The JPEG bytes that rewriting this object at this quality and preset
/// installs, or None when the object is skipped: ineligible, beyond the
/// encoder's dimension limit, undecodable, of mismatched size, or with an
/// empty encoder result.
pub open spec fn spec_rewrite_of(doc: lopdf::Document, id: (u32, u16), q: u8, p: u8) -> Option<
    Seq<u8>,
> {
    match spec_eligible_in_doc(doc, id) {
        Some(dims) => {
            if dims.0 <= 65535 && dims.1 <= 65535 {
                match doc_decompressed(doc, id) {
                    Some(d) => {
                        match spec_rgb_payload(d, dims.0 as int, dims.1 as int, dims.2) {
                            Some(rgb) => {
                                let j = spec_jpeg_from_rgb(
                                    rgb,
                                    dims.0 as u32,
                                    dims.1 as u32,
                                    q,
                                    p,
                                );
                                if j.len() > 0 {
                                    Some(j)
                                } else {
                                    None
                                }
                            },
                            None => None,
                        }
                    },
                    None => None,
                }
            } else {
                None
            }
        },
        None => None,
    }
}

/// Some object of the document is rewritten at this quality and preset.
pub open spec fn spec_any_rewrite(doc: lopdf::Document, q: u8, p: u8) -> bool {
    exists|i: int|
        0 <= i < doc_ids_of(doc).len() && (#[trigger] spec_rewrite_of(
            doc,
            doc_ids_of(doc)[i],
            q,
            p,
        )) is Some
}

/// The per-object outcome of one rewriter pass: a rewritten object carries
/// the new filter, color space, bit depth and content and no `DecodeParms`;
/// a skipped object reads exactly as before.
/// A dictionary key the rewrite is allowed to touch: the four entries it
/// sets or removes, and `Length`, which follows the new content.
pub open spec fn rewrite_touches_key(k: Seq<char>) -> bool {
    ||| k == "Filter"@
    ||| k == "ColorSpace"@
    ||| k == "BitsPerComponent"@
    ||| k == "DecodeParms"@
    ||| k == "Length"@
}

pub open spec fn object_rewritten(
    d0: lopdf::Document,
    d1: lopdf::Document,
    id: (u32, u16),
    q: u8,
    p: u8,
) -> bool {
    match spec_rewrite_of(d0, id, q, p) {
        Some(j) => {
            &&& doc_dict_name(d1, id, "Filter"@) == Some(name_dct_decode())
            &&& doc_filters(d1, id) == Some(seq![name_dct_decode()])
            &&& doc_dict_name(d1, id, "ColorSpace"@) == Some(name_device_rgb())
            &&& doc_dict_int(d1, id, "BitsPerComponent"@) == Some(8i64)
            &&& doc_dict_name(d1, id, "DecodeParms"@) is None
            &&& doc_dict_int(d1, id, "DecodeParms"@) is None
            &&& doc_content(d1, id) == Some(j)
            &&& doc_is_stream(d1, id) == doc_is_stream(d0, id)
            &&& forall|k: Seq<char>|
                !rewrite_touches_key(k) ==> #[trigger] doc_dict_name(d1, id, k) == doc_dict_name(
                    d0,
                    id,
                    k,
                )
            &&& forall|k: Seq<char>|
                !rewrite_touches_key(k) ==> #[trigger] doc_dict_int(d1, id, k) == doc_dict_int(
                    d0,
                    id,
                    k,
                )
        },
        None => object_unchanged(d0, d1, id),
    }
}

/// `d1` is `d0` after one full rewriter pass at this quality and preset.
pub open spec fn spec_rewritten_from(
    d0: lopdf::Document,
    d1: lopdf::Document,
    q: u8,
    p: u8,
) -> bool {
    &&& doc_ids_of(d1) == doc_ids_of(d0)
    &&& forall|i: int|
        0 <= i < doc_ids_of(d0).len() ==> #[trigger] object_rewritten(
            d0,
            d1,
            doc_ids_of(d0)[i],
            q,
            p,
        )
}

proof fn lemma_unchanged_trans(
    a: lopdf::Document,
    b: lopdf::Document,
    c: lopdf::Document,
    id: (u32, u16),
)
    requires
        object_unchanged(a, b, id),
        object_unchanged(b, c, id),
    ensures
        object_unchanged(a, c, id),
{
    assert forall|k: Seq<char>| #[trigger] doc_dict_name(c, id, k) == doc_dict_name(a, id, k) by {
        assert(doc_dict_name(b, id, k) == doc_dict_name(a, id, k));
    }
    assert forall|k: Seq<char>| #[trigger] doc_dict_int(c, id, k) == doc_dict_int(a, id, k) by {
        assert(doc_dict_int(b, id, k) == doc_dict_int(a, id, k));
    }
}

proof fn lemma_rewritten_then_unchanged(
    d0: lopdf::Document,
    a: lopdf::Document,
    b: lopdf::Document,
    id: (u32, u16),
    q: u8,
    p: u8,
)
    requires
        object_rewritten(d0, a, id, q, p),
        object_unchanged(a, b, id),
    ensures
        object_rewritten(d0, b, id, q, p),
{
    match spec_rewrite_of(d0, id, q, p) {
        Some(j) => {
            assert(doc_dict_name(b, id, "Filter"@) == doc_dict_name(a, id, "Filter"@));
            assert(doc_dict_name(b, id, "ColorSpace"@) == doc_dict_name(a, id, "ColorSpace"@));
            assert(doc_dict_name(b, id, "DecodeParms"@) == doc_dict_name(a, id, "DecodeParms"@));
            assert(doc_dict_int(b, id, "BitsPerComponent"@) == doc_dict_int(
                a,
                id,
                "BitsPerComponent"@,
            ));
            assert(doc_dict_int(b, id, "DecodeParms"@) == doc_dict_int(a, id, "DecodeParms"@));
            assert forall|k: Seq<char>|
                !rewrite_touches_key(k) implies #[trigger] doc_dict_name(b, id, k)
                == doc_dict_name(d0, id, k) by {
                assert(doc_dict_name(b, id, k) == doc_dict_name(a, id, k));
            }
            assert forall|k: Seq<char>|
                !rewrite_touches_key(k) implies #[trigger] doc_dict_int(b, id, k) == doc_dict_int(
                d0,
                id,
                k,
            ) by {
                assert(doc_dict_int(b, id, k) == doc_dict_int(a, id, k));
            }
        },
        None => {
            lemma_unchanged_trans(d0, a, b, id);
        },
    }
}

/// Rewrite every eligible image stream of a parsed document in place.
/// The returned flag says whether anything changed; every eligible object
/// ends up carrying the JPEG rewrite and every other object reads exactly
/// as before.
pub fn rewrite_document(doc: &mut lopdf::Document, quality: u8, preset: u8) -> (changed: bool)
    ensures
        changed == spec_any_rewrite(
            *old(doc),
            spec_clamp(quality as int, 1, 100) as u8,
            spec_clamp(preset as int, 0, 2) as u8,
        ),
        spec_rewritten_from(
            *old(doc),
            *final(doc),
            spec_clamp(quality as int, 1, 100) as u8,
            spec_clamp(preset as int, 0, 2) as u8,
        ),
{
    let ghost d0 = *doc;
    let q = clamp_u8(quality, 1, 100);
    let p = clamp_u8(preset, 0, 2);
    let mut changed = false;
    let ids = pdf_object_ids(doc);
    let n = ids.len();
    let mut idx: usize = 0;
    while idx < n
        invariant
            n == ids@.len(),
            0 <= idx <= n,
            1 <= q <= 100,
            p <= 2,
            q == spec_clamp(quality as int, 1, 100) as u8,
            p == spec_clamp(preset as int, 0, 2) as u8,
            ids@ == doc_ids_of(d0),
            forall|i: int, j: int| 0 <= i < j < ids@.len() ==> ids@[i] != ids@[j],
            doc_ids_of(*doc) == doc_ids_of(d0),
            forall|j: int| idx <= j < n ==> #[trigger] object_unchanged(d0, *doc, ids@[j]),
            forall|j: int| 0 <= j < idx ==> #[trigger] object_rewritten(d0, *doc, ids@[j], q, p),
            changed == exists|j: int|
                0 <= j < idx && (#[trigger] spec_rewrite_of(d0, ids@[j], q, p)) is Some,
        decreases n - idx,
    {
        let id = ids[idx];
        proof {
            assert(object_unchanged(d0, *doc, ids@[idx as int]));
        }
        let meta = StreamMeta {
            subtype: pdf_stream_dict_name(doc, id, "Subtype"),
            filters: pdf_stream_filters(doc, id),
            width: pdf_stream_dict_int(doc, id, "Width"),
            height: pdf_stream_dict_int(doc, id, "Height"),
            bits: pdf_stream_dict_int(doc, id, "BitsPerComponent"),
            color_space: pdf_stream_dict_name(doc, id, "ColorSpace"),
        };
        proof {
            assert(spec_stream_eligible(meta) == spec_eligible_in_doc(d0, id));
        }
        let elig = stream_eligible(&meta);
        let (w64, h64, gray) = match elig {
            Some(t) => t,
            None => {
                proof {
                    assert(spec_rewrite_of(d0, ids@[idx as int], q, p) is None);
                }
                idx += 1;
                continue ;
            },
        };
        // beyond the encoder's dimension limit the rewrite below could never
        // produce output, so the object is left untouched either way
        if w64 > 65535 || h64 > 65535 {
            proof {
                assert(spec_rewrite_of(d0, ids@[idx as int], q, p) is None);
            }
            idx += 1;
            continue ;
        }
        let w: u32 = w64 as u32;
        let h: u32 = h64 as u32;
        let decoded = match pdf_stream_decompressed(doc, id) {
            Some(d) => d,
            None => {
                proof {
                    assert(spec_rewrite_of(d0, ids@[idx as int], q, p) is None);
                }
                idx += 1;
                continue ;
            },
        };
        let rgb = match build_rgb_payload(decoded, w, h, gray) {
            Some(v) => v,
            None => {
                proof {
                    assert(spec_rewrite_of(d0, ids@[idx as int], q, p) is None);
                }
                idx += 1;
                continue ;
            },
        };
        let jpeg_bytes = encode_rgb_jpeg(&rgb, w, h, q, p);
        if jpeg_bytes.len() == 0 {
            proof {
                assert(spec_rewrite_of(d0, ids@[idx as int], q, p) is None);
            }
            idx += 1;
            continue ;
        }
        let ghost jb = jpeg_bytes@;
        proof {
            assert(spec_rewrite_of(d0, ids@[idx as int], q, p) == Some(jb));
            assert(doc_is_stream(*doc, id));
        }
        let ghost s0 = *doc;
        pdf_set_stream_content(doc, id, jpeg_bytes);
        let ghost s1 = *doc;
        pdf_set_dict_name(doc, id, "Filter", dct_decode_name());
        let ghost s2 = *doc;
        pdf_set_dict_name(doc, id, "ColorSpace", device_rgb_name());
        let ghost s3 = *doc;
        pdf_set_dict_int(doc, id, "BitsPerComponent", 8);
        let ghost s4 = *doc;
        pdf_remove_dict_key(doc, id, "DecodeParms");
        proof {
            reveal_strlit("Filter");
            reveal_strlit("ColorSpace");
            reveal_strlit("BitsPerComponent");
            reveal_strlit("DecodeParms");
            reveal_strlit("Length");
            assert("Filter"@.len() == 6);
            assert("ColorSpace"@.len() == 10);
            assert("BitsPerComponent"@.len() == 16);
            assert("DecodeParms"@.len() == 11);
            assert("Length"@.len() == 6);
            assert("Filter"@ != "Length"@) by {
                assert("Filter"@[0] == 'F');
                assert("Length"@[0] == 'L');
            }
            // content: set first, preserved by every dictionary operation
            assert(doc_content(s1, id) == Some(jb));
            assert(doc_content(*doc, id) == Some(jb));
            // filter: set second, preserved by the later operations
            assert(doc_dict_name(s2, id, "Filter"@) == Some(name_dct_decode()));
            assert(doc_filters(s2, id) == Some(seq![name_dct_decode()]));
            assert(doc_dict_name(*doc, id, "Filter"@) == Some(name_dct_decode()));
            assert(doc_filters(*doc, id) == Some(seq![name_dct_decode()]));
            // color space
            assert(doc_dict_name(s3, id, "ColorSpace"@) == Some(name_device_rgb()));
            assert(doc_dict_name(*doc, id, "ColorSpace"@) == Some(name_device_rgb()));
            // bit depth
            assert(doc_dict_int(s4, id, "BitsPerComponent"@) == Some(8i64));
            assert(doc_dict_int(*doc, id, "BitsPerComponent"@) == Some(8i64));
            // decode parameters removed last
            assert(doc_dict_name(*doc, id, "DecodeParms"@) is None);
            assert(doc_dict_int(*doc, id, "DecodeParms"@) is None);
            // every key the rewrite does not touch keeps its value
            assert forall|k: Seq<char>|
                !rewrite_touches_key(k) implies #[trigger] doc_dict_name(*doc, id, k)
                == doc_dict_name(d0, id, k) by {
                assert(doc_dict_name(s0, id, k) == doc_dict_name(d0, id, k));
                assert(doc_dict_name(s1, id, k) == doc_dict_name(s0, id, k));
                assert(doc_dict_name(s2, id, k) == doc_dict_name(s1, id, k));
                assert(doc_dict_name(s3, id, k) == doc_dict_name(s2, id, k));
                assert(doc_dict_name(s4, id, k) == doc_dict_name(s3, id, k));
            }
            assert forall|k: Seq<char>|
                !rewrite_touches_key(k) implies #[trigger] doc_dict_int(*doc, id, k)
                == doc_dict_int(d0, id, k) by {
                assert(doc_dict_int(s0, id, k) == doc_dict_int(d0, id, k));
                assert(doc_dict_int(s1, id, k) == doc_dict_int(s0, id, k));
                assert(doc_dict_int(s2, id, k) == doc_dict_int(s1, id, k));
                assert(doc_dict_int(s3, id, k) == doc_dict_int(s2, id, k));
                assert(doc_dict_int(s4, id, k) == doc_dict_int(s3, id, k));
            }
            assert(doc_is_stream(*doc, id) == doc_is_stream(d0, id));
            assert(object_rewritten(d0, *doc, ids@[idx as int], q, p));
            // every other object is untouched by the five mutations
            assert forall|id2: (u32, u16)| id2 != id implies object_unchanged(s0, *doc, id2) by {
                assert(object_unchanged(s0, s1, id2));
                assert(object_unchanged(s1, s2, id2));
                assert(object_unchanged(s2, s3, id2));
                assert(object_unchanged(s3, s4, id2));
                assert(object_unchanged(s4, *doc, id2));
                lemma_unchanged_trans(s0, s1, s2, id2);
                lemma_unchanged_trans(s0, s2, s3, id2);
                lemma_unchanged_trans(s0, s3, s4, id2);
                lemma_unchanged_trans(s0, s4, *doc, id2);
            }
            assert forall|j: int| idx + 1 <= j < n implies object_unchanged(d0, *doc, ids@[j]) by {
                assert(ids@[j] != ids@[idx as int]);
                assert(object_unchanged(d0, s0, ids@[j]));
                assert(object_unchanged(s0, *doc, ids@[j]));
                lemma_unchanged_trans(d0, s0, *doc, ids@[j]);
            }
            assert forall|j: int| 0 <= j < idx implies object_rewritten(d0, *doc, ids@[j], q, p) by {
                assert(ids@[j] != ids@[idx as int]);
                assert(object_rewritten(d0, s0, ids@[j], q, p));
                assert(object_unchanged(s0, *doc, ids@[j]));
                lemma_rewritten_then_unchanged(d0, s0, *doc, ids@[j], q, p);
            }
        }
        changed = true;
        idx += 1;
    }
    changed
}

/// One rewriter pass stabilizes: every object it rewrote carries the
/// `DCTDecode` filter in the resulting document and so fails the
/// single-`FlateDecode` eligibility test of any later pass, at any quality
/// and preset — re-running the rewriter leaves every previously rewritten
/// object untouched.
pub proof fn lemma_rewrite_pass_stabilizes(
    d0: lopdf::Document,
    d1: lopdf::Document,
    id: (u32, u16),
    q: u8,
    p: u8,
    q2: u8,
    p2: u8,
)
    requires
        spec_rewritten_from(d0, d1, q, p),
        exists|i: int| 0 <= i < doc_ids_of(d0).len() && doc_ids_of(d0)[i] == id,
        spec_rewrite_of(d0, id, q, p) is Some,
    ensures
        spec_eligible_in_doc(d1, id) is None,
        spec_rewrite_of(d1, id, q2, p2) is None,
{
    let i = choose|i: int| 0 <= i < doc_ids_of(d0).len() && doc_ids_of(d0)[i] == id;
    assert(object_rewritten(d0, d1, doc_ids_of(d0)[i], q, p));
    assert(doc_filters(d1, id) == Some(seq![name_dct_decode()]));
    assert(name_dct_decode() != name_flate_decode()) by {
        assert(name_dct_decode().len() != name_flate_decode().len());
    }
}

/// What one rewriter pass over raw bytes yields: empty input stays empty,
/// unparsable input and all-ineligible documents pass through byte-identical,
/// and otherwise the result is the serialization of the rewritten document
/// (or the input again, when serialization fails).
pub open spec fn spec_compress_pdf_post(pdf: Seq<u8>, r: Seq<u8>, quality: u8, preset: u8) -> bool {
    let cq = spec_clamp(quality as int, 1, 100) as u8;
    let cp = spec_clamp(preset as int, 0, 2) as u8;
    &&& pdf.len() == 0 ==> r.len() == 0
    &&& pdf.len() > 0 && !spec_pdf_parses(pdf) ==> r == pdf
    &&& pdf.len() > 0 && spec_pdf_parses(pdf) && !spec_any_rewrite(parsed_doc_of(pdf), cq, cp)
        ==> r == pdf
    &&& pdf.len() > 0 && spec_pdf_parses(pdf) && spec_any_rewrite(parsed_doc_of(pdf), cq, cp)
        ==> (exists|d: lopdf::Document|
        #[trigger] spec_rewritten_from(parsed_doc_of(pdf), d, cq, cp) && (if doc_saves(d) {
            r == saved_bytes_of(d)
        } else {
            r == pdf
        }))
}

/// Rewrite every eligible image stream of a PDF as a JPEG at the given
/// quality and preset. Unparsable input, ineligible objects and
/// serialization failures all degrade to returning the input unchanged;
/// empty input yields empty output.
pub fn compress_pdf_images(pdf: Vec<u8>, quality: u8, preset: u8) -> (r: Vec<u8>)
    ensures
        spec_compress_pdf_post(pdf@, r@, quality, preset),
{
    if pdf.len() == 0 {
        return Vec::new();
    }
    let mut doc = match pdf_load(pdf.as_slice()) {
        Some(d) => d,
        None => {
            return pdf;
        },
    };
    let changed = rewrite_document(&mut doc, quality, preset);
    if !changed {
        return pdf;
    }
    let ghost dfin = doc;
    match pdf_save(&mut doc) {
        Some(out) => {
            proof {
                assert(spec_rewritten_from(
                    parsed_doc_of(pdf@),
                    dfin,
                    spec_clamp(quality as int, 1, 100) as u8,
                    spec_clamp(preset as int, 0, 2) as u8,
                ));
            }
            out
        },
        None => pdf,
    }
}

/// Bounded bisection over the rewrite quality for PDF output: same search
/// shape as the raster searches, probing the rewriter at each quality and
/// preferring the highest probed quality whose output fits the budget, else
/// the smallest output seen. The result is always an output the rewriter
/// produced at some quality in range.
pub fn compress_pdf_to_target(pdf: Vec<u8>, max_quality: u8, preset: u8, target_bytes: usize) -> (r:
    Vec<u8>)
    ensures
        pdf@.len() == 0 ==> r@.len() == 0,
        pdf@.len() > 0 && !spec_pdf_parses(pdf@) ==> r@ == pdf@,
        exists|q: u8|
            1 <= q <= spec_clamp(max_quality as int, 1, 100) && #[trigger] spec_compress_pdf_post(
                pdf@,
                r@,
                q,
                preset,
            ),
        exists|b: Seq<u8>|
            #[trigger] spec_compress_pdf_post(
                pdf@,
                b,
                spec_clamp(max_quality as int, 1, 100) as u8,
                preset,
            ) && (b.len() <= target_bytes ==> r@ == b) && r@.len() <= b.len(),
{
    let mq = clamp_u8(max_quality, 1, 100);
    let min_quality: u8 = if crate::search::MIN_TARGET_QUALITY < mq {
        crate::search::MIN_TARGET_QUALITY
    } else {
        mq
    };
    let best = compress_pdf_images(vstd::slice::slice_to_vec(pdf.as_slice()), mq, preset);
    proof {
        assert(spec_clamp(mq as int, 1, 100) as u8 == mq);
        assert(spec_compress_pdf_post(pdf@, best@, mq, preset));
    }
    if best.len() <= target_bytes {
        return best;
    }
    let ghost first_probe = best@;
    let mut lo: u8 = min_quality;
    let mut hi: u8 = mq;
    let mut best_under: Option<Vec<u8>> = None;
    let mut smallest: Vec<u8> = best;

    let estimate = crate::search::estimate_quality(mq, smallest.len(), target_bytes);
    if estimate > min_quality && estimate < mq {
        hi = estimate;
    }

    let mut iterations: u8 = 0;
    while lo <= hi && iterations < 6
        invariant
            iterations <= 6,
            1 <= min_quality <= mq <= 100,
            lo >= min_quality,
            hi <= mq,
            mq == spec_clamp(max_quality as int, 1, 100) as u8,
            spec_compress_pdf_post(pdf@, first_probe, mq, preset),
            first_probe.len() > target_bytes,
            smallest@.len() <= first_probe.len(),
            exists|q: u8| 1 <= q <= mq && #[trigger] spec_compress_pdf_post(pdf@, smallest@, q, preset),
            best_under matches Some(b) ==> b@.len() <= target_bytes,
            best_under matches Some(b) ==> exists|q: u8|
                1 <= q <= mq && #[trigger] spec_compress_pdf_post(pdf@, b@, q, preset),
        decreases 6 - iterations,
    {
        let mid: u16 = (lo as u16 + hi as u16) / 2;
        let mid_q: u8 = mid as u8;
        proof {
            assert(lo <= mid <= hi);
        }
        let out = compress_pdf_images(vstd::slice::slice_to_vec(pdf.as_slice()), mid_q, preset);
        proof {
            assert(spec_clamp(mid_q as int, 1, 100) as u8 == mid_q);
        }
        if out.len() <= target_bytes {
            best_under = Some(out);
            proof {
                assert(spec_compress_pdf_post(pdf@, best_under->Some_0@, mid_q, preset));
            }
            lo = if mid_q == 255 {
                255
            } else {
                mid_q + 1
            };
        } else {
            if out.len() < smallest.len() {
                smallest = out;
                proof {
                    assert(spec_compress_pdf_post(pdf@, smallest@, mid_q, preset));
                }
            }
            hi = mid_q - 1;
        }
        iterations += 1;
    }
    proof {
        assert(spec_compress_pdf_post(pdf@, first_probe, mq, preset));
    }
    match best_under {
        Some(b) => b,
        None => smallest,
    }
}

} // verus!
