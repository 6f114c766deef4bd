use sizepress::pdf::compress_pdf_images;

fn image_stream(color_space: &[u8], bits: i64, content: Vec<u8>) -> lopdf::Stream {
    let mut dict = lopdf::Dictionary::new();
    dict.set("Type", lopdf::Object::Name(b"XObject".to_vec()));
    dict.set("Subtype", lopdf::Object::Name(b"Image".to_vec()));
    dict.set("Width", lopdf::Object::Integer(10));
    dict.set("Height", lopdf::Object::Integer(10));
    dict.set("BitsPerComponent", lopdf::Object::Integer(bits));
    dict.set("ColorSpace", lopdf::Object::Name(color_space.to_vec()));
    let mut stream = lopdf::Stream::new(dict, content);
    stream.compress().expect("flate compression");
    stream
}

fn doc_with_image(stream: lopdf::Stream) -> (Vec<u8>, (u32, u16)) {
    let mut doc = lopdf::Document::with_version("1.5");
    let image_id = doc.add_object(lopdf::Object::Stream(stream));
    let mut pages = lopdf::Dictionary::new();
    pages.set("Type", lopdf::Object::Name(b"Pages".to_vec()));
    pages.set("Kids", lopdf::Object::Array(Vec::new()));
    pages.set("Count", lopdf::Object::Integer(0));
    let pages_id = doc.add_object(lopdf::Object::Dictionary(pages));
    let mut catalog = lopdf::Dictionary::new();
    catalog.set("Type", lopdf::Object::Name(b"Catalog".to_vec()));
    catalog.set("Pages", lopdf::Object::Reference(pages_id));
    let catalog_id = doc.add_object(lopdf::Object::Dictionary(catalog));
    doc.trailer.set("Root", lopdf::Object::Reference(catalog_id));
    let mut out: Vec<u8> = Vec::new();
    doc.save_to(&mut out).expect("serialize");
    (out, image_id)
}

fn find_image_stream(bytes: &[u8]) -> lopdf::Stream {
    let doc = lopdf::Document::load_mem(bytes).expect("reload");
    for (_, obj) in doc.objects.iter() {
        if let lopdf::Object::Stream(s) = obj {
            let subtype = s.dict.get(b"Subtype").and_then(lopdf::Object::as_name).ok();
            if subtype == Some(b"Image") {
                return s.clone();
            }
        }
    }
    panic!("no image stream found");
}

#[test]
fn eligible_rgb_stream_is_rewritten_to_dctdecode() {
    let stream = image_stream(b"DeviceRGB", 8, vec![200u8; 300]);
    assert_eq!(stream.filters().unwrap(), vec![b"FlateDecode".as_slice()]);
    let (pdf, _) = doc_with_image(stream);
    let out = compress_pdf_images(pdf.clone(), 80, 1);
    assert_ne!(out, pdf, "the stream must have been rewritten");
    let s = find_image_stream(&out);
    assert_eq!(s.filters().unwrap(), vec![b"DCTDecode".as_slice()]);
    assert_eq!(
        s.dict.get(b"BitsPerComponent").and_then(lopdf::Object::as_i64).unwrap(),
        8
    );
    assert_eq!(
        s.dict.get(b"ColorSpace").and_then(lopdf::Object::as_name).unwrap(),
        b"DeviceRGB"
    );
    // the new content is a JPEG
    assert_eq!(&s.content[0..2], &[0xFF, 0xD8]);
}

#[test]
fn gray_stream_is_expanded_and_rewritten() {
    let stream = image_stream(b"DeviceGray", 8, vec![120u8; 100]);
    let (pdf, _) = doc_with_image(stream);
    let out = compress_pdf_images(pdf.clone(), 80, 1);
    assert_ne!(out, pdf);
    let s = find_image_stream(&out);
    assert_eq!(s.filters().unwrap(), vec![b"DCTDecode".as_slice()]);
    assert_eq!(
        s.dict.get(b"ColorSpace").and_then(lopdf::Object::as_name).unwrap(),
        b"DeviceRGB"
    );
}

#[test]
fn one_bit_stream_is_returned_byte_identical() {
    let stream = image_stream(b"DeviceRGB", 1, vec![200u8; 300]);
    let (pdf, _) = doc_with_image(stream);
    let out = compress_pdf_images(pdf.clone(), 80, 1);
    assert_eq!(out, pdf);
}

#[test]
fn wrong_color_space_is_skipped() {
    let stream = image_stream(b"DeviceCMYK", 8, vec![200u8; 400]);
    let (pdf, _) = doc_with_image(stream);
    let out = compress_pdf_images(pdf.clone(), 80, 1);
    assert_eq!(out, pdf);
}

#[test]
fn size_mismatch_is_skipped() {
    // 10x10 DeviceRGB needs exactly 300 decoded bytes
    let stream = image_stream(b"DeviceRGB", 8, vec![200u8; 299]);
    let (pdf, _) = doc_with_image(stream);
    let out = compress_pdf_images(pdf.clone(), 80, 1);
    assert_eq!(out, pdf);
}

#[test]
fn rewriting_is_idempotent() {
    let stream = image_stream(b"DeviceRGB", 8, vec![200u8; 300]);
    let (pdf, _) = doc_with_image(stream);
    let once = compress_pdf_images(pdf, 80, 1);
    let twice = compress_pdf_images(once.clone(), 80, 1);
    assert_eq!(twice, once);
}

#[test]
fn unparsable_pdf_passes_through() {
    let junk = b"%PDF-1.4 but not actually a document".to_vec();
    let out = compress_pdf_images(junk.clone(), 80, 1);
    assert_eq!(out, junk);
}
