//! The document-embedding stage: builds a minimal one-page document,
//! stores the payload as an untyped metadata stream object, and records a
//! reference to it under a custom key in the document's info dictionary.
//! Decoding follows that reference back to the stream.  All document
//! parsing and writing is the `lopdf` crate's; this module sequences its
//! calls and owns nothing of the document format itself.
use crate::error::{PdfError, PipelineError};
use vstd::prelude::*;

verus! {

#[verifier::external_type_specification]
#[verifier::external_body]
pub struct ExDocument(lopdf::Document);

#[verifier::external_type_specification]
#[verifier::external_body]
pub struct ExDictionary(lopdf::Dictionary);

#[verifier::external_type_specification]
#[verifier::external_body]
pub struct ExError(lopdf::Error);

/// What following the custom info-dictionary key of a parsed document
/// yields: the raw bytes of the referenced stream, or the cause of the
/// failure.  Cause 1 means the document parses to an info dictionary that
/// lacks the custom key; cause 2 means the key's reference resolves to an
/// object that is not a stream; cause 0 covers every other failure (an
/// unparseable document, a missing or malformed info reference, a bad
/// stream reference).  Parsing is a pure function of the bytes, so the
/// walk's outcome can be named.
pub uninterp spec fn pdf_extract_of(bytes: Seq<u8>) -> Result<Seq<u8>, int>;

/// Relies on lopdf's Document::with_version: a fresh document carrying
/// only its version header.
#[verifier::external_body]
fn pdf_new_document() -> lopdf::Document {
    lopdf::Document::with_version("1.7")
}

/// Relies on lopdf's Dictionary: the constant font-resource dictionary of
/// the visible page (one Type1 Helvetica font named F1).
#[verifier::external_body]
fn pdf_resources_dict() -> lopdf::Dictionary {
    let mut font = lopdf::Dictionary::new();
    font.set("Type", "Font");
    font.set("Subtype", "Type1");
    font.set("BaseFont", "Helvetica");
    let mut fonts = lopdf::Dictionary::new();
    fonts.set("F1", font);
    let mut resources = lopdf::Dictionary::new();
    resources.set("Font", fonts);
    resources
}

/// Relies on lopdf's add_object and Stream: adds the visible text stream
/// and the page dictionary that shows it, returning the page's id.
#[verifier::external_body]
fn pdf_add_text_page(doc: &mut lopdf::Document, resources: lopdf::Dictionary) -> (u32, u16) {
    let content = b"BT /F1 24 Tf 100 700 Td (Hello, World!) Tj ET".to_vec();
    let text_id = doc.add_object(lopdf::Stream::new(lopdf::Dictionary::new(), content));
    let parent = doc.new_object_id();
    let mut page = lopdf::Dictionary::new();
    page.set("Type", "Page");
    page.set("Parent", parent);
    page.set("Resources", resources);
    page.set("Contents", text_id);
    page.set("MediaBox", vec![0.into(), 0.into(), 600.into(), 800.into()]);
    doc.add_object(page)
}

/// Relies on lopdf's add_object and trailer: adds the pages tree over the
/// given page, repairs the page's parent reference, and sets the root
/// catalog.
#[verifier::external_body]
fn pdf_finish_catalog(doc: &mut lopdf::Document, page_id: (u32, u16)) {
    let mut pages = lopdf::Dictionary::new();
    pages.set("Type", "Pages");
    pages.set("Kids", vec![lopdf::Object::Reference(page_id)]);
    pages.set("Count", 1);
    let pages_id = doc.add_object(pages);
    if let Ok(lopdf::Object::Dictionary(d)) = doc.get_object_mut(page_id) {
        d.set("Parent", pages_id);
    }
    let mut catalog = lopdf::Dictionary::new();
    catalog.set("Type", "Catalog");
    catalog.set("Pages", pages_id);
    let catalog_id = doc.add_object(catalog);
    doc.trailer.set("Root", catalog_id);
}

/// Relies on lopdf's Dictionary: the constant dictionary of the payload
/// stream (an untyped metadata XObject), carrying the payload's length.
#[verifier::external_body]
fn pdf_meta_dict(len: i64) -> lopdf::Dictionary {
    let mut sdict = lopdf::Dictionary::new();
    sdict.set("Type", "XObject");
    sdict.set("Subtype", "Metadata");
    sdict.set("Length", len);
    sdict
}

/// Relies on lopdf's Stream, trailer and save_to: stores the payload as a
/// metadata stream, references it from a fresh info dictionary under the
/// custom key, and serializes the document.  lopdf writes stream contents
/// verbatim and reads them back by their recorded length, and its
/// `add_object` allocates ids above the document's tracked maximum, so in
/// the saved bytes the trailer's info reference and the custom key lead
/// back to exactly the payload.
#[verifier::external_body]
fn pdf_attach_and_save(doc: lopdf::Document, data: Vec<u8>) -> (r: Result<Vec<u8>, String>)
    ensures
        r is Ok,
        r matches Ok(out) ==> (pdf_extract_of(out@) matches Ok(p) && p == data@),
{

    let mut doc = doc;
    let meta = pdf_meta_dict(data.len() as i64);
    let hidden_id = doc.add_object(lopdf::Stream::new(meta, data));
    let info_id = doc.add_object(lopdf::Dictionary::new());
    doc.trailer.set("Info", info_id);
    let info = doc.get_object_mut(info_id).and_then(|o| o.as_dict_mut());
    info.map_err(|e| e.to_string())?.set("WackyPixels", hidden_id);
    let mut out: Vec<u8> = Vec::new();
    doc.save_to(&mut std::io::Cursor::new(&mut out)).map_err(|e| e.to_string())?;
    Ok(out)
}

/// Relies on lopdf's Error: folds any of its variants into the stage's
/// codec failure.
#[verifier::external_body]
fn pdf_err(e: lopdf::Error) -> PdfError {
    PdfError::Codec(e.to_string())
}

/// Relies on lopdf's Error: tells the missing-dictionary-key variant
/// apart from every other failure.
#[verifier::external_body]
fn pdf_key_err(e: lopdf::Error) -> PdfError {
    match e {
        lopdf::Error::DictKey(_) => PdfError::PayloadMissing,
        other => PdfError::Codec(other.to_string()),
    }
}

/// Relies on lopdf's Document::load_from and object accessors: follows
/// the info dictionary's custom key to the payload stream and returns its
/// raw contents, telling an absent key (lopdf's missing-dictionary-key
/// error on that lookup) and a non-stream target apart from every other
/// failure.
#[verifier::external_body]
fn pdf_extract_raw(data: &[u8]) -> (r: Result<Vec<u8>, PdfError>)
    ensures
        match pdf_extract_of(data@) {
            Ok(p) => r matches Ok(out) && out@ == p,
            Err(cause) => r matches Err(e) && (cause == 1 ==> e == PdfError::PayloadMissing) && (
            cause == 2 ==> e == PdfError::NotAStream) && (!(cause == 1 || cause == 2)
                ==> e matches PdfError::Codec(_)),
        },
{
    let doc = lopdf::Document::load_from(std::io::Cursor::new(data)).map_err(pdf_err)?;
    let info_id = doc.trailer.get(b"Info").and_then(|o| o.as_reference()).map_err(pdf_err)?;
    let info = doc.get_object(info_id).and_then(|o| o.as_dict()).map_err(pdf_err)?;
    let hidden_id = info.get(b"WackyPixels").map_err(pdf_key_err)?.as_reference().map_err(pdf_err)?;
    match doc.get_object(hidden_id) {
        Ok(lopdf::Object::Stream(s)) => Ok(s.content.clone()),
        Ok(_) => Err(PdfError::NotAStream),
        Err(e) => Err(pdf_err(e)),
    }
}

/// The document-embedding stage.
#[derive(Debug)]
pub struct PdfTransform;

impl PdfTransform {
    /// Builds the one-page document and embeds the payload under the
    /// custom info-dictionary key: always succeeds (the document is built
    /// and saved in memory), and extracting the payload from the emitted
    /// bytes recovers the input.
    pub fn encode(&self, data: Vec<u8>) -> (r: Result<Vec<u8>, PipelineError>)
        ensures
            r is Ok,
            r matches Ok(out) ==> pdf_extract_of(out@) == Ok::<Seq<u8>, int>(data@),
    {
        let mut doc = pdf_new_document();
        let resources = pdf_resources_dict();
        let page_id = pdf_add_text_page(&mut doc, resources);
        pdf_finish_catalog(&mut doc, page_id);
        match pdf_attach_and_save(doc, data) {
            Ok(out) => Ok(out),
            Err(m) => Err(PipelineError::Pdf(PdfError::Codec(m))),
        }
    }

    /// Parses the document and returns the raw bytes of the embedded
    /// payload stream; fails when the custom key, its reference, or the
    /// stream is absent or malformed, with an absent key and a non-stream
    /// target each reported as its own distinguishable condition.
    pub fn decode(&self, data: Vec<u8>) -> (r: Result<Vec<u8>, PipelineError>)
        ensures
            match pdf_extract_of(data@) {
                Ok(p) => r matches Ok(out) && out@ == p,
                Err(_) => r matches Err(e) && e matches PipelineError::Pdf(_),
            },
            pdf_extract_of(data@) == Err::<Seq<u8>, int>(1) ==> r == Err::<Vec<u8>, PipelineError>(
                PipelineError::Pdf(PdfError::PayloadMissing),
            ),
            pdf_extract_of(data@) == Err::<Seq<u8>, int>(2) ==> r == Err::<Vec<u8>, PipelineError>(
                PipelineError::Pdf(PdfError::NotAStream),
            ),
    {
        match pdf_extract_raw(data.as_slice()) {
            Ok(v) => Ok(v),
            Err(e) => Err(PipelineError::Pdf(e)),
        }
    }

    /// The stage's display name.
    pub fn name(&self) -> (r: &'static str)
        ensures
            r@ == "PDF"@,
    {
        "PDF"
    }

    /// The stage's file extension for intermediate artifacts.
    pub fn extension(&self) -> (r: &'static str)
        ensures
            r@ == "pdf"@,
    {
        "pdf"
    }
}

} // verus!
