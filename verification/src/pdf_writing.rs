//! Writing scanned pages as a PDF file.

use vstd::prelude::*;
use crate::document::{copy_bytes, EncodedPage, PageEncoding};
use crate::pdf_layout::{
    catalog_number, content_number, has_page, image_entries, image_number, info_number,
    is_scan_file, kids, media_items, named, page_entries, page_number, reads_as_scan, reference,
};
use crate::pdf_objects::{
    add_object, array_object, dictionary_entries, dictionary_object, document_max_id,
    document_objects, document_trailer, error_text, key, key_bytes, lemma_keys_injective,
    new_dictionary, new_document, no_entries, object_value, object_values, put_object, real_object,
    scalar_object, set_entry, set_trailer_entry, stream_object, take_object_id, ObjectId,
    PdfObject, Scalar,
};
use crate::pdf_reading::{
    are_plain, encode_operations, operation_models, page_drawing, side, Objects, PageOperation,
    ReadPage,
};

verus! {

/// What pages to be written say.
pub open spec fn written_models(pages: Seq<(&EncodedPage, u8)>) -> Seq<ReadPage> {
    pages.map_values(|page: (&EncodedPage, u8)| (page.0@, page.1))
}

/// Whether all objects have numbers from one to the highest, of the first generation.
pub open spec fn is_numbered_to(objects: Objects, highest: int) -> bool {
    forall|id: ObjectId| #[trigger]
        objects.dom().contains(id) ==> 1 <= id.0 <= highest && id.1 == 0
}

/// Writes a document as the bytes of a file (`lopdf::Document::save_to` into
/// memory), which fails only when no object number is left for the
/// cross-reference stream. A file of up to 4 GiB that was laid out for scanned
/// pages, and holds nothing else, is read back by `Document::load_mem` with the same
/// objects and the same root and information entries in its trailer.
#[verifier::external_body]
fn save_document(document: lopdf::Document) -> (r: Result<Vec<u8>, String>)
    requires
        document_max_id(document) < u32::MAX,
        is_numbered_to(document_objects(document), document_max_id(document) as int),
        document_trailer(document).dom() == set![key("Root"@), key("Info"@)],
    ensures
        r is Ok,
        forall|pages: Seq<ReadPage>|
            is_scan_file(document_objects(document), document_trailer(document), pages)
                && document_max_id(document) == info_number(pages.len() as int)
                && r->Ok_0@.len() <= u32::MAX ==> #[trigger] reads_as_scan(r->Ok_0@, pages),
{
    let mut document = document;
    let mut bytes = Vec::new();
    let saved = document.save_to(&mut std::io::Cursor::new(&mut bytes));
    saved.map(|()| bytes).map_err(|error| error.to_string())
}

fn set_name(dictionary: &mut lopdf::Dictionary, name: &str, value: &str)
    ensures
        dictionary_entries(*final(dictionary)) == dictionary_entries(*old(dictionary)).insert(
            key(name@),
            named(value@),
        ),
{
    set_entry(dictionary, key_bytes(name), scalar_object(Scalar::Name(key_bytes(value))));
}

fn set_text(dictionary: &mut lopdf::Dictionary, name: &str, value: &str)
    ensures
        dictionary_entries(*final(dictionary)) == dictionary_entries(*old(dictionary)).insert(
            key(name@),
            PdfObject::Text(key(value@)),
        ),
{
    set_entry(dictionary, key_bytes(name), scalar_object(Scalar::Text(key_bytes(value))));
}

fn set_integer(dictionary: &mut lopdf::Dictionary, name: &str, value: i64)
    ensures
        dictionary_entries(*final(dictionary)) == dictionary_entries(*old(dictionary)).insert(
            key(name@),
            PdfObject::Integer(value),
        ),
{
    set_entry(dictionary, key_bytes(name), scalar_object(Scalar::Integer(value)));
}

fn set_reference(dictionary: &mut lopdf::Dictionary, name: &str, id: ObjectId)
    ensures
        dictionary_entries(*final(dictionary)) == dictionary_entries(*old(dictionary)).insert(
            key(name@),
            PdfObject::Reference(id),
        ),
{
    set_entry(dictionary, key_bytes(name), scalar_object(Scalar::Reference(id)));
}

fn make_image(page: &EncodedPage) -> (r: lopdf::Object)
    ensures
        object_value(r) == PdfObject::Stream(image_entries(page@), page@.bytes),
{
    let mut dictionary: lopdf::Dictionary = new_dictionary();
    set_name(&mut dictionary, "Type", "XObject");
    set_name(&mut dictionary, "Subtype", "Image");
    set_integer(&mut dictionary, "Width", page.width as i64);
    set_integer(&mut dictionary, "Height", page.height as i64);
    match page.encoding {
        PageEncoding::Jpeg => {
            set_name(&mut dictionary, "ColorSpace", "DeviceRGB");
            set_integer(&mut dictionary, "BitsPerComponent", 8);
            set_name(&mut dictionary, "Filter", "DCTDecode");
        },
        PageEncoding::G4 => {
            set_name(&mut dictionary, "ColorSpace", "DeviceGray");
            set_integer(&mut dictionary, "BitsPerComponent", 1);
            set_name(&mut dictionary, "Filter", "CCITTFaxDecode");
            let mut parameters: lopdf::Dictionary = new_dictionary();
            set_integer(&mut parameters, "K", -1);
            set_integer(&mut parameters, "Columns", page.width as i64);
            set_integer(&mut parameters, "Rows", page.height as i64);
            set_entry(
                &mut parameters,
                key_bytes("BlackIs1"),
                scalar_object(Scalar::Boolean(false)),
            );
            set_entry(&mut dictionary, key_bytes("DecodeParms"), dictionary_object(parameters));
        },
    }
    stream_object(dictionary, copy_bytes(&page.bytes), false)
}

fn make_side(long: bool) -> (r: lopdf::Object)
    ensures
        object_value(r) == side(long),
{
    if long {
        real_object("841.88983")
    } else {
        real_object("595.2756")
    }
}

fn make_zero() -> (r: lopdf::Object)
    ensures
        object_value(r) == PdfObject::Integer(0),
{
    scalar_object(Scalar::Integer(0))
}

fn make_drawing(landscape: bool) -> (r: Vec<PageOperation>)
    ensures
        operation_models(r@) == page_drawing(landscape),
{
    let mut placement: Vec<lopdf::Object> = Vec::new();
    placement.push(make_side(landscape));
    placement.push(make_zero());
    placement.push(make_zero());
    placement.push(make_side(!landscape));
    placement.push(make_zero());
    placement.push(make_zero());
    let mut image: Vec<lopdf::Object> = Vec::new();
    image.push(scalar_object(Scalar::Name(key_bytes("Im0"))));
    let mut operations: Vec<PageOperation> = Vec::new();
    let start: PageOperation = PageOperation { operator: "q".to_owned(), operands: Vec::new() };
    let place: PageOperation = PageOperation { operator: "cm".to_owned(), operands: placement };
    let draw: PageOperation = PageOperation { operator: "Do".to_owned(), operands: image };
    let end: PageOperation = PageOperation { operator: "Q".to_owned(), operands: Vec::new() };
    proof {
        let expected = page_drawing(landscape);
        assert(start@.operands =~= expected[0].operands);
        assert(place@.operands =~= expected[1].operands);
        assert(draw@.operands =~= expected[2].operands);
        assert(end@.operands =~= expected[3].operands);
    }
    operations.push(start);
    operations.push(place);
    operations.push(draw);
    operations.push(end);
    assert(operation_models(operations@) =~= page_drawing(landscape));
    operations
}

fn make_page(page: &EncodedPage, turns: u8, i: usize) -> (r: lopdf::Object)
    requires
        4 + 3 * i <= u32::MAX,
    ensures
        object_value(r) == PdfObject::Dictionary(page_entries(page@, turns, i as int)),
{
    let landscape: bool = page.width > page.height;
    let mut images: lopdf::Dictionary = new_dictionary();
    set_reference(&mut images, "Im0", ((2 + 3 * i) as u32, 0));
    let mut resources: lopdf::Dictionary = new_dictionary();
    set_entry(&mut resources, key_bytes("XObject"), dictionary_object(images));
    let mut media: Vec<lopdf::Object> = Vec::new();
    media.push(make_zero());
    media.push(make_zero());
    media.push(make_side(landscape));
    media.push(make_side(!landscape));
    assert(object_values(media@) =~= media_items(landscape));
    let mut dictionary: lopdf::Dictionary = new_dictionary();
    set_name(&mut dictionary, "Type", "Page");
    set_reference(&mut dictionary, "Parent", (1, 0));
    set_entry(&mut dictionary, key_bytes("MediaBox"), array_object(media));
    set_entry(&mut dictionary, key_bytes("Resources"), dictionary_object(resources));
    set_reference(&mut dictionary, "Contents", ((3 + 3 * i) as u32, 0));
    let quarter: u8 = turns % 4;
    if quarter != 0 {
        set_integer(&mut dictionary, "Rotate", (quarter as i64) * 90);
    }
    dictionary_object(dictionary)
}

/// Whether the objects of the first `n` pages are in place.
spec fn has_pages(objects: Objects, pages: Seq<ReadPage>, n: int) -> bool {
    forall|i: int| 0 <= i < n ==> #[trigger] has_page(objects, pages, i)
}

proof fn lemma_pages_kept(
    before: Objects,
    after: Objects,
    pages: Seq<ReadPage>,
    n: int,
    from: int,
)
    requires
        has_pages(before, pages, n),
        1 + 3 * n < from <= u32::MAX,
        0 <= n,
        forall|id: ObjectId|
            before.dom().contains(id) && id.0 < from ==> #[trigger] after.dom().contains(id)
                && after[id] == before[id],
    ensures
        has_pages(after, pages, n),
{
    assert forall|i: int| 0 <= i < n implies #[trigger] has_page(after, pages, i) by {
        assert(has_page(before, pages, i));
        assert(after.dom().contains((image_number(i) as u32, 0u16)));
        assert(after.dom().contains((content_number(i) as u32, 0u16)));
        assert(after.dom().contains((page_number(i) as u32, 0u16)));
    }
}

/// Writes each page's encoded bytes directly as an image stream: JPEG pages as
/// `DCTDecode/DeviceRGB`, bilevel pages as `CCITTFaxDecode/DeviceGray` 1 bpc.
///
/// No decode or re-encode happens here: the PDF carries the exact bytes held
/// in RAM, so saving is fast, needs no per-page raster buffers, and repeated
/// edit → save cycles add no generational loss. Rotation is expressed through
/// the page's `/Rotate` entry instead of touching pixels. The layout mirrors
/// exactly what `extract_pdf_pages` accepts back.
pub fn render_pdf(pages: &[(&EncodedPage, u8)]) -> (r: Result<Vec<u8>, String>)
    requires
        3 * pages.len() + 3 < u32::MAX,
    ensures
        pages.len() == 0 ==> (r matches Err(error) && error@
            == "Dokument nie zawiera żadnych stron."@),
        pages.len() > 0 ==> (r matches Ok(bytes) && (bytes@.len() <= u32::MAX ==> reads_as_scan(
            bytes@,
            written_models(pages@),
        ))),
{
    if pages.len() == 0 {
        return Err("Dokument nie zawiera żadnych stron.".to_owned());
    }
    let ghost models = written_models(pages@);
    let mut document: lopdf::Document = new_document();
    let tree_id: ObjectId = take_object_id(&mut document);
    let mut page_references: Vec<lopdf::Object> = Vec::new();
    let mut i: usize = 0;
    while i < pages.len()
        invariant
            i <= pages.len(),
            3 * pages.len() + 3 < u32::MAX,
            models == written_models(pages@),
            document_max_id(document) == 1 + 3 * i,
            document_trailer(document) == no_entries(),
            is_numbered_to(document_objects(document), 1 + 3 * i),
            has_pages(document_objects(document), models, i as int),
            object_values(page_references@) == kids(i as int),
        decreases pages.len() - i,
    {
        let page: &EncodedPage = pages[i].0;
        let turns: u8 = pages[i].1;
        let ghost before = document_objects(document);
        assert(models[i as int] == (page@, turns));
        let image_id: ObjectId = add_object(&mut document, make_image(page));
        let drawing: Vec<PageOperation> = make_drawing(page.width > page.height);
        assert(are_plain(operation_models(drawing@)));
        let content: Vec<u8> = match encode_operations(drawing) {
            Ok(content) => content,
            Err(error) => {
                let mut message: String = "Nie można przygotować treści strony PDF: ".to_owned();
                message.append(&error_text(&error));
                return Err(message);
            },
        };
        let content_id: ObjectId = add_object(
            &mut document,
            stream_object(new_dictionary(), content, true),
        );
        let page_id: ObjectId = add_object(&mut document, make_page(page, turns, i));
        let next: lopdf::Object = scalar_object(Scalar::Reference(page_id));
        proof {
            let after = document_objects(document);
            assert(image_id == (image_number(i as int) as u32, 0u16));
            assert(content_id == (content_number(i as int) as u32, 0u16));
            assert(page_id == (page_number(i as int) as u32, 0u16));
            lemma_pages_kept(before, after, models, i as int, 2 + 3 * i);
            assert(has_page(after, models, i as int));
            assert(has_pages(after, models, i + 1));
            assert(object_values(page_references@.push(next)) =~= object_values(
                page_references@,
            ).push(object_value(next)));
            assert(kids(i + 1) =~= kids(i as int).push(reference(page_number(i as int))));
        }
        page_references.push(next);
        i = i + 1;
    }
    let ghost n = pages.len() as int;
    let ghost before = document_objects(document);
    let mut tree: lopdf::Dictionary = new_dictionary();
    set_name(&mut tree, "Type", "Pages");
    set_entry(&mut tree, key_bytes("Kids"), array_object(page_references));
    set_integer(&mut tree, "Count", pages.len() as i64);
    put_object(&mut document, tree_id, dictionary_object(tree));
    let mut catalog: lopdf::Dictionary = new_dictionary();
    set_name(&mut catalog, "Type", "Catalog");
    set_reference(&mut catalog, "Pages", tree_id);
    let catalog_id: ObjectId = add_object(&mut document, dictionary_object(catalog));
    let mut info: lopdf::Dictionary = new_dictionary();
    set_text(&mut info, "Title", "Zeskanowany dokument");
    set_text(&mut info, "Creator", "Skaner dokumentów");
    set_text(&mut info, "Producer", "Skaner dokumentów");
    set_text(&mut info, "Keywords", "skaner-dokumentow-editable-v1");
    let info_id: ObjectId = add_object(&mut document, dictionary_object(info));
    set_trailer_entry(&mut document, key_bytes("Root"), scalar_object(Scalar::Reference(catalog_id)));
    set_trailer_entry(&mut document, key_bytes("Info"), scalar_object(Scalar::Reference(info_id)));
    proof {
        let after = document_objects(document);
        assert(catalog_id == (catalog_number(n) as u32, 0u16));
        assert(info_id == (info_number(n) as u32, 0u16));
        assert forall|i: int| 0 <= i < n implies #[trigger] has_page(after, models, i) by {
            assert(has_page(before, models, i));
        }
        lemma_keys_injective();
        reveal_strlit("Root");
        reveal_strlit("Info");
        assert("Root"@[0] == 'R' && "Info"@[0] == 'I');
        assert(is_scan_file(after, document_trailer(document), models));
        assert(document_trailer(document).dom() =~= set![key("Root"@), key("Info"@)]);
    }
    match save_document(document) {
        Ok(bytes) => Ok(bytes),
        Err(error) => {
            let mut message: String = "Nie można zapisać PDF: ".to_owned();
            message.append(&error);
            Err(message)
        },
    }
}

} // verus!
