//! Reading back the pages of a PDF file that this program wrote.

use vstd::prelude::*;
use crate::document::{copy_bytes, EncodedPage, PageEncoding, PageModel};
use crate::pdf_layout::{
    all_a4, catalog_entries, holds_scan, is_a4_page, is_scan_file, lemma_scan_page,
    lemma_scan_page_facts, lemma_scan_structure, page_ids, reads_as_scan, reduced_turns,
};
use crate::pdf_numbers::{
    fixed_one, fixed_point, is_number, is_within, number_of, pdf_number, quarter_turns, same_number,
    to_fixed, to_quarter_turns, within, Number, NumberModel,
};
use crate::pdf_objects::{
    as_array, as_dictionary, as_stream, dictionary_entries, document_file, document_objects,
    document_trailer, entry, error_text, expect_dictionary, fetch, is_empty_dictionary, key,
    key_bytes, load_document, loaded_file, no_entries, object_value, object_values, resolved,
    same_bytes, shape_of, trailer, ObjectId, OperationModel, PdfFile, PdfObject, Shape,
    A4_LONG_BITS, A4_SHORT_BITS,
};
use crate::pdf_writing::{render_pdf, written_models};
use crate::text::{chars_of, code_point, contains_text, occurs_at};

verus! {

/// Why a PDF file cannot be edited.
#[derive(Debug, Clone, Copy, PartialEq, Eq, Structural)]
pub enum PdfProblemKind {
    Unreadable,
    NoMarker,
    NoPages,
    NoCatalog,
    HasForm,
    PageUnreadable,
    HasAnnotations,
    OddRotation,
    ResourcesUnreadable,
    Foreign,
    ContentUnreadable,
    ExtraContent,
    UnknownLayout,
}

/// Why a PDF file cannot be edited, with the words of the PDF library where it
/// was the one to object.
#[derive(Debug)]
pub struct PdfProblem {
    pub kind: PdfProblemKind,
    pub detail: String,
}

/// The entries of a dictionary object.
pub type Entries = Map<Seq<u8>, PdfObject>;

/// The objects of a file by their numbers.
pub type Objects = Map<ObjectId, PdfObject>;

/// The resources of a page: a dictionary of its own, and the numbers of those that
/// it or its parents refer to.
#[verifier::ext_equal]
pub struct PageResources {
    pub own: Option<Map<Seq<u8>, PdfObject>>,
    pub shared: Seq<ObjectId>,
}

/// The page numbers that `lopdf::Document::get_pages` finds, in order.
pub uninterp spec fn page_numbers(
    objects: Map<ObjectId, PdfObject>,
    trailer: Map<Seq<u8>, PdfObject>,
) -> Seq<ObjectId>;

/// What `lopdf::Document::get_page_resources` finds for a page.
pub uninterp spec fn page_resources(
    objects: Map<ObjectId, PdfObject>,
    page: ObjectId,
) -> Option<PageResources>;

/// The operations that `lopdf::Document::get_and_decode_page_content` finds for a page.
pub uninterp spec fn page_operations(
    objects: Map<ObjectId, PdfObject>,
    page: ObjectId,
) -> Option<Seq<OperationModel>>;

/// The bytes that `lopdf::content::Content::encode` writes for some operations.
pub uninterp spec fn encoded_operations(operations: Seq<OperationModel>) -> Seq<u8>;

/// One operation of a page's content.
#[derive(Debug)]
pub struct PageOperation {
    pub operator: String,
    pub operands: Vec<lopdf::Object>,
}

impl View for PageOperation {
    type V = OperationModel;

    open spec fn view(&self) -> OperationModel {
        OperationModel { operator: self.operator@, operands: object_values(self.operands@) }
    }
}

pub open spec fn operation_models(operations: Seq<PageOperation>) -> Seq<OperationModel> {
    operations.map_values(|operation: PageOperation| operation@)
}

/// The dictionary that an object is, if it is one.
pub open spec fn dictionary_of(object: Option<PdfObject>) -> Option<Entries> {
    match object {
        Some(PdfObject::Dictionary(entries)) => Some(entries),
        _ => None,
    }
}

pub open spec fn entry_of(entries: Entries, name: Seq<char>) -> Option<PdfObject> {
    if entries.dom().contains(key(name)) {
        Some(entries[key(name)])
    } else {
        None
    }
}

/// The catalog of a file: the dictionary that the trailer refers to as its root.
pub open spec fn catalog_of(objects: Objects, trailer: Entries) -> Option<Entries> {
    match entry_of(trailer, "Root"@) {
        Some(PdfObject::Reference(id)) => dictionary_of(resolved(objects, id)),
        _ => None,
    }
}

/// Where a page tree is one flat list of pages, no page twice: that list.
pub open spec fn flat_pages(objects: Objects, trailer: Entries, pages: Seq<ObjectId>) -> bool {
    &&& catalog_of(objects, trailer) matches Some(catalog)
    &&& entry_of(catalog, "Pages"@) matches Some(PdfObject::Reference(root))
    &&& dictionary_of(resolved(objects, root)) matches Some(node)
    &&& entry_of(node, "Kids"@) matches Some(PdfObject::Array(kids))
    &&& kids.len() == pages.len()
    &&& forall|i: int|
        0 <= i < pages.len() ==> kids[i] == PdfObject::Reference(#[trigger] pages[i])
    &&& forall|i: int|
        0 <= i < pages.len() ==> is_page(dictionary_of(resolved(objects, #[trigger] pages[i])))
    &&& forall|i: int, j: int|
        0 <= i < j < pages.len() ==> #[trigger] pages[i] != #[trigger] pages[j]
}

pub open spec fn is_page(page: Option<Entries>) -> bool {
    page matches Some(entries) && entry_of(entries, "Type"@) == Some(PdfObject::Name(key("Page"@)))
}

/// Lists the pages of a document (`lopdf::Document::get_pages`). The list is named
/// by the document's contents; of a page tree that is one flat list of pages it is
/// that list.
#[verifier::external_body]
fn list_pages(document: &lopdf::Document) -> (r: Vec<ObjectId>)
    ensures
        r@ == page_numbers(document_objects(*document), document_trailer(*document)),
        forall|pages: Seq<ObjectId>| #[trigger]
            flat_pages(document_objects(*document), document_trailer(*document), pages) ==> r@
                == pages,
{
    document.get_pages().into_values().collect()
}

/// Finds the catalog (`lopdf::Document::catalog`).
#[verifier::external_body]
fn find_catalog(document: &lopdf::Document) -> (r: Result<&lopdf::Dictionary, lopdf::Error>)
    ensures
        r is Ok == catalog_of(document_objects(*document), document_trailer(*document)) is Some,
        r matches Ok(catalog) ==> Some(dictionary_entries(*catalog)) == catalog_of(
            document_objects(*document),
            document_trailer(*document),
        ),
{
    document.catalog()
}

/// Whether a page has a resource dictionary of its own, and a parent that has
/// neither resources nor a parent.
pub open spec fn has_own_resources(objects: Objects, page: ObjectId, own: Entries) -> bool {
    &&& dictionary_of(resolved(objects, page)) matches Some(entries)
    &&& entry_of(entries, "Resources"@) == Some(PdfObject::Dictionary(own))
    &&& entry_of(entries, "Parent"@) matches Some(PdfObject::Reference(parent))
    &&& dictionary_of(resolved(objects, parent)) matches Some(node)
    &&& entry_of(node, "Resources"@) is None
    &&& entry_of(node, "Parent"@) is None
}

/// What resources were found.
pub open spec fn found_resources(
    found: Result<(Option<&lopdf::Dictionary>, Vec<ObjectId>), lopdf::Error>,
) -> Option<PageResources> {
    match found {
        Ok((own, shared)) => Some(
            PageResources {
                own: match own {
                    Some(dictionary) => Some(dictionary_entries(*dictionary)),
                    None => None,
                },
                shared: shared@,
            },
        ),
        Err(_) => None,
    }
}

/// What operations were found.
pub open spec fn found_operations(
    found: Result<Vec<PageOperation>, lopdf::Error>,
) -> Option<Seq<OperationModel>> {
    match found {
        Ok(operations) => Some(operation_models(operations@)),
        Err(_) => None,
    }
}

/// Finds the resources of a page (`lopdf::Document::get_page_resources`). They are
/// named by the objects and the page; a page with a dictionary of its own, and a
/// parent without resources and parent, has only that dictionary.
#[verifier::external_body]
fn find_resources(document: &lopdf::Document, page: ObjectId) -> (r: Result<
    (Option<&lopdf::Dictionary>, Vec<ObjectId>),
    lopdf::Error,
>)
    ensures
        found_resources(r) == page_resources(document_objects(*document), page),
        forall|own: Entries| #[trigger]
            has_own_resources(document_objects(*document), page, own) ==> found_resources(r) == Some(
                PageResources { own: Some(own), shared: Seq::empty() },
            ),
{
    document.get_page_resources(page)
}

/// The bytes of a page's content where it is one stream without a filter.
pub open spec fn plain_content(objects: Objects, page: ObjectId) -> Option<Seq<u8>> {
    match dictionary_of(resolved(objects, page)) {
        Some(entries) => match entry_of(entries, "Contents"@) {
            Some(PdfObject::Reference(id)) => if objects.dom().contains(id) {
                match objects[id] {
                    PdfObject::Stream(dictionary, content) => if entry_of(dictionary, "Filter"@)
                        is None {
                        Some(content)
                    } else {
                        None
                    },
                    _ => None,
                }
            } else {
                None
            },
            _ => None,
        },
        None => None,
    }
}

/// The sides of a page in points.
pub open spec fn side(long: bool) -> PdfObject {
    PdfObject::Real(
        if long {
            A4_LONG_BITS
        } else {
            A4_SHORT_BITS
        },
    )
}

/// The content of a page that shows one image over its whole area.
pub open spec fn page_drawing(landscape: bool) -> Seq<OperationModel> {
    seq![
        OperationModel { operator: "q"@, operands: Seq::empty() },
        OperationModel {
            operator: "cm"@,
            operands: seq![
                side(landscape),
                PdfObject::Integer(0),
                PdfObject::Integer(0),
                side(!landscape),
                PdfObject::Integer(0),
                PdfObject::Integer(0),
            ],
        },
        OperationModel { operator: "Do"@, operands: seq![PdfObject::Name(key("Im0"@))] },
        OperationModel { operator: "Q"@, operands: Seq::empty() },
    ]
}

/// Reads the operations of a page (`lopdf::Document::get_and_decode_page_content`).
/// They are named by the objects and the page; the content that
/// `Content::encode` wrote for a page drawing reads back as that drawing.
#[verifier::external_body]
fn read_operations(document: &lopdf::Document, page: ObjectId) -> (r: Result<
    Vec<PageOperation>,
    lopdf::Error,
>)
    ensures
        found_operations(r) == page_operations(document_objects(*document), page),
        forall|landscape: bool|
            plain_content(document_objects(*document), page) == Some(
                encoded_operations(#[trigger] page_drawing(landscape)),
            ) ==> found_operations(r) == Some(page_drawing(landscape)),
{
    let content = document.get_and_decode_page_content(page)?;
    let convert = |operation: lopdf::content::Operation| PageOperation {
        operator: operation.operator,
        operands: operation.operands,
    };
    Ok(content.operations.into_iter().map(convert).collect())
}

/// Whether all operands of some operations are numbers and names, which are written in one
/// way only.
pub open spec fn are_plain(operations: Seq<OperationModel>) -> bool {
    forall|i: int, j: int|
        0 <= i < operations.len() && 0 <= j < operations[i].operands.len() ==> {
            ||| (#[trigger] operations[i].operands[j]) is Integer
            ||| operations[i].operands[j] is Real
            ||| operations[i].operands[j] is Name
        }
}

/// Writes operations as page content (`lopdf::content::Content::encode`). Writing
/// into memory does not fail, and the bytes are named by the operations.
#[verifier::external_body]
pub(crate) fn encode_operations(operations: Vec<PageOperation>) -> (r: Result<Vec<u8>, lopdf::Error>)
    requires
        are_plain(operation_models(operations@)),
    ensures
        r is Ok,
        r->Ok_0@ == encoded_operations(operation_models(operations@)),
{
    let convert = |operation: PageOperation| lopdf::content::Operation {
        operator: operation.operator,
        operands: operation.operands,
    };
    let operations = operations.into_iter().map(convert).collect::<Vec<_>>();
    lopdf::content::Content { operations }.encode()
}

/// The title that the program gives its documents.
pub open spec fn title_text() -> Seq<char> {
    "Zeskanowany dokument"@
}

/// The keyword that marks a document as one that can be edited.
pub open spec fn marker_text() -> Seq<char> {
    "skaner-dokumentow-editable-v1"@
}

/// A character in UTF-16, high byte first.
pub open spec fn utf16_char(c: char) -> Seq<u8> {
    let code = c as int;
    if code < 0x1_0000 {
        seq![(code / 0x100) as u8, (code % 0x100) as u8]
    } else {
        let high = 0xd800 + (code - 0x1_0000) / 0x400;
        let low = 0xdc00 + (code - 0x1_0000) % 0x400;
        seq![(high / 0x100) as u8, (high % 0x100) as u8, (low / 0x100) as u8, (low % 0x100) as u8]
    }
}

/// A text in UTF-16, high byte first.
pub open spec fn utf16(text: Seq<char>) -> Seq<u8>
    decreases text.len(),
{
    if text.len() == 0 {
        Seq::empty()
    } else {
        utf16(text.drop_last()) + utf16_char(text.last())
    }
}

/// Whether a PDF string contains a text, in one byte per character or in UTF-16.
pub open spec fn string_contains(bytes: Seq<u8>, text: Seq<char>) -> bool {
    contains_text(bytes, key(text)) || contains_text(bytes, utf16(text))
}

/// Whether a PDF string is a text: plain, in UTF-16, or in UTF-16 after a byte order mark.
pub open spec fn string_equals(bytes: Seq<u8>, text: Seq<char>) -> bool {
    ||| bytes == key(text)
    ||| bytes == utf16(text)
    ||| bytes == seq![0xfeu8, 0xffu8] + utf16(text)
}

fn utf16_bytes(text: &str) -> (r: Vec<u8>)
    ensures
        r@ == utf16(text@),
{
    let chars: Vec<char> = chars_of(text);
    let mut bytes: Vec<u8> = Vec::new();
    let mut i: usize = 0;
    assert(chars@.take(0) =~= Seq::<char>::empty());
    while i < chars.len()
        invariant
            i <= chars.len(),
            bytes@ == utf16(chars@.take(i as int)),
        decreases chars.len() - i,
    {
        let ghost before = bytes@;
        let c: char = chars[i];
        let code: u32 = code_point(c);
        assert(chars@.take(i + 1).drop_last() =~= chars@.take(i as int));
        assert(chars@.take(i + 1).last() == c);
        if code < 0x1_0000 {
            bytes.push((code / 0x100) as u8);
            bytes.push((code % 0x100) as u8);
        } else {
            assert(code <= 0x10_ffff);
            let high: u32 = 0xd800 + (code - 0x1_0000) / 0x400;
            let low: u32 = 0xdc00 + (code - 0x1_0000) % 0x400;
            bytes.push((high / 0x100) as u8);
            bytes.push((high % 0x100) as u8);
            bytes.push((low / 0x100) as u8);
            bytes.push((low % 0x100) as u8);
        }
        assert(bytes@ =~= before + utf16_char(c));
        i = i + 1;
    }
    assert(chars@.take(i as int) =~= chars@);
    bytes
}

fn bytes_stand_at(bytes: &[u8], needle: &[u8], at: usize) -> (r: bool)
    requires
        at + needle.len() <= bytes.len(),
    ensures
        r == occurs_at(bytes@, needle@, at as int),
{
    let mut i: usize = 0;
    while i < needle.len()
        invariant
            at + needle.len() <= bytes.len(),
            i <= needle.len(),
            forall|k: int| 0 <= k < i ==> bytes@[at + k] == #[trigger] needle@[k],
        decreases needle.len() - i,
    {
        if bytes[at + i] != needle[i] {
            assert(bytes@.subrange(at as int, at + needle.len())[i as int] == bytes@[at + i]);
            return false;
        }
        i = i + 1;
    }
    assert(bytes@.subrange(at as int, at + needle.len()) =~= needle@);
    true
}

fn has_bytes(bytes: &[u8], needle: &[u8]) -> (r: bool)
    ensures
        r == contains_text(bytes@, needle@),
{
    if needle.len() > bytes.len() {
        return false;
    }
    let mut at: usize = 0;
    while at <= bytes.len() - needle.len()
        invariant
            needle.len() <= bytes.len(),
            at <= bytes.len() - needle.len() + 1,
            forall|k: int| 0 <= k < at ==> !occurs_at(bytes@, needle@, k),
        decreases bytes.len() - at,
    {
        if bytes_stand_at(bytes, needle, at) {
            return true;
        }
        if at == bytes.len() - needle.len() {
            return false;
        }
        at = at + 1;
    }
    false
}

fn pdf_string_contains(bytes: &Vec<u8>, text: &str) -> (r: bool)
    ensures
        r == string_contains(bytes@, text@),
{
    has_bytes(bytes, &key_bytes(text)) || has_bytes(bytes, &utf16_bytes(text))
}

fn pdf_string_equals(bytes: &Vec<u8>, text: &str) -> (r: bool)
    ensures
        r == string_equals(bytes@, text@),
{
    if same_bytes(bytes, &key_bytes(text)) {
        return true;
    }
    let wide: Vec<u8> = utf16_bytes(text);
    if same_bytes(bytes, &wide) {
        return true;
    }
    let mut marked: Vec<u8> = Vec::new();
    marked.push(0xfe);
    marked.push(0xff);
    assert(marked@ =~= seq![0xfeu8, 0xffu8]);
    let mut wide: Vec<u8> = wide;
    marked.append(&mut wide);
    same_bytes(bytes, &marked)
}

/// The object that an entry leads to: itself, or what it refers to.
pub open spec fn target(objects: Objects, object: PdfObject) -> Option<PdfObject> {
    match object {
        PdfObject::Reference(id) => resolved(objects, id),
        _ => Some(object),
    }
}

/// A string of the document's information dictionary.
pub open spec fn info_string(file: PdfFile, name: Seq<char>) -> Option<Seq<u8>> {
    match entry_of(file.trailer, "Info"@) {
        None => None,
        Some(info) => match target(file.objects, info) {
            Some(PdfObject::Dictionary(entries)) => match entry_of(entries, name) {
                Some(PdfObject::Text(text)) => Some(text),
                _ => None,
            },
            _ => None,
        },
    }
}

/// Whether a file carries the program's marker, or at least its title.
pub open spec fn is_marked(file: PdfFile) -> bool {
    ||| info_string(file, "Keywords"@) matches Some(text) && string_contains(text, marker_text())
    ||| info_string(file, "Title"@) matches Some(text) && string_equals(text, title_text())
}

/// Whether an entry is there and is more than an empty value.
pub open spec fn is_meaningful(objects: Objects, entries: Entries, name: Seq<char>) -> bool {
    match entry_of(entries, name) {
        None => false,
        Some(object) => match target(objects, object) {
            None => true,
            Some(PdfObject::Null) => false,
            Some(PdfObject::Array(items)) => items.len() > 0,
            Some(PdfObject::Dictionary(inner)) => inner != no_entries(),
            Some(_) => true,
        },
    }
}

/// How often a page is turned; nothing where the program cannot represent it.
pub open spec fn page_turns(objects: Objects, page: Entries) -> Option<u8> {
    match entry_of(page, "Rotate"@) {
        None => Some(0),
        Some(object) => match target(objects, object) {
            None => None,
            Some(value) => match number_of(value) {
                None => None,
                Some(number) => quarter_turns(number),
            },
        },
    }
}

/// The image dictionary that resources offer.
pub open spec fn offered_images(objects: Objects, resources: Entries) -> Option<Entries> {
    match entry_of(resources, "XObject"@) {
        None => None,
        Some(object) => dictionary_of(target(objects, object)),
    }
}

/// The image dictionary of the first of some resources that offers one.
pub open spec fn shared_images(objects: Objects, shared: Seq<ObjectId>) -> Option<Entries>
    decreases shared.len(),
{
    if shared.len() == 0 {
        None
    } else {
        match dictionary_of(resolved(objects, shared[0])) {
            Some(resources) => match offered_images(objects, resources) {
                Some(images) => Some(images),
                None => shared_images(objects, shared.drop_first()),
            },
            None => shared_images(objects, shared.drop_first()),
        }
    }
}

pub open spec fn page_images(objects: Objects, resources: PageResources) -> Option<Entries> {
    match resources.own {
        Some(own) => match offered_images(objects, own) {
            Some(images) => Some(images),
            None => shared_images(objects, resources.shared),
        },
        None => shared_images(objects, resources.shared),
    }
}

/// Whether an operation may stand in a page that only shows one image.
pub open spec fn is_frame_operation(operation: OperationModel) -> bool {
    ||| (operation.operator == "q"@ || operation.operator == "Q"@) && operation.operands.len() == 0
    ||| operation.operator == "cm"@ && operation.operands.len() == 6
}

/// The name of the one image that the first `n` operations draw: `Err` where there
/// is anything else among them, `Ok(None)` where none is drawn yet.
pub open spec fn drawn_image(operations: Seq<OperationModel>, n: nat) -> Result<
    Option<Seq<u8>>,
    (),
>
    decreases n,
{
    if n == 0 {
        Ok(None)
    } else {
        let operation = operations[n - 1];
        match drawn_image(operations, (n - 1) as nat) {
            Err(_) => Err(()),
            Ok(drawn) => if is_frame_operation(operation) {
                Ok(drawn)
            } else if operation.operator == "Do"@ && operation.operands.len() == 1 && drawn is None {
                match operation.operands[0] {
                    PdfObject::Name(name) => Ok(Some(name)),
                    _ => Err(()),
                }
            } else {
                Err(())
            },
        }
    }
}

/// The name of the one image that a page shows, if it shows nothing else.
pub open spec fn only_image(operations: Seq<OperationModel>) -> Option<Seq<u8>> {
    match drawn_image(operations, operations.len()) {
        Ok(Some(name)) => Some(name),
        _ => None,
    }
}

/// The one filter of a stream.
pub open spec fn only_filter(dictionary: Entries) -> Option<Seq<u8>> {
    match entry_of(dictionary, "Filter"@) {
        Some(PdfObject::Name(name)) => Some(name),
        Some(PdfObject::Array(filters)) => if filters.len() == 1 {
            match filters[0] {
                PdfObject::Name(name) => Some(name),
                _ => None,
            }
        } else {
            None
        },
        _ => None,
    }
}

pub open spec fn number_entry(entries: Entries, name: Seq<char>) -> Option<NumberModel> {
    match entry_of(entries, name) {
        Some(object) => number_of(object),
        None => None,
    }
}

/// The parameters of a stream's filter.
pub open spec fn filter_parameters(objects: Objects, dictionary: Entries) -> Option<Entries> {
    match entry_of(dictionary, "DecodeParms"@) {
        Some(PdfObject::Dictionary(parameters)) => Some(parameters),
        Some(PdfObject::Reference(id)) => dictionary_of(resolved(objects, id)),
        _ => None,
    }
}

/// Whether filter parameters are those of a Group 4 page of the stream's size.
pub open spec fn are_g4_parameters(parameters: Entries, dictionary: Entries) -> bool {
    &&& number_entry(parameters, "K"@) == Some(NumberModel::Finite(-1, 0))
    &&& number_entry(parameters, "Columns"@) == number_entry(dictionary, "Width"@)
    &&& number_entry(parameters, "Rows"@) == number_entry(dictionary, "Height"@)
    &&& entry_of(parameters, "BlackIs1"@) matches Some(object) ==> object == PdfObject::Boolean(
        false,
    )
    &&& entry_of(parameters, "EncodedByteAlign"@) is None
    &&& entry_of(parameters, "EndOfBlock"@) is None
    &&& entry_of(parameters, "EndOfLine"@) is None
}

/// The encoding of an image stream where it is exactly one of the two layouts that
/// the program writes.
pub open spec fn stream_encoding(objects: Objects, dictionary: Entries) -> Option<PageEncoding> {
    match only_filter(dictionary) {
        None => None,
        Some(filter) => match entry_of(dictionary, "ColorSpace"@) {
            Some(PdfObject::Name(space)) => {
                let depth = number_entry(dictionary, "BitsPerComponent"@);
                if filter == key("DCTDecode"@) {
                    if space == key("DeviceRGB"@) && depth == Some(NumberModel::Finite(1, 3)) {
                        Some(PageEncoding::Jpeg)
                    } else {
                        None
                    }
                } else if filter == key("CCITTFaxDecode"@) {
                    if space == key("DeviceGray"@) && depth == Some(NumberModel::Finite(1, 0)) {
                        match filter_parameters(objects, dictionary) {
                            Some(parameters) => if are_g4_parameters(parameters, dictionary) {
                                Some(PageEncoding::G4)
                            } else {
                                None
                            },
                            None => None,
                        }
                    } else {
                        None
                    }
                } else {
                    None
                }
            },
            _ => None,
        },
    }
}

/// The fixed-point values of some objects, where all of them are numbers.
pub open spec fn fixed_values(objects: Seq<PdfObject>) -> Option<Seq<int>>
    decreases objects.len(),
{
    if objects.len() == 0 {
        Some(Seq::empty())
    } else {
        match (fixed_values(objects.drop_last()), number_of(objects.last())) {
            (Some(values), Some(number)) => Some(values.push(fixed_point(number))),
            _ => None,
        }
    }
}

/// Whether a page, by its other boxes, shows exactly what its media box does.
pub open spec fn box_agrees(page: Entries, name: Seq<char>, media: Seq<int>) -> bool {
    match entry_of(page, name) {
        Some(PdfObject::Array(items)) => match fixed_values(items) {
            Some(values) => values.len() == 4 && forall|i: int|
                0 <= i < 4 ==> within(#[trigger] media[i] - values[i], -1, 1, 10),
            None => false,
        },
        _ => true,
    }
}

/// The matrices of the operations that place something on the page.
pub open spec fn placements(operations: Seq<OperationModel>) -> Seq<Seq<int>>
    decreases operations.len(),
{
    if operations.len() == 0 {
        Seq::empty()
    } else {
        let before = placements(operations.drop_last());
        let operation = operations.last();
        if operation.operator == "cm"@ && operation.operands.len() == 6 {
            match fixed_values(operation.operands) {
                Some(matrix) => before.push(matrix),
                None => before,
            }
        } else {
            before
        }
    }
}

/// Whether a parent of a page sets something that would change how it shows. More
/// than 32 parents count as such.
pub open spec fn inherits_options(objects: Objects, parent: Option<PdfObject>, depth: nat) -> bool
    decreases depth,
{
    if depth == 0 {
        true
    } else {
        match parent {
            Some(PdfObject::Reference(id)) => match dictionary_of(resolved(objects, id)) {
                None => true,
                Some(node) => {
                    ||| entry_of(node, "Rotate"@) is Some
                    ||| entry_of(node, "UserUnit"@) is Some
                    ||| entry_of(node, "CropBox"@) is Some
                    ||| entry_of(node, "TrimBox"@) is Some
                    ||| entry_of(node, "BleedBox"@) is Some
                    ||| entry_of(node, "ArtBox"@) is Some
                    ||| inherits_options(objects, entry_of(node, "Parent"@), (depth - 1) as nat)
                },
            },
            _ => false,
        }
    }
}

/// Whether a fixed-point value is the short or the long side of an A4 page in
/// points (75600/127 and 106920/127), within one point.
pub open spec fn is_side(value: int, long: bool) -> bool {
    if long {
        within(value, 106793, 107047, 127)
    } else {
        within(value, 75473, 75727, 127)
    }
}

/// Whether an image has the pixels of an A4 page, standing or lying.
pub open spec fn image_orientation(width: int, height: int) -> Option<bool> {
    if within(width, 24799, 24801, 10) && within(height, 35079, 35081, 10) {
        Some(false)
    } else if within(width, 35079, 35081, 10) && within(height, 24799, 24801, 10) {
        Some(true)
    } else {
        None
    }
}

/// Whether a media box is an A4 page in the given orientation.
pub open spec fn is_a4_box(media: Seq<int>, landscape: bool) -> bool {
    &&& media.len() == 4
    &&& within(media[0], -1, 1, 10)
    &&& within(media[1], -1, 1, 10)
    &&& is_side(media[2] - media[0], landscape)
    &&& is_side(media[3] - media[1], !landscape)
}

/// Whether a matrix stretches the unit square over a media box.
pub open spec fn covers_box(matrix: Seq<int>, media: Seq<int>) -> bool {
    &&& within(matrix[0] - (media[2] - media[0]), -1, 1, 1)
    &&& within(matrix[1], -1, 1, 100)
    &&& within(matrix[2], -1, 1, 100)
    &&& within(matrix[3] - (media[3] - media[1]), -1, 1, 1)
    &&& within(matrix[4], -1, 1, 10)
    &&& within(matrix[5], -1, 1, 10)
}

/// The media box of a page as fixed-point values.
pub open spec fn media_box(page: Entries) -> Option<Seq<int>> {
    match entry_of(page, "MediaBox"@) {
        Some(PdfObject::Array(items)) => fixed_values(items),
        _ => None,
    }
}

/// Whether a page is one A4 image that fills it, with nothing that would be lost
/// by writing the page anew.
pub open spec fn is_full_page(
    objects: Objects,
    page: Entries,
    image: Entries,
    operations: Seq<OperationModel>,
) -> bool {
    &&& entry_of(page, "UserUnit"@) is None
    &&& entry_of(image, "Mask"@) is None
    &&& entry_of(image, "SMask"@) is None
    &&& !inherits_options(objects, entry_of(page, "Parent"@), 32)
    &&& number_entry(image, "Width"@) matches Some(width)
    &&& number_entry(image, "Height"@) matches Some(height)
    &&& image_orientation(fixed_point(width), fixed_point(height)) matches Some(landscape)
    &&& media_box(page) matches Some(media)
    &&& is_a4_box(media, landscape)
    &&& box_agrees(page, "CropBox"@, media)
    &&& box_agrees(page, "TrimBox"@, media)
    &&& box_agrees(page, "BleedBox"@, media)
    &&& box_agrees(page, "ArtBox"@, media)
    &&& placements(operations).len() == 1
    &&& covers_box(placements(operations)[0], media)
}

/// The whole part of a size in pixels.
pub open spec fn pixels(image: Entries, name: Seq<char>) -> u32 {
    match number_entry(image, name) {
        Some(number) => (fixed_point(number) / fixed_one()) as u32,
        None => 0,
    }
}

/// The image stream that a page shows under a name.
pub open spec fn shown_stream(objects: Objects, images: Entries, name: Seq<u8>) -> Option<
    (Entries, Seq<u8>),
> {
    if !images.dom().contains(name) {
        None
    } else {
        match target(objects, images[name]) {
            Some(PdfObject::Stream(dictionary, content)) => Some((dictionary, content)),
            _ => None,
        }
    }
}

/// A page read back: its encoded form and how often it is turned.
pub type ReadPage = (PageModel, u8);

/// What the image stream of a page gives.
pub open spec fn read_image(
    objects: Objects,
    page: Entries,
    turns: u8,
    images: Entries,
    operations: Seq<OperationModel>,
) -> Result<ReadPage, PdfProblemKind> {
    match only_image(operations) {
        None => Err(PdfProblemKind::ExtraContent),
        Some(name) => match shown_stream(objects, images, name) {
            None => Err(PdfProblemKind::Foreign),
            Some((dictionary, content)) => match stream_encoding(objects, dictionary) {
                None => Err(PdfProblemKind::Foreign),
                Some(encoding) => if entry_of(dictionary, "Subtype"@) != Some(
                    PdfObject::Name(key("Image"@)),
                ) {
                    Err(PdfProblemKind::Foreign)
                } else if !is_full_page(objects, page, dictionary, operations) {
                    Err(PdfProblemKind::UnknownLayout)
                } else {
                    Ok(
                        (
                            PageModel {
                                bytes: content,
                                encoding,
                                width: pixels(dictionary, "Width"@),
                                height: pixels(dictionary, "Height"@),
                            },
                            turns,
                        ),
                    )
                },
            },
        },
    }
}

/// What one page of a file gives.
pub open spec fn read_page(objects: Objects, id: ObjectId) -> Result<ReadPage, PdfProblemKind> {
    match dictionary_of(resolved(objects, id)) {
        None => Err(PdfProblemKind::PageUnreadable),
        Some(page) => if is_meaningful(objects, page, "Annots"@) || is_meaningful(
            objects,
            page,
            "AA"@,
        ) {
            Err(PdfProblemKind::HasAnnotations)
        } else {
            match page_turns(objects, page) {
                None => Err(PdfProblemKind::OddRotation),
                Some(turns) => match page_resources(objects, id) {
                    None => Err(PdfProblemKind::ResourcesUnreadable),
                    Some(resources) => match page_images(objects, resources) {
                        None => Err(PdfProblemKind::Foreign),
                        Some(images) => match page_operations(objects, id) {
                            None => Err(PdfProblemKind::ContentUnreadable),
                            Some(operations) => read_image(objects, page, turns, images, operations),
                        },
                    },
                },
            }
        },
    }
}

/// What the first `n` of some pages give: each of them, or the first problem.
pub open spec fn read_pages(objects: Objects, ids: Seq<ObjectId>, n: nat) -> Result<
    Seq<ReadPage>,
    PdfProblemKind,
>
    decreases n,
{
    if n == 0 {
        Ok(Seq::empty())
    } else {
        match read_pages(objects, ids, (n - 1) as nat) {
            Err(problem) => Err(problem),
            Ok(pages) => match read_page(objects, ids[n - 1]) {
                Err(problem) => Err(problem),
                Ok(page) => Ok(pages.push(page)),
            },
        }
    }
}

/// What the pages of a file give.
pub open spec fn read_file(file: PdfFile) -> Result<Seq<ReadPage>, PdfProblemKind> {
    let ids = page_numbers(file.objects, file.trailer);
    if !is_marked(file) {
        Err(PdfProblemKind::NoMarker)
    } else if ids.len() == 0 {
        Err(PdfProblemKind::NoPages)
    } else {
        match catalog_of(file.objects, file.trailer) {
            None => Err(PdfProblemKind::NoCatalog),
            Some(catalog) => if is_meaningful(file.objects, catalog, "AcroForm"@) {
                Err(PdfProblemKind::HasForm)
            } else {
                read_pages(file.objects, ids, ids.len())
            },
        }
    }
}

/// What a file gives that was loaded, or could not be.
pub open spec fn read_loaded(loaded: Option<PdfFile>) -> Result<Seq<ReadPage>, PdfProblemKind> {
    match loaded {
        None => Err(PdfProblemKind::Unreadable),
        Some(file) => read_file(file),
    }
}

/// Whether a file may be what was loaded from bytes. Where they hold a file that is not
/// encrypted, only that one is.
pub open spec fn may_be_loaded(bytes: Seq<u8>, loaded: Option<PdfFile>) -> bool {
    loaded_file(bytes) is Some ==> loaded == loaded_file(bytes)
}

/// Whether reading bytes may end so, whatever was loaded from them. A document that was
/// written for pages of the usual size gives just those.
pub open spec fn is_read_as(
    bytes: Seq<u8>,
    outcome: Result<Seq<ReadPage>, PdfProblemKind>,
) -> bool {
    &&& exists|loaded: Option<PdfFile>| #[trigger]
        may_be_loaded(bytes, loaded) && outcome == read_loaded(loaded)
    &&& forall|pages: Seq<ReadPage>| #[trigger]
        reads_as_scan(bytes, pages) && pages.len() > 0 && all_a4(pages) ==> outcome == Ok::<
            Seq<ReadPage>,
            PdfProblemKind,
        >(reduced_turns(pages))
}

fn named_entry<'a>(dictionary: &'a lopdf::Dictionary, name: &str) -> (r: Option<&'a lopdf::Object>)
    ensures
        r is Some == entry_of(dictionary_entries(*dictionary), name@) is Some,
        r matches Some(object) ==> Some(object_value(*object)) == entry_of(
            dictionary_entries(*dictionary),
            name@,
        ),
{
    entry(dictionary, &key_bytes(name))
}

fn lacks_entry(dictionary: &lopdf::Dictionary, name: &str) -> (r: bool)
    ensures
        r == (entry_of(dictionary_entries(*dictionary), name@) is None),
{
    match named_entry(dictionary, name) {
        Some(_) => false,
        None => true,
    }
}

fn follow<'a>(document: &'a lopdf::Document, object: &'a lopdf::Object) -> (r: Option<
    &'a lopdf::Object,
>)
    ensures
        r is Some == target(document_objects(*document), object_value(*object)) is Some,
        r matches Some(found) ==> Some(object_value(*found)) == target(
            document_objects(*document),
            object_value(*object),
        ),
{
    match shape_of(object) {
        Shape::Reference(id) => match fetch(document, id) {
            Ok(found) => Some(found),
            Err(_) => None,
        },
        _ => Some(object),
    }
}

fn fetch_dictionary<'a>(document: &'a lopdf::Document, id: ObjectId) -> (r: Option<
    &'a lopdf::Dictionary,
>)
    ensures
        r is Some == dictionary_of(resolved(document_objects(*document), id)) is Some,
        r matches Some(found) ==> Some(dictionary_entries(*found)) == dictionary_of(
            resolved(document_objects(*document), id),
        ),
{
    match fetch(document, id) {
        Ok(object) => as_dictionary(object),
        Err(_) => None,
    }
}

fn pdf_info_string(document: &lopdf::Document, name: &str) -> (r: Option<Vec<u8>>)
    ensures
        r is Some == info_string(document_file(*document), name@) is Some,
        r matches Some(text) ==> Some(text@) == info_string(document_file(*document), name@),
{
    match named_entry(trailer(document), "Info") {
        None => None,
        Some(info) => match follow(document, info) {
            None => None,
            Some(object) => match as_dictionary(object) {
                None => None,
                Some(dictionary) => match named_entry(dictionary, name) {
                    None => None,
                    Some(value) => match shape_of(value) {
                        Shape::Text(text) => Some(text),
                        _ => None,
                    },
                },
            },
        },
    }
}

fn has_editable_marker(document: &lopdf::Document) -> (r: bool)
    ensures
        r == is_marked(document_file(*document)),
{
    let marked: bool = match pdf_info_string(document, "Keywords") {
        Some(text) => pdf_string_contains(&text, "skaner-dokumentow-editable-v1"),
        None => false,
    };
    if marked {
        return true;
    }
    match pdf_info_string(document, "Title") {
        Some(text) => pdf_string_equals(&text, "Zeskanowany dokument"),
        None => false,
    }
}

fn has_meaningful_pdf_entry(
    document: &lopdf::Document,
    dictionary: &lopdf::Dictionary,
    name: &str,
) -> (r: bool)
    ensures
        r == is_meaningful(document_objects(*document), dictionary_entries(*dictionary), name@),
{
    match named_entry(dictionary, name) {
        None => false,
        Some(object) => match follow(document, object) {
            None => true,
            Some(value) => match shape_of(value) {
                Shape::Null => false,
                Shape::Array(len) => len > 0,
                Shape::Dictionary => match as_dictionary(value) {
                    Some(inner) => !is_empty_dictionary(inner),
                    None => true,
                },
                _ => true,
            },
        },
    }
}

fn page_quarter_turns(document: &lopdf::Document, page: &lopdf::Dictionary) -> (r: Option<u8>)
    ensures
        r == page_turns(document_objects(*document), dictionary_entries(*page)),
{
    match named_entry(page, "Rotate") {
        None => Some(0),
        Some(object) => match follow(document, object) {
            None => None,
            Some(value) => match pdf_number(value) {
                None => None,
                Some(number) => to_quarter_turns(&number),
            },
        },
    }
}

fn images_in<'a>(document: &'a lopdf::Document, resources: &'a lopdf::Dictionary) -> (r: Option<
    &'a lopdf::Dictionary,
>)
    ensures
        r is Some == offered_images(
            document_objects(*document),
            dictionary_entries(*resources),
        ) is Some,
        r matches Some(images) ==> Some(dictionary_entries(*images)) == offered_images(
            document_objects(*document),
            dictionary_entries(*resources),
        ),
{
    match named_entry(resources, "XObject") {
        None => None,
        Some(object) => match follow(document, object) {
            None => None,
            Some(value) => as_dictionary(value),
        },
    }
}

fn images_of<'a>(
    document: &'a lopdf::Document,
    own: Option<&'a lopdf::Dictionary>,
    shared: &Vec<ObjectId>,
) -> (r: Option<&'a lopdf::Dictionary>)
    ensures
        ({
            let found = page_images(
                document_objects(*document),
                PageResources {
                    own: match own {
                        Some(dictionary) => Some(dictionary_entries(*dictionary)),
                        None => None,
                    },
                    shared: shared@,
                },
            );
            &&& r is Some == found is Some
            &&& r matches Some(images) ==> Some(dictionary_entries(*images)) == found
        }),
{
    match own {
        Some(resources) => match images_in(document, resources) {
            Some(images) => {
                return Some(images);
            },
            None => {},
        },
        None => {},
    }
    let ghost objects = document_objects(*document);
    let mut i: usize = 0;
    assert(shared@.skip(0) =~= shared@);
    while i < shared.len()
        invariant
            i <= shared.len(),
            objects == document_objects(*document),
            shared_images(objects, shared@) == shared_images(objects, shared@.skip(i as int)),
            page_images(
                objects,
                PageResources {
                    own: match own {
                        Some(dictionary) => Some(dictionary_entries(*dictionary)),
                        None => None,
                    },
                    shared: shared@,
                },
            ) == shared_images(objects, shared@),
        decreases shared.len() - i,
    {
        assert(shared@.skip(i as int).drop_first() =~= shared@.skip(i + 1));
        match fetch_dictionary(document, shared[i]) {
            Some(resources) => match images_in(document, resources) {
                Some(images) => {
                    return Some(images);
                },
                None => {},
            },
            None => {},
        }
        i = i + 1;
    }
    None
}

fn is_operator(operation: &PageOperation, name: &str) -> (r: bool)
    ensures
        r == (operation@.operator == name@),
{
    operation.operator == name.to_owned()
}

pub fn editable_page_image_name(operations: &Vec<PageOperation>) -> (r: Option<Vec<u8>>)
    ensures
        r is Some == only_image(operation_models(operations@)) is Some,
        r matches Some(name) ==> Some(name@) == only_image(operation_models(operations@)),
{
    let ghost models = operation_models(operations@);
    let mut image_name: Option<Vec<u8>> = None;
    let mut i: usize = 0;
    while i < operations.len()
        invariant
            i <= operations.len(),
            models == operation_models(operations@),
            drawn_image(models, i as nat) == Ok::<Option<Seq<u8>>, ()>(
                match image_name {
                    Some(name) => Some(name@),
                    None => None,
                },
            ),
        decreases operations.len() - i,
    {
        let operation: &PageOperation = &operations[i];
        assert(models[i as int] == operation@);
        let len: usize = operation.operands.len();
        assert(operation@.operands.len() == len);
        let frame: bool = ((is_operator(operation, "q") || is_operator(operation, "Q")) && len == 0)
            || (is_operator(operation, "cm") && len == 6);
        if !frame {
            let free: bool = match &image_name {
                Some(_) => false,
                None => true,
            };
            if !(is_operator(operation, "Do") && len == 1 && free) {
                proof {
                    lemma_drawn_error(models, i + 1);
                }
                return None;
            }
            assert(operation@.operands[0] == object_value(operation.operands[0]));
            match shape_of(&operation.operands[0]) {
                Shape::Name(name) => {
                    image_name = Some(name);
                },
                _ => {
                    proof {
                        lemma_drawn_error(models, i + 1);
                    }
                    return None;
                },
            }
        }
        i = i + 1;
    }
    image_name
}

proof fn lemma_drawn_error(operations: Seq<OperationModel>, n: int)
    requires
        0 <= n <= operations.len(),
        drawn_image(operations, n as nat) is Err,
    ensures
        drawn_image(operations, operations.len()) is Err,
    decreases operations.len() - n,
{
    if n < operations.len() {
        lemma_drawn_error(operations, n + 1);
    }
}

fn number_in(dictionary: &lopdf::Dictionary, name: &str) -> (r: Option<Number>)
    ensures
        r is Some == number_entry(dictionary_entries(*dictionary), name@) is Some,
        r matches Some(number) ==> number.wf() && Some(number@) == number_entry(
            dictionary_entries(*dictionary),
            name@,
        ),
{
    match named_entry(dictionary, name) {
        Some(object) => pdf_number(object),
        None => None,
    }
}

fn same_optional(left: &Option<Number>, right: &Option<Number>) -> (r: bool)
    ensures
        r == match (*left, *right) {
            (Some(l), Some(r)) => l@ == r@,
            (None, None) => true,
            _ => false,
        },
{
    match (left, right) {
        (Some(l), Some(r)) => same_number(l, r),
        (None, None) => true,
        _ => false,
    }
}

fn filter_of(dictionary: &lopdf::Dictionary) -> (r: Option<Vec<u8>>)
    ensures
        r is Some == only_filter(dictionary_entries(*dictionary)) is Some,
        r matches Some(filter) ==> Some(filter@) == only_filter(dictionary_entries(*dictionary)),
{
    match named_entry(dictionary, "Filter") {
        None => None,
        Some(object) => match shape_of(object) {
            Shape::Name(name) => Some(name),
            Shape::Array(len) => if len == 1 {
                match as_array(object) {
                    None => None,
                    Some(items) => {
                        assert(object_values(items@)[0] == object_value(items@[0]));
                        match shape_of(&items[0]) {
                            Shape::Name(name) => Some(name),
                            _ => None,
                        }
                    },
                }
            } else {
                None
            },
            _ => None,
        },
    }
}

fn parameters_of<'a>(document: &'a lopdf::Document, dictionary: &'a lopdf::Dictionary) -> (r: Option<
    &'a lopdf::Dictionary,
>)
    ensures
        r is Some == filter_parameters(
            document_objects(*document),
            dictionary_entries(*dictionary),
        ) is Some,
        r matches Some(parameters) ==> Some(dictionary_entries(*parameters)) == filter_parameters(
            document_objects(*document),
            dictionary_entries(*dictionary),
        ),
{
    match named_entry(dictionary, "DecodeParms") {
        None => None,
        Some(object) => match shape_of(object) {
            Shape::Dictionary => as_dictionary(object),
            Shape::Reference(id) => fetch_dictionary(document, id),
            _ => None,
        },
    }
}

fn is_false_or_absent(dictionary: &lopdf::Dictionary, name: &str) -> (r: bool)
    ensures
        r == (entry_of(dictionary_entries(*dictionary), name@) matches Some(object) ==> object
            == PdfObject::Boolean(false)),
{
    match named_entry(dictionary, name) {
        None => true,
        Some(object) => match shape_of(object) {
            Shape::Boolean(value) => !value,
            _ => false,
        },
    }
}

fn has_g4_parameters(parameters: &lopdf::Dictionary, dictionary: &lopdf::Dictionary) -> (r: bool)
    ensures
        r == are_g4_parameters(dictionary_entries(*parameters), dictionary_entries(*dictionary)),
{
    let two_dimensional: bool = match number_in(parameters, "K") {
        Some(number) => is_number(&number, -1, 0),
        None => false,
    };
    two_dimensional && same_optional(
        &number_in(parameters, "Columns"),
        &number_in(dictionary, "Width"),
    ) && same_optional(&number_in(parameters, "Rows"), &number_in(dictionary, "Height"))
        && is_false_or_absent(parameters, "BlackIs1") && lacks_entry(parameters, "EncodedByteAlign")
        && lacks_entry(parameters, "EndOfBlock") && lacks_entry(parameters, "EndOfLine")
}

fn name_in(dictionary: &lopdf::Dictionary, name: &str) -> (r: Option<Vec<u8>>)
    ensures
        match r {
            Some(value) => entry_of(dictionary_entries(*dictionary), name@) == Some(
                PdfObject::Name(value@),
            ),
            None => !(entry_of(dictionary_entries(*dictionary), name@) matches Some(
                PdfObject::Name(_),
            )),
        },
{
    match named_entry(dictionary, name) {
        None => None,
        Some(object) => match shape_of(object) {
            Shape::Name(value) => Some(value),
            _ => None,
        },
    }
}

fn has_depth(dictionary: &lopdf::Dictionary, exponent: i64) -> (r: bool)
    ensures
        r == (number_entry(dictionary_entries(*dictionary), "BitsPerComponent"@) == Some(
            NumberModel::Finite(1, exponent as int),
        )),
{
    match number_in(dictionary, "BitsPerComponent") {
        Some(number) => is_number(&number, 1, exponent),
        None => false,
    }
}

fn stream_page_encoding(document: &lopdf::Document, dictionary: &lopdf::Dictionary) -> (r: Option<
    PageEncoding,
>)
    ensures
        r == stream_encoding(document_objects(*document), dictionary_entries(*dictionary)),
{
    let filter: Vec<u8> = match filter_of(dictionary) {
        Some(filter) => filter,
        None => {
            return None;
        },
    };
    let space: Vec<u8> = match name_in(dictionary, "ColorSpace") {
        Some(space) => space,
        None => {
            return None;
        },
    };
    if same_bytes(&filter, &key_bytes("DCTDecode")) {
        if same_bytes(&space, &key_bytes("DeviceRGB")) && has_depth(dictionary, 3) {
            Some(PageEncoding::Jpeg)
        } else {
            None
        }
    } else if same_bytes(&filter, &key_bytes("CCITTFaxDecode")) {
        if same_bytes(&space, &key_bytes("DeviceGray")) && has_depth(dictionary, 0) {
            match parameters_of(document, dictionary) {
                Some(parameters) => if has_g4_parameters(parameters, dictionary) {
                    Some(PageEncoding::G4)
                } else {
                    None
                },
                None => None,
            }
        } else {
            None
        }
    } else {
        None
    }
}

/// The integers that fixed-point values are.
pub open spec fn integers(values: Seq<i128>) -> Seq<int> {
    values.map_values(|value: i128| value as int)
}

/// Whether values stay within the range of fixed-point numbers.
spec fn bounded(values: Seq<i128>) -> bool {
    forall|i: int|
        0 <= i < values.len() ==> -crate::pdf_numbers::fixed_limit() <= #[trigger] values[i]
            <= crate::pdf_numbers::fixed_limit()
}

fn fixed_numbers(objects: &Vec<lopdf::Object>) -> (r: Option<Vec<i128>>)
    ensures
        r is Some == fixed_values(object_values(objects@)) is Some,
        r matches Some(values) ==> bounded(values@) && fixed_values(object_values(objects@))
            == Some(integers(values@)),
{
    let ghost all = object_values(objects@);
    let mut values: Vec<i128> = Vec::new();
    let mut i: usize = 0;
    assert(all.take(0) =~= Seq::<PdfObject>::empty());
    assert(integers(values@) =~= Seq::<int>::empty());
    while i < objects.len()
        invariant
            i <= objects.len(),
            all == object_values(objects@),
            bounded(values@),
            fixed_values(all.take(i as int)) == Some(integers(values@)),
        decreases objects.len() - i,
    {
        assert(all.take(i + 1).drop_last() =~= all.take(i as int));
        assert(all.take(i + 1).last() == object_value(objects@[i as int]));
        match pdf_number(&objects[i]) {
            None => {
                proof {
                    lemma_fixed_none(all, i + 1);
                }
                return None;
            },
            Some(number) => {
                let value: i128 = to_fixed(&number);
                assert(integers(values@.push(value)) =~= integers(values@).push(value as int));
                values.push(value);
            },
        }
        i = i + 1;
    }
    assert(all.take(i as int) =~= all);
    Some(values)
}

proof fn lemma_fixed_none(objects: Seq<PdfObject>, n: int)
    requires
        0 <= n <= objects.len(),
        fixed_values(objects.take(n)) is None,
    ensures
        fixed_values(objects) is None,
    decreases objects.len() - n,
{
    if n < objects.len() {
        assert(objects.take(n + 1).drop_last() =~= objects.take(n));
        lemma_fixed_none(objects, n + 1);
    } else {
        assert(objects.take(n) =~= objects);
    }
}

proof fn lemma_fixed_length(objects: Seq<PdfObject>)
    ensures
        fixed_values(objects) matches Some(values) ==> values.len() == objects.len(),
    decreases objects.len(),
{
    if objects.len() > 0 {
        lemma_fixed_length(objects.drop_last());
    }
}

fn values_agree(media: &Vec<i128>, values: &Vec<i128>) -> (r: bool)
    requires
        media.len() == 4,
        values.len() == 4,
        bounded(media@),
        bounded(values@),
    ensures
        r == forall|i: int|
            0 <= i < 4 ==> within(
                #[trigger] integers(media@)[i] - integers(values@)[i],
                -1,
                1,
                10,
            ),
{
    let ghost whole = integers(values@);
    let ghost frame = integers(media@);
    let mut i: usize = 0;
    while i < 4
        invariant
            i <= 4,
            values.len() == 4,
            media.len() == 4,
            bounded(media@),
            bounded(values@),
            whole == integers(values@),
            frame == integers(media@),
            forall|k: int| 0 <= k < i ==> within(#[trigger] frame[k] - whole[k], -1, 1, 10),
        decreases 4 - i,
    {
        assert(frame[i as int] == media[i as int] && whole[i as int] == values[i as int]);
        if !is_within(media[i] - values[i], -1, 1, 10) {
            assert(!within(frame[i as int] - whole[i as int], -1, 1, 10));
            return false;
        }
        i = i + 1;
    }
    true
}

fn same_box(page: &lopdf::Dictionary, name: &str, media: &Vec<i128>) -> (r: bool)
    requires
        media.len() == 4,
        bounded(media@),
    ensures
        r == box_agrees(dictionary_entries(*page), name@, integers(media@)),
{
    let object: &lopdf::Object = match named_entry(page, name) {
        None => {
            return true;
        },
        Some(object) => object,
    };
    let items: &Vec<lopdf::Object> = match as_array(object) {
        None => {
            return true;
        },
        Some(items) => items,
    };
    let values: Vec<i128> = match fixed_numbers(items) {
        None => {
            return false;
        },
        Some(values) => values,
    };
    assert(integers(values@).len() == values.len());
    values.len() == 4 && values_agree(media, &values)
}

fn inherited_page_options_present(document: &lopdf::Document, page: &lopdf::Dictionary) -> (r: bool)
    ensures
        r == inherits_options(
            document_objects(*document),
            entry_of(dictionary_entries(*page), "Parent"@),
            32,
        ),
{
    let ghost objects = document_objects(*document);
    let mut parent: Option<&lopdf::Object> = named_entry(page, "Parent");
    let mut depth: u64 = 32;
    while depth > 0
        invariant
            depth <= 32,
            objects == document_objects(*document),
            inherits_options(objects, entry_of(dictionary_entries(*page), "Parent"@), 32)
                == inherits_options(
                objects,
                match parent {
                    Some(object) => Some(object_value(*object)),
                    None => None,
                },
                depth as nat,
            ),
        decreases depth,
    {
        let object: &lopdf::Object = match parent {
            None => {
                return false;
            },
            Some(object) => object,
        };
        let id: ObjectId = match shape_of(object) {
            Shape::Reference(id) => id,
            _ => {
                return false;
            },
        };
        let node: &lopdf::Dictionary = match fetch_dictionary(document, id) {
            None => {
                return true;
            },
            Some(node) => node,
        };
        if !lacks_entry(node, "Rotate") || !lacks_entry(node, "UserUnit") || !lacks_entry(
            node,
            "CropBox",
        ) || !lacks_entry(node, "TrimBox") || !lacks_entry(node, "BleedBox") || !lacks_entry(
            node,
            "ArtBox",
        ) {
            return true;
        }
        parent = named_entry(node, "Parent");
        depth = depth - 1;
    }
    true
}

fn only_placement(operations: &Vec<PageOperation>) -> (r: Option<Vec<i128>>)
    ensures
        r is Some == (placements(operation_models(operations@)).len() == 1),
        r matches Some(matrix) ==> bounded(matrix@) && matrix.len() == 6 && placements(
            operation_models(operations@),
        )[0] == integers(matrix@),
{
    let ghost models = operation_models(operations@);
    let mut count: u64 = 0;
    let mut found: Vec<i128> = Vec::new();
    let mut i: usize = 0;
    assert(models.take(0) =~= Seq::<OperationModel>::empty());
    while i < operations.len()
        invariant
            i <= operations.len(),
            count <= i,
            models == operation_models(operations@),
            placements(models.take(i as int)).len() == count,
            count == 1 ==> bounded(found@) && found.len() == 6 && placements(
                models.take(i as int),
            )[0] == integers(found@),
        decreases operations.len() - i,
    {
        let operation: &PageOperation = &operations[i];
        assert(models.take(i + 1).drop_last() =~= models.take(i as int));
        assert(models.take(i + 1).last() == operation@);
        assert(operation@.operands.len() == operation.operands.len());
        if is_operator(operation, "cm") && operation.operands.len() == 6 {
            match fixed_numbers(&operation.operands) {
                Some(matrix) => {
                    proof {
                        lemma_fixed_length(operation@.operands);
                    }
                    assert(integers(matrix@).len() == matrix.len());
                    if count == 0 {
                        found = matrix;
                    }
                    count = count + 1;
                },
                None => {},
            }
        }
        i = i + 1;
    }
    assert(models.take(i as int) =~= models);
    if count == 1 {
        Some(found)
    } else {
        None
    }
}

fn is_page_side(value: i128, long: bool) -> (r: bool)
    ensures
        r == is_side(value as int, long),
{
    if long {
        is_within(value, 106793, 107047, 127)
    } else {
        is_within(value, 75473, 75727, 127)
    }
}

fn orientation_of(width: i128, height: i128) -> (r: Option<bool>)
    ensures
        r == image_orientation(width as int, height as int),
{
    if is_within(width, 24799, 24801, 10) && is_within(height, 35079, 35081, 10) {
        Some(false)
    } else if is_within(width, 35079, 35081, 10) && is_within(height, 24799, 24801, 10) {
        Some(true)
    } else {
        None
    }
}

fn media_box_of(page: &lopdf::Dictionary) -> (r: Option<Vec<i128>>)
    ensures
        r is Some == media_box(dictionary_entries(*page)) is Some,
        r matches Some(media) ==> bounded(media@) && media_box(dictionary_entries(*page)) == Some(
            integers(media@),
        ),
{
    match named_entry(page, "MediaBox") {
        None => None,
        Some(object) => match as_array(object) {
            None => None,
            Some(items) => fixed_numbers(items),
        },
    }
}

fn page_is_safe_to_edit(
    document: &lopdf::Document,
    page: &lopdf::Dictionary,
    image: &lopdf::Dictionary,
    operations: &Vec<PageOperation>,
) -> (r: bool)
    ensures
        r == is_full_page(
            document_objects(*document),
            dictionary_entries(*page),
            dictionary_entries(*image),
            operation_models(operations@),
        ),
{
    if !lacks_entry(page, "UserUnit") || !lacks_entry(image, "Mask") || !lacks_entry(image, "SMask")
        || inherited_page_options_present(document, page) {
        return false;
    }
    let width: i128 = match number_in(image, "Width") {
        None => {
            return false;
        },
        Some(number) => to_fixed(&number),
    };
    let height: i128 = match number_in(image, "Height") {
        None => {
            return false;
        },
        Some(number) => to_fixed(&number),
    };
    let landscape: bool = match orientation_of(width, height) {
        None => {
            return false;
        },
        Some(landscape) => landscape,
    };
    let media: Vec<i128> = match media_box_of(page) {
        None => {
            return false;
        },
        Some(media) => media,
    };
    let ghost frame = integers(media@);
    assert(frame.len() == media.len());
    if media.len() != 4 {
        return false;
    }
    assert(frame[0] == media[0] && frame[1] == media[1] && frame[2] == media[2] && frame[3]
        == media[3]);
    let page_width: i128 = media[2] - media[0];
    let page_height: i128 = media[3] - media[1];
    if !is_within(media[0], -1, 1, 10) || !is_within(media[1], -1, 1, 10) || !is_page_side(
        page_width,
        landscape,
    ) || !is_page_side(page_height, !landscape) {
        return false;
    }
    if !same_box(page, "CropBox", &media) || !same_box(page, "TrimBox", &media) || !same_box(
        page,
        "BleedBox",
        &media,
    ) || !same_box(page, "ArtBox", &media) {
        return false;
    }
    let matrix: Vec<i128> = match only_placement(operations) {
        None => {
            return false;
        },
        Some(matrix) => matrix,
    };
    let ghost placed = integers(matrix@);
    assert(placed[0] == matrix[0] && placed[1] == matrix[1] && placed[2] == matrix[2] && placed[3]
        == matrix[3] && placed[4] == matrix[4] && placed[5] == matrix[5]);
    is_within(matrix[0] - page_width, -1, 1, 1) && is_within(matrix[1], -1, 1, 100) && is_within(
        matrix[2],
        -1,
        1,
        100,
    ) && is_within(matrix[3] - page_height, -1, 1, 1) && is_within(matrix[4], -1, 1, 10)
        && is_within(matrix[5], -1, 1, 10)
}

/// What a list of read pages says.
pub open spec fn read_models(pages: Seq<(EncodedPage, u8)>) -> Seq<ReadPage> {
    pages.map_values(|page: (EncodedPage, u8)| (page.0@, page.1))
}

/// What an attempt to read pages says.
pub open spec fn pages_outcome(r: Result<Vec<(EncodedPage, u8)>, PdfProblem>) -> Result<
    Seq<ReadPage>,
    PdfProblemKind,
> {
    match r {
        Ok(pages) => Ok(read_models(pages@)),
        Err(problem) => Err(problem.kind),
    }
}

pub open spec fn page_outcome(r: Result<(EncodedPage, u8), PdfProblem>) -> Result<
    ReadPage,
    PdfProblemKind,
> {
    match r {
        Ok((page, turns)) => Ok((page@, turns)),
        Err(problem) => Err(problem.kind),
    }
}

/// Whether a problem is one that the PDF library reports.
pub open spec fn is_reported(kind: PdfProblemKind) -> bool {
    ||| kind == PdfProblemKind::Unreadable
    ||| kind == PdfProblemKind::NoCatalog
    ||| kind == PdfProblemKind::PageUnreadable
    ||| kind == PdfProblemKind::ResourcesUnreadable
    ||| kind == PdfProblemKind::ContentUnreadable
}

fn plain_problem(kind: PdfProblemKind) -> (r: PdfProblem)
    ensures
        r.kind == kind,
        r.detail@.len() == 0,
{
    PdfProblem { kind, detail: String::new() }
}

fn reported_problem(kind: PdfProblemKind, error: &lopdf::Error) -> (r: PdfProblem)
    ensures
        r.kind == kind,
{
    PdfProblem { kind, detail: error_text(error) }
}

fn size_in_pixels(image: &lopdf::Dictionary, name: &str) -> (r: u32)
    requires
        number_entry(dictionary_entries(*image), name@) matches Some(number) ==> (within(
            fixed_point(number),
            24799,
            24801,
            10,
        ) || within(fixed_point(number), 35079, 35081, 10)),
    ensures
        r == pixels(dictionary_entries(*image), name@),
{
    match number_in(image, name) {
        None => 0,
        Some(number) => {
            let value: i128 = to_fixed(&number);
            let whole: i128 = value / 0x1_0000_0000_0000_0000;
            whole as u32
        },
    }
}

fn read_image_page(
    document: &lopdf::Document,
    page: &lopdf::Dictionary,
    turns: u8,
    images: &lopdf::Dictionary,
    operations: &Vec<PageOperation>,
) -> (r: Result<(EncodedPage, u8), PdfProblem>)
    ensures
        page_outcome(r) == read_image(
            document_objects(*document),
            dictionary_entries(*page),
            turns,
            dictionary_entries(*images),
            operation_models(operations@),
        ),
        r matches Err(problem) ==> !is_reported(problem.kind) && problem.detail@.len() == 0,
{
    let name: Vec<u8> = match editable_page_image_name(operations) {
        None => {
            return Err(plain_problem(PdfProblemKind::ExtraContent));
        },
        Some(name) => name,
    };
    let value: &lopdf::Object = match entry(images, &name) {
        None => {
            return Err(plain_problem(PdfProblemKind::Foreign));
        },
        Some(value) => value,
    };
    let object: &lopdf::Object = match follow(document, value) {
        None => {
            return Err(plain_problem(PdfProblemKind::Foreign));
        },
        Some(object) => object,
    };
    let (dictionary, content) = match as_stream(object) {
        None => {
            return Err(plain_problem(PdfProblemKind::Foreign));
        },
        Some((dictionary, content)) => (dictionary, content),
    };
    let encoding: PageEncoding = match stream_page_encoding(document, dictionary) {
        None => {
            return Err(plain_problem(PdfProblemKind::Foreign));
        },
        Some(encoding) => encoding,
    };
    let is_image: bool = match name_in(dictionary, "Subtype") {
        Some(subtype) => same_bytes(&subtype, &key_bytes("Image")),
        None => false,
    };
    if !is_image {
        return Err(plain_problem(PdfProblemKind::Foreign));
    }
    if !page_is_safe_to_edit(document, page, dictionary, operations) {
        return Err(plain_problem(PdfProblemKind::UnknownLayout));
    }
    let width: u32 = size_in_pixels(dictionary, "Width");
    let height: u32 = size_in_pixels(dictionary, "Height");
    Ok((EncodedPage { bytes: copy_bytes(content), encoding, width, height }, turns))
}

/// Whether an object number is that of page `i` in a file that the program wrote
/// for some pages, and the page is an A4 page.
spec fn is_written_page(file: PdfFile, pages: Seq<ReadPage>, i: int, id: ObjectId) -> bool {
    &&& is_scan_file(file.objects, file.trailer, pages)
    &&& 0 <= i < pages.len()
    &&& is_a4_page(pages[i].0)
    &&& id == page_ids(pages.len() as int)[i]
}

fn extract_page(document: &lopdf::Document, id: ObjectId) -> (r: Result<
    (EncodedPage, u8),
    PdfProblem,
>)
    ensures
        page_outcome(r) == read_page(document_objects(*document), id),
        r matches Err(problem) ==> is_reported(problem.kind) || problem.detail@.len() == 0,
        forall|pages: Seq<ReadPage>, i: int|
            is_written_page(document_file(*document), pages, i, id) ==> page_outcome(r) == Ok::<
                ReadPage,
                PdfProblemKind,
            >(reduced_turns(pages)[i]),
{
    let found: Result<(Option<&lopdf::Dictionary>, Vec<ObjectId>), lopdf::Error> = find_resources(
        document,
        id,
    );
    let decoded: Result<Vec<PageOperation>, lopdf::Error> = read_operations(document, id);
    proof {
        let file = document_file(*document);
        assert forall|pages: Seq<ReadPage>, i: int|
            is_written_page(file, pages, i, id) implies read_page(file.objects, id) == Ok::<
            ReadPage,
            PdfProblemKind,
        >(reduced_turns(pages)[i]) by {
            lemma_scan_page_facts(file.objects, file.trailer, pages, i);
            lemma_scan_page(file.objects, file.trailer, pages, i);
        }
    }
    let object: &lopdf::Object = match fetch(document, id) {
        Err(error) => {
            return Err(reported_problem(PdfProblemKind::PageUnreadable, &error));
        },
        Ok(object) => object,
    };
    let page: &lopdf::Dictionary = match expect_dictionary(object) {
        Err(error) => {
            return Err(reported_problem(PdfProblemKind::PageUnreadable, &error));
        },
        Ok(page) => page,
    };
    if has_meaningful_pdf_entry(document, page, "Annots") || has_meaningful_pdf_entry(
        document,
        page,
        "AA",
    ) {
        return Err(plain_problem(PdfProblemKind::HasAnnotations));
    }
    let turns: u8 = match page_quarter_turns(document, page) {
        None => {
            return Err(plain_problem(PdfProblemKind::OddRotation));
        },
        Some(turns) => turns,
    };
    let (own, shared) = match found {
        Err(error) => {
            return Err(reported_problem(PdfProblemKind::ResourcesUnreadable, &error));
        },
        Ok((own, shared)) => (own, shared),
    };
    let images: &lopdf::Dictionary = match images_of(document, own, &shared) {
        None => {
            return Err(plain_problem(PdfProblemKind::Foreign));
        },
        Some(images) => images,
    };
    let operations: Vec<PageOperation> = match decoded {
        Err(error) => {
            return Err(reported_problem(PdfProblemKind::ContentUnreadable, &error));
        },
        Ok(operations) => operations,
    };
    read_image_page(document, page, turns, images, &operations)
}

proof fn lemma_read_error(objects: Objects, ids: Seq<ObjectId>, n: int)
    requires
        0 <= n <= ids.len(),
        read_pages(objects, ids, n as nat) is Err,
    ensures
        read_pages(objects, ids, ids.len()) == read_pages(objects, ids, n as nat),
    decreases ids.len() - n,
{
    if n < ids.len() {
        lemma_read_error(objects, ids, n + 1);
    }
}

/// Reads back the pages of a PDF produced by this program: every page is exactly
/// one full-page image (lone `DCTDecode` RGB or lone `CCITTFaxDecode` G4),
/// optionally with a `/Rotate` entry. Returns each page's encoded bytes with its
/// rotation in quarter turns. Foreign PDFs yield an error.
pub fn extract_pdf_pages(bytes: &[u8]) -> (r: Result<Vec<(EncodedPage, u8)>, PdfProblem>)
    ensures
        is_read_as(bytes@, pages_outcome(r)),
        r matches Err(problem) ==> is_reported(problem.kind) || problem.detail@.len() == 0,
{
    match load_document(bytes) {
        Err(error) => {
            let r: Result<Vec<(EncodedPage, u8)>, PdfProblem> = Err(
                reported_problem(PdfProblemKind::Unreadable, &error),
            );
            assert(may_be_loaded(bytes@, None));
            r
        },
        Ok(document) => {
            let r: Result<Vec<(EncodedPage, u8)>, PdfProblem> = extract_document_pages(&document);
            assert(may_be_loaded(bytes@, Some(document_file(document))));
            r
        },
    }
}

/// Reads back the pages of a document that was loaded, as [`extract_pdf_pages`] does.
pub fn extract_document_pages(document: &lopdf::Document) -> (r: Result<
    Vec<(EncodedPage, u8)>,
    PdfProblem,
>)
    ensures
        pages_outcome(r) == read_file(document_file(*document)),
        r matches Err(problem) ==> is_reported(problem.kind) || problem.detail@.len() == 0,
        forall|pages: Seq<ReadPage>| #[trigger]
            holds_scan(document_file(*document), pages) && pages.len() > 0 && all_a4(pages) ==> pages_outcome(r) == Ok::<
                Seq<ReadPage>,
                PdfProblemKind,
            >(reduced_turns(pages)),
{
    let ghost file = document_file(*document);
    proof {
        assert forall|pages: Seq<ReadPage>| #[trigger] holds_scan(file, pages) implies is_marked(
            file,
        ) by {
            lemma_scan_structure(file.objects, file.trailer, pages);
        }
    }
    if !has_editable_marker(document) {
        return Err(plain_problem(PdfProblemKind::NoMarker));
    }
    let ids: Vec<ObjectId> = list_pages(document);
    proof {
        assert forall|pages: Seq<ReadPage>| #[trigger] holds_scan(file, pages) implies ids@
            == page_ids(pages.len() as int) && catalog_of(file.objects, file.trailer) == Some(
            catalog_entries(),
        ) && !is_meaningful(file.objects, catalog_entries(), "AcroForm"@) by {
            lemma_scan_structure(file.objects, file.trailer, pages);
        }
    }
    if ids.len() == 0 {
        return Err(plain_problem(PdfProblemKind::NoPages));
    }
    let catalog: &lopdf::Dictionary = match find_catalog(document) {
        Err(error) => {
            return Err(reported_problem(PdfProblemKind::NoCatalog, &error));
        },
        Ok(catalog) => catalog,
    };
    if has_meaningful_pdf_entry(document, catalog, "AcroForm") {
        return Err(plain_problem(PdfProblemKind::HasForm));
    }
    let ghost objects = document_objects(*document);
    let mut pages: Vec<(EncodedPage, u8)> = Vec::new();
    let mut i: usize = 0;
    assert(read_models(pages@) =~= Seq::<ReadPage>::empty());
    proof {
        assert forall|written: Seq<ReadPage>| #[trigger]
            holds_scan(file, written) && all_a4(written) implies read_models(pages@)
            == reduced_turns(written).take(0) by {
            assert(reduced_turns(written).take(0) =~= Seq::<ReadPage>::empty());
        }
    }
    while i < ids.len()
        invariant
            i <= ids.len(),
            objects == document_objects(*document),
            read_file(file) == read_pages(objects, ids@, ids@.len()),
            read_pages(objects, ids@, i as nat) == Ok::<Seq<ReadPage>, PdfProblemKind>(
                read_models(pages@),
            ),
            file == document_file(*document),
            forall|written: Seq<ReadPage>| #[trigger]
                holds_scan(file, written) ==> ids@ == page_ids(written.len() as int),
            forall|written: Seq<ReadPage>| #[trigger]
                holds_scan(file, written) && all_a4(written) ==> read_models(pages@)
                    == reduced_turns(written).take(i as int),
        decreases ids.len() - i,
    {
        let read: Result<(EncodedPage, u8), PdfProblem> = extract_page(document, ids[i]);
        proof {
            assert forall|written: Seq<ReadPage>| #[trigger]
                holds_scan(file, written) && all_a4(written) implies page_outcome(read) == Ok::<
                ReadPage,
                PdfProblemKind,
            >(reduced_turns(written)[i as int]) by {
                assert(is_a4_page(written[i as int].0));
                assert(is_written_page(file, written, i as int, ids@[i as int]));
            }
        }
        match read {
            Err(problem) => {
                proof {
                    lemma_read_error(objects, ids@, i + 1);
                }
                return Err(problem);
            },
            Ok(page) => {
                assert(read_models(pages@.push(page)) =~= read_models(pages@).push(
                    (page.0@, page.1),
                ));
                proof {
                    assert forall|written: Seq<ReadPage>| #[trigger]
                        holds_scan(file, written) && all_a4(written) implies read_models(
                        pages@.push(page),
                    ) == reduced_turns(written).take(i + 1) by {
                        assert(reduced_turns(written).take(i as int).push(
                            reduced_turns(written)[i as int],
                        ) =~= reduced_turns(written).take(i + 1));
                    }
                }
                pages.push(page);
            },
        }
        i = i + 1;
    }
    proof {
        assert forall|written: Seq<ReadPage>| #[trigger]
            holds_scan(file, written) && all_a4(written) implies read_models(pages@)
            == reduced_turns(written) by {
            assert(reduced_turns(written).take(i as int) =~= reduced_turns(written));
        }
    }
    Ok(pages)
}

/// A document that was written is read back: the same pages in the same order, byte for
/// byte and of the same size, each turned as it was.
pub proof fn law_written_document_is_read_back(
    pages: &[(&EncodedPage, u8)],
    written: Result<Vec<u8>, String>,
    file: &[u8],
    read: Result<Vec<(EncodedPage, u8)>, PdfProblem>,
)
    requires
        0 < pages.len(),
        all_a4(written_models(pages@)),
        call_ensures(render_pdf, (pages,), written),
        written matches Ok(bytes) && file@ == bytes@,
        file@.len() <= u32::MAX,
        call_ensures(extract_pdf_pages, (file,), read),
    ensures
        pages_outcome(read) == Ok::<Seq<ReadPage>, PdfProblemKind>(
            reduced_turns(written_models(pages@)),
        ),
{
    assert(reads_as_scan(file@, written_models(pages@)));
}

/// How a problem is put to the user, before the words of the PDF library.
pub open spec fn pdf_problem_text(kind: PdfProblemKind) -> Seq<char> {
    match kind {
        PdfProblemKind::Unreadable => "Nie można odczytać PDF: "@,
        PdfProblemKind::NoMarker => "Ten PDF nie ma bezpiecznego znacznika edycji tej wersji programu. Możesz go otworzyć, ale edycja została zablokowana, aby nie utracić tekstu OCR, adnotacji ani układu strony."@,
        PdfProblemKind::NoPages => "Ten PDF nie zawiera stron."@,
        PdfProblemKind::NoCatalog => "Nie można odczytać katalogu PDF: "@,
        PdfProblemKind::HasForm => "Ten PDF zawiera formularz. Edycja mogłaby usunąć jego pola, więc została zablokowana."@,
        PdfProblemKind::PageUnreadable => "Nie można odczytać strony PDF: "@,
        PdfProblemKind::HasAnnotations => "Ten PDF zawiera adnotacje lub elementy interaktywne. Edycja mogłaby je usunąć, więc została zablokowana."@,
        PdfProblemKind::OddRotation => "Ten PDF ma nietypowy obrót strony i nie może być bezpiecznie edytowany."@,
        PdfProblemKind::ResourcesUnreadable => "Nie można odczytać zasobów strony: "@,
        PdfProblemKind::Foreign => "Ten PDF nie pochodzi z tego programu."@,
        PdfProblemKind::ContentUnreadable => "Nie można odczytać treści strony: "@,
        PdfProblemKind::ExtraContent => "Ten PDF zawiera dodatkową treść i nie może być bezpiecznie edytowany."@,
        PdfProblemKind::UnknownLayout => "Ten PDF nie ma układu pełnej strony rozpoznawanego bezpiecznie przez program. Możesz go otworzyć, ale edycja została zablokowana."@,
    }
}

impl PdfProblem {
    /// The text shown to the user.
    pub fn message(&self) -> (r: String)
        ensures
            r@ == pdf_problem_text(self.kind) + self.detail@,
    {
        let text: &str = match self.kind {
            PdfProblemKind::Unreadable => "Nie można odczytać PDF: ",
            PdfProblemKind::NoMarker => "Ten PDF nie ma bezpiecznego znacznika edycji tej wersji programu. Możesz go otworzyć, ale edycja została zablokowana, aby nie utracić tekstu OCR, adnotacji ani układu strony.",
            PdfProblemKind::NoPages => "Ten PDF nie zawiera stron.",
            PdfProblemKind::NoCatalog => "Nie można odczytać katalogu PDF: ",
            PdfProblemKind::HasForm => "Ten PDF zawiera formularz. Edycja mogłaby usunąć jego pola, więc została zablokowana.",
            PdfProblemKind::PageUnreadable => "Nie można odczytać strony PDF: ",
            PdfProblemKind::HasAnnotations => "Ten PDF zawiera adnotacje lub elementy interaktywne. Edycja mogłaby je usunąć, więc została zablokowana.",
            PdfProblemKind::OddRotation => "Ten PDF ma nietypowy obrót strony i nie może być bezpiecznie edytowany.",
            PdfProblemKind::ResourcesUnreadable => "Nie można odczytać zasobów strony: ",
            PdfProblemKind::Foreign => "Ten PDF nie pochodzi z tego programu.",
            PdfProblemKind::ContentUnreadable => "Nie można odczytać treści strony: ",
            PdfProblemKind::ExtraContent => "Ten PDF zawiera dodatkową treść i nie może być bezpiecznie edytowany.",
            PdfProblemKind::UnknownLayout => "Ten PDF nie ma układu pełnej strony rozpoznawanego bezpiecznie przez program. Możesz go otworzyć, ale edycja została zablokowana.",
        };
        let mut message: String = text.to_owned();
        message.append(&self.detail);
        message
    }
}

} // verus!
