//! PDF objects as mathematical values, and the calls into `lopdf` that read and
//! make them.

use vstd::prelude::*;

verus! {

/// The number of an indirect object and its generation.
pub type ObjectId = (u32, u16);

/// What a PDF object is. A real number is given by the bits of its IEEE 754
/// single-precision form.
#[verifier::ext_equal]
pub enum PdfObject {
    Null,
    Boolean(bool),
    Integer(i64),
    Real(u32),
    Name(Seq<u8>),
    Text(Seq<u8>),
    Array(Seq<PdfObject>),
    Dictionary(Map<Seq<u8>, PdfObject>),
    Stream(Map<Seq<u8>, PdfObject>, Seq<u8>),
    Reference(ObjectId),
}

/// What a PDF file holds: its indirect objects and its trailer.
#[verifier::ext_equal]
pub struct PdfFile {
    pub objects: Map<ObjectId, PdfObject>,
    pub trailer: Map<Seq<u8>, PdfObject>,
}

pub open spec fn no_entries() -> Map<Seq<u8>, PdfObject> {
    Map::empty()
}

pub open spec fn no_objects() -> Map<ObjectId, PdfObject> {
    Map::empty()
}

/// One operation of a page's content: an operator and what it is applied to.
#[verifier::ext_equal]
pub struct OperationModel {
    pub operator: Seq<char>,
    pub operands: Seq<PdfObject>,
}

#[verifier::external_type_specification]
#[verifier::external_body]
pub struct ExObject(lopdf::Object);

#[verifier::external_type_specification]
#[verifier::external_body]
pub struct ExDictionary(lopdf::Dictionary);

#[verifier::external_type_specification]
#[verifier::external_body]
pub struct ExDocument(lopdf::Document);

#[verifier::external_type_specification]
#[verifier::external_body]
pub struct ExPdfError(lopdf::Error);

/// What an object of `lopdf` holds.
pub uninterp spec fn object_value(object: lopdf::Object) -> PdfObject;

/// The entries that a dictionary of `lopdf` holds.
pub uninterp spec fn dictionary_entries(dictionary: lopdf::Dictionary) -> Map<Seq<u8>, PdfObject>;

/// The indirect objects that a document of `lopdf` holds.
pub uninterp spec fn document_objects(document: lopdf::Document) -> Map<ObjectId, PdfObject>;

/// The entries of the trailer that a document of `lopdf` holds.
pub uninterp spec fn document_trailer(document: lopdf::Document) -> Map<Seq<u8>, PdfObject>;

/// The highest object number that a document of `lopdf` has given out.
pub uninterp spec fn document_max_id(document: lopdf::Document) -> u32;

/// What `lopdf::Document::load_mem` reads from the bytes of a file that is not encrypted,
/// where it accepts them. Of an encrypted file nothing is named: the order in which its
/// parts are deciphered differs from run to run.
pub uninterp spec fn loaded_file(bytes: Seq<u8>) -> Option<PdfFile>;

pub open spec fn document_file(document: lopdf::Document) -> PdfFile {
    PdfFile { objects: document_objects(document), trailer: document_trailer(document) }
}

/// An object without what is nested in it.
#[derive(Debug)]
pub enum Shape {
    Null,
    Boolean(bool),
    Integer(i64),
    Real(u32),
    Name(Vec<u8>),
    Text(Vec<u8>),
    Array(usize),
    Dictionary,
    Stream,
    Reference(ObjectId),
}

/// Whether a shape is that of an object.
pub open spec fn has_shape(object: PdfObject, shape: Shape) -> bool {
    match shape {
        Shape::Null => object == PdfObject::Null,
        Shape::Boolean(value) => object == PdfObject::Boolean(value),
        Shape::Integer(value) => object == PdfObject::Integer(value),
        Shape::Real(bits) => object == PdfObject::Real(bits),
        Shape::Name(name) => object == PdfObject::Name(name@),
        Shape::Text(text) => object == PdfObject::Text(text@),
        Shape::Array(len) => object matches PdfObject::Array(items) && items.len() == len,
        Shape::Dictionary => object is Dictionary,
        Shape::Stream => object is Stream,
        Shape::Reference(id) => object == PdfObject::Reference(id),
    }
}

/// Tells the variants of `lopdf::Object` apart and copies out the scalar ones.
#[verifier::external_body]
pub(crate) fn shape_of(object: &lopdf::Object) -> (r: Shape)
    ensures
        has_shape(object_value(*object), r),
{
    match object {
        lopdf::Object::Null => Shape::Null,
        lopdf::Object::Boolean(value) => Shape::Boolean(*value),
        lopdf::Object::Integer(value) => Shape::Integer(*value),
        lopdf::Object::Real(value) => Shape::Real(value.to_bits()),
        lopdf::Object::Name(name) => Shape::Name(name.clone()),
        lopdf::Object::String(text, _) => Shape::Text(text.clone()),
        lopdf::Object::Array(items) => Shape::Array(items.len()),
        lopdf::Object::Dictionary(_) => Shape::Dictionary,
        lopdf::Object::Stream(_) => Shape::Stream,
        lopdf::Object::Reference(id) => Shape::Reference(*id),
    }
}

/// Borrows the dictionary of an object that is one (`lopdf::Object::as_dict`).
#[verifier::external_body]
pub(crate) fn expect_dictionary(object: &lopdf::Object) -> (r: Result<
    &lopdf::Dictionary,
    lopdf::Error,
>)
    ensures
        r is Ok == object_value(*object) is Dictionary,
        r matches Ok(dictionary) ==> object_value(*object) == PdfObject::Dictionary(
            dictionary_entries(*dictionary),
        ),
{
    object.as_dict()
}

/// The dictionary that an object is.
pub(crate) fn as_dictionary(object: &lopdf::Object) -> (r: Option<&lopdf::Dictionary>)
    ensures
        r is Some == object_value(*object) is Dictionary,
        r matches Some(dictionary) ==> object_value(*object) == PdfObject::Dictionary(
            dictionary_entries(*dictionary),
        ),
{
    match expect_dictionary(object) {
        Ok(dictionary) => Some(dictionary),
        Err(_) => None,
    }
}

/// Borrows the items of an array object (`lopdf::Object::as_array`).
#[verifier::external_body]
pub(crate) fn as_array(object: &lopdf::Object) -> (r: Option<&Vec<lopdf::Object>>)
    ensures
        r is Some == object_value(*object) is Array,
        r matches Some(items) ==> object_value(*object) == PdfObject::Array(object_values(items@)),
{
    object.as_array().ok()
}

/// Borrows the dictionary and the bytes of a stream object
/// (`lopdf::Object::as_stream`).
#[verifier::external_body]
pub(crate) fn as_stream(object: &lopdf::Object) -> (r: Option<(&lopdf::Dictionary, &Vec<u8>)>)
    ensures
        r is Some == object_value(*object) is Stream,
        r matches Some((dictionary, content)) ==> object_value(*object) == PdfObject::Stream(
            dictionary_entries(*dictionary),
            content@,
        ),
{
    object.as_stream().ok().map(|stream| (&stream.dict, &stream.content))
}

/// What each object in a list holds.
pub open spec fn object_values(objects: Seq<lopdf::Object>) -> Seq<PdfObject> {
    objects.map_values(|object: lopdf::Object| object_value(object))
}

/// Looks up a key (`lopdf::Dictionary::get`).
#[verifier::external_body]
pub(crate) fn entry<'a>(dictionary: &'a lopdf::Dictionary, key: &[u8]) -> (r: Option<
    &'a lopdf::Object,
>)
    ensures
        r is Some == dictionary_entries(*dictionary).dom().contains(key@),
        r matches Some(object) ==> object_value(*object) == dictionary_entries(*dictionary)[key@],
{
    dictionary.get(key).ok()
}

/// Whether a dictionary has no entries (`lopdf::Dictionary::is_empty`).
#[verifier::external_body]
pub(crate) fn is_empty_dictionary(dictionary: &lopdf::Dictionary) -> (r: bool)
    ensures
        r == (dictionary_entries(*dictionary) == no_entries()),
{
    dictionary.is_empty()
}

/// The object that a chain of references leads to, over at most `steps` of them.
pub open spec fn dereferenced(
    objects: Map<ObjectId, PdfObject>,
    object: PdfObject,
    steps: nat,
) -> Option<PdfObject>
    decreases steps,
{
    match object {
        PdfObject::Reference(id) => if steps == 0 || !objects.dom().contains(id) {
            None
        } else {
            dereferenced(objects, objects[id], (steps - 1) as nat)
        },
        _ => Some(object),
    }
}

/// The indirect object with the given number. It may itself be the start of a
/// chain of up to 128 references.
pub open spec fn resolved(objects: Map<ObjectId, PdfObject>, id: ObjectId) -> Option<PdfObject> {
    if objects.dom().contains(id) {
        dereferenced(objects, objects[id], 128)
    } else {
        None
    }
}

/// Fetches an indirect object (`lopdf::Document::get_object`), which follows
/// references from there and gives up after 128 of them.
#[verifier::external_body]
pub(crate) fn fetch(document: &lopdf::Document, id: ObjectId) -> (r: Result<
    &lopdf::Object,
    lopdf::Error,
>)
    ensures
        r is Ok == resolved(document_objects(*document), id) is Some,
        r matches Ok(object) ==> Some(object_value(*object)) == resolved(
            document_objects(*document),
            id,
        ),
{
    document.get_object(id)
}

/// Borrows the trailer of a document.
#[verifier::external_body]
pub(crate) fn trailer(document: &lopdf::Document) -> (r: &lopdf::Dictionary)
    ensures
        dictionary_entries(*r) == document_trailer(*document),
{
    &document.trailer
}

/// Reads a PDF file (`lopdf::Document::load_mem`). What it makes of a file that is not
/// encrypted is named by its bytes; of other files, and of bytes that it may refuse, nothing
/// is said.
#[verifier::external_body]
pub(crate) fn load_document(bytes: &[u8]) -> (r: Result<lopdf::Document, lopdf::Error>)
    ensures
        loaded_file(bytes@) matches Some(file) ==> r is Ok && document_file(r->Ok_0) == file,
{
    lopdf::Document::load_mem(bytes)
}

/// The text of an error of `lopdf` (its `Display`). Nothing is said of the text.
#[verifier::external_body]
pub(crate) fn error_text(error: &lopdf::Error) -> (r: String) {
    error.to_string()
}

/// The bytes of a text, as PDF keys and names hold them.
#[verifier::opaque]
pub open spec fn key(text: Seq<char>) -> Seq<u8> {
    vstd::utf8::encode_utf8(text)
}

/// Different texts have different bytes.
pub proof fn lemma_keys_injective()
    ensures
        forall|a: Seq<char>, b: Seq<char>| #[trigger] key(a) == #[trigger] key(b) ==> a == b,
{
    reveal(key);
    assert forall|a: Seq<char>, b: Seq<char>| #[trigger] key(a) == #[trigger] key(b) implies a
        == b by {
        vstd::utf8::encode_utf8_decode_utf8(a);
        vstd::utf8::encode_utf8_decode_utf8(b);
    }
}

/// The bytes of a text.
pub fn key_bytes(text: &str) -> (r: Vec<u8>)
    ensures
        r@ == key(text@),
{
    reveal(key);
    vstd::slice::slice_to_vec(text.as_bytes())
}

/// Whether two byte strings are the same.
pub fn same_bytes(left: &[u8], right: &[u8]) -> (r: bool)
    ensures
        r == (left@ == right@),
{
    if left.len() != right.len() {
        return false;
    }
    let mut i: usize = 0;
    while i < left.len()
        invariant
            left.len() == right.len(),
            i <= left.len(),
            forall|k: int| 0 <= k < i ==> left@[k] == right@[k],
        decreases left.len() - i,
    {
        if left[i] != right[i] {
            return false;
        }
        i = i + 1;
    }
    assert(left@ =~= right@);
    true
}

/// Starts an empty document of PDF version 1.5 (`lopdf::Document::with_version`).
#[verifier::external_body]
pub(crate) fn new_document() -> (r: lopdf::Document)
    ensures
        document_objects(r) == no_objects(),
        document_trailer(r) == no_entries(),
        document_max_id(r) == 0,
{
    lopdf::Document::with_version("1.5")
}

/// Takes the next object number (`lopdf::Document::new_object_id`), which panics
/// when the numbers run out.
#[verifier::external_body]
pub(crate) fn take_object_id(document: &mut lopdf::Document) -> (r: ObjectId)
    requires
        document_max_id(*old(document)) < u32::MAX,
    ensures
        r.0 == document_max_id(*old(document)) + 1,
        r.1 == 0,
        document_max_id(*final(document)) == r.0,
        document_objects(*final(document)) == document_objects(*old(document)),
        document_trailer(*final(document)) == document_trailer(*old(document)),
{
    document.new_object_id()
}

/// Stores an object under the next object number (`lopdf::Document::add_object`),
/// which panics when the numbers run out.
#[verifier::external_body]
pub(crate) fn add_object(document: &mut lopdf::Document, object: lopdf::Object) -> (r: ObjectId)
    requires
        document_max_id(*old(document)) < u32::MAX,
    ensures
        r.0 == document_max_id(*old(document)) + 1,
        r.1 == 0,
        document_max_id(*final(document)) == r.0,
        document_objects(*final(document)) == document_objects(*old(document)).insert(
            r,
            object_value(object),
        ),
        document_trailer(*final(document)) == document_trailer(*old(document)),
{
    document.add_object(object)
}

/// Stores an object under a number taken before (`lopdf::Document::set_object`).
#[verifier::external_body]
pub(crate) fn put_object(document: &mut lopdf::Document, id: ObjectId, object: lopdf::Object)
    ensures
        document_max_id(*final(document)) == document_max_id(*old(document)),
        document_objects(*final(document)) == document_objects(*old(document)).insert(
            id,
            object_value(object),
        ),
        document_trailer(*final(document)) == document_trailer(*old(document)),
{
    document.set_object(id, object)
}

/// Sets an entry of the trailer (`lopdf::Dictionary::set` on `Document::trailer`).
#[verifier::external_body]
pub(crate) fn set_trailer_entry(document: &mut lopdf::Document, name: Vec<u8>, object: lopdf::Object)
    ensures
        document_max_id(*final(document)) == document_max_id(*old(document)),
        document_objects(*final(document)) == document_objects(*old(document)),
        document_trailer(*final(document)) == document_trailer(*old(document)).insert(
            name@,
            object_value(object),
        ),
{
    document.trailer.set(name, object)
}

/// An empty dictionary (`lopdf::Dictionary::new`).
#[verifier::external_body]
pub(crate) fn new_dictionary() -> (r: lopdf::Dictionary)
    ensures
        dictionary_entries(r) == no_entries(),
{
    lopdf::Dictionary::new()
}

/// Sets an entry of a dictionary (`lopdf::Dictionary::set`).
#[verifier::external_body]
pub(crate) fn set_entry(dictionary: &mut lopdf::Dictionary, name: Vec<u8>, object: lopdf::Object)
    ensures
        dictionary_entries(*final(dictionary)) == dictionary_entries(*old(dictionary)).insert(
            name@,
            object_value(object),
        ),
{
    dictionary.set(name, object)
}

/// A value that nests nothing.
#[derive(Debug)]
pub enum Scalar {
    Boolean(bool),
    Integer(i64),
    Name(Vec<u8>),
    Text(Vec<u8>),
    Reference(ObjectId),
}

pub open spec fn scalar_value(scalar: Scalar) -> PdfObject {
    match scalar {
        Scalar::Boolean(value) => PdfObject::Boolean(value),
        Scalar::Integer(value) => PdfObject::Integer(value),
        Scalar::Name(name) => PdfObject::Name(name@),
        Scalar::Text(text) => PdfObject::Text(text@),
        Scalar::Reference(id) => PdfObject::Reference(id),
    }
}

/// Makes an object of a scalar value (the variants of `lopdf::Object`).
#[verifier::external_body]
pub(crate) fn scalar_object(scalar: Scalar) -> (r: lopdf::Object)
    ensures
        object_value(r) == scalar_value(scalar),
{
    match scalar {
        Scalar::Boolean(value) => lopdf::Object::Boolean(value),
        Scalar::Integer(value) => lopdf::Object::Integer(value),
        Scalar::Name(name) => lopdf::Object::Name(name),
        Scalar::Text(text) => lopdf::Object::string_literal(text),
        Scalar::Reference(id) => lopdf::Object::Reference(id),
    }
}

/// Makes an array object (`lopdf::Object::Array`).
#[verifier::external_body]
pub(crate) fn array_object(items: Vec<lopdf::Object>) -> (r: lopdf::Object)
    ensures
        object_value(r) == PdfObject::Array(object_values(items@)),
{
    lopdf::Object::Array(items)
}

/// Makes a dictionary object (`lopdf::Object::Dictionary`).
#[verifier::external_body]
pub(crate) fn dictionary_object(dictionary: lopdf::Dictionary) -> (r: lopdf::Object)
    ensures
        object_value(r) == PdfObject::Dictionary(dictionary_entries(dictionary)),
{
    lopdf::Object::Dictionary(dictionary)
}

/// Makes a stream object (`lopdf::Stream::new`), which enters the number of bytes
/// under `Length`. Whether the bytes may be compressed later
/// (`with_compression`) is no part of what a file holds.
#[verifier::external_body]
pub(crate) fn stream_object(dictionary: lopdf::Dictionary, content: Vec<u8>, compressible: bool) -> (r:
    lopdf::Object)
    ensures
        object_value(r) == PdfObject::Stream(
            dictionary_entries(dictionary).insert(
                key("Length"@),
                PdfObject::Integer(content.len() as i64),
            ),
            content@,
        ),
{
    lopdf::Object::Stream(lopdf::Stream::new(dictionary, content).with_compression(compressible))
}

/// The short side of an A4 page in points, and the long one, as single-precision
/// numbers: the nearest to 595.2756 and to 841.88983.
pub const A4_SHORT_BITS: u32 = 0x4414d1a3;

pub const A4_LONG_BITS: u32 = 0x445278f3;

/// Makes a real number out of its decimal text (`str::parse` for the payload of
/// `lopdf::Object::Real`). Of the two texts that the sides of an A4 page are
/// written with, the nearest single-precision number is stated; of others nothing.
#[verifier::external_body]
pub(crate) fn real_object(text: &str) -> (r: lopdf::Object)
    ensures
        text@ == "595.2756"@ ==> object_value(r) == PdfObject::Real(A4_SHORT_BITS),
        text@ == "841.88983"@ ==> object_value(r) == PdfObject::Real(A4_LONG_BITS),
{
    lopdf::Object::Real(text.parse().unwrap_or_default())
}

} // verus!
