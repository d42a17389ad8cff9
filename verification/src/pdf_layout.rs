//! The layout of the PDF files that the program writes, and why it reads them back.

use vstd::arithmetic::power2::{lemma2_to64, lemma2_to64_rest, pow2};
use vstd::prelude::*;
use crate::document::{PageEncoding, PageModel, A4_HEIGHT_PX, A4_WIDTH_PX};
use crate::pdf_numbers::{
    double_spacing, fixed_one, fixed_point, lowest_terms, nearest_double, number_of, quarter_turns,
    NumberModel,
};
use crate::pdf_objects::{
    key, lemma_keys_injective, loaded_file, no_entries, resolved, ObjectId, OperationModel,
    PdfFile, PdfObject,
};
use crate::pdf_reading::{
    are_g4_parameters, catalog_of, covers_box, dictionary_of, drawn_image, encoded_operations,
    entry_of, fixed_values, flat_pages, has_own_resources, image_orientation, inherits_options,
    is_a4_box, is_frame_operation, is_full_page, is_marked, is_meaningful, is_page, is_side,
    marker_text, offered_images, only_image, page_drawing, page_operations, page_resources,
    page_turns, pixels, placements, plain_content, read_page, shown_stream, side, stream_encoding,
    title_text, Entries, Objects, PageResources, PdfProblemKind, ReadPage,
};
use crate::text::{contains_text, occurs_at};

verus! {

/// An entry that is a name.
pub open spec fn named(name: Seq<char>) -> PdfObject {
    PdfObject::Name(key(name))
}

/// The filter parameters of a Group 4 image.
pub open spec fn g4_parameters(page: PageModel) -> Entries {
    no_entries().insert(key("K"@), PdfObject::Integer((-1) as i64)).insert(
        key("Columns"@),
        PdfObject::Integer(page.width as i64),
    ).insert(key("Rows"@), PdfObject::Integer(page.height as i64)).insert(
        key("BlackIs1"@),
        PdfObject::Boolean(false),
    )
}

/// What the image dictionary says of the encoding.
pub open spec fn with_encoding(entries: Entries, page: PageModel) -> Entries {
    match page.encoding {
        PageEncoding::Jpeg => entries.insert(key("ColorSpace"@), named("DeviceRGB"@)).insert(
            key("BitsPerComponent"@),
            PdfObject::Integer(8),
        ).insert(key("Filter"@), named("DCTDecode"@)),
        PageEncoding::G4 => entries.insert(key("ColorSpace"@), named("DeviceGray"@)).insert(
            key("BitsPerComponent"@),
            PdfObject::Integer(1),
        ).insert(key("Filter"@), named("CCITTFaxDecode"@)).insert(
            key("DecodeParms"@),
            PdfObject::Dictionary(g4_parameters(page)),
        ),
    }
}

pub open spec fn with_length(entries: Entries, bytes: Seq<u8>) -> Entries {
    entries.insert(key("Length"@), PdfObject::Integer(bytes.len() as i64))
}

/// The dictionary of a page's image.
pub open spec fn image_entries(page: PageModel) -> Entries {
    with_length(
        with_encoding(
            no_entries().insert(key("Type"@), named("XObject"@)).insert(
                key("Subtype"@),
                named("Image"@),
            ).insert(key("Width"@), PdfObject::Integer(page.width as i64)).insert(
                key("Height"@),
                PdfObject::Integer(page.height as i64),
            ),
            page,
        ),
        page.bytes,
    )
}

pub open spec fn is_landscape(page: PageModel) -> bool {
    page.width > page.height
}

pub open spec fn page_content(page: PageModel) -> Seq<u8> {
    encoded_operations(page_drawing(is_landscape(page)))
}

pub open spec fn reference(number: int) -> PdfObject {
    PdfObject::Reference((number as u32, 0))
}

/// The numbers of the objects that make up page `i`: its image, its content, itself.
pub open spec fn image_number(i: int) -> int {
    2 + 3 * i
}

pub open spec fn content_number(i: int) -> int {
    3 + 3 * i
}

pub open spec fn page_number(i: int) -> int {
    4 + 3 * i
}

/// The numbers of the catalog and of the information dictionary after `n` pages.
pub open spec fn catalog_number(n: int) -> int {
    2 + 3 * n
}

pub open spec fn info_number(n: int) -> int {
    3 + 3 * n
}

/// The media box of a page.
pub open spec fn media_items(landscape: bool) -> Seq<PdfObject> {
    seq![PdfObject::Integer(0), PdfObject::Integer(0), side(landscape), side(!landscape)]
}

/// The resources of page `i`: its one image.
pub open spec fn resource_entries(i: int) -> Entries {
    no_entries().insert(
        key("XObject"@),
        PdfObject::Dictionary(no_entries().insert(key("Im0"@), reference(image_number(i)))),
    )
}

/// The dictionary of page `i`.
pub open spec fn page_entries(page: PageModel, turns: u8, i: int) -> Entries {
    let upright = no_entries().insert(key("Type"@), named("Page"@)).insert(
        key("Parent"@),
        reference(1),
    ).insert(key("MediaBox"@), PdfObject::Array(media_items(is_landscape(page)))).insert(
        key("Resources"@),
        PdfObject::Dictionary(resource_entries(i)),
    ).insert(key("Contents"@), reference(content_number(i)));
    if turns % 4 == 0 {
        upright
    } else {
        upright.insert(key("Rotate"@), PdfObject::Integer(((turns % 4) * 90) as i64))
    }
}

pub open spec fn kids(n: int) -> Seq<PdfObject> {
    Seq::new(n as nat, |i: int| reference(page_number(i)))
}

/// The root of the page tree.
pub open spec fn tree_entries(n: int) -> Entries {
    no_entries().insert(key("Type"@), named("Pages"@)).insert(
        key("Kids"@),
        PdfObject::Array(kids(n)),
    ).insert(key("Count"@), PdfObject::Integer(n as i64))
}

pub open spec fn catalog_entries() -> Entries {
    no_entries().insert(key("Type"@), named("Catalog"@)).insert(key("Pages"@), reference(1))
}

pub open spec fn info_entries() -> Entries {
    no_entries().insert(key("Title"@), PdfObject::Text(key(title_text()))).insert(
        key("Creator"@),
        PdfObject::Text(key("Skaner dokumentów"@)),
    ).insert(key("Producer"@), PdfObject::Text(key("Skaner dokumentów"@))).insert(
        key("Keywords"@),
        PdfObject::Text(key(marker_text())),
    )
}

/// Whether an object stands under a number.
pub open spec fn stands(objects: Objects, number: int, object: PdfObject) -> bool {
    objects.dom().contains((number as u32, 0)) && objects[(number as u32, 0)] == object
}

/// Whether the three objects of page `i` are in place.
pub open spec fn has_page(objects: Objects, pages: Seq<ReadPage>, i: int) -> bool {
    &&& stands(
        objects,
        image_number(i),
        PdfObject::Stream(image_entries(pages[i].0), pages[i].0.bytes),
    )
    &&& stands(
        objects,
        content_number(i),
        PdfObject::Stream(
            with_length(no_entries(), page_content(pages[i].0)),
            page_content(pages[i].0),
        ),
    )
    &&& stands(
        objects,
        page_number(i),
        PdfObject::Dictionary(page_entries(pages[i].0, pages[i].1, i)),
    )
}

/// Whether a file is the one that the program writes for some pages. Other objects
/// and trailer entries may stand beside.
pub open spec fn is_scan_file(objects: Objects, trailer: Entries, pages: Seq<ReadPage>) -> bool {
    let n = pages.len() as int;
    &&& info_number(n) < u32::MAX
    &&& stands(objects, 1, PdfObject::Dictionary(tree_entries(n)))
    &&& forall|i: int| 0 <= i < n ==> #[trigger] has_page(objects, pages, i)
    &&& stands(objects, catalog_number(n), PdfObject::Dictionary(catalog_entries()))
    &&& stands(objects, info_number(n), PdfObject::Dictionary(info_entries()))
    &&& entry_of(trailer, "Root"@) == Some(reference(catalog_number(n)))
    &&& entry_of(trailer, "Info"@) == Some(reference(info_number(n)))
}

/// Whether the bytes of a file read as what the program writes for some pages.
pub open spec fn reads_as_scan(bytes: Seq<u8>, pages: Seq<ReadPage>) -> bool {
    loaded_file(bytes) matches Some(file) && holds_scan(file, pages)
}

/// Whether a file that was loaded holds scanned pages.
pub open spec fn holds_scan(file: PdfFile, pages: Seq<ReadPage>) -> bool {
    is_scan_file(file.objects, file.trailer, pages)
}

/// Whether a page has the pixels of an A4 page, standing or lying.
pub open spec fn is_a4_page(page: PageModel) -> bool {
    ||| page.width == A4_WIDTH_PX && page.height == A4_HEIGHT_PX
    ||| page.width == A4_HEIGHT_PX && page.height == A4_WIDTH_PX
}

pub open spec fn all_a4(pages: Seq<ReadPage>) -> bool {
    forall|i: int| 0 <= i < pages.len() ==> is_a4_page((#[trigger] pages[i]).0)
}

/// Pages with their rotations reduced to less than a full turn.
pub open spec fn reduced_turns(pages: Seq<ReadPage>) -> Seq<ReadPage> {
    pages.map_values(|page: ReadPage| (page.0, (page.1 % 4) as u8))
}

pub open spec fn page_ids(n: int) -> Seq<ObjectId> {
    Seq::new(n as nat, |i: int| (page_number(i) as u32, 0u16))
}

proof fn lemma_whole_number(n: i64)
    requires
        0 <= n <= 4000,
    ensures
        nearest_double(n as int) == n,
{
    assert(double_spacing(n as nat, 1) == 1);
}

/// The sizes of an A4 page in pixels, as numbers of a PDF file.
pub proof fn lemma_pixel_numbers()
    ensures
        number_of(PdfObject::Integer(2480)) == Some(NumberModel::Finite(155, 4)),
        number_of(PdfObject::Integer(3508)) == Some(NumberModel::Finite(877, 2)),
        number_of(PdfObject::Integer(0)) == Some(NumberModel::Finite(0, 0)),
        number_of(PdfObject::Integer(1)) == Some(NumberModel::Finite(1, 0)),
        number_of(PdfObject::Integer(8)) == Some(NumberModel::Finite(1, 3)),
        number_of(PdfObject::Integer((-1) as i64)) == Some(NumberModel::Finite(-1, 0)),
        fixed_point(NumberModel::Finite(155, 4)) == 2480 * fixed_one(),
        fixed_point(NumberModel::Finite(877, 2)) == 3508 * fixed_one(),
        fixed_point(NumberModel::Finite(0, 0)) == 0,
{
    lemma_whole_number(2480);
    lemma_whole_number(3508);
    lemma_whole_number(0);
    lemma_whole_number(1);
    lemma_whole_number(8);
    assert(nearest_double(-1) == -1) by {
        assert(double_spacing(1, 1) == 1);
    }
    reveal_with_fuel(lowest_terms, 6);
    lemma2_to64();
    vstd::arithmetic::power2::lemma_pow2_adds(64, 4);
    vstd::arithmetic::power2::lemma_pow2_adds(64, 2);
    assert(0 * pow2(64) == 0) by (nonlinear_arith);
}

/// The sides of an A4 page in points, as numbers of a PDF file.
pub proof fn lemma_side_numbers()
    ensures
        number_of(side(false)) == Some(NumberModel::Finite(0x94d1a3, -14)),
        number_of(side(true)) == Some(NumberModel::Finite(0xd278f3, -14)),
        fixed_point(NumberModel::Finite(0x94d1a3, -14)) == 0x94d1a3 * 0x4_0000_0000_0000,
        fixed_point(NumberModel::Finite(0xd278f3, -14)) == 0xd278f3 * 0x4_0000_0000_0000,
        is_side(0x94d1a3int * 0x4_0000_0000_0000int, false),
        is_side(0xd278f3int * 0x4_0000_0000_0000int, true),
{
    lemma2_to64();
    lemma2_to64_rest();
    reveal_with_fuel(lowest_terms, 2);
}

pub proof fn lemma_image_lookups(page: PageModel)
    ensures
        ({
            let entries = image_entries(page);
            &&& entry_of(entries, "Subtype"@) == Some(named("Image"@))
            &&& entry_of(entries, "Width"@) == Some(PdfObject::Integer(page.width as i64))
            &&& entry_of(entries, "Height"@) == Some(PdfObject::Integer(page.height as i64))
            &&& entry_of(entries, "Mask"@) is None
            &&& entry_of(entries, "SMask"@) is None
            &&& page.encoding == PageEncoding::Jpeg ==> {
                &&& entry_of(entries, "ColorSpace"@) == Some(named("DeviceRGB"@))
                &&& entry_of(entries, "BitsPerComponent"@) == Some(PdfObject::Integer(8))
                &&& entry_of(entries, "Filter"@) == Some(named("DCTDecode"@))
            }
            &&& page.encoding == PageEncoding::G4 ==> {
                &&& entry_of(entries, "ColorSpace"@) == Some(named("DeviceGray"@))
                &&& entry_of(entries, "BitsPerComponent"@) == Some(PdfObject::Integer(1))
                &&& entry_of(entries, "Filter"@) == Some(named("CCITTFaxDecode"@))
                &&& entry_of(entries, "DecodeParms"@) == Some(
                    PdfObject::Dictionary(g4_parameters(page)),
                )
            }
        }),
{
    lemma_keys_injective();
    reveal_strlit("Type");
    reveal_strlit("Subtype");
    reveal_strlit("Width");
    reveal_strlit("Height");
    reveal_strlit("ColorSpace");
    reveal_strlit("BitsPerComponent");
    reveal_strlit("Filter");
    reveal_strlit("DecodeParms");
    reveal_strlit("Length");
    reveal_strlit("Mask");
    reveal_strlit("SMask");
    assert("Type"@.len() == 4);
    assert("Subtype"@.len() == 7);
    assert("Width"@.len() == 5);
    assert("Height"@.len() == 6);
    assert("ColorSpace"@.len() == 10);
    assert("BitsPerComponent"@.len() == 16);
    assert("Filter"@.len() == 6);
    assert("DecodeParms"@.len() == 11);
    assert("Length"@.len() == 6);
    assert("Mask"@.len() == 4);
    assert("SMask"@.len() == 5);
    assert("Filter"@[0] == 'F');
    assert("Height"@[0] == 'H');
    assert("Length"@[0] == 'L');
    assert("Mask"@[0] == 'M');
    assert("SMask"@[0] == 'S');
    assert("Type"@[0] == 'T');
    assert("Width"@[0] == 'W');
}

pub proof fn lemma_g4_lookups(page: PageModel)
    ensures
        ({
            let entries = g4_parameters(page);
            &&& entry_of(entries, "K"@) == Some(PdfObject::Integer((-1) as i64))
            &&& entry_of(entries, "Columns"@) == Some(PdfObject::Integer(page.width as i64))
            &&& entry_of(entries, "Rows"@) == Some(PdfObject::Integer(page.height as i64))
            &&& entry_of(entries, "BlackIs1"@) == Some(PdfObject::Boolean(false))
            &&& entry_of(entries, "EncodedByteAlign"@) is None
            &&& entry_of(entries, "EndOfBlock"@) is None
            &&& entry_of(entries, "EndOfLine"@) is None
        }),
{
    lemma_keys_injective();
    reveal_strlit("K");
    reveal_strlit("Columns");
    reveal_strlit("Rows");
    reveal_strlit("BlackIs1");
    reveal_strlit("EncodedByteAlign");
    reveal_strlit("EndOfBlock");
    reveal_strlit("EndOfLine");
    assert("K"@.len() == 1);
    assert("Columns"@.len() == 7);
    assert("Rows"@.len() == 4);
    assert("BlackIs1"@.len() == 8);
    assert("EncodedByteAlign"@.len() == 16);
    assert("EndOfBlock"@.len() == 10);
    assert("EndOfLine"@.len() == 9);
}

pub proof fn lemma_page_lookups(page: PageModel, turns: u8, i: int)
    ensures
        ({
            let entries = page_entries(page, turns, i);
            &&& entry_of(entries, "Type"@) == Some(named("Page"@))
            &&& entry_of(entries, "Parent"@) == Some(reference(1))
            &&& entry_of(entries, "MediaBox"@) == Some(
                PdfObject::Array(media_items(is_landscape(page))),
            )
            &&& entry_of(entries, "Resources"@) == Some(
                PdfObject::Dictionary(resource_entries(i)),
            )
            &&& entry_of(entries, "Contents"@) == Some(reference(content_number(i)))
            &&& entry_of(entries, "Rotate"@) == if turns % 4 == 0 {
                None
            } else {
                Some(PdfObject::Integer(((turns % 4) * 90) as i64))
            }
            &&& entry_of(entries, "Annots"@) is None
            &&& entry_of(entries, "AA"@) is None
            &&& entry_of(entries, "UserUnit"@) is None
            &&& entry_of(entries, "CropBox"@) is None
            &&& entry_of(entries, "TrimBox"@) is None
            &&& entry_of(entries, "BleedBox"@) is None
            &&& entry_of(entries, "ArtBox"@) is None
        }),
{
    lemma_keys_injective();
    reveal_strlit("Type");
    reveal_strlit("Parent");
    reveal_strlit("MediaBox");
    reveal_strlit("Resources");
    reveal_strlit("Contents");
    reveal_strlit("Rotate");
    reveal_strlit("Annots");
    reveal_strlit("AA");
    reveal_strlit("UserUnit");
    reveal_strlit("CropBox");
    reveal_strlit("TrimBox");
    reveal_strlit("BleedBox");
    reveal_strlit("ArtBox");
    assert("Type"@.len() == 4);
    assert("Parent"@.len() == 6);
    assert("MediaBox"@.len() == 8);
    assert("Resources"@.len() == 9);
    assert("Contents"@.len() == 8);
    assert("Rotate"@.len() == 6);
    assert("Annots"@.len() == 6);
    assert("AA"@.len() == 2);
    assert("UserUnit"@.len() == 8);
    assert("CropBox"@.len() == 7);
    assert("TrimBox"@.len() == 7);
    assert("BleedBox"@.len() == 8);
    assert("ArtBox"@.len() == 6);
    assert("Annots"@[0] == 'A');
    assert("Annots"@[1] == 'n');
    assert("ArtBox"@[0] == 'A');
    assert("ArtBox"@[1] == 'r');
    assert("BleedBox"@[0] == 'B');
    assert("Contents"@[0] == 'C');
    assert("CropBox"@[0] == 'C');
    assert("MediaBox"@[0] == 'M');
    assert("Parent"@[0] == 'P');
    assert("Rotate"@[0] == 'R');
    assert("TrimBox"@[0] == 'T');
    assert("UserUnit"@[0] == 'U');
}

pub proof fn lemma_other_lookups(n: int)
    ensures
        entry_of(tree_entries(n), "Kids"@) == Some(PdfObject::Array(kids(n))),
        entry_of(tree_entries(n), "Resources"@) is None,
        entry_of(tree_entries(n), "Parent"@) is None,
        entry_of(tree_entries(n), "Rotate"@) is None,
        entry_of(tree_entries(n), "UserUnit"@) is None,
        entry_of(tree_entries(n), "CropBox"@) is None,
        entry_of(tree_entries(n), "TrimBox"@) is None,
        entry_of(tree_entries(n), "BleedBox"@) is None,
        entry_of(tree_entries(n), "ArtBox"@) is None,
        entry_of(catalog_entries(), "Pages"@) == Some(reference(1)),
        entry_of(catalog_entries(), "AcroForm"@) is None,
        entry_of(info_entries(), "Keywords"@) == Some(PdfObject::Text(key(marker_text()))),
        entry_of(with_length(no_entries(), Seq::empty()), "Filter"@) is None,
        forall|bytes: Seq<u8>|
            entry_of(#[trigger] with_length(no_entries(), bytes), "Filter"@) is None,
{
    lemma_keys_injective();
    reveal_strlit("Type");
    reveal_strlit("Kids");
    reveal_strlit("Count");
    reveal_strlit("Resources");
    reveal_strlit("Parent");
    reveal_strlit("Rotate");
    reveal_strlit("UserUnit");
    reveal_strlit("CropBox");
    reveal_strlit("TrimBox");
    reveal_strlit("BleedBox");
    reveal_strlit("ArtBox");
    reveal_strlit("Pages");
    reveal_strlit("AcroForm");
    reveal_strlit("Title");
    reveal_strlit("Creator");
    reveal_strlit("Producer");
    reveal_strlit("Keywords");
    reveal_strlit("Length");
    reveal_strlit("Filter");
    assert("Type"@.len() == 4);
    assert("Kids"@.len() == 4);
    assert("Count"@.len() == 5);
    assert("Resources"@.len() == 9);
    assert("Parent"@.len() == 6);
    assert("Rotate"@.len() == 6);
    assert("UserUnit"@.len() == 8);
    assert("CropBox"@.len() == 7);
    assert("TrimBox"@.len() == 7);
    assert("BleedBox"@.len() == 8);
    assert("ArtBox"@.len() == 6);
    assert("Pages"@.len() == 5);
    assert("AcroForm"@.len() == 8);
    assert("Title"@.len() == 5);
    assert("Creator"@.len() == 7);
    assert("Producer"@.len() == 8);
    assert("Keywords"@.len() == 8);
    assert("Length"@.len() == 6);
    assert("Filter"@.len() == 6);
    assert("AcroForm"@[0] == 'A');
    assert("ArtBox"@[0] == 'A');
    assert("BleedBox"@[0] == 'B');
    assert("Count"@[0] == 'C');
    assert("Creator"@[0] == 'C');
    assert("Creator"@[2] == 'e');
    assert("CropBox"@[0] == 'C');
    assert("CropBox"@[2] == 'o');
    assert("Filter"@[0] == 'F');
    assert("Keywords"@[0] == 'K');
    assert("Kids"@[0] == 'K');
    assert("Length"@[0] == 'L');
    assert("Pages"@[0] == 'P');
    assert("Parent"@[0] == 'P');
    assert("Producer"@[0] == 'P');
    assert("Rotate"@[0] == 'R');
    assert("Title"@[0] == 'T');
    assert("TrimBox"@[0] == 'T');
    assert("Type"@[0] == 'T');
    assert("UserUnit"@[0] == 'U');
}

/// The fixed-point length of a side.
spec fn side_units(long: bool) -> int {
    if long {
        0xd278f3int * 0x4_0000_0000_0000int
    } else {
        0x94d1a3int * 0x4_0000_0000_0000int
    }
}

proof fn lemma_fixed_step(objects: Seq<PdfObject>, values: Seq<int>, last: PdfObject, value: int)
    requires
        fixed_values(objects) == Some(values),
        number_of(last) matches Some(number) && fixed_point(number) == value,
    ensures
        fixed_values(objects.push(last)) == Some(values.push(value)),
{
    assert(objects.push(last).drop_last() =~= objects);
}

proof fn lemma_media_values(landscape: bool)
    ensures
        fixed_values(media_items(landscape)) == Some(
            seq![0, 0, side_units(landscape), side_units(!landscape)],
        ),
{
    lemma_pixel_numbers();
    lemma_side_numbers();
    let zero = PdfObject::Integer(0);
    let s0 = Seq::<PdfObject>::empty();
    let v0 = Seq::<int>::empty();
    lemma_fixed_step(s0, v0, zero, 0);
    lemma_fixed_step(s0.push(zero), v0.push(0), zero, 0);
    let s2 = s0.push(zero).push(zero);
    let v2 = v0.push(0).push(0);
    lemma_fixed_step(s2, v2, side(landscape), side_units(landscape));
    lemma_fixed_step(
        s2.push(side(landscape)),
        v2.push(side_units(landscape)),
        side(!landscape),
        side_units(!landscape),
    );
    assert(media_items(landscape) =~= s2.push(side(landscape)).push(side(!landscape)));
    assert(seq![0, 0, side_units(landscape), side_units(!landscape)] =~= v2.push(
        side_units(landscape),
    ).push(side_units(!landscape)));
}

spec fn matrix_units(landscape: bool) -> Seq<int> {
    seq![side_units(landscape), 0, 0, side_units(!landscape), 0, 0]
}

proof fn lemma_matrix_values(landscape: bool)
    ensures
        fixed_values(page_drawing(landscape)[1].operands) == Some(matrix_units(landscape)),
{
    lemma_pixel_numbers();
    lemma_side_numbers();
    let zero = PdfObject::Integer(0);
    let s0 = Seq::<PdfObject>::empty();
    let v0 = Seq::<int>::empty();
    let first = side(landscape);
    let second = side(!landscape);
    let a = side_units(landscape);
    let b = side_units(!landscape);
    lemma_fixed_step(s0, v0, first, a);
    let s1 = s0.push(first);
    let v1 = v0.push(a);
    lemma_fixed_step(s1, v1, zero, 0);
    let s2 = s1.push(zero);
    let v2 = v1.push(0);
    lemma_fixed_step(s2, v2, zero, 0);
    let s3 = s2.push(zero);
    let v3 = v2.push(0);
    lemma_fixed_step(s3, v3, second, b);
    let s4 = s3.push(second);
    let v4 = v3.push(b);
    lemma_fixed_step(s4, v4, zero, 0);
    let s5 = s4.push(zero);
    let v5 = v4.push(0);
    lemma_fixed_step(s5, v5, zero, 0);
    assert(page_drawing(landscape)[1].operands =~= s5.push(zero));
    assert(matrix_units(landscape) =~= v5.push(0));
}

/// The page drawing shows one image, over the whole page.
proof fn lemma_drawing(landscape: bool)
    ensures
        only_image(page_drawing(landscape)) == Some(key("Im0"@)),
        placements(page_drawing(landscape)) == seq![matrix_units(landscape)],
{
    let operations = page_drawing(landscape);
    reveal_strlit("q");
    reveal_strlit("Q");
    reveal_strlit("cm");
    reveal_strlit("Do");
    assert("q"@.len() == 1);
    assert("Q"@.len() == 1);
    assert("cm"@.len() == 2);
    assert("Do"@.len() == 2);
    assert("Do"@[0] == 'D');
    assert("Q"@[0] == 'Q');
    assert("cm"@[0] == 'c');
    assert("q"@[0] == 'q');
    assert(operations.len() == 4);
    reveal_with_fuel(drawn_image, 5);
    assert(is_frame_operation(operations[0]));
    assert(is_frame_operation(operations[1]));
    assert(!is_frame_operation(operations[2]));
    assert(is_frame_operation(operations[3]));
    lemma_matrix_values(landscape);
    let o3 = operations.drop_last();
    let o2 = o3.drop_last();
    let o1 = o2.drop_last();
    assert(o1.drop_last() =~= Seq::<OperationModel>::empty());
    assert(o1.last() == operations[0]);
    assert(o2.last() == operations[1]);
    assert(o3.last() == operations[2]);
    assert(operations.last() == operations[3]);
    assert(placements(o1.drop_last()) =~= Seq::<Seq<int>>::empty());
    assert(o1.last().operator == "q"@);
    assert(placements(o1) =~= Seq::<Seq<int>>::empty());
    assert(placements(o2) =~= seq![matrix_units(landscape)]);
    assert(placements(o3) =~= seq![matrix_units(landscape)]);
}

proof fn lemma_rotation(turns: u8)
    requires
        0 < turns < 4,
    ensures
        number_of(PdfObject::Integer((turns * 90) as i64)) matches Some(number) && quarter_turns(
            number,
        ) == Some(turns),
{
    let degrees = turns * 90;
    lemma_whole_number(degrees as i64);
    assert(nearest_double(degrees) == degrees);
    reveal_with_fuel(lowest_terms, 4);
    lemma2_to64();
    if turns == 1 {
        assert(lowest_terms(90, 0) == NumberModel::Finite(45, 1));
        assert(45 * pow2(1) == 90);
        assert(quarter_turns(NumberModel::Finite(45, 1)) == Some(1u8));
    } else if turns == 2 {
        assert(lowest_terms(180, 0) == NumberModel::Finite(45, 2));
        assert(45 * pow2(2) == 180);
        assert(quarter_turns(NumberModel::Finite(45, 2)) == Some(2u8));
    } else {
        assert(lowest_terms(270, 0) == NumberModel::Finite(135, 1));
        assert(135 * pow2(1) == 270);
        assert(quarter_turns(NumberModel::Finite(135, 1)) == Some(3u8));
    }
}

proof fn lemma_encoding(objects: Objects, page: PageModel)
    ensures
        stream_encoding(objects, image_entries(page)) == Some(page.encoding),
{
    lemma_image_lookups(page);
    lemma_g4_lookups(page);
    lemma_pixel_numbers();
    lemma_keys_injective();
    reveal_strlit("DCTDecode");
    reveal_strlit("CCITTFaxDecode");
    reveal_strlit("DeviceRGB");
    reveal_strlit("DeviceGray");
    assert("DCTDecode"@.len() == 9);
    assert("CCITTFaxDecode"@.len() == 14);
    assert("DeviceRGB"@.len() == 9);
    assert("DeviceGray"@.len() == 10);
    assert("DCTDecode"@[1] == 'C');
    assert("DeviceRGB"@[1] == 'e');
    if page.encoding == PageEncoding::G4 {
        assert(are_g4_parameters(g4_parameters(page), image_entries(page)));
    }
}

proof fn lemma_full_page(objects: Objects, trailer: Entries, pages: Seq<ReadPage>, i: int)
    requires
        is_scan_file(objects, trailer, pages),
        0 <= i < pages.len(),
        is_a4_page(pages[i].0),
    ensures
        is_full_page(
            objects,
            page_entries(pages[i].0, pages[i].1, i),
            image_entries(pages[i].0),
            page_drawing(is_landscape(pages[i].0)),
        ),
        pixels(image_entries(pages[i].0), "Width"@) == pages[i].0.width,
        pixels(image_entries(pages[i].0), "Height"@) == pages[i].0.height,
{
    let page = pages[i].0;
    let landscape = is_landscape(page);
    lemma_image_lookups(page);
    lemma_page_lookups(page, pages[i].1, i);
    lemma_other_lookups(pages.len() as int);
    lemma_pixel_numbers();
    lemma_side_numbers();
    lemma_media_values(landscape);
    lemma_drawing(landscape);
    assert(resolved(objects, (1, 0)) == Some(
        PdfObject::Dictionary(tree_entries(pages.len() as int)),
    ));
    assert(!inherits_options(objects, Some(reference(1)), 32)) by {
        reveal_with_fuel(inherits_options, 3);
    }
    let media = seq![0, 0, side_units(landscape), side_units(!landscape)];
    assert(is_a4_box(media, landscape));
    assert(covers_box(matrix_units(landscape), media));
    let width = if landscape {
        3508int
    } else {
        2480int
    };
    let height = if landscape {
        2480int
    } else {
        3508int
    };
    assert(image_orientation(width * fixed_one(), height * fixed_one()) == Some(landscape));
    assert((2480 * fixed_one()) / fixed_one() == 2480);
    assert((3508 * fixed_one()) / fixed_one() == 3508);
}

/// A page that the program wrote reads back as it was.
pub proof fn lemma_scan_page(objects: Objects, trailer: Entries, pages: Seq<ReadPage>, i: int)
    requires
        is_scan_file(objects, trailer, pages),
        0 <= i < pages.len(),
        is_a4_page(pages[i].0),
        page_resources(objects, page_ids(pages.len() as int)[i]) == Some(
            PageResources { own: Some(resource_entries(i)), shared: Seq::empty() },
        ),
        page_operations(objects, page_ids(pages.len() as int)[i]) == Some(
            page_drawing(is_landscape(pages[i].0)),
        ),
    ensures
        read_page(objects, page_ids(pages.len() as int)[i]) == Ok::<ReadPage, PdfProblemKind>(
            reduced_turns(pages)[i],
        ),
{
    let page = pages[i].0;
    let turns = pages[i].1;
    let id = page_ids(pages.len() as int)[i];
    assert(has_page(objects, pages, i));
    assert(resolved(objects, id) == Some(PdfObject::Dictionary(page_entries(page, turns, i))));
    lemma_page_lookups(page, turns, i);
    if turns % 4 != 0 {
        lemma_rotation((turns % 4) as u8);
    }
    assert(page_turns(objects, page_entries(page, turns, i)) == Some((turns % 4) as u8));
    lemma_keys_injective();
    let images = no_entries().insert(key("Im0"@), reference(image_number(i)));
    assert(offered_images(objects, resource_entries(i)) == Some(images));
    lemma_drawing(is_landscape(page));
    assert(images.dom().contains(key("Im0"@)));
    assert(resolved(objects, (image_number(i) as u32, 0)) == Some(
        PdfObject::Stream(image_entries(page), page.bytes),
    ));
    assert(shown_stream(objects, images, key("Im0"@)) == Some((image_entries(page), page.bytes)));
    lemma_encoding(objects, page);
    lemma_image_lookups(page);
    lemma_full_page(objects, trailer, pages, i);
}

/// The outer structure of a file that the program wrote.
pub proof fn lemma_scan_structure(objects: Objects, trailer: Entries, pages: Seq<ReadPage>)
    requires
        is_scan_file(objects, trailer, pages),
    ensures
        is_marked(crate::pdf_objects::PdfFile { objects, trailer }),
        flat_pages(objects, trailer, page_ids(pages.len() as int)),
        catalog_of(objects, trailer) == Some(catalog_entries()),
        !is_meaningful(objects, catalog_entries(), "AcroForm"@),
{
    let n = pages.len() as int;
    lemma_other_lookups(n);
    assert(resolved(objects, (info_number(n) as u32, 0)) == Some(
        PdfObject::Dictionary(info_entries()),
    ));
    let marker = key(marker_text());
    assert(marker.subrange(0, marker.len() as int) =~= marker);
    assert(occurs_at(marker, marker, 0));
    assert(contains_text(marker, marker));
    assert(resolved(objects, (catalog_number(n) as u32, 0)) == Some(
        PdfObject::Dictionary(catalog_entries()),
    ));
    assert(resolved(objects, (1, 0)) == Some(PdfObject::Dictionary(tree_entries(n))));
    let ids = page_ids(n);
    assert forall|i: int| 0 <= i < ids.len() implies is_page(
        dictionary_of(resolved(objects, #[trigger] ids[i])),
    ) by {
        assert(has_page(objects, pages, i));
        lemma_page_lookups(pages[i].0, pages[i].1, i);
        assert(resolved(objects, ids[i]) == Some(
            PdfObject::Dictionary(page_entries(pages[i].0, pages[i].1, i)),
        ));
    }
    assert forall|i: int| 0 <= i < ids.len() implies kids(n)[i] == PdfObject::Reference(
        #[trigger] ids[i],
    ) by {}
}

/// What is known of page `i` before its resources and operations are looked up.
pub proof fn lemma_scan_page_facts(
    objects: Objects,
    trailer: Entries,
    pages: Seq<ReadPage>,
    i: int,
)
    requires
        is_scan_file(objects, trailer, pages),
        0 <= i < pages.len(),
    ensures
        has_own_resources(objects, page_ids(pages.len() as int)[i], resource_entries(i)),
        plain_content(objects, page_ids(pages.len() as int)[i]) == Some(
            encoded_operations(page_drawing(is_landscape(pages[i].0))),
        ),
{
    let n = pages.len() as int;
    assert(has_page(objects, pages, i));
    lemma_page_lookups(pages[i].0, pages[i].1, i);
    lemma_other_lookups(n);
    let id = page_ids(n)[i];
    assert(resolved(objects, id) == Some(
        PdfObject::Dictionary(page_entries(pages[i].0, pages[i].1, i)),
    ));
    assert(resolved(objects, (1, 0)) == Some(PdfObject::Dictionary(tree_entries(n))));
}

} // verus!
