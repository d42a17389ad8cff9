//! What anyone who opens a saved document finds in it, told by the file itself.

use vstd::arithmetic::power2::pow2;
use vstd::prelude::*;
use crate::document::{PageEncoding, PageModel};
use crate::pdf_layout::{
    catalog_entries, has_page, holds_scan, image_entries, image_number, info_entries, is_landscape,
    kids, lemma_g4_lookups, lemma_image_lookups, lemma_other_lookups, lemma_page_lookups,
    lemma_side_numbers, media_items, page_content, page_entries, reference, resource_entries,
    tree_entries, with_length,
};
use crate::pdf_numbers::{fixed_point, number_of, quarter_turns, NumberModel};
use crate::pdf_objects::{key, lemma_keys_injective, no_entries, OperationModel, PdfFile, PdfObject};
use crate::pdf_reading::{
    encoded_operations, entry_of, is_full_page, media_box, number_entry, page_drawing, placements,
    Entries, Objects, ReadPage,
};

verus! {

/// Whether a dictionary says something under a name.
pub open spec fn says(entries: Entries, name: Seq<char>, value: PdfObject) -> bool {
    entries.dom().contains(key(name)) && entries[key(name)] == value
}

/// Whether a reference leads to a dictionary.
pub open spec fn leads_to(file: PdfFile, from: PdfObject, entries: Entries) -> bool {
    from matches PdfObject::Reference(id) && file.objects.dom().contains(id) && file.objects[id]
        == PdfObject::Dictionary(entries)
}

/// Whether a file has so many pages, and one of them is this: going from the root of the
/// file to its pages, and there to the one that stands at `i`.
pub open spec fn is_page_of(file: PdfFile, n: int, i: int, page: Entries) -> bool {
    exists|catalog: Entries, tree: Entries, leaves: Seq<PdfObject>|
        {
            &&& file.trailer.dom().contains(key("Root"@))
            &&& #[trigger] leads_to(file, file.trailer[key("Root"@)], catalog)
            &&& catalog.dom().contains(key("Pages"@))
            &&& #[trigger] leads_to(file, catalog[key("Pages"@)], tree)
            &&& #[trigger] says(tree, "Kids"@, PdfObject::Array(leaves))
            &&& leaves.len() == n
            &&& leads_to(file, leaves[i], page)
        }
}

/// The lower edge of a page in points, as the number that a file holds: 841.88983 where its
/// image is wider than high, else 595.2756.
pub open spec fn page_width_bits(image: PageModel) -> u32 {
    if image.width > image.height {
        0x445278f3
    } else {
        0x4414d1a3
    }
}

/// The height of a page, likewise.
pub open spec fn page_height_bits(image: PageModel) -> u32 {
    if image.width > image.height {
        0x4414d1a3
    } else {
        0x445278f3
    }
}

/// Whether a page is as large as an A4 sheet that lies as its image does, and turned as
/// often as wanted.
pub open spec fn is_laid_out(page: Entries, image: PageModel, turns: u8) -> bool {
    &&& says(page, "Type"@, PdfObject::Name(key("Page"@)))
    &&& says(
        page,
        "MediaBox"@,
        PdfObject::Array(
            seq![
                PdfObject::Integer(0),
                PdfObject::Integer(0),
                PdfObject::Real(page_width_bits(image)),
                PdfObject::Real(page_height_bits(image)),
            ],
        ),
    )
    &&& turns % 4 == 0 ==> !page.dom().contains(key("Rotate"@))
    &&& turns % 4 == 1 ==> says(page, "Rotate"@, PdfObject::Integer(90))
    &&& turns % 4 == 2 ==> says(page, "Rotate"@, PdfObject::Integer(180))
    &&& turns % 4 == 3 ==> says(page, "Rotate"@, PdfObject::Integer(270))
}

/// The drawing of a page: one image, stretched over all of it.
pub open spec fn draws_over_all(image: PageModel) -> Seq<OperationModel> {
    seq![
        OperationModel { operator: "q"@, operands: Seq::empty() },
        OperationModel {
            operator: "cm"@,
            operands: seq![
                PdfObject::Real(page_width_bits(image)),
                PdfObject::Integer(0),
                PdfObject::Integer(0),
                PdfObject::Real(page_height_bits(image)),
                PdfObject::Integer(0),
                PdfObject::Integer(0),
            ],
        },
        OperationModel { operator: "Do"@, operands: seq![PdfObject::Name(key("Im0"@))] },
        OperationModel { operator: "Q"@, operands: Seq::empty() },
    ]
}

/// Whether the content of a page is that drawing.
pub open spec fn is_drawn(file: PdfFile, page: Entries, image: PageModel) -> bool {
    &&& page.dom().contains(key("Contents"@))
    &&& page[key("Contents"@)] matches PdfObject::Reference(id)
    &&& file.objects.dom().contains(id)
    &&& file.objects[id] matches PdfObject::Stream(entries, content)
    &&& !entries.dom().contains(key("Filter"@))
    &&& content == encoded_operations(draws_over_all(image))
}

/// Whether the one image that a page offers has the very bytes of a scanned page, and says
/// its size and how it is encoded.
pub open spec fn offers_image(file: PdfFile, page: Entries, image: PageModel) -> bool {
    &&& page.dom().contains(key("Resources"@))
    &&& page[key("Resources"@)] matches PdfObject::Dictionary(resources)
    &&& resources.dom().contains(key("XObject"@))
    &&& resources[key("XObject"@)] matches PdfObject::Dictionary(images)
    &&& images.dom().contains(key("Im0"@))
    &&& images[key("Im0"@)] matches PdfObject::Reference(id)
    &&& file.objects.dom().contains(id)
    &&& file.objects[id] matches PdfObject::Stream(entries, bytes)
    &&& bytes == image.bytes
    &&& is_described(entries, image)
}

/// Whether an image says its size and how it is encoded.
pub open spec fn is_described(entries: Entries, image: PageModel) -> bool {
    &&& says(entries, "Subtype"@, PdfObject::Name(key("Image"@)))
    &&& says(entries, "Width"@, PdfObject::Integer(image.width as i64))
    &&& says(entries, "Height"@, PdfObject::Integer(image.height as i64))
    &&& image.encoding == PageEncoding::Jpeg ==> {
        &&& says(entries, "Filter"@, PdfObject::Name(key("DCTDecode"@)))
        &&& says(entries, "ColorSpace"@, PdfObject::Name(key("DeviceRGB"@)))
        &&& says(entries, "BitsPerComponent"@, PdfObject::Integer(8))
    }
    &&& image.encoding == PageEncoding::G4 ==> {
        &&& says(entries, "Filter"@, PdfObject::Name(key("CCITTFaxDecode"@)))
        &&& says(entries, "ColorSpace"@, PdfObject::Name(key("DeviceGray"@)))
        &&& says(entries, "BitsPerComponent"@, PdfObject::Integer(1))
        &&& entries.dom().contains(key("DecodeParms"@))
        &&& entries[key("DecodeParms"@)] matches PdfObject::Dictionary(parameters)
        &&& says(parameters, "K"@, PdfObject::Integer((-1) as i64))
        &&& says(parameters, "Columns"@, PdfObject::Integer(image.width as i64))
        &&& says(parameters, "Rows"@, PdfObject::Integer(image.height as i64))
        &&& says(parameters, "BlackIs1"@, PdfObject::Boolean(false))
    }
}

/// A saved document has a page for each page that was scanned, in the same sequence: an A4
/// sheet that lies as the image does, wider than high exactly where the image has more
/// columns than rows, turned as wanted, with the image's own bytes stretched over all of it.
pub proof fn law_saved_document_shows_its_pages(file: PdfFile, pages: Seq<ReadPage>, i: int)
    requires
        holds_scan(file, pages),
        0 <= i < pages.len(),
    ensures
        exists|page: Entries| #[trigger]
            is_page_of(file, pages.len() as int, i, page) && is_laid_out(
                page,
                pages[i].0,
                pages[i].1,
            ) && is_drawn(file, page, pages[i].0) && offers_image(file, page, pages[i].0),
{
    let n = pages.len() as int;
    let (image, turns) = pages[i];
    let page = page_entries(image, turns, i);
    assert(has_page(file.objects, pages, i));
    lemma_page_lookups(image, turns, i);
    lemma_image_lookups(image);
    lemma_g4_lookups(image);
    lemma_other_lookups(n);
    lemma_keys_injective();
    assert(leads_to(file, file.trailer[key("Root"@)], catalog_entries()));
    assert(leads_to(file, catalog_entries()[key("Pages"@)], tree_entries(n)));
    assert(says(tree_entries(n), "Kids"@, PdfObject::Array(kids(n))));
    assert(leads_to(file, kids(n)[i], page));
    assert(is_page_of(file, n, i, page));
    assert(media_items(is_landscape(image)) =~= seq![
        PdfObject::Integer(0),
        PdfObject::Integer(0),
        PdfObject::Real(page_width_bits(image)),
        PdfObject::Real(page_height_bits(image)),
    ]);
    assert(is_laid_out(page, image, turns));
    let drawing = page_drawing(is_landscape(image));
    let wanted = draws_over_all(image);
    assert(drawing[1].operands =~= wanted[1].operands);
    assert(drawing =~= wanted);
    assert(entry_of(
        with_length(no_entries(), page_content(image)),
        "Filter"@,
    ) is None);
    assert(is_drawn(file, page, image));
    let images = no_entries().insert(key("Im0"@), reference(image_number(i)));
    assert(resource_entries(i)[key("XObject"@)] == PdfObject::Dictionary(images));
    assert(is_described(image_entries(image), image));
    assert(offers_image(file, page, image));
}

/// A saved document says that it was scanned, so that it can be opened again for editing.
pub proof fn law_saved_document_is_marked(file: PdfFile, pages: Seq<ReadPage>)
    requires
        holds_scan(file, pages),
    ensures
        file.trailer.dom().contains(key("Info"@)),
        exists|info: Entries| #[trigger]
            leads_to(file, file.trailer[key("Info"@)], info) && says(
                info,
                "Keywords"@,
                PdfObject::Text(key("skaner-dokumentow-editable-v1"@)),
            ),
{
    lemma_other_lookups(pages.len() as int);
    assert(leads_to(file, file.trailer[key("Info"@)], info_entries()));
}

/// The sides of the page are those of an A4 sheet, 210 by 297 millimetres at 72 points to
/// the inch, to a ten-thousandth of a point; drawn over it, the image of an A4 page keeps
/// its proportions to less than a thousandth.
pub proof fn law_sheet_has_the_proportions_of_its_image(image: PageModel)
    requires
        image.width == 2480 && image.height == 3508 || image.width == 3508 && image.height == 2480,
    ensures
        number_of(PdfObject::Real(page_width_bits(image))) matches Some(width) && number_of(
            PdfObject::Real(page_height_bits(image)),
        ) matches Some(height) && {
            let w = fixed_point(width);
            let h = fixed_point(height);
            &&& image.width < image.height ==> is_near(w, 5_952_756) && is_near(h, 8_418_898)
            &&& image.width > image.height ==> is_near(w, 8_418_898) && is_near(h, 5_952_756)
            &&& w > h <==> image.width > image.height
            &&& -(h * image.width) <= 1000 * (w * image.height - h * image.width) <= h * image.width
        },
{
    lemma_side_numbers();
}

/// Whether a length is so many ten-thousandths of a point, or off by one of them at most.
pub open spec fn is_near(length: int, parts: int) -> bool {
    (parts - 1) * 0x1_0000_0000_0000_0000 <= 10_000 * length <= (parts + 1)
        * 0x1_0000_0000_0000_0000
}

/// A page that is taken in for editing shows its image undistorted: the sheet and the place
/// of the image on it are wider than high exactly where the image is.
pub proof fn law_opened_page_shows_its_image_undistorted(
    objects: Objects,
    page: Entries,
    image: Entries,
    operations: Seq<OperationModel>,
)
    requires
        is_full_page(objects, page, image, operations),
    ensures
        number_entry(image, "Width"@) matches Some(width) && number_entry(
            image,
            "Height"@,
        ) matches Some(height) && media_box(page) matches Some(media) && {
            let matrix = placements(operations)[0];
            &&& media[2] - media[0] > media[3] - media[1] <==> fixed_point(width) > fixed_point(
                height,
            )
            &&& matrix[0] > matrix[3] <==> fixed_point(width) > fixed_point(height)
            &&& matrix[0] > 0
            &&& matrix[3] > 0
        },
{
}

/// A rotation is told by its whole quarters, and no other is taken.
pub proof fn law_rotation_is_told_in_quarters(mantissa: int, exponent: int)
    requires
        0 <= exponent < 63,
        -0x8000_0000_0000_0000 <= mantissa * pow2(exponent as nat) < 0x8000_0000_0000_0000,
    ensures
        ({
            let degrees = mantissa * pow2(exponent as nat);
            match quarter_turns(NumberModel::Finite(mantissa, exponent)) {
                Some(turns) => turns < 4 && (degrees - 90 * turns) % 360 == 0,
                None => degrees % 90 != 0,
            }
        }),
{
    let degrees = mantissa * pow2(exponent as nat);
    assert(0 <= degrees % 360 < 360);
    if degrees % 90 == 0 {
        let turns = (degrees % 360) / 90;
        assert(0 <= turns < 4);
        assert((degrees % 360) % 90 == 0);
        assert(degrees % 360 == 90 * turns);
    }
}

} // verus!
