//! Pages between pixels and the bytes in which they are kept.

use vstd::prelude::*;
use crate::bilevel::{
    bilevel_pixel, binarize, decode_g4, decoded_g4, encode_g4, g4_message, g4_stream, ink_rows,
    law_g4_round_trip, reads_back, DecodedG4, MAX_G4_LINE, MAX_G4_WIDTH,
};
use crate::document::{copy_bytes, ColorMode, EncodedPage, PageEncoding, PageModel};
use crate::jpeg_header::{check_reach, stays_in_reach};
use crate::raster::{
    fit_within, fitted_size, is_brightness, law_fitted_size_fits, resize_lanczos, to_luma,
    GrayRaster, RasterModel, RgbRaster,
};
use crate::text::{decimal, decimal_text};

verus! {

/// The longest side of the thumbnails in the film strip.
pub const STRIP_THUMB_PX: u32 = 320;

/// The quality of colour pages.
pub const COLOR_JPEG_QUALITY: u8 = 80;

/// A page with the small picture that stands for it on the screen.
#[derive(Debug)]
pub struct ScannedPage {
    pub bytes: Vec<u8>,
    pub encoding: PageEncoding,
    pub review_image: RgbRaster,
    pub width: u32,
    pub height: u32,
}

impl ScannedPage {
    /// What is kept of the page.
    pub open spec fn model(self) -> PageModel {
        PageModel {
            bytes: self.bytes@,
            encoding: self.encoding,
            width: self.width,
            height: self.height,
        }
    }

    /// Whether the picture is a thumbnail of the page's size.
    pub open spec fn has_thumbnail(self) -> bool {
        &&& self.review_image.wf()
        &&& (self.review_image.width, self.review_image.height) == fitted_size(
            self.width,
            self.height,
            STRIP_THUMB_PX,
        )
    }

    /// Whether the picture is a thumbnail of what the page's bytes hold.
    pub open spec fn shows_its_page(self) -> bool {
        exists|image: RgbRaster| #[trigger]
            may_show(self.model(), image) && is_thumbnail_of(self.review_image@, image@)
    }

    pub fn encoded(&self) -> (r: EncodedPage)
        ensures
            r@ == self.model(),
    {
        EncodedPage {
            bytes: copy_bytes(&self.bytes),
            encoding: self.encoding,
            width: self.width,
            height: self.height,
        }
    }
}

impl Clone for ScannedPage {
    fn clone(&self) -> (r: ScannedPage)
        ensures
            r.model() == self.model(),
            r.review_image@ == self.review_image@,
    {
        ScannedPage {
            bytes: copy_bytes(&self.bytes),
            encoding: self.encoding,
            review_image: self.review_image.copy(),
            width: self.width,
            height: self.height,
        }
    }
}

/// Whether a picture is a thumbnail of an image: scaled down to fit, or the image itself
/// where that fits already.
pub open spec fn is_thumbnail_of(thumbnail: RasterModel, image: RasterModel) -> bool {
    &&& (thumbnail.width, thumbnail.height) == fitted_size(
        image.width,
        image.height,
        STRIP_THUMB_PX,
    )
    &&& thumbnail.width == image.width && thumbnail.height == image.height ==> thumbnail.pixels
        == image.pixels
}

/// What `image::codecs::jpeg::JpegEncoder::encode_image` gives: the stream, or the
/// words of its error.
pub uninterp spec fn jpeg_outcome(
    pixels: Seq<u8>,
    width: u32,
    height: u32,
    quality: u8,
) -> Result<Seq<u8>, Seq<char>>;

pub open spec fn outcome_of(r: Result<Vec<u8>, String>) -> Result<Seq<u8>, Seq<char>> {
    match r {
        Ok(bytes) => Ok(bytes@),
        Err(text) => Err(text@),
    }
}

/// Whether a JPEG can have this size.
pub open spec fn fits_jpeg(width: u32, height: u32) -> bool {
    1 <= width <= 65_535 && 1 <= height <= 65_535
}

/// Encodes a colour image (`image::codecs::jpeg::JpegEncoder`). It is refused only
/// where a side is zero or longer than a JPEG can say.
#[verifier::external_body]
pub(crate) fn encode_jpeg(image: &RgbRaster, quality: u8) -> (r: Result<Vec<u8>, String>)
    requires
        image.wf(),
    ensures
        outcome_of(r) == jpeg_outcome(image.pixels@, image.width, image.height, quality),
        r is Ok == fits_jpeg(image.width, image.height),
{
    let source = image::RgbImage::from_raw(image.width, image.height, image.pixels.clone()).unwrap();
    let mut bytes = Vec::new();
    image::codecs::jpeg::JpegEncoder::new_with_quality(&mut bytes, quality)
        .encode_image(&source)
        .map_err(|error| error.to_string())?;
    Ok(bytes)
}

/// The image that `image::ImageReader` finds in bytes, where it can decode them: its size
/// and its pixels.
pub uninterp spec fn decoded_image(bytes: Seq<u8>) -> Option<(u32, u32, Seq<u8>)>;

/// The image that bytes hold; none where a JPEG is too unusual to be decoded.
pub open spec fn held_image(bytes: Seq<u8>) -> Option<(u32, u32, Seq<u8>)> {
    if stays_in_reach(bytes) {
        decoded_image(bytes)
    } else {
        None
    }
}

/// The size of the image that bytes hold, where they can be decoded.
pub open spec fn decoded_size(bytes: Seq<u8>) -> Option<(u32, u32)> {
    match held_image(bytes) {
        Some((width, height, _)) => Some((width, height)),
        None => None,
    }
}

/// Whether an image is the one that bytes hold.
pub open spec fn is_decoded_from(image: RgbRaster, bytes: Seq<u8>) -> bool {
    held_image(bytes) == Some((image.width, image.height, image.pixels@))
}

/// Decodes an image (`image::ImageReader`). Whether that succeeds, and the size and the
/// pixels of the image, are named by the bytes. The text of a failure is left open. A JPEG
/// whose blocks could stray further than 32 bits reach, or whose colours are laid out in an
/// unusual way, is left out: a build that checks for overflow stops where one happens, and
/// the decoder takes the usual layouts for granted.
#[verifier::external_body]
fn decode_raster(bytes: &[u8]) -> (r: Result<RgbRaster, String>)
    requires
        stays_in_reach(bytes@),
    ensures
        match r {
            Ok(image) => image.wf() && decoded_image(bytes@) == Some(
                (image.width, image.height, image.pixels@),
            ),
            Err(_) => decoded_image(bytes@) is None,
        },
{
    let reader = image::ImageReader::new(std::io::Cursor::new(bytes))
        .with_guessed_format()
        .map_err(|error| error.to_string())?;
    let image = reader.decode().map_err(|error| error.to_string())?.to_rgb8();
    Ok(RgbRaster { width: image.width(), height: image.height(), pixels: image.into_raw() })
}

/// What is said of a JPEG that is too unusual to be decoded.
pub open spec fn unusual_jpeg() -> Seq<char> {
    "nietypowy obraz JPEG"@
}

/// Whether bytes hold no image, and this may say why.
pub open spec fn holds_nothing(bytes: Seq<u8>, text: Seq<char>) -> bool {
    &&& held_image(bytes) is None
    &&& !stays_in_reach(bytes) ==> text == unusual_jpeg()
}

/// Reads an image from bytes, where they are not too unusual to be decoded.
fn read_raster(bytes: &[u8]) -> (r: Result<RgbRaster, String>)
    ensures
        match r {
            Ok(image) => image.wf() && is_decoded_from(image, bytes@),
            Err(text) => holds_nothing(bytes@, text@),
        },
{
    if !check_reach(bytes) {
        return Err("nietypowy obraz JPEG".to_owned());
    }
    decode_raster(bytes)
}

/// The colour pixels of grey ones.
pub open spec fn gray_as_rgb(pixels: Seq<u8>) -> Seq<u8> {
    Seq::new(3 * pixels.len(), |i: int| pixels[i / 3])
}

fn gray_to_rgb(gray: &GrayRaster) -> (r: RgbRaster)
    requires
        gray.wf(),
        3 * gray.pixels.len() <= usize::MAX,
    ensures
        r.wf(),
        r.width == gray.width,
        r.height == gray.height,
        r.pixels@ == gray_as_rgb(gray.pixels@),
{
    let mut pixels: Vec<u8> = Vec::new();
    let mut i: usize = 0;
    while i < gray.pixels.len()
        invariant
            i <= gray.pixels.len(),
            pixels.len() == 3 * i,
            forall|k: int| 0 <= k < 3 * i ==> #[trigger] pixels[k] == gray.pixels[k / 3],
        decreases gray.pixels.len() - i,
    {
        let value: u8 = gray.pixels[i];
        pixels.push(value);
        pixels.push(value);
        pixels.push(value);
        i = i + 1;
    }
    assert(pixels@ =~= gray_as_rgb(gray.pixels@));
    RgbRaster { width: gray.width, height: gray.height, pixels }
}

fn strip_thumbnail(image: &RgbRaster) -> (r: RgbRaster)
    requires
        image.wf(),
    ensures
        r.wf(),
        is_thumbnail_of(r@, image@),
{
    let (width, height): (u32, u32) = fit_within(image.width, image.height, STRIP_THUMB_PX);
    proof {
        law_fitted_size_fits(image.width, image.height, STRIP_THUMB_PX);
    }
    resize_lanczos(image, width, height)
}

/// Ink and paper: the brightness of an image, cut at 128.
pub open spec fn bilevel_pixels(gray: Seq<u8>) -> Seq<u8> {
    Seq::new(gray.len(), |p: int| bilevel_pixel(gray[p]))
}

/// What an image becomes in colour: the JPEG stream, or the message of a refusal.
pub open spec fn color_outcome(pixels: Seq<u8>, width: u32, height: u32) -> Result<
    PageModel,
    Seq<char>,
> {
    match jpeg_outcome(pixels, width, height, COLOR_JPEG_QUALITY) {
        Ok(bytes) => Ok(PageModel { bytes, encoding: PageEncoding::Jpeg, width, height }),
        Err(text) => Err("Nie można skompresować zeskanowanej strony: "@ + text),
    }
}

/// What a grey image becomes in black and white.
pub open spec fn bilevel_page(gray: Seq<u8>, width: u32, height: u32) -> PageModel {
    PageModel {
        bytes: g4_stream(ink_rows(bilevel_pixels(gray), width, height)),
        encoding: PageEncoding::G4,
        width,
        height,
    }
}

/// Whether a page is what a colour image becomes in black and white: its brightness,
/// whichever way a machine rounds it, cut at 128. It can be read back.
pub open spec fn is_bilevel_page(
    pixels: Seq<u8>,
    width: u32,
    height: u32,
    page: PageModel,
) -> bool {
    exists|gray: Seq<u8>| #[trigger]
        is_brightness(gray, pixels) && page == bilevel_page(gray, width, height) && (width > 0
            && height > 0 ==> decoded_g4(page.bytes, width, height) == DecodedG4::Pixels(
            bilevel_pixels(gray),
        ))
}

pub open spec fn page_outcome(r: Result<ScannedPage, String>) -> Result<PageModel, Seq<char>> {
    match r {
        Ok(page) => Ok(page.model()),
        Err(text) => Err(text@),
    }
}

/// Encodes a grey image as a black-and-white page, which can always be read back.
pub fn page_from_gray(gray: &GrayRaster) -> (r: ScannedPage)
    requires
        gray.wf(),
        gray.width <= MAX_G4_WIDTH,
        3 * gray.pixels.len() <= usize::MAX,
    ensures
        r.model() == bilevel_page(gray.pixels@, gray.width, gray.height),
        gray.width > 0 && gray.height > 0 ==> decoded_g4(r.bytes@, gray.width, gray.height)
            == DecodedG4::Pixels(bilevel_pixels(gray.pixels@)),
        r.has_thumbnail(),
        gray.width > 0 && gray.height > 0 ==> r.shows_its_page(),
{
    let bilevel: GrayRaster = binarize(gray);
    let bytes: Vec<u8> = encode_g4(&bilevel);
    assert(bilevel.pixels@ =~= bilevel_pixels(gray.pixels@));
    proof {
        if gray.width > 0 && gray.height > 0 {
            law_g4_round_trip(bytes@, bilevel.pixels@, gray.width, gray.height);
        }
    }
    // The thumbnail shows what is saved, not the colour input.
    let preview: RgbRaster = gray_to_rgb(&bilevel);
    let made: ScannedPage = ScannedPage {
        bytes,
        encoding: PageEncoding::G4,
        review_image: strip_thumbnail(&preview),
        width: gray.width,
        height: gray.height,
    };
    assert(gray.width > 0 && gray.height > 0 ==> may_show(made.model(), preview));
    made
}

/// Encodes a finished image as a page. A black-and-white page can always be read back.
pub fn page_from_image(image: &RgbRaster, mode: ColorMode) -> (r: Result<ScannedPage, String>)
    requires
        image.wf(),
        mode == ColorMode::BlackWhite ==> image.width <= MAX_G4_WIDTH,
    ensures
        mode == ColorMode::Color ==> {
            &&& page_outcome(r) == color_outcome(image.pixels@, image.width, image.height)
            &&& r is Ok == fits_jpeg(image.width, image.height)
            &&& r matches Ok(page) ==> is_thumbnail_of(page.review_image@, image@)
        },
        mode == ColorMode::BlackWhite ==> {
            &&& r is Ok
            &&& is_bilevel_page(image.pixels@, image.width, image.height, r->Ok_0.model())
            &&& image.width > 0 && image.height > 0 ==> r->Ok_0.shows_its_page()
        },
        r matches Ok(page) ==> page.has_thumbnail(),
{
    match mode {
        ColorMode::Color => {
            let review_image: RgbRaster = strip_thumbnail(image);
            match encode_jpeg(image, COLOR_JPEG_QUALITY) {
                Err(error) => {
                    let mut message: String =
                        "Nie można skompresować zeskanowanej strony: ".to_owned();
                    message.append(error.as_str());
                    Err(message)
                },
                Ok(bytes) => Ok(
                    ScannedPage {
                        bytes,
                        encoding: PageEncoding::Jpeg,
                        review_image,
                        width: image.width,
                        height: image.height,
                    },
                ),
            }
        },
        ColorMode::BlackWhite => {
            let gray: GrayRaster = to_luma(image);
            Ok(page_from_gray(&gray))
        },
    }
}

/// Whether a page's size is one that can be held and decoded.
pub open spec fn decodable_size(page: PageModel) -> bool {
    page.encoding == PageEncoding::G4 ==> page.width <= MAX_G4_LINE && 3 * (page.width
        * page.height) <= usize::MAX
}

/// Whether the lines of a page can be decoded, and its samples counted on this machine.
pub fn is_decodable(page: &EncodedPage) -> (r: bool)
    ensures
        r == decodable_size(page@),
{
    match page.encoding {
        PageEncoding::Jpeg => true,
        PageEncoding::G4 => {
            assert(page.width as nat * page.height as nat <= 0xffff_fffe_0000_0001nat)
                by (nonlinear_arith)
                requires
                    page.width <= 0xffff_ffffu32,
                    page.height <= 0xffff_ffffu32,
            ;
            page.width <= MAX_G4_LINE && 3 * (page.width as u128 * page.height as u128)
                <= usize::MAX as u128
        },
    }
}

/// Whether an image is what a page holds, as far as the page's bytes tell.
pub open spec fn may_show(page: PageModel, image: RgbRaster) -> bool {
    &&& image.wf()
    &&& match page.encoding {
        PageEncoding::Jpeg => is_decoded_from(image, page.bytes),
        PageEncoding::G4 => {
            &&& image.width == page.width
            &&& image.height == page.height
            &&& decoded_g4(page.bytes, page.width, page.height) matches DecodedG4::Pixels(pixels)
            &&& image.pixels@ == gray_as_rgb(pixels)
        },
    }
}

/// Whether a page may turn out unreadable with a message.
pub open spec fn may_fail(page: PageModel, message: Seq<char>) -> bool {
    match page.encoding {
        PageEncoding::Jpeg => exists|text: Seq<char>| #[trigger]
            holds_nothing(page.bytes, text) && message == jpeg_message(text),
        PageEncoding::G4 => {
            let decoded = decoded_g4(page.bytes, page.width, page.height);
            decoded !is Pixels && message == g4_message(decoded, page.height)
        },
    }
}

pub open spec fn jpeg_message(text: Seq<char>) -> Seq<char> {
    "Nie można odczytać zeskanowanej strony: "@ + text
}

/// Opens the photograph from which a page was made.
pub fn open_original(bytes: &[u8]) -> (r: Result<RgbRaster, String>)
    ensures
        match r {
            Ok(image) => image.wf() && is_decoded_from(image, bytes@),
            Err(message) => exists|text: Seq<char>| #[trigger]
                holds_nothing(bytes@, text) && message@ == "Nie można odczytać oryginału: "@
                    + text,
        },
{
    match read_raster(bytes) {
        Ok(image) => Ok(image),
        Err(error) => {
            let mut message: String = "Nie można odczytać oryginału: ".to_owned();
            message.append(error.as_str());
            assert(message@ == "Nie można odczytać oryginału: "@ + error@);
            Err(message)
        },
    }
}

/// The one decoder that review, session and sync use.
pub fn decode_page(page: &EncodedPage) -> (r: Result<RgbRaster, String>)
    requires
        decodable_size(page@),
    ensures
        match r {
            Ok(image) => may_show(page@, image),
            Err(message) => may_fail(page@, message@),
        },
{
    match page.encoding {
        PageEncoding::Jpeg => match read_raster(page.bytes.as_slice()) {
            Ok(image) => Ok(image),
            Err(error) => {
                let mut message: String = "Nie można odczytać zeskanowanej strony: ".to_owned();
                message.append(error.as_str());
                assert(message@ == jpeg_message(error@));
                Err(message)
            },
        },
        PageEncoding::G4 => match decode_g4(page.bytes.as_slice(), page.width, page.height) {
            Ok(gray) => Ok(gray_to_rgb(&gray)),
            Err(message) => Err(message),
        },
    }
}

pub open spec fn size_mismatch() -> Seq<char> {
    "Wymiary strony nie zgadzają się z jej danymi."@
}

/// Makes a page of its bytes and of what decoding them gave.
pub fn page_from_decoded(page: EncodedPage, decoded: Result<RgbRaster, String>) -> (r: Result<
    ScannedPage,
    String,
>)
    requires
        decoded matches Ok(image) ==> image.wf(),
    ensures
        match decoded {
            Err(message) => page_outcome(r) == Err::<PageModel, Seq<char>>(message@),
            Ok(image) => if image.width == page.width && image.height == page.height {
                &&& page_outcome(r) == Ok::<PageModel, Seq<char>>(page@)
                &&& is_thumbnail_of(r->Ok_0.review_image@, image@)
            } else {
                page_outcome(r) == Err::<PageModel, Seq<char>>(size_mismatch())
            },
        },
        r matches Ok(scanned) ==> scanned.has_thumbnail(),
{
    match decoded {
        Err(message) => Err(message),
        Ok(image) => {
            if image.width != page.width || image.height != page.height {
                return Err("Wymiary strony nie zgadzają się z jej danymi.".to_owned());
            }
            let review_image: RgbRaster = strip_thumbnail(&image);
            Ok(
                ScannedPage {
                    bytes: page.bytes,
                    encoding: page.encoding,
                    review_image,
                    width: page.width,
                    height: page.height,
                },
            )
        },
    }
}

/// Whether a page can be taken in: its bytes hold an image of its size.
pub open spec fn passes(page: PageModel) -> bool {
    match page.encoding {
        PageEncoding::Jpeg => decoded_size(page.bytes) == Some((page.width, page.height)),
        PageEncoding::G4 => decoded_g4(page.bytes, page.width, page.height) is Pixels,
    }
}

/// Whether a page may be refused with a message.
pub open spec fn may_be_refused(page: PageModel, message: Seq<char>) -> bool {
    ||| may_fail(page, message)
    ||| {
        &&& page.encoding == PageEncoding::Jpeg
        &&& decoded_size(page.bytes) is Some
        &&& !passes(page)
        &&& message == size_mismatch()
    }
}

/// Takes a page in, where its bytes hold an image of its size.
pub fn page_from_encoded(page: EncodedPage) -> (r: Result<ScannedPage, String>)
    requires
        decodable_size(page@),
    ensures
        match r {
            Ok(scanned) => {
                &&& passes(page@)
                &&& scanned.model() == page@
                &&& scanned.has_thumbnail()
                &&& scanned.shows_its_page()
            },
            Err(message) => !passes(page@) && may_be_refused(page@, message@),
        },
{
    let decoded: Result<RgbRaster, String> = decode_page(&page);
    proof {
        if decoded is Ok {
            assert(may_show(page@, decoded->Ok_0));
        }
    }
    page_from_decoded(page, decoded)
}

/// A black-and-white page that was written can always be taken in again.
pub proof fn law_written_page_passes(pixels: Seq<u8>, page: PageModel, message: Seq<char>)
    requires
        page.encoding == PageEncoding::G4,
        page.width > 0,
        page.height > 0,
        pixels.len() == page.width * page.height,
        reads_back(page.bytes, page.width, ink_rows(pixels, page.width, page.height)),
    ensures
        passes(page),
        !may_be_refused(page, message),
{
    law_g4_round_trip(page.bytes, pixels, page.width, page.height);
}

/// The message for a page that cannot be read, counted from one.
pub open spec fn page_failure(index: nat, message: Seq<char>) -> Seq<char> {
    "Nie można odczytać strony "@ + decimal(index + 1) + ": "@ + message
}

pub open spec fn refused_at(
    pages: Seq<(EncodedPage, u8)>,
    index: nat,
    message: Seq<char>,
    text: Seq<char>,
) -> bool {
    &&& index < pages.len()
    &&& text == page_failure(index, message)
    &&& may_be_refused(pages[index as int].0@, message)
    &&& forall|k: int| 0 <= k < index ==> passes((#[trigger] pages[k]).0@)
}

/// Whether a text names the first page that could not be read.
pub open spec fn is_refusal(pages: Seq<(EncodedPage, u8)>, text: Seq<char>) -> bool {
    exists|index: nat, message: Seq<char>| #[trigger] refused_at(pages, index, message, text)
}

/// Whether all pages were taken in, each with its turns.
pub open spec fn all_taken(pages: Seq<(EncodedPage, u8)>, taken: Seq<(ScannedPage, u8)>) -> bool {
    &&& taken.len() == pages.len()
    &&& forall|k: int|
        0 <= k < pages.len() ==> {
            &&& passes((#[trigger] pages[k]).0@)
            &&& taken[k].0.model() == pages[k].0@
            &&& taken[k].0.has_thumbnail()
            &&& taken[k].0.shows_its_page()
            &&& taken[k].1 == pages[k].1
        }
}

/// Takes in all the pages of a document, or none of them: the first that cannot be
/// read is named in the message.
pub fn pages_from_extracted(pages: Vec<(EncodedPage, u8)>) -> (r: Result<
    Vec<(ScannedPage, u8)>,
    String,
>)
    requires
        forall|k: int| 0 <= k < pages.len() ==> decodable_size((#[trigger] pages[k]).0@),
    ensures
        pages.len() == 0 ==> r is Err && r->Err_0@ == "Ten PDF nie zawiera stron."@,
        pages.len() > 0 ==> match r {
            Ok(taken) => all_taken(pages@, taken@),
            Err(text) => is_refusal(pages@, text@),
        },
{
    if pages.len() == 0 {
        return Err("Ten PDF nie zawiera stron.".to_owned());
    }
    let mut taken: Vec<(ScannedPage, u8)> = Vec::new();
    let mut i: usize = 0;
    while i < pages.len()
        invariant
            i <= pages.len(),
            pages.len() > 0,
            forall|k: int| 0 <= k < pages.len() ==> decodable_size((#[trigger] pages[k]).0@),
            taken.len() == i,
            forall|k: int|
                0 <= k < i ==> {
                    &&& passes((#[trigger] pages[k]).0@)
                    &&& taken[k].0.model() == pages[k].0@
                    &&& taken[k].0.has_thumbnail()
                    &&& taken[k].0.shows_its_page()
                    &&& taken[k].1 == pages[k].1
                },
        decreases pages.len() - i,
    {
        let turns: u8 = pages[i].1;
        match page_from_encoded(pages[i].0.copy()) {
            Ok(page) => {
                taken.push((page, turns));
            },
            Err(message) => {
                let mut text: String = "Nie można odczytać strony ".to_owned();
                text.append(decimal_text(i as u64 + 1).as_str());
                text.append(": ");
                text.append(message.as_str());
                assert(refused_at(pages@, i as nat, message@, text@));
                assert(is_refusal(pages@, text@));
                return Err(text);
            },
        }
        i = i + 1;
    }
    Ok(taken)
}

} // verus!
