//! Sending finished pages to a server.

use vstd::prelude::*;
use crate::bilevel::{decode_g4, decoded_g4, g4_message, DecodedG4};
use crate::document::{copy_bytes, EncodedPage, PageEncoding, PageModel};
use crate::messages::joined;
use crate::pages::{decodable_size, outcome_of, passes};
use crate::raster::GrayRaster;
use crate::text::{chars_of, copy_range, decimal, decimal_text, text_of};

verus! {

/// What became of sending one page: the address under which the server keeps it, or why it
/// was not sent.
#[derive(Debug)]
pub struct SyncOutcome {
    pub page_id: u64,
    pub result: Result<String, String>,
}

/// What `image::codecs::png::PngEncoder::write_image` gives for a picture in eight-bit
/// grey: the file, or the words of its error.
pub uninterp spec fn png_outcome(
    pixels: Seq<u8>,
    width: u32,
    height: u32,
) -> Result<Seq<u8>, Seq<char>>;

/// Writes a grey picture as a PNG file (`image::codecs::png::PngEncoder::write_image`). It
/// is refused only where a side is zero.
#[verifier::external_body]
fn write_png(image: &GrayRaster) -> (r: Result<Vec<u8>, String>)
    requires
        image.wf(),
    ensures
        outcome_of(r) == png_outcome(image.pixels@, image.width, image.height),
        r is Ok == (image.width > 0 && image.height > 0),
{
    let mut bytes = Vec::new();
    let encoder = image::codecs::png::PngEncoder::new(&mut bytes);
    image::ImageEncoder::write_image(
        encoder,
        &image.pixels,
        image.width,
        image.height,
        image::ExtendedColorType::L8,
    ).map_err(|error| error.to_string())?;
    Ok(bytes)
}

/// What is sent for a page: the bytes, their type and the ending of the file's name.
pub ghost struct PayloadModel {
    pub bytes: Seq<u8>,
    pub mime: Seq<char>,
    pub extension: Seq<char>,
}

/// What is sent for a page. The server takes no black-and-white streams, so such a page is
/// sent as a picture; where its stream is broken, that is said.
pub open spec fn payload(page: PageModel) -> Result<PayloadModel, Seq<char>> {
    match page.encoding {
        PageEncoding::Jpeg => Ok(
            PayloadModel { bytes: page.bytes, mime: "image/jpeg"@, extension: "jpg"@ },
        ),
        PageEncoding::G4 => {
            let decoded = decoded_g4(page.bytes, page.width, page.height);
            match decoded {
                DecodedG4::Pixels(pixels) => match png_outcome(pixels, page.width, page.height) {
                    Ok(bytes) => Ok(
                        PayloadModel { bytes, mime: "image/png"@, extension: "png"@ },
                    ),
                    Err(text) => Err("Nie można przygotować strony do wysyłki: "@ + text),
                },
                _ => Err(g4_message(decoded, page.height)),
            }
        },
    }
}

pub open spec fn payload_of(
    r: Result<(Vec<u8>, &'static str, &'static str), String>,
) -> Result<PayloadModel, Seq<char>> {
    match r {
        Ok((bytes, mime, extension)) => Ok(
            PayloadModel { bytes: bytes@, mime: mime@, extension: extension@ },
        ),
        Err(text) => Err(text@),
    }
}

/// Prepares a page to be sent. Every page can be whose stream is sound.
pub fn upload_payload(page: &EncodedPage) -> (r: Result<
    (Vec<u8>, &'static str, &'static str),
    String,
>)
    requires
        decodable_size(page@),
    ensures
        payload_of(r) == payload(page@),
        r is Ok == (page@.encoding == PageEncoding::G4 ==> passes(page@)),
{
    match page.encoding {
        PageEncoding::Jpeg => Ok((copy_bytes(&page.bytes), "image/jpeg", "jpg")),
        PageEncoding::G4 => {
            let gray: GrayRaster = match decode_g4(
                page.bytes.as_slice(),
                page.width,
                page.height,
            ) {
                Ok(gray) => gray,
                Err(message) => {
                    return Err(message);
                },
            };
            png_payload(&gray)
        },
    }
}

/// Prepares a picture to be sent as a PNG file.
pub fn png_payload(gray: &GrayRaster) -> (r: Result<(Vec<u8>, &'static str, &'static str), String>)
    requires
        gray.wf(),
    ensures
        payload_of(r) == match png_outcome(gray.pixels@, gray.width, gray.height) {
            Ok(bytes) => Ok(PayloadModel { bytes, mime: "image/png"@, extension: "png"@ }),
            Err(text) => Err("Nie można przygotować strony do wysyłki: "@ + text),
        },
        r is Ok == (gray.width > 0 && gray.height > 0),
{
    match write_png(gray) {
        Ok(bytes) => Ok((bytes, "image/png", "png")),
        Err(error) => Err(
            joined("Nie można przygotować strony do wysyłki: ", error.as_str()),
        ),
    }
}

/// The name under which a page is sent.
pub fn upload_name(page_id: u64, extension: &str) -> (r: String)
    ensures
        r@ == "scan-"@ + decimal(page_id as nat) + "."@ + extension@,
{
    let mut name: String = "scan-".to_owned();
    name.append(decimal_text(page_id).as_str());
    name.append(".");
    name.append(extension);
    name
}

/// A text without the slashes at its end.
pub open spec fn without_slashes(text: Seq<char>) -> Seq<char>
    decreases text.len(),
{
    if text.len() > 0 && text.last() == '/' {
        without_slashes(text.drop_last())
    } else {
        text
    }
}

/// The address to which pages are sent.
pub fn upload_url(backend_url: &str) -> (r: String)
    ensures
        r@ == without_slashes(backend_url@) + "/media/scan/process"@,
{
    let chars: Vec<char> = chars_of(backend_url);
    let mut end: usize = chars.len();
    assert(chars@.take(end as int) =~= chars@);
    while end > 0 && chars[end - 1] == '/'
        invariant
            end <= chars.len(),
            without_slashes(chars@.take(end as int)) == without_slashes(chars@),
        decreases end,
    {
        assert(chars@.take(end as int).drop_last() =~= chars@.take(end - 1));
        end = end - 1;
    }
    let kept: Vec<char> = copy_range(&chars, 0, end);
    assert(kept@ =~= chars@.take(end as int));
    joined(text_of(&kept).as_str(), "/media/scan/process")
}

/// How much of the server's words is shown.
pub const SHOWN_REPLY: usize = 200;

/// The beginning of a text.
pub open spec fn beginning(text: Seq<char>, limit: nat) -> Seq<char> {
    if text.len() <= limit {
        text
    } else {
        text.take(limit as int)
    }
}

/// What is said where the server refuses a page.
pub fn refusal_text(status: &str, body: &str) -> (r: String)
    ensures
        r@ == "Serwer odrzucił stronę ("@ + status@ + "): "@ + beginning(
            body@,
            SHOWN_REPLY as nat,
        ),
{
    let chars: Vec<char> = chars_of(body);
    let shown: usize = if chars.len() <= SHOWN_REPLY {
        chars.len()
    } else {
        SHOWN_REPLY
    };
    let kept: Vec<char> = copy_range(&chars, 0, shown);
    assert(kept@ =~= beginning(body@, SHOWN_REPLY as nat));
    let mut text: String = "Serwer odrzucił stronę (".to_owned();
    text.append(status);
    text.append("): ");
    text.append(text_of(&kept).as_str());
    text
}

/// How the server's answer came out.
#[derive(Debug)]
pub enum ServerReply {
    /// The server could not be reached.
    Unreachable { error: String },
    /// It said no.
    Refused { status: String, body: String },
    /// It said yes, and where the page is kept.
    Kept { url: String },
    /// It said yes, but not where the page is kept.
    Unclear { error: String },
}

/// What is reported of sending a page.
pub fn upload_result(reply: ServerReply) -> (r: Result<String, String>)
    ensures
        r is Ok == reply is Kept,
        match reply {
            ServerReply::Kept { url } => r matches Ok(place) && place@ == url@,
            ServerReply::Unreachable { error } => r matches Err(text) && text@
                == "Połączenie nie powiodło się: "@ + error@,
            ServerReply::Unclear { error } => r matches Err(text) && text@
                == "Niepoprawna odpowiedź serwera: "@ + error@,
            ServerReply::Refused { status, body } => r matches Err(text) && text@
                == "Serwer odrzucił stronę ("@ + status@ + "): "@ + beginning(
                body@,
                SHOWN_REPLY as nat,
            ),
        },
{
    match reply {
        ServerReply::Kept { url } => Ok(url),
        ServerReply::Unreachable { error } => Err(
            joined("Połączenie nie powiodło się: ", error.as_str()),
        ),
        ServerReply::Unclear { error } => Err(
            joined("Niepoprawna odpowiedź serwera: ", error.as_str()),
        ),
        ServerReply::Refused { status, body } => Err(
            refusal_text(status.as_str(), body.as_str()),
        ),
    }
}

} // verus!
