use image::{Rgb, RgbImage};
use lopdf::{Dictionary, Document, Object, ObjectId};
use skaner_dokumentow::detect::{detect_document, detect_document_corners, Corner, PageCorners};
use skaner_dokumentow::document::{
    ColorMode, EncodedPage, PageEncoding, A4_HEIGHT_PX, A4_WIDTH_PX,
};
use skaner_dokumentow::enhance::{bright_mode, page_tones, FLATTEN_COLS, FLATTEN_ROWS};
use skaner_dokumentow::pages::{
    decode_page, page_from_encoded, page_from_image, pages_from_extracted, ScannedPage,
};
use skaner_dokumentow::pdf_reading::{
    editable_page_image_name, extract_pdf_pages, PageOperation, PdfProblem, PdfProblemKind,
};
use skaner_dokumentow::pdf_writing::render_pdf;
use skaner_dokumentow::raster::{fit_within, RgbRaster};
use skaner_dokumentow::rotation::rotate_rgb;

fn raster(image: RgbImage) -> RgbRaster {
    RgbRaster { width: image.width(), height: image.height(), pixels: image.into_raw() }
}

fn filled(width: u32, height: u32, pixel: [u8; 3]) -> RgbRaster {
    raster(RgbImage::from_pixel(width, height, Rgb(pixel)))
}

fn pixel(image: &RgbRaster, x: u32, y: u32) -> [u8; 3] {
    let place = 3 * (y as usize * image.width as usize + x as usize);
    [image.pixels[place], image.pixels[place + 1], image.pixels[place + 2]]
}

fn fractions(corners: PageCorners) -> [(f32, f32); 4] {
    let place = |corner: Corner| {
        (corner.x as f32 / corners.columns as f32, corner.y as f32 / corners.rows as f32)
    };
    [
        place(corners.top_left),
        place(corners.top_right),
        place(corners.bottom_right),
        place(corners.bottom_left),
    ]
}

fn same_page(left: &EncodedPage, right: &EncodedPage) -> bool {
    left.bytes == right.bytes
        && left.encoding == right.encoding
        && left.width == right.width
        && left.height == right.height
}

fn color_page(width: u32, height: u32) -> ScannedPage {
    page_from_image(&filled(width, height, [245, 245, 245]), ColorMode::Color).expect("strona")
}

fn save_pdf(pages: &[(&ScannedPage, u8)]) -> Vec<u8> {
    let encoded: Vec<(EncodedPage, u8)> =
        pages.iter().map(|(page, turns)| (page.encoded(), *turns)).collect();
    let borrowed: Vec<(&EncodedPage, u8)> =
        encoded.iter().map(|(page, turns)| (page, *turns)).collect();
    render_pdf(&borrowed).expect("zapis PDF")
}

#[test]
fn fallback_for_tiny_image() {
    let image = filled(10, 10, [0, 0, 0]);
    let corners = detect_document_corners(&image);
    assert_eq!(
        fractions(corners),
        [(0.06, 0.06), (0.94, 0.06), (0.94, 0.94), (0.06, 0.94)]
    );
}

#[test]
fn detects_a_perspective_document() {
    let mut image = RgbImage::from_pixel(800, 600, Rgb([25, 25, 25]));
    let polygon = [
        imageproc::point::Point::new(210, 75),
        imageproc::point::Point::new(610, 105),
        imageproc::point::Point::new(655, 525),
        imageproc::point::Point::new(165, 500),
    ];
    imageproc::drawing::draw_polygon_mut(&mut image, &polygon, Rgb([245, 245, 245]));
    let detected = detect_document_corners(&raster(image));
    let expected = [
        (210.0 / 800.0, 75.0 / 600.0),
        (610.0 / 800.0, 105.0 / 600.0),
        (655.0 / 800.0, 525.0 / 600.0),
        (165.0 / 800.0, 500.0 / 600.0),
    ];
    for (actual, expected) in fractions(detected).into_iter().zip(expected) {
        assert!((actual.0 - expected.0 as f32).abs() < 0.06);
        assert!((actual.1 - expected.1 as f32).abs() < 0.06);
    }
}

#[test]
fn review_image_keeps_a4_proportions() {
    assert_eq!(fit_within(210, 297, 120), (85, 120));
}

#[test]
fn sizes_fit_as_double_arithmetic_rounds_them() {
    let mut seed: u64 = 1;
    let mut next = || {
        seed = seed.wrapping_mul(6_364_136_223_846_793_005).wrapping_add(1_442_695_040_888_963_407);
        seed >> 33
    };
    for round in 0..20_000u32 {
        let range = if round % 2 == 0 { 6_000 } else { u32::MAX as u64 };
        let width = (next() * 2 % range + 1) as u32;
        let height = (next() * 2 % range + 1) as u32;
        let limit = [120, 320, 720, 1 + (next() % 4_000) as u32][round as usize % 4];
        let scale = (limit as f64 / width as f64).min(limit as f64 / height as f64).min(1.0);
        let expected = (
            (width as f64 * scale).round().max(1.0) as u32,
            (height as f64 * scale).round().max(1.0) as u32,
        );
        assert_eq!(fit_within(width, height, limit), expected, "{width} x {height} in {limit}");
    }
}

#[test]
fn extracts_pages_from_own_pdf() {
    let first = color_page(A4_WIDTH_PX, A4_HEIGHT_PX);
    let bytes = save_pdf(&[(&first, 0)]);
    let pages = extract_pdf_pages(&bytes).expect("ekstrakcja");
    assert_eq!(pages.len(), 1, "oczekiwano jednej strony");
    assert_eq!(pages[0].1, 0);
    let decoded_first = image::load_from_memory(&pages[0].0.bytes).expect("dekodowanie 1");
    assert_eq!(
        (decoded_first.width(), decoded_first.height()),
        (A4_WIDTH_PX, A4_HEIGHT_PX)
    );
}

fn bilevel_page() -> ScannedPage {
    let mut image = RgbImage::from_pixel(A4_WIDTH_PX, A4_HEIGHT_PX, Rgb([245, 245, 245]));
    for y in 400..440 {
        for x in 300..1800 {
            image.put_pixel(x, y, Rgb([15, 15, 15]));
        }
    }
    page_from_image(&raster(image), ColorMode::BlackWhite).expect("strona G4")
}

#[test]
fn black_white_mode_produces_small_g4_pages() {
    let page = bilevel_page();
    assert_eq!(page.encoding, PageEncoding::G4);
    assert!(page.bytes.len() < 40 * 1024, "G4 page {} B", page.bytes.len());
    let decoded = decode_page(&page.encoded()).expect("decode");
    assert_eq!((decoded.width, decoded.height), (A4_WIDTH_PX, A4_HEIGHT_PX));
    assert_eq!(pixel(&decoded, 1000, 420), [0, 0, 0]);
    assert_eq!(pixel(&decoded, 1000, 1000), [255, 255, 255]);
    // The strip thumbnail reflects the bilevel result, not the colour input.
    assert!(page.review_image.pixels.chunks(3).all(|p| p[0] == p[1] && p[1] == p[2]));
    assert_eq!((page.review_image.width, page.review_image.height), (226, 320));
}

#[test]
fn color_mode_keeps_jpeg() {
    let image = filled(A4_WIDTH_PX, A4_HEIGHT_PX, [245, 200, 200]);
    let page = page_from_image(&image, ColorMode::Color).expect("strona JPEG");
    assert_eq!(page.encoding, PageEncoding::Jpeg);
    assert!(page.bytes.starts_with(&[0xFF, 0xD8]));
}

#[test]
fn a_colour_page_shows_its_colours_again() {
    let page =
        page_from_image(&filled(60, 40, [245, 60, 60]), ColorMode::Color).expect("strona JPEG");
    let decoded = decode_page(&page.encoded()).expect("decode");
    assert_eq!((decoded.width, decoded.height), (60, 40));
    let shown = pixel(&decoded, 30, 20);
    assert!(shown[0] > 230 && shown[1] < 80 && shown[2] < 80, "{shown:?}");
}

#[test]
fn an_image_too_long_for_a_jpeg_is_refused() {
    let error = page_from_image(&filled(65_536, 1, [1, 1, 1]), ColorMode::Color).unwrap_err();
    assert!(error.starts_with("Nie można skompresować zeskanowanej strony: "), "{error}");
}

#[test]
fn g4_pdf_round_trips_exact_bytes_and_dimensions() {
    let page = bilevel_page();
    let bytes = save_pdf(&[(&page, 1)]);
    assert!(bytes.windows(b"/CCITTFaxDecode".len()).any(|w| w == b"/CCITTFaxDecode"));
    assert!(bytes.windows(b"/BlackIs1 false".len()).any(|w| w == b"/BlackIs1 false"));
    let extracted = extract_pdf_pages(&bytes).expect("ekstrakcja");
    assert_eq!(extracted.len(), 1);
    assert_eq!(extracted[0].1, 1, "obrót z /Rotate");
    assert!(
        same_page(&extracted[0].0, &page.encoded()),
        "bajty G4, kodowanie i wymiary muszą wrócić bez zmian"
    );
    let reloaded = pages_from_extracted(extracted).expect("strony");
    assert_eq!(reloaded[0].0.encoding, PageEncoding::G4);
    assert_eq!(
        (reloaded[0].0.width, reloaded[0].0.height),
        (A4_WIDTH_PX, A4_HEIGHT_PX)
    );
}

#[test]
fn mixed_jpeg_and_g4_document_round_trips() {
    let colour = color_page(A4_WIDTH_PX, A4_HEIGHT_PX);
    let bilevel = bilevel_page();
    let bytes = save_pdf(&[(&colour, 0), (&bilevel, 0)]);
    let extracted = extract_pdf_pages(&bytes).expect("ekstrakcja");
    assert_eq!(extracted[0].0.encoding, PageEncoding::Jpeg);
    assert_eq!(extracted[0].0.bytes, colour.bytes);
    assert_eq!(extracted[1].0.encoding, PageEncoding::G4);
    assert_eq!(extracted[1].0.bytes, bilevel.bytes);
}

fn saved(document: &mut Document) -> Vec<u8> {
    let mut bytes = Vec::new();
    document.save_to(&mut bytes).expect("save");
    bytes
}

/// Rewrites the single image stream's DecodeParms of a freshly saved G4 PDF.
fn save_g4_pdf_with_parms(parms: Dictionary) -> Vec<u8> {
    let page = bilevel_page();
    let bytes = save_pdf(&[(&page, 0)]);
    let mut document = Document::load_mem(&bytes).expect("load");
    let ids: Vec<ObjectId> = document
        .objects
        .iter()
        .filter(|(_, object)| {
            matches!(object, Object::Stream(stream) if stream.dict.has(b"DecodeParms"))
        })
        .map(|(id, _)| *id)
        .collect();
    assert_eq!(ids.len(), 1);
    if let Ok(Object::Stream(stream)) = document.get_object_mut(ids[0]) {
        stream.dict.set("DecodeParms", Object::Dictionary(parms));
    }
    saved(&mut document)
}

fn parms(k: i64, black_is_1: bool) -> Dictionary {
    let mut parms = Dictionary::new();
    parms.set("K", k);
    parms.set("Columns", i64::from(A4_WIDTH_PX));
    parms.set("Rows", i64::from(A4_HEIGHT_PX));
    parms.set("BlackIs1", black_is_1);
    parms
}

#[test]
fn g3_or_blackis1_streams_are_foreign() {
    let g3 = save_g4_pdf_with_parms(parms(0, false));
    assert!(
        extract_pdf_pages(&g3).is_err(),
        "K=0 (G3) must not be treated as our format"
    );
    let inverted = save_g4_pdf_with_parms(parms(-1, true));
    assert!(
        extract_pdf_pages(&inverted).is_err(),
        "BlackIs1 true must not be treated as our format"
    );
    let ours = save_g4_pdf_with_parms(parms(-1, false));
    assert!(extract_pdf_pages(&ours).is_ok());
}

#[test]
fn decode_page_rejects_corrupt_g4() {
    let page = EncodedPage {
        bytes: vec![0x00, 0x01, 0x02],
        encoding: PageEncoding::G4,
        width: 64,
        height: 64,
    };
    assert!(decode_page(&page).is_err());
}

#[test]
fn rotation_round_trips_as_metadata_without_touching_bytes() {
    let page = color_page(A4_WIDTH_PX, A4_HEIGHT_PX);
    let bytes = save_pdf(&[(&page, 3)]);
    let pages = extract_pdf_pages(&bytes).expect("ekstrakcja");
    assert_eq!(pages.len(), 1);
    assert_eq!(pages[0].1, 3, "obrót musi wrócić z /Rotate");
    assert_eq!(pages[0].0.bytes, page.bytes, "bajty JPEG nie mogą się zmienić");
}

#[test]
fn rotate_rgb_turns_quarters() {
    let mut image = RgbImage::from_pixel(2, 1, Rgb([10, 10, 10]));
    image.put_pixel(0, 0, Rgb([200, 0, 0]));
    let image = raster(image);
    let once = rotate_rgb(&image, 1);
    assert_eq!((once.width, once.height), (1, 2));
    assert_eq!(pixel(&once, 0, 0), [200, 0, 0]);
    let full = rotate_rgb(&image, 4);
    assert_eq!((full.width, full.height), (2, 1));
    assert_eq!(pixel(&full, 0, 0), [200, 0, 0]);
}

#[test]
fn turns_agree_with_the_image_library() {
    let mut image = RgbImage::new(5, 3);
    for (place, pixel) in image.pixels_mut().enumerate() {
        *pixel = Rgb([place as u8, 2 * place as u8, 3 * place as u8]);
    }
    let source = raster(image.clone());
    assert_eq!(rotate_rgb(&source, 1).pixels, image::imageops::rotate90(&image).into_raw());
    assert_eq!(rotate_rgb(&source, 2).pixels, image::imageops::rotate180(&image).into_raw());
    assert_eq!(rotate_rgb(&source, 3).pixels, image::imageops::rotate270(&image).into_raw());
    let there_and_back = rotate_rgb(&rotate_rgb(&source, 1), 3);
    assert_eq!(there_and_back.pixels, source.pixels);
}

#[test]
fn foreign_pdf_without_jpeg_streams_errors() {
    let result = extract_pdf_pages(b"%PDF-1.4\n1 0 obj\n<<>>\nendobj\ntrailer\n<<>>\n%%EOF");
    assert!(result.is_err(), "obcy PDF musi zwrócić błąd");
}

fn operation(operator: &str, operands: Vec<Object>) -> PageOperation {
    PageOperation { operator: operator.to_owned(), operands }
}

fn base_operations() -> Vec<PageOperation> {
    vec![
        operation("q", vec![]),
        operation(
            "cm",
            vec![
                Object::Integer(1),
                Object::Integer(0),
                Object::Integer(0),
                Object::Integer(1),
                Object::Integer(0),
                Object::Integer(0),
            ],
        ),
        operation("Do", vec![Object::Name(b"X1".to_vec())]),
        operation("Q", vec![]),
    ]
}

#[test]
fn editable_page_rejects_extra_content_or_multiple_images() {
    let base = base_operations();
    assert_eq!(editable_page_image_name(&base), Some(b"X1".to_vec()));

    let mut with_text = base_operations();
    with_text.insert(2, operation("BT", vec![]));
    assert!(editable_page_image_name(&with_text).is_none());

    let mut with_second_image = base;
    with_second_image.insert(3, operation("Do", vec![Object::Name(b"X2".to_vec())]));
    assert!(editable_page_image_name(&with_second_image).is_none());
}

#[test]
fn shadowed_page_edge_stays_inside_the_crop() {
    let mut image = RgbImage::from_pixel(800, 600, Rgb([25, 25, 25]));
    for y in 60..540 {
        for x in 100..700 {
            image.put_pixel(x, y, Rgb([240, 240, 240]));
        }
    }
    for y in 60..540 {
        for x in 100..140 {
            image.put_pixel(x, y, Rgb([105, 105, 105]));
        }
    }
    let result = detect_document(&raster(image));
    assert!(result.confident);
    assert!(
        fractions(result.corners)[0].0 <= 105.0 / 800.0,
        "zacieniona krawędź wypadła z kadru: {:?}",
        result.corners.top_left
    );
}

#[test]
fn table_lines_do_not_hijack_the_crop() {
    let mut image = RgbImage::from_pixel(800, 600, Rgb([25, 25, 25]));
    for y in 60..540 {
        for x in 100..700 {
            image.put_pixel(x, y, Rgb([240, 240, 240]));
        }
    }
    for line in 0..4 {
        let y = 180 + line * 80;
        for x in 160..640 {
            for dy in 0..3 {
                image.put_pixel(x, y + dy, Rgb([30, 30, 30]));
            }
        }
    }
    for line in 0..5 {
        let x = 200 + line * 100;
        for y in 180..460 {
            for dx in 0..3 {
                image.put_pixel(x + dx, y, Rgb([30, 30, 30]));
            }
        }
    }
    let result = detect_document(&raster(image));
    assert!(result.confident, "strona na macie powinna być pewna");
    let expected = [
        (100.0 / 800.0, 60.0 / 600.0),
        (699.0 / 800.0, 60.0 / 600.0),
        (699.0 / 800.0, 539.0 / 600.0),
        (100.0 / 800.0, 539.0 / 600.0),
    ];
    for (actual, expected) in fractions(result.corners).into_iter().zip(expected) {
        assert!(
            (actual.0 - expected.0 as f32).abs() < 0.03,
            "narożnik x wpadł w tabelę: {actual:?}"
        );
        assert!(
            (actual.1 - expected.1 as f32).abs() < 0.03,
            "narożnik y wpadł w tabelę: {actual:?}"
        );
    }
}

#[test]
fn empty_mat_is_not_confident() {
    let image = filled(640, 480, [30, 30, 35]);
    let result = detect_document(&image);
    assert!(!result.confident, "pusta mata nie może być pewna");
}

#[test]
fn pdf_page_import_is_all_or_nothing() {
    let page = page_from_image(&filled(80, 120, [240, 240, 240]), ColorMode::Color)
        .expect("valid page");
    let error = pages_from_extracted(vec![
        (page.encoded(), 0),
        (
            EncodedPage {
                bytes: b"not-a-jpeg".to_vec(),
                encoding: PageEncoding::Jpeg,
                width: 80,
                height: 120,
            },
            1,
        ),
    ])
    .err()
    .expect("second page must fail");
    assert!(error.contains("strony 2"), "unexpected error: {error}");
    assert_eq!(pages_from_extracted(Vec::new()).unwrap_err(), "Ten PDF nie zawiera stron.");
}

#[test]
fn a_page_of_another_size_is_refused() {
    let page = color_page(80, 120);
    let mut wrong = page.encoded();
    wrong.width = 81;
    assert_eq!(
        page_from_encoded(wrong).unwrap_err(),
        "Wymiary strony nie zgadzają się z jej danymi."
    );
}

#[test]
fn saved_pdf_embeds_the_exact_jpeg_bytes() {
    let page = color_page(A4_WIDTH_PX, A4_HEIGHT_PX);
    let bytes = save_pdf(&[(&page, 0)]);
    assert!(
        bytes.windows(page.bytes.len()).any(|window| window == page.bytes.as_slice()),
        "PDF nie zawiera oryginalnych bajtów JPEG — strona została przekodowana"
    );
    let extracted = extract_pdf_pages(&bytes).expect("ekstrakcja");
    assert_eq!(extracted.len(), 1);
    assert_eq!(extracted[0].1, 0);
    assert_eq!(
        extracted[0].0.bytes, page.bytes,
        "wyodrębniona strona nie jest bajtowo identyczna z zapisaną"
    );
}

fn without_keywords(bytes: &[u8]) -> Vec<u8> {
    let mut document = Document::load_mem(bytes).expect("load PDF");
    let info_id = match document.trailer.get(b"Info").expect("Info") {
        Object::Reference(id) => *id,
        _ => panic!("Info is not indirect"),
    };
    document
        .get_object_mut(info_id)
        .expect("Info object")
        .as_dict_mut()
        .expect("Info dictionary")
        .remove(b"Keywords");
    saved(&mut document)
}

#[test]
fn safely_imports_full_page_pdf_from_legacy_app_version() {
    let page = color_page(A4_WIDTH_PX, A4_HEIGHT_PX);
    let bytes = without_keywords(&save_pdf(&[(&page, 0)]));
    let pages = extract_pdf_pages(&bytes).expect("safe legacy extraction");
    assert_eq!(pages.len(), 1);
}

#[test]
fn rejects_unmarked_pdf_that_is_not_a_full_a4_page() {
    let page = color_page(400, 566);
    let bytes = without_keywords(&save_pdf(&[(&page, 0)]));
    assert!(extract_pdf_pages(&bytes).is_err());
}

#[test]
fn writes_a_valid_pdf() {
    let page = color_page(100, 141);
    let bytes = save_pdf(&[(&page, 0)]);
    assert!(bytes.starts_with(b"%PDF-"));
    assert_eq!(Document::load_mem(&bytes).expect("valid").get_pages().len(), 1);
}

#[test]
fn a_document_without_pages_is_not_written() {
    assert_eq!(render_pdf(&[]).unwrap_err(), "Dokument nie zawiera żadnych stron.");
}

fn problem(bytes: &[u8]) -> PdfProblemKind {
    extract_pdf_pages(bytes).unwrap_err().kind
}

fn changed(change: impl FnOnce(&mut Document, ObjectId)) -> Vec<u8> {
    let page = color_page(A4_WIDTH_PX, A4_HEIGHT_PX);
    let mut document = Document::load_mem(&save_pdf(&[(&page, 0)])).expect("load");
    let first: ObjectId = document.get_pages()[&1];
    change(&mut document, first);
    saved(&mut document)
}

fn page_entry(document: &mut Document, id: ObjectId, key: &str, value: Object) {
    document.get_object_mut(id).unwrap().as_dict_mut().unwrap().set(key, value);
}

#[test]
fn each_reason_against_editing_is_told() {
    assert_eq!(problem(b"nic"), PdfProblemKind::Unreadable);
    assert_eq!(
        problem(&changed(|document, _| {
            let root = document.trailer.get(b"Root").unwrap().as_reference().unwrap();
            let mut form = Dictionary::new();
            form.set("Fields", Object::Array(vec![Object::Integer(1)]));
            page_entry(document, root, "AcroForm", Object::Dictionary(form));
        })),
        PdfProblemKind::HasForm
    );
    assert!(
        extract_pdf_pages(&changed(|document, _| {
            let root = document.trailer.get(b"Root").unwrap().as_reference().unwrap();
            page_entry(document, root, "AcroForm", Object::Dictionary(Dictionary::new()));
        }))
        .is_ok(),
        "an empty form stands in nobody's way"
    );
    assert_eq!(
        problem(&changed(|document, _| {
            document.trailer.remove(b"Info");
        })),
        PdfProblemKind::NoMarker
    );
    assert_eq!(
        problem(&changed(|document, id| {
            page_entry(document, id, "Resources", Object::Dictionary(Dictionary::new()));
        })),
        PdfProblemKind::Foreign
    );
    assert_eq!(
        problem(&changed(|document, id| {
            page_entry(document, id, "Annots", Object::Array(vec![Object::Integer(1)]));
        })),
        PdfProblemKind::HasAnnotations
    );
    assert_eq!(
        problem(&changed(|document, id| {
            page_entry(document, id, "Rotate", Object::Integer(45));
        })),
        PdfProblemKind::OddRotation
    );
    assert_eq!(
        problem(&changed(|document, id| {
            let text = document.add_object(lopdf::Stream::new(Dictionary::new(), b"BT ET".to_vec()));
            page_entry(document, id, "Contents", Object::Reference(text));
        })),
        PdfProblemKind::ExtraContent
    );
    let small = color_page(400, 566);
    assert_eq!(
        problem(&without_keywords(&save_pdf(&[(&small, 0)]))),
        PdfProblemKind::UnknownLayout
    );
}

#[test]
fn a_problem_is_worded_with_its_detail() {
    let problem =
        PdfProblem { kind: PdfProblemKind::Unreadable, detail: "koniec pliku".to_owned() };
    assert_eq!(problem.message(), "Nie można odczytać PDF: koniec pliku");
    let problem = PdfProblem { kind: PdfProblemKind::NoPages, detail: String::new() };
    assert_eq!(problem.message(), "Ten PDF nie zawiera stron.");
}

#[test]
fn tones_tell_ink_from_paper() {
    let mut image = RgbImage::from_pixel(400, 400, Rgb([190, 200, 230]));
    for y in 150..250 {
        for x in 150..250 {
            image.put_pixel(x, y, Rgb([40, 45, 70]));
        }
    }
    let tones = page_tones(&raster(image)).expect("ink and paper");
    assert_eq!((tones.red.low, tones.green.low, tones.blue.low), (40, 45, 70));
    assert_eq!((tones.red.paper, tones.green.paper, tones.blue.paper), (190, 200, 230));
    assert_eq!(tones.red.cells.len() as u32, FLATTEN_COLS * FLATTEN_ROWS);
    assert!(page_tones(&filled(400, 400, [200, 200, 200])).is_none());
    assert!(page_tones(&filled(19, 400, [200, 200, 200])).is_none());
}

#[test]
fn the_paper_is_the_most_frequent_bright_tone() {
    let mut histogram = vec![0u64; 256];
    histogram[10] = 500;
    histogram[200] = 300;
    histogram[250] = 40;
    let mode = bright_mode(&histogram);
    assert_eq!(mode, 200);
}
