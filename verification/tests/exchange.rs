use image::{Luma, Rgb, RgbImage};
use skaner_dokumentow::bilevel::encode_g4;
use skaner_dokumentow::document::{
    ColorMode, EncodedPage, PageEncoding, A4_HEIGHT_PX, A4_WIDTH_PX,
};
use skaner_dokumentow::jpeg_header::check_reach;
use skaner_dokumentow::pages::{
    decode_page, is_decodable, open_original, page_from_gray, page_from_image, ScannedPage,
};
use skaner_dokumentow::pdf_reading::{extract_document_pages, extract_pdf_pages};
use skaner_dokumentow::pdf_writing::render_pdf;
use skaner_dokumentow::raster::{GrayRaster, RgbRaster};
use skaner_dokumentow::recompress::{
    convert_pages, entry_role, outcome_line, rebinarize_decoded, rebinarize_page,
    recompress_document, recompress_pages, run_over, start_line, unreadable_line, verify,
    verify_pages, write_version, EntryRole, Outcome, Recompressed, Summary,
};
use skaner_dokumentow::sync::{
    refusal_text, upload_name, upload_payload, upload_result, upload_url, ServerReply,
};

#[test]
fn jpeg_pages_upload_as_is() {
    let page = EncodedPage {
        bytes: vec![0xFF, 0xD8, 0xFF, 0xD9],
        encoding: PageEncoding::Jpeg,
        width: 1,
        height: 1,
    };
    let (bytes, mime, ext) = upload_payload(&page).expect("payload");
    assert_eq!(bytes, page.bytes);
    assert_eq!((mime, ext), ("image/jpeg", "jpg"));
}

#[test]
fn g4_pages_upload_as_png_the_backend_can_decode() {
    let mut image = GrayRaster { width: 64, height: 32, pixels: vec![255; 64 * 32] };
    for x in 10..20 {
        image.pixels[5 * 64 + x] = 0;
    }
    let page = EncodedPage {
        bytes: encode_g4(&image),
        encoding: PageEncoding::G4,
        width: 64,
        height: 32,
    };
    let (bytes, mime, ext) = upload_payload(&page).expect("payload");
    assert_eq!((mime, ext), ("image/png", "png"));
    let decoded = image::load_from_memory(&bytes).expect("png").to_luma8();
    assert_eq!(decoded.dimensions(), (64, 32));
    assert_eq!(decoded.get_pixel(15, 5), &Luma([0]));
    assert_eq!(decoded.get_pixel(40, 20), &Luma([255]));
}

#[test]
fn a_broken_black_and_white_page_is_not_sent() {
    let page =
        EncodedPage { bytes: vec![0, 1, 2], encoding: PageEncoding::G4, width: 64, height: 64 };
    assert!(upload_payload(&page).is_err());
}

#[test]
fn the_server_is_asked_and_its_answer_told() {
    assert_eq!(upload_url("https://serwer//"), "https://serwer/media/scan/process");
    assert_eq!(upload_url("https://serwer"), "https://serwer/media/scan/process");
    assert_eq!(upload_name(3, "png"), "scan-3.png");
    assert_eq!(
        upload_result(ServerReply::Kept { url: "u".to_owned() }).unwrap(),
        "u"
    );
    assert_eq!(
        upload_result(ServerReply::Unreachable { error: "brak".to_owned() }).unwrap_err(),
        "Połączenie nie powiodło się: brak"
    );
    assert_eq!(
        upload_result(ServerReply::Unclear { error: "brak".to_owned() }).unwrap_err(),
        "Niepoprawna odpowiedź serwera: brak"
    );
    let long = "ż".repeat(500);
    let refused = refusal_text("413", &long);
    assert!(refused.starts_with("Serwer odrzucił stronę (413): ż"));
    assert_eq!(refused.chars().filter(|letter| *letter == 'ż').count(), 200);
    assert_eq!(
        upload_result(ServerReply::Refused { status: "413".to_owned(), body: long }).unwrap_err(),
        refused
    );
}

fn page(mode: ColorMode) -> ScannedPage {
    let mut image = RgbImage::from_pixel(A4_WIDTH_PX, A4_HEIGHT_PX, Rgb([245, 245, 245]));
    for y in 500..540 {
        for x in 300..1700 {
            image.put_pixel(x, y, Rgb([20, 20, 20]));
        }
    }
    let image =
        RgbRaster { width: image.width(), height: image.height(), pixels: image.into_raw() };
    page_from_image(&image, mode).expect("page")
}

#[test]
fn converts_jpeg_pdfs_keeps_g4_and_foreign_and_restores_mtime() {
    let colour = page(ColorMode::Color).encoded();
    let jpeg_pdf = render_pdf(&[(&colour, 0), (&colour, 3)]).unwrap();
    let bilevel = page(ColorMode::BlackWhite).encoded();
    let g4_pdf = render_pdf(&[(&bilevel, 1)]).unwrap();
    let foreign_pdf = b"%PDF-1.4\n1 0 obj\n<<>>\nendobj\ntrailer\n<<>>\n%%EOF";
    let before = jpeg_pdf.len() as u64;

    let Ok(Recompressed::Converted { bytes: converted, pages }) = recompress_document(&jpeg_pdf)
    else {
        panic!("not converted");
    };
    assert_eq!(pages, 2);
    let after = converted.len() as u64;
    assert!(matches!(recompress_document(&g4_pdf), Ok(Recompressed::AlreadyBilevel)));
    let Ok(Recompressed::Foreign { reason }) = recompress_document(foreign_pdf) else {
        panic!("not foreign");
    };
    let names =
        vec!["Sektor/stary.pdf".to_owned(), "nowy.pdf".to_owned(), "obcy.pdf".to_owned()];
    let outcomes = vec![
        Ok(Outcome::Converted { pages, before, after }),
        Ok(Outcome::AlreadyBilevel),
        Ok(Outcome::Foreign { reason }),
    ];
    let (summary, lines) = run_over(&names, &outcomes);
    assert_eq!(summary.converted, 1, "{lines:?}");
    assert_eq!(summary.already_bilevel, 1);
    assert_eq!(summary.skipped_foreign, 1);
    assert_eq!(summary.failed, 0);
    assert_eq!(summary.bytes_before, before);

    let reread = extract_pdf_pages(&converted).expect("converted PDF is ours");
    assert_eq!(reread.len(), 2);
    assert!(reread.iter().all(|(page, _)| page.encoding == PageEncoding::G4));
    assert_eq!(reread[1].1, 3, "rotation preserved");
    assert!(after < before / 5);
    assert!(lines.iter().any(|line| line.contains("obcy.pdf: POMINIĘTO")));
}

#[test]
fn failures_are_counted_and_change_the_exit_code() {
    let mut summary = Summary::default();
    assert_eq!(summary.exit_code(), 0);
    summary.count(&Ok(Outcome::Converted { pages: 3, before: 10_485_760, after: 1_048_576 }));
    assert_eq!(summary.exit_code(), 0);
    let failure = Err("brak dostępu".to_owned());
    summary.count(&failure);
    assert_eq!((summary.converted, summary.failed), (1, 1));
    assert_eq!((summary.bytes_before, summary.bytes_after), (10_485_760, 1_048_576));
    assert_eq!(summary.exit_code(), 1);
    assert_eq!(outcome_line("a.pdf", &failure), "a.pdf: BŁĄD — brak dostępu");
    assert_eq!(
        outcome_line("a.pdf", &Ok(Outcome::AlreadyBilevel)),
        "a.pdf: już czarno-biały, bez zmian"
    );
    assert_eq!(
        outcome_line(
            "a.pdf",
            &Ok(Outcome::Converted { pages: 3, before: 10_485_760, after: 1_048_576 })
        ),
        "a.pdf: 10.0 MB → 1.00 MB (3 stron)"
    );
    assert_eq!(
        summary.total_line(),
        "RAZEM: przekonwertowano 1 · już czarno-białe 0 · pominięto (obce) 0 · błędy 1 · 10.0 MB → 1.0 MB"
    );
}

#[test]
fn folders_are_searched_for_documents() {
    assert_eq!(entry_role("Akta", true), EntryRole::Searched);
    assert_eq!(entry_role(".ukryte", true), EntryRole::Skipped);
    assert_eq!(entry_role("Umowa.PDF", false), EntryRole::Document);
    assert_eq!(entry_role(".Umowa.pdf", false), EntryRole::Skipped);
    assert_eq!(entry_role(".pdf", false), EntryRole::Skipped);
    assert_eq!(entry_role("Umowa.txt", false), EntryRole::Skipped);
    assert_eq!(start_line(3, "D:/akta"), "Kompresja: 3 plików PDF w D:/akta");
    assert_eq!(
        unreadable_line("D:/akta", "brak"),
        "BŁĄD: nie można odczytać folderu D:/akta: brak"
    );
}

#[test]
fn black_and_white_pages_stay_byte_for_byte() {
    let bilevel = page(ColorMode::BlackWhite).encoded();
    let converted = convert_pages(&vec![(bilevel.copy(), 2)]).expect("converted");
    assert_eq!(converted[0].0.bytes, bilevel.bytes);
    assert_eq!(converted[0].1, 2);
    let colour = page(ColorMode::Color).encoded();
    let made = rebinarize_page(&colour).expect("binarized");
    assert_eq!(made.encoding, PageEncoding::G4);
    assert_eq!((made.width, made.height), (colour.width, colour.height));
}

#[test]
fn a_new_version_with_other_pages_is_refused() {
    let bilevel = page(ColorMode::BlackWhite).encoded();
    let bytes = render_pdf(&[(&bilevel, 1)]).unwrap();
    assert!(verify(&bytes, &vec![(bilevel.copy(), 1)]).is_ok());
    assert!(verify(&bytes, &vec![(bilevel.copy(), 2)]).is_err());
    assert!(verify(&bytes, &vec![(bilevel.copy(), 1), (bilevel.copy(), 1)]).is_err());
    assert!(verify(b"nic", &vec![(bilevel, 1)]).is_err());
}

#[test]
fn a_decoded_page_becomes_black_and_white_unless_it_is_too_wide() {
    let refused = rebinarize_decoded(Err("zepsuta".to_owned())).expect_err("refused");
    assert_eq!(refused, "zepsuta");
    let wide = RgbRaster { width: 32_768, height: 1, pixels: vec![255; 3 * 32_768] };
    let refused = rebinarize_decoded(Ok(wide)).expect_err("refused");
    assert_eq!(refused, "Strona jest zbyt szeroka dla zapisu czarno-białego.");
    let dots = RgbRaster { width: 2, height: 1, pixels: vec![0, 0, 0, 255, 255, 255] };
    let made = rebinarize_decoded(Ok(dots)).expect("binarized");
    assert_eq!((made.encoding, made.width, made.height), (PageEncoding::G4, 2, 1));
    let shown = decode_page(&made.encoded()).expect("decoded");
    assert_eq!(shown.pixels, vec![0, 0, 0, 255, 255, 255]);
}

#[test]
fn a_new_version_is_written_only_where_it_reads_back_as_the_old_one() {
    let bilevel = page(ColorMode::BlackWhite).encoded();
    let old = vec![(bilevel.copy(), 1)];
    let file = write_version(&vec![(bilevel.copy(), 1)], &old).expect("written");
    let read = extract_pdf_pages(&file).expect("read back");
    assert_eq!(read.len(), 1);
    assert_eq!(read[0].0.bytes, bilevel.bytes);
    assert_eq!(read[0].1, 1);
    let refused = write_version(&vec![(bilevel.copy(), 3)], &old).expect_err("turned");
    assert_eq!(refused, "weryfikacja: strona 1 nie zgadza się");
    let two = vec![(bilevel.copy(), 1), (bilevel.copy(), 1)];
    let refused = write_version(&two, &old).expect_err("longer");
    assert_eq!(refused, "weryfikacja: 2 stron zamiast 1");
}

#[test]
fn a_photograph_is_opened_pixel_for_pixel() {
    let picture = RgbImage::from_fn(3, 2, |x, y| Rgb([x as u8 * 40, y as u8 * 90, 7]));
    let mut png = std::io::Cursor::new(Vec::new());
    picture.write_to(&mut png, image::ImageFormat::Png).expect("png");
    let opened = open_original(png.get_ref()).expect("opened");
    assert_eq!((opened.width, opened.height), (3, 2));
    assert_eq!(opened.pixels, picture.into_raw());
    let refused = open_original(b"nic").expect_err("refused");
    assert!(refused.starts_with("Nie można odczytać oryginału: "));
}

#[test]
fn one_jpeg_always_shows_the_same_pixels() {
    let colour = page(ColorMode::Color).encoded();
    let shown = decode_page(&colour).expect("decoded");
    assert_eq!(shown.pixels, open_original(&colour.bytes).expect("opened").pixels);
}

#[test]
fn a_grey_page_is_cut_at_the_middle_and_reads_back() {
    let gray = GrayRaster { width: 4, height: 1, pixels: vec![0, 127, 128, 255] };
    let made = page_from_gray(&gray);
    assert_eq!((made.encoding, made.width, made.height), (PageEncoding::G4, 4, 1));
    let shown = decode_page(&made.encoded()).expect("decoded");
    assert_eq!(shown.pixels, [vec![0; 6], vec![255; 6]].concat());
    assert_eq!((made.review_image.width, made.review_image.height), (4, 1));
}

#[test]
fn a_loaded_document_gives_the_pages_that_its_bytes_give() {
    let bilevel = page(ColorMode::BlackWhite).encoded();
    let bytes = render_pdf(&[(&bilevel, 1), (&bilevel, 6)]).unwrap();
    let document = lopdf::Document::load_mem(&bytes).expect("loaded");
    let read = extract_document_pages(&document).expect("read");
    assert_eq!(read.len(), 2);
    assert_eq!((read[0].0.bytes == bilevel.bytes, read[0].1), (true, 1));
    assert_eq!((read[1].0.bytes == bilevel.bytes, read[1].1), (true, 2));
    let foreign = extract_document_pages(&lopdf::Document::with_version("1.5"));
    assert!(foreign.expect_err("foreign").message().starts_with("Ten PDF nie ma bezpiecznego"));
}

#[test]
fn the_first_page_that_cannot_be_converted_is_told() {
    let broken = |bytes: &[u8]| EncodedPage {
        bytes: bytes.to_vec(),
        encoding: PageEncoding::G4,
        width: 8,
        height: 2,
    };
    let sound = page(ColorMode::BlackWhite).encoded();
    let wide = RgbRaster { width: 32_768, height: 1, pixels: vec![200; 3 * 32_768] };
    let wide = page_from_image(&wide, ColorMode::Color).expect("page").encoded();
    let pages = vec![(sound, 0), (wide, 0), (broken(b"x"), 0)];
    let refused = convert_pages(&pages).expect_err("refused");
    assert_eq!(refused, "Strona jest zbyt szeroka dla zapisu czarno-białego.");
    let refused = convert_pages(&vec![(broken(b"x"), 0)]).expect_err("refused");
    assert_eq!(refused, decode_page(&broken(b"x")).expect_err("unreadable"));
}

#[test]
fn pages_become_a_new_document_unless_they_are_black_and_white() {
    let bilevel = page(ColorMode::BlackWhite).encoded();
    let colour = page(ColorMode::Color).encoded();
    let stays = recompress_pages(&vec![(bilevel.copy(), 0)]).expect("read");
    assert!(matches!(stays, Recompressed::AlreadyBilevel));
    let made = recompress_pages(&vec![(bilevel.copy(), 1), (colour, 3)]).expect("made");
    let Recompressed::Converted { bytes, pages } = made else { panic!("{made:?}") };
    assert_eq!(pages, 2);
    let read = extract_pdf_pages(&bytes).expect("read back");
    assert_eq!((read[0].0.bytes == bilevel.bytes, read[0].1, read[1].1), (true, 1, 3));
    assert!(verify_pages(&read, &read).is_ok());
    let fewer = vec![(bilevel, 1)];
    assert_eq!(verify_pages(&fewer, &read).unwrap_err(), "weryfikacja: 1 stron zamiast 2");
}

#[test]
fn a_document_is_counted_where_its_size_can_be() {
    let mut summary = Summary::default();
    let large = Ok(Outcome::Converted { pages: 1, before: u64::MAX, after: 1 });
    assert_eq!(summary.note("a.pdf", &Ok(Outcome::AlreadyBilevel)).0, "a.pdf: już czarno-biały, bez zmian");
    assert!(summary.note("b.pdf", &large).1);
    assert!(!summary.note("c.pdf", &large).1);
    assert_eq!((summary.converted, summary.already_bilevel, summary.bytes_after), (1, 1, 1));
}

#[test]
fn a_page_with_lines_that_are_too_long_is_not_decoded() {
    let page = |encoding: PageEncoding| EncodedPage {
        bytes: Vec::new(),
        encoding,
        width: u32::MAX,
        height: 1,
    };
    assert!(!is_decodable(&page(PageEncoding::G4)));
    assert!(is_decodable(&page(PageEncoding::Jpeg)));
}

/// The header of a JPEG with one quantization table and one Huffman table.
fn jpeg_header(frame: u8, sampling: &[u8], side: u16, table: &[u8], symbols: &[u8]) -> Vec<u8> {
    let mut bytes = vec![0xFF, 0xD8, 0xFF, 0xDB];
    bytes.extend((table.len() as u16 + 2).to_be_bytes());
    bytes.extend(table);
    bytes.extend([0xFF, frame]);
    bytes.extend((8 + 3 * sampling.len() as u16).to_be_bytes());
    bytes.push(8);
    bytes.extend(side.to_be_bytes());
    bytes.extend(side.to_be_bytes());
    bytes.push(sampling.len() as u8);
    for (i, factors) in sampling.iter().enumerate() {
        bytes.extend([i as u8 + 1, *factors, 0]);
    }
    bytes.extend([0xFF, 0xC4]);
    bytes.extend((19 + symbols.len() as u16).to_be_bytes());
    bytes.push(0);
    bytes.extend([0, 0, 0, symbols.len() as u8]);
    bytes.extend([0; 12]);
    bytes.extend(symbols);
    bytes.extend([0xFF, 0xDA, 0, 6 + 2 * sampling.len() as u8, sampling.len() as u8]);
    for i in 0..sampling.len() {
        bytes.extend([i as u8 + 1, 0]);
    }
    bytes.extend([0, 63, 0, 0x55, 0xFF, 0xD9]);
    bytes
}

fn narrow_table(scale: u8) -> Vec<u8> {
    let mut table = vec![0, scale];
    table.extend([1; 63]);
    table
}

#[test]
fn a_jpeg_is_decoded_only_where_it_stays_in_reach() {
    let usual = |side: u16, scale: u8| {
        check_reach(&jpeg_header(0xC0, &[0x22, 0x11, 0x11], side, &narrow_table(scale), &[0, 11]))
    };
    // 2047 * 255 * 64 * 64 blocks are told in 32 bits; with one more to a side they are not.
    assert!(usual(8 * 64 - 8, 255));
    assert!(!usual(8 * 65 - 8, 255));
    assert!(usual(8 * 1_023, 1));
    assert!(!usual(8 * 1_024, 1));
    let mut wide = vec![0x10];
    wide.extend([0xFF; 128]);
    let wide = jpeg_header(0xC0, &[0x11; 3], 64, &wide, &[0, 11]);
    assert!(!check_reach(&wide));
    let refused = open_original(&wide).expect_err("refused");
    assert_eq!(refused, "Nie można odczytać oryginału: nietypowy obraz JPEG");
    let page = EncodedPage { bytes: wide, encoding: PageEncoding::Jpeg, width: 64, height: 64 };
    let refused = decode_page(&page).expect_err("refused");
    assert_eq!(refused, "Nie można odczytać zeskanowanej strony: nietypowy obraz JPEG");
}

#[test]
fn a_jpeg_with_an_unusual_header_is_told_by_it() {
    let table = narrow_table(16);
    let fits = |frame: u8, sampling: &[u8], symbols: &[u8]| {
        check_reach(&jpeg_header(frame, sampling, 64, &table, symbols))
    };
    assert!(fits(0xC0, &[0x11], &[0, 11]));
    assert!(fits(0xC1, &[0x21, 0x11, 0x11], &[0, 11]));
    assert!(fits(0xC2, &[0x11; 3], &[0, 11]));
    assert!(!fits(0xC2, &[0x11], &[0, 11]));
    assert!(!fits(0xC0, &[0x11; 4], &[0, 11]));
    assert!(!fits(0xC0, &[0x44, 0x22, 0x11], &[0, 11]));
    assert!(!fits(0xC0, &[0x11, 0x22, 0x11], &[0, 11]));
    assert!(!fits(0xC0, &[0x11; 3], &[0, 12]));
    let whole = jpeg_header(0xC0, &[0x11; 3], 64, &table, &[0, 11]);
    assert!(check_reach(&whole));
    assert!(!check_reach(&whole[..20]));
    // A second pass over a picture adds to the first.
    let twice = |side: u16| {
        let mut bytes = jpeg_header(0xC0, &[0x11; 3], side, &narrow_table(255), &[0, 11]);
        bytes.extend([0xFF, 0xDA]);
        bytes
    };
    assert!(check_reach(&twice(300)));
    assert!(!check_reach(&twice(500)));
    assert!(check_reach(b"\x89PNG"));
    assert!(check_reach(&[0xFF, 0xD8]));
}

#[test]
fn a_finished_page_in_colour_can_be_read_again() {
    let sheet = RgbRaster {
        width: A4_WIDTH_PX,
        height: A4_HEIGHT_PX,
        pixels: vec![240; 3 * A4_WIDTH_PX as usize * A4_HEIGHT_PX as usize],
    };
    let made = page_from_image(&sheet, ColorMode::Color).expect("page").encoded();
    assert!(check_reach(&made.bytes));
    assert_eq!(decode_page(&made).expect("decoded").width, A4_WIDTH_PX);
}
