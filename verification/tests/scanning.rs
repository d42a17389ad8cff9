use image::{Rgb, RgbImage};
use skaner_dokumentow::autocapture::AutoCapture;
use skaner_dokumentow::camera::{
    friendly_stream_error, has_name_part, is_unusable, is_wanted_camera, measure_brightness, missing_camera_text,
    preferred_formats, search_step, stream_failure, CameraMode, SearchStep,
};
use skaner_dokumentow::detect::{detect_document_corners, Corner};
use skaner_dokumentow::document::{
    ColorMode, CropCorners, CropPoint, EncodedPage, PageEncoding, A4_HEIGHT_PX, A4_WIDTH_PX,
};
use skaner_dokumentow::file_actions::{after_try, TryOutcome, TryStep};
use skaner_dokumentow::jpeg_header::check_reach;
use skaner_dokumentow::pages::{open_original, page_from_image, ScannedPage};
use skaner_dokumentow::paths::DocPath;
use skaner_dokumentow::pdf_reading::extract_pdf_pages;
use skaner_dokumentow::pipeline::{
    apply_event, keep_original, page_event, poll_pipeline, reprocess_event, PipelineEvent,
};
use skaner_dokumentow::raster::RgbRaster;
use skaner_dokumentow::review::{
    capture_step, capture_submitted, editor_applied, editor_source, feeds_autocapture, film_strip,
    hub_keys, hub_save_label, overlay_is_due, page_controls, review_keys, review_save_label,
    saves_now, status_card, strip_grew, CameraNews, CameraPanel, CaptureStep, EditorSource,
    ReviewKeys, TileKind,
};
use skaner_dokumentow::saving::{prepare_save, ready_pages, SaveTargetCache, SaveTargetKey};
use skaner_dokumentow::scan::{slot_has_editable_original, PageSlot, Scan, SlotEntry};
use skaner_dokumentow::scan_flow::{
    add_restored, check_update, commit_pdf_new, constrain_editor_corner, fallback_editor_corners,
    full_frame_editor_corners, import_pages, recovered_from_decoded, resolve_save_target, restore_page, saved_text,
    stem_of_document, CommitOutcome, SaveMode,
};
use skaner_dokumentow::session::{RecoveredPage, SessionCommand};
use skaner_dokumentow::viewport::{
    decode_full_page, show_decoded, PageTextureKey, ReviewPage,
};
use skaner_dokumentow::workspace::Screen;
use std::cell::RefCell;

fn path(text: &str) -> DocPath {
    DocPath::new("", text.split('/').map(str::to_owned).collect())
}

fn text(path: &DocPath) -> String {
    path.parts.join("/")
}

fn frame(width: u32, height: u32, level: u8) -> RgbRaster {
    let image = RgbImage::from_pixel(width, height, Rgb([level, level, level]));
    RgbRaster { width, height, pixels: image.into_raw() }
}

fn page(mode: ColorMode) -> ScannedPage {
    page_from_image(&frame(80, 120, 240), mode).expect("page")
}

fn corners(inset: f32) -> CropCorners {
    let point = |x: f32, y: f32| CropPoint::new(x.to_bits(), y.to_bits());
    CropCorners {
        top_left: point(inset, inset),
        top_right: point(1.0 - inset, inset),
        bottom_right: point(1.0 - inset, 1.0 - inset),
        bottom_left: point(inset, 1.0 - inset),
    }
}

/// A scan with pages that were photographed and made.
fn scan_of(pages: usize) -> Scan {
    let mut scan = Scan::new(1);
    for _ in 0..pages {
        let id = scan.note_captured();
        let event = page_event(id, b"foto".to_vec(), corners(0.1), Ok(page(ColorMode::Color)));
        let outcome = apply_event(&mut scan, event);
        assert!(matches!(outcome.command, Some(SessionCommand::WritePage { .. })));
    }
    scan
}

fn white_document_frame(width: u32, height: u32) -> RgbRaster {
    let mut image = RgbImage::from_pixel(width, height, Rgb([25, 25, 25]));
    let margin_x = width / 5;
    let margin_y = height / 5;
    for y in margin_y..height - margin_y {
        for x in margin_x..width - margin_x {
            image.put_pixel(x, y, Rgb([245, 245, 245]));
        }
    }
    RgbRaster { width, height, pixels: image.into_raw() }
}

#[test]
fn processes_pages_in_submit_order_with_caller_ids() {
    let made = |id: u64, width: u32, height: u32| {
        let photograph = white_document_frame(width, height);
        let found = detect_document_corners(&photograph);
        let point = |corner: Corner| {
            let (x, y) = (corner.x as f32 / found.columns as f32, corner.y as f32 / found.rows as f32);
            CropPoint::new(x.to_bits(), y.to_bits())
        };
        let corners = CropCorners {
            top_left: point(found.top_left),
            top_right: point(found.top_right),
            bottom_right: point(found.bottom_right),
            bottom_left: point(found.bottom_left),
        };
        let page = page_from_image(&frame(A4_WIDTH_PX, A4_HEIGHT_PX, 245), ColorMode::BlackWhite);
        page_event(id, keep_original(&photograph), corners, page)
    };
    let mut scan = Scan::new(7);
    assert_eq!([scan.note_captured(), scan.note_captured(), scan.note_captured()], [7, 8, 9]);
    let events = vec![made(7, 400, 300), made(9, 300, 400)];
    let ids: Vec<u64> = events
        .iter()
        .map(|event| match event {
            PipelineEvent::PageReady { id, .. } => *id,
            other => panic!("nieoczekiwany błąd przetwarzania: {other:?}"),
        })
        .collect();
    assert_eq!(ids, vec![7, 9]);
    for event in events {
        match &event {
            PipelineEvent::PageReady { page, original_jpeg, corners, .. } => {
                assert_eq!((page.width, page.height), (A4_WIDTH_PX, A4_HEIGHT_PX));
                assert!(original_jpeg.starts_with(&[0xFF, 0xD8]), "oryginał nie jest JPEG");
                let all =
                    [corners.top_left, corners.top_right, corners.bottom_right, corners.bottom_left];
                for corner in all {
                    assert!((0.0..=1.0).contains(&f32::from_bits(corner.x)));
                    assert!((0.0..=1.0).contains(&f32::from_bits(corner.y)));
                }
            }
            other => panic!("nieoczekiwany błąd przetwarzania: {other:?}"),
        }
        apply_event(&mut scan, event);
    }
    assert_eq!(scan.ids(), vec![7, 8, 9]);
    assert_eq!(scan.pending_jobs, 1);
    assert!(!scan.can_save());
    apply_event(&mut scan, made(8, 400, 300));
    assert!(scan.can_save());
}

#[test]
fn the_original_is_kept_as_a_jpeg_or_not_at_all() {
    assert!(keep_original(&frame(20, 10, 200)).starts_with(&[0xFF, 0xD8]));
    assert!(keep_original(&frame(65_536, 1, 200)).is_empty());
}

#[test]
fn a_failed_page_can_be_cropped_anew() {
    let mut scan = Scan::new(1);
    let id = scan.note_captured();
    let failed = page_event(id, b"foto".to_vec(), corners(0.1), Err("zły kadr".to_owned()));
    apply_event(&mut scan, failed);
    assert!(!scan.can_save());
    assert!(slot_has_editable_original(&scan.slots[0].slot));
    let card = status_card(&scan.slots[0].slot).expect("card");
    assert_eq!((card.title.as_str(), card.detail.as_str()), ("Nie udało się przygotować strony", "zły kadr"));
    assert!(card.failed);
    let EditorSource::Photograph(bytes, start) = editor_source(&scan, 0) else { panic!("no source") };
    assert_eq!(bytes, b"foto");
    assert_eq!(start, fallback_editor_corners());
    assert_eq!(editor_applied(&mut scan, 0, true), None);
    assert_eq!(scan.pending_jobs, 1);
    assert!(matches!(scan.slots[0].slot, PageSlot::Reprocessing { .. }));
    apply_event(&mut scan, reprocess_event(id, corners(0.2), Ok(page(ColorMode::Color))));
    assert!(scan.can_save());
    let PageSlot::Ready(data) = &scan.slots[0].slot else { panic!("not ready") };
    assert_eq!(data.corners, corners(0.2));
    assert_eq!(data.original_jpeg, b"foto");
}

#[test]
fn a_crop_that_fails_leaves_the_page_as_it_was() {
    let mut scan = scan_of(1);
    let id = scan.slots[0].id;
    assert_eq!(editor_applied(&mut scan, 0, true), None);
    let outcome =
        apply_event(&mut scan, reprocess_event(id, corners(0.3), Err("brak".to_owned())));
    assert_eq!(
        outcome.message.unwrap(),
        "Nie udało się zastosować kadru. Zachowano poprzednią wersję strony: brak"
    );
    let PageSlot::Ready(data) = &scan.slots[0].slot else { panic!("not ready") };
    assert_eq!(data.corners, corners(0.1));
    assert_eq!(
        editor_applied(&mut scan, 0, false).unwrap(),
        "Kolejka przetwarzania jest pełna. Spróbuj ponownie."
    );
    assert_eq!(editor_applied(&mut scan, 5, false), None);
}

#[test]
fn a_dead_worker_loses_no_page() {
    let mut scan = scan_of(2);
    scan.note_captured();
    editor_applied(&mut scan, 0, true);
    assert_eq!(scan.pending_jobs, 2);
    let (outcomes, message) = poll_pipeline(&mut scan, Vec::new(), true);
    assert!(outcomes.is_empty());
    assert!(message.is_some());
    assert_eq!(scan.slots.len(), 3);
    assert_eq!(scan.pending_jobs, 0);
    assert!(matches!(scan.slots[0].slot, PageSlot::Ready(_)));
    assert!(matches!(scan.slots[2].slot, PageSlot::Failed { .. }));
    let (_, message) = poll_pipeline(&mut scan, Vec::new(), false);
    assert!(message.is_none());
}

#[test]
fn a_late_report_changes_no_page() {
    let mut scan = scan_of(1);
    let stray = page_event(99, Vec::new(), corners(0.4), Ok(page(ColorMode::Color)));
    apply_event(&mut scan, stray);
    assert_eq!(scan.slots.len(), 1);
    let PageSlot::Ready(data) = &scan.slots[0].slot else { panic!("not ready") };
    assert_eq!(data.corners, corners(0.1));
}

#[test]
fn pages_turn_move_and_go() {
    let mut scan = scan_of(3);
    scan.selected_slot = Some(0);
    assert!(matches!(
        scan.rotate_selected_page(),
        Some(SessionCommand::WritePage { id: 1, quarter_turns: 1, .. })
    ));
    let Some(SessionCommand::SetOrder { ids }) = scan.move_selected_page(true) else {
        panic!("no order")
    };
    assert_eq!(ids, vec![2, 1, 3]);
    assert_eq!(scan.selected_id(), Some(1));
    assert!(scan.delete_page_by_id(9).is_none());
    let commands = scan.delete_page_by_id(1).expect("deleted");
    assert!(matches!(commands[0], SessionCommand::RemovePage { id: 1 }));
    assert_eq!(scan.ids(), vec![2, 3]);
}

#[test]
fn four_turns_make_none() {
    let mut scan = scan_of(1);
    scan.selected_slot = Some(0);
    for turns in [1u8, 2, 3, 0] {
        assert!(matches!(
            scan.rotate_selected_page(),
            Some(SessionCommand::WritePage { quarter_turns, .. }) if quarter_turns == turns
        ));
    }
}

#[test]
fn the_strip_and_the_controls_show_the_pages() {
    let mut scan = scan_of(2);
    scan.note_captured();
    scan.selected_slot = Some(1);
    let tiles = film_strip(&scan);
    assert_eq!(tiles.len(), 3);
    assert_eq!(tiles[0].kind, TileKind::Picture);
    assert_eq!(tiles[2].kind, TileKind::Busy);
    assert!(tiles[1].selected && !tiles[0].selected);
    assert!(strip_grew(3, 2) && !strip_grew(3, 3));
    let controls = page_controls(&mut scan);
    assert!(controls.selected && controls.can_left && controls.can_right);
    assert!(controls.rotatable && controls.editable);
    let keys = ReviewKeys { left: false, right: true, escape: false, typing: false };
    assert!(!review_keys(&mut scan, keys));
    assert_eq!(scan.selected_slot, Some(2));
    let keys = ReviewKeys { left: false, right: true, escape: true, typing: false };
    assert!(review_keys(&mut scan, keys));
    assert_eq!(scan.selected_slot, Some(2));
    let controls = page_controls(&mut scan);
    assert!(!controls.can_right && !controls.rotatable && !controls.editable);
}

#[test]
fn labels_tell_how_many_pages_are_awaited() {
    assert_eq!(hub_save_label(0), "Przejrzyj i zapisz (Enter)");
    assert_eq!(hub_save_label(3), "Przetwarzanie 3 stron…");
    assert_eq!(review_save_label(0), "Zapisz PDF (Enter)");
    assert_eq!(review_save_label(3), "Przetwarzanie 3…");
}

#[test]
fn keys_count_only_where_nothing_else_has_them() {
    let keys = hub_keys(Screen::ScanHub, false, true, true, true, true);
    assert!(keys.take_page && keys.review);
    let keys = hub_keys(Screen::Library, false, true, true, true, true);
    assert!(!keys.take_page && !keys.review);
    assert!(saves_now(true, true, false, true, false, false, true));
    assert!(!saves_now(true, true, false, true, true, false, true));
    assert!(saves_now(true, true, true, false, true, false, false));
    assert!(!saves_now(true, false, true, false, false, false, false));
    assert!(!saves_now(false, true, true, true, false, true, true));
}

#[test]
fn the_camera_says_how_it_is() {
    let mut panel = CameraPanel::connecting();
    assert!(!panel.ready && !panel.failed && !panel.has_preview);
    let ready =
        CameraNews::Ready { device_name: "IRIScan".to_owned(), width: 4160, height: 3120 };
    panel.take_news(ready, true);
    assert!(panel.ready);
    assert_eq!(panel.status, "IRIScan · 4160 × 3120 px");
    panel.take_news(CameraNews::Preview, true);
    assert!(panel.has_preview);
    panel.take_news(CameraNews::Broken { error: "kabel".to_owned() }, true);
    assert!(panel.failed && !panel.ready);
    assert_eq!(panel.status, "kabel");
    assert!(overlay_is_due(None) && overlay_is_due(Some(300)) && !overlay_is_due(Some(299)));
    assert!(feeds_autocapture(true, false, false));
    assert!(!feeds_autocapture(true, true, false) && !feeds_autocapture(true, false, true));
}

#[test]
fn a_page_is_taken_where_there_is_a_picture_and_room() {
    assert!(matches!(capture_step(true, true, true, true), CaptureStep::Submit));
    assert!(matches!(capture_step(false, true, false, true), CaptureStep::Refuse));
    assert!(matches!(capture_step(true, true, true, false), CaptureStep::Refuse));
    let CaptureStep::RefuseSaying(words) = capture_step(true, false, true, true) else {
        panic!("not told")
    };
    assert_eq!(words, "Poczekaj, aż pojawi się obraz z kamery.");
    let mut scan = Scan::new(1);
    let mut capture = AutoCapture::new();
    assert_eq!(
        capture_submitted(&mut scan, &mut capture, false, true).unwrap(),
        "Poczekaj — przetwarzanie poprzednich stron…"
    );
    assert!(scan.slots.is_empty());
    assert_eq!(capture_submitted(&mut scan, &mut capture, true, true), None);
    assert_eq!(scan.slots.len(), 1);
}

#[test]
fn a_saved_document_reads_back_page_for_page() {
    let mut scan = Scan::new(1);
    let sheet = || page_from_image(&frame(A4_WIDTH_PX, A4_HEIGHT_PX, 240), ColorMode::Color).unwrap();
    import_pages(&mut scan, vec![(sheet(), 0), (sheet(), 0)]);
    scan.selected_slot = Some(1);
    scan.rotate_selected_page();
    let (plan, bytes) =
        prepare_save(&scan, &Some(path("Akta")), "Umowa.pdf", &|_: &DocPath| false).expect("save");
    assert_eq!(text(&plan.path), "Akta/Umowa.pdf");
    assert_eq!(plan.mode, SaveMode::New);
    let read = extract_pdf_pages(&bytes).expect("read");
    let held = ready_pages(&scan).expect("ready");
    assert_eq!(read.len(), 2);
    for (left, right) in read.iter().zip(&held) {
        assert_eq!(left.0.bytes, right.0.bytes);
        assert_eq!(left.1, right.1);
    }
    assert_eq!(read[1].1, 1);
}

#[test]
fn each_reason_against_saving_is_told() {
    let mut scan = scan_of(1);
    let none = |_: &DocPath| false;
    assert_eq!(
        prepare_save(&scan, &None, "Umowa", &none).unwrap_err(),
        "Najpierw wybierz folder docelowy."
    );
    assert_eq!(
        prepare_save(&scan, &Some(path("Akta")), "", &none).unwrap_err(),
        "Nazwa pliku nie może być pusta."
    );
    assert_eq!(
        prepare_save(&Scan::new(1), &Some(path("Akta")), "a", &none).unwrap_err(),
        "Dokument nie zawiera żadnych stron."
    );
    scan.note_captured();
    assert_eq!(
        prepare_save(&scan, &Some(path("Akta")), "a", &none).unwrap_err(),
        "Usuń strony z błędem (⚠) przed zapisem."
    );
}

#[test]
fn an_edited_document_is_updated_only_under_its_name() {
    let editing = Some(path("Akta/Umowa.pdf"));
    let folder = Some(path("Akta"));
    let taken = |place: &DocPath| text(place) == "Akta/Umowa.pdf";
    let plan = resolve_save_target(&folder, "UMOWA", &editing, &taken).unwrap();
    assert_eq!((text(&plan.path).as_str(), plan.mode), ("Akta/Umowa.pdf", SaveMode::Update));
    let plan = resolve_save_target(&folder, "Aneks", &editing, &taken).unwrap();
    assert_eq!((text(&plan.path).as_str(), plan.mode), ("Akta/Aneks.pdf", SaveMode::Copy));
    let plan = resolve_save_target(&folder, "Umowa", &None, &taken).unwrap();
    assert_eq!((text(&plan.path).as_str(), plan.mode), ("Akta/Umowa (2).pdf", SaveMode::New));
    assert_eq!(stem_of_document(&path("Akta/Umowa.pdf")), "Umowa");
    assert_eq!(saved_text(SaveMode::Copy, "Aneks.pdf"), "Zapisano kopię: Aneks.pdf");
}

#[test]
fn a_new_document_never_replaces_another() {
    let taken = RefCell::new(vec!["Akta/a.pdf".to_owned()]);
    let exists = |place: &DocPath| taken.borrow().contains(&text(place));
    let commit = |place: &DocPath| {
        if taken.borrow().contains(&text(place)) {
            return CommitOutcome::Taken;
        }
        taken.borrow_mut().push(text(place));
        CommitOutcome::Done
    };
    let place =
        commit_pdf_new(&path("Akta"), "a", path("Akta/a.pdf"), &exists, &commit).expect("saved");
    assert_eq!(text(&place), "Akta/a (2).pdf");
    let broken = |_: &DocPath| CommitOutcome::Failed { error: "dysk".to_owned() };
    assert_eq!(
        commit_pdf_new(&path("Akta"), "b", path("Akta/b.pdf"), &exists, &broken).unwrap_err(),
        "Nie można ukończyć zapisu pliku PDF: dysk"
    );
}

#[test]
fn a_changed_source_is_not_overwritten() {
    assert_eq!(check_update(Some(5), 5), Ok(5));
    assert_eq!(check_update(None, 5).unwrap_err(), "Brak odcisku pliku źródłowego.");
    assert!(check_update(Some(4), 5).unwrap_err().starts_with("Plik źródłowy zmienił się"));
}

#[test]
fn a_save_target_is_remembered_for_the_same_wish() {
    let key = |name: &str, revision: u64| SaveTargetKey {
        filename: name.to_owned(),
        folder: Some(path("Akta")),
        editing_target: None,
        library_revision: revision,
    };
    let mut cache = SaveTargetCache::empty();
    assert!(cache.lookup(&key("a", 1)).is_none());
    let planned = resolve_save_target(&Some(path("Akta")), "a", &None, &|_: &DocPath| false);
    cache.store(key("a", 1), &planned);
    let found = cache.lookup(&key("a", 1)).expect("found").expect("plan");
    assert_eq!(text(&found.path), "Akta/a.pdf");
    assert!(cache.lookup(&key("b", 1)).is_none());
    assert!(cache.lookup(&key("a", 2)).is_none());
}

#[test]
fn imported_pages_follow_each_other() {
    let mut scan = Scan::new(4);
    let commands = import_pages(
        &mut scan,
        vec![(page(ColorMode::Color), 1), (page(ColorMode::BlackWhite), 0)],
    );
    assert_eq!(scan.ids(), vec![4, 5]);
    assert_eq!(scan.next_page_id, 6);
    assert_eq!(commands.len(), 2);
    assert!(matches!(commands[0], SessionCommand::WritePage { id: 4, quarter_turns: 1, .. }));
}

fn recovered(page: Option<EncodedPage>, original: Option<Vec<u8>>) -> RecoveredPage {
    RecoveredPage { id: 3, page, original_jpeg: original, corners: None, quarter_turns: 2 }
}

#[test]
fn a_recovered_page_is_shown_or_its_original_kept() {
    let encoded = page(ColorMode::BlackWhite).encoded();
    let mut scan = Scan::new(1);
    let entry = restore_page(recovered(Some(encoded), None));
    assert!(matches!(&entry.slot, PageSlot::Ready(data) if data.quarter_turns == 2
        && data.corners == full_frame_editor_corners()));
    add_restored(&mut scan, entry);
    let entry = restore_page(recovered(None, Some(b"foto".to_vec())));
    assert!(matches!(&entry.slot, PageSlot::Failed { original_jpeg, .. } if original_jpeg == b"foto"));
    add_restored(&mut scan, entry);
    assert_eq!(scan.slots.len(), 2);
    assert!(scan.next_page_id > 3);
}

#[test]
fn a_page_of_unknown_size_takes_that_of_its_picture() {
    let mut encoded = page(ColorMode::Color).encoded();
    encoded.width = 0;
    encoded.height = 0;
    let made = recovered_from_decoded(encoded, Ok(frame(80, 120, 240))).expect("page");
    assert_eq!((made.width, made.height), (80, 120));
}

#[test]
fn the_review_shows_the_page_that_was_asked_for() {
    let key = |id: u64| PageTextureKey { id, revision: 1, quarter_turns: 0 };
    let mut shown = ReviewPage::default();
    assert!(shown.ensure_page(key(1), 80, 120));
    assert!(!shown.ensure_page(key(1), 80, 120));
    assert!(shown.says_loading());
    shown.take_decoded(key(2), Ok((5, 5)));
    assert!(!shown.loaded);
    shown.take_decoded(key(1), Ok((80, 120)));
    assert!(shown.loaded);
    assert!(shown.ensure_page(key(2), 80, 120));
    shown.take_decoded(key(2), Err("zły plik".to_owned()));
    assert!(!shown.loaded);
    assert_eq!(shown.missing_text(), "zły plik");
    shown.invalidate();
    assert!(shown.key.is_none());
}

#[test]
fn a_page_is_shown_turned() {
    let page = page(ColorMode::BlackWhite).encoded();
    let key = PageTextureKey { id: 1, revision: 1, quarter_turns: 1 };
    let shown = decode_full_page(&page, key).expect("shown");
    assert_eq!((shown.width, shown.height), (120, 80));
    let broken =
        EncodedPage { bytes: vec![0, 1, 2], encoding: PageEncoding::G4, width: 64, height: 64 };
    let error = decode_full_page(&broken, key).unwrap_err();
    assert!(error.starts_with("Nie można otworzyć pełnego podglądu: "), "{error}");
    let error = show_decoded(Err("zepsuta".to_owned()), 0).unwrap_err();
    assert_eq!(error, "Nie można otworzyć pełnego podglądu: zepsuta");
    let picture = RgbRaster { width: 2, height: 1, pixels: vec![1, 2, 3, 4, 5, 6] };
    let shown = show_decoded(Ok(picture), 1).expect("shown");
    assert_eq!((shown.width, shown.height), (1, 2));
    assert_eq!(shown.pixels, vec![1, 2, 3, 4, 5, 6]);
}

fn mode(width: u32, height: u32, mjpeg: bool, frame_rate: u32) -> CameraMode {
    CameraMode { width, height, mjpeg, frame_rate }
}

#[test]
fn the_camera_is_tried_in_few_distinct_modes() {
    let modes = vec![
        mode(640, 480, true, 30),
        mode(4160, 3120, true, 10),
        mode(4160, 3120, false, 2),
        mode(1920, 1080, true, 30),
        mode(2592, 1944, true, 15),
        mode(3264, 2448, true, 15),
    ];
    let preferred = preferred_formats(&modes);
    assert!(!preferred.is_empty() && preferred.len() <= modes.len());
    for (place, left) in preferred.iter().enumerate() {
        for right in &preferred[place + 1..] {
            assert!(left.width != right.width || left.height != right.height);
        }
    }
}

#[test]
fn the_camera_is_told_by_its_name() {
    assert!(is_wanted_camera("IRIScan Visualizer 7"));
    assert!(is_wanted_camera("USB VISUALIZER 7 Cam"));
    assert!(!is_wanted_camera("Integrated Webcam"));
    assert_eq!(search_step(0, true, true), SearchStep::Open);
    assert_eq!(search_step(0, false, true), SearchStep::Stop);
    assert_eq!(search_step(6, false, false), SearchStep::Wait);
    assert_eq!(search_step(7, false, false), SearchStep::GiveUp);
    assert_eq!(
        missing_camera_text(&vec!["A".to_owned(), "B".to_owned()]),
        "Nie znaleziono IRIScan Visualizer 7. Dostępne kamery: A, B"
    );
    assert_eq!(
        missing_camera_text(&Vec::new()),
        "Nie znaleziono żadnej kamery. Podłącz IRIScan Visualizer 7."
    );
    assert!(friendly_stream_error("kod 0xC00D3704").starts_with("IRIScan jest używany"));
    assert_eq!(
        stream_failure(&vec!["a".to_owned(), "b".to_owned()]),
        "Nie udało się uruchomić obrazu z IRIScan Visualizer 7: b"
    );
    assert_eq!(
        stream_failure(&Vec::new()),
        "Nie udało się uruchomić obrazu z IRIScan Visualizer 7."
    );
    assert!(is_unusable(false, 0) && is_unusable(true, 5) && !is_unusable(true, 4));
}

#[test]
fn only_bright_pixels_of_the_middle_are_measured() {
    let bright = measure_brightness(&frame(90, 90, 200));
    assert!(bright.count > 0);
    assert_eq!(bright.red, 200 * bright.count);
    assert_eq!(bright.blue, 200 * bright.count);
    assert_eq!(measure_brightness(&frame(90, 90, 20)).count, 0);
}

#[test]
fn a_corner_stays_in_its_quarter() {
    let point = |x: f32, y: f32| CropPoint::new(x.to_bits(), y.to_bits());
    let share = |point: CropPoint| (f32::from_bits(point.x), f32::from_bits(point.y));
    let held = |index: usize, x: f32, y: f32| share(constrain_editor_corner(index, point(x, y)));
    assert_eq!(held(0, 0.9, 0.2), (0.49, 0.2));
    assert_eq!(held(1, 0.2, 0.9), (0.51, 0.49));
    assert_eq!(held(2, 0.2, 0.2), (0.51, 0.51));
    assert_eq!(held(3, 1.0, 0.0), (0.49, 0.51));
    assert_eq!(held(3, 0.0, 1.0), (0.0, 1.0));
    assert_eq!(held(4, 0.9, 0.9), (0.9, 0.9));
}

#[test]
fn a_page_goes_to_the_slot_that_waits_for_it() {
    let mut scan = scan_of(1);
    let id = scan.slots[0].id;
    scan.slots.push(SlotEntry { id, revision: 0, slot: PageSlot::Processing });
    scan.pending_jobs = 1;
    let event = page_event(id, b"drugie".to_vec(), corners(0.3), Ok(page(ColorMode::BlackWhite)));
    assert!(apply_event(&mut scan, event).command.is_some());
    let PageSlot::Ready(first) = &scan.slots[0].slot else { panic!("not ready") };
    let PageSlot::Ready(second) = &scan.slots[1].slot else { panic!("not ready") };
    assert_eq!((first.original_jpeg.as_slice(), second.original_jpeg.as_slice()), (&b"foto"[..], &b"drugie"[..]));
    let late = page_event(id, Vec::new(), corners(0.3), Ok(page(ColorMode::Color)));
    assert!(apply_event(&mut scan, late).command.is_none());
}

#[test]
fn a_page_keeps_its_thumbnail_through_a_crop_that_fails_and_a_turn() {
    let mut scan = scan_of(1);
    let id = scan.slots[0].id;
    let PageSlot::Ready(data) = &scan.slots[0].slot else { panic!("not ready") };
    let shown = data.page.review_image.pixels.clone();
    scan.start_reprocess(0);
    apply_event(&mut scan, reprocess_event(id, corners(0.2), Err("zły kadr".to_owned())));
    scan.selected_slot = Some(0);
    scan.rotate_selected_page();
    let PageSlot::Ready(data) = &scan.slots[0].slot else { panic!("not ready") };
    assert_eq!(data.page.review_image.pixels, shown);
}

#[test]
fn a_new_document_is_written_once_and_at_the_planned_place() {
    let written = RefCell::new(Vec::new());
    let commit = |place: &DocPath| {
        written.borrow_mut().push(text(place));
        CommitOutcome::Done
    };
    let exists = |_: &DocPath| false;
    let saved = commit_pdf_new(&path("Akta"), "a", path("Akta/a.pdf"), &exists, &commit);
    assert_eq!(text(&saved.unwrap()), "Akta/a.pdf");
    assert_eq!(*written.borrow(), ["Akta/a.pdf"]);
}

#[test]
fn a_camera_is_told_by_a_part_of_its_name() {
    assert!(has_name_part("IRIScan Visualizer 7", "iriscan"));
    assert!(!has_name_part("IRIScan Visualizer 7", "IRIScan"));
    assert!(!has_name_part("Kamera", "iriscan"));
}

#[test]
fn a_taken_name_is_followed_by_the_next_a_hundred_times() {
    assert_eq!(after_try(0, TryOutcome::Taken), TryStep::TryNext);
    assert_eq!(after_try(98, TryOutcome::Taken), TryStep::TryNext);
    assert_eq!(after_try(99, TryOutcome::Taken), TryStep::GiveUp);
    assert_eq!(after_try(99, TryOutcome::Done), TryStep::Finish);
    assert_eq!(after_try(0, TryOutcome::Failed), TryStep::Fail);
    let tries = RefCell::new(0);
    let taken = |_: &DocPath| {
        *tries.borrow_mut() += 1;
        CommitOutcome::Taken
    };
    let exists = |_: &DocPath| false;
    let refused = commit_pdf_new(&path("Akta"), "a", path("Akta/a.pdf"), &exists, &taken);
    assert_eq!(refused.unwrap_err(), "Nie można utworzyć unikalnej nazwy pliku.");
    assert_eq!(*tries.borrow(), 100);
}

#[test]
fn photographs_of_the_largest_camera_can_be_opened_again() {
    let kept = keep_original(&frame(4_160, 3_120, 200));
    assert!(check_reach(&kept));
    let small = keep_original(&white_document_frame(400, 300));
    let opened = open_original(&small).expect("opened");
    assert_eq!((opened.width, opened.height), (400, 300));
}
