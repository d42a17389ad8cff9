use skaner_dokumentow::formatting::{
    ellipsize, format_fine_megabytes, format_megabytes, format_relative_time_at, format_size,
};
use skaner_dokumentow::library::{LibrarySnapshot, SortMode};
use skaner_dokumentow::library_screen::{begin_view, folder_matches, selected_label, LibraryKeys};
use skaner_dokumentow::library_view::{
    scan_destination, visible_documents_for_key, LibrarySection, LibraryViewInput,
    LibraryViewState, VisibleCacheKey,
};
use skaner_dokumentow::paths::DocPath;
use skaner_dokumentow::storage::{FolderInfo, PdfInfo};

fn path(text: &str) -> DocPath {
    DocPath::new("", text.split('/').map(str::to_owned).collect())
}

fn pdf(name: &str, folder: &DocPath, modified_secs: u64) -> PdfInfo {
    PdfInfo {
        name: name.to_owned(),
        path: folder.join(name),
        folder_name: folder.file_name().unwrap_or_default(),
        folder_path: folder.copy(),
        size_bytes: 100,
        modified_secs,
    }
}

fn folder(name: &str, place: &DocPath) -> FolderInfo {
    FolderInfo { name: name.to_owned(), path: place.copy(), pdf_count: 0, modified_secs: 0 }
}

#[test]
fn formats_document_sizes_for_office_lists() {
    assert_eq!(format_size(999), "999 B");
    assert_eq!(format_size(2 * 1024), "2 KB");
    assert_eq!(format_size(5 * 1024 * 1024), "5.0 MB");
}

#[test]
fn formats_relative_time_without_clock_dependency() {
    assert_eq!(format_relative_time_at(1_000, 1_010), "przed chwilą");
    assert_eq!(format_relative_time_at(1_000, 1_120), "2 min temu");
    assert_eq!(format_relative_time_at(0, 1_120), "—");
    assert_eq!(format_relative_time_at(1_000, 87_400), "1 dzień temu");
}

#[test]
fn sidebar_labels_are_shortened_without_breaking_unicode() {
    assert_eq!(ellipsize("Dokumenty", 12), "Dokumenty");
    assert_eq!(ellipsize("Zażółć gęślą jaźń", 10), "Zażółć gę…");
}

#[test]
fn sizes_are_shown_as_standard_formatting_rounds_them() {
    for bytes in [
        0u64,
        1,
        1023,
        1024,
        1536,
        2560,
        1_048_575,
        1_048_576,
        1_101_004,
        1_153_433,
        1_258_291,
        52_428_800,
        1_073_741_823,
        1_073_741_824,
        5_905_580_032,
        u64::MAX / 3,
        u64::MAX,
    ] {
        let value = bytes as f64;
        let expected = if value >= 1_073_741_824.0 {
            format!("{:.1} GB", value / 1_073_741_824.0)
        } else if value >= 1_048_576.0 {
            format!("{:.1} MB", value / 1_048_576.0)
        } else if value >= 1024.0 {
            format!("{:.0} KB", value / 1024.0)
        } else {
            format!("{bytes} B")
        };
        assert_eq!(format_size(bytes), expected);
        assert_eq!(format_megabytes(bytes), format!("{:.1}", value / 1_048_576.0));
        assert_eq!(format_fine_megabytes(bytes), format!("{:.2}", value / 1_048_576.0));
    }
}

#[test]
fn home_is_newest_while_recent_preserves_open_order() {
    let folder = path("Akta");
    let old = pdf("A01.pdf", &folder, 10);
    let new = pdf("A02.pdf", &folder, 20);
    let snapshot = LibrarySnapshot {
        root: path("library"),
        folders: Vec::new(),
        pdfs: vec![old.clone(), new.clone()],
    };
    let mut key = VisibleCacheKey {
        snapshot_revision: 1,
        query: String::new(),
        sort: SortMode::Name,
        section: LibrarySection::Home,
        folder_scope: None,
        recent_documents: vec![old.path.copy()],
    };

    let home = visible_documents_for_key(&snapshot, &key);
    assert!(home[0].path.same(&new.path));
    key.section = LibrarySection::Recent;
    let recent = visible_documents_for_key(&snapshot, &key);
    assert_eq!(recent.len(), 1);
    assert!(recent[0].path.same(&old.path));
}

#[test]
fn search_inside_a_folder_stays_scoped_to_that_folder() {
    let folder_a = path("library").join("Klient A");
    let folder_b = path("library").join("Klient B");
    let ours = pdf("A01.pdf", &folder_a, 10);
    let theirs = pdf("A01.pdf", &folder_b, 20);
    let snapshot = LibrarySnapshot {
        root: path("library"),
        folders: Vec::new(),
        pdfs: vec![ours.clone(), theirs.clone()],
    };
    let mut key = VisibleCacheKey {
        snapshot_revision: 1,
        query: "A01".to_owned(),
        sort: SortMode::Name,
        section: LibrarySection::All,
        folder_scope: Some(folder_a.copy()),
        recent_documents: Vec::new(),
    };

    let scoped = visible_documents_for_key(&snapshot, &key);
    assert_eq!(scoped.len(), 1);
    assert!(scoped[0].path.same(&ours.path));

    key.folder_scope = None;
    let global = visible_documents_for_key(&snapshot, &key);
    assert_eq!(global.len(), 2);
}

#[test]
fn preferred_scan_folder_is_used_outside_folder_view() {
    let folder_path = path("library").join("Akta");
    let snapshot = LibrarySnapshot {
        root: path("library"),
        folders: vec![folder("Akta", &folder_path)],
        pdfs: Vec::new(),
    };
    let input = LibraryViewInput {
        snapshot: &snapshot,
        snapshot_revision: 1,
        recent_documents: &Vec::new(),
        selected_folder: &None,
        preferred_scan_folder: &Some(folder_path.copy()),
        library_root: &snapshot.root,
        loading: false,
        keyboard_enabled: true,
    };

    assert!(scan_destination(input).unwrap().same(&folder_path));
}

#[test]
fn library_root_scope_never_becomes_a_new_scan_destination() {
    let root = path("library");
    let preferred = root.join("Akta");
    let snapshot = LibrarySnapshot {
        root: root.copy(),
        folders: vec![folder("Akta", &preferred)],
        pdfs: Vec::new(),
    };
    let input = LibraryViewInput {
        snapshot: &snapshot,
        snapshot_revision: 1,
        recent_documents: &Vec::new(),
        selected_folder: &Some(root.copy()),
        preferred_scan_folder: &Some(preferred.copy()),
        library_root: &root,
        loading: false,
        keyboard_enabled: true,
    };

    assert!(scan_destination(input).unwrap().same(&preferred));
}

#[test]
fn invalid_selected_folder_never_falls_back_to_a_different_folder() {
    let root = path("library");
    let existing = root.join("Stary");
    let selected = root.join("Nowy");
    let snapshot = LibrarySnapshot {
        root: root.copy(),
        folders: vec![folder("Stary", &existing)],
        pdfs: Vec::new(),
    };
    let input = LibraryViewInput {
        snapshot: &snapshot,
        snapshot_revision: 1,
        recent_documents: &Vec::new(),
        selected_folder: &Some(selected),
        preferred_scan_folder: &None,
        library_root: &root,
        loading: true,
        keyboard_enabled: true,
    };

    assert!(scan_destination(input).is_none());
}

#[test]
fn visible_select_all_keeps_hidden_selection() {
    let folder = path("Akta");
    let visible = vec![pdf("A01.pdf", &folder, 10), pdf("A02.pdf", &folder, 20)];
    let hidden = folder.join("Ukryty.pdf");
    let mut state = LibraryViewState::default();
    state.selected.insert(hidden.copy());

    state.set_visible_selection(&visible, true);
    assert_eq!(state.selected.len(), 3);
    assert!(state.selected.contains(&hidden));

    state.set_visible_selection(&visible, false);
    assert_eq!(state.selected.len(), 1);
    assert!(state.selected.contains(&hidden));
    assert!(state.anchor.is_none());
}

#[test]
fn what_is_gone_is_selected_no_more() {
    let folder = path("Akta");
    let kept = pdf("A01.pdf", &folder, 10);
    let snapshot = LibrarySnapshot {
        root: path("library"),
        folders: Vec::new(),
        pdfs: vec![kept.clone()],
    };
    let mut state = LibraryViewState::default();
    state.selected.insert(kept.path.copy());
    state.selected.insert(folder.join("gone.pdf"));
    state.anchor = Some(folder.join("gone.pdf"));
    let input = LibraryViewInput {
        snapshot: &snapshot,
        snapshot_revision: 1,
        recent_documents: &Vec::new(),
        selected_folder: &None,
        preferred_scan_folder: &None,
        library_root: &snapshot.root,
        loading: false,
        keyboard_enabled: true,
    };
    begin_view(&mut state, input);
    assert_eq!(state.selected.len(), 1);
    assert!(state.selected.contains(&kept.path));
    assert!(state.anchor.is_none());
    assert_eq!(state.visible_documents.len(), 1);
}

#[test]
fn folders_are_found_by_words_without_diacritics() {
    assert!(folder_matches("Żółte Akta", "akta zolte"));
    assert!(folder_matches("Żółte Akta", ""));
    assert!(!folder_matches("Żółte Akta", "czerwone"));
}

#[test]
fn the_selection_tells_what_is_hidden() {
    let folder = path("Akta");
    let shown = vec![pdf("A01.pdf", &folder, 10)];
    let label = selected_label(&vec![shown[0].path.copy(), folder.join("B.pdf")], &shown);
    assert!(label.contains('2'), "{label}");
    assert!(label.contains('1'), "{label}");
}

#[test]
fn keys_and_choices_keep_the_documents_that_were_looked_up() {
    let folder = path("Akta");
    let documents = vec![pdf("A01.pdf", &folder, 10)];
    let mut state = LibraryViewState::default();
    state.selection_revision = 4;
    state.visible_documents = documents.clone();
    let none = LibraryKeys {
        find: false,
        select_all: false,
        escape: false,
        enter: false,
        rename: false,
        delete: false,
    };
    state.handle_keyboard(true, false, LibraryKeys { select_all: true, ..none }, &documents);
    assert_eq!(state.selected.len(), 1);
    state.choose_section(LibrarySection::Recent);
    state.choose_folder(&folder);
    assert_eq!(state.selected.len(), 0);
    assert_eq!((state.selection_revision, state.visible_documents.len()), (4, 1));
    assert!(state.visible_cache_key.is_none());
}
