use skaner_dokumentow::document::ColorMode;
use skaner_dokumentow::file_actions::MoveOutcome;
use skaner_dokumentow::folders::{
    create_folder, load_settings, pdf_info, rename_folder, FileFacts, FolderOutcome, Settings,
};
use skaner_dokumentow::paths::DocPath;
use skaner_dokumentow::storage::{
    has_pdf_extension, list_pdfs, next_sequence_name, normalized_pdf_stem, scan_library_metadata,
    unique_pdf_path, validate_windows_name, DirectoryEntry, EntryKind, FolderInfo, LibraryEntry,
    PdfInfo,
};
use std::cell::RefCell;
use std::collections::BTreeSet;

fn path(text: &str) -> DocPath {
    DocPath::new("", text.split('/').map(str::to_owned).collect())
}

fn text(path: &DocPath) -> String {
    path.parts.join("/")
}

fn named(name: &str, modified_secs: u64) -> PdfInfo {
    PdfInfo {
        name: name.to_owned(),
        path: path(name),
        folder_name: "Akta".to_owned(),
        folder_path: path("Akta"),
        size_bytes: 0,
        modified_secs,
    }
}

fn entry(place: &str, kind: EntryKind, size_bytes: u64, modified_secs: u64) -> DirectoryEntry {
    let place = path(place);
    DirectoryEntry { name: place.file_name().unwrap(), path: place, kind, size_bytes, modified_secs }
}

#[test]
fn rejects_invalid_windows_names() {
    assert!(validate_windows_name("", "Nazwa").is_err());
    assert!(validate_windows_name("CON", "Nazwa").is_err());
    assert!(validate_windows_name("COM¹.txt", "Nazwa").is_err());
    assert!(validate_windows_name("a/b", "Nazwa").is_err());
    assert!(validate_windows_name("poprawna nazwa", "Nazwa").is_ok());
}

#[test]
fn each_bad_name_is_told_apart() {
    assert_eq!(validate_windows_name("  ", "Nazwa").unwrap_err(), "Nazwa nie może być pusta.");
    assert_eq!(
        validate_windows_name("a.", "Nazwa").unwrap_err(),
        "Nazwa nie może kończyć się kropką ani spacją."
    );
    assert_eq!(
        validate_windows_name("a?b", "Nazwa").unwrap_err(),
        "Nazwa zawiera niedozwolony znak."
    );
    assert_eq!(
        validate_windows_name("lpt9.pdf", "Nazwa").unwrap_err(),
        "Nazwa jest zarezerwowana przez system Windows."
    );
    assert_eq!(validate_windows_name("  COM0 ", "Nazwa").unwrap(), "COM0");
}

#[test]
fn normalizes_mixed_case_pdf_extension() {
    assert_eq!(normalized_pdf_stem("Raport.PdF").unwrap(), "Raport");
    assert_eq!(normalized_pdf_stem("Raport.pdf").unwrap(), "Raport");
    assert_eq!(normalized_pdf_stem("Raport").unwrap(), "Raport");
}

#[test]
fn lists_mixed_case_pdf_with_folder_and_file_metadata() {
    let root = path("root");
    let folder = path("root/Klient A");
    let contents = || {
        vec![
            entry("root/Klient A/Umowa.PdF", EntryKind::File, 16, 100),
            entry("root/Klient A/notatka.txt", EntryKind::File, 9, 100),
        ]
    };
    let (folders, _) = scan_library_metadata(
        &root,
        &vec![LibraryEntry {
            entry: entry("root/Klient A", EntryKind::Folder, 0, 50),
            contents: Ok(contents()),
        }],
    )
    .unwrap();
    assert_eq!(folders.len(), 1);
    assert_eq!(folders[0].name, "Klient A");
    assert_eq!(folders[0].pdf_count, 1);
    assert!(folders[0].modified_secs > 0);

    let pdfs = list_pdfs(&folder, &contents());
    assert_eq!(pdfs.len(), 1);
    assert_eq!(pdfs[0].name, "Umowa.PdF");
    assert_eq!(pdfs[0].folder_name, "Klient A");
    assert!(pdfs[0].folder_path.same(&folder));
    assert_eq!(pdfs[0].size_bytes, 16);
    assert!(pdfs[0].modified_secs > 0);
}

#[test]
fn recovery_artifacts_are_not_indexed_as_documents() {
    let root = path("root");
    let (folders, pdfs) = scan_library_metadata(
        &root,
        &vec![
            LibraryEntry {
                entry: entry("root/Akta", EntryKind::Folder, 0, 1),
                contents: Ok(vec![
                    entry("root/Akta/Umowa.pdf", EntryKind::File, 3, 1),
                    entry("root/Akta/.Umowa.replace-recovery-1-2.pdf", EntryKind::File, 6, 1),
                ]),
            },
            LibraryEntry {
                entry: entry("root/.skaner-folder-rename-recovery-1-3", EntryKind::Folder, 0, 1),
                contents: Ok(Vec::new()),
            },
        ],
    )
    .unwrap();
    assert_eq!(folders.len(), 1);
    assert_eq!(pdfs.len(), 1);
    assert_eq!(pdfs[0].name, "Umowa.pdf");
}

#[test]
fn renames_folder_when_only_letter_case_changes() {
    let disk: RefCell<BTreeSet<String>> = RefCell::new(BTreeSet::new());
    let folder = create_folder(
        &path("root"),
        "Akta",
        |place: &DocPath| {
            disk.borrow_mut().insert(text(place));
            FolderOutcome::Created
        },
        |_: &DocPath| 5,
    )
    .unwrap();
    let renamed = rename_folder(
        &folder,
        "AKTA",
        true,
        7,
        1,
        |place: &DocPath| disk.borrow().contains(&text(place)),
        |from: &DocPath, to: &DocPath| {
            let mut disk = disk.borrow_mut();
            if !disk.remove(&text(from)) {
                return MoveOutcome::Failed { error: "missing".to_owned() };
            }
            disk.insert(text(to));
            MoveOutcome::Moved
        },
        |place: &DocPath| text(place),
        |_: &DocPath| 6,
    )
    .unwrap();

    assert_eq!(renamed.name, "AKTA");
    assert_eq!(text(&renamed.path), "root/AKTA");
    assert!(disk.borrow().contains("root/AKTA"));
    assert_eq!(disk.borrow().len(), 1);
}

#[test]
fn suggests_next_name_from_natural_numeric_series() {
    let existing = vec![
        named("A01.pdf", 10),
        named("A02.PDF", 20),
        named("A09.PdF", 30),
        named("Raport2025.pdf", 40),
    ];

    assert_eq!(next_sequence_name(&existing, "Akta"), "A10");
    assert_eq!(next_sequence_name(&vec![named("Raport2025.pdf", 40)], "Akta"), "Akta");
    assert_eq!(next_sequence_name(&Vec::new(), "  Akta klienta  "), "Akta klienta");
    assert_eq!(next_sequence_name(&Vec::new(), "   "), "Dokument");
}

#[test]
fn color_mode_defaults_to_black_white() {
    let settings = Settings::default();
    assert_eq!(settings.color_mode, None);
    assert_eq!(settings.page_mode(), ColorMode::BlackWhite);
    let color = Settings { color_mode: Some(ColorMode::Color), ..Settings::default() };
    assert_eq!(color.page_mode(), ColorMode::Color);
}

#[test]
fn settings_come_from_the_backup_where_they_cannot_be_read() {
    let backup = Settings { last_folder: Some("Akta".to_owned()), ..Settings::default() };
    assert_eq!(load_settings(None, Some(backup)).last_folder.as_deref(), Some("Akta"));
    assert!(load_settings(None, None).last_folder.is_none());
}

#[test]
fn the_first_free_name_is_taken() {
    let taken = ["root/Umowa.pdf", "root/Umowa (2).pdf"];
    let place = unique_pdf_path(&path("root"), "Umowa.pdf", &|place: &DocPath| {
        taken.contains(&text(place).as_str())
    })
    .unwrap();
    assert_eq!(text(&place), "root/Umowa (3).pdf");
    assert_eq!(
        unique_pdf_path(&path("root"), "Umowa", &|_: &DocPath| true).unwrap_err(),
        "Nie można utworzyć unikalnej nazwy pliku."
    );
    assert_eq!(
        unique_pdf_path(&path("root"), "  ", &|_: &DocPath| true).unwrap_err(),
        "Nazwa pliku nie może być pusta."
    );
}

#[test]
fn a_folder_is_made_once() {
    let made = |outcome: &str| {
        let outcome = outcome.to_owned();
        create_folder(
            &path("root"),
            " Akta ",
            move |_: &DocPath| match outcome.as_str() {
                "exists" => FolderOutcome::AlreadyExists,
                "failed" => FolderOutcome::Failed { error: "brak dostępu".to_owned() },
                _ => FolderOutcome::Created,
            },
            |_: &DocPath| 9,
        )
    };
    let folder = made("created").unwrap();
    assert_eq!(folder.name, "Akta");
    assert_eq!(text(&folder.path), "root/Akta");
    assert_eq!(folder.modified_secs, 9);
    assert!(made("exists").is_err());
    assert_eq!(made("failed").unwrap_err(), "Błąd systemu plików: brak dostępu");
}

#[test]
fn only_files_with_the_ending_are_documents() {
    assert!(has_pdf_extension("a.PDF"));
    assert!(!has_pdf_extension(".pdf"));
    assert!(!has_pdf_extension("a.pdf.txt"));
    let facts = || FileFacts::File { size_bytes: 4, modified_secs: 8 };
    let info = pdf_info(&path("root/Akta/a.pdf"), facts()).unwrap();
    assert_eq!(info.name, "a.pdf");
    assert_eq!(info.folder_name, "Akta");
    assert_eq!(info.size_bytes, 4);
    assert_eq!(
        pdf_info(&path("root/Akta/a.txt"), facts()).unwrap_err(),
        "Wybrany plik nie jest dostępnym plikiem PDF."
    );
    assert_eq!(
        pdf_info(&path("root/Akta/a.pdf"), FileFacts::NotAFile).unwrap_err(),
        "Wybrany plik nie jest dostępnym plikiem PDF."
    );
    assert_eq!(
        pdf_info(&path("root/Akta/a.pdf"), FileFacts::Unreadable { error: "brak".to_owned() })
            .unwrap_err(),
        "Błąd systemu plików: brak"
    );
}

#[test]
fn the_next_name_does_not_hang_on_the_order_of_the_list() {
    let mut existing = vec![named("Akt09.pdf", 10), named("akt07.pdf", 30), named("B1.pdf", 50)];
    let name = next_sequence_name(&existing, "Akta");
    assert_eq!(name, "Akt10");
    existing.reverse();
    assert_eq!(next_sequence_name(&existing, "Akta").to_lowercase(), name.to_lowercase());
    let mut tied = vec![named("akt02.pdf", 5), named("AKT02.pdf", 5)];
    let first = next_sequence_name(&tied, "Akta");
    tied.reverse();
    assert_eq!(next_sequence_name(&tied, "Akta").to_lowercase(), first.to_lowercase());
}

#[test]
fn renaming_a_folder_to_its_own_name_or_a_taken_one_moves_nothing() {
    let folder = FolderInfo {
        name: "Akta".to_owned(),
        path: path("root/Akta"),
        pdf_count: 3,
        modified_secs: 9,
    };
    let rename = |name: &str| {
        rename_folder(
            &folder,
            name,
            false,
            7,
            1,
            |_: &DocPath| true,
            |_: &DocPath, _: &DocPath| panic!("moved"),
            |_: &DocPath| String::new(),
            |_: &DocPath| 0,
        )
    };
    let kept = rename("  Akta ").expect("kept");
    assert_eq!((kept.name.as_str(), kept.pdf_count, kept.modified_secs), ("Akta", 3, 9));
    assert_eq!(rename("Inne").unwrap_err(), "Folder o tej nazwie już istnieje.");
}
