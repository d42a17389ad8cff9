use skaner_dokumentow::file_actions::{
    move_pdfs_keep_both, recycle_pdfs, rename_pdf, FileActionReport, MoveOutcome, SourceKind,
};
use skaner_dokumentow::library::{
    coalesce, refresh_event, scan_library, search_and_sort, sort_pdfs, LibraryEvent,
    LibrarySnapshot, RefreshRequests, SortMode, WorkerCommand,
};
use skaner_dokumentow::natural::{natural_cmp, normalize_search_text};
use skaner_dokumentow::paths::DocPath;
use skaner_dokumentow::recovery::{
    classify_recovery_artifact, sweep_action, sweep_recovery_artifacts, SweepAction, SweptFile,
    SweptFolder,
};
use skaner_dokumentow::storage::{
    scan_library_metadata, DirectoryEntry, EntryKind, LibraryEntry, PdfInfo,
};
use std::cell::RefCell;
use std::collections::BTreeMap;
use std::time::{Duration, Instant};

fn path(text: &str) -> DocPath {
    DocPath::new("", text.split('/').map(str::to_owned).collect())
}

fn text(path: &DocPath) -> String {
    path.parts.join("/")
}

fn pdf(name: &str, folder: &str, modified_secs: u64, size_bytes: u64) -> PdfInfo {
    let folder_path = path(folder);
    PdfInfo {
        name: name.to_owned(),
        path: folder_path.join(name),
        folder_name: folder.to_owned(),
        folder_path,
        size_bytes,
        modified_secs,
    }
}

/// A file system in memory.
struct Disk(RefCell<BTreeMap<String, Vec<u8>>>);

impl Disk {
    fn new() -> Self {
        Disk(RefCell::new(BTreeMap::new()))
    }

    fn write(&self, place: &str, bytes: &[u8]) {
        self.0.borrow_mut().insert(place.to_owned(), bytes.to_vec());
    }

    fn read(&self, place: &str) -> Option<Vec<u8>> {
        self.0.borrow().get(place).cloned()
    }

    fn holds(&self, place: &DocPath) -> bool {
        self.0.borrow().contains_key(&text(place))
    }

    fn kind(&self, place: &DocPath) -> SourceKind {
        if self.holds(place) {
            SourceKind::File
        } else {
            SourceKind::Missing
        }
    }

    fn move_new(&self, from: &DocPath, to: &DocPath) -> MoveOutcome {
        let mut files = self.0.borrow_mut();
        if files.contains_key(&text(to)) {
            return MoveOutcome::AlreadyExists { error: "exists".to_owned() };
        }
        match files.remove(&text(from)) {
            Some(bytes) => {
                files.insert(text(to), bytes);
                MoveOutcome::Moved
            }
            None => MoveOutcome::Failed { error: "missing".to_owned() },
        }
    }

    fn remove(&self, place: &DocPath) -> Result<(), String> {
        match self.0.borrow_mut().remove(&text(place)) {
            Some(_) => Ok(()),
            None => Err("missing".to_owned()),
        }
    }
}

#[test]
fn natural_order_places_9_before_10() {
    let mut names = ["A10.pdf", "A2.pdf", "A09.pdf", "A9.pdf"];
    names.sort_by(|left, right| natural_cmp(left, right));
    assert_eq!(names, ["A2.pdf", "A9.pdf", "A09.pdf", "A10.pdf"]);
}

#[test]
fn search_ignores_case_and_polish_diacritics_and_can_scope_folder() {
    let first = pdf("ZAŻÓŁĆ 10.pdf", "Łódź", 10, 100);
    let second = pdf("Inny.pdf", "Warszawa", 20, 200);
    let snapshot = LibrarySnapshot {
        root: path("library"),
        folders: Vec::new(),
        pdfs: vec![first.clone(), second],
    };

    let matches = search_and_sort(&snapshot, "zazolc lodz", SortMode::Name, true, &None);
    assert_eq!(matches.len(), 1);
    assert!(matches[0].path.same(&first.path));
    assert!(
        search_and_sort(&snapshot, "zazolc", SortMode::Name, true, &Some(path("Warszawa")))
            .is_empty()
    );
}

#[test]
fn all_sort_modes_work_in_both_directions() {
    let mut items = vec![
        pdf("A10.pdf", "B", 10, 500),
        pdf("A2.pdf", "A", 30, 100),
        pdf("A1.pdf", "C", 20, 900),
    ];
    sort_pdfs(&mut items, SortMode::Modified, false);
    assert_eq!(items[0].name, "A2.pdf");
    sort_pdfs(&mut items, SortMode::Modified, true);
    assert_eq!(items[0].name, "A10.pdf");
    sort_pdfs(&mut items, SortMode::Name, true);
    assert_eq!(items[0].name, "A1.pdf");
    sort_pdfs(&mut items, SortMode::Name, false);
    assert_eq!(items[0].name, "A10.pdf");
    sort_pdfs(&mut items, SortMode::Folder, true);
    assert_eq!(items[0].folder_name, "A");
    sort_pdfs(&mut items, SortMode::Folder, false);
    assert_eq!(items[0].folder_name, "C");
    sort_pdfs(&mut items, SortMode::Size, false);
    assert_eq!(items[0].size_bytes, 900);
    sort_pdfs(&mut items, SortMode::Size, true);
    assert_eq!(items[0].size_bytes, 100);
}

#[test]
fn default_directions_match_user_expectations() {
    assert!(SortMode::Name.default_ascending());
    assert!(SortMode::Folder.default_ascending());
    assert!(!SortMode::Modified.default_ascending());
    assert!(!SortMode::Size.default_ascending());
}

#[test]
fn searches_and_naturally_sorts_ten_thousand_metadata_rows() {
    let snapshot = LibrarySnapshot {
        root: path("library"),
        folders: Vec::new(),
        pdfs: (0..10_000)
            .rev()
            .map(|number| pdf(&format!("A{number:05}.pdf"), "Akta", number, 100))
            .collect(),
    };
    let started = Instant::now();

    let matches = search_and_sort(&snapshot, "akta", SortMode::Name, true, &None);

    assert_eq!(matches.len(), 10_000);
    assert_eq!(matches.first().unwrap().name, "A00000.pdf");
    assert_eq!(matches.last().unwrap().name, "A09999.pdf");
    let elapsed = started.elapsed();
    assert!(
        elapsed < Duration::from_secs(5),
        "10k metadata search/sort is too slow: {:?}",
        elapsed
    );
}

fn entry(place: &str, kind: EntryKind, size_bytes: u64) -> DirectoryEntry {
    let place = path(place);
    DirectoryEntry {
        name: place.file_name().unwrap(),
        path: place,
        kind,
        size_bytes,
        modified_secs: 1,
    }
}

fn file_entry(place: &str, size_bytes: u64) -> LibraryEntry {
    LibraryEntry { entry: entry(place, EntryKind::File, size_bytes), contents: Ok(Vec::new()) }
}

fn folder_entry(place: &str, contents: Vec<DirectoryEntry>) -> LibraryEntry {
    LibraryEntry { entry: entry(place, EntryKind::Folder, 0), contents: Ok(contents) }
}

#[test]
fn scan_indexes_malformed_pdf_without_parsing_contents() {
    let root = path("library");
    let entries = vec![
        folder_entry(
            "library/Klient 10",
            vec![
                entry("library/Klient 10/A10.pdf", EntryKind::File, 18),
                entry("library/Klient 10/ignored.txt", EntryKind::File, 7),
            ],
        ),
        file_entry("library/root.pdf", 14),
    ];

    let snapshot =
        scan_library(&root, scan_library_metadata(&root, &entries)).expect("scan library");
    assert_eq!(snapshot.folders.len(), 1);
    assert_eq!(snapshot.folders[0].pdf_count, 1);
    assert_eq!(snapshot.pdfs.len(), 2);
    assert!(snapshot.pdfs.iter().any(|item| item.name == "A10.pdf"));
    assert!(snapshot.pdfs.iter().any(|item| item.name == "root.pdf"));
}

fn snapshot_with(root: &str, name: &str) -> LibrarySnapshot {
    LibrarySnapshot {
        root: path(root),
        folders: Vec::new(),
        pdfs: vec![pdf(name, root, 1, 1)],
    }
}

#[test]
fn latest_refresh_generation_wins() {
    let mut worker = RefreshRequests::start();
    let old_generation = worker.take_generation();
    worker.note_sent(old_generation, true).expect("request old refresh");
    let newest = worker.take_generation();
    let newest_generation = worker.note_sent(newest, true).expect("request new refresh");

    // The worker drops the older request when both are waiting.
    let (generation, root) = coalesce(
        WorkerCommand::Refresh { generation: old_generation, root: path("old-generation") },
        vec![WorkerCommand::Refresh { generation: newest, root: path("new-generation") }],
    )
    .expect("not stopped");
    assert_eq!(generation, newest_generation);
    assert!(root.same(&path("new-generation")));

    // Were both answered, the older answer would be passed over.
    let event = worker
        .try_recv_latest(vec![
            refresh_event(old_generation, Ok(snapshot_with("old-generation", "old.pdf"))),
            refresh_event(newest, Ok(snapshot_with("new-generation", "new.pdf"))),
        ])
        .expect("event");
    assert_eq!(event.generation(), newest_generation);
    let LibraryEvent::Refreshed { snapshot, .. } = event else {
        panic!("new refresh unexpectedly failed");
    };
    assert!(snapshot.root.same(&path("new-generation")));
    assert_eq!(snapshot.pdfs.len(), 1);
    assert_eq!(snapshot.pdfs[0].name, "new.pdf");
    assert!(
        worker
            .try_recv_latest(vec![refresh_event(old_generation, Err("stary".to_owned()))])
            .is_none()
    );
}

fn move_on(disk: &Disk, sources: &Vec<DocPath>, target: &DocPath, present: bool) -> FileActionReport {
    move_pdfs_keep_both(
        sources,
        target,
        present,
        |place: &DocPath| disk.kind(place),
        |place: &DocPath| Some(place.copy()),
        |place: &DocPath| disk.holds(place),
        |from: &DocPath, to: &DocPath| disk.move_new(from, to),
    )
}

fn rename_on(disk: &Disk, source: &DocPath, name: &str, ignores_case: bool) -> Result<DocPath, String> {
    rename_pdf(
        source,
        disk.kind(source),
        name,
        ignores_case,
        7,
        1,
        |place: &DocPath| disk.holds(place),
        |from: &DocPath, to: &DocPath| disk.move_new(from, to),
        |place: &DocPath| text(place),
    )
}

#[test]
fn file_operations_worker_reports_completed_move() {
    let disk = Disk::new();
    disk.write("source/A01.pdf", b"pdf");
    let report = move_on(&disk, &vec![path("source/A01.pdf")], &path("target"), true);
    assert_eq!(report.completed_count(), 1);
    assert!(disk.holds(&path("target/A01.pdf")));
}

fn swept(name: &str, old_enough: bool) -> SweptFile {
    SweptFile { name: name.to_owned(), kind: EntryKind::File, old_enough }
}

fn sweep_on(disk: &Disk, folders: &Vec<SweptFolder>) -> FileActionReport {
    sweep_recovery_artifacts(
        folders,
        |place: &DocPath| disk.remove(place),
        |place: &DocPath| disk.remove(place),
        |place: &DocPath| disk.holds(place),
        |from: &DocPath, to: &DocPath| disk.move_new(from, to),
    )
}

#[test]
fn sweep_surfaces_conflicts_and_removes_fragments() {
    let disk = Disk::new();
    disk.write("root/Akta/Umowa.pdf", b"dokument");
    disk.write("root/Akta/Umowa.pdf.part-999-1", b"czesc");
    disk.write("root/Akta/.Umowa.scan-save-conflict-999-2.pdf", b"konflikt");
    disk.write("root/.skaner-rename-recovery-999-3.pdf", b"po-rename");
    disk.write("root/Akta/.Umowa.pdf.skaner-edit.lock", b"");
    let folders = vec![
        SweptFolder {
            path: path("root"),
            files: vec![swept(".skaner-rename-recovery-999-3.pdf", true)],
        },
        SweptFolder {
            path: path("root/Akta"),
            files: vec![
                swept("Umowa.pdf", true),
                swept("Umowa.pdf.part-999-1", true),
                swept(".Umowa.scan-save-conflict-999-2.pdf", true),
                swept(".Umowa.pdf.skaner-edit.lock", true),
            ],
        },
    ];

    let report = sweep_on(&disk, &folders);

    assert!(!disk.holds(&path("root/Akta/Umowa.pdf.part-999-1")));
    assert!(!disk.holds(&path("root/Akta/.Umowa.scan-save-conflict-999-2.pdf")));
    assert_eq!(
        disk.read("root/Akta/Umowa (konflikt zapisu).pdf").expect("surfaced conflict"),
        b"konflikt"
    );
    assert_eq!(
        disk.read("root/Odzyskany dokument.pdf").expect("surfaced leftover"),
        b"po-rename"
    );
    assert!(!disk.holds(&path("root/Akta/.Umowa.pdf.skaner-edit.lock")));
    assert!(disk.holds(&path("root/Akta/Umowa.pdf")), "zwykły dokument nietknięty");
    assert!(report.failures.is_empty(), "{:?}", report.failures);
}

#[test]
fn sweep_never_deletes_fresh_in_flight_files() {
    let disk = Disk::new();
    disk.write("root/Doc.pdf.part-1-1", b"czesc");
    sweep_on(
        &disk,
        &vec![SweptFolder { path: path("root"), files: vec![swept("Doc.pdf.part-1-1", false)] }],
    );
    assert!(disk.holds(&path("root/Doc.pdf.part-1-1")));
}

#[test]
fn rename_and_move_preserve_bytes_and_keep_collisions() {
    let disk = Disk::new();
    let bytes = b"unchanged pdf bytes";
    disk.write("source/Report.pdf", bytes);
    let original = path("source/Report.pdf");

    let renamed = rename_on(&disk, &original, "REPORT.PDF", false).expect("rename file");
    assert_eq!(disk.read(&text(&renamed)).expect("read renamed"), bytes);
    disk.write("target/REPORT.pdf", b"existing");

    let report = move_on(&disk, &vec![renamed.copy()], &path("target"), true);
    assert!(report.all_succeeded());
    let destination = report.successes[0].destination.as_ref().expect("move destination");
    assert_eq!(destination.file_name().unwrap(), "REPORT (2).pdf");
    assert_eq!(disk.read(&text(destination)).expect("read moved"), bytes);
    assert!(!disk.holds(&renamed));
}

#[test]
fn batch_reports_each_failure_without_permanent_delete_fallback() {
    let disk = Disk::new();
    let missing = path("root/missing.pdf");
    let move_report =
        move_on(&disk, &vec![missing.copy()], &path("root/missing-folder"), false);
    assert_eq!(move_report.completed_count(), 0);
    assert_eq!(move_report.failed_count(), 1);

    let recycle_report = recycle_pdfs(
        &vec![missing],
        |place: &DocPath| disk.kind(place),
        |place: &DocPath| disk.remove(place),
    );
    assert_eq!(recycle_report.completed_count(), 0);
    assert_eq!(recycle_report.failed_count(), 1);
}

#[test]
fn a_change_of_case_takes_a_detour_where_case_is_not_told_apart() {
    let disk = Disk::new();
    disk.write("source/Report.pdf", b"bytes");
    let renamed = rename_on(&disk, &path("source/Report.pdf"), "REPORT", true).expect("rename");
    assert_eq!(text(&renamed), "source/REPORT.pdf");
    assert_eq!(disk.read("source/REPORT.pdf").unwrap(), b"bytes");
    assert_eq!(disk.0.borrow().len(), 1);
}

#[test]
fn renaming_refuses_what_is_no_document() {
    let disk = Disk::new();
    assert_eq!(
        rename_on(&disk, &path("source/a.pdf"), "b", false).unwrap_err(),
        "Plik nie istnieje."
    );
    disk.write("source/a.txt", b"");
    assert_eq!(
        rename_on(&disk, &path("source/a.txt"), "b", false).unwrap_err(),
        "Wybrany plik nie jest plikiem PDF."
    );
    disk.write("source/a.pdf", b"");
    assert_eq!(
        rename_on(&disk, &path("source/a.pdf"), "a?", false).unwrap_err(),
        "Nazwa pliku zawiera niedozwolony znak."
    );
}

#[test]
fn every_document_of_a_batch_is_accounted_for() {
    let disk = Disk::new();
    disk.write("a/1.pdf", b"1");
    disk.write("target/2.pdf", b"2");
    let report = move_on(
        &disk,
        &vec![path("a/1.pdf"), path("target/2.pdf"), path("a/3.pdf")],
        &path("target"),
        true,
    );
    assert_eq!(report.completed_count(), 1);
    assert_eq!(report.skipped_count(), 1);
    assert_eq!(report.failed_count(), 1);
    assert!(!report.all_succeeded());
    assert_eq!(report.failures[0].error, "Plik nie istnieje.");
}

#[test]
fn documents_are_no_leftovers() {
    assert!(classify_recovery_artifact("Umowa.pdf").is_none());
    assert!(matches!(sweep_action("Umowa.pdf", EntryKind::File, true), SweepAction::Ignore));
    assert!(matches!(
        sweep_action("Umowa.pdf.part-3-4", EntryKind::File, false),
        SweepAction::Ignore
    ));
    assert!(matches!(
        sweep_action("Umowa.pdf.part-3-4", EntryKind::Folder, true),
        SweepAction::Ignore
    ));
}

#[test]
fn search_text_is_plain() {
    assert_eq!(normalize_search_text("ZAŻÓŁĆ Gęślą"), "zazolc gesla");
}

#[test]
fn documents_that_rank_alike_stay_in_order() {
    let mut items = vec![pdf("A.pdf", "B", 5, 1), pdf("B.pdf", "A", 5, 1)];
    sort_pdfs(&mut items, SortMode::Modified, false);
    let first = items[0].name.clone();
    sort_pdfs(&mut items, SortMode::Modified, false);
    assert_eq!(items[0].name, first);
}

#[test]
fn equal_rows_stand_alike_in_both_directions() {
    let items = vec![
        pdf("b.pdf", "X", 5, 100),
        pdf("a10.pdf", "X", 5, 200),
        pdf("c.pdf", "X", 9, 100),
        pdf("a2.pdf", "X", 5, 300),
    ];
    let rows = |ascending: bool| {
        let mut sorted = items.clone();
        sort_pdfs(&mut sorted, SortMode::Modified, ascending);
        sorted.into_iter().filter(|row| row.modified_secs == 5).map(|row| row.name).collect::<Vec<_>>()
    };
    assert_eq!(rows(true), ["a2.pdf", "a10.pdf", "b.pdf"]);
    assert_eq!(rows(false), rows(true));
}

#[test]
fn another_word_narrows_a_search_and_spelling_does_not_matter() {
    let snapshot = LibrarySnapshot {
        root: path("library"),
        folders: Vec::new(),
        pdfs: vec![
            pdf("Umowa 3.pdf", "Łódź", 1, 1),
            pdf("Umowa 1.pdf", "Łódź", 2, 2),
            pdf("Umowa 2.pdf", "Kraków", 3, 3),
            pdf("Faktura.pdf", "Łódź", 4, 4),
        ],
    };
    let found = |query: &str| {
        let found = search_and_sort(&snapshot, query, SortMode::Name, true, &None);
        found.into_iter().map(|pdf| pdf.name).collect::<Vec<_>>()
    };
    assert_eq!(found("umowa"), ["Umowa 1.pdf", "Umowa 2.pdf", "Umowa 3.pdf"]);
    assert_eq!(found("umowa łódź"), ["Umowa 1.pdf", "Umowa 3.pdf"]);
    assert_eq!(found(&normalize_search_text("UMOWA Łódź")), found("UMOWA Łódź"));
}

#[test]
fn a_search_form_is_plain_and_settled() {
    let plain = normalize_search_text("ZAŻÓŁĆ gęślą JAŹŃ e\u{301}İ");
    assert_eq!(plain, "zazolc gesla jazn ei");
    assert_eq!(normalize_search_text(&plain), plain);
    let joined = format!("{}{}", normalize_search_text("Łódź "), normalize_search_text("Ó1"));
    assert_eq!(normalize_search_text("Łódź Ó1"), joined);
    assert_eq!(normalize_search_text("ABC xyz 09"), "abc xyz 09");
}

#[test]
fn nothing_is_recycled_or_moved_that_is_not_to_be() {
    let disk = Disk::new();
    disk.write("root/a.txt", b"");
    let sources = vec![path("root/a.txt"), path("root/missing.pdf")];
    let report = recycle_pdfs(
        &sources,
        |place: &DocPath| disk.kind(place),
        |place: &DocPath| panic!("recycled {place:?}"),
    );
    assert_eq!(report.failed_count(), 2);
    assert_eq!(report.failures[0].error, "Wybrany plik nie jest plikiem PDF.");
    let moved = move_pdfs_keep_both(
        &sources,
        &path("nowhere"),
        false,
        |place: &DocPath| disk.kind(place),
        |_: &DocPath| None,
        |_: &DocPath| false,
        |_: &DocPath, _: &DocPath| panic!("moved"),
    );
    assert_eq!(moved.failures[1].error, "Folder docelowy nie istnieje.");
    let link = recycle_pdfs(
        &vec![path("root/b.pdf")],
        |_: &DocPath| SourceKind::Link,
        |_: &DocPath| panic!("recycled a link"),
    );
    assert_eq!(link.failures[0].error, "Skróty i dowiązania do plików PDF nie są obsługiwane.");
}

#[test]
fn a_conflict_copy_is_surfaced_and_never_deleted() {
    let file = |name: &str, old_enough: bool| SweptFile {
        name: name.to_owned(),
        kind: EntryKind::File,
        old_enough,
    };
    let folders = vec![SweptFolder {
        path: path("root"),
        files: vec![
            file("Umowa.pdf", true),
            file(".Umowa.scan-save-conflict-1-2.pdf", true),
            file("Umowa.pdf.part-1-2", false),
        ],
    }];
    let moves = RefCell::new(Vec::new());
    let report = sweep_recovery_artifacts(
        &folders,
        |place: &DocPath| panic!("deleted {place:?}"),
        |place: &DocPath| panic!("recycled {place:?}"),
        |place: &DocPath| text(place) == "root/Umowa.pdf",
        |from: &DocPath, to: &DocPath| {
            moves.borrow_mut().push((text(from), text(to)));
            MoveOutcome::Moved
        },
    );
    assert_eq!(report.completed_count(), 1);
    let moves = moves.borrow();
    assert_eq!(moves.len(), 1);
    assert_eq!(moves[0].0, "root/.Umowa.scan-save-conflict-1-2.pdf");
    assert!(moves[0].1.starts_with("root/Umowa") && moves[0].1.ends_with(".pdf"));
}
