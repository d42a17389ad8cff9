use skaner_dokumentow::dialogs::{
    cancel_words, delete_page_text, move_destinations, operation_words, restore_lines,
    restore_target, settle_location, settle_new_folder, settle_renamed_folder, toast_lifetime_ms,
    Answer, Dialogs, PendingFileOperation, Task,
};
use skaner_dokumentow::file_actions::{
    recycle_pdfs, FileActionFailure, FileActionReport, FileActionSuccess, SourceKind,
};
use skaner_dokumentow::folders::Settings;
use skaner_dokumentow::library::LibrarySnapshot;
use skaner_dokumentow::library_view::{LibraryAction, LibrarySection};
use skaner_dokumentow::messages::{
    chosen_text, file_action_failure_message, moved_text, name_targets, page_of_text,
    polish_file_count, polish_page_count, recycled_text, skipped_pages_text,
};
use skaner_dokumentow::path_set::PathSet;
use skaner_dokumentow::paths::DocPath;
use skaner_dokumentow::snapshot::{
    folder_pdfs, update_snapshot_files, update_snapshot_folder, upsert_snapshot_folder,
};
use skaner_dokumentow::storage::{FolderInfo, PdfInfo};
use skaner_dokumentow::workspace::{remember_path, Question, Screen, Step, Workspace};

fn path(text: &str) -> DocPath {
    DocPath::new("", text.split('/').map(str::to_owned).collect())
}

fn text(path: &DocPath) -> String {
    path.parts.join("/")
}

fn folder(name: &str, pdf_count: usize) -> FolderInfo {
    FolderInfo { name: name.to_owned(), path: path("root").join(name), pdf_count, modified_secs: 1 }
}

fn pdf(place: &str) -> PdfInfo {
    let place = path(place);
    let folder_path = place.parent().unwrap();
    PdfInfo {
        name: place.file_name().unwrap(),
        path: place,
        folder_name: folder_path.file_name().unwrap_or_default(),
        folder_path,
        size_bytes: 1,
        modified_secs: 1,
    }
}

fn snapshot() -> LibrarySnapshot {
    LibrarySnapshot {
        root: path("root"),
        folders: vec![folder("Akta", 2), folder("Umowy", 0)],
        pdfs: vec![pdf("root/Akta/a.pdf"), pdf("root/Akta/b.pdf")],
    }
}

fn workspace() -> Workspace {
    let mut workspace = Workspace::new(Settings::default(), path("root"));
    workspace.library_refreshed(snapshot());
    workspace
}

fn texts(paths: &[DocPath]) -> Vec<String> {
    paths.iter().map(text).collect()
}

#[test]
fn an_opened_folder_is_listed_and_remembered() {
    let mut workspace = workspace();
    assert!(workspace.open_folder(folder("Akta", 2)));
    assert_eq!(workspace.screen, Screen::Folder);
    assert_eq!(workspace.listed_pdfs().len(), 2);
    assert_eq!(workspace.settings.last_folder.as_deref(), Some("Akta"));
    workspace.handle_library_action(LibraryAction::ChangeSection(LibrarySection::Home));
    assert_eq!(workspace.screen, Screen::Library);
    assert!(workspace.selected_folder.is_none());
}

#[test]
fn the_last_folder_is_opened_once_the_library_is_known() {
    let settings = Settings { last_folder: Some("Akta".to_owned()), ..Settings::default() };
    let mut workspace = Workspace::new(settings, path("root"));
    assert!(workspace.restore_pending);
    workspace.library_refreshed(snapshot());
    assert!(!workspace.restore_pending);
}

#[test]
fn opening_a_document_puts_it_first_among_the_recent() {
    let mut workspace = workspace();
    let steps = workspace.handle_library_action(LibraryAction::Open(path("root/Akta/a.pdf")));
    assert!(steps.iter().any(|step| matches!(step, Step::OpenDocument(place)
        if text(place) == "root/Akta/a.pdf")));
    for place in ["root/Akta/a.pdf", "root/Akta/b.pdf", "root/Akta/a.pdf"] {
        workspace.remember_recent_document(&path(place));
    }
    assert_eq!(
        texts(&workspace.settings.recent_documents),
        ["root/Akta/a.pdf", "root/Akta/b.pdf"]
    );
}

#[test]
fn remembering_twice_is_remembering_once() {
    let recent = vec![path("a"), path("b")];
    let once = remember_path(&recent, &path("b"));
    assert_eq!(texts(&once), ["b", "a"]);
    assert_eq!(texts(&remember_path(&once, &path("b"))), texts(&once));
}

#[test]
fn questions_are_asked_before_documents_change() {
    let mut workspace = workspace();
    let steps =
        workspace.handle_library_action(LibraryAction::Recycle(vec![path("root/Akta/a.pdf")]));
    assert!(matches!(&steps[..], [Step::Ask(Question::RecycleDocuments(targets))]
        if texts(targets) == ["root/Akta/a.pdf"]));
    assert_eq!(workspace.snapshot.pdfs.len(), 2);
    let steps = workspace.handle_library_action(LibraryAction::Rename(path("root/Akta/a.pdf")));
    assert!(matches!(&steps[..], [Step::Ask(Question::RenameDocument(_, name))] if name == "a"));
    let steps = workspace.handle_library_action(LibraryAction::NewFolder);
    assert!(matches!(&steps[..], [Step::Ask(Question::NewFolder)]));
}

#[test]
fn a_scan_needs_a_folder_that_is_not_the_library_itself() {
    let mut workspace = workspace();
    let steps =
        workspace.handle_library_action(LibraryAction::NewScan(Some(path("root/Akta"))));
    assert!(steps.iter().any(|step| matches!(step, Step::BeginScan)));
    let mut workspace = self::workspace();
    let steps = workspace.handle_library_action(LibraryAction::NewScan(Some(path("root"))));
    assert!(!steps.iter().any(|step| matches!(step, Step::BeginScan)));
}

fn report(moved: &[(&str, &str)], failed: &[&str]) -> FileActionReport {
    FileActionReport {
        successes: moved
            .iter()
            .map(|(from, to)| FileActionSuccess {
                source: path(from),
                destination: Some(path(to)),
            })
            .collect(),
        skipped: Vec::new(),
        failures: failed
            .iter()
            .map(|place| FileActionFailure { source: path(place), error: "zajęty".to_owned() })
            .collect(),
    }
}

#[test]
fn moved_documents_are_listed_where_they_went() {
    let mut workspace = workspace();
    let moved = report(&[("root/Akta/a.pdf", "root/Umowy/a.pdf")], &[]);
    workspace.finish_pdf_move(&moved, &vec![Some(pdf("root/Umowy/a.pdf"))]);
    assert_eq!(workspace.snapshot.pdfs.len(), 2);
    assert_eq!(folder_pdfs(&workspace.snapshot.pdfs, &path("root/Umowy")).len(), 1);
    assert_eq!(workspace.snapshot.folders[0].pdf_count, 1);
    assert_eq!(workspace.snapshot.folders[1].pdf_count, 1);
}

#[test]
fn recycled_documents_are_listed_no_more() {
    let mut workspace = workspace();
    let recycled = recycle_pdfs(
        &vec![path("root/Akta/a.pdf")],
        |_: &DocPath| SourceKind::File,
        |_: &DocPath| Ok(()),
    );
    let steps = workspace.finish_pdf_recycle(&recycled);
    assert!(steps.iter().any(|step| matches!(step, Step::Announce(words, _)
        if words == "Przeniesiono do Kosza: 1 plik.")));
    assert_eq!(workspace.snapshot.pdfs.len(), 1);
    assert_eq!(workspace.snapshot.folders[0].pdf_count, 1);
}

#[test]
fn a_saved_document_is_listed_and_recent() {
    let mut workspace = workspace();
    workspace.document_saved(&path("root/Akta/c.pdf"), Some(pdf("root/Akta/c.pdf")));
    assert_eq!(workspace.snapshot.pdfs.len(), 3);
    assert_eq!(texts(&workspace.settings.recent_documents), ["root/Akta/c.pdf"]);
}

#[test]
fn folders_come_and_are_renamed() {
    let mut workspace = workspace();
    let mut dialogs = Dialogs::default();
    dialogs.ask(Question::NewFolder);
    assert!(dialogs.has_blocking_dialog());
    assert!(settle_new_folder(&mut workspace, &mut dialogs, Ok(folder("Nowy", 0))));
    assert!(!dialogs.show_new_folder);
    assert_eq!(workspace.snapshot.folders.len(), 3);
    settle_new_folder(&mut workspace, &mut dialogs, Err("istnieje".to_owned()));
    assert_eq!(dialogs.message.as_deref(), Some("istnieje"));
    assert!(settle_renamed_folder(
        &mut workspace,
        &mut dialogs,
        &path("root/Akta"),
        Ok(folder("Archiwum", 2)),
    ));
    assert!(workspace.snapshot.pdfs.iter().all(|pdf| text(&pdf.folder_path) == "root/Archiwum"));
}

#[test]
fn another_location_forgets_the_old_library() {
    let mut workspace = workspace();
    let mut dialogs = Dialogs::default();
    workspace.open_folder(folder("Akta", 2));
    assert!(settle_location(&mut workspace, &mut dialogs, path("dysk"), Ok(())));
    assert_eq!(text(&workspace.library_root), "dysk");
    assert!(workspace.snapshot.pdfs.is_empty());
    assert!(workspace.selected_folder.is_none());
    assert!(!settle_location(&mut workspace, &mut dialogs, path("x"), Err("brak".to_owned())));
    assert_eq!(text(&workspace.library_root), "dysk");
    assert_eq!(dialogs.message.as_deref(), Some("brak"));
}

#[test]
fn what_was_asked_is_what_is_done() {
    let mut dialogs = Dialogs::default();
    let targets = || vec![path("a.pdf"), path("b.pdf")];
    dialogs.ask(Question::MoveDocuments(targets()));
    assert!(dialogs.answer(Answer::ChooseDestination(path("Umowy")), false, true).is_none());
    let Some(Task::MoveDocuments(moved, to)) = dialogs.answer(Answer::MoveDocuments, false, true)
    else {
        panic!("not moved")
    };
    assert_eq!(texts(&moved), ["a.pdf", "b.pdf"]);
    assert_eq!(text(&to), "Umowy");
    dialogs.ask(Question::RecycleDocuments(targets()));
    assert!(matches!(
        dialogs.answer(Answer::RecycleDocuments, false, true),
        Some(Task::RecycleDocuments(recycled)) if texts(&recycled) == ["a.pdf", "b.pdf"]
    ));
    dialogs.ask(Question::RecycleDocuments(targets()));
    assert!(dialogs.answer(Answer::CancelRecycle, false, true).is_none());
    assert!(!dialogs.has_blocking_dialog());
}

#[test]
fn nothing_unsaved_is_given_up_unasked() {
    let mut dialogs = Dialogs::default();
    assert!(dialogs.close_requested(false, false, false));
    assert!(dialogs.show_exit_confirm);
    assert!(matches!(
        dialogs.answer(Answer::CloseProgram, false, false),
        Some(Task::CloseProgram)
    ));
    assert!(!dialogs.close_requested(false, false, false));
    let mut dialogs = Dialogs::default();
    assert!(!dialogs.close_requested(true, false, false));
    assert!(!dialogs.request_cancel_scan(false, true, true));
    assert!(dialogs.show_cancel_confirm);
    assert!(dialogs.request_cancel_scan(true, true, true));
}

#[test]
fn a_running_operation_blocks() {
    let mut dialogs = Dialogs::default();
    dialogs.operation_requested(PendingFileOperation::Move, Ok(()));
    assert!(dialogs.has_blocking_dialog());
    assert_eq!(operation_words(PendingFileOperation::Move).0, "Przenoszenie dokumentów…");
    dialogs.operation_ended(Some("przerwano".to_owned()));
    assert_eq!(dialogs.message.as_deref(), Some("przerwano"));
    assert!(dialogs.answer(Answer::Understood, false, false).is_none());
    assert!(!dialogs.has_blocking_dialog());
}

#[test]
fn documents_move_only_where_they_are_not() {
    let mut dialogs = Dialogs::default();
    dialogs.ask(Question::MoveDocuments(vec![path("root/Akta/a.pdf")]));
    let rows = move_destinations(&dialogs, &vec![folder("Akta", 1), folder("Umowy", 0)]);
    assert_eq!(rows.len(), 2);
    assert!(!rows[0].enabled && rows[1].enabled);
    assert!(!rows[1].chosen);
}

#[test]
fn words_for_dialogs() {
    assert_eq!(cancel_words(true, 3).title, "Anulować edycję?");
    assert_eq!(cancel_words(false, 3).detail, "Zeskanowane strony (3) zostaną utracone.");
    assert_eq!(delete_page_text(Some(1)), "Usunąć stronę 2?");
    assert_eq!(delete_page_text(None), "Ta strona już nie istnieje.");
    let lines = restore_lines(3, 1, "D:/akta", true);
    assert_eq!(lines[0].text, "Znaleziono niezapisaną sesję (4 strony).");
    assert_eq!(text(&restore_target(&path("a"), false, &path("root"))), "root");
    assert!(toast_lifetime_ms(true) > toast_lifetime_ms(false));
}

#[test]
fn polish_counts() {
    assert_eq!(polish_page_count(1), "1 strona");
    assert_eq!(polish_page_count(3), "3 strony");
    assert_eq!(polish_page_count(12), "12 stron");
    assert_eq!(polish_page_count(22), "22 strony");
    assert_eq!(polish_file_count(5), "5 plików");
    assert_eq!(polish_file_count(2), "2 pliki");
    assert_eq!(chosen_text(1), "Wybrano: 1 plik");
    assert_eq!(recycled_text(2), "Przeniesiono do Kosza: 2 pliki.");
    assert_eq!(page_of_text(0, 3), "Strona 1 z 3");
    assert_eq!(skipped_pages_text(0), None);
    assert!(skipped_pages_text(2).unwrap().contains(" 2 stron"));
}

#[test]
fn reports_are_put_into_words() {
    let report = report(&[("a.pdf", "b/a.pdf")], &["c.pdf"]);
    assert_eq!(moved_text(&report).unwrap(), "Przeniesiono 1 plik.");
    let failure = file_action_failure_message("przenieść", &report).unwrap();
    assert!(failure.starts_with("Nie udało się przenieść 1 "), "{failure}");
    assert!(failure.contains("c.pdf") && failure.contains("zajęty"));
    assert_eq!(name_targets(&vec![path("x/a.pdf"), path("b.pdf")]).len(), 2);
    assert_eq!(
        name_targets(&vec![path("a"), path("b"), path("c"), path("d"), path("e")]).len(),
        4
    );
}

#[test]
fn the_snapshot_follows_changes_of_files_and_folders() {
    let mut known = snapshot();
    update_snapshot_files(
        &mut known,
        &vec![path("root/Akta/a.pdf")],
        &vec![Some(pdf("root/Umowy/z.pdf")), None],
    );
    assert_eq!(known.pdfs.len(), 2);
    assert_eq!((known.folders[0].pdf_count, known.folders[1].pdf_count), (1, 1));
    update_snapshot_folder(&mut known, &path("root/Umowy"), &folder("Stare", 1));
    assert!(known.pdfs.iter().any(|pdf| text(&pdf.path) == "root/Stare/z.pdf"));
    upsert_snapshot_folder(&mut known, &folder("Nowe", 0));
    assert_eq!(known.folders.len(), 3);
    upsert_snapshot_folder(&mut known, &folder("Nowe", 5));
    assert_eq!(known.folders.len(), 3);
}

#[test]
fn a_set_holds_each_path_once() {
    let mut set = PathSet::new();
    assert!(set.insert(path("b")));
    assert!(set.insert(path("a")));
    assert!(!set.insert(path("b")));
    assert_eq!(texts(&set.list()), ["a", "b"]);
    assert_eq!(text(&set.first().unwrap()), "a");
    assert!(set.remove(&path("a")) && !set.remove(&path("a")));
    assert!(set.contains(&path("b")));
    set.clear();
    assert_eq!(set.len(), 0);
}

#[test]
fn paths_are_moved_with_their_folder() {
    let place = path("root/Akta/x/a.pdf");
    let moved = place.rebase(&path("root/Akta"), &path("root/B")).unwrap();
    assert_eq!(text(&moved), "root/B/x/a.pdf");
    assert!(place.rebase(&path("root/Akt"), &path("root/B")).is_none());
    assert_eq!(text(&place.parent().unwrap()), "root/Akta/x");
}
