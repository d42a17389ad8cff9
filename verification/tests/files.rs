use skaner_dokumentow::atomic_file::{
    advance_replace, fingerprint_bytes, move_new, prepare, put_over, unique_sibling_path,
    update_lock_path, CheckedReplace, CreateOutcome, FailureKind, Prepared, PreparedFile,
    ReplaceAction, ReplaceEvent,
};
use skaner_dokumentow::file_actions::MoveOutcome;
use skaner_dokumentow::paths::DocPath;
use std::cell::RefCell;
use std::collections::BTreeMap;

fn path(text: &str) -> DocPath {
    DocPath::new("", text.split('/').map(str::to_owned).collect())
}

fn text(path: &DocPath) -> String {
    path.parts.join("/")
}

/// Files in memory.
struct Disk(RefCell<BTreeMap<String, Vec<u8>>>);

impl Disk {
    fn with(files: &[(&str, &[u8])]) -> Self {
        let files = files.iter().map(|(place, bytes)| ((*place).to_owned(), bytes.to_vec()));
        Disk(RefCell::new(files.collect()))
    }

    fn read(&self, place: &str) -> Option<Vec<u8>> {
        self.0.borrow().get(place).cloned()
    }

    fn write(&self, place: &str, bytes: &[u8]) {
        self.0.borrow_mut().insert(place.to_owned(), bytes.to_vec());
    }

    fn holds(&self, place: &DocPath) -> bool {
        self.0.borrow().contains_key(&text(place))
    }

    fn create_new(&self, place: &DocPath, bytes: &[u8]) -> CreateOutcome {
        if self.holds(place) {
            return CreateOutcome::AlreadyExists;
        }
        self.write(&text(place), bytes);
        CreateOutcome::Created
    }

    fn move_new(&self, from: &DocPath, to: &DocPath) -> Result<(), String> {
        if self.holds(to) {
            return Err("plik istnieje".to_owned());
        }
        self.replace(from, to)
    }

    fn replace(&self, from: &DocPath, to: &DocPath) -> Result<(), String> {
        let bytes = self.0.borrow_mut().remove(&text(from)).ok_or("brak pliku")?;
        self.write(&text(to), &bytes);
        Ok(())
    }

    fn prepare(&self, target: &str, bytes: &[u8]) -> PreparedFile {
        match prepare(&path(target), 7, 1, &|place: &DocPath| self.create_new(place, bytes)) {
            Prepared::Part { path, .. } => PreparedFile { shown: text(&path), part: path },
            other => panic!("{other:?}"),
        }
    }
}

#[test]
fn replaces_an_existing_file_without_removing_it_first() {
    let disk = Disk::with(&[("d/replace.txt", b"old")]);
    let prepared = disk.prepare("d/replace.txt", b"new");
    assert_eq!(disk.read("d/replace.txt").unwrap(), b"old");
    let committed = prepared.commit_replace(
        &path("d/replace.txt"),
        &|from: &DocPath, to: &DocPath| disk.replace(from, to),
        &|place: &DocPath| disk.holds(place),
    );
    committed.outcome.expect("replace target");
    assert!(!committed.discard_part);
    assert_eq!(disk.read("d/replace.txt").unwrap(), b"new");
    assert_eq!(disk.0.borrow().len(), 1, "no part is left behind");
}

#[test]
fn create_new_never_clobbers_a_racing_file() {
    let disk = Disk::with(&[]);
    let prepared = disk.prepare("d/new.txt", b"ours");
    disk.write("d/new.txt", b"theirs");
    let committed = prepared.commit_new(
        &path("d/new.txt"),
        &|from: &DocPath, to: &DocPath| disk.move_new(from, to),
    );
    assert!(committed.outcome.is_err());
    assert!(committed.discard_part);
    assert_eq!(disk.read("d/new.txt").unwrap(), b"theirs");
}

#[test]
fn the_only_version_left_is_kept() {
    let prepared = PreparedFile { part: path("d/a.part"), shown: "a.part".to_owned() };
    let committed = prepared.commit_replace(
        &path("d/a"),
        &|_: &DocPath, _: &DocPath| Err("dysk".to_owned()),
        &|_: &DocPath| false,
    );
    assert!(!committed.discard_part);
    assert_eq!(
        committed.outcome.unwrap_err(),
        "dysk; plik zastępczy zachowano jako a.part"
    );
}

#[test]
fn a_changed_file_is_not_replaced() {
    let disk = Disk::with(&[("d/a", b"theirs")]);
    let prepared = disk.prepare("d/a", b"ours");
    let committed = prepared.commit_replace_if_unchanged(
        &path("d/a"),
        1,
        Ok(2),
        &|from: &DocPath, to: &DocPath| disk.replace(from, to),
        &|place: &DocPath| disk.holds(place),
    );
    assert_eq!(committed.outcome.unwrap_err(), "source file changed before replacement");
    assert!(committed.discard_part);
    assert_eq!(disk.read("d/a").unwrap(), b"theirs");
}

#[test]
fn a_hundred_names_are_tried_for_a_part() {
    assert!(matches!(
        prepare(&path("d/a"), 7, 1, &|_: &DocPath| CreateOutcome::AlreadyExists),
        Prepared::NoFreeName
    ));
    let tried = RefCell::new(0);
    let prepared = prepare(&path("d/a"), 7, 1, &|_: &DocPath| {
        *tried.borrow_mut() += 1;
        if *tried.borrow() < 3 {
            CreateOutcome::AlreadyExists
        } else {
            CreateOutcome::Failed { error: "dysk".to_owned() }
        }
    });
    let Prepared::Failed { path, id, error } = prepared else { panic!("{prepared:?}") };
    assert_eq!((id, error.as_str()), (3, "dysk"));
    assert_eq!(text(&path), "d/a.part-7-3");
}

fn write_on(
    disk: &Disk,
    target: &str,
    bytes: &[u8],
    replace: impl Fn(&DocPath, &DocPath) -> Result<(), String>,
) -> Result<(), String> {
    skaner_dokumentow::atomic_file::write(
        &path(target),
        7,
        1,
        |place: &DocPath| disk.create_new(place, bytes),
        text,
        replace,
        |place: &DocPath| disk.holds(place),
        |place: &DocPath| {
            disk.0.borrow_mut().remove(&text(place));
        },
    )
}

#[test]
fn a_written_file_takes_the_place_of_the_old_one() {
    let disk = Disk::with(&[("d/a", b"old")]);
    write_on(&disk, "d/a", b"new", |from, to| disk.replace(from, to)).expect("written");
    assert_eq!(disk.read("d/a").unwrap(), b"new");
    assert_eq!(disk.0.borrow().len(), 1, "no part is left behind");
}

#[test]
fn a_file_that_cannot_be_replaced_is_left_and_its_part_goes() {
    let disk = Disk::with(&[("d/a", b"old")]);
    let refused = write_on(&disk, "d/a", b"new", |_, _| Err("dysk".to_owned()));
    assert_eq!(refused.unwrap_err(), "dysk");
    assert_eq!(disk.read("d/a").unwrap(), b"old");
    assert_eq!(disk.0.borrow().len(), 1);
    let empty = Disk::with(&[]);
    let refused = write_on(&empty, "d/a", b"new", |_, _| Err("dysk".to_owned()));
    assert_eq!(refused.unwrap_err(), "dysk; plik zastępczy zachowano jako d/a.part-7-1");
    assert_eq!(empty.read("d/a.part-7-1").unwrap(), b"new", "the only version is kept");
}

#[test]
fn a_file_without_room_for_a_part_is_not_written() {
    let refused = skaner_dokumentow::atomic_file::write(
        &path("d/a"),
        7,
        1,
        |_: &DocPath| CreateOutcome::AlreadyExists,
        text,
        |_: &DocPath, _: &DocPath| panic!("nothing to replace with"),
        |_: &DocPath| true,
        |_: &DocPath| panic!("nothing to discard"),
    );
    assert_eq!(refused.unwrap_err(), "nie można utworzyć unikalnego pliku tymczasowego");
}

#[test]
fn a_move_that_cannot_finish_is_taken_back() {
    let disk = Disk::with(&[("d/a", b"ours")]);
    let link = |from: &DocPath, to: &DocPath| {
        if disk.holds(to) {
            return MoveOutcome::AlreadyExists { error: "plik istnieje".to_owned() };
        }
        let bytes = disk.read(&text(from)).unwrap();
        disk.write(&text(to), &bytes);
        MoveOutcome::Moved
    };
    let stuck = |place: &DocPath| {
        if text(place) == "d/a" {
            return Err("zajęty".to_owned());
        }
        disk.0.borrow_mut().remove(&text(place));
        Ok(())
    };
    let outcome = move_new(&path("d/a"), &path("d/b"), link, stuck);
    assert!(matches!(outcome, MoveOutcome::Failed { error } if error == "zajęty"));
    assert_eq!(disk.read("d/a").unwrap(), b"ours");
    assert!(disk.read("d/b").is_none(), "the file has one name again");
    let remove = |place: &DocPath| {
        disk.0.borrow_mut().remove(&text(place));
        Ok(())
    };
    assert!(matches!(move_new(&path("d/a"), &path("d/b"), link, remove), MoveOutcome::Moved));
    assert!(disk.read("d/a").is_none());
    assert_eq!(disk.read("d/b").unwrap(), b"ours");
    disk.write("d/c", b"theirs");
    let outcome = move_new(&path("d/b"), &path("d/c"), link, remove);
    assert!(matches!(outcome, MoveOutcome::AlreadyExists { .. }));
    assert_eq!(disk.read("d/c").unwrap(), b"theirs");
}

#[test]
fn a_file_is_moved_where_none_stands_and_replaces_where_one_does() {
    let moved = |_: &DocPath, _: &DocPath| Err("moved".to_owned());
    let replaced = |_: &DocPath, _: &DocPath| Err("replaced".to_owned());
    let absent = put_over(&path("p"), &path("t"), |_: &DocPath| false, moved, replaced);
    assert_eq!(absent.unwrap_err(), "moved");
    let present = put_over(&path("p"), &path("t"), |_: &DocPath| true, moved, replaced);
    assert_eq!(present.unwrap_err(), "replaced");
}

#[test]
fn names_beside_a_document() {
    assert_eq!(text(&update_lock_path(&path("d/a.pdf")).unwrap()), "d/.a.pdf.skaner-edit.lock");
    assert_eq!(
        update_lock_path(&DocPath::new("", Vec::new())).unwrap_err(),
        "target has no parent"
    );
    assert_eq!(update_lock_path(&path("a/..")).unwrap_err(), "target has no file name");
    assert!(path("a/..").file_name().is_none());
    let (place, id) =
        unique_sibling_path(&path("d/a.pdf"), "replace-recovery", 7, 4, |place: &DocPath| {
            text(place).contains("-7-4")
        })
        .unwrap();
    assert_eq!(text(&place), "d/.a.replace-recovery-7-5.pdf");
    assert_eq!(id, 5);
    assert_eq!(
        unique_sibling_path(&path("d/a.pdf"), "x", 7, 4, |_: &DocPath| true).unwrap_err(),
        "nie można utworzyć unikalnej nazwy kopii bezpieczeństwa"
    );
}

/// Replaces a file in memory as the steps of the library say.
fn checked_replace(disk: &Disk, part: &str, target: &str, expected: &[u8], opened: bool) -> Result<(), String> {
    let print = |bytes: &[u8]| bytes.iter().fold(7u64, |sum, byte| sum * 31 % 1_000_003 + u64::from(*byte));
    let expected = print(expected);
    let mut stage = CheckedReplace::Looking;
    let mut event = if disk.read(target).is_some() {
        ReplaceEvent::BackupNamed { path: format!("{target}.backup") }
    } else {
        ReplaceEvent::TargetMissing
    };
    loop {
        let (next, action) = advance_replace(stage, event, target, expected);
        stage = next;
        event = match action {
            ReplaceAction::ReplaceKeepingBackup { backup } => {
                disk.write(&backup, &disk.read(target).unwrap());
                disk.replace(&path(part), &path(target)).unwrap();
                ReplaceEvent::Replaced
            }
            ReplaceAction::FingerprintBackup { backup } if opened => {
                ReplaceEvent::FingerprintFailed { error: format!("{backup} jest otwarty") }
            }
            ReplaceAction::FingerprintBackup { backup } => {
                ReplaceEvent::Fingerprint { value: print(&disk.read(&backup).unwrap()) }
            }
            ReplaceAction::RemoveBackup { backup } => {
                disk.0.borrow_mut().remove(&backup);
                ReplaceEvent::Removed
            }
            ReplaceAction::NameConflict => {
                ReplaceEvent::ConflictNamed { path: format!("{target}.conflict") }
            }
            ReplaceAction::RestoreBackup { backup, conflict } => {
                disk.replace(&path(target), &path(&conflict)).unwrap();
                disk.replace(&path(&backup), &path(target)).unwrap();
                ReplaceEvent::Restored
            }
            ReplaceAction::Succeed => return Ok(()),
            ReplaceAction::Fail { message, .. } => return Err(message),
        };
    }
}

#[test]
fn checked_replace_commits_when_the_exact_target_is_unchanged() {
    let disk = Disk::with(&[("t", b"old"), ("part", b"new")]);
    checked_replace(&disk, "part", "t", b"old", false).expect("commit checked update");
    assert_eq!(disk.read("t").unwrap(), b"new");
    assert_eq!(disk.0.borrow().len(), 1);
}

#[test]
fn checked_replace_restores_an_external_change_and_preserves_our_version() {
    let disk = Disk::with(&[
        ("t", b"version written by another editor"),
        ("part", b"version prepared by scanner"),
    ]);
    let error = checked_replace(&disk, "part", "t", b"version opened by scanner", false)
        .expect_err("external update must win");
    assert!(error.contains("zmienił się podczas zapisu"));
    assert_eq!(disk.read("t").unwrap(), b"version written by another editor");
    assert_eq!(disk.read("t.conflict").unwrap(), b"version prepared by scanner");
}

#[test]
fn checked_replace_never_deletes_a_backup_with_an_active_writer() {
    let disk = Disk::with(&[
        ("t", b"version opened by scanner"),
        ("part", b"version prepared by scanner"),
    ]);
    let error = checked_replace(&disk, "part", "t", b"version opened by scanner", true)
        .expect_err("an actively writable backup must never be deleted");
    assert!(error.contains("bezpiecznie sprawdzić"));
    assert_eq!(disk.read("t").unwrap(), b"version prepared by scanner");
    assert!(disk.read("t.backup").is_some());
}

#[test]
fn a_missing_target_is_not_replaced() {
    let (_, action) = advance_replace(CheckedReplace::Looking, ReplaceEvent::TargetMissing, "t", 1);
    let ReplaceAction::Fail { kind, message, replacement_consumed } = action else {
        panic!("{action:?}")
    };
    assert_eq!(kind, FailureKind::NotFound);
    assert_eq!(message, "source file no longer exists");
    assert!(!replacement_consumed);
}

#[test]
fn a_fingerprint_tells_versions_apart() {
    assert_eq!(fingerprint_bytes(b"stara"), fingerprint_bytes(b"stara"));
    assert_ne!(fingerprint_bytes(b"stara"), fingerprint_bytes(b"nowa"));
    assert_ne!(fingerprint_bytes(b""), fingerprint_bytes(b"stara"));
}
