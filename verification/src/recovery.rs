//! What a crash leaves behind in the library, and what is done about it.

use vstd::prelude::*;
use crate::atomic_file::{lock_name, part_name, sibling_name};
use crate::file_actions::{
    detour_name, move_error, moving_gave, optional_path, recycling_gave, reported,
    FileActionReport, FileOutcome, MoveOutcome, ReportModel,
};
use crate::paths::{DocPath, PathModel};
use crate::storage::{
    is_hidden_name, is_pdf_name, is_unique_path, unique_pdf_path, DirectoryEntry, EntryKind,
};
use crate::text::{
    chars_of, contains_text, copy_range, decimal, ends_with, has_prefix, has_suffix, has_text,
    is_digit, lemma_decimal_value, lowercase_text, occurs_at, starts_with, text_lowercase, text_of,
};

verus! {

/// What a leftover file is.
#[derive(Debug, Clone, Copy, PartialEq, Eq, Structural)]
pub enum RecoveryArtifact {
    /// An interrupted write: garbage.
    PartFile,
    /// The lock of a process that is gone.
    StaleLock,
    /// The version before a save, kept when a crash came before it was cleaned up.
    ReplaceBackup,
    /// Our version of a document that lost a race: valuable, and to be seen.
    Conflict,
    /// A document stranded in the middle of a change of its name.
    RenameLeftover,
}

/// What a file name tells of a leftover.
pub open spec fn artifact_of(name: Seq<char>) -> Option<RecoveryArtifact> {
    if !starts_with(name, "."@) {
        if contains_text(name, ".part-"@) {
            Some(RecoveryArtifact::PartFile)
        } else {
            None
        }
    } else if ends_with(name, ".skaner-edit.lock"@) {
        Some(RecoveryArtifact::StaleLock)
    } else if !ends_with(text_lowercase(name), ".pdf"@) {
        None
    } else if contains_text(name, ".scan-save-conflict-"@) {
        Some(RecoveryArtifact::Conflict)
    } else if contains_text(name, ".replace-recovery-"@) {
        Some(RecoveryArtifact::ReplaceBackup)
    } else if starts_with(name, ".skaner-rename-recovery-"@) {
        Some(RecoveryArtifact::RenameLeftover)
    } else {
        None
    }
}

pub fn classify_recovery_artifact(name: &str) -> (r: Option<RecoveryArtifact>)
    ensures
        r == artifact_of(name@),
{
    let chars: Vec<char> = chars_of(name);
    if !has_prefix(&chars, &chars_of(".")) {
        return if has_text(&chars, &chars_of(".part-")) {
            Some(RecoveryArtifact::PartFile)
        } else {
            None
        };
    }
    if has_suffix(&chars, &chars_of(".skaner-edit.lock")) {
        return Some(RecoveryArtifact::StaleLock);
    }
    if !has_suffix(&chars_of(lowercase_text(name).as_str()), &chars_of(".pdf")) {
        return None;
    }
    if has_text(&chars, &chars_of(".scan-save-conflict-")) {
        Some(RecoveryArtifact::Conflict)
    } else if has_text(&chars, &chars_of(".replace-recovery-")) {
        Some(RecoveryArtifact::ReplaceBackup)
    } else if has_prefix(&chars, &chars_of(".skaner-rename-recovery-")) {
        Some(RecoveryArtifact::RenameLeftover)
    } else {
        None
    }
}

/// Where a text first occurs from a place on; the length where it does not.
pub open spec fn first_at(text: Seq<char>, needle: Seq<char>, at: int) -> int
    decreases text.len() - at,
{
    if at >= text.len() {
        text.len() as int
    } else if occurs_at(text, needle, at) {
        at
    } else {
        first_at(text, needle, at + 1)
    }
}

/// The name under which a conflict copy is shown: that of the document, with a note.
pub open spec fn conflict_stem(name: Seq<char>) -> Seq<char> {
    let rest = name.drop_first();
    let stem = rest.take(first_at(rest, ".scan-save-conflict-"@, 0));
    if stem.len() == 0 {
        "Odzyskany dokument (konflikt zapisu)"@
    } else {
        stem + " (konflikt zapisu)"@
    }
}

fn find_text(text: &Vec<char>, needle: &Vec<char>) -> (r: usize)
    requires
        needle.len() > 0,
    ensures
        r == first_at(text@, needle@, 0),
        r <= text.len(),
{
    let mut at: usize = 0;
    while at < text.len()
        invariant
            at <= text.len(),
            needle.len() > 0,
            first_at(text@, needle@, 0) == first_at(text@, needle@, at as int),
        decreases text.len() - at,
    {
        let rest: Vec<char> = copy_range(text, at, text.len());
        let here: bool = has_prefix(&rest, needle);
        assert(here == occurs_at(text@, needle@, at as int)) by {
            assert(rest@ =~= text@.subrange(at as int, text.len() as int));
            if rest@.len() >= needle@.len() {
                assert(rest@.take(needle@.len() as int) =~= text@.subrange(
                    at as int,
                    at + needle@.len(),
                ));
            }
        }
        if here {
            return at;
        }
        at = at + 1;
    }
    at
}

fn stem_of_conflict(name: &str) -> (r: String)
    requires
        name@.len() > 0,
    ensures
        r@ == conflict_stem(name@),
{
    let chars: Vec<char> = chars_of(name);
    let rest: Vec<char> = copy_range(&chars, 1, chars.len());
    assert(rest@ =~= name@.drop_first());
    let mark: Vec<char> = chars_of(".scan-save-conflict-");
    proof {
        reveal_strlit(".scan-save-conflict-");
        assert(".scan-save-conflict-"@.len() == 20);
    }
    let end: usize = find_text(&rest, &mark);
    let stem: Vec<char> = copy_range(&rest, 0, end);
    assert(stem@ =~= rest@.take(end as int));
    if stem.len() == 0 {
        "Odzyskany dokument (konflikt zapisu)".to_owned()
    } else {
        let mut text: String = text_of(&stem);
        text.append(" (konflikt zapisu)");
        text
    }
}

/// What is done about a file.
#[derive(Debug)]
pub enum SweepAction {
    Ignore,
    Delete,
    Recycle,
    Surface { stem: String },
}

pub ghost enum SweepModel {
    Ignore,
    Delete,
    Recycle,
    Surface(Seq<char>),
}

impl View for SweepAction {
    type V = SweepModel;

    open spec fn view(&self) -> SweepModel {
        match self {
            SweepAction::Ignore => SweepModel::Ignore,
            SweepAction::Delete => SweepModel::Delete,
            SweepAction::Recycle => SweepModel::Recycle,
            SweepAction::Surface { stem } => SweepModel::Surface(stem@),
        }
    }
}

/// What is done about a file: garbage and locks go, backups go to the recycle bin, both
/// only when they are old enough not to be in use; what is valuable is brought to light.
pub open spec fn swept(name: Seq<char>, kind: EntryKind, old_enough: bool) -> SweepModel {
    if kind != EntryKind::File {
        SweepModel::Ignore
    } else {
        match artifact_of(name) {
            None => SweepModel::Ignore,
            Some(RecoveryArtifact::PartFile) | Some(RecoveryArtifact::StaleLock) => if old_enough {
                SweepModel::Delete
            } else {
                SweepModel::Ignore
            },
            Some(RecoveryArtifact::ReplaceBackup) => if old_enough {
                SweepModel::Recycle
            } else {
                SweepModel::Ignore
            },
            Some(RecoveryArtifact::Conflict) => SweepModel::Surface(conflict_stem(name)),
            Some(RecoveryArtifact::RenameLeftover) => SweepModel::Surface("Odzyskany dokument"@),
        }
    }
}

pub fn sweep_action(name: &str, kind: EntryKind, old_enough: bool) -> (r: SweepAction)
    ensures
        r@ == swept(name@, kind, old_enough),
{
    match kind {
        EntryKind::File => {},
        _ => {
            return SweepAction::Ignore;
        },
    }
    match classify_recovery_artifact(name) {
        None => SweepAction::Ignore,
        Some(RecoveryArtifact::PartFile) | Some(RecoveryArtifact::StaleLock) => if old_enough {
            SweepAction::Delete
        } else {
            SweepAction::Ignore
        },
        Some(RecoveryArtifact::ReplaceBackup) => if old_enough {
            SweepAction::Recycle
        } else {
            SweepAction::Ignore
        },
        Some(RecoveryArtifact::Conflict) => {
            proof {
                reveal_strlit(".");
                assert("."@.len() == 1);
            }
            SweepAction::Surface { stem: stem_of_conflict(name) }
        },
        Some(RecoveryArtifact::RenameLeftover) => SweepAction::Surface {
            stem: "Odzyskany dokument".to_owned(),
        },
    }
}

/// A file that may be in use is neither deleted nor recycled.
pub proof fn law_fresh_files_are_left_alone(name: Seq<char>, kind: EntryKind)
    ensures
        !(swept(name, kind, false) is Delete),
        !(swept(name, kind, false) is Recycle),
{
}

/// A conflict copy or a stranded document is always brought to light, never removed.
pub proof fn law_valuable_files_are_surfaced(name: Seq<char>, old_enough: bool)
    requires
        artifact_of(name) == Some(RecoveryArtifact::Conflict) || artifact_of(name) == Some(
            RecoveryArtifact::RenameLeftover,
        ),
    ensures
        swept(name, EntryKind::File, old_enough) is Surface,
{
}

/// A document that carries none of the marks is never touched.
pub proof fn law_documents_are_not_touched(name: Seq<char>, kind: EntryKind, old_enough: bool)
    requires
        !starts_with(name, "."@),
        !contains_text(name, ".part-"@),
    ensures
        swept(name, kind, old_enough) is Ignore,
{
}

proof fn lemma_starts(name: Seq<char>, c: char)
    requires
        name.len() > 0,
        name[0] == c,
    ensures
        starts_with(name, seq![c]),
{
    assert(name.take(1) =~= seq![c]);
}

proof fn lemma_dot()
    ensures
        "."@ == seq!['.'],
{
    reveal_strlit(".");
    assert("."@.len() == 1);
    assert("."@[0] == '.');
    assert("."@ =~= seq!['.']);
}

/// The lock and the copies that a save makes are hidden, so the library never lists
/// them as documents.
pub proof fn law_saving_aids_are_hidden(name: Seq<char>, label: Seq<char>, process: u32, id: u64)
    ensures
        is_hidden_name(lock_name(name)),
        is_hidden_name(sibling_name(name, label, process, id)),
        is_hidden_name(detour_name(".skaner-rename-recovery-"@, process, id, ".pdf"@)),
        is_hidden_name(detour_name(".skaner-folder-rename-recovery-"@, process, id, ""@)),
{
    lemma_dot();
    reveal_strlit(".skaner-rename-recovery-");
    reveal_strlit(".skaner-folder-rename-recovery-");
    assert(".skaner-rename-recovery-"@.len() == 24);
    assert(".skaner-rename-recovery-"@[0] == '.');
    assert(".skaner-folder-rename-recovery-"@.len() == 31);
    assert(".skaner-folder-rename-recovery-"@[0] == '.');
    assert(lock_name(name)[0] == '.');
    assert(sibling_name(name, label, process, id)[0] == '.');
}

/// A part is no document, and is told as garbage once it is left behind.
pub proof fn law_parts_are_told(name: Seq<char>, process: u32, id: u64)
    ensures
        !is_pdf_name(part_name(name, process, id)),
        name.len() > 0 && name[0] != '.' ==> artifact_of(part_name(name, process, id)) == Some(
            RecoveryArtifact::PartFile,
        ),
{
    let part = part_name(name, process, id);
    let mark = ".part-"@;
    let tail = decimal(id as nat);
    lemma_decimal_value(id as nat);
    assert(part.last() == tail.last());
    assert(is_digit(tail[tail.len() - 1]));
    reveal_strlit(".pdf");
    assert(".pdf"@.len() == 4);
    assert(".pdf"@[3] == 'f');
    if is_pdf_name(part) {
        assert(part.skip(part.len() - 4)[3] == part.last());
    }
    if name.len() > 0 && name[0] != '.' {
        lemma_dot();
        assert(part[0] == name[0]);
        if starts_with(part, "."@) {
            assert(part.take(1)[0] == part[0]);
        }
        assert(part.subrange(name.len() as int, name.len() as int + mark.len()) =~= mark);
        assert(occurs_at(part, mark, name.len() as int));
    }
}

/// A lock that is left behind is told as such.
pub proof fn law_locks_are_told(name: Seq<char>)
    ensures
        artifact_of(lock_name(name)) == Some(RecoveryArtifact::StaleLock),
{
    let lock = lock_name(name);
    lemma_dot();
    lemma_starts(lock, '.');
    assert(lock.skip(lock.len() - ".skaner-edit.lock"@.len()) =~= ".skaner-edit.lock"@);
}

/// A file in a folder that is swept, and whether it is too old to be in use.
#[derive(Debug)]
pub struct SweptFile {
    pub name: String,
    pub kind: EntryKind,
    pub old_enough: bool,
}

/// A folder that is swept.
#[derive(Debug)]
pub struct SweptFolder {
    pub path: DocPath,
    pub files: Vec<SweptFile>,
}

/// Whether a folder of the library is swept along with its root.
pub fn is_swept_folder(entry: &DirectoryEntry) -> (r: bool)
    ensures
        r == (entry.kind == EntryKind::Folder && !is_hidden_name(entry.name@)),
{
    match entry.kind {
        EntryKind::Folder => !crate::storage::is_hidden(entry.name.as_str()),
        _ => false,
    }
}

/// Something to be done about a file.
#[derive(Debug)]
pub struct SweepItem {
    pub folder: DocPath,
    pub path: DocPath,
    pub action: SweepAction,
}

#[verifier::ext_equal]
pub struct ItemModel {
    pub folder: PathModel,
    pub path: PathModel,
    pub action: SweepModel,
}

impl View for SweepItem {
    type V = ItemModel;

    open spec fn view(&self) -> ItemModel {
        ItemModel { folder: self.folder@, path: self.path@, action: self.action@ }
    }
}

pub open spec fn item_models(items: Seq<SweepItem>) -> Seq<ItemModel> {
    items.map_values(|item: SweepItem| item@)
}

/// What there is to do in a folder, among its first `n` files.
pub open spec fn folder_items(folder: PathModel, files: Seq<SweptFile>, n: nat) -> Seq<ItemModel>
    decreases n,
{
    if n == 0 {
        Seq::empty()
    } else {
        let before = folder_items(folder, files, (n - 1) as nat);
        let file = files[n - 1];
        let action = swept(file.name@, file.kind, file.old_enough);
        if action is Ignore {
            before
        } else {
            before.push(ItemModel { folder, path: folder.join(file.name@), action })
        }
    }
}

/// What there is to do in the first `n` folders.
pub open spec fn all_items(folders: Seq<SweptFolder>, n: nat) -> Seq<ItemModel>
    decreases n,
{
    if n == 0 {
        Seq::empty()
    } else {
        let folder = folders[n - 1];
        all_items(folders, (n - 1) as nat) + folder_items(
            folder.path@,
            folder.files@,
            folder.files@.len(),
        )
    }
}

fn plan_folder(folder: &SweptFolder, items: &mut Vec<SweepItem>)
    ensures
        item_models(final(items)@) == item_models(old(items)@) + folder_items(
            folder.path@,
            folder.files@,
            folder.files@.len(),
        ),
{
    let ghost before = item_models(items@);
    let mut i: usize = 0;
    assert(item_models(items@) =~= before + folder_items(folder.path@, folder.files@, 0));
    while i < folder.files.len()
        invariant
            i <= folder.files.len(),
            item_models(items@) == before + folder_items(folder.path@, folder.files@, i as nat),
        decreases folder.files.len() - i,
    {
        let file: &SweptFile = &folder.files[i];
        let action: SweepAction = sweep_action(file.name.as_str(), file.kind, file.old_enough);
        match action {
            SweepAction::Ignore => {},
            _ => {
                let item: SweepItem = SweepItem {
                    folder: folder.path.copy(),
                    path: folder.path.join(file.name.as_str()),
                    action,
                };
                let ghost so_far = items@;
                items.push(item);
                assert(item_models(items@) =~= item_models(so_far).push(item@));
                assert(item_models(items@) =~= before + folder_items(
                    folder.path@,
                    folder.files@,
                    (i + 1) as nat,
                ));
            },
        }
        i = i + 1;
    }
}

/// What there is to do in the library, folder by folder.
pub fn sweep_plan(folders: &Vec<SweptFolder>) -> (r: Vec<SweepItem>)
    ensures
        item_models(r@) == all_items(folders@, folders@.len()),
{
    let mut items: Vec<SweepItem> = Vec::new();
    let mut i: usize = 0;
    assert(item_models(items@) =~= Seq::<ItemModel>::empty());
    while i < folders.len()
        invariant
            i <= folders.len(),
            item_models(items@) == all_items(folders@, i as nat),
        decreases folders.len() - i,
    {
        plan_folder(&folders[i], &mut items);
        i = i + 1;
    }
    items
}

/// What can come of bringing a file to light: it moves to the first free name.
pub open spec fn surfacing_possible<
    E: Fn(&DocPath) -> bool,
    M: Fn(&DocPath, &DocPath) -> MoveOutcome,
>(
    exists_at: E,
    move_file: M,
    folder: PathModel,
    path: PathModel,
    stem: Seq<char>,
    outcome: FileOutcome,
) -> bool {
    exists|place: Result<DocPath, String>| #[trigger]
        is_unique_path(exists_at, folder, stem, place) && match place {
            Err(message) => outcome == FileOutcome::Failed(message@),
            Ok(target) => match outcome {
                FileOutcome::Done(destination) => destination == Some(target@) && moving_gave(
                    move_file,
                    path,
                    target@,
                    None,
                ),
                FileOutcome::Failed(error) => moving_gave(move_file, path, target@, Some(error)),
                FileOutcome::Skipped => false,
            },
        }
}

/// Whether removing a file can have ended this way.
pub open spec fn removal_possible<D: Fn(&DocPath) -> Result<(), String>>(
    remove: D,
    path: PathModel,
    outcome: FileOutcome,
) -> bool {
    match outcome {
        FileOutcome::Done(destination) => destination is None && recycling_gave(remove, path, None),
        FileOutcome::Failed(error) => recycling_gave(remove, path, Some(error)),
        FileOutcome::Skipped => false,
    }
}

/// What can come of an item.
pub open spec fn sweep_outcome_possible<
    D: Fn(&DocPath) -> Result<(), String>,
    C: Fn(&DocPath) -> Result<(), String>,
    E: Fn(&DocPath) -> bool,
    M: Fn(&DocPath, &DocPath) -> MoveOutcome,
>(remove: D, recycle: C, exists_at: E, move_file: M, item: ItemModel, outcome: FileOutcome) -> bool {
    match item.action {
        SweepModel::Ignore => false,
        SweepModel::Delete => removal_possible(remove, item.path, outcome),
        SweepModel::Recycle => removal_possible(recycle, item.path, outcome),
        SweepModel::Surface(stem) => surfacing_possible(
            exists_at,
            move_file,
            item.folder,
            item.path,
            stem,
            outcome,
        ),
    }
}

pub open spec fn is_sweep_report<
    D: Fn(&DocPath) -> Result<(), String>,
    C: Fn(&DocPath) -> Result<(), String>,
    E: Fn(&DocPath) -> bool,
    M: Fn(&DocPath, &DocPath) -> MoveOutcome,
>(
    remove: D,
    recycle: C,
    exists_at: E,
    move_file: M,
    items: Seq<ItemModel>,
    outcomes: Seq<FileOutcome>,
    report: ReportModel,
) -> bool {
    &&& report == reported(item_paths(items), outcomes)
    &&& forall|i: int|
        0 <= i < outcomes.len() ==> sweep_outcome_possible(
            remove,
            recycle,
            exists_at,
            move_file,
            items[i],
            #[trigger] outcomes[i],
        )
}

/// Whether the plan says this of a file.
pub open spec fn is_planned(items: Seq<ItemModel>, path: PathModel, action: SweepModel) -> bool {
    exists|i: int|
        0 <= i < items.len() && (#[trigger] items[i]).path == path && items[i].action == action
}

/// Whether the plan brings a file to light this way: in its own folder, to the first free
/// name for it.
pub open spec fn surface_leg<E: Fn(&DocPath) -> bool>(
    exists_at: E,
    items: Seq<ItemModel>,
    from: DocPath,
    to: DocPath,
) -> bool {
    exists|i: int|
        0 <= i < items.len() && (#[trigger] items[i]).path == from@ && surfaces_to(
            exists_at,
            items[i],
            to,
        )
}

pub open spec fn surfaces_to<E: Fn(&DocPath) -> bool>(
    exists_at: E,
    item: ItemModel,
    to: DocPath,
) -> bool {
    match item.action {
        SweepModel::Surface(stem) => is_unique_path(exists_at, item.folder, stem, Ok(to)),
        _ => false,
    }
}

/// Whether a file of the swept folders stands at a place and is to be treated so.
pub open spec fn is_swept_file(
    folders: Seq<SweptFolder>,
    i: int,
    k: int,
    path: PathModel,
    action: SweepModel,
) -> bool {
    &&& 0 <= i < folders.len()
    &&& 0 <= k < folders[i].files.len()
    &&& path == folders[i].path@.join(folders[i].files[k].name@)
    &&& action == swept(
        folders[i].files[k].name@,
        folders[i].files[k].kind,
        folders[i].files[k].old_enough,
    )
}

proof fn lemma_items_are_files(folders: Seq<SweptFolder>, n: nat, j: int) -> (at: (int, int))
    requires
        n <= folders.len(),
        0 <= j < all_items(folders, n).len(),
    ensures
        is_swept_file(
            folders,
            at.0,
            at.1,
            all_items(folders, n)[j].path,
            all_items(folders, n)[j].action,
        ),
        all_items(folders, n)[j].folder == folders[at.0].path@,
    decreases n,
{
    let before = all_items(folders, (n - 1) as nat);
    if j < before.len() {
        lemma_items_are_files(folders, (n - 1) as nat, j)
    } else {
        let folder = folders[n - 1];
        let k = lemma_folder_items_are_files(
            folder.path@,
            folder.files@,
            folder.files@.len(),
            j - before.len(),
        );
        (n - 1, k)
    }
}

proof fn lemma_folder_items_are_files(folder: PathModel, files: Seq<SweptFile>, n: nat, j: int) -> (k:
    int)
    requires
        n <= files.len(),
        0 <= j < folder_items(folder, files, n).len(),
    ensures
        0 <= k < n,
        folder_items(folder, files, n)[j] == (ItemModel {
            folder,
            path: folder.join(files[k].name@),
            action: swept(files[k].name@, files[k].kind, files[k].old_enough),
        }),
    decreases n,
{
    let before = folder_items(folder, files, (n - 1) as nat);
    if j < before.len() {
        lemma_folder_items_are_files(folder, files, (n - 1) as nat, j)
    } else {
        n - 1
    }
}

/// A sweep deletes only fragments and stale locks that are old enough, and recycles only
/// backups that are: never a conflict copy, a stranded document or any other file.
pub proof fn law_sweep_removes_only_leftovers(folders: Seq<SweptFolder>, path: PathModel)
    ensures
        is_planned(all_items(folders, folders.len()), path, SweepModel::Delete) ==> exists|
            i: int,
            k: int,
        |
            #[trigger] is_swept_file(folders, i, k, path, SweepModel::Delete)
                && folders[i].files[k].old_enough && (artifact_of(folders[i].files[k].name@)
                == Some(RecoveryArtifact::PartFile) || artifact_of(folders[i].files[k].name@)
                == Some(RecoveryArtifact::StaleLock)),
        is_planned(all_items(folders, folders.len()), path, SweepModel::Recycle) ==> exists|
            i: int,
            k: int,
        |
            #[trigger] is_swept_file(folders, i, k, path, SweepModel::Recycle)
                && folders[i].files[k].old_enough && artifact_of(folders[i].files[k].name@)
                == Some(RecoveryArtifact::ReplaceBackup),
{
    let items = all_items(folders, folders.len());
    if is_planned(items, path, SweepModel::Delete) {
        let j = choose|j: int|
            0 <= j < items.len() && (#[trigger] items[j]).path == path && items[j].action
                == SweepModel::Delete;
        let at = lemma_items_are_files(folders, folders.len(), j);
        assert(is_swept_file(folders, at.0, at.1, path, SweepModel::Delete));
    }
    if is_planned(items, path, SweepModel::Recycle) {
        let j = choose|j: int|
            0 <= j < items.len() && (#[trigger] items[j]).path == path && items[j].action
                == SweepModel::Recycle;
        let at = lemma_items_are_files(folders, folders.len(), j);
        assert(is_swept_file(folders, at.0, at.1, path, SweepModel::Recycle));
    }
}

/// What a result tells of a file.
spec fn outcome_of(result: Result<Option<DocPath>, String>) -> FileOutcome {
    match result {
        Ok(destination) => FileOutcome::Done(optional_path(destination)),
        Err(error) => FileOutcome::Failed(error@),
    }
}

pub open spec fn item_paths(items: Seq<ItemModel>) -> Seq<PathModel> {
    items.map_values(|item: ItemModel| item.path)
}

fn remove_file<D: Fn(&DocPath) -> Result<(), String>>(path: &DocPath, remove: &D) -> (r: Result<
    (),
    String,
>)
    requires
        call_requires(*remove, (path,)),
    ensures
        match r {
            Ok(_) => recycling_gave(*remove, path@, None),
            Err(error) => recycling_gave(*remove, path@, Some(error@)),
        },
{
    let r: Result<(), String> = remove(path);
    assert(recycling_gave(
        *remove,
        path@,
        match r {
            Ok(_) => None,
            Err(error) => Some(error@),
        },
    ));
    r
}

/// Brings a file to light under a free name in its folder.
fn surface_file<E: Fn(&DocPath) -> bool, M: Fn(&DocPath, &DocPath) -> MoveOutcome>(
    folder: &DocPath,
    path: &DocPath,
    stem: &str,
    exists_at: &E,
    move_file: &M,
) -> (r: Result<DocPath, String>)
    requires
        forall|path: &DocPath| #[trigger] call_requires(*exists_at, (path,)),
        forall|to: &DocPath|
            is_unique_path(*exists_at, folder@, stem@, Ok(*to)) ==> #[trigger] call_requires(
                *move_file,
                (path, to),
            ),
    ensures
        surfacing_possible(
            *exists_at,
            *move_file,
            folder@,
            path@,
            stem@,
            match r {
                Ok(target) => FileOutcome::Done(Some(target@)),
                Err(error) => FileOutcome::Failed(error@),
            },
        ),
{
    let place: Result<DocPath, String> = unique_pdf_path(folder, stem, exists_at);
    let ghost found = place;
    assert(is_unique_path(*exists_at, folder@, stem@, found));
    match place {
        Err(message) => Err(message),
        Ok(target) => {
            let outcome: MoveOutcome = move_file(path, &target);
            assert(moving_gave(*move_file, path@, target@, move_error(outcome)));
            match outcome {
                MoveOutcome::Moved => Ok(target),
                MoveOutcome::AlreadyExists { error } => Err(error),
                MoveOutcome::Failed { error } => Err(error),
            }
        },
    }
}

/// Cleans up after crashes: fragments and stale locks go, backups go to the recycle bin,
/// and what is valuable becomes a document again. Every file that something was done
/// about is reported.
pub fn sweep_recovery_artifacts<
    D: Fn(&DocPath) -> Result<(), String>,
    C: Fn(&DocPath) -> Result<(), String>,
    E: Fn(&DocPath) -> bool,
    M: Fn(&DocPath, &DocPath) -> MoveOutcome,
>(
    folders: &Vec<SweptFolder>,
    remove: D,
    recycle: C,
    exists_at: E,
    move_file: M,
) -> (r: FileActionReport)
    requires
        forall|path: &DocPath|
            is_planned(all_items(folders@, folders@.len()), path@, SweepModel::Delete)
                ==> #[trigger] call_requires(remove, (path,)),
        forall|path: &DocPath|
            is_planned(all_items(folders@, folders@.len()), path@, SweepModel::Recycle)
                ==> #[trigger] call_requires(recycle, (path,)),
        forall|path: &DocPath| #[trigger] call_requires(exists_at, (path,)),
        forall|from: &DocPath, to: &DocPath|
            surface_leg(exists_at, all_items(folders@, folders@.len()), *from, *to)
                ==> #[trigger] call_requires(move_file, (from, to)),
    ensures
        exists|outcomes: Seq<FileOutcome>|
            outcomes.len() == all_items(folders@, folders@.len()).len()
                && #[trigger] is_sweep_report(
                remove,
                recycle,
                exists_at,
                move_file,
                all_items(folders@, folders@.len()),
                outcomes,
                r@,
            ),
{
    let items: Vec<SweepItem> = sweep_plan(folders);
    let ghost models = all_items(folders@, folders@.len());
    let ghost paths = item_paths(models);
    let mut report: FileActionReport = FileActionReport::new();
    let ghost mut outcomes: Seq<FileOutcome> = Seq::empty();
    let mut i: usize = 0;
    proof {
        lemma_nothing_ignored(folders@, folders@.len());
    }
    while i < items.len()
        invariant
            i <= items.len(),
            models == item_models(items@),
            paths == item_paths(models),
            forall|k: int| 0 <= k < models.len() ==> !((#[trigger] models[k]).action is Ignore),
            outcomes.len() == i,
            forall|path: &DocPath|
                is_planned(models, path@, SweepModel::Delete)
                    ==> #[trigger] call_requires(remove, (path,)),
            forall|path: &DocPath|
                is_planned(models, path@, SweepModel::Recycle)
                    ==> #[trigger] call_requires(recycle, (path,)),
            forall|path: &DocPath| #[trigger] call_requires(exists_at, (path,)),
            forall|from: &DocPath, to: &DocPath|
                surface_leg(exists_at, models, *from, *to)
                    ==> #[trigger] call_requires(move_file, (from, to)),
            is_sweep_report(remove, recycle, exists_at, move_file, models, outcomes, report@),
        decreases items.len() - i,
    {
        let item: &SweepItem = &items[i];
        assert(models[i as int] == item@);
        assert(paths[i as int] == item.path@);
        let ghost before = outcomes;
        assert(item@.action is Delete ==> is_planned(models, item.path@, SweepModel::Delete));
        assert(item@.action is Recycle ==> is_planned(models, item.path@, SweepModel::Recycle));
        assert(forall|to: DocPath| #[trigger]
            surfaces_to(exists_at, models[i as int], to) ==> surface_leg(
                exists_at,
                models,
                item.path,
                to,
            ));
        let result: Result<Option<DocPath>, String> = match &item.action {
            SweepAction::Ignore => Ok(None),
            SweepAction::Delete => match remove_file(&item.path, &remove) {
                Ok(_) => Ok(None),
                Err(error) => Err(error),
            },
            SweepAction::Recycle => match remove_file(&item.path, &recycle) {
                Ok(_) => Ok(None),
                Err(error) => Err(error),
            },
            SweepAction::Surface { stem } => {
                assert forall|to: &DocPath|
                    is_unique_path(exists_at, item.folder@, stem@, Ok(*to)) implies #[trigger] call_requires(
                    move_file,
                    (&item.path, to),
                ) by {
                    assert(surfaces_to(exists_at, models[i as int], *to));
                }
                let surfaced: Result<DocPath, String> = surface_file(
                    &item.folder,
                    &item.path,
                    stem.as_str(),
                    &exists_at,
                    &move_file,
                );
                match surfaced {
                    Ok(target) => Ok(Some(target)),
                    Err(error) => Err(error),
                }
            },
        };
        proof {
            let outcome = outcome_of(result);
            assert(sweep_outcome_possible(
                remove,
                recycle,
                exists_at,
                move_file,
                models[i as int],
                outcome,
            ));
            outcomes = before.push(outcome);
            assert(outcomes.drop_last() =~= before);
        }
        match result {
            Ok(destination) => {
                report.success(item.path.copy(), destination);
            },
            Err(error) => {
                report.failure(item.path.copy(), error);
            },
        }
        i = i + 1;
    }
    report
}

proof fn lemma_nothing_ignored(folders: Seq<SweptFolder>, n: nat)
    ensures
        forall|k: int|
            0 <= k < all_items(folders, n).len() ==> !((#[trigger] all_items(folders, n)[k]).action is Ignore),
    decreases n,
{
    if n > 0 {
        let folder = folders[n - 1];
        lemma_nothing_ignored(folders, (n - 1) as nat);
        lemma_nothing_ignored_in(folder.path@, folder.files@, folder.files@.len());
    }
}

proof fn lemma_nothing_ignored_in(folder: PathModel, files: Seq<SweptFile>, n: nat)
    ensures
        forall|k: int|
            0 <= k < folder_items(folder, files, n).len() ==> !((#[trigger] folder_items(
                folder,
                files,
                n,
            )[k]).action is Ignore),
    decreases n,
{
    if n > 0 {
        lemma_nothing_ignored_in(folder, files, (n - 1) as nat);
    }
}

} // verus!
