//! Folders of the library, single documents in it, and the settings.

use vstd::prelude::*;
use crate::document::ColorMode;
use crate::file_actions::{
    answered, case_change_may_end, case_leg, change_case, display_io_error, folder_words, io_message,
    move_may_end, plain_leg, plain_move, MoveOutcome, ATTEMPTS,
};
use crate::paths::{DocPath, PathModel};
use crate::storage::{
    checked_name, display_name, has_pdf_extension, is_pdf_name, validate_windows_name, FolderInfo,
    FolderModel, PdfInfo, PdfModel,
};
use crate::text::{lowercase_text, text_lowercase};

verus! {

/// What came of making a folder.
#[derive(Debug)]
pub enum FolderOutcome {
    Created,
    AlreadyExists,
    Failed { error: String },
}

pub open spec fn folder_result(r: Result<FolderInfo, String>) -> Result<FolderModel, Seq<char>> {
    match r {
        Ok(folder) => Ok(folder@),
        Err(message) => Err(message@),
    }
}

/// Whether making a folder ended with an outcome, and its time was told.
pub open spec fn creating_gave<C: Fn(&DocPath) -> FolderOutcome, T: Fn(&DocPath) -> u64>(
    create: C,
    modified_of: T,
    place: PathModel,
    name: Seq<char>,
    path: DocPath,
    outcome: FolderOutcome,
    time: u64,
    r: Result<FolderModel, Seq<char>>,
) -> bool {
    &&& path@ == place
    &&& call_ensures(create, (&path,), outcome)
    &&& match outcome {
        FolderOutcome::AlreadyExists => r == Err::<FolderModel, Seq<char>>(
            "Folder o tej nazwie już istnieje."@,
        ),
        FolderOutcome::Failed { error } => r == Err::<FolderModel, Seq<char>>(io_message(error@)),
        FolderOutcome::Created => {
            &&& call_ensures(modified_of, (&path,), time)
            &&& r == Ok::<FolderModel, Seq<char>>(
                FolderModel { name, path: place, pdf_count: 0, modified_secs: time },
            )
        },
    }
}

/// How making a folder can end.
pub open spec fn creation_may_end<C: Fn(&DocPath) -> FolderOutcome, T: Fn(&DocPath) -> u64>(
    create: C,
    modified_of: T,
    place: PathModel,
    name: Seq<char>,
    r: Result<FolderModel, Seq<char>>,
) -> bool {
    exists|path: DocPath, outcome: FolderOutcome, time: u64| #[trigger]
        creating_gave(create, modified_of, place, name, path, outcome, time, r)
}

/// Makes a folder in the library.
pub fn create_folder<C: Fn(&DocPath) -> FolderOutcome, T: Fn(&DocPath) -> u64>(
    root: &DocPath,
    requested_name: &str,
    create: C,
    modified_of: T,
) -> (r: Result<FolderInfo, String>)
    requires
        forall|path: &DocPath|
            checked_name(requested_name@, "Nazwa folderu"@) is Ok && path@ == root@.join(
                checked_name(requested_name@, "Nazwa folderu"@)->Ok_0,
            ) ==> #[trigger] call_requires(create, (path,)),
        forall|path: &DocPath| #[trigger] call_requires(modified_of, (path,)),
    ensures
        match checked_name(requested_name@, "Nazwa folderu"@) {
            Err(problem) => folder_result(r) == Err::<FolderModel, Seq<char>>(problem),
            Ok(name) => creation_may_end(
                create,
                modified_of,
                root@.join(name),
                name,
                folder_result(r),
            ),
        },
{
    let name: String = match validate_windows_name(requested_name, "Nazwa folderu") {
        Ok(name) => name,
        Err(problem) => {
            return Err(problem);
        },
    };
    let path: DocPath = root.join(name.as_str());
    let outcome: FolderOutcome = create(&path);
    let ghost answer = outcome;
    let ghost place = path;
    let ghost model = name@;
    match outcome {
        FolderOutcome::AlreadyExists => {
            let r: Result<FolderInfo, String> = Err("Folder o tej nazwie już istnieje.".to_owned());
            assert(creating_gave(
                create,
                modified_of,
                place@,
                model,
                place,
                answer,
                0,
                folder_result(r),
            ));
            r
        },
        FolderOutcome::Failed { error } => {
            let r: Result<FolderInfo, String> = Err(display_io_error(error.as_str()));
            assert(creating_gave(
                create,
                modified_of,
                place@,
                model,
                place,
                answer,
                0,
                folder_result(r),
            ));
            r
        },
        FolderOutcome::Created => {
            let modified_secs: u64 = modified_of(&path);
            let r: Result<FolderInfo, String> = Ok(
                FolderInfo { name, path, pdf_count: 0, modified_secs },
            );
            assert(creating_gave(
                create,
                modified_of,
                place@,
                model,
                place,
                answer,
                modified_secs,
                folder_result(r),
            ));
            r
        },
    }
}

/// What renaming a folder comes to.
pub ghost enum FolderPlan {
    Refuse(Seq<char>),
    Keep,
    CaseOnly(Seq<char>),
    Move(Seq<char>),
}

pub open spec fn folder_plan(
    folder: FolderModel,
    requested_name: Seq<char>,
    ignores_case: bool,
) -> FolderPlan {
    match checked_name(requested_name, "Nazwa folderu"@) {
        Err(problem) => FolderPlan::Refuse(problem),
        Ok(name) => if name == folder.name {
            FolderPlan::Keep
        } else if folder.path.parts.len() == 0 {
            FolderPlan::Refuse("Nie można zmienić nazwy tego folderu."@)
        } else if ignores_case && text_lowercase(folder.name) == text_lowercase(name) {
            FolderPlan::CaseOnly(name)
        } else {
            FolderPlan::Move(name)
        },
    }
}

/// The folder that holds a folder of the library.
pub open spec fn holder(folder: FolderModel) -> PathModel {
    PathModel { anchor: folder.path.anchor, parts: folder.path.parts.drop_last() }
}

/// The renamed folder, with the time that was found. Where none could be read the old
/// one stands; a change of case takes the later of the two.
pub open spec fn renamed_folder(
    folder: FolderModel,
    name: Seq<char>,
    found: u64,
    case_only: bool,
) -> FolderModel {
    FolderModel {
        name,
        path: holder(folder).join(name),
        pdf_count: folder.pdf_count,
        modified_secs: if case_only {
            if found > folder.modified_secs {
                found
            } else {
                folder.modified_secs
            }
        } else if found == 0 {
            folder.modified_secs
        } else {
            found
        },
    }
}

/// Whether a time was told for a place.
pub open spec fn time_told<T: Fn(&DocPath) -> u64>(
    modified_of: T,
    place: PathModel,
    time: u64,
) -> bool {
    exists|path: DocPath| path@ == place && #[trigger] call_ensures(modified_of, (&path,), time)
}

/// Whether the result of a move was turned into the result of renaming.
pub open spec fn renamed_by<T: Fn(&DocPath) -> u64>(
    modified_of: T,
    folder: FolderModel,
    name: Seq<char>,
    case_only: bool,
    moved: Result<PathModel, Seq<char>>,
    r: Result<FolderModel, Seq<char>>,
) -> bool {
    match moved {
        Err(message) => r == Err::<FolderModel, Seq<char>>(message),
        Ok(_) => renamed_at_some_time(modified_of, folder, name, case_only, r),
    }
}

pub open spec fn renamed_at_some_time<T: Fn(&DocPath) -> u64>(
    modified_of: T,
    folder: FolderModel,
    name: Seq<char>,
    case_only: bool,
    r: Result<FolderModel, Seq<char>>,
) -> bool {
    exists|time: u64| #[trigger]
        time_told(modified_of, holder(folder).join(name), time) && r == Ok::<
            FolderModel,
            Seq<char>,
        >(renamed_folder(folder, name, time, case_only))
}

/// How renaming a folder can end.
pub open spec fn folder_rename_may_end<
    E: Fn(&DocPath) -> bool,
    M: Fn(&DocPath, &DocPath) -> MoveOutcome,
    S: Fn(&DocPath) -> String,
    T: Fn(&DocPath) -> u64,
>(
    exists_at: E,
    move_folder: M,
    show: S,
    modified_of: T,
    folder: FolderModel,
    plan: FolderPlan,
    process: u32,
    first_id: u64,
    moved: Result<PathModel, Seq<char>>,
    r: Result<FolderModel, Seq<char>>,
) -> bool {
    match plan {
        FolderPlan::Refuse(problem) => r == Err::<FolderModel, Seq<char>>(problem),
        FolderPlan::Keep => r == Ok::<FolderModel, Seq<char>>(folder),
        FolderPlan::Move(name) => {
            &&& move_may_end(
                exists_at,
                move_folder,
                folder.path,
                holder(folder).join(name),
                "Folder o tej nazwie już istnieje."@,
                moved,
            )
            &&& renamed_by(modified_of, folder, name, false, moved, r)
        },
        FolderPlan::CaseOnly(name) => {
            &&& case_change_may_end(
                exists_at,
                move_folder,
                show,
                holder(folder),
                folder.path,
                holder(folder).join(name),
                folder_words(),
                process,
                first_id,
                moved,
            )
            &&& renamed_by(modified_of, folder, name, true, moved, r)
        },
    }
}

/// Whether renaming a folder goes this way. Nothing moves where it is refused or the name
/// stays.
pub open spec fn folder_leg<
    E: Fn(&DocPath) -> bool,
    M: Fn(&DocPath, &DocPath) -> MoveOutcome,
>(
    exists_at: E,
    move_folder: M,
    folder: FolderModel,
    plan: FolderPlan,
    process: u32,
    first_id: u64,
    from: PathModel,
    to: PathModel,
) -> bool {
    match plan {
        FolderPlan::Refuse(_) => false,
        FolderPlan::Keep => false,
        FolderPlan::Move(name) => plain_leg(
            exists_at,
            folder.path,
            holder(folder).join(name),
            from,
            to,
        ),
        FolderPlan::CaseOnly(name) => case_leg(
            exists_at,
            move_folder,
            holder(folder),
            folder.path,
            holder(folder).join(name),
            folder_words(),
            process,
            first_id,
            from,
            to,
        ),
    }
}

fn finish_rename<T: Fn(&DocPath) -> u64>(
    folder: &FolderInfo,
    name: String,
    case_only: bool,
    target: DocPath,
    modified_of: &T,
) -> (r: Result<FolderInfo, String>)
    requires
        target@ == holder(folder@).join(name@),
        forall|path: &DocPath| #[trigger] call_requires(*modified_of, (path,)),
    ensures
        renamed_at_some_time(*modified_of, folder@, name@, case_only, folder_result(r)),
{
    let found: u64 = modified_of(&target);
    assert(time_told(*modified_of, target@, found));
    let modified_secs: u64 = if case_only {
        if found > folder.modified_secs {
            found
        } else {
            folder.modified_secs
        }
    } else if found == 0 {
        folder.modified_secs
    } else {
        found
    };
    Ok(FolderInfo { name, path: target, pdf_count: folder.pdf_count, modified_secs })
}

/// Renames a folder of the library.
pub fn rename_folder<
    E: Fn(&DocPath) -> bool,
    M: Fn(&DocPath, &DocPath) -> MoveOutcome,
    S: Fn(&DocPath) -> String,
    T: Fn(&DocPath) -> u64,
>(
    folder: &FolderInfo,
    requested_name: &str,
    ignores_case: bool,
    process: u32,
    first_id: u64,
    exists_at: E,
    move_folder: M,
    show: S,
    modified_of: T,
) -> (r: Result<FolderInfo, String>)
    requires
        first_id + ATTEMPTS <= u64::MAX,
        forall|path: &DocPath| #[trigger] call_requires(exists_at, (path,)),
        forall|path: &DocPath| #[trigger] call_requires(show, (path,)),
        forall|path: &DocPath| #[trigger] call_requires(modified_of, (path,)),
        forall|from: &DocPath, to: &DocPath|
            folder_leg(
                exists_at,
                move_folder,
                folder@,
                folder_plan(folder@, requested_name@, ignores_case),
                process,
                first_id,
                from@,
                to@,
            ) ==> #[trigger] call_requires(move_folder, (from, to)),
    ensures
        exists|moved: Result<PathModel, Seq<char>>| #[trigger]
            folder_rename_may_end(
                exists_at,
                move_folder,
                show,
                modified_of,
                folder@,
                folder_plan(folder@, requested_name@, ignores_case),
                process,
                first_id,
                moved,
                folder_result(r),
            ),
{
    let ghost plan = folder_plan(folder@, requested_name@, ignores_case);
    let ghost nothing = Err::<PathModel, Seq<char>>(Seq::empty());
    let name: String = match validate_windows_name(requested_name, "Nazwa folderu") {
        Ok(name) => name,
        Err(problem) => {
            let r: Result<FolderInfo, String> = Err(problem);
            assert(folder_rename_may_end(
                exists_at,
                move_folder,
                show,
                modified_of,
                folder@,
                plan,
                process,
                first_id,
                nothing,
                folder_result(r),
            ));
            return r;
        },
    };
    if name == folder.name {
        let r: Result<FolderInfo, String> = Ok(folder.copy());
        assert(folder_rename_may_end(
            exists_at,
            move_folder,
            show,
            modified_of,
            folder@,
            plan,
            process,
            first_id,
            nothing,
            folder_result(r),
        ));
        return r;
    }
    let parent: DocPath = match folder.path.parent() {
        Some(parent) => parent,
        None => {
            let r: Result<FolderInfo, String> = Err(
                "Nie można zmienić nazwy tego folderu.".to_owned(),
            );
            assert(folder_rename_may_end(
                exists_at,
                move_folder,
                show,
                modified_of,
                folder@,
                plan,
                process,
                first_id,
                nothing,
                folder_result(r),
            ));
            return r;
        },
    };
    assert(parent@ == holder(folder@));
    let target: DocPath = parent.join(name.as_str());
    let case_only: bool = ignores_case && lowercase_text(folder.name.as_str()) == lowercase_text(
        name.as_str(),
    );
    let moved: Result<DocPath, String> = if case_only {
        change_case(
            &parent,
            &folder.path,
            &target,
            true,
            process,
            first_id,
            &exists_at,
            &move_folder,
            &show,
        )
    } else {
        plain_move(
            &folder.path,
            target.copy(),
            "Folder o tej nazwie już istnieje.",
            &exists_at,
            &move_folder,
        )
    };
    let ghost outcome = crate::file_actions::path_result(moved);
    let r: Result<FolderInfo, String> = match moved {
        Err(message) => Err(message),
        Ok(_) => finish_rename(folder, name, case_only, target, &modified_of),
    };
    assert(folder_rename_may_end(
        exists_at,
        move_folder,
        show,
        modified_of,
        folder@,
        plan,
        process,
        first_id,
        outcome,
        folder_result(r),
    ));
    r
}

/// Renaming a folder to the name it has moves nothing, and neither does a name that is
/// refused.
pub proof fn law_kept_and_refused_names_move_nothing<
    E: Fn(&DocPath) -> bool,
    M: Fn(&DocPath, &DocPath) -> MoveOutcome,
>(
    exists_at: E,
    move_folder: M,
    folder: FolderModel,
    requested_name: Seq<char>,
    ignores_case: bool,
    process: u32,
    first_id: u64,
    from: PathModel,
    to: PathModel,
)
    requires
        checked_name(requested_name, "Nazwa folderu"@) matches Ok(name) ==> name == folder.name,
    ensures
        !folder_leg(
            exists_at,
            move_folder,
            folder,
            folder_plan(folder, requested_name, ignores_case),
            process,
            first_id,
            from,
            to,
        ),
{
}

/// Where the case of a name matters, a folder is never renamed onto another: it moves only
/// to a place beside it that was found free.
pub proof fn law_folders_move_to_free_places<
    E: Fn(&DocPath) -> bool,
    M: Fn(&DocPath, &DocPath) -> MoveOutcome,
>(
    exists_at: E,
    move_folder: M,
    folder: FolderModel,
    requested_name: Seq<char>,
    process: u32,
    first_id: u64,
    from: PathModel,
    to: PathModel,
)
    requires
        folder_leg(
            exists_at,
            move_folder,
            folder,
            folder_plan(folder, requested_name, false),
            process,
            first_id,
            from,
            to,
        ),
    ensures
        from == folder.path,
        to.parent() == folder.path.parent(),
        answered(exists_at, to, false),
{
    let name = checked_name(requested_name, "Nazwa folderu"@)->Ok_0;
    assert(holder(folder).join(name).parts.drop_last() =~= holder(folder).parts);
}

/// What is known of a file from the file system, or why it is not.
#[derive(Debug)]
pub enum FileFacts {
    NotAFile,
    Unreadable { error: String },
    File { size_bytes: u64, modified_secs: u64 },
}

pub open spec fn pdf_result(r: Result<PdfInfo, String>) -> Result<PdfModel, Seq<char>> {
    match r {
        Ok(pdf) => Ok(pdf@),
        Err(message) => Err(message@),
    }
}

/// What the library knows of a single document.
pub open spec fn document_facts(path: PathModel, facts: FileFacts) -> Result<PdfModel, Seq<char>> {
    if facts is NotAFile || path.file_name() is None || !is_pdf_name(path.parts.last()) {
        Err("Wybrany plik nie jest dostępnym plikiem PDF."@)
    } else {
        let folder = PathModel { anchor: path.anchor, parts: path.parts.drop_last() };
        match facts {
            FileFacts::File { size_bytes, modified_secs } => Ok(
                PdfModel {
                    name: path.parts.last(),
                    path,
                    folder_name: display_name(folder),
                    folder_path: folder,
                    size_bytes,
                    modified_secs,
                },
            ),
            FileFacts::Unreadable { error } => Err(io_message(error@)),
            FileFacts::NotAFile => Err("Wybrany plik nie jest dostępnym plikiem PDF."@),
        }
    }
}

/// Puts together what the library knows of a single document.
pub fn pdf_info(path: &DocPath, facts: FileFacts) -> (r: Result<PdfInfo, String>)
    ensures
        pdf_result(r) == document_facts(path@, facts),
{
    let (name, folder_path): (String, DocPath) = match (path.file_name(), path.parent()) {
        (Some(name), Some(folder)) => (name, folder),
        _ => {
            return Err("Wybrany plik nie jest dostępnym plikiem PDF.".to_owned());
        },
    };
    if !has_pdf_extension(name.as_str()) {
        return Err("Wybrany plik nie jest dostępnym plikiem PDF.".to_owned());
    }
    match facts {
        FileFacts::NotAFile => Err("Wybrany plik nie jest dostępnym plikiem PDF.".to_owned()),
        FileFacts::Unreadable { error } => Err(display_io_error(error.as_str())),
        FileFacts::File { size_bytes, modified_secs } => {
            let folder_name: String = match folder_path.file_name() {
                Some(name) => name,
                None => String::new(),
            };
            assert(folder_name@ =~= display_name(folder_path@));
            Ok(
                PdfInfo {
                    name,
                    path: path.copy(),
                    folder_name,
                    folder_path,
                    size_bytes,
                    modified_secs,
                },
            )
        },
    }
}

/// What the program remembers from one run to the next.
#[derive(Debug)]
pub struct Settings {
    pub library_root: Option<DocPath>,
    pub last_folder: Option<String>,
    pub last_folder_path: Option<DocPath>,
    pub recent_documents: Vec<DocPath>,
    pub auto_capture: Option<bool>,
    pub backend_url: Option<String>,
    pub salon_id: Option<String>,
    pub scan_api_key: Option<String>,
    /// Nothing stands for black and white.
    pub color_mode: Option<ColorMode>,
}

impl Settings {
    /// Whether nothing is remembered.
    pub open spec fn is_blank(self) -> bool {
        &&& self.library_root is None
        &&& self.last_folder is None
        &&& self.last_folder_path is None
        &&& self.recent_documents@.len() == 0
        &&& self.auto_capture is None
        &&& self.backend_url is None
        &&& self.salon_id is None
        &&& self.scan_api_key is None
        &&& self.color_mode is None
    }

    /// The mode in which pages are kept.
    pub fn page_mode(&self) -> (r: ColorMode)
        ensures
            r == match self.color_mode {
                Some(mode) => mode,
                None => ColorMode::BlackWhite,
            },
    {
        match self.color_mode {
            Some(mode) => mode,
            None => ColorMode::BlackWhite,
        }
    }
}

impl Default for Settings {
    fn default() -> (r: Settings)
        ensures
            r.is_blank(),
    {
        Settings {
            library_root: None,
            last_folder: None,
            last_folder_path: None,
            recent_documents: Vec::new(),
            auto_capture: None,
            backend_url: None,
            salon_id: None,
            scan_api_key: None,
            color_mode: None,
        }
    }
}

/// The settings that are used: those kept, else their backup, else none.
pub fn load_settings(kept: Option<Settings>, backup: Option<Settings>) -> (r: Settings)
    ensures
        match (kept, backup) {
            (Some(kept), _) => r == kept,
            (None, Some(backup)) => r == backup,
            (None, None) => r.is_blank(),
        },
{
    match kept {
        Some(kept) => kept,
        None => match backup {
            Some(backup) => backup,
            None => Settings::default(),
        },
    }
}

/// Where the backup of the settings stands: beside them.
pub fn settings_backup_path(path: &DocPath) -> (r: DocPath)
    requires
        path@.parts.len() > 0,
    ensures
        r@ == (PathModel {
            anchor: path@.anchor,
            parts: path@.parts.drop_last().push(path@.parts.last() + ".bak"@),
        }),
{
    match path.parent() {
        Some(folder) => {
            let mut backup: String = path.parts[path.parts.len() - 1].clone();
            backup.append(".bak");
            folder.join(backup.as_str())
        },
        None => path.copy(),
    }
}

} // verus!
