//! Renaming, moving and recycling documents, never at the price of a document.
//!
//! What the file system does comes in through functions that the caller gives; the
//! contracts speak of what those functions answered.

use vstd::prelude::*;
use crate::paths::{path_models, DocPath, PathModel};
use crate::storage::{
    has_pdf_extension, is_first_free, is_first_free_place, is_pdf_name, is_unique_path,
    normalized_pdf_stem, pdf_stem, unique_pdf_path,
};
use crate::text::{decimal, decimal_text, lowercase_text, text_lowercase};

verus! {

/// How often a name is tried before giving up.
pub const ATTEMPTS: u64 = 100;

/// What stands at the place of a document.
#[derive(Debug)]
pub enum SourceKind {
    File,
    Missing,
    Unreadable { error: String },
    Link,
    Other,
}

/// What came of moving a file to a place that must be free.
#[derive(Debug)]
pub enum MoveOutcome {
    Moved,
    AlreadyExists { error: String },
    Failed { error: String },
}

pub open spec fn io_message(error: Seq<char>) -> Seq<char> {
    "Błąd systemu plików: "@ + error
}

pub fn display_io_error(error: &str) -> (r: String)
    ensures
        r@ == io_message(error@),
{
    let mut message: String = "Błąd systemu plików: ".to_owned();
    message.append(error);
    message
}

/// The message for a move that did not happen.
pub open spec fn move_error(outcome: MoveOutcome) -> Option<Seq<char>> {
    match outcome {
        MoveOutcome::Moved => None,
        MoveOutcome::AlreadyExists { error } => Some(error@),
        MoveOutcome::Failed { error } => Some(error@),
    }
}

fn error_of(outcome: MoveOutcome) -> (r: Option<String>)
    ensures
        r is None <==> move_error(outcome) is None,
        r matches Some(error) ==> move_error(outcome) == Some(error@),
{
    match outcome {
        MoveOutcome::Moved => None,
        MoveOutcome::AlreadyExists { error } => Some(error),
        MoveOutcome::Failed { error } => Some(error),
    }
}

/// Why a path is no document that can be worked on.
pub open spec fn source_problem(path: PathModel, kind: SourceKind) -> Option<Seq<char>> {
    match kind {
        SourceKind::Missing => Some("Plik nie istnieje."@),
        SourceKind::Unreadable { error } => Some(io_message(error@)),
        SourceKind::Link => Some("Skróty i dowiązania do plików PDF nie są obsługiwane."@),
        SourceKind::Other => Some("Plik nie istnieje."@),
        SourceKind::File => match path.file_name() {
            Some(name) if is_pdf_name(name) => None,
            _ => Some("Wybrany plik nie jest plikiem PDF."@),
        },
    }
}

/// Whether a path is a document: a plain file with the right extension.
pub fn validate_pdf_source(path: &DocPath, kind: SourceKind) -> (r: Result<(), String>)
    ensures
        match source_problem(path@, kind) {
            None => r is Ok,
            Some(problem) => r is Err && r->Err_0@ == problem,
        },
{
    match kind {
        SourceKind::Missing => Err("Plik nie istnieje.".to_owned()),
        SourceKind::Unreadable { error } => Err(display_io_error(error.as_str())),
        SourceKind::Link => Err(
            "Skróty i dowiązania do plików PDF nie są obsługiwane.".to_owned(),
        ),
        SourceKind::Other => Err("Plik nie istnieje.".to_owned()),
        SourceKind::File => {
            match path.file_name() {
                Some(name) if has_pdf_extension(name.as_str()) => Ok(()),
                _ => Err("Wybrany plik nie jest plikiem PDF.".to_owned()),
            }
        },
    }
}

/// What renaming a document comes to.
pub ghost enum RenamePlan {
    Refuse(Seq<char>),
    Keep(PathModel),
    CaseOnly(PathModel),
    Move(PathModel),
}

/// What renaming comes to: a new name in the same folder. Where the file system does
/// not tell case apart, a change of case alone takes a detour.
pub open spec fn rename_plan(
    source: PathModel,
    kind: SourceKind,
    requested_name: Seq<char>,
    ignores_case: bool,
) -> RenamePlan {
    match source_problem(source, kind) {
        Some(problem) => RenamePlan::Refuse(problem),
        None => match pdf_stem(requested_name) {
            Err(problem) => RenamePlan::Refuse(problem),
            Ok(stem) => {
                let name = stem + ".pdf"@;
                let target = PathModel {
                    anchor: source.anchor,
                    parts: source.parts.drop_last().push(name),
                };
                if source == target {
                    RenamePlan::Keep(target)
                } else if ignores_case && text_lowercase(source.parts.last()) == text_lowercase(
                    name,
                ) {
                    RenamePlan::CaseOnly(target)
                } else {
                    RenamePlan::Move(target)
                }
            },
        },
    }
}

/// Whether the file system answered that a place is taken, or free.
pub open spec fn answered<E: Fn(&DocPath) -> bool>(
    exists_at: E,
    place: PathModel,
    taken: bool,
) -> bool {
    exists|path: DocPath| path@ == place && #[trigger] call_ensures(exists_at, (&path,), taken)
}

/// Whether moving from one place to another ended with an outcome.
pub open spec fn moving_gave<M: Fn(&DocPath, &DocPath) -> MoveOutcome>(
    move_file: M,
    from: PathModel,
    to: PathModel,
    error: Option<Seq<char>>,
) -> bool {
    exists|source: DocPath, target: DocPath, outcome: MoveOutcome|
        source@ == from && target@ == to && move_error(outcome) == error && #[trigger] call_ensures(
            move_file,
            (&source, &target),
            outcome,
        )
}

/// How a plain move of a document can end.
pub open spec fn move_may_end<
    E: Fn(&DocPath) -> bool,
    M: Fn(&DocPath, &DocPath) -> MoveOutcome,
>(
    exists_at: E,
    move_file: M,
    source: PathModel,
    target: PathModel,
    taken_message: Seq<char>,
    r: Result<PathModel, Seq<char>>,
) -> bool {
    match r {
        Ok(path) => {
            &&& path == target
            &&& answered(exists_at, target, false)
            &&& moving_gave(move_file, source, target, None)
        },
        Err(message) => {
            ||| message == taken_message && answered(exists_at, target, true)
            ||| answered(exists_at, target, false) && failed_with(move_file, source, target, message)
        },
    }
}

/// Whether a move failed, with the message that follows from it.
pub open spec fn failed_with<M: Fn(&DocPath, &DocPath) -> MoveOutcome>(
    move_file: M,
    from: PathModel,
    to: PathModel,
    message: Seq<char>,
) -> bool {
    exists|error: Seq<char>| #[trigger]
        moving_gave(move_file, from, to, Some(error)) && message == io_message(error)
}

/// Whether a plain move goes this way: from the document's place to the target, once the
/// target was found free.
pub open spec fn plain_leg<E: Fn(&DocPath) -> bool>(
    exists_at: E,
    source: PathModel,
    target: PathModel,
    from: PathModel,
    to: PathModel,
) -> bool {
    &&& from == source
    &&& to == target
    &&& answered(exists_at, target, false)
}

/// Whether a move by a detour goes this way: there, then on to the target, and back only
/// where that failed.
pub open spec fn detour_leg<M: Fn(&DocPath, &DocPath) -> MoveOutcome>(
    move_file: M,
    source: PathModel,
    detour: PathModel,
    target: PathModel,
    from: PathModel,
    to: PathModel,
) -> bool {
    ||| from == source && to == detour
    ||| from == detour && to == target && moving_gave(move_file, source, detour, None)
    ||| {
        &&& from == detour
        &&& to == source
        &&& moving_gave(move_file, source, detour, None)
        &&& exists|error: Seq<char>| #[trigger]
            moving_gave(move_file, detour, target, Some(error))
    }
}

/// Whether a change of case goes this way, by a detour that was free.
pub open spec fn case_leg<
    E: Fn(&DocPath) -> bool,
    M: Fn(&DocPath, &DocPath) -> MoveOutcome,
>(
    exists_at: E,
    move_file: M,
    folder: PathModel,
    source: PathModel,
    target: PathModel,
    words: CaseWords,
    process: u32,
    first_id: u64,
    from: PathModel,
    to: PathModel,
) -> bool {
    exists|detour: DocPath, id: u64| #[trigger]
        is_free_detour(
            exists_at,
            folder,
            words.prefix,
            process,
            first_id,
            words.suffix,
            detour,
            id,
        ) && detour_leg(move_file, source, detour@, target, from, to)
}

/// Whether renaming a document goes this way. Nothing moves where it is refused or the
/// name stays.
pub open spec fn rename_leg<
    E: Fn(&DocPath) -> bool,
    M: Fn(&DocPath, &DocPath) -> MoveOutcome,
>(
    exists_at: E,
    move_file: M,
    source: PathModel,
    plan: RenamePlan,
    process: u32,
    first_id: u64,
    from: PathModel,
    to: PathModel,
) -> bool {
    match plan {
        RenamePlan::Refuse(_) => false,
        RenamePlan::Keep(_) => false,
        RenamePlan::Move(target) => plain_leg(exists_at, source, target, from, to),
        RenamePlan::CaseOnly(target) => case_leg(
            exists_at,
            move_file,
            PathModel { anchor: source.anchor, parts: source.parts.drop_last() },
            source,
            target,
            file_words(),
            process,
            first_id,
            from,
            to,
        ),
    }
}

pub open spec fn case_failed(noun: Seq<char>, error: Seq<char>) -> Seq<char> {
    "Nie można zmienić wielkości liter w nazwie "@ + noun + ": "@ + error
}

pub open spec fn case_stranded(
    noun: Seq<char>,
    place: Seq<char>,
    error: Seq<char>,
    rollback: Seq<char>,
) -> Seq<char> {
    "Nie można dokończyć zmiany nazwy. "@ + noun + " pozostał jako "@ + place + ". Błąd: "@ + error
        + "; przywracanie: "@ + rollback
}

/// Where a document is once renaming by a detour has ended.
pub ghost enum Whereabouts {
    Source,
    Target,
    Detour,
}

/// How a change of case can end, with the place where the document then is. It goes by a
/// detour; where the last leg fails it is taken back, and only where that fails too does
/// it stay at the detour, which the message names.
pub open spec fn detour_may_end<M: Fn(&DocPath, &DocPath) -> MoveOutcome>(
    move_file: M,
    source: PathModel,
    detour: PathModel,
    detour_text: Seq<char>,
    target: PathModel,
    genitive: Seq<char>,
    noun: Seq<char>,
    r: Result<PathModel, Seq<char>>,
    whereabouts: Whereabouts,
) -> bool {
    match r {
        Ok(path) => {
            &&& path == target
            &&& moving_gave(move_file, source, detour, None)
            &&& moving_gave(move_file, detour, target, None)
            &&& whereabouts == Whereabouts::Target
        },
        Err(message) => {
            ||| failed_with(move_file, source, detour, message) && whereabouts
                == Whereabouts::Source
            ||| rolled_back(move_file, source, detour, target, genitive, message) && whereabouts
                == Whereabouts::Source
            ||| stranded(move_file, source, detour, detour_text, target, noun, message)
                && whereabouts == Whereabouts::Detour
        },
    }
}

/// Whether the second leg failed and the document was taken back.
pub open spec fn rolled_back<M: Fn(&DocPath, &DocPath) -> MoveOutcome>(
    move_file: M,
    source: PathModel,
    detour: PathModel,
    target: PathModel,
    genitive: Seq<char>,
    message: Seq<char>,
) -> bool {
    &&& moving_gave(move_file, source, detour, None)
    &&& moving_gave(move_file, detour, source, None)
    &&& exists|error: Seq<char>| #[trigger]
        moving_gave(move_file, detour, target, Some(error)) && message == case_failed(
            genitive,
            error,
        )
}

/// Whether the second leg failed and so did taking the document back.
pub open spec fn stranded<M: Fn(&DocPath, &DocPath) -> MoveOutcome>(
    move_file: M,
    source: PathModel,
    detour: PathModel,
    detour_text: Seq<char>,
    target: PathModel,
    noun: Seq<char>,
    message: Seq<char>,
) -> bool {
    &&& moving_gave(move_file, source, detour, None)
    &&& exists|error: Seq<char>, rollback: Seq<char>| #[trigger]
        moving_gave(move_file, detour, target, Some(error)) && #[trigger] moving_gave(
            move_file,
            detour,
            source,
            Some(rollback),
        ) && message == case_stranded(noun, detour_text, error, rollback)
}

/// The name of a detour.
pub open spec fn detour_name(
    prefix: Seq<char>,
    process: u32,
    id: u64,
    suffix: Seq<char>,
) -> Seq<char> {
    prefix + decimal(process as nat) + "-"@ + decimal(id as nat) + suffix
}

pub open spec fn detours_taken<E: Fn(&DocPath) -> bool>(
    exists_at: E,
    folder: PathModel,
    prefix: Seq<char>,
    process: u32,
    first_id: u64,
    suffix: Seq<char>,
    n: int,
) -> bool {
    forall|k: int|
        0 <= k < n ==> answered(
            exists_at,
            folder.join(#[trigger] detour_name(prefix, process, (first_id + k) as u64, suffix)),
            true,
        )
}

pub open spec fn is_free_detour<E: Fn(&DocPath) -> bool>(
    exists_at: E,
    folder: PathModel,
    prefix: Seq<char>,
    process: u32,
    first_id: u64,
    suffix: Seq<char>,
    path: DocPath,
    id: u64,
) -> bool {
    &&& first_id <= id < first_id + ATTEMPTS
    &&& path@ == folder.join(detour_name(prefix, process, id, suffix))
    &&& call_ensures(exists_at, (&path,), false)
    &&& detours_taken(exists_at, folder, prefix, process, first_id, suffix, id - first_id)
}

/// The first free detour in a folder, of a hundred.
pub fn reserve_rename_path<E: Fn(&DocPath) -> bool>(
    folder: &DocPath,
    prefix: &str,
    suffix: &str,
    process: u32,
    first_id: u64,
    exists_at: &E,
) -> (r: Option<(DocPath, u64)>)
    requires
        first_id + ATTEMPTS <= u64::MAX,
        forall|path: &DocPath| #[trigger] call_requires(*exists_at, (path,)),
    ensures
        match r {
            Some((path, id)) => is_free_detour(
                *exists_at,
                folder@,
                prefix@,
                process,
                first_id,
                suffix@,
                path,
                id,
            ),
            None => detours_taken(
                *exists_at,
                folder@,
                prefix@,
                process,
                first_id,
                suffix@,
                ATTEMPTS as int,
            ),
        },
{
    let mut tried: u64 = 0;
    while tried < ATTEMPTS
        invariant
            tried <= ATTEMPTS,
            first_id + ATTEMPTS <= u64::MAX,
            forall|path: &DocPath| #[trigger] call_requires(*exists_at, (path,)),
            detours_taken(
                *exists_at,
                folder@,
                prefix@,
                process,
                first_id,
                suffix@,
                tried as int,
            ),
        decreases ATTEMPTS - tried,
    {
        let id: u64 = first_id + tried;
        let mut name: String = prefix.to_owned();
        name.append(decimal_text(process as u64).as_str());
        name.append("-");
        name.append(decimal_text(id).as_str());
        name.append(suffix);
        assert(name@ == detour_name(prefix@, process, id, suffix@));
        let path: DocPath = folder.join(name.as_str());
        let taken: bool = exists_at(&path);
        if !taken {
            return Some((path, id));
        }
        assert(answered(
            *exists_at,
            folder@.join(detour_name(prefix@, process, (first_id + tried) as u64, suffix@)),
            true,
        ));
        tried = tried + 1;
    }
    None
}

pub open spec fn path_result(r: Result<DocPath, String>) -> Result<PathModel, Seq<char>> {
    match r {
        Ok(path) => Ok(path@),
        Err(message) => Err(message@),
    }
}

/// Takes a file or folder by a detour to a name that differs in case alone. The words
/// are those for a file or for a folder.
pub fn move_by_detour<M: Fn(&DocPath, &DocPath) -> MoveOutcome>(
    source: &DocPath,
    detour: &DocPath,
    detour_text: &str,
    target: &DocPath,
    genitive: &str,
    noun: &str,
    move_file: &M,
) -> (r: Result<DocPath, String>)
    requires
        forall|from: &DocPath, to: &DocPath|
            detour_leg(*move_file, source@, detour@, target@, from@, to@)
                ==> #[trigger] call_requires(*move_file, (from, to)),
    ensures
        exists|whereabouts: Whereabouts| #[trigger]
            detour_may_end(
                *move_file,
                source@,
                detour@,
                detour_text@,
                target@,
                genitive@,
                noun@,
                path_result(r),
                whereabouts,
            ),
{
    let first: MoveOutcome = move_file(source, detour);
    if let Some(error) = error_of(first) {
        let message: String = display_io_error(error.as_str());
        assert(moving_gave(*move_file, source@, detour@, Some(error@)));
        let r: Result<DocPath, String> = Err(message);
        assert(failed_with(*move_file, source@, detour@, message@));
        assert(detour_may_end(
            *move_file,
            source@,
            detour@,
            detour_text@,
            target@,
            genitive@,
            noun@,
            path_result(r),
            Whereabouts::Source,
        ));
        return r;
    }
    assert(moving_gave(*move_file, source@, detour@, None));
    let second: MoveOutcome = move_file(detour, target);
    match error_of(second) {
        None => {
            assert(moving_gave(*move_file, detour@, target@, None));
            let r: Result<DocPath, String> = Ok(target.copy());
            assert(detour_may_end(
                *move_file,
                source@,
                detour@,
                detour_text@,
                target@,
                genitive@,
                noun@,
                path_result(r),
                Whereabouts::Target,
            ));
            r
        },
        Some(error) => {
            assert(moving_gave(*move_file, detour@, target@, Some(error@)));
            let back: MoveOutcome = move_file(detour, source);
            match error_of(back) {
                None => {
                    assert(moving_gave(*move_file, detour@, source@, None));
                    let mut message: String =
                        "Nie można zmienić wielkości liter w nazwie ".to_owned();
                    message.append(genitive);
                    message.append(": ");
                    message.append(error.as_str());
                    assert(message@ == case_failed(genitive@, error@));
                    let r: Result<DocPath, String> = Err(message);
                    assert(rolled_back(
                        *move_file,
                        source@,
                        detour@,
                        target@,
                        genitive@,
                        message@,
                    ));
                    assert(detour_may_end(
                        *move_file,
                        source@,
                        detour@,
                        detour_text@,
                        target@,
                        genitive@,
                        noun@,
                        path_result(r),
                        Whereabouts::Source,
                    ));
                    r
                },
                Some(rollback) => {
                    assert(moving_gave(*move_file, detour@, source@, Some(rollback@)));
                    let mut message: String = "Nie można dokończyć zmiany nazwy. ".to_owned();
                    message.append(noun);
                    message.append(" pozostał jako ");
                    message.append(detour_text);
                    message.append(". Błąd: ");
                    message.append(error.as_str());
                    message.append("; przywracanie: ");
                    message.append(rollback.as_str());
                    assert(message@ == case_stranded(noun@, detour_text@, error@, rollback@));
                    let r: Result<DocPath, String> = Err(message);
                    assert(stranded(
                        *move_file,
                        source@,
                        detour@,
                        detour_text@,
                        target@,
                        noun@,
                        message@,
                    ));
                    assert(detour_may_end(
                        *move_file,
                        source@,
                        detour@,
                        detour_text@,
                        target@,
                        genitive@,
                        noun@,
                        path_result(r),
                        Whereabouts::Detour,
                    ));
                    r
                },
            }
        },
    }
}

/// How a change of case can end: it needs a free detour first.
pub open spec fn case_change_may_end<
    E: Fn(&DocPath) -> bool,
    M: Fn(&DocPath, &DocPath) -> MoveOutcome,
    S: Fn(&DocPath) -> String,
>(
    exists_at: E,
    move_file: M,
    show: S,
    folder: PathModel,
    source: PathModel,
    target: PathModel,
    words: CaseWords,
    process: u32,
    first_id: u64,
    r: Result<PathModel, Seq<char>>,
) -> bool {
    ||| {
        &&& r == Err::<PathModel, Seq<char>>(words.no_name)
        &&& detours_taken(
            exists_at,
            folder,
            words.prefix,
            process,
            first_id,
            words.suffix,
            ATTEMPTS as int,
        )
    }
    ||| exists|detour: DocPath, id: u64, text: String, whereabouts: Whereabouts| #[trigger]
        went_by_detour(
            exists_at,
            move_file,
            show,
            folder,
            source,
            target,
            words,
            process,
            first_id,
            r,
            detour,
            id,
            text,
            whereabouts,
        )
}

/// Whether a change of case went by a detour that was free.
pub open spec fn went_by_detour<
    E: Fn(&DocPath) -> bool,
    M: Fn(&DocPath, &DocPath) -> MoveOutcome,
    S: Fn(&DocPath) -> String,
>(
    exists_at: E,
    move_file: M,
    show: S,
    folder: PathModel,
    source: PathModel,
    target: PathModel,
    words: CaseWords,
    process: u32,
    first_id: u64,
    r: Result<PathModel, Seq<char>>,
    detour: DocPath,
    id: u64,
    text: String,
    whereabouts: Whereabouts,
) -> bool {
    &&& is_free_detour(
        exists_at,
        folder,
        words.prefix,
        process,
        first_id,
        words.suffix,
        detour,
        id,
    )
    &&& call_ensures(show, (&detour,), text)
    &&& detour_may_end(
        move_file,
        source,
        detour@,
        text@,
        target,
        words.genitive,
        words.noun,
        r,
        whereabouts,
    )
}

/// The words and names with which a change of case is made.
pub ghost struct CaseWords {
    pub prefix: Seq<char>,
    pub suffix: Seq<char>,
    pub genitive: Seq<char>,
    pub noun: Seq<char>,
    pub no_name: Seq<char>,
}

pub open spec fn file_words() -> CaseWords {
    CaseWords {
        prefix: ".skaner-rename-recovery-"@,
        suffix: ".pdf"@,
        genitive: "pliku"@,
        noun: "Plik"@,
        no_name: "Nie można utworzyć unikalnej nazwy tymczasowej."@,
    }
}

pub open spec fn folder_words() -> CaseWords {
    CaseWords {
        prefix: ".skaner-folder-rename-recovery-"@,
        suffix: ""@,
        genitive: "folderu"@,
        noun: "Folder"@,
        no_name: "Nie można utworzyć nazwy tymczasowej folderu."@,
    }
}

/// How renaming a document can end.
pub open spec fn rename_may_end<
    E: Fn(&DocPath) -> bool,
    M: Fn(&DocPath, &DocPath) -> MoveOutcome,
    S: Fn(&DocPath) -> String,
>(
    exists_at: E,
    move_file: M,
    show: S,
    source: PathModel,
    plan: RenamePlan,
    process: u32,
    first_id: u64,
    r: Result<PathModel, Seq<char>>,
) -> bool {
    match plan {
        RenamePlan::Refuse(problem) => r == Err::<PathModel, Seq<char>>(problem),
        RenamePlan::Keep(target) => r == Ok::<PathModel, Seq<char>>(target),
        RenamePlan::Move(target) => move_may_end(
            exists_at,
            move_file,
            source,
            target,
            "Plik o tej nazwie już istnieje."@,
            r,
        ),
        RenamePlan::CaseOnly(target) => case_change_may_end(
            exists_at,
            move_file,
            show,
            PathModel { anchor: source.anchor, parts: source.parts.drop_last() },
            source,
            target,
            file_words(),
            process,
            first_id,
            r,
        ),
    }
}

pub(crate) fn plain_move<E: Fn(&DocPath) -> bool, M: Fn(&DocPath, &DocPath) -> MoveOutcome>(
    source: &DocPath,
    target: DocPath,
    taken_message: &str,
    exists_at: &E,
    move_file: &M,
) -> (r: Result<DocPath, String>)
    requires
        forall|path: &DocPath| #[trigger] call_requires(*exists_at, (path,)),
        forall|from: &DocPath, to: &DocPath|
            plain_leg(*exists_at, source@, target@, from@, to@)
                ==> #[trigger] call_requires(*move_file, (from, to)),
    ensures
        move_may_end(*exists_at, *move_file, source@, target@, taken_message@, path_result(r)),
{
    let taken: bool = exists_at(&target);
    if taken {
        assert(answered(*exists_at, target@, true));
        return Err(taken_message.to_owned());
    }
    assert(answered(*exists_at, target@, false));
    let outcome: MoveOutcome = move_file(source, &target);
    match error_of(outcome) {
        None => {
            assert(moving_gave(*move_file, source@, target@, None));
            Ok(target)
        },
        Some(error) => {
            assert(moving_gave(*move_file, source@, target@, Some(error@)));
            let message: String = display_io_error(error.as_str());
            assert(failed_with(*move_file, source@, target@, message@));
            Err(message)
        },
    }
}

pub(crate) fn change_case<
    E: Fn(&DocPath) -> bool,
    M: Fn(&DocPath, &DocPath) -> MoveOutcome,
    S: Fn(&DocPath) -> String,
>(
    folder: &DocPath,
    source: &DocPath,
    target: &DocPath,
    is_folder: bool,
    process: u32,
    first_id: u64,
    exists_at: &E,
    move_file: &M,
    show: &S,
) -> (r: Result<DocPath, String>)
    requires
        first_id + ATTEMPTS <= u64::MAX,
        forall|path: &DocPath| #[trigger] call_requires(*exists_at, (path,)),
        forall|path: &DocPath| #[trigger] call_requires(*show, (path,)),
        forall|from: &DocPath, to: &DocPath|
            case_leg(
                *exists_at,
                *move_file,
                folder@,
                source@,
                target@,
                if is_folder {
                    folder_words()
                } else {
                    file_words()
                },
                process,
                first_id,
                from@,
                to@,
            ) ==> #[trigger] call_requires(*move_file, (from, to)),
    ensures
        case_change_may_end(
            *exists_at,
            *move_file,
            *show,
            folder@,
            source@,
            target@,
            if is_folder {
                folder_words()
            } else {
                file_words()
            },
            process,
            first_id,
            path_result(r),
        ),
{
    let (prefix, suffix, genitive, noun, no_name): (&str, &str, &str, &str, &str) = if is_folder {
        (
            ".skaner-folder-rename-recovery-",
            "",
            "folderu",
            "Folder",
            "Nie można utworzyć nazwy tymczasowej folderu.",
        )
    } else {
        (
            ".skaner-rename-recovery-",
            ".pdf",
            "pliku",
            "Plik",
            "Nie można utworzyć unikalnej nazwy tymczasowej.",
        )
    };
    match reserve_rename_path(folder, prefix, suffix, process, first_id, exists_at) {
        None => Err(no_name.to_owned()),
        Some((detour, id)) => {
            let text: String = show(&detour);
            proof {
                let words = if is_folder {
                    folder_words()
                } else {
                    file_words()
                };
                assert(is_free_detour(
                    *exists_at,
                    folder@,
                    words.prefix,
                    process,
                    first_id,
                    words.suffix,
                    detour,
                    id,
                ));
                assert forall|from: &DocPath, to: &DocPath|
                    detour_leg(
                        *move_file,
                        source@,
                        detour@,
                        target@,
                        from@,
                        to@,
                    ) implies #[trigger] call_requires(*move_file, (from, to)) by {
                    assert(case_leg(
                        *exists_at,
                        *move_file,
                        folder@,
                        source@,
                        target@,
                        words,
                        process,
                        first_id,
                        from@,
                        to@,
                    ));
                }
            }
            let r: Result<DocPath, String> = move_by_detour(
                source,
                &detour,
                text.as_str(),
                target,
                genitive,
                noun,
                move_file,
            );
            proof {
                let whereabouts = choose|whereabouts: Whereabouts| #[trigger]
                    detour_may_end(
                        *move_file,
                        source@,
                        detour@,
                        text@,
                        target@,
                        genitive@,
                        noun@,
                        path_result(r),
                        whereabouts,
                    );
                let words = if is_folder {
                    folder_words()
                } else {
                    file_words()
                };
                assert(went_by_detour(
                    *exists_at,
                    *move_file,
                    *show,
                    folder@,
                    source@,
                    target@,
                    words,
                    process,
                    first_id,
                    path_result(r),
                    detour,
                    id,
                    text,
                    whereabouts,
                ));
            }
            r
        },
    }
}

/// Renames the directory entry only; the bytes of the document are not read. `kind`
/// tells what stands at its place, and `ignores_case` whether the file system tells
/// case apart.
pub fn rename_pdf<
    E: Fn(&DocPath) -> bool,
    M: Fn(&DocPath, &DocPath) -> MoveOutcome,
    S: Fn(&DocPath) -> String,
>(
    source: &DocPath,
    kind: SourceKind,
    requested_name: &str,
    ignores_case: bool,
    process: u32,
    first_id: u64,
    exists_at: E,
    move_file: M,
    show: S,
) -> (r: Result<DocPath, String>)
    requires
        first_id + ATTEMPTS <= u64::MAX,
        forall|path: &DocPath| #[trigger] call_requires(exists_at, (path,)),
        forall|path: &DocPath| #[trigger] call_requires(show, (path,)),
        forall|from: &DocPath, to: &DocPath|
            rename_leg(
                exists_at,
                move_file,
                source@,
                rename_plan(source@, kind, requested_name@, ignores_case),
                process,
                first_id,
                from@,
                to@,
            ) ==> #[trigger] call_requires(move_file, (from, to)),
    ensures
        rename_may_end(
            exists_at,
            move_file,
            show,
            source@,
            rename_plan(source@, kind, requested_name@, ignores_case),
            process,
            first_id,
            path_result(r),
        ),
{
    let ghost plan = rename_plan(source@, kind, requested_name@, ignores_case);
    if let Err(problem) = validate_pdf_source(source, kind) {
        return Err(problem);
    }
    let (folder, old_name): (DocPath, String) = match (source.parent(), source.file_name()) {
        (Some(folder), Some(name)) => (folder, name),
        _ => {
            return Err("Nie można zmienić nazwy tego pliku.".to_owned());
        },
    };
    let mut name: String = match normalized_pdf_stem(requested_name) {
        Ok(stem) => stem,
        Err(problem) => {
            return Err(problem);
        },
    };
    name.append(".pdf");
    let target: DocPath = folder.join(name.as_str());
    if source.same(&target) {
        return Ok(target);
    }
    if ignores_case && lowercase_text(old_name.as_str()) == lowercase_text(name.as_str()) {
        assert(plan == RenamePlan::CaseOnly(target@));
        return change_case(
            &folder,
            source,
            &target,
            false,
            process,
            first_id,
            &exists_at,
            &move_file,
            &show,
        );
    }
    assert(plan == RenamePlan::Move(target@));
    plain_move(source, target, "Plik o tej nazwie już istnieje.", &exists_at, &move_file)
}

/// Whether the place for a document, and then the document itself, was lost to another
/// file that came first.
pub open spec fn lost_race<
    E: Fn(&DocPath) -> bool,
    M: Fn(&DocPath, &DocPath) -> MoveOutcome,
>(
    exists_at: E,
    move_file: M,
    source: PathModel,
    folder: PathModel,
    name: Seq<char>,
) -> bool {
    exists|place: DocPath| #[trigger] lost_place(exists_at, move_file, source, folder, name, place)
}

/// Whether a place that was free was taken when the document came.
pub open spec fn lost_place<
    E: Fn(&DocPath) -> bool,
    M: Fn(&DocPath, &DocPath) -> MoveOutcome,
>(
    exists_at: E,
    move_file: M,
    source: PathModel,
    folder: PathModel,
    name: Seq<char>,
    place: DocPath,
) -> bool {
    &&& is_unique_path(exists_at, folder, name, Ok(place))
    &&& exists|from: DocPath, outcome: MoveOutcome|
        from@ == source && #[trigger] call_ensures(move_file, (&from, &place), outcome) && (
        outcome is AlreadyExists || (outcome is Failed && answered(exists_at, place@, true)))
}

/// How moving a document into a folder can end, where both stay if the name is taken.
pub open spec fn keep_both_may_end<
    E: Fn(&DocPath) -> bool,
    M: Fn(&DocPath, &DocPath) -> MoveOutcome,
>(
    exists_at: E,
    move_file: M,
    source: PathModel,
    kind: SourceKind,
    folder: PathModel,
    r: Result<PathModel, Seq<char>>,
) -> bool {
    match source_problem(source, kind) {
        Some(problem) => r == Err::<PathModel, Seq<char>>(problem),
        None => {
            let name = source.parts.last();
            match r {
                Ok(path) => arrived_at(exists_at, move_file, source, folder, name, path),
                Err(message) => {
                    ||| no_place(exists_at, folder, name, message)
                    ||| broke_off(exists_at, move_file, source, folder, name, message)
                    ||| {
                        &&& message == "Nie można utworzyć unikalnej nazwy pliku."@
                        &&& lost_race(exists_at, move_file, source, folder, name)
                    }
                },
            }
        },
    }
}

/// Whether a document was moved to the first free place for its name.
pub open spec fn arrived_at<
    E: Fn(&DocPath) -> bool,
    M: Fn(&DocPath, &DocPath) -> MoveOutcome,
>(
    exists_at: E,
    move_file: M,
    source: PathModel,
    folder: PathModel,
    name: Seq<char>,
    path: PathModel,
) -> bool {
    &&& moving_gave(move_file, source, path, None)
    &&& exists|place: DocPath|
        place@ == path && #[trigger] is_unique_path(exists_at, folder, name, Ok(place))
}

/// Whether a folder has no place for a name, and this says why.
pub open spec fn no_place<E: Fn(&DocPath) -> bool>(
    exists_at: E,
    folder: PathModel,
    name: Seq<char>,
    message: Seq<char>,
) -> bool {
    exists|text: String|
        text@ == message && #[trigger] is_unique_path(exists_at, folder, name, Err(text))
}

/// Whether moving failed though the place was free, and this says why.
pub open spec fn broke_off<
    E: Fn(&DocPath) -> bool,
    M: Fn(&DocPath, &DocPath) -> MoveOutcome,
>(
    exists_at: E,
    move_file: M,
    source: PathModel,
    folder: PathModel,
    name: Seq<char>,
    message: Seq<char>,
) -> bool {
    exists|place: DocPath| #[trigger]
        is_unique_path(exists_at, folder, name, Ok(place)) && failed_with(
            move_file,
            source,
            place@,
            message,
        ) && answered(exists_at, place@, false)
}

/// Whether moving a document into a folder goes this way: from its own place to the first
/// free one, and only where the document is one.
pub open spec fn keep_both_leg<E: Fn(&DocPath) -> bool>(
    exists_at: E,
    source: PathModel,
    kind: SourceKind,
    folder: PathModel,
    from: DocPath,
    to: DocPath,
) -> bool {
    &&& from@ == source
    &&& source_problem(source, kind) is None
    &&& is_unique_path(exists_at, folder, source.parts.last(), Ok(to))
}

/// What came of one try at a free name.
#[derive(Debug, Clone, Copy, PartialEq, Eq, Structural)]
pub enum TryOutcome {
    Done,
    /// Something took the name first.
    Taken,
    Failed,
}

/// What follows a try at a free name.
#[derive(Debug, Clone, Copy, PartialEq, Eq, Structural)]
pub enum TryStep {
    Finish,
    TryNext,
    GiveUp,
    Fail,
}

/// A name that was taken is followed by the next free one, until a hundred were tried.
pub open spec fn step_after(tried: u64, outcome: TryOutcome) -> TryStep {
    match outcome {
        TryOutcome::Done => TryStep::Finish,
        TryOutcome::Failed => TryStep::Fail,
        TryOutcome::Taken => if tried + 1 < ATTEMPTS {
            TryStep::TryNext
        } else {
            TryStep::GiveUp
        },
    }
}

/// Decides what follows a try, by how many there were before.
pub fn after_try(tried: u64, outcome: TryOutcome) -> (r: TryStep)
    ensures
        r == step_after(tried, outcome),
{
    match outcome {
        TryOutcome::Done => TryStep::Finish,
        TryOutcome::Failed => TryStep::Fail,
        TryOutcome::Taken => if tried < ATTEMPTS - 1 {
            TryStep::TryNext
        } else {
            TryStep::GiveUp
        },
    }
}

/// Moves a document into a folder under the first free name, trying again where another
/// file takes the name first.
pub fn move_pdf_keep_both<
    E: Fn(&DocPath) -> bool,
    M: Fn(&DocPath, &DocPath) -> MoveOutcome,
>(
    source: &DocPath,
    kind: SourceKind,
    target_folder: &DocPath,
    exists_at: &E,
    move_file: &M,
) -> (r: Result<DocPath, String>)
    requires
        forall|path: &DocPath| #[trigger] call_requires(*exists_at, (path,)),
        forall|from: &DocPath, to: &DocPath|
            keep_both_leg(*exists_at, source@, kind, target_folder@, *from, *to)
                ==> #[trigger] call_requires(*move_file, (from, to)),
    ensures
        keep_both_may_end(
            *exists_at,
            *move_file,
            source@,
            kind,
            target_folder@,
            path_result(r),
        ),
{
    if let Err(problem) = validate_pdf_source(source, kind) {
        return Err(problem);
    }
    let name: String = match source.file_name() {
        Some(name) => name,
        None => {
            return Err("Nazwa pliku nie jest obsługiwana.".to_owned());
        },
    };
    let ghost folder = target_folder@;
    let mut tried: u64 = 0;
    loop
        invariant
            tried < ATTEMPTS,
            folder == target_folder@,
            source@.parts.len() > 0,
            name@ == source@.parts.last(),
            source_problem(source@, kind) is None,
            forall|path: &DocPath| #[trigger] call_requires(*exists_at, (path,)),
            forall|from: &DocPath, to: &DocPath|
                keep_both_leg(*exists_at, source@, kind, target_folder@, *from, *to)
                    ==> #[trigger] call_requires(*move_file, (from, to)),
        decreases ATTEMPTS - tried,
    {
        let place: DocPath = match unique_pdf_path(target_folder, name.as_str(), exists_at) {
            Ok(place) => place,
            Err(message) => {
                assert(is_unique_path(*exists_at, folder, name@, Err(message)));
                assert(no_place(*exists_at, folder, name@, message@));
                return Err(message);
            },
        };
        let ghost unique = is_unique_path(*exists_at, folder, name@, Ok(place));
        assert(unique);
        let (outcome, error): (TryOutcome, String) = match move_file(source, &place) {
            MoveOutcome::Moved => {
                assert(moving_gave(*move_file, source@, place@, None));
                assert(arrived_at(*exists_at, *move_file, source@, folder, name@, place@));
                (TryOutcome::Done, String::new())
            },
            MoveOutcome::AlreadyExists { error } => {
                assert(lost_place(*exists_at, *move_file, source@, folder, name@, place));
                (TryOutcome::Taken, error)
            },
            MoveOutcome::Failed { error } => {
                let taken: bool = exists_at(&place);
                if taken {
                    assert(answered(*exists_at, place@, true));
                    assert(lost_place(*exists_at, *move_file, source@, folder, name@, place));
                    (TryOutcome::Taken, error)
                } else {
                    assert(answered(*exists_at, place@, false));
                    assert(moving_gave(*move_file, source@, place@, Some(error@)));
                    (TryOutcome::Failed, error)
                }
            },
        };
        match after_try(tried, outcome) {
            TryStep::Finish => {
                return Ok(place);
            },
            TryStep::Fail => {
                let message: String = display_io_error(error.as_str());
                assert(failed_with(*move_file, source@, place@, message@));
                assert(broke_off(
                    *exists_at,
                    *move_file,
                    source@,
                    folder,
                    name@,
                    message@,
                ));
                return Err(message);
            },
            TryStep::GiveUp => {
                assert(lost_race(*exists_at, *move_file, source@, folder, name@));
                return Err("Nie można utworzyć unikalnej nazwy pliku.".to_owned());
            },
            TryStep::TryNext => {
                tried = tried + 1;
            },
        }
    }
}

/// A document that was worked on, and where it is now if it was moved.
#[derive(Debug)]
pub struct FileActionSuccess {
    pub source: DocPath,
    pub destination: Option<DocPath>,
}

#[derive(Debug)]
pub struct FileActionFailure {
    pub source: DocPath,
    pub error: String,
}

/// What became of each document of a batch.
#[derive(Debug)]
pub struct FileActionReport {
    pub successes: Vec<FileActionSuccess>,
    pub failures: Vec<FileActionFailure>,
    pub skipped: Vec<DocPath>,
}

/// What became of one document.
pub ghost enum FileOutcome {
    Done(Option<PathModel>),
    Failed(Seq<char>),
    Skipped,
}

#[verifier::ext_equal]
pub struct ReportModel {
    pub successes: Seq<(PathModel, Option<PathModel>)>,
    pub failures: Seq<(PathModel, Seq<char>)>,
    pub skipped: Seq<PathModel>,
}

pub open spec fn optional_path(path: Option<DocPath>) -> Option<PathModel> {
    match path {
        None => None,
        Some(path) => Some(path@),
    }
}

impl View for FileActionReport {
    type V = ReportModel;

    open spec fn view(&self) -> ReportModel {
        ReportModel {
            successes: self.successes@.map_values(
                |success: FileActionSuccess| (success.source@, optional_path(success.destination)),
            ),
            failures: self.failures@.map_values(
                |failure: FileActionFailure| (failure.source@, failure.error@),
            ),
            skipped: path_models(self.skipped@),
        }
    }
}

impl ReportModel {
    pub open spec fn empty() -> ReportModel {
        ReportModel { successes: Seq::empty(), failures: Seq::empty(), skipped: Seq::empty() }
    }

    /// The report with one more document.
    pub open spec fn with(self, source: PathModel, outcome: FileOutcome) -> ReportModel {
        match outcome {
            FileOutcome::Done(destination) => ReportModel {
                successes: self.successes.push((source, destination)),
                ..self
            },
            FileOutcome::Failed(error) => ReportModel {
                failures: self.failures.push((source, error)),
                ..self
            },
            FileOutcome::Skipped => ReportModel { skipped: self.skipped.push(source), ..self },
        }
    }

    /// The number of documents in the report.
    pub open spec fn total(self) -> nat {
        self.successes.len() + self.failures.len() + self.skipped.len()
    }
}

/// The report on a batch, document by document.
pub open spec fn reported(sources: Seq<PathModel>, outcomes: Seq<FileOutcome>) -> ReportModel
    decreases outcomes.len(),
{
    if outcomes.len() == 0 {
        ReportModel::empty()
    } else {
        reported(sources, outcomes.drop_last()).with(
            sources[outcomes.len() - 1],
            outcomes.last(),
        )
    }
}

/// A report accounts for every document of the batch exactly once.
pub proof fn law_report_accounts_for_every_document(
    sources: Seq<PathModel>,
    outcomes: Seq<FileOutcome>,
    i: int,
)
    requires
        outcomes.len() <= sources.len(),
        0 <= i < outcomes.len(),
    ensures
        reported(sources, outcomes).total() == outcomes.len(),
        match outcomes[i] {
            FileOutcome::Done(destination) => reported(sources, outcomes).successes.contains(
                (sources[i], destination),
            ),
            FileOutcome::Failed(error) => reported(sources, outcomes).failures.contains(
                (sources[i], error),
            ),
            FileOutcome::Skipped => reported(sources, outcomes).skipped.contains(sources[i]),
        },
    decreases outcomes.len(),
{
    let rest = outcomes.drop_last();
    let before = reported(sources, rest);
    let whole = reported(sources, outcomes);
    lemma_report_total(sources, outcomes);
    if i < rest.len() {
        law_report_accounts_for_every_document(sources, rest, i);
        assert(rest[i] == outcomes[i]);
        match outcomes[i] {
            FileOutcome::Done(destination) => {
                let entry = (sources[i], destination);
                let k = choose|k: int| 0 <= k < before.successes.len() && before.successes[k] == entry;
                assert(whole.successes[k] == entry);
            },
            FileOutcome::Failed(error) => {
                let entry = (sources[i], error);
                let k = choose|k: int| 0 <= k < before.failures.len() && before.failures[k] == entry;
                assert(whole.failures[k] == entry);
            },
            FileOutcome::Skipped => {
                let k = choose|k: int|
                    0 <= k < before.skipped.len() && before.skipped[k] == sources[i];
                assert(whole.skipped[k] == sources[i]);
            },
        }
    } else {
        match outcomes[i] {
            FileOutcome::Done(destination) => {
                assert(whole.successes.last() == (sources[i], destination));
            },
            FileOutcome::Failed(error) => {
                assert(whole.failures.last() == (sources[i], error));
            },
            FileOutcome::Skipped => {
                assert(whole.skipped.last() == sources[i]);
            },
        }
    }
}

proof fn lemma_report_total(sources: Seq<PathModel>, outcomes: Seq<FileOutcome>)
    ensures
        reported(sources, outcomes).total() == outcomes.len(),
    decreases outcomes.len(),
{
    if outcomes.len() > 0 {
        lemma_report_total(sources, outcomes.drop_last());
    }
}

impl FileActionReport {
    pub fn new() -> (r: FileActionReport)
        ensures
            r@ == ReportModel::empty(),
    {
        let report: FileActionReport = FileActionReport {
            successes: Vec::new(),
            failures: Vec::new(),
            skipped: Vec::new(),
        };
        assert(report@ =~= ReportModel::empty());
        report
    }

    pub fn completed_count(&self) -> (r: usize)
        ensures
            r == self@.successes.len(),
    {
        self.successes.len()
    }

    pub fn failed_count(&self) -> (r: usize)
        ensures
            r == self@.failures.len(),
    {
        self.failures.len()
    }

    pub fn skipped_count(&self) -> (r: usize)
        ensures
            r == self@.skipped.len(),
    {
        self.skipped.len()
    }

    pub fn all_succeeded(&self) -> (r: bool)
        ensures
            r == (self@.failures.len() == 0),
    {
        self.failures.len() == 0
    }

    pub(crate) fn success(&mut self, source: DocPath, destination: Option<DocPath>)
        ensures
            final(self)@ == old(self)@.with(
                source@,
                FileOutcome::Done(optional_path(destination)),
            ),
    {
        let ghost before = self@;
        self.successes.push(FileActionSuccess { source, destination });
        assert(self@ =~= before.with(source@, FileOutcome::Done(optional_path(destination))));
    }

    pub(crate) fn failure(&mut self, source: DocPath, error: String)
        ensures
            final(self)@ == old(self)@.with(source@, FileOutcome::Failed(error@)),
    {
        let ghost before = self@;
        self.failures.push(FileActionFailure { source, error });
        assert(self@ =~= before.with(source@, FileOutcome::Failed(error@)));
    }

    pub(crate) fn skip(&mut self, source: DocPath)
        ensures
            final(self)@ == old(self)@.with(source@, FileOutcome::Skipped),
    {
        let ghost before = self@;
        self.skipped.push(source);
        assert(self@ =~= before.with(source@, FileOutcome::Skipped));
    }
}

/// Whether two folders were found to be one: by where they really are, where that can
/// be told of both, else by their paths.
pub open spec fn found_same_folder<R: Fn(&DocPath) -> Option<DocPath>>(
    resolve: R,
    parent: Option<PathModel>,
    target: PathModel,
    same: bool,
) -> bool {
    match parent {
        None => !same,
        Some(parent) => compared_by(resolve, parent, target, same),
    }
}

/// Whether two folders were compared with this answer.
pub open spec fn compared_by<R: Fn(&DocPath) -> Option<DocPath>>(
    resolve: R,
    parent: PathModel,
    target: PathModel,
    same: bool,
) -> bool {
    exists|a: Option<PathModel>, b: Option<PathModel>| #[trigger]
        same_by(resolve, parent, target, a, b, same)
}

/// Whether two folders were resolved to these places, and are one accordingly.
pub open spec fn same_by<R: Fn(&DocPath) -> Option<DocPath>>(
    resolve: R,
    parent: PathModel,
    target: PathModel,
    a: Option<PathModel>,
    b: Option<PathModel>,
    same: bool,
) -> bool {
    &&& resolving_gave(resolve, parent, a)
    &&& resolving_gave(resolve, target, b)
    &&& same == match (a, b) {
        (Some(a), Some(b)) => a == b,
        _ => parent == target,
    }
}

pub open spec fn resolving_gave<R: Fn(&DocPath) -> Option<DocPath>>(
    resolve: R,
    place: PathModel,
    answer: Option<PathModel>,
) -> bool {
    exists|path: DocPath, r: Option<DocPath>|
        path@ == place && optional_path(r) == answer && #[trigger] call_ensures(
            resolve,
            (&path,),
            r,
        )
}

fn same_directory<R: Fn(&DocPath) -> Option<DocPath>>(
    source: &DocPath,
    target: &DocPath,
    resolve: &R,
) -> (r: bool)
    requires
        forall|path: &DocPath| #[trigger] call_requires(*resolve, (path,)),
    ensures
        found_same_folder(*resolve, source@.parent(), target@, r),
{
    match source.parent() {
        None => false,
        Some(parent) => {
            let a: Option<DocPath> = resolve(&parent);
            let b: Option<DocPath> = resolve(target);
            assert(resolving_gave(*resolve, parent@, optional_path(a)));
            assert(resolving_gave(*resolve, target@, optional_path(b)));
            let ghost found = (optional_path(a), optional_path(b));
            let same: bool = match (a, b) {
                (Some(a), Some(b)) => a.same(&b),
                _ => parent.same(target),
            };
            assert(same_by(*resolve, parent@, target@, found.0, found.1, same));
            assert(compared_by(*resolve, parent@, target@, same));
            same
        },
    }
}

/// What can become of one document that is moved with others.
pub open spec fn move_outcome_possible<
    K: Fn(&DocPath) -> SourceKind,
    R: Fn(&DocPath) -> Option<DocPath>,
    E: Fn(&DocPath) -> bool,
    M: Fn(&DocPath, &DocPath) -> MoveOutcome,
>(
    kind_of: K,
    resolve: R,
    exists_at: E,
    move_file: M,
    folder: PathModel,
    folder_exists: bool,
    source: PathModel,
    outcome: FileOutcome,
) -> bool {
    if !folder_exists {
        outcome == FileOutcome::Failed("Folder docelowy nie istnieje."@)
    } else {
        match outcome {
            FileOutcome::Skipped => found_same_folder(resolve, source.parent(), folder, true),
            FileOutcome::Done(destination) => {
                &&& destination is Some
                &&& found_same_folder(resolve, source.parent(), folder, false)
                &&& moved_as(kind_of, exists_at, move_file, source, folder, Ok(destination->Some_0))
            },
            FileOutcome::Failed(error) => {
                &&& found_same_folder(resolve, source.parent(), folder, false)
                &&& moved_as(kind_of, exists_at, move_file, source, folder, Err(error))
            },
        }
    }
}

/// Whether a document of some kind could be moved with this result.
pub open spec fn moved_as<
    K: Fn(&DocPath) -> SourceKind,
    E: Fn(&DocPath) -> bool,
    M: Fn(&DocPath, &DocPath) -> MoveOutcome,
>(
    kind_of: K,
    exists_at: E,
    move_file: M,
    source: PathModel,
    folder: PathModel,
    r: Result<PathModel, Seq<char>>,
) -> bool {
    exists|path: DocPath, kind: SourceKind|
        path@ == source && #[trigger] call_ensures(kind_of, (&path,), kind) && keep_both_may_end(
            exists_at,
            move_file,
            source,
            kind,
            folder,
            r,
        )
}

/// Whether a report tells of the first documents of a batch, each with an outcome that
/// was possible.
pub open spec fn is_move_report<
    K: Fn(&DocPath) -> SourceKind,
    R: Fn(&DocPath) -> Option<DocPath>,
    E: Fn(&DocPath) -> bool,
    M: Fn(&DocPath, &DocPath) -> MoveOutcome,
>(
    kind_of: K,
    resolve: R,
    exists_at: E,
    move_file: M,
    folder: PathModel,
    folder_exists: bool,
    sources: Seq<PathModel>,
    outcomes: Seq<FileOutcome>,
    report: ReportModel,
) -> bool {
    &&& report == reported(sources, outcomes)
    &&& forall|i: int|
        0 <= i < outcomes.len() ==> move_outcome_possible(
            kind_of,
            resolve,
            exists_at,
            move_file,
            folder,
            folder_exists,
            sources[i],
            #[trigger] outcomes[i],
        )
}

/// Whether a document was found to be one that can be worked on.
pub open spec fn found_sound<K: Fn(&DocPath) -> SourceKind>(kind_of: K, source: PathModel) -> bool {
    exists|path: DocPath, kind: SourceKind|
        path@ == source && #[trigger] call_ensures(kind_of, (&path,), kind) && source_problem(
            source,
            kind,
        ) is None
}

/// Whether moving documents into a folder goes this way: from the place of one of them,
/// which is sound and stands elsewhere, to the first free place there. Nothing moves where
/// the folder is missing.
pub open spec fn batch_leg<
    K: Fn(&DocPath) -> SourceKind,
    R: Fn(&DocPath) -> Option<DocPath>,
    E: Fn(&DocPath) -> bool,
>(
    kind_of: K,
    resolve: R,
    exists_at: E,
    folder: PathModel,
    folder_exists: bool,
    sources: Seq<PathModel>,
    from: DocPath,
    to: DocPath,
) -> bool {
    &&& folder_exists
    &&& sources.contains(from@)
    &&& found_same_folder(resolve, from@.parent(), folder, false)
    &&& found_sound(kind_of, from@)
    &&& is_unique_path(exists_at, folder, from@.parts.last(), Ok(to))
}

/// A move touches none but the documents that were chosen, and none at all where the folder
/// is missing; each goes into that folder, to a place of its own that was free.
pub proof fn law_moves_touch_only_what_was_chosen<
    K: Fn(&DocPath) -> SourceKind,
    R: Fn(&DocPath) -> Option<DocPath>,
    E: Fn(&DocPath) -> bool,
>(
    kind_of: K,
    resolve: R,
    exists_at: E,
    folder: PathModel,
    folder_exists: bool,
    sources: Seq<PathModel>,
    from: DocPath,
    to: DocPath,
)
    requires
        batch_leg(kind_of, resolve, exists_at, folder, folder_exists, sources, from, to),
    ensures
        folder_exists,
        sources.contains(from@),
        to@.parent() == Some(folder),
        call_ensures(exists_at, (&to,), false),
{
    let stem = pdf_stem(from@.parts.last())->Ok_0;
    assert(is_first_free_place(exists_at, folder, stem, to));
    let k = choose|k: nat| #[trigger] is_first_free(exists_at, folder, stem, k, to@);
    assert(to@.parts.drop_last() =~= folder.parts);
}

/// Moves every document on its own. Where a name is taken both are kept, the moved one
/// as `name (2).pdf` and so on. Documents that are in the folder already are skipped.
pub fn move_pdfs_keep_both<
    K: Fn(&DocPath) -> SourceKind,
    R: Fn(&DocPath) -> Option<DocPath>,
    E: Fn(&DocPath) -> bool,
    M: Fn(&DocPath, &DocPath) -> MoveOutcome,
>(
    sources: &Vec<DocPath>,
    target_folder: &DocPath,
    folder_exists: bool,
    kind_of: K,
    resolve: R,
    exists_at: E,
    move_file: M,
) -> (r: FileActionReport)
    requires
        forall|path: &DocPath| #[trigger] call_requires(kind_of, (path,)),
        forall|path: &DocPath| #[trigger] call_requires(resolve, (path,)),
        forall|path: &DocPath| #[trigger] call_requires(exists_at, (path,)),
        forall|from: &DocPath, to: &DocPath|
            batch_leg(
                kind_of,
                resolve,
                exists_at,
                target_folder@,
                folder_exists,
                path_models(sources@),
                *from,
                *to,
            ) ==> #[trigger] call_requires(move_file, (from, to)),
    ensures
        exists|outcomes: Seq<FileOutcome>|
            outcomes.len() == sources.len() && #[trigger] is_move_report(
                kind_of,
                resolve,
                exists_at,
                move_file,
                target_folder@,
                folder_exists,
                path_models(sources@),
                outcomes,
                r@,
            ),
        r@.total() == sources.len(),
{
    let mut report: FileActionReport = FileActionReport::new();
    let ghost models = path_models(sources@);
    let ghost mut outcomes: Seq<FileOutcome> = Seq::empty();
    let mut i: usize = 0;
    while i < sources.len()
        invariant
            i <= sources.len(),
            models == path_models(sources@),
            outcomes.len() == i,
            forall|path: &DocPath| #[trigger] call_requires(kind_of, (path,)),
            forall|path: &DocPath| #[trigger] call_requires(resolve, (path,)),
            forall|path: &DocPath| #[trigger] call_requires(exists_at, (path,)),
            forall|from: &DocPath, to: &DocPath|
                batch_leg(
                    kind_of,
                    resolve,
                    exists_at,
                    target_folder@,
                    folder_exists,
                    models,
                    *from,
                    *to,
                ) ==> #[trigger] call_requires(move_file, (from, to)),
            is_move_report(
                kind_of,
                resolve,
                exists_at,
                move_file,
                target_folder@,
                folder_exists,
                models,
                outcomes,
                report@,
            ),
        decreases sources.len() - i,
    {
        let source: DocPath = sources[i].copy();
        assert(models[i as int] == source@);
        let ghost before = outcomes;
        if !folder_exists {
            report.failure(source, "Folder docelowy nie istnieje.".to_owned());
            proof {
                outcomes = before.push(FileOutcome::Failed("Folder docelowy nie istnieje."@));
            }
        } else if same_directory(&source, target_folder, &resolve) {
            report.skip(source);
            proof {
                outcomes = before.push(FileOutcome::Skipped);
            }
        } else {
            let kind: SourceKind = kind_of(&source);
            assert(call_ensures(kind_of, (&source,), kind));
            assert(models.contains(source@));
            let moved: Result<DocPath, String> = move_pdf_keep_both(
                &source,
                kind,
                target_folder,
                &exists_at,
                &move_file,
            );
            assert(moved_as(
                kind_of,
                exists_at,
                move_file,
                source@,
                target_folder@,
                path_result(moved),
            ));
            match moved {
                Ok(destination) => {
                    proof {
                        outcomes = before.push(FileOutcome::Done(Some(destination@)));
                    }
                    report.success(source, Some(destination));
                },
                Err(error) => {
                    proof {
                        outcomes = before.push(FileOutcome::Failed(error@));
                    }
                    report.failure(source, error);
                },
            }
        }
        assert(outcomes.drop_last() =~= before);
        i = i + 1;
    }
    proof {
        lemma_report_total(models, outcomes);
    }
    report
}

/// What can become of one document that is recycled with others.
pub open spec fn recycle_outcome_possible<
    K: Fn(&DocPath) -> SourceKind,
    D: Fn(&DocPath) -> Result<(), String>,
>(kind_of: K, recycle: D, source: PathModel, outcome: FileOutcome) -> bool {
    exists|path: DocPath, kind: SourceKind|
        path@ == source && #[trigger] call_ensures(kind_of, (&path,), kind) && match source_problem(
            source,
            kind,
        ) {
            Some(problem) => outcome == FileOutcome::Failed(problem),
            None => match outcome {
                FileOutcome::Done(destination) => destination is None && recycling_gave(
                    recycle,
                    source,
                    None,
                ),
                FileOutcome::Failed(error) => recycling_gave(recycle, source, Some(error)),
                FileOutcome::Skipped => false,
            },
        }
}

pub open spec fn recycling_gave<D: Fn(&DocPath) -> Result<(), String>>(
    recycle: D,
    source: PathModel,
    error: Option<Seq<char>>,
) -> bool {
    exists|path: DocPath, r: Result<(), String>|
        path@ == source && #[trigger] call_ensures(recycle, (&path,), r) && error == match r {
            Ok(_) => None,
            Err(text) => Some(text@),
        }
}

pub open spec fn is_recycle_report<
    K: Fn(&DocPath) -> SourceKind,
    D: Fn(&DocPath) -> Result<(), String>,
>(
    kind_of: K,
    recycle: D,
    sources: Seq<PathModel>,
    outcomes: Seq<FileOutcome>,
    report: ReportModel,
) -> bool {
    &&& report == reported(sources, outcomes)
    &&& forall|i: int|
        0 <= i < outcomes.len() ==> recycle_outcome_possible(
            kind_of,
            recycle,
            sources[i],
            #[trigger] outcomes[i],
        )
}

/// Sends documents to the recycle bin of the system. Nothing is ever deleted for good
/// where that fails.
pub fn recycle_pdfs<K: Fn(&DocPath) -> SourceKind, D: Fn(&DocPath) -> Result<(), String>>(
    sources: &Vec<DocPath>,
    kind_of: K,
    recycle: D,
) -> (r: FileActionReport)
    requires
        forall|path: &DocPath| #[trigger] call_requires(kind_of, (path,)),
        forall|path: &DocPath|
            path_models(sources@).contains(path@) && found_sound(kind_of, path@)
                ==> #[trigger] call_requires(recycle, (path,)),
    ensures
        exists|outcomes: Seq<FileOutcome>|
            outcomes.len() == sources.len() && #[trigger] is_recycle_report(
                kind_of,
                recycle,
                path_models(sources@),
                outcomes,
                r@,
            ),
        r@.total() == sources.len(),
        r@.skipped.len() == 0,
{
    let mut report: FileActionReport = FileActionReport::new();
    let ghost models = path_models(sources@);
    let ghost mut outcomes: Seq<FileOutcome> = Seq::empty();
    let mut i: usize = 0;
    while i < sources.len()
        invariant
            i <= sources.len(),
            models == path_models(sources@),
            outcomes.len() == i,
            forall|path: &DocPath| #[trigger] call_requires(kind_of, (path,)),
            forall|path: &DocPath|
                models.contains(path@) && found_sound(kind_of, path@)
                    ==> #[trigger] call_requires(recycle, (path,)),
            is_recycle_report(kind_of, recycle, models, outcomes, report@),
            report@.skipped.len() == 0,
        decreases sources.len() - i,
    {
        let source: DocPath = sources[i].copy();
        assert(models[i as int] == source@);
        let ghost before = outcomes;
        let kind: SourceKind = kind_of(&source);
        let ghost kind_found = kind;
        match validate_pdf_source(&source, kind) {
            Err(problem) => {
                proof {
                    outcomes = before.push(FileOutcome::Failed(problem@));
                    assert(call_ensures(kind_of, (&source,), kind_found));
                    assert(recycle_outcome_possible(
                        kind_of,
                        recycle,
                        source@,
                        FileOutcome::Failed(problem@),
                    ));
                }
                report.failure(source, problem);
            },
            Ok(_) => {
                assert(call_ensures(kind_of, (&source,), kind_found));
                assert(models.contains(source@));
                let recycled: Result<(), String> = recycle(&source);
                match recycled {
                    Ok(_) => {
                        proof {
                            outcomes = before.push(FileOutcome::Done(None));
                            assert(recycling_gave(recycle, source@, None));
                            assert(call_ensures(kind_of, (&source,), kind_found));
                            assert(recycle_outcome_possible(
                                kind_of,
                                recycle,
                                source@,
                                FileOutcome::Done(None),
                            ));
                        }
                        report.success(source, None);
                    },
                    Err(error) => {
                        proof {
                            outcomes = before.push(FileOutcome::Failed(error@));
                            assert(recycling_gave(recycle, source@, Some(error@)));
                            assert(call_ensures(kind_of, (&source,), kind_found));
                            assert(recycle_outcome_possible(
                                kind_of,
                                recycle,
                                source@,
                                FileOutcome::Failed(error@),
                            ));
                        }
                        report.failure(source, error);
                    },
                }
            },
        }
        assert(outcomes.drop_last() =~= before);
        i = i + 1;
    }
    proof {
        lemma_report_total(models, outcomes);
    }
    report
}

} // verus!
