//! Writing files so that no version of them is ever lost.
//!
//! The functions here name the files and decide the steps; the caller takes the steps
//! and tells what came of them.

use std::hash::{DefaultHasher, Hasher};
use vstd::prelude::*;
use vstd::std_specs::hash::DefaultHasherAdditionalSpecFns;
use crate::file_actions::MoveOutcome;
use crate::paths::{DocPath, PathModel};
use crate::text::{chars_of, copy_range, decimal, decimal_text, text_of};

verus! {

/// A number that tells two versions of a file apart: the hash of its bytes.
pub fn fingerprint_bytes(bytes: &[u8]) -> (r: u64)
    ensures
        r == DefaultHasher::spec_finish(seq![bytes@]),
{
    let mut hasher: DefaultHasher = DefaultHasher::new();
    hasher.write(bytes);
    assert(hasher@ =~= seq![bytes@]);
    hasher.finish()
}

/// How often a free name is looked for.
pub const NAME_ATTEMPTS: u64 = 100;

/// The name of the file in which a new version is prepared.
pub open spec fn part_name(name: Seq<char>, process: u32, id: u64) -> Seq<char> {
    name + ".part-"@ + decimal(process as nat) + "-"@ + decimal(id as nat)
}

/// The place beside a file where a new version of it is prepared.
pub open spec fn part_place(target: PathModel, process: u32, id: u64) -> PathModel {
    PathModel {
        anchor: target.anchor,
        parts: target.parts.drop_last().push(part_name(target.parts.last(), process, id)),
    }
}

/// The entry beside `target` with another name.
fn beside(target: &DocPath, name: &str) -> (r: DocPath)
    requires
        target@.parts.len() > 0,
    ensures
        r@ == (PathModel { anchor: target@.anchor, parts: target@.parts.drop_last().push(name@) }),
{
    match target.parent() {
        Some(folder) => folder.join(name),
        None => target.copy(),
    }
}

fn part_path(target: &DocPath, process: u32, id: u64) -> (r: DocPath)
    requires
        target@.parts.len() > 0,
    ensures
        r@ == part_place(target@, process, id),
{
    let mut name: String = target.parts[target.parts.len() - 1].clone();
    name.append(".part-");
    name.append(decimal_text(process as u64).as_str());
    name.append("-");
    name.append(decimal_text(id).as_str());
    beside(target, name.as_str())
}

/// What came of creating a file that must not exist yet, and of filling it.
#[derive(Debug)]
pub enum CreateOutcome {
    Created,
    AlreadyExists,
    Failed { error: String },
}

/// How preparing a new version ended. The number is that of the name last tried.
#[derive(Debug)]
pub enum Prepared {
    Part { path: DocPath, id: u64 },
    Failed { path: DocPath, id: u64, error: String },
    NoFreeName,
}

/// Whether creating a file at a place can end this way.
pub open spec fn ends_with_outcome<F: Fn(&DocPath) -> CreateOutcome>(
    create: F,
    place: PathModel,
    outcome: CreateOutcome,
) -> bool {
    exists|path: DocPath| path@ == place && #[trigger] call_ensures(create, (&path,), outcome)
}

/// Whether creating failed at each of the first `n` names because they were taken.
pub open spec fn all_taken<F: Fn(&DocPath) -> CreateOutcome>(
    create: F,
    target: PathModel,
    process: u32,
    first_id: u64,
    n: int,
) -> bool {
    forall|k: int|
        0 <= k < n ==> ends_with_outcome(
            create,
            #[trigger] part_place(target, process, (first_id + k) as u64),
            CreateOutcome::AlreadyExists,
        )
}

/// Whether a preparation ended at the name with this number, all before being taken.
pub open spec fn ended_at<F: Fn(&DocPath) -> CreateOutcome>(
    create: F,
    target: PathModel,
    process: u32,
    first_id: u64,
    path: DocPath,
    id: u64,
    outcome: CreateOutcome,
) -> bool {
    &&& first_id <= id < first_id + NAME_ATTEMPTS
    &&& path@ == part_place(target, process, id)
    &&& call_ensures(create, (&path,), outcome)
    &&& all_taken(create, target, process, first_id, id - first_id)
}

/// Whether a new version may be prepared at a place: under the first name of its number
/// on, once all names before were found taken.
pub open spec fn may_be_prepared<F: Fn(&DocPath) -> CreateOutcome>(
    create: F,
    target: PathModel,
    process: u32,
    first_id: u64,
    place: PathModel,
) -> bool {
    exists|id: u64|
        first_id <= id < first_id + NAME_ATTEMPTS && place == #[trigger] part_place(
            target,
            process,
            id,
        ) && all_taken(create, target, process, first_id, id - first_id)
}

/// Prepares a new version beside a file: `create` makes the file and fills it, under the
/// first name that is free, trying a hundred.
pub fn prepare<F: Fn(&DocPath) -> CreateOutcome>(
    target: &DocPath,
    process: u32,
    first_id: u64,
    create: &F,
) -> (r: Prepared)
    requires
        target@.parts.len() > 0,
        first_id + NAME_ATTEMPTS <= u64::MAX,
        forall|path: &DocPath|
            may_be_prepared(*create, target@, process, first_id, path@)
                ==> #[trigger] call_requires(*create, (path,)),
    ensures
        match r {
            Prepared::Part { path, id } => ended_at(
                *create,
                target@,
                process,
                first_id,
                path,
                id,
                CreateOutcome::Created,
            ),
            Prepared::Failed { path, id, error } => ended_at(
                *create,
                target@,
                process,
                first_id,
                path,
                id,
                CreateOutcome::Failed { error },
            ),
            Prepared::NoFreeName => all_taken(
                *create,
                target@,
                process,
                first_id,
                NAME_ATTEMPTS as int,
            ),
        },
{
    let mut tried: u64 = 0;
    while tried < NAME_ATTEMPTS
        invariant
            tried <= NAME_ATTEMPTS,
            target@.parts.len() > 0,
            first_id + NAME_ATTEMPTS <= u64::MAX,
            forall|path: &DocPath|
                may_be_prepared(*create, target@, process, first_id, path@)
                    ==> #[trigger] call_requires(*create, (path,)),
            all_taken(*create, target@, process, first_id, tried as int),
        decreases NAME_ATTEMPTS - tried,
    {
        let id: u64 = first_id + tried;
        let path: DocPath = part_path(target, process, id);
        assert(may_be_prepared(*create, target@, process, first_id, path@));
        match create(&path) {
            CreateOutcome::Created => {
                return Prepared::Part { path, id };
            },
            CreateOutcome::Failed { error } => {
                return Prepared::Failed { path, id, error };
            },
            CreateOutcome::AlreadyExists => {
                assert(ends_with_outcome(
                    *create,
                    part_place(target@, process, (first_id + tried) as u64),
                    CreateOutcome::AlreadyExists,
                ));
            },
        }
        tried = tried + 1;
    }
    Prepared::NoFreeName
}

/// The name of the file that marks a document as being edited.
pub open spec fn lock_name(name: Seq<char>) -> Seq<char> {
    "."@ + name + ".skaner-edit.lock"@
}

/// Where the lock for a document stands: hidden, beside it.
pub fn update_lock_path(target: &DocPath) -> (r: Result<DocPath, String>)
    ensures
        match (target@.parent(), target@.file_name()) {
            (None, _) => r is Err && r->Err_0@ == "target has no parent"@,
            (Some(_), None) => r is Err && r->Err_0@ == "target has no file name"@,
            (Some(folder), Some(name)) => r is Ok && r->Ok_0@ == folder.join(lock_name(name)),
        },
{
    match (target.parent(), target.file_name()) {
        (None, _) => Err("target has no parent".to_owned()),
        (Some(_), None) => Err("target has no file name".to_owned()),
        (Some(folder), Some(file_name)) => {
            let mut name: String = ".".to_owned();
            name.append(file_name.as_str());
            name.append(".skaner-edit.lock");
            Ok(folder.join(name.as_str()))
        },
    }
}

/// Where the last dot of a name stands; the length where there is none.
pub open spec fn last_dot(name: Seq<char>, n: int) -> int
    decreases n,
{
    if n <= 0 {
        name.len() as int
    } else if name[n - 1] == '.' {
        n - 1
    } else {
        last_dot(name, n - 1)
    }
}

/// The name without its extension. A dot at the very front starts none.
pub open spec fn stem_of(name: Seq<char>) -> Seq<char> {
    let dot = last_dot(name, name.len() as int);
    if name == ".."@ || dot == 0 {
        name
    } else {
        name.take(dot)
    }
}

/// The extension with its dot; empty where there is none.
pub open spec fn dotted_extension(name: Seq<char>) -> Seq<char> {
    name.skip(stem_of(name).len() as int)
}

pub(crate) fn split_extension(name: &str) -> (r: (String, String))
    ensures
        r.0@ == stem_of(name@),
        r.1@ == dotted_extension(name@),
{
    let chars: Vec<char> = chars_of(name);
    let mut n: usize = chars.len();
    while n > 0 && chars[n - 1] != '.'
        invariant
            n <= chars.len(),
            chars@ == name@,
            last_dot(name@, name@.len() as int) == last_dot(name@, n as int),
        decreases n,
    {
        n = n - 1;
    }
    let dot: usize = if n == 0 {
        chars.len()
    } else {
        n - 1
    };
    assert(dot == last_dot(name@, name@.len() as int));
    proof {
        reveal_strlit("..");
    }
    let whole: bool = dot == 0 || (chars.len() == 2 && chars[0] == '.' && chars[1] == '.');
    assert(whole == (dot == 0 || name@ == ".."@)) by {
        assert(".."@.len() == 2 && ".."@[0] == '.' && ".."@[1] == '.');
        if chars@.len() == 2 && chars@[0] == '.' && chars@[1] == '.' {
            assert(name@ =~= ".."@);
        }
    }
    let end: usize = if whole {
        chars.len()
    } else {
        dot
    };
    let stem: Vec<char> = copy_range(&chars, 0, end);
    let extension: Vec<char> = copy_range(&chars, end, chars.len());
    assert(stem@ =~= stem_of(name@));
    assert(extension@ =~= dotted_extension(name@));
    (text_of(&stem), text_of(&extension))
}

/// The name of a copy that is kept beside a file, hidden, with the same extension.
pub open spec fn sibling_name(
    name: Seq<char>,
    label: Seq<char>,
    process: u32,
    id: u64,
) -> Seq<char> {
    "."@ + stem_of(name) + "."@ + label + "-"@ + decimal(process as nat) + "-"@ + decimal(id as nat)
        + dotted_extension(name)
}

pub open spec fn sibling_place(
    target: PathModel,
    label: Seq<char>,
    process: u32,
    id: u64,
) -> PathModel {
    PathModel {
        anchor: target.anchor,
        parts: target.parts.drop_last().push(
            sibling_name(target.parts.last(), label, process, id),
        ),
    }
}

fn sibling_path(target: &DocPath, label: &str, process: u32, id: u64) -> (r: DocPath)
    requires
        target@.file_name() is Some,
    ensures
        r@ == sibling_place(target@, label@, process, id),
{
    let file_name: String = match target.file_name() {
        Some(name) => name,
        None => String::new(),
    };
    let (stem, extension): (String, String) = split_extension(file_name.as_str());
    let mut name: String = ".".to_owned();
    name.append(stem.as_str());
    name.append(".");
    name.append(label);
    name.append("-");
    name.append(decimal_text(process as u64).as_str());
    name.append("-");
    name.append(decimal_text(id).as_str());
    name.append(extension.as_str());
    beside(target, name.as_str())
}

/// Whether a probe has found something at a place.
pub open spec fn occupied<F: Fn(&DocPath) -> bool>(probe: F, place: PathModel) -> bool {
    exists|path: DocPath| path@ == place && #[trigger] call_ensures(probe, (&path,), true)
}

/// Whether the first `n` sibling names are all taken.
pub open spec fn siblings_taken<F: Fn(&DocPath) -> bool>(
    probe: F,
    target: PathModel,
    label: Seq<char>,
    process: u32,
    first_id: u64,
    n: int,
) -> bool {
    forall|k: int|
        0 <= k < n ==> occupied(
            probe,
            #[trigger] sibling_place(target, label, process, (first_id + k) as u64),
        )
}

/// Whether a sibling was found free, all names before it being taken.
pub open spec fn is_free_sibling<F: Fn(&DocPath) -> bool>(
    probe: F,
    target: PathModel,
    label: Seq<char>,
    process: u32,
    first_id: u64,
    path: DocPath,
    id: u64,
) -> bool {
    &&& first_id <= id < first_id + NAME_ATTEMPTS
    &&& path@ == sibling_place(target, label, process, id)
    &&& call_ensures(probe, (&path,), false)
    &&& siblings_taken(probe, target, label, process, first_id, id - first_id)
}

/// The first free sibling name for a copy of a file, and its number.
pub fn unique_sibling_path<F: Fn(&DocPath) -> bool>(
    target: &DocPath,
    label: &str,
    process: u32,
    first_id: u64,
    exists_at: F,
) -> (r: Result<(DocPath, u64), String>)
    requires
        target@.file_name() is Some,
        first_id + NAME_ATTEMPTS <= u64::MAX,
        forall|path: &DocPath| #[trigger] call_requires(exists_at, (path,)),
    ensures
        match r {
            Ok((path, id)) => is_free_sibling(
                exists_at,
                target@,
                label@,
                process,
                first_id,
                path,
                id,
            ),
            Err(error) => {
                &&& error@ == "nie można utworzyć unikalnej nazwy kopii bezpieczeństwa"@
                &&& siblings_taken(
                    exists_at,
                    target@,
                    label@,
                    process,
                    first_id,
                    NAME_ATTEMPTS as int,
                )
            },
        },
{
    let mut tried: u64 = 0;
    while tried < NAME_ATTEMPTS
        invariant
            tried <= NAME_ATTEMPTS,
            target@.file_name() is Some,
            first_id + NAME_ATTEMPTS <= u64::MAX,
            forall|path: &DocPath| #[trigger] call_requires(exists_at, (path,)),
            siblings_taken(exists_at, target@, label@, process, first_id, tried as int),
        decreases NAME_ATTEMPTS - tried,
    {
        let id: u64 = first_id + tried;
        let path: DocPath = sibling_path(target, label, process, id);
        let taken: bool = exists_at(&path);
        if !taken {
            return Ok((path, id));
        }
        assert(occupied(
            exists_at,
            sibling_place(target@, label@, process, (first_id + tried) as u64),
        ));
        tried = tried + 1;
    }
    Err("nie można utworzyć unikalnej nazwy kopii bezpieczeństwa".to_owned())
}

/// What becomes of a prepared part once replacing a file has failed, and what is said.
#[derive(Debug)]
pub struct FailedCommit {
    pub keep_part: bool,
    pub message: String,
}

/// The message for a part that is kept because the file itself is gone.
pub open spec fn preserved_message(error: Seq<char>, part: Seq<char>) -> Seq<char> {
    error + "; plik zastępczy zachowano jako "@ + part
}

/// Decides whether the prepared part is kept: it is, where no file stands at the target
/// any more and the part is the only version left.
pub fn after_failed_replace(target_exists: bool, error: &str, part: &str) -> (r: FailedCommit)
    ensures
        r.keep_part == !target_exists,
        r.message@ == if target_exists {
            error@
        } else {
            preserved_message(error@, part@)
        },
{
    if target_exists {
        FailedCommit { keep_part: false, message: error.to_owned() }
    } else {
        let mut message: String = error.to_owned();
        message.append("; plik zastępczy zachowano jako ");
        message.append(part);
        FailedCommit { keep_part: true, message }
    }
}

/// A new version of a file, written beside it and not yet in its place.
#[derive(Debug)]
pub struct PreparedFile {
    pub part: DocPath,
    /// How the part is called in messages.
    pub shown: String,
}

/// What became of putting a prepared version in place.
#[derive(Debug)]
pub struct Committed {
    pub outcome: Result<(), String>,
    /// Whether the part is still there and is to go.
    pub discard_part: bool,
}

/// Whether a replacement that ended with `first` was settled as `r`, where `there` says
/// whether a file stands at the target afterwards.
pub open spec fn is_settled(
    shown: Seq<char>,
    first: Result<(), String>,
    there: bool,
    r: Committed,
) -> bool {
    match first {
        Ok(_) => r.outcome is Ok && !r.discard_part,
        Err(error) => {
            &&& r.outcome is Err
            &&& r.discard_part == there
            &&& r.outcome->Err_0@ == if there {
                error@
            } else {
                preserved_message(error@, shown)
            }
        },
    }
}

/// Whether replacing a file could end so: the part takes its place, or it goes, or it is
/// kept because it is the only version left.
pub open spec fn replacing_may_end<
    M: Fn(&DocPath, &DocPath) -> Result<(), String>,
    E: Fn(&DocPath) -> bool,
>(
    replace: M,
    exists_at: E,
    prepared: PreparedFile,
    target: DocPath,
    r: Committed,
) -> bool {
    exists|first: Result<(), String>, there: bool| #[trigger]
        is_settled(prepared.shown@, first, there, r) && call_ensures(
            replace,
            (&prepared.part, &target),
            first,
        ) && (first is Err ==> call_ensures(exists_at, (&target,), there))
}

impl PreparedFile {
    /// Puts the version in place where no file is; an existing one is never replaced.
    pub fn commit_new<M: Fn(&DocPath, &DocPath) -> Result<(), String>>(
        self,
        target: &DocPath,
        move_new: &M,
    ) -> (r: Committed)
        requires
            call_requires(*move_new, (&self.part, target)),
        ensures
            call_ensures(*move_new, (&self.part, target), r.outcome),
            r.discard_part == r.outcome is Err,
    {
        let outcome: Result<(), String> = move_new(&self.part, target);
        let discard_part: bool = outcome.is_err();
        Committed { outcome, discard_part }
    }

    /// Puts the version in place of a file. Where that fails and no file is left, the part
    /// is kept.
    pub fn commit_replace<
        M: Fn(&DocPath, &DocPath) -> Result<(), String>,
        E: Fn(&DocPath) -> bool,
    >(self, target: &DocPath, replace: &M, exists_at: &E) -> (r: Committed)
        requires
            call_requires(*replace, (&self.part, target)),
            call_requires(*exists_at, (target,)),
        ensures
            replacing_may_end(*replace, *exists_at, self, *target, r),
    {
        let first: Result<(), String> = replace(&self.part, target);
        match first {
            Ok(done) => {
                let settled: Committed = Committed { outcome: Ok(done), discard_part: false };
                assert(is_settled(self.shown@, Ok(done), false, settled));
                settled
            },
            Err(error) => {
                let there: bool = exists_at(target);
                let failed: FailedCommit = after_failed_replace(
                    there,
                    error.as_str(),
                    self.shown.as_str(),
                );
                let settled: Committed = Committed {
                    outcome: Err(failed.message),
                    discard_part: !failed.keep_part,
                };
                assert(is_settled(self.shown@, Err(error), there, settled));
                settled
            },
        }
    }

    /// Puts the version in place of a file, provided that it is still the one with the
    /// expected fingerprint. This is for systems that cannot keep a copy of the file they
    /// replace; where they can, [`advance_replace`] checks that copy.
    pub fn commit_replace_if_unchanged<
        M: Fn(&DocPath, &DocPath) -> Result<(), String>,
        E: Fn(&DocPath) -> bool,
    >(
        self,
        target: &DocPath,
        expected: u64,
        current: Result<u64, String>,
        replace: &M,
        exists_at: &E,
    ) -> (r: Committed)
        requires
            current == Ok::<u64, String>(expected) ==> call_requires(
                *replace,
                (&self.part, target),
            ),
            call_requires(*exists_at, (target,)),
        ensures
            match current {
                Err(error) => {
                    &&& r.discard_part
                    &&& r.outcome matches Err(message)
                    &&& message@ == error@
                },
                Ok(value) => if value == expected {
                    replacing_may_end(*replace, *exists_at, self, *target, r)
                } else {
                    &&& r.discard_part
                    &&& r.outcome matches Err(message)
                    &&& message@ == "source file changed before replacement"@
                },
            },
    {
        match current {
            Err(error) => Committed { outcome: Err(error), discard_part: true },
            Ok(value) => {
                if value == expected {
                    self.commit_replace(target, replace, exists_at)
                } else {
                    Committed {
                        outcome: Err("source file changed before replacement".to_owned()),
                        discard_part: true,
                    }
                }
            },
        }
    }
}

/// Whether a new version was written beside a file, and putting it in place ended so. A
/// part that is to go was removed.
pub open spec fn is_put_in_place<
    F: Fn(&DocPath) -> CreateOutcome,
    S: Fn(&DocPath) -> String,
    M: Fn(&DocPath, &DocPath) -> Result<(), String>,
    E: Fn(&DocPath) -> bool,
    D: Fn(&DocPath),
>(
    create: F,
    show: S,
    replace: M,
    exists_at: E,
    discard: D,
    target: DocPath,
    process: u32,
    first_id: u64,
    prepared: PreparedFile,
    settled: Committed,
) -> bool {
    &&& is_part_of(create, target@, process, first_id, prepared.part@)
    &&& exists|path: DocPath|
        path@ == prepared.part@ && #[trigger] call_ensures(show, (&path,), prepared.shown)
    &&& replacing_may_end(replace, exists_at, prepared, target, settled)
    &&& settled.discard_part ==> exists|path: DocPath|
        path@ == prepared.part@ && #[trigger] call_ensures(discard, (&path,), ())
}

/// Whether a part was written for a file.
pub open spec fn is_part_of<F: Fn(&DocPath) -> CreateOutcome>(
    create: F,
    target: PathModel,
    process: u32,
    first_id: u64,
    part: PathModel,
) -> bool {
    exists|path: DocPath, id: u64|
        path@ == part && #[trigger] ended_at(
            create,
            target,
            process,
            first_id,
            path,
            id,
            CreateOutcome::Created,
        )
}

/// Whether a part is to go: putting it in place failed, and a file stands there.
pub open spec fn is_to_go<
    M: Fn(&DocPath, &DocPath) -> Result<(), String>,
    E: Fn(&DocPath) -> bool,
>(replace: M, exists_at: E, target: DocPath, part: PathModel) -> bool {
    &&& call_ensures(exists_at, (&target,), true)
    &&& exists|path: DocPath, error: String|
        path@ == part && #[trigger] call_ensures(
            replace,
            (&path, &target),
            Err::<(), String>(error),
        )
}

/// How writing a file in the place of another can end.
pub open spec fn writing_may_end<
    F: Fn(&DocPath) -> CreateOutcome,
    S: Fn(&DocPath) -> String,
    M: Fn(&DocPath, &DocPath) -> Result<(), String>,
    E: Fn(&DocPath) -> bool,
    D: Fn(&DocPath),
>(
    create: F,
    show: S,
    replace: M,
    exists_at: E,
    discard: D,
    target: DocPath,
    process: u32,
    first_id: u64,
    r: Result<(), String>,
) -> bool {
    ||| {
        &&& all_taken(create, target@, process, first_id, NAME_ATTEMPTS as int)
        &&& r matches Err(message)
        &&& message@ == "nie można utworzyć unikalnego pliku tymczasowego"@
    }
    ||| exists|part: DocPath, id: u64, error: String|
        r == Err::<(), String>(error) && #[trigger] ended_at(
            create,
            target@,
            process,
            first_id,
            part,
            id,
            CreateOutcome::Failed { error },
        )
    ||| exists|prepared: PreparedFile, settled: Committed|
        settled.outcome == r && #[trigger] is_put_in_place(
            create,
            show,
            replace,
            exists_at,
            discard,
            target,
            process,
            first_id,
            prepared,
            settled,
        )
}

/// Writes a file in the place of whatever stands there: a part beside it first, which then
/// takes its place in one step.
pub fn write<
    F: Fn(&DocPath) -> CreateOutcome,
    S: Fn(&DocPath) -> String,
    M: Fn(&DocPath, &DocPath) -> Result<(), String>,
    E: Fn(&DocPath) -> bool,
    D: Fn(&DocPath),
>(
    target: &DocPath,
    process: u32,
    first_id: u64,
    create: F,
    show: S,
    replace: M,
    exists_at: E,
    discard: D,
) -> (r: Result<(), String>)
    requires
        target@.parts.len() > 0,
        first_id + NAME_ATTEMPTS <= u64::MAX,
        forall|path: &DocPath|
            may_be_prepared(create, target@, process, first_id, path@)
                ==> #[trigger] call_requires(create, (path,)),
        forall|path: &DocPath| #[trigger] call_requires(show, (path,)),
        forall|part: &DocPath|
            is_part_of(create, target@, process, first_id, part@) ==> #[trigger] call_requires(
                replace,
                (part, target),
            ),
        call_requires(exists_at, (target,)),
        forall|part: &DocPath|
            is_part_of(create, target@, process, first_id, part@) && is_to_go(
                replace,
                exists_at,
                *target,
                part@,
            ) ==> #[trigger] call_requires(discard, (part,)),
    ensures
        writing_may_end(
            create,
            show,
            replace,
            exists_at,
            discard,
            *target,
            process,
            first_id,
            r,
        ),
{
    match prepare(target, process, first_id, &create) {
        Prepared::NoFreeName => Err("nie można utworzyć unikalnego pliku tymczasowego".to_owned()),
        Prepared::Failed { path: _, id: _, error } => Err(error),
        Prepared::Part { path, id } => {
            let shown: String = show(&path);
            assert(is_part_of(create, target@, process, first_id, path@));
            let prepared: PreparedFile = PreparedFile { part: path.copy(), shown };
            let ghost given = prepared;
            let settled: Committed = prepared.commit_replace(target, &replace, &exists_at);
            if settled.discard_part {
                assert(is_to_go(replace, exists_at, *target, path@));
                discard(&path);
            }
            assert(is_put_in_place(
                create,
                show,
                replace,
                exists_at,
                discard,
                *target,
                process,
                first_id,
                given,
                settled,
            ));
            settled.outcome
        },
    }
}

/// How moving a file by way of a second name for it can end. Where the first name cannot be
/// removed the second one is, so that the file is never left with two.
pub open spec fn linked_move_may_end<
    L: Fn(&DocPath, &DocPath) -> MoveOutcome,
    D: Fn(&DocPath) -> Result<(), String>,
>(link: L, remove: D, source: DocPath, target: DocPath, r: MoveOutcome) -> bool {
    match r {
        MoveOutcome::Moved => {
            &&& call_ensures(link, (&source, &target), MoveOutcome::Moved)
            &&& call_ensures(remove, (&source,), Ok::<(), String>(()))
        },
        MoveOutcome::AlreadyExists { error } => call_ensures(link, (&source, &target), r),
        MoveOutcome::Failed { error } => {
            ||| call_ensures(link, (&source, &target), r)
            ||| {
                &&& call_ensures(link, (&source, &target), MoveOutcome::Moved)
                &&& call_ensures(remove, (&source,), Err::<(), String>(error))
                &&& exists|taken_back: Result<(), String>| #[trigger]
                    call_ensures(remove, (&target,), taken_back)
            }
        },
    }
}

/// Whether a file has two names because the first could not be removed.
pub open spec fn is_left_twice<
    L: Fn(&DocPath, &DocPath) -> MoveOutcome,
    D: Fn(&DocPath) -> Result<(), String>,
>(link: L, remove: D, source: DocPath, target: DocPath) -> bool {
    &&& call_ensures(link, (&source, &target), MoveOutcome::Moved)
    &&& exists|error: String| #[trigger]
        call_ensures(remove, (&source,), Err::<(), String>(error))
}

/// Moves a file to a place that must be free, never over another: it gets a second name
/// there and loses the first. `link` gives the name and fails where it is taken.
pub fn move_new<
    L: Fn(&DocPath, &DocPath) -> MoveOutcome,
    D: Fn(&DocPath) -> Result<(), String>,
>(source: &DocPath, target: &DocPath, link: L, remove: D) -> (r: MoveOutcome)
    requires
        call_requires(link, (source, target)),
        call_ensures(link, (source, target), MoveOutcome::Moved) ==> call_requires(
            remove,
            (source,),
        ),
        is_left_twice(link, remove, *source, *target) ==> call_requires(remove, (target,)),
    ensures
        linked_move_may_end(link, remove, *source, *target, r),
{
    let linked: MoveOutcome = link(source, target);
    match linked {
        MoveOutcome::Moved => {
            let removed: Result<(), String> = remove(source);
            match removed {
                Ok(done) => {
                    assert(done == ());
                    MoveOutcome::Moved
                },
                Err(error) => {
                    let taken_back: Result<(), String> = remove(target);
                    assert(call_ensures(remove, (target,), taken_back));
                    MoveOutcome::Failed { error }
                },
            }
        },
        _ => linked,
    }
}

/// How putting a file in the place of another can end.
pub open spec fn putting_may_end<
    E: Fn(&DocPath) -> bool,
    M: Fn(&DocPath, &DocPath) -> Result<(), String>,
    R: Fn(&DocPath, &DocPath) -> Result<(), String>,
>(
    exists_at: E,
    move_file: M,
    replace: R,
    replacement: DocPath,
    target: DocPath,
    r: Result<(), String>,
) -> bool {
    ||| {
        &&& call_ensures(exists_at, (&target,), false)
        &&& call_ensures(move_file, (&replacement, &target), r)
    }
    ||| {
        &&& call_ensures(exists_at, (&target,), true)
        &&& call_ensures(replace, (&replacement, &target), r)
    }
}

/// Puts a file in the place of another: where none stands there it is moved, else it
/// replaces it.
pub fn put_over<
    E: Fn(&DocPath) -> bool,
    M: Fn(&DocPath, &DocPath) -> Result<(), String>,
    R: Fn(&DocPath, &DocPath) -> Result<(), String>,
>(replacement: &DocPath, target: &DocPath, exists_at: E, move_file: M, replace: R) -> (r: Result<
    (),
    String,
>)
    requires
        call_requires(exists_at, (target,)),
        call_ensures(exists_at, (target,), false) ==> call_requires(
            move_file,
            (replacement, target),
        ),
        call_ensures(exists_at, (target,), true) ==> call_requires(replace, (replacement, target)),
    ensures
        putting_may_end(exists_at, move_file, replace, *replacement, *target, r),
{
    if exists_at(target) {
        replace(replacement, target)
    } else {
        move_file(replacement, target)
    }
}

/// A part goes only where the file it was meant for is still there, or took it over.
pub proof fn law_only_version_is_kept(
    shown: Seq<char>,
    first: Result<(), String>,
    there: bool,
    r: Committed,
)
    requires
        is_settled(shown, first, there, r),
        r.discard_part,
    ensures
        there,
        first is Err,
{
}

/// What is known while a file is replaced, provided that it is still the version that
/// was read: where it stands, and what its paths are called.
#[derive(Debug)]
pub enum CheckedReplace {
    /// Whether the file is still there is being looked up.
    Looking,
    /// The prepared version takes its place; the old one becomes a backup.
    Replacing { backup: String },
    /// The backup is being read, with writers shut out.
    Checking { backup: String },
    /// The backup is the version that was expected and goes.
    Cleaning { backup: String },
    /// The backup is another version; a name for ours is looked for.
    Naming { backup: String },
    /// The other version goes back; ours becomes a conflict copy.
    Restoring { backup: String, conflict: String },
    Finished,
}

/// What came of a step.
#[derive(Debug)]
pub enum ReplaceEvent {
    TargetMissing,
    BackupNamed { path: String },
    NameFailed { error: String },
    Replaced,
    ReplaceFailed { error: String, replacement_left: bool },
    Fingerprint { value: u64 },
    FingerprintFailed { error: String },
    Removed,
    RemoveFailed { error: String },
    ConflictNamed { path: String },
    Restored,
    RestoreFailed { error: String },
}

/// Which kind of error the message stands for.
#[derive(Debug, Clone, Copy, PartialEq, Eq, Structural)]
pub enum FailureKind {
    /// That of the step that failed.
    Cause,
    NotFound,
    Other,
}

/// What to do next.
#[derive(Debug)]
pub enum ReplaceAction {
    ReplaceKeepingBackup { backup: String },
    FingerprintBackup { backup: String },
    RemoveBackup { backup: String },
    NameConflict,
    RestoreBackup { backup: String, conflict: String },
    Succeed,
    Fail { kind: FailureKind, message: String, replacement_consumed: bool },
}

impl CheckedReplace {
    /// Whether an event answers what was asked.
    pub open spec fn expects(self, event: ReplaceEvent) -> bool {
        match self {
            CheckedReplace::Looking => event is TargetMissing || event is BackupNamed || event is NameFailed,
            CheckedReplace::Replacing { backup: _ } => event is Replaced || event is ReplaceFailed,
            CheckedReplace::Checking { backup: _ } => event is Fingerprint
                || event is FingerprintFailed,
            CheckedReplace::Cleaning { backup: _ } => event is Removed || event is RemoveFailed,
            CheckedReplace::Naming { backup: _ } => event is ConflictNamed || event is NameFailed,
            CheckedReplace::Restoring { backup: _, conflict: _ } => event is Restored
                || event is RestoreFailed,
            CheckedReplace::Finished => false,
        }
    }
}

/// What a step leads to, in words that do not depend on how texts are stored.
pub ghost enum StageModel {
    Looking,
    Replacing { backup: Seq<char> },
    Checking { backup: Seq<char> },
    Cleaning { backup: Seq<char> },
    Naming { backup: Seq<char> },
    Restoring { backup: Seq<char>, conflict: Seq<char> },
    Finished,
}

pub ghost enum ActionModel {
    ReplaceKeepingBackup { backup: Seq<char> },
    FingerprintBackup { backup: Seq<char> },
    RemoveBackup { backup: Seq<char> },
    NameConflict,
    RestoreBackup { backup: Seq<char>, conflict: Seq<char> },
    Succeed,
    Fail { kind: FailureKind, message: Seq<char>, replacement_consumed: bool },
}

impl View for CheckedReplace {
    type V = StageModel;

    open spec fn view(&self) -> StageModel {
        match self {
            CheckedReplace::Looking => StageModel::Looking,
            CheckedReplace::Replacing { backup } => StageModel::Replacing { backup: backup@ },
            CheckedReplace::Checking { backup } => StageModel::Checking { backup: backup@ },
            CheckedReplace::Cleaning { backup } => StageModel::Cleaning { backup: backup@ },
            CheckedReplace::Naming { backup } => StageModel::Naming { backup: backup@ },
            CheckedReplace::Restoring { backup, conflict } => StageModel::Restoring {
                backup: backup@,
                conflict: conflict@,
            },
            CheckedReplace::Finished => StageModel::Finished,
        }
    }
}

impl View for ReplaceAction {
    type V = ActionModel;

    open spec fn view(&self) -> ActionModel {
        match self {
            ReplaceAction::ReplaceKeepingBackup { backup } => ActionModel::ReplaceKeepingBackup {
                backup: backup@,
            },
            ReplaceAction::FingerprintBackup { backup } => ActionModel::FingerprintBackup {
                backup: backup@,
            },
            ReplaceAction::RemoveBackup { backup } => ActionModel::RemoveBackup { backup: backup@ },
            ReplaceAction::NameConflict => ActionModel::NameConflict,
            ReplaceAction::RestoreBackup { backup, conflict } => ActionModel::RestoreBackup {
                backup: backup@,
                conflict: conflict@,
            },
            ReplaceAction::Succeed => ActionModel::Succeed,
            ReplaceAction::Fail { kind, message, replacement_consumed } => ActionModel::Fail {
                kind: *kind,
                message: message@,
                replacement_consumed: *replacement_consumed,
            },
        }
    }
}

pub open spec fn unverifiable_message(
    error: Seq<char>,
    target: Seq<char>,
    backup: Seq<char>,
) -> Seq<char> {
    "Nie można bezpiecznie sprawdzić wersji zastąpionej podczas zapisu: "@ + error
        + ". Nie usunięto żadnej wersji: nowy plik jest w "@ + target
        + ", a wersja zewnętrzna w "@ + backup + "."@
}

pub open spec fn leftover_message(
    error: Seq<char>,
    target: Seq<char>,
    backup: Seq<char>,
) -> Seq<char> {
    "Zapisano nową wersję w "@ + target
        + ", ale nie można usunąć zweryfikowanej kopii bezpieczeństwa "@ + backup + ": "@ + error
        + ". Obie wersje zachowano."@
}

pub open spec fn unnamed_message(
    error: Seq<char>,
    target: Seq<char>,
    backup: Seq<char>,
) -> Seq<char> {
    "Plik źródłowy zmienił się podczas zapisu. Nie usunięto żadnej wersji: nowy plik jest w "@
        + target + ", a wersja zewnętrzna w "@ + backup
        + ". Nie można przygotować ścieżki przywracania: "@ + error
}

pub open spec fn conflict_message(conflict: Seq<char>) -> Seq<char> {
    "Plik źródłowy zmienił się podczas zapisu. Przywrócono wersję zewnętrzną, a wersję przygotowaną przez Skaner zachowano jako "@
        + conflict + "."@
}

pub open spec fn unrestored_message(
    error: Seq<char>,
    target: Seq<char>,
    backup: Seq<char>,
    conflict: Seq<char>,
) -> Seq<char> {
    "Plik źródłowy zmienił się podczas zapisu. Automatyczne przywrócenie nie powiodło się: "@
        + error + ". Nie usunięto zachowanych wersji; sprawdź "@ + target + ", "@ + backup
        + " oraz "@ + conflict + "."@
}

/// The failure of a step, with what becomes of the prepared version.
pub open spec fn failure(
    kind: FailureKind,
    message: Seq<char>,
    replacement_consumed: bool,
) -> (StageModel, ActionModel) {
    (StageModel::Finished, ActionModel::Fail { kind, message, replacement_consumed })
}

/// Where an event leads. The file at the target gives way to the prepared version; what
/// stood there is kept until it is seen to be the version that was expected.
pub open spec fn replace_step(
    stage: CheckedReplace,
    event: ReplaceEvent,
    target: Seq<char>,
    expected: u64,
) -> (StageModel, ActionModel) {
    match (stage, event) {
        (CheckedReplace::Looking, ReplaceEvent::TargetMissing) => failure(
            FailureKind::NotFound,
            "source file no longer exists"@,
            false,
        ),
        (CheckedReplace::Looking, ReplaceEvent::BackupNamed { path }) => (
            StageModel::Replacing { backup: path@ },
            ActionModel::ReplaceKeepingBackup { backup: path@ },
        ),
        (CheckedReplace::Looking, ReplaceEvent::NameFailed { error }) => failure(
            FailureKind::Cause,
            error@,
            false,
        ),
        (CheckedReplace::Replacing { backup }, ReplaceEvent::Replaced) => (
            StageModel::Checking { backup: backup@ },
            ActionModel::FingerprintBackup { backup: backup@ },
        ),
        (
            CheckedReplace::Replacing { backup },
            ReplaceEvent::ReplaceFailed { error, replacement_left },
        ) => failure(FailureKind::Cause, error@, !replacement_left),
        (CheckedReplace::Checking { backup }, ReplaceEvent::FingerprintFailed { error }) => failure(
            FailureKind::Cause,
            unverifiable_message(error@, target, backup@),
            true,
        ),
        (CheckedReplace::Checking { backup }, ReplaceEvent::Fingerprint { value }) => if value
            == expected {
            (
                StageModel::Cleaning { backup: backup@ },
                ActionModel::RemoveBackup { backup: backup@ },
            )
        } else {
            (StageModel::Naming { backup: backup@ }, ActionModel::NameConflict)
        },
        (CheckedReplace::Cleaning { backup }, ReplaceEvent::RemoveFailed { error }) => failure(
            FailureKind::Cause,
            leftover_message(error@, target, backup@),
            true,
        ),
        (CheckedReplace::Cleaning { backup }, _) => (StageModel::Finished, ActionModel::Succeed),
        (CheckedReplace::Naming { backup }, ReplaceEvent::ConflictNamed { path }) => (
            StageModel::Restoring { backup: backup@, conflict: path@ },
            ActionModel::RestoreBackup { backup: backup@, conflict: path@ },
        ),
        (CheckedReplace::Naming { backup }, ReplaceEvent::NameFailed { error }) => failure(
            FailureKind::Cause,
            unnamed_message(error@, target, backup@),
            true,
        ),
        (CheckedReplace::Restoring { backup, conflict }, ReplaceEvent::RestoreFailed { error }) =>
            failure(
            FailureKind::Other,
            unrestored_message(error@, target, backup@, conflict@),
            true,
        ),
        (CheckedReplace::Restoring { backup, conflict }, _) => failure(
            FailureKind::Other,
            conflict_message(conflict@),
            true,
        ),
        _ => failure(FailureKind::Other, Seq::empty(), true),
    }
}

fn fail(kind: FailureKind, message: String, replacement_consumed: bool) -> (r: (
    CheckedReplace,
    ReplaceAction,
))
    ensures
        (r.0@, r.1@) == failure(kind, message@, replacement_consumed),
{
    (CheckedReplace::Finished, ReplaceAction::Fail { kind, message, replacement_consumed })
}

/// Takes in what came of the last step and says what to do next.
pub fn advance_replace(
    stage: CheckedReplace,
    event: ReplaceEvent,
    target: &str,
    expected: u64,
) -> (r: (CheckedReplace, ReplaceAction))
    requires
        stage.expects(event),
    ensures
        (r.0@, r.1@) == replace_step(stage, event, target@, expected),
{
    match (stage, event) {
        (CheckedReplace::Looking, ReplaceEvent::TargetMissing) => fail(
            FailureKind::NotFound,
            "source file no longer exists".to_owned(),
            false,
        ),
        (CheckedReplace::Looking, ReplaceEvent::BackupNamed { path }) => (
            CheckedReplace::Replacing { backup: path.clone() },
            ReplaceAction::ReplaceKeepingBackup { backup: path },
        ),
        (CheckedReplace::Looking, ReplaceEvent::NameFailed { error }) => fail(
            FailureKind::Cause,
            error,
            false,
        ),
        (CheckedReplace::Replacing { backup }, ReplaceEvent::Replaced) => (
            CheckedReplace::Checking { backup: backup.clone() },
            ReplaceAction::FingerprintBackup { backup },
        ),
        (
            CheckedReplace::Replacing { backup: _ },
            ReplaceEvent::ReplaceFailed { error, replacement_left },
        ) => fail(FailureKind::Cause, error, !replacement_left),
        (CheckedReplace::Checking { backup }, ReplaceEvent::FingerprintFailed { error }) => {
            let mut message: String =
                "Nie można bezpiecznie sprawdzić wersji zastąpionej podczas zapisu: ".to_owned();
            message.append(error.as_str());
            message.append(". Nie usunięto żadnej wersji: nowy plik jest w ");
            message.append(target);
            message.append(", a wersja zewnętrzna w ");
            message.append(backup.as_str());
            message.append(".");
            fail(FailureKind::Cause, message, true)
        },
        (CheckedReplace::Checking { backup }, ReplaceEvent::Fingerprint { value }) => {
            if value == expected {
                (
                    CheckedReplace::Cleaning { backup: backup.clone() },
                    ReplaceAction::RemoveBackup { backup },
                )
            } else {
                (CheckedReplace::Naming { backup }, ReplaceAction::NameConflict)
            }
        },
        (CheckedReplace::Cleaning { backup }, ReplaceEvent::RemoveFailed { error }) => {
            let mut message: String = "Zapisano nową wersję w ".to_owned();
            message.append(target);
            message.append(", ale nie można usunąć zweryfikowanej kopii bezpieczeństwa ");
            message.append(backup.as_str());
            message.append(": ");
            message.append(error.as_str());
            message.append(". Obie wersje zachowano.");
            fail(FailureKind::Cause, message, true)
        },
        (CheckedReplace::Cleaning { backup: _ }, _) => (
            CheckedReplace::Finished,
            ReplaceAction::Succeed,
        ),
        (CheckedReplace::Naming { backup }, ReplaceEvent::ConflictNamed { path }) => (
            CheckedReplace::Restoring { backup: backup.clone(), conflict: path.clone() },
            ReplaceAction::RestoreBackup { backup, conflict: path },
        ),
        (CheckedReplace::Naming { backup }, ReplaceEvent::NameFailed { error }) => {
            let mut message: String =
                "Plik źródłowy zmienił się podczas zapisu. Nie usunięto żadnej wersji: nowy plik jest w ".to_owned();
            message.append(target);
            message.append(", a wersja zewnętrzna w ");
            message.append(backup.as_str());
            message.append(". Nie można przygotować ścieżki przywracania: ");
            message.append(error.as_str());
            fail(FailureKind::Cause, message, true)
        },
        (
            CheckedReplace::Restoring { backup, conflict },
            ReplaceEvent::RestoreFailed { error },
        ) => {
            let mut message: String =
                "Plik źródłowy zmienił się podczas zapisu. Automatyczne przywrócenie nie powiodło się: ".to_owned();
            message.append(error.as_str());
            message.append(". Nie usunięto zachowanych wersji; sprawdź ");
            message.append(target);
            message.append(", ");
            message.append(backup.as_str());
            message.append(" oraz ");
            message.append(conflict.as_str());
            message.append(".");
            fail(FailureKind::Other, message, true)
        },
        (CheckedReplace::Restoring { backup: _, conflict }, _) => {
            let mut message: String =
                "Plik źródłowy zmienił się podczas zapisu. Przywrócono wersję zewnętrzną, a wersję przygotowaną przez Skaner zachowano jako ".to_owned();
            message.append(conflict.as_str());
            message.append(".");
            fail(FailureKind::Other, message, true)
        },
        _ => fail(FailureKind::Other, String::new(), true),
    }
}

/// What stands at the four places while a file is replaced.
#[verifier::ext_equal]
pub ghost struct Versions {
    pub replacement: Option<Seq<u8>>,
    pub target: Option<Seq<u8>>,
    pub backup: Option<Seq<u8>>,
    pub conflict: Option<Seq<u8>>,
}

impl Versions {
    /// Whether a version stands at some place.
    pub open spec fn hold(self, version: Seq<u8>) -> bool {
        ||| self.replacement == Some(version)
        ||| self.target == Some(version)
        ||| self.backup == Some(version)
        ||| self.conflict == Some(version)
    }

    /// Whether a step can lead from here to there, by what came of it. A replacement
    /// moves the target to the backup; one that fails may leave the versions at other
    /// places, but destroys none.
    pub open spec fn can_become(self, after: Versions, event: ReplaceEvent) -> bool {
        match event {
            ReplaceEvent::Replaced => after == (Versions {
                replacement: None,
                target: self.replacement,
                backup: self.target,
                conflict: self.conflict,
            }),
            ReplaceEvent::Restored => after == (Versions {
                target: self.backup,
                backup: None,
                conflict: self.target,
                replacement: self.replacement,
            }),
            ReplaceEvent::Removed => after == (Versions { backup: None, ..self }),
            ReplaceEvent::ReplaceFailed { error: _, replacement_left: _ } => forall|v: Seq<u8>|
                self.hold(v) ==> #[trigger] after.hold(v),
            ReplaceEvent::RestoreFailed { error: _ } => forall|v: Seq<u8>|
                self.hold(v) ==> #[trigger] after.hold(v),
            _ => after == self,
        }
    }

    /// Whether the prepared version and the one found at the target stand where the
    /// stage takes them to be.
    pub open spec fn fit(self, stage: StageModel, ours: Seq<u8>, theirs: Seq<u8>) -> bool {
        match stage {
            StageModel::Looking => self.replacement == Some(ours) && self.target == Some(theirs),
            StageModel::Replacing { backup: _ } => self.replacement == Some(ours) && self.target
                == Some(theirs),
            StageModel::Finished => true,
            _ => self.target == Some(ours) && self.backup == Some(theirs),
        }
    }
}

/// However a replacement ends, no version is lost. A success leaves the prepared version
/// in place, and the old one goes only where it was checked. A failure leaves both the
/// prepared version and the one that was found.
pub proof fn law_no_version_is_lost(
    stage: CheckedReplace,
    event: ReplaceEvent,
    target: Seq<char>,
    expected: u64,
    before: Versions,
    after: Versions,
    ours: Seq<u8>,
    theirs: Seq<u8>,
)
    requires
        stage.expects(event),
        !(event is TargetMissing),
        before.fit(stage@, ours, theirs),
        before.can_become(after, event),
    ensures
        ({
            let (next, action) = replace_step(stage, event, target, expected);
            &&& after.fit(next, ours, theirs)
            &&& action is Succeed ==> stage is Cleaning && after.target == Some(ours)
            &&& action is Fail ==> after.hold(ours) && after.hold(theirs)
        }),
{
    assert(before.hold(ours));
    assert(before.hold(theirs));
}

/// A backup is removed only once its fingerprint is the expected one.
pub proof fn law_only_the_expected_version_goes(
    stage: CheckedReplace,
    event: ReplaceEvent,
    target: Seq<char>,
    expected: u64,
)
    requires
        stage.expects(event),
        replace_step(stage, event, target, expected).1 is RemoveBackup,
    ensures
        event matches ReplaceEvent::Fingerprint { value } && value == expected,
{
}

} // verus!
