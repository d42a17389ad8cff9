//! The library as the program works with it: where the user is in it, what was opened
//! lately, and what each request leads to.

use vstd::prelude::*;
use crate::file_actions::{optional_path, FileActionReport, FileActionSuccess, ReportModel};
use crate::folders::Settings;
use crate::library::LibrarySnapshot;
use crate::library_view::{
    find_pdf, pdf_at, pdf_option, ActionModel, LibraryAction, LibrarySection, LibraryViewState,
    SelectionModel, RECENT_DOCUMENTS,
};
use crate::messages::{
    failure_words, file_action_failure_message, moved_text, moved_words, recycled_text,
    recycled_words, text_option,
};
use crate::paths::{path_models, DocPath, PathModel};
use crate::scan_flow::{document_stem, stem_of_document};
use crate::snapshot::{
    files_updated, folder_pdfs, folders_except, folders_renamed, is_folder_listing, is_listed,
    lists, pdf_options, pdfs_in, pdfs_renamed, update_snapshot_files, update_snapshot_folder,
    upsert_snapshot_folder,
};
use crate::storage::{
    folder_models, is_next_name, next_sequence_name, pdf_models, FolderInfo, FolderModel, PdfInfo, PdfModel,
};

verus! {

/// The screens of the program.
#[derive(Debug, Clone, Copy, PartialEq, Eq, Structural)]
pub enum Screen {
    Library,
    Folder,
    ScanHub,
}

/// Something that the user is asked.
#[derive(Debug)]
pub enum Question {
    NewFolder,
    RenameFolder(String),
    RenameDocument(DocPath, String),
    MoveDocuments(Vec<DocPath>),
    RecycleDocuments(Vec<DocPath>),
    Settings,
}

pub ghost enum QuestionModel {
    NewFolder,
    RenameFolder(Seq<char>),
    RenameDocument(PathModel, Seq<char>),
    MoveDocuments(Seq<PathModel>),
    RecycleDocuments(Seq<PathModel>),
    Settings,
}

impl View for Question {
    type V = QuestionModel;

    open spec fn view(&self) -> QuestionModel {
        match self {
            Question::NewFolder => QuestionModel::NewFolder,
            Question::RenameFolder(name) => QuestionModel::RenameFolder(name@),
            Question::RenameDocument(path, name) => QuestionModel::RenameDocument(path@, name@),
            Question::MoveDocuments(paths) => QuestionModel::MoveDocuments(path_models(paths@)),
            Question::RecycleDocuments(paths) => QuestionModel::RecycleDocuments(
                path_models(paths@),
            ),
            Question::Settings => QuestionModel::Settings,
        }
    }
}

/// Something to be done next, outside of the library's own state.
#[derive(Debug)]
pub enum Step {
    SaveSettings,
    RefreshLibrary,
    BeginScan,
    OpenDocument(DocPath),
    OpenFolder(DocPath),
    EditDocument(PdfInfo),
    Ask(Question),
    /// A message that the user has to confirm.
    Say(String),
    /// A message that goes away, with the document it is about.
    Announce(String, Option<DocPath>),
}

pub ghost enum StepModel {
    SaveSettings,
    RefreshLibrary,
    BeginScan,
    OpenDocument(PathModel),
    OpenFolder(PathModel),
    EditDocument(PdfModel),
    Ask(QuestionModel),
    Say(Seq<char>),
    Announce(Seq<char>, Option<PathModel>),
}

impl View for Step {
    type V = StepModel;

    open spec fn view(&self) -> StepModel {
        match self {
            Step::SaveSettings => StepModel::SaveSettings,
            Step::RefreshLibrary => StepModel::RefreshLibrary,
            Step::BeginScan => StepModel::BeginScan,
            Step::OpenDocument(path) => StepModel::OpenDocument(path@),
            Step::OpenFolder(path) => StepModel::OpenFolder(path@),
            Step::EditDocument(pdf) => StepModel::EditDocument(pdf@),
            Step::Ask(question) => StepModel::Ask(question@),
            Step::Say(text) => StepModel::Say(text@),
            Step::Announce(text, path) => StepModel::Announce(text@, optional_path(*path)),
        }
    }
}

pub open spec fn step_models(steps: Seq<Step>) -> Seq<StepModel> {
    steps.map_values(|step: Step| step@)
}

fn push_step(steps: &mut Vec<Step>, step: Step)
    ensures
        step_models(final(steps)@) == step_models(old(steps)@).push(step@),
{
    steps.push(step);
    assert(step_models(steps@) =~= step_models(old(steps)@).push(step@));
}

fn no_steps() -> (r: Vec<Step>)
    ensures
        step_models(r@) == Seq::<StepModel>::empty(),
{
    let steps: Vec<Step> = Vec::new();
    assert(step_models(steps@) =~= Seq::<StepModel>::empty());
    steps
}

fn one_step(step: Step) -> (r: Vec<Step>)
    ensures
        step_models(r@) == seq![step@],
{
    let mut steps: Vec<Step> = Vec::new();
    steps.push(step);
    assert(step_models(steps@) =~= seq![step@]);
    steps
}

pub open spec fn folder_option(folder: Option<FolderInfo>) -> Option<FolderModel> {
    match folder {
        None => None,
        Some(folder) => Some(folder@),
    }
}

/// The first folder at a path, from place `i` on.
pub open spec fn folder_at_from(
    folders: Seq<FolderModel>,
    path: PathModel,
    i: int,
) -> Option<FolderModel>
    decreases folders.len() - i,
{
    if i >= folders.len() {
        None
    } else if folders[i].path == path {
        Some(folders[i])
    } else {
        folder_at_from(folders, path, i + 1)
    }
}

/// The folder at a path.
pub open spec fn folder_at(folders: Seq<FolderModel>, path: PathModel) -> Option<FolderModel> {
    folder_at_from(folders, path, 0)
}

/// Finds a folder of the library.
pub fn find_folder(folders: &Vec<FolderInfo>, path: &DocPath) -> (r: Option<FolderInfo>)
    ensures
        folder_option(r) == folder_at(folder_models(folders@), path@),
{
    let ghost models = folder_models(folders@);
    let mut i: usize = 0;
    while i < folders.len()
        invariant
            i <= folders.len(),
            models == folder_models(folders@),
            folder_at(models, path@) == folder_at_from(models, path@, i as int),
        decreases folders.len() - i,
    {
        assert(models[i as int] == folders[i as int]@);
        if folders[i].path.same(path) {
            return Some(folders[i].copy());
        }
        i = i + 1;
    }
    None
}

/// Whether a folder is the one that was used last: by its path or by its name.
pub open spec fn is_last_used(
    folder: FolderModel,
    last_path: Option<PathModel>,
    last_name: Option<Seq<char>>,
) -> bool {
    last_path == Some(folder.path) || last_name == Some(folder.name)
}

/// The first folder, from place `i` on, that was used last.
pub open spec fn last_used_from(
    folders: Seq<FolderModel>,
    last_path: Option<PathModel>,
    last_name: Option<Seq<char>>,
    i: int,
) -> Option<FolderModel>
    decreases folders.len() - i,
{
    if i >= folders.len() {
        None
    } else if is_last_used(folders[i], last_path, last_name) {
        Some(folders[i])
    } else {
        last_used_from(folders, last_path, last_name, i + 1)
    }
}

fn find_last_used(
    folders: &Vec<FolderInfo>,
    last_path: &Option<DocPath>,
    last_name: &Option<String>,
) -> (r: Option<FolderInfo>)
    ensures
        folder_option(r) == last_used_from(
            folder_models(folders@),
            optional_path(*last_path),
            text_option(*last_name),
            0,
        ),
{
    let ghost models = folder_models(folders@);
    let ghost path = optional_path(*last_path);
    let ghost name = text_option(*last_name);
    let mut i: usize = 0;
    while i < folders.len()
        invariant
            i <= folders.len(),
            models == folder_models(folders@),
            path == optional_path(*last_path),
            name == text_option(*last_name),
            last_used_from(models, path, name, 0) == last_used_from(models, path, name, i as int),
        decreases folders.len() - i,
    {
        assert(models[i as int] == folders[i as int]@);
        let by_path: bool = match last_path {
            Some(last) => last.same(&folders[i].path),
            None => false,
        };
        let by_name: bool = match last_name {
            Some(last) => *last == folders[i].name,
            None => false,
        };
        if by_path || by_name {
            return Some(folders[i].copy());
        }
        i = i + 1;
    }
    None
}

/// Tells the paths that are not the given one.
pub open spec fn is_other_than(path: PathModel) -> spec_fn(PathModel) -> bool {
    |other: PathModel| other != path
}

/// The paths that are not the given one.
pub open spec fn paths_without(paths: Seq<PathModel>, path: PathModel) -> Seq<PathModel> {
    paths.filter(is_other_than(path))
}

/// The documents opened lately once another was opened: it comes first, and once only.
pub open spec fn remembered(recent: Seq<PathModel>, path: PathModel) -> Seq<PathModel> {
    let all = seq![path] + paths_without(recent, path);
    if all.len() > RECENT_DOCUMENTS {
        all.take(RECENT_DOCUMENTS as int)
    } else {
        all
    }
}

/// The documents opened lately once one of them has moved.
pub open spec fn replaced_path(
    recent: Seq<PathModel>,
    source: PathModel,
    target: PathModel,
) -> Seq<PathModel> {
    recent.map_values(
        |path: PathModel|
            if path == source {
                target
            } else {
                path
            },
    )
}

/// The paths of documents that are still in the library.
pub open spec fn still_there(recent: Seq<PathModel>, pdfs: Seq<PdfModel>) -> Seq<PathModel> {
    recent.filter(|path: PathModel| pdf_at(pdfs, path) is Some)
}

/// The paths that are not among others.
pub open spec fn paths_except(paths: Seq<PathModel>, gone: Seq<PathModel>) -> Seq<PathModel> {
    paths.filter(|path: PathModel| !lists(gone, path))
}

/// The paths once a folder above them has moved.
pub open spec fn rebased_paths(
    paths: Seq<PathModel>,
    from: PathModel,
    to: PathModel,
) -> Seq<PathModel> {
    paths.map_values(
        |path: PathModel|
            if path.is_under(from) {
                path.rebased(from, to)
            } else {
                path
            },
    )
}

proof fn lemma_path_models_push(list: Seq<DocPath>, path: DocPath)
    ensures
        path_models(list.push(path)) == path_models(list).push(path@),
{
    assert(path_models(list.push(path)) =~= path_models(list).push(path@));
}

/// Puts a document first among those opened lately.
pub fn remember_path(recent: &Vec<DocPath>, path: &DocPath) -> (r: Vec<DocPath>)
    ensures
        path_models(r@) == remembered(path_models(recent@), path@),
{
    let ghost models = path_models(recent@);
    let mut all: Vec<DocPath> = Vec::new();
    all.push(path.copy());
    let mut i: usize = 0;
    proof {
        reveal(Seq::filter);
        assert(models.take(0) =~= Seq::<PathModel>::empty());
        assert(path_models(all@) =~= seq![path@] + paths_without(models.take(0), path@));
    }
    while i < recent.len()
        invariant
            i <= recent.len(),
            models == path_models(recent@),
            path_models(all@) == seq![path@] + paths_without(models.take(i as int), path@),
        decreases recent.len() - i,
    {
        proof {
            reveal(Seq::filter);
            assert(models.take(i + 1).drop_last() =~= models.take(i as int));
            assert(models.take(i + 1).last() == recent[i as int]@);
        }
        if !recent[i].same(path) {
            let copy: DocPath = recent[i].copy();
            proof {
                lemma_path_models_push(all@, copy);
            }
            all.push(copy);
            assert(path_models(all@) =~= seq![path@] + paths_without(
                models.take(i + 1),
                path@,
            ));
        }
        i = i + 1;
    }
    assert(models.take(i as int) =~= models);
    let ghost full = path_models(all@);
    assert(full.len() == all.len());
    if all.len() > RECENT_DOCUMENTS {
        all.truncate(RECENT_DOCUMENTS);
        assert(path_models(all@) =~= full.take(RECENT_DOCUMENTS as int));
    }
    all
}

/// Lets a document that has moved be found where it is now. Says whether it was listed.
fn replace_listed(paths: &mut Vec<DocPath>, source: &DocPath, target: &DocPath) -> (r: bool)
    ensures
        path_models(final(paths)@) == replaced_path(path_models(old(paths)@), source@, target@),
        r == lists(path_models(old(paths)@), source@),
{
    let ghost models = path_models(paths@);
    let ghost wanted = replaced_path(models, source@, target@);
    let mut result: Vec<DocPath> = Vec::new();
    let mut changed: bool = false;
    let mut i: usize = 0;
    while i < paths.len()
        invariant
            i <= paths.len(),
            models == path_models(paths@),
            wanted == replaced_path(models, source@, target@),
            result.len() == i,
            forall|k: int| 0 <= k < i ==> (#[trigger] result[k])@ == wanted[k],
            changed == (exists|k: int| 0 <= k < i && #[trigger] models[k] == source@),
        decreases paths.len() - i,
    {
        assert(models[i as int] == paths[i as int]@);
        if paths[i].same(source) {
            result.push(target.copy());
            changed = true;
        } else {
            result.push(paths[i].copy());
        }
        i = i + 1;
    }
    assert(path_models(result@) =~= wanted);
    *paths = result;
    changed
}

fn keep_still_there(recent: &Vec<DocPath>, pdfs: &Vec<PdfInfo>) -> (r: Vec<DocPath>)
    ensures
        path_models(r@) == still_there(path_models(recent@), pdf_models(pdfs@)),
{
    let ghost models = path_models(recent@);
    let ghost all = pdf_models(pdfs@);
    let mut kept: Vec<DocPath> = Vec::new();
    let mut i: usize = 0;
    proof {
        reveal(Seq::filter);
        assert(path_models(kept@) =~= still_there(models.take(0), all));
    }
    while i < recent.len()
        invariant
            i <= recent.len(),
            models == path_models(recent@),
            all == pdf_models(pdfs@),
            path_models(kept@) == still_there(models.take(i as int), all),
        decreases recent.len() - i,
    {
        proof {
            reveal(Seq::filter);
            assert(models.take(i + 1).drop_last() =~= models.take(i as int));
            assert(models.take(i + 1).last() == recent[i as int]@);
        }
        let found: Option<PdfInfo> = find_pdf(pdfs, &recent[i]);
        if found.is_some() {
            let copy: DocPath = recent[i].copy();
            proof {
                lemma_path_models_push(kept@, copy);
            }
            kept.push(copy);
        }
        i = i + 1;
    }
    assert(models.take(i as int) =~= models);
    kept
}

fn keep_paths_except(paths: &Vec<DocPath>, gone: &Vec<DocPath>) -> (r: Vec<DocPath>)
    ensures
        path_models(r@) == paths_except(path_models(paths@), path_models(gone@)),
{
    let ghost models = path_models(paths@);
    let ghost places = path_models(gone@);
    let mut kept: Vec<DocPath> = Vec::new();
    let mut i: usize = 0;
    proof {
        reveal(Seq::filter);
        assert(path_models(kept@) =~= paths_except(models.take(0), places));
    }
    while i < paths.len()
        invariant
            i <= paths.len(),
            models == path_models(paths@),
            places == path_models(gone@),
            path_models(kept@) == paths_except(models.take(i as int), places),
        decreases paths.len() - i,
    {
        proof {
            reveal(Seq::filter);
            assert(models.take(i + 1).drop_last() =~= models.take(i as int));
            assert(models.take(i + 1).last() == paths[i as int]@);
        }
        if !is_listed(gone, &paths[i]) {
            let copy: DocPath = paths[i].copy();
            proof {
                lemma_path_models_push(kept@, copy);
            }
            kept.push(copy);
        }
        i = i + 1;
    }
    assert(models.take(i as int) =~= models);
    kept
}

fn rebase_paths(paths: &Vec<DocPath>, from: &DocPath, to: &DocPath) -> (r: Vec<DocPath>)
    ensures
        path_models(r@) == rebased_paths(path_models(paths@), from@, to@),
{
    let ghost models = path_models(paths@);
    let ghost wanted = rebased_paths(models, from@, to@);
    let mut result: Vec<DocPath> = Vec::new();
    let mut i: usize = 0;
    while i < paths.len()
        invariant
            i <= paths.len(),
            models == path_models(paths@),
            wanted == rebased_paths(models, from@, to@),
            result.len() == i,
            forall|k: int| 0 <= k < i ==> (#[trigger] result[k])@ == wanted[k],
        decreases paths.len() - i,
    {
        assert(models[i as int] == paths[i as int]@);
        match paths[i].rebase(from, to) {
            Some(moved) => result.push(moved),
            None => result.push(paths[i].copy()),
        }
        i = i + 1;
    }
    assert(path_models(result@) =~= wanted);
    result
}

/// The library and the user's place in it.
#[derive(Debug)]
pub struct Workspace {
    pub screen: Screen,
    pub library_root: DocPath,
    pub snapshot: LibrarySnapshot,
    /// Grows with every change of what is known of the library.
    pub revision: u64,
    pub selected_folder: Option<FolderInfo>,
    pub settings: Settings,
    pub view: LibraryViewState,
    /// Whether the folder used last is still to be opened once the library is known.
    pub restore_pending: bool,
}

/// What a workspace says.
#[verifier::ext_equal]
pub struct WorkspaceModel {
    pub screen: Screen,
    pub root: PathModel,
    pub known_root: PathModel,
    pub folders: Seq<FolderModel>,
    pub pdfs: Seq<PdfModel>,
    pub revision: u64,
    pub selected: Option<FolderModel>,
    pub chosen_root: Option<PathModel>,
    pub last_folder: Option<Seq<char>>,
    pub last_folder_path: Option<PathModel>,
    pub recent: Seq<PathModel>,
    pub section: LibrarySection,
    pub query: Seq<char>,
    pub selection: SelectionModel,
    pub restore_pending: bool,
}

/// The number after the given one; the last one is its own successor.
pub open spec fn next_revision(revision: u64) -> u64 {
    if revision == u64::MAX {
        revision
    } else {
        (revision + 1) as u64
    }
}

fn succeed(revision: u64) -> (r: u64)
    ensures
        r == next_revision(revision),
{
    if revision == u64::MAX {
        revision
    } else {
        revision + 1
    }
}

/// What is done when something asked for is not there: it is said, and the library is read
/// again.
pub open spec fn gone_steps(message: Seq<char>) -> Seq<StepModel> {
    seq![StepModel::Say(message), StepModel::RefreshLibrary]
}

/// The name offered when a document is renamed.
pub open spec fn offered_name(pdf: PdfModel) -> Seq<char> {
    if pdf.path.parts.len() == 0 {
        pdf.name
    } else {
        document_stem(pdf.path)
    }
}

impl WorkspaceModel {
    /// The folder that stands for the library's own location.
    pub open spec fn root_folder(self, modified_secs: u64) -> FolderModel {
        FolderModel {
            name: "Główna lokalizacja"@,
            path: self.root,
            pdf_count: pdfs_in(self.pdfs, self.root).len() as usize,
            modified_secs,
        }
    }

    /// Once a folder was opened. Any but the library's own location is where scans go from
    /// now on.
    pub open spec fn opened(self, folder: FolderModel) -> WorkspaceModel {
        let there = WorkspaceModel {
            selected: Some(folder),
            section: LibrarySection::All,
            query: Seq::empty(),
            screen: Screen::Folder,
            ..self
        };
        if folder.path == self.root {
            there
        } else {
            WorkspaceModel {
                last_folder: Some(folder.name),
                last_folder_path: Some(folder.path),
                ..there
            }
        }
    }

    /// What is left to do once a folder was opened.
    pub open spec fn open_steps(self, folder: FolderModel) -> Seq<StepModel> {
        if folder.path == self.root {
            Seq::empty()
        } else {
            seq![StepModel::SaveSettings]
        }
    }

    /// Once the library was read again: what was chosen is looked up again, and what is gone
    /// is forgotten.
    pub open spec fn reread(
        self,
        folders: Seq<FolderModel>,
        pdfs: Seq<PdfModel>,
    ) -> WorkspaceModel {
        let known = WorkspaceModel {
            known_root: self.root,
            folders,
            pdfs,
            revision: next_revision(self.revision),
            ..self
        };
        WorkspaceModel {
            selected: match self.selected {
                None => None,
                Some(folder) => if folder.path == self.root {
                    Some(known.root_folder(0))
                } else {
                    folder_at(folders, folder.path)
                },
            },
            ..known
        }
    }

    /// The folder that is opened by itself when the library is first known.
    pub open spec fn restored_folder(self) -> Option<FolderModel> {
        if self.restore_pending && self.selected is None {
            last_used_from(self.folders, self.last_folder_path, self.last_folder, 0)
        } else {
            None
        }
    }

    pub open spec fn restored(self) -> WorkspaceModel {
        let there = match self.restored_folder() {
            Some(folder) => self.opened(folder),
            None => self,
        };
        WorkspaceModel { restore_pending: false, ..there }
    }

    /// Once the library was read: the workspace and what is left to do.
    pub open spec fn refreshed(
        self,
        read_root: PathModel,
        folders: Seq<FolderModel>,
        pdfs: Seq<PdfModel>,
    ) -> (WorkspaceModel, Seq<StepModel>) {
        if read_root != self.root {
            (self, seq![StepModel::RefreshLibrary])
        } else {
            let known = self.reread(folders, pdfs);
            let there = known.restored();
            let opening = match known.restored_folder() {
                Some(folder) => known.open_steps(folder),
                None => Seq::empty(),
            };
            let recent = still_there(there.recent, pdfs);
            (
                WorkspaceModel { recent, ..there },
                if recent.len() == there.recent.len() {
                    opening
                } else {
                    opening.push(StepModel::SaveSettings)
                },
            )
        }
    }

    /// The folder of a document: one of the library, or one made up from the document.
    pub open spec fn folder_of(self, pdf: PdfModel) -> FolderModel {
        if pdf.folder_path == self.root {
            self.root_folder(pdf.modified_secs)
        } else {
            match folder_at(self.folders, pdf.folder_path) {
                Some(folder) => folder,
                None => FolderModel {
                    name: pdf.folder_name,
                    path: pdf.folder_path,
                    pdf_count: 0,
                    modified_secs: pdf.modified_secs,
                },
            }
        }
    }

    pub open spec fn remembering(self, path: PathModel) -> WorkspaceModel {
        WorkspaceModel { recent: remembered(self.recent, path), ..self }
    }

    /// Once files have come and gone.
    pub open spec fn with_files(
        self,
        removed: Seq<PathModel>,
        added: Seq<Option<PdfModel>>,
    ) -> WorkspaceModel {
        let (folders, pdfs) = files_updated(self.folders, self.pdfs, removed, added);
        WorkspaceModel {
            folders,
            pdfs,
            revision: if removed.len() == 0 && added.len() == 0 {
                self.revision
            } else {
                next_revision(self.revision)
            },
            ..self
        }
    }

    /// What a request of the user leads to: the workspace and what is left to do.
    pub open spec fn handled(self, action: ActionModel) -> (WorkspaceModel, Seq<StepModel>) {
        match action {
            ActionModel::ChangeSection(section) => (
                WorkspaceModel { selected: None, screen: Screen::Library, section, ..self },
                Seq::empty(),
            ),
            ActionModel::SelectFolder(path) => match folder_at(self.folders, path) {
                Some(folder) => (self.opened(folder), self.open_steps(folder)),
                None => (self, gone_steps("Ten folder już nie istnieje."@)),
            },
            ActionModel::RenameFolder(path) => match folder_at(self.folders, path) {
                Some(folder) => (
                    self.opened(folder),
                    self.open_steps(folder).push(
                        StepModel::Ask(QuestionModel::RenameFolder(folder.name)),
                    ),
                ),
                None => (self, gone_steps("Ten folder już nie istnieje."@)),
            },
            ActionModel::NewFolder => (self, seq![StepModel::Ask(QuestionModel::NewFolder)]),
            ActionModel::NewScan(destination) => {
                let target = match destination {
                    Some(path) => folder_at(self.folders, path),
                    None => None,
                };
                match target {
                    Some(folder) => (
                        self.opened(folder),
                        self.open_steps(folder).push(StepModel::BeginScan),
                    ),
                    None => if self.selected is Some {
                        (self, seq![StepModel::BeginScan])
                    } else {
                        (
                            self,
                            seq![
                                StepModel::Say(
                                    "Wybierz folder docelowy przed rozpoczęciem skanowania."@,
                                ),
                            ],
                        )
                    },
                }
            },
            ActionModel::Refresh => (self, seq![StepModel::RefreshLibrary]),
            ActionModel::Open(path) => (self, seq![StepModel::OpenDocument(path)]),
            ActionModel::Edit(path) => match pdf_at(self.pdfs, path) {
                Some(pdf) => {
                    let folder = self.folder_of(pdf);
                    (
                        self.opened(folder).remembering(pdf.path),
                        self.open_steps(folder).push(StepModel::SaveSettings).push(
                            StepModel::EditDocument(pdf),
                        ),
                    )
                },
                None => (self, gone_steps("Ten dokument już nie istnieje."@)),
            },
            ActionModel::Rename(path) => match pdf_at(self.pdfs, path) {
                Some(pdf) => (
                    self,
                    seq![
                        StepModel::Ask(QuestionModel::RenameDocument(path, offered_name(pdf))),
                    ],
                ),
                None => (self, gone_steps("Ten dokument już nie istnieje."@)),
            },
            ActionModel::Move(paths) => (
                self,
                seq![StepModel::Ask(QuestionModel::MoveDocuments(paths))],
            ),
            ActionModel::Recycle(paths) => (
                self,
                seq![StepModel::Ask(QuestionModel::RecycleDocuments(paths))],
            ),
            ActionModel::OpenFolderInExplorer(path) => (self, seq![StepModel::OpenFolder(path)]),
            ActionModel::OpenSettings => (self, seq![StepModel::Ask(QuestionModel::Settings)]),
        }
    }
}

impl Workspace {
    /// What the workspace says.
    pub open spec fn model(self) -> WorkspaceModel {
        WorkspaceModel {
            screen: self.screen,
            root: self.library_root@,
            known_root: self.snapshot.root@,
            folders: folder_models(self.snapshot.folders@),
            pdfs: pdf_models(self.snapshot.pdfs@),
            revision: self.revision,
            selected: folder_option(self.selected_folder),
            chosen_root: optional_path(self.settings.library_root),
            last_folder: text_option(self.settings.last_folder),
            last_folder_path: optional_path(self.settings.last_folder_path),
            recent: path_models(self.settings.recent_documents@),
            section: self.view.section,
            query: self.view.query@,
            selection: self.view.selection(),
            restore_pending: self.restore_pending,
        }
    }

    pub open spec fn wf(self) -> bool {
        self.view.wf()
    }

    /// Whether what the model does not speak of is as it was.
    pub open spec fn rest_as(self, before: Workspace) -> bool {
        &&& self.settings.auto_capture == before.settings.auto_capture
        &&& self.settings.backend_url == before.settings.backend_url
        &&& self.settings.salon_id == before.settings.salon_id
        &&& self.settings.scan_api_key == before.settings.scan_api_key
        &&& self.settings.color_mode == before.settings.color_mode
        &&& self.view.sort == before.view.sort
        &&& self.view.search_focus_requested == before.view.search_focus_requested
        &&& self.view.selection_revision == before.view.selection_revision
        &&& self.view.visible_cache_key == before.view.visible_cache_key
        &&& self.view.visible_documents == before.view.visible_documents
    }

    /// The workspace at the start of the program.
    pub fn new(settings: Settings, default_root: DocPath) -> (r: Workspace)
        ensures
            r.wf(),
            r.settings == settings,
            r.model() == (WorkspaceModel {
                screen: Screen::Library,
                root: match optional_path(settings.library_root) {
                    Some(path) => path,
                    None => default_root@,
                },
                known_root: r.model().root,
                folders: Seq::empty(),
                pdfs: Seq::empty(),
                revision: 0,
                selected: None,
                section: LibrarySection::Home,
                query: Seq::empty(),
                selection: SelectionModel::empty(),
                restore_pending: true,
                ..r.model()
            }),
    {
        let root: DocPath = match &settings.library_root {
            Some(path) => path.copy(),
            None => default_root,
        };
        let workspace: Workspace = Workspace {
            screen: Screen::Library,
            snapshot: LibrarySnapshot {
                root: root.copy(),
                folders: Vec::new(),
                pdfs: Vec::new(),
            },
            library_root: root,
            revision: 0,
            selected_folder: None,
            settings,
            view: LibraryViewState::default(),
            restore_pending: true,
        };
        assert(workspace.model().folders =~= Seq::<FolderModel>::empty());
        assert(workspace.model().pdfs =~= Seq::<PdfModel>::empty());
        workspace
    }

    /// The documents of the open folder.
    pub fn listed_pdfs(&self) -> (r: Vec<PdfInfo>)
        ensures
            pdf_models(r@) == match folder_option(self.selected_folder) {
                Some(folder) => pdfs_in(pdf_models(self.snapshot.pdfs@), folder.path),
                None => Seq::empty(),
            },
    {
        match &self.selected_folder {
            Some(folder) => folder_pdfs(&self.snapshot.pdfs, &folder.path),
            None => {
                let nothing: Vec<PdfInfo> = Vec::new();
                assert(pdf_models(nothing@) =~= Seq::<PdfModel>::empty());
                nothing
            },
        }
    }

    /// Opens a folder. Says whether the settings have to be saved.
    pub fn open_folder(&mut self, folder: FolderInfo) -> (r: bool)
        requires
            old(self).wf(),
        ensures
            final(self).wf(),
            final(self).model() == old(self).model().opened(folder@),
            r == (folder@.path != old(self).model().root),
            final(self).rest_as(*old(self)),
    {
        let scans_go_there: bool = !folder.path.same(&self.library_root);
        if scans_go_there {
            self.settings.last_folder = Some(folder.name.clone());
            self.settings.last_folder_path = Some(folder.path.copy());
        }
        self.selected_folder = Some(folder);
        self.view.section = LibrarySection::All;
        self.view.query = String::new();
        self.screen = Screen::Folder;
        assert(self.view.query@ =~= Seq::<char>::empty());
        scans_go_there
    }

    fn root_folder(&self, modified_secs: u64) -> (r: FolderInfo)
        ensures
            r@ == self.model().root_folder(modified_secs),
    {
        let inside: Vec<PdfInfo> = folder_pdfs(&self.snapshot.pdfs, &self.library_root);
        assert(pdf_models(inside@).len() == inside.len());
        FolderInfo {
            name: "Główna lokalizacja".to_owned(),
            path: self.library_root.copy(),
            pdf_count: inside.len(),
            modified_secs,
        }
    }

    /// Takes over what was read of the library.
    pub fn library_refreshed(&mut self, snapshot: LibrarySnapshot) -> (r: Vec<Step>)
        requires
            old(self).wf(),
        ensures
            final(self).wf(),
            (final(self).model(), step_models(r@)) == old(self).model().refreshed(
                snapshot.root@,
                folder_models(snapshot.folders@),
                pdf_models(snapshot.pdfs@),
            ),
            final(self).rest_as(*old(self)),
    {
        if !snapshot.root.same(&self.library_root) {
            return one_step(Step::RefreshLibrary);
        }
        let ghost folders = folder_models(snapshot.folders@);
        let ghost pdfs = pdf_models(snapshot.pdfs@);
        self.snapshot = snapshot;
        self.revision = succeed(self.revision);
        let chosen: Option<DocPath> = match &self.selected_folder {
            Some(folder) => Some(folder.path.copy()),
            None => None,
        };
        if let Some(path) = chosen {
            self.selected_folder = if path.same(&self.library_root) {
                Some(self.root_folder(0))
            } else {
                find_folder(&self.snapshot.folders, &path)
            };
        }
        let ghost known = self.model();
        assert(known =~= old(self).model().reread(folders, pdfs));
        let mut steps: Vec<Step> = no_steps();
        if self.restore_pending {
            self.restore_pending = false;
            if self.selected_folder.is_none() {
                let last: Option<FolderInfo> = find_last_used(
                    &self.snapshot.folders,
                    &self.settings.last_folder_path,
                    &self.settings.last_folder,
                );
                if let Some(folder) = last {
                    if self.open_folder(folder) {
                        steps = one_step(Step::SaveSettings);
                    }
                }
            }
        }
        assert(self.model() =~= known.restored());
        let kept: Vec<DocPath> = keep_still_there(
            &self.settings.recent_documents,
            &self.snapshot.pdfs,
        );
        let changed: bool = kept.len() != self.settings.recent_documents.len();
        assert(path_models(kept@).len() == kept.len());
        assert(self.model().recent.len() == self.settings.recent_documents.len());
        self.settings.recent_documents = kept;
        if changed {
            push_step(&mut steps, Step::SaveSettings);
        }
        steps
    }

    /// Lets a document come first among those opened lately.
    pub fn remember_recent_document(&mut self, path: &DocPath)
        ensures
            old(self).wf() ==> final(self).wf(),
            final(self).model() == old(self).model().remembering(path@),
            final(self).rest_as(*old(self)),
    {
        self.settings.recent_documents = remember_path(&self.settings.recent_documents, path);
    }

    /// Brings the library up to date with files that have come and gone.
    pub fn update_files(&mut self, removed: &Vec<DocPath>, added: &Vec<Option<PdfInfo>>)
        ensures
            old(self).wf() ==> final(self).wf(),
            final(self).model() == old(self).model().with_files(
                path_models(removed@),
                pdf_options(added@),
            ),
            final(self).rest_as(*old(self)),
    {
        update_snapshot_files(&mut self.snapshot, removed, added);
        if removed.len() > 0 || added.len() > 0 {
            self.revision = succeed(self.revision);
        }
    }

    fn folder_of(&self, pdf: &PdfInfo) -> (r: FolderInfo)
        ensures
            r@ == self.model().folder_of(pdf@),
    {
        if pdf.folder_path.same(&self.library_root) {
            return self.root_folder(pdf.modified_secs);
        }
        match find_folder(&self.snapshot.folders, &pdf.folder_path) {
            Some(folder) => folder,
            None => FolderInfo {
                name: pdf.folder_name.clone(),
                path: pdf.folder_path.copy(),
                pdf_count: 0,
                modified_secs: pdf.modified_secs,
            },
        }
    }

    /// Does what the user asks for, and says what is left to do.
    pub fn handle_library_action(&mut self, action: LibraryAction) -> (r: Vec<Step>)
        requires
            old(self).wf(),
        ensures
            final(self).wf(),
            (final(self).model(), step_models(r@)) == old(self).model().handled(action@),
            final(self).rest_as(*old(self)),
    {
        match action {
            LibraryAction::ChangeSection(section) => {
                self.selected_folder = None;
                self.screen = Screen::Library;
                self.view.section = section;
                no_steps()
            },
            LibraryAction::SelectFolder(path) => match find_folder(&self.snapshot.folders, &path) {
                Some(folder) => {
                    if self.open_folder(folder) {
                        one_step(Step::SaveSettings)
                    } else {
                        no_steps()
                    }
                },
                None => gone("Ten folder już nie istnieje."),
            },
            LibraryAction::RenameFolder(path) => match find_folder(&self.snapshot.folders, &path) {
                Some(folder) => {
                    let name: String = folder.name.clone();
                    let mut steps: Vec<Step> = no_steps();
                    if self.open_folder(folder) {
                        steps = one_step(Step::SaveSettings);
                    }
                    push_step(&mut steps, Step::Ask(Question::RenameFolder(name)));
                    steps
                },
                None => gone("Ten folder już nie istnieje."),
            },
            LibraryAction::NewFolder => one_step(Step::Ask(Question::NewFolder)),
            LibraryAction::NewScan(destination) => {
                let target: Option<FolderInfo> = match &destination {
                    Some(path) => find_folder(&self.snapshot.folders, path),
                    None => None,
                };
                let mut steps: Vec<Step> = no_steps();
                if let Some(folder) = target {
                    if self.open_folder(folder) {
                        steps = one_step(Step::SaveSettings);
                    }
                }
                if self.selected_folder.is_some() {
                    push_step(&mut steps, Step::BeginScan);
                    assert(Seq::<StepModel>::empty().push(StepModel::BeginScan)
                        =~= seq![StepModel::BeginScan]);
                    steps
                } else {
                    one_step(
                        Step::Say(
                            "Wybierz folder docelowy przed rozpoczęciem skanowania.".to_owned(),
                        ),
                    )
                }
            },
            LibraryAction::Refresh => one_step(Step::RefreshLibrary),
            LibraryAction::Open(path) => one_step(Step::OpenDocument(path)),
            LibraryAction::Edit(path) => match find_pdf(&self.snapshot.pdfs, &path) {
                Some(pdf) => {
                    let folder: FolderInfo = self.folder_of(&pdf);
                    let mut steps: Vec<Step> = no_steps();
                    if self.open_folder(folder) {
                        steps = one_step(Step::SaveSettings);
                    }
                    self.remember_recent_document(&pdf.path);
                    push_step(&mut steps, Step::SaveSettings);
                    push_step(&mut steps, Step::EditDocument(pdf));
                    steps
                },
                None => gone("Ten dokument już nie istnieje."),
            },
            LibraryAction::Rename(path) => match find_pdf(&self.snapshot.pdfs, &path) {
                Some(pdf) => {
                    assert(pdf.path@.parts.len() == pdf.path.parts.len());
                    let name: String = if pdf.path.parts.len() == 0 {
                        pdf.name
                    } else {
                        stem_of_document(&pdf.path)
                    };
                    one_step(Step::Ask(Question::RenameDocument(path, name)))
                },
                None => gone("Ten dokument już nie istnieje."),
            },
            LibraryAction::Move(paths) => one_step(Step::Ask(Question::MoveDocuments(paths))),
            LibraryAction::Recycle(paths) => one_step(Step::Ask(Question::RecycleDocuments(paths))),
            LibraryAction::OpenFolderInExplorer(path) => one_step(Step::OpenFolder(path)),
            LibraryAction::OpenSettings => one_step(Step::Ask(Question::Settings)),
        }
    }
}

fn gone(message: &str) -> (r: Vec<Step>)
    ensures
        step_models(r@) == gone_steps(message@),
{
    let mut steps: Vec<Step> = one_step(Step::Say(message.to_owned()));
    push_step(&mut steps, Step::RefreshLibrary);
    assert(seq![StepModel::Say(message@)].push(StepModel::RefreshLibrary) =~= gone_steps(message@));
    steps
}

/// The documents opened lately once each document that was moved is where it is now.
pub open spec fn followed(
    recent: Seq<PathModel>,
    moves: Seq<(PathModel, Option<PathModel>)>,
    n: nat,
) -> Seq<PathModel>
    decreases n,
{
    if n == 0 {
        recent
    } else {
        let before = followed(recent, moves, (n - 1) as nat);
        match moves[n - 1].1 {
            Some(target) => replaced_path(before, moves[n - 1].0, target),
            None => before,
        }
    }
}

/// Whether following the moves changes anything.
pub open spec fn follows_any(
    recent: Seq<PathModel>,
    moves: Seq<(PathModel, Option<PathModel>)>,
    n: nat,
) -> bool
    decreases n,
{
    n > 0 && (follows_any(recent, moves, (n - 1) as nat) || (moves[n - 1].1 is Some && lists(
        followed(recent, moves, (n - 1) as nat),
        moves[n - 1].0,
    )))
}

/// Where the documents of a batch were.
pub open spec fn sources(moves: Seq<(PathModel, Option<PathModel>)>) -> Seq<PathModel> {
    moves.map_values(|one: (PathModel, Option<PathModel>)| one.0)
}

fn sources_of(successes: &Vec<FileActionSuccess>) -> (r: Vec<DocPath>)
    ensures
        path_models(r@) == sources(
            successes@.map_values(
                |success: FileActionSuccess| (success.source@, optional_path(success.destination)),
            ),
        ),
{
    let mut result: Vec<DocPath> = Vec::new();
    let mut i: usize = 0;
    while i < successes.len()
        invariant
            i <= successes.len(),
            result.len() == i,
            forall|k: int| 0 <= k < i ==> (#[trigger] result[k])@ == successes[k].source@,
        decreases successes.len() - i,
    {
        result.push(successes[i].source.copy());
        i = i + 1;
    }
    assert(path_models(result@) =~= sources(
        successes@.map_values(
            |success: FileActionSuccess| (success.source@, optional_path(success.destination)),
        ),
    ));
    result
}

fn follow(recent: &mut Vec<DocPath>, report: &FileActionReport) -> (r: bool)
    ensures
        path_models(final(recent)@) == followed(
            path_models(old(recent)@),
            report@.successes,
            report@.successes.len(),
        ),
        r == follows_any(path_models(old(recent)@), report@.successes, report@.successes.len()),
{
    let ghost before = path_models(recent@);
    let ghost moves = report@.successes;
    let mut changed: bool = false;
    let mut i: usize = 0;
    while i < report.successes.len()
        invariant
            i <= report.successes.len(),
            moves == report@.successes,
            path_models(recent@) == followed(before, moves, i as nat),
            changed == follows_any(before, moves, i as nat),
        decreases report.successes.len() - i,
    {
        assert(moves[i as int] == (
            report.successes[i as int].source@,
            optional_path(report.successes[i as int].destination),
        ));
        if let Some(destination) = &report.successes[i].destination {
            if replace_listed(recent, &report.successes[i].source, destination) {
                changed = true;
            }
        }
        i = i + 1;
    }
    changed
}

/// A message with the document it is about, then nothing more than a fresh look at the
/// library.
pub open spec fn settle_steps(
    announced: Option<Seq<char>>,
    said: Option<Seq<char>>,
) -> Seq<StepModel> {
    let first = match announced {
        Some(text) => seq![StepModel::Announce(text, None)],
        None => Seq::empty(),
    };
    let second = match said {
        Some(text) => first.push(StepModel::Say(text)),
        None => first,
    };
    second.push(StepModel::RefreshLibrary)
}

fn settle(announced: Option<String>, said: Option<String>) -> (r: Vec<Step>)
    ensures
        step_models(r@) == settle_steps(text_option(announced), text_option(said)),
{
    let mut steps: Vec<Step> = match announced {
        Some(text) => one_step(Step::Announce(text, None)),
        None => no_steps(),
    };
    if let Some(text) = said {
        push_step(&mut steps, Step::Say(text));
    }
    push_step(&mut steps, Step::RefreshLibrary);
    steps
}

fn prepended(step: Step, steps: Vec<Step>) -> (r: Vec<Step>)
    ensures
        step_models(r@) == seq![step@] + step_models(steps@),
{
    let mut steps: Vec<Step> = steps;
    let ghost before = steps@;
    steps.insert(0, step);
    assert(step_models(steps@) =~= seq![step@] + step_models(before));
    steps
}

/// What is said of the failures of a batch.
pub open spec fn failures_said(action: Seq<char>, report: ReportModel) -> Option<Seq<char>> {
    if report.failures.len() == 0 {
        None
    } else {
        Some(failure_words(action, report))
    }
}

impl WorkspaceModel {
    /// Once documents were moved to another folder; `added` says what was read of them there.
    pub open spec fn moved(
        self,
        report: ReportModel,
        added: Seq<Option<PdfModel>>,
    ) -> (WorkspaceModel, Seq<StepModel>) {
        let gone = sources(report.successes);
        let updated = self.with_files(gone, added);
        let settled = settle_steps(moved_words(report), failures_said("przenieść"@, report));
        (
            WorkspaceModel {
                recent: followed(self.recent, report.successes, report.successes.len()),
                selection: self.selection.without(gone, gone.len()),
                ..updated
            },
            if follows_any(self.recent, report.successes, report.successes.len()) {
                seq![StepModel::SaveSettings] + settled
            } else {
                settled
            },
        )
    }

    /// Once documents were moved to the bin.
    pub open spec fn recycled(self, report: ReportModel) -> (WorkspaceModel, Seq<StepModel>) {
        let gone = sources(report.successes);
        let updated = self.with_files(gone, Seq::empty());
        let said = failures_said("przenieść do Kosza"@, report);
        (
            WorkspaceModel {
                recent: if gone.len() == 0 {
                    self.recent
                } else {
                    paths_except(self.recent, gone)
                },
                selection: self.selection.without(gone, gone.len()),
                ..updated
            },
            if gone.len() == 0 {
                settle_steps(None, said)
            } else {
                seq![StepModel::SaveSettings] + settle_steps(Some(recycled_words(gone.len())), said)
            },
        )
    }

    /// Once a document got another name; `read` says what was read of it there.
    pub open spec fn document_renamed(
        self,
        source: PathModel,
        destination: PathModel,
        read: Option<PdfModel>,
    ) -> (WorkspaceModel, Seq<StepModel>) {
        let updated = self.with_files(seq![source], seq![read]);
        let told = seq![
            StepModel::Announce("Zmieniono nazwę dokumentu."@, Some(destination)),
            StepModel::RefreshLibrary,
        ];
        (
            WorkspaceModel {
                recent: replaced_path(self.recent, source, destination),
                selection: self.selection.replaced(source, destination),
                ..updated
            },
            if lists(self.recent, source) {
                seq![StepModel::SaveSettings] + told
            } else {
                told
            },
        )
    }

    /// Once a folder got another name. What was opened lately and what is selected below it
    /// goes along.
    pub open spec fn folder_renamed(
        self,
        listed: Seq<PathModel>,
        previous: PathModel,
        renamed: FolderModel,
    ) -> WorkspaceModel {
        WorkspaceModel {
            recent: rebased_paths(self.recent, previous, renamed.path),
            selection: self.selection.rebased(listed, previous, renamed.path, listed.len()),
            selected: Some(renamed),
            last_folder: Some(renamed.name),
            last_folder_path: Some(renamed.path),
            folders: folders_renamed(self.folders, previous, renamed),
            pdfs: pdfs_renamed(self.pdfs, previous, renamed),
            revision: next_revision(self.revision),
            ..self
        }
    }

    /// Once the library was moved to another place: nothing of the old one is kept.
    pub open spec fn relocated(self, root: PathModel) -> WorkspaceModel {
        WorkspaceModel {
            root,
            chosen_root: Some(root),
            last_folder: None,
            last_folder_path: None,
            recent: Seq::empty(),
            selected: None,
            known_root: root,
            folders: Seq::empty(),
            pdfs: Seq::empty(),
            revision: next_revision(self.revision),
            selection: SelectionModel::empty(),
            restore_pending: false,
            screen: Screen::Library,
            ..self
        }
    }
}

impl Workspace {
    /// Documents were moved to another folder. For each that was moved `added` holds what
    /// was read of it in its new place, if anything.
    pub fn finish_pdf_move(
        &mut self,
        report: &FileActionReport,
        added: &Vec<Option<PdfInfo>>,
    ) -> (r: Vec<Step>)
        requires
            old(self).wf(),
            report.successes.len() + report.failures.len() + report.skipped.len() <= usize::MAX,
        ensures
            final(self).wf(),
            (final(self).model(), step_models(r@)) == old(self).model().moved(
                report@,
                pdf_options(added@),
            ),
            final(self).rest_as(*old(self)),
    {
        let gone: Vec<DocPath> = sources_of(&report.successes);
        assert(path_models(gone@).len() == gone.len());
        let changed: bool = follow(&mut self.settings.recent_documents, report);
        self.update_files(&gone, added);
        self.view.remove_paths(&gone);
        let steps: Vec<Step> = settle(
            moved_text(report),
            file_action_failure_message("przenieść", report),
        );
        if changed {
            prepended(Step::SaveSettings, steps)
        } else {
            steps
        }
    }

    /// Documents were moved to the bin.
    pub fn finish_pdf_recycle(&mut self, report: &FileActionReport) -> (r: Vec<Step>)
        requires
            old(self).wf(),
            report.successes.len() + report.failures.len() + report.skipped.len() <= usize::MAX,
        ensures
            final(self).wf(),
            (final(self).model(), step_models(r@)) == old(self).model().recycled(report@),
            final(self).rest_as(*old(self)),
    {
        let gone: Vec<DocPath> = sources_of(&report.successes);
        assert(path_models(gone@).len() == gone.len());
        let nothing: Vec<Option<PdfInfo>> = Vec::new();
        assert(pdf_options(nothing@) =~= Seq::<Option<PdfModel>>::empty());
        self.update_files(&gone, &nothing);
        self.view.remove_paths(&gone);
        let said: Option<String> = file_action_failure_message("przenieść do Kosza", report);
        if gone.len() == 0 {
            return settle(None, said);
        }
        self.settings.recent_documents = keep_paths_except(&self.settings.recent_documents, &gone);
        prepended(Step::SaveSettings, settle(Some(recycled_text(gone.len())), said))
    }

    /// A document got another name.
    pub fn document_renamed(
        &mut self,
        source: &DocPath,
        destination: &DocPath,
        read: Option<PdfInfo>,
    ) -> (r: Vec<Step>)
        requires
            old(self).wf(),
        ensures
            final(self).wf(),
            (final(self).model(), step_models(r@)) == old(self).model().document_renamed(
                source@,
                destination@,
                pdf_option(read),
            ),
            final(self).rest_as(*old(self)),
    {
        let changed: bool = replace_listed(
            &mut self.settings.recent_documents,
            source,
            destination,
        );
        self.view.replace_path(source, destination);
        let mut removed: Vec<DocPath> = Vec::new();
        removed.push(source.copy());
        assert(path_models(removed@) =~= seq![source@]);
        let ghost found = pdf_option(read);
        let mut added: Vec<Option<PdfInfo>> = Vec::new();
        added.push(read);
        assert(pdf_options(added@) =~= seq![found]);
        self.update_files(&removed, &added);
        let mut steps: Vec<Step> = one_step(
            Step::Announce("Zmieniono nazwę dokumentu.".to_owned(), Some(destination.copy())),
        );
        push_step(&mut steps, Step::RefreshLibrary);
        assert(step_models(steps@) =~= seq![
            StepModel::Announce("Zmieniono nazwę dokumentu."@, Some(destination@)),
            StepModel::RefreshLibrary,
        ]);
        if changed {
            prepended(Step::SaveSettings, steps)
        } else {
            steps
        }
    }

    /// A document was saved; `read` says what was read of it.
    pub fn document_saved(&mut self, path: &DocPath, read: Option<PdfInfo>)
        requires
            old(self).wf(),
        ensures
            final(self).wf(),
            final(self).model() == old(self).model().remembering(path@).with_files(
                seq![path@],
                seq![pdf_option(read)],
            ),
            final(self).rest_as(*old(self)),
    {
        self.remember_recent_document(path);
        let mut removed: Vec<DocPath> = Vec::new();
        removed.push(path.copy());
        assert(path_models(removed@) =~= seq![path@]);
        let ghost found = pdf_option(read);
        let mut added: Vec<Option<PdfInfo>> = Vec::new();
        added.push(read);
        assert(pdf_options(added@) =~= seq![found]);
        self.update_files(&removed, &added);
    }

    /// A folder was made: it is opened. Says whether the settings have to be saved.
    pub fn folder_created(&mut self, folder: FolderInfo) -> (r: bool)
        requires
            old(self).wf(),
        ensures
            final(self).wf(),
            is_folder_listing(
                folders_except(old(self).model().folders, folder@.path).push(folder@),
                final(self).model().folders,
            ),
            final(self).model() == (WorkspaceModel {
                folders: final(self).model().folders,
                revision: next_revision(old(self).revision),
                ..old(self).model()
            }).opened(folder@),
            r == (folder@.path != old(self).model().root),
            final(self).rest_as(*old(self)),
    {
        upsert_snapshot_folder(&mut self.snapshot, &folder);
        self.revision = succeed(self.revision);
        self.open_folder(folder)
    }

    /// The open folder got another name.
    pub fn folder_renamed(&mut self, previous: &DocPath, renamed: FolderInfo)
        requires
            old(self).wf(),
        ensures
            final(self).wf(),
            final(self).model() == old(self).model().folder_renamed(
                old(self).view.selected.listed(),
                previous@,
                renamed@,
            ),
            final(self).rest_as(*old(self)),
    {
        self.settings.recent_documents = rebase_paths(
            &self.settings.recent_documents,
            previous,
            &renamed.path,
        );
        self.view.replace_prefix(previous, &renamed.path);
        self.settings.last_folder = Some(renamed.name.clone());
        self.settings.last_folder_path = Some(renamed.path.copy());
        update_snapshot_folder(&mut self.snapshot, previous, &renamed);
        self.revision = succeed(self.revision);
        self.selected_folder = Some(renamed);
    }

    /// The library is now at another place.
    pub fn relocate(&mut self, root: DocPath)
        requires
            old(self).wf(),
        ensures
            final(self).wf(),
            final(self).model() == old(self).model().relocated(root@),
            final(self).rest_as(*old(self)),
    {
        self.settings.library_root = Some(root.copy());
        self.settings.last_folder = None;
        self.settings.last_folder_path = None;
        self.settings.recent_documents = Vec::new();
        self.selected_folder = None;
        self.snapshot = LibrarySnapshot {
            root: root.copy(),
            folders: Vec::new(),
            pdfs: Vec::new(),
        };
        self.revision = succeed(self.revision);
        self.view.clear_selection();
        self.restore_pending = false;
        self.screen = Screen::Library;
        self.library_root = root;
        assert(self.model().recent =~= Seq::<PathModel>::empty());
        assert(self.model().folders =~= Seq::<FolderModel>::empty());
        assert(self.model().pdfs =~= Seq::<PdfModel>::empty());
    }

    /// Goes to the folder of a session that was found again, under the folder's own name.
    pub fn enter_recovered_folder(&mut self, path: &DocPath) -> (r: String)
        requires
            old(self).wf(),
        ensures
            final(self).wf(),
            r@ == match path@.file_name() {
                Some(name) => name,
                None => Seq::empty(),
            },
            final(self).model() == (WorkspaceModel {
                selected: Some(
                    FolderModel { name: r@, path: path@, pdf_count: 0, modified_secs: 0 },
                ),
                ..old(self).model()
            }),
            final(self).rest_as(*old(self)),
    {
        let name: String = match path.file_name() {
            Some(name) => name,
            None => {
                let nothing: String = String::new();
                assert(nothing@ =~= Seq::<char>::empty());
                nothing
            },
        };
        self.selected_folder = Some(
            FolderInfo { name: name.clone(), path: path.copy(), pdf_count: 0, modified_secs: 0 },
        );
        name
    }

    /// The name offered for a new document: the next one of the series in the open folder.
    pub fn first_filename(&self) -> (r: String)
        ensures
            match folder_option(self.selected_folder) {
                None => r@ == Seq::<char>::empty(),
                Some(folder) => is_next_name(
                    pdfs_in(pdf_models(self.snapshot.pdfs@), folder.path),
                    folder.name,
                    r@,
                ),
            },
    {
        match &self.selected_folder {
            None => {
                let nothing: String = String::new();
                assert(nothing@ =~= Seq::<char>::empty());
                nothing
            },
            Some(folder) => {
                let pdfs: Vec<PdfInfo> = folder_pdfs(&self.snapshot.pdfs, &folder.path);
                next_sequence_name(&pdfs, folder.name.as_str())
            },
        }
    }
}

/// Background work on files that has ended.
#[derive(Debug)]
pub enum FileOperationEvent {
    Moved(FileActionReport),
    Recycled(FileActionReport),
}

impl Workspace {
    /// Takes in background work that has ended. For each document that was moved `added`
    /// holds what was read of it in its new place, if anything.
    pub fn finish_file_operation(
        &mut self,
        event: &FileOperationEvent,
        added: &Vec<Option<PdfInfo>>,
    ) -> (r: Vec<Step>)
        requires
            old(self).wf(),
            ({
                let report = match *event {
                    FileOperationEvent::Moved(report) => report,
                    FileOperationEvent::Recycled(report) => report,
                };
                report.successes.len() + report.failures.len() + report.skipped.len()
                    <= usize::MAX
            }),
        ensures
            final(self).wf(),
            (final(self).model(), step_models(r@)) == match *event {
                FileOperationEvent::Moved(report) => old(self).model().moved(
                    report@,
                    pdf_options(added@),
                ),
                FileOperationEvent::Recycled(report) => old(self).model().recycled(report@),
            },
            final(self).rest_as(*old(self)),
    {
        match event {
            FileOperationEvent::Moved(report) => self.finish_pdf_move(report, added),
            FileOperationEvent::Recycled(report) => self.finish_pdf_recycle(report),
        }
    }
}

/// After how many milliseconds the library is read again by itself.
pub const REFRESH_MS: u64 = 30_000;

/// Whether the library is to be read again by itself: not while a document is scanned, nor
/// while it is being read.
pub fn refresh_is_due(screen: Screen, loading: bool, elapsed_ms: u64) -> (r: bool)
    ensures
        r == (screen != Screen::ScanHub && !loading && elapsed_ms >= REFRESH_MS),
{
    screen != Screen::ScanHub && !loading && elapsed_ms >= REFRESH_MS
}

proof fn lemma_without_path(paths: Seq<PathModel>, path: PathModel)
    ensures
        forall|i: int|
            0 <= i < paths_without(paths, path).len() ==> #[trigger] paths_without(paths, path)[i]
                != path,
    decreases paths.len(),
{
    reveal(Seq::filter);
    if paths.len() > 0 {
        lemma_without_path(paths.drop_last(), path);
    }
}

proof fn lemma_leading_item_goes<A>(others: Seq<A>, item: A, kept: spec_fn(A) -> bool)
    requires
        !kept(item),
        forall|i: int| 0 <= i < others.len() ==> kept(#[trigger] others[i]),
    ensures
        others.insert(0, item).filter(kept) == others,
    decreases others.len(),
{
    reveal(Seq::filter);
    let all = others.insert(0, item);
    if others.len() == 0 {
        assert(all.drop_last() =~= Seq::<A>::empty());
        assert(all.drop_last().filter(kept) =~= Seq::<A>::empty());
    } else {
        let fewer = others.drop_last();
        assert(all.drop_last() =~= fewer.insert(0, item));
        lemma_leading_item_goes(fewer, item, kept);
        assert(all.last() == others.last());
        assert(fewer.push(others.last()) =~= others);
    }
}

proof fn lemma_leading_path_goes(others: Seq<PathModel>, path: PathModel)
    requires
        forall|i: int| 0 <= i < others.len() ==> #[trigger] others[i] != path,
    ensures
        paths_without(others.insert(0, path), path) == others,
{
    lemma_leading_item_goes(others, path, is_other_than(path));
}

/// A document that is opened comes first among those opened lately, once only, and the
/// others keep their order; the list never holds more than it should.
pub proof fn law_opened_document_comes_first(recent: Seq<PathModel>, path: PathModel)
    ensures
        remembered(recent, path)[0] == path,
        0 < remembered(recent, path).len() <= RECENT_DOCUMENTS,
        forall|i: int|
            0 < i < remembered(recent, path).len() ==> #[trigger] remembered(recent, path)[i]
                != path,
        forall|i: int|
            0 < i < remembered(recent, path).len() ==> #[trigger] remembered(recent, path)[i]
                == paths_without(recent, path)[i - 1],
{
    lemma_without_path(recent, path);
}

/// Opening a document twice in a row changes nothing the second time.
pub proof fn law_remembering_twice_is_once(recent: Seq<PathModel>, path: PathModel)
    ensures
        remembered(remembered(recent, path), path) == remembered(recent, path),
{
    let others = paths_without(recent, path);
    let once = remembered(recent, path);
    lemma_without_path(recent, path);
    let rest = if others.len() + 1 > RECENT_DOCUMENTS {
        others.take(RECENT_DOCUMENTS - 1)
    } else {
        others
    };
    assert(once =~= rest.insert(0, path));
    assert forall|i: int| 0 <= i < rest.len() implies #[trigger] rest[i] != path by {
        assert(rest[i] == others[i]);
    }
    lemma_leading_path_goes(rest, path);
    assert(paths_without(once, path) == rest);
    assert(seq![path] + rest == once);
}

/// A library that was moved to another place keeps no trace of the old one.
pub proof fn law_relocation_forgets(before: WorkspaceModel, root: PathModel)
    ensures
        before.relocated(root).recent.len() == 0,
        before.relocated(root).folders.len() == 0,
        before.relocated(root).pdfs.len() == 0,
        before.relocated(root).selected is None,
        before.relocated(root).selection.selected == Set::<PathModel>::empty(),
        before.relocated(root).restored_folder() is None,
{
}

/// The library's own location never becomes the place where scans go by default.
pub proof fn law_root_is_no_scan_destination(before: WorkspaceModel, folder: FolderModel)
    requires
        before.last_folder_path != Some(before.root),
    ensures
        before.opened(folder).last_folder_path != Some(before.root),
{
}

/// A request never changes what is known of the library, nor its place.
pub proof fn law_requests_change_no_file(before: WorkspaceModel, action: ActionModel)
    ensures
        before.handled(action).0.folders == before.folders,
        before.handled(action).0.pdfs == before.pdfs,
        before.handled(action).0.root == before.root,
        before.handled(action).0.selection == before.selection,
{
}

} // verus!
