//! The questions that the program puts to the user, and what each answer leads to.

use vstd::prelude::*;
use crate::file_actions::optional_path;
use crate::library_screen::{folder_found, folder_matches};
use crate::messages::{joined, page_count_words, polish_page_count, text_option};
use crate::paths::{path_models, DocPath, PathModel};
use crate::snapshot::{folders_except, is_folder_listing};
use crate::storage::{folder_models, FolderInfo, FolderModel};
use crate::text::{decimal, decimal_text};
use crate::workspace::{
    next_revision, Question, QuestionModel, Screen, Workspace, WorkspaceModel,
};

verus! {

/// Work on files that goes on in the background.
#[derive(Debug, Clone, Copy, PartialEq, Eq, Structural)]
pub enum PendingFileOperation {
    Move,
    Recycle,
}

/// The questions that stand open, and what was filled in.
#[derive(Debug)]
pub struct Dialogs {
    pub show_restore: bool,
    pub show_new_folder: bool,
    pub new_folder_name: String,
    pub show_rename_folder: bool,
    pub rename_folder_name: String,
    pub show_settings: bool,
    pub show_cancel_confirm: bool,
    pub delete_page_target: Option<u64>,
    pub rename_pdf_target: Option<DocPath>,
    pub rename_pdf_name: String,
    pub move_pdf_targets: Vec<DocPath>,
    pub move_pdf_destination: Option<DocPath>,
    pub move_folder_query: String,
    pub delete_pdf_targets: Vec<DocPath>,
    pub pending_file_operation: Option<PendingFileOperation>,
    pub show_exit_confirm: bool,
    /// Whether the user has agreed to lose what is not saved.
    pub allow_exit: bool,
    pub message: Option<String>,
}

#[verifier::ext_equal]
pub struct DialogsModel {
    pub show_restore: bool,
    pub show_new_folder: bool,
    pub new_folder_name: Seq<char>,
    pub show_rename_folder: bool,
    pub rename_folder_name: Seq<char>,
    pub show_settings: bool,
    pub show_cancel_confirm: bool,
    pub delete_page_target: Option<u64>,
    pub rename_pdf_target: Option<PathModel>,
    pub rename_pdf_name: Seq<char>,
    pub move_pdf_targets: Seq<PathModel>,
    pub move_pdf_destination: Option<PathModel>,
    pub move_folder_query: Seq<char>,
    pub delete_pdf_targets: Seq<PathModel>,
    pub pending_file_operation: Option<PendingFileOperation>,
    pub show_exit_confirm: bool,
    pub allow_exit: bool,
    pub message: Option<Seq<char>>,
}

impl View for Dialogs {
    type V = DialogsModel;

    open spec fn view(&self) -> DialogsModel {
        DialogsModel {
            show_restore: self.show_restore,
            show_new_folder: self.show_new_folder,
            new_folder_name: self.new_folder_name@,
            show_rename_folder: self.show_rename_folder,
            rename_folder_name: self.rename_folder_name@,
            show_settings: self.show_settings,
            show_cancel_confirm: self.show_cancel_confirm,
            delete_page_target: self.delete_page_target,
            rename_pdf_target: optional_path(self.rename_pdf_target),
            rename_pdf_name: self.rename_pdf_name@,
            move_pdf_targets: path_models(self.move_pdf_targets@),
            move_pdf_destination: optional_path(self.move_pdf_destination),
            move_folder_query: self.move_folder_query@,
            delete_pdf_targets: path_models(self.delete_pdf_targets@),
            pending_file_operation: self.pending_file_operation,
            show_exit_confirm: self.show_exit_confirm,
            allow_exit: self.allow_exit,
            message: text_option(self.message),
        }
    }
}

/// An answer of the user.
#[derive(Debug)]
pub enum Answer {
    DiscardSession,
    RestoreSession,
    CancelNewFolder,
    CreateFolder,
    CancelRenameFolder,
    RenameFolder,
    OpenLocation,
    ChangeLocation,
    CloseSettings,
    CancelRenameDocument,
    RenameDocument,
    CancelMove,
    ChooseDestination(DocPath),
    MoveDocuments,
    CancelRecycle,
    RecycleDocuments,
    KeepDocument,
    AbandonDocument,
    KeepPage,
    DeletePage,
    StayInProgram,
    CloseProgram,
    Understood,
}

pub ghost enum AnswerModel {
    DiscardSession,
    RestoreSession,
    CancelNewFolder,
    CreateFolder,
    CancelRenameFolder,
    RenameFolder,
    OpenLocation,
    ChangeLocation,
    CloseSettings,
    CancelRenameDocument,
    RenameDocument,
    CancelMove,
    ChooseDestination(PathModel),
    MoveDocuments,
    CancelRecycle,
    RecycleDocuments,
    KeepDocument,
    AbandonDocument,
    KeepPage,
    DeletePage,
    StayInProgram,
    CloseProgram,
    Understood,
}

impl View for Answer {
    type V = AnswerModel;

    open spec fn view(&self) -> AnswerModel {
        match self {
            Answer::DiscardSession => AnswerModel::DiscardSession,
            Answer::RestoreSession => AnswerModel::RestoreSession,
            Answer::CancelNewFolder => AnswerModel::CancelNewFolder,
            Answer::CreateFolder => AnswerModel::CreateFolder,
            Answer::CancelRenameFolder => AnswerModel::CancelRenameFolder,
            Answer::RenameFolder => AnswerModel::RenameFolder,
            Answer::OpenLocation => AnswerModel::OpenLocation,
            Answer::ChangeLocation => AnswerModel::ChangeLocation,
            Answer::CloseSettings => AnswerModel::CloseSettings,
            Answer::CancelRenameDocument => AnswerModel::CancelRenameDocument,
            Answer::RenameDocument => AnswerModel::RenameDocument,
            Answer::CancelMove => AnswerModel::CancelMove,
            Answer::ChooseDestination(path) => AnswerModel::ChooseDestination(path@),
            Answer::MoveDocuments => AnswerModel::MoveDocuments,
            Answer::CancelRecycle => AnswerModel::CancelRecycle,
            Answer::RecycleDocuments => AnswerModel::RecycleDocuments,
            Answer::KeepDocument => AnswerModel::KeepDocument,
            Answer::AbandonDocument => AnswerModel::AbandonDocument,
            Answer::KeepPage => AnswerModel::KeepPage,
            Answer::DeletePage => AnswerModel::DeletePage,
            Answer::StayInProgram => AnswerModel::StayInProgram,
            Answer::CloseProgram => AnswerModel::CloseProgram,
            Answer::Understood => AnswerModel::Understood,
        }
    }
}

/// What an answer asks for.
#[derive(Debug)]
pub enum Task {
    ClearSession,
    RestoreSession,
    CreateFolder(String),
    RenameFolder(String),
    OpenLocation,
    PickLocation,
    RenameDocument(DocPath, String),
    MoveDocuments(Vec<DocPath>, DocPath),
    RecycleDocuments(Vec<DocPath>),
    AbandonScan,
    DeletePage(u64),
    CloseProgram,
}

pub ghost enum TaskModel {
    ClearSession,
    RestoreSession,
    CreateFolder(Seq<char>),
    RenameFolder(Seq<char>),
    OpenLocation,
    PickLocation,
    RenameDocument(PathModel, Seq<char>),
    MoveDocuments(Seq<PathModel>, PathModel),
    RecycleDocuments(Seq<PathModel>),
    AbandonScan,
    DeletePage(u64),
    CloseProgram,
}

impl View for Task {
    type V = TaskModel;

    open spec fn view(&self) -> TaskModel {
        match self {
            Task::ClearSession => TaskModel::ClearSession,
            Task::RestoreSession => TaskModel::RestoreSession,
            Task::CreateFolder(name) => TaskModel::CreateFolder(name@),
            Task::RenameFolder(name) => TaskModel::RenameFolder(name@),
            Task::OpenLocation => TaskModel::OpenLocation,
            Task::PickLocation => TaskModel::PickLocation,
            Task::RenameDocument(path, name) => TaskModel::RenameDocument(path@, name@),
            Task::MoveDocuments(paths, target) => TaskModel::MoveDocuments(
                path_models(paths@),
                target@,
            ),
            Task::RecycleDocuments(paths) => TaskModel::RecycleDocuments(path_models(paths@)),
            Task::AbandonScan => TaskModel::AbandonScan,
            Task::DeletePage(id) => TaskModel::DeletePage(*id),
            Task::CloseProgram => TaskModel::CloseProgram,
        }
    }
}

pub open spec fn task_option(task: Option<Task>) -> Option<TaskModel> {
    match task {
        None => None,
        Some(task) => Some(task@),
    }
}

impl DialogsModel {
    /// Nothing is asked.
    pub open spec fn closed() -> DialogsModel {
        DialogsModel {
            show_restore: false,
            show_new_folder: false,
            new_folder_name: Seq::empty(),
            show_rename_folder: false,
            rename_folder_name: Seq::empty(),
            show_settings: false,
            show_cancel_confirm: false,
            delete_page_target: None,
            rename_pdf_target: None,
            rename_pdf_name: Seq::empty(),
            move_pdf_targets: Seq::empty(),
            move_pdf_destination: None,
            move_folder_query: Seq::empty(),
            delete_pdf_targets: Seq::empty(),
            pending_file_operation: None,
            show_exit_confirm: false,
            allow_exit: false,
            message: None,
        }
    }

    /// Whether a question stands in the way of everything else.
    pub open spec fn blocks(self) -> bool {
        ||| self.show_restore
        ||| self.show_new_folder
        ||| self.show_rename_folder
        ||| self.show_settings
        ||| self.show_cancel_confirm
        ||| self.delete_page_target is Some
        ||| self.show_exit_confirm
        ||| self.rename_pdf_target is Some
        ||| self.move_pdf_targets.len() > 0
        ||| self.delete_pdf_targets.len() > 0
        ||| self.pending_file_operation is Some
        ||| self.message is Some
    }

    pub open spec fn saying(self, text: Seq<char>) -> DialogsModel {
        DialogsModel { message: Some(text), ..self }
    }

    /// Once a question was put.
    pub open spec fn asked(self, question: QuestionModel) -> DialogsModel {
        match question {
            QuestionModel::NewFolder => DialogsModel {
                new_folder_name: Seq::empty(),
                show_new_folder: true,
                ..self
            },
            QuestionModel::RenameFolder(name) => DialogsModel {
                rename_folder_name: name,
                show_rename_folder: true,
                ..self
            },
            QuestionModel::RenameDocument(path, name) => DialogsModel {
                rename_pdf_target: Some(path),
                rename_pdf_name: name,
                ..self
            },
            QuestionModel::MoveDocuments(paths) => DialogsModel {
                move_pdf_targets: paths,
                move_pdf_destination: None,
                move_folder_query: Seq::empty(),
                ..self
            },
            QuestionModel::RecycleDocuments(paths) => DialogsModel {
                delete_pdf_targets: paths,
                ..self
            },
            QuestionModel::Settings => DialogsModel { show_settings: true, ..self },
        }
    }

    /// Once nothing is to be moved any more.
    pub open spec fn move_closed(self) -> DialogsModel {
        DialogsModel {
            move_pdf_targets: Seq::empty(),
            move_pdf_destination: None,
            move_folder_query: Seq::empty(),
            ..self
        }
    }

    /// What an answer leads to. `busy` says whether a document is being worked on, and
    /// `folder_open` whether a folder is open.
    pub open spec fn answered(self, answer: AnswerModel, busy: bool, folder_open: bool) -> (
        DialogsModel,
        Option<TaskModel>,
    ) {
        match answer {
            AnswerModel::DiscardSession => (
                DialogsModel { show_restore: false, ..self },
                Some(TaskModel::ClearSession),
            ),
            AnswerModel::RestoreSession => (
                DialogsModel { show_restore: false, ..self },
                Some(TaskModel::RestoreSession),
            ),
            AnswerModel::CancelNewFolder => (DialogsModel { show_new_folder: false, ..self }, None),
            AnswerModel::CreateFolder => (
                self,
                Some(TaskModel::CreateFolder(self.new_folder_name)),
            ),
            AnswerModel::CancelRenameFolder => (
                DialogsModel { show_rename_folder: false, ..self },
                None,
            ),
            AnswerModel::RenameFolder => (
                self,
                if folder_open {
                    Some(TaskModel::RenameFolder(self.rename_folder_name))
                } else {
                    None
                },
            ),
            AnswerModel::OpenLocation => (self, Some(TaskModel::OpenLocation)),
            AnswerModel::ChangeLocation => if busy {
                (
                    (DialogsModel { show_settings: false, ..self }).saying(
                        "Najpierw zapisz albo anuluj bieżący dokument."@,
                    ),
                    None,
                )
            } else {
                (self, Some(TaskModel::PickLocation))
            },
            AnswerModel::CloseSettings => (DialogsModel { show_settings: false, ..self }, None),
            AnswerModel::CancelRenameDocument => (
                DialogsModel { rename_pdf_target: None, ..self },
                None,
            ),
            AnswerModel::RenameDocument => (
                self,
                match self.rename_pdf_target {
                    Some(path) => Some(TaskModel::RenameDocument(path, self.rename_pdf_name)),
                    None => None,
                },
            ),
            AnswerModel::CancelMove => (self.move_closed(), None),
            AnswerModel::ChooseDestination(path) => (
                DialogsModel { move_pdf_destination: Some(path), ..self },
                None,
            ),
            AnswerModel::MoveDocuments => match self.move_pdf_destination {
                Some(target) => (
                    self.move_closed(),
                    Some(TaskModel::MoveDocuments(self.move_pdf_targets, target)),
                ),
                None => (self, None),
            },
            AnswerModel::CancelRecycle => (
                DialogsModel { delete_pdf_targets: Seq::empty(), ..self },
                None,
            ),
            AnswerModel::RecycleDocuments => (
                DialogsModel { delete_pdf_targets: Seq::empty(), ..self },
                Some(TaskModel::RecycleDocuments(self.delete_pdf_targets)),
            ),
            AnswerModel::KeepDocument => (DialogsModel { show_cancel_confirm: false, ..self }, None),
            AnswerModel::AbandonDocument => (
                DialogsModel { show_cancel_confirm: false, ..self },
                Some(TaskModel::AbandonScan),
            ),
            AnswerModel::KeepPage => (DialogsModel { delete_page_target: None, ..self }, None),
            AnswerModel::DeletePage => (
                DialogsModel { delete_page_target: None, ..self },
                match self.delete_page_target {
                    Some(id) => Some(TaskModel::DeletePage(id)),
                    None => None,
                },
            ),
            AnswerModel::StayInProgram => (DialogsModel { show_exit_confirm: false, ..self }, None),
            AnswerModel::CloseProgram => (
                DialogsModel { show_exit_confirm: false, allow_exit: true, ..self },
                Some(TaskModel::CloseProgram),
            ),
            AnswerModel::Understood => (DialogsModel { message: None, ..self }, None),
        }
    }
}

fn empty_text() -> (r: String)
    ensures
        r@ == Seq::<char>::empty(),
{
    let nothing: String = String::new();
    assert(nothing@ =~= Seq::<char>::empty());
    nothing
}

fn no_paths() -> (r: Vec<DocPath>)
    ensures
        path_models(r@) == Seq::<PathModel>::empty(),
{
    let nothing: Vec<DocPath> = Vec::new();
    assert(path_models(nothing@) =~= Seq::<PathModel>::empty());
    nothing
}

impl Default for Dialogs {
    fn default() -> (r: Dialogs)
        ensures
            r@ == DialogsModel::closed(),
    {
        Dialogs {
            show_restore: false,
            show_new_folder: false,
            new_folder_name: empty_text(),
            show_rename_folder: false,
            rename_folder_name: empty_text(),
            show_settings: false,
            show_cancel_confirm: false,
            delete_page_target: None,
            rename_pdf_target: None,
            rename_pdf_name: empty_text(),
            move_pdf_targets: no_paths(),
            move_pdf_destination: None,
            move_folder_query: empty_text(),
            delete_pdf_targets: no_paths(),
            pending_file_operation: None,
            show_exit_confirm: false,
            allow_exit: false,
            message: None,
        }
    }
}

impl Dialogs {
    pub fn has_blocking_dialog(&self) -> (r: bool)
        ensures
            r == self@.blocks(),
    {
        assert(self@.move_pdf_targets.len() == self.move_pdf_targets.len());
        assert(self@.delete_pdf_targets.len() == self.delete_pdf_targets.len());
        self.show_restore || self.show_new_folder || self.show_rename_folder || self.show_settings
            || self.show_cancel_confirm || self.delete_page_target.is_some()
            || self.show_exit_confirm || self.rename_pdf_target.is_some()
            || self.move_pdf_targets.len() > 0 || self.delete_pdf_targets.len() > 0
            || self.pending_file_operation.is_some() || self.message.is_some()
    }

    /// Shows a message that the user has to confirm.
    pub fn say(&mut self, text: String)
        ensures
            final(self)@ == old(self)@.saying(text@),
    {
        self.message = Some(text);
    }

    /// Puts a question.
    pub fn ask(&mut self, question: Question)
        ensures
            final(self)@ == old(self)@.asked(question@),
    {
        match question {
            Question::NewFolder => {
                self.new_folder_name = empty_text();
                self.show_new_folder = true;
            },
            Question::RenameFolder(name) => {
                self.rename_folder_name = name;
                self.show_rename_folder = true;
            },
            Question::RenameDocument(path, name) => {
                self.rename_pdf_target = Some(path);
                self.rename_pdf_name = name;
            },
            Question::MoveDocuments(paths) => {
                self.move_pdf_targets = paths;
                self.move_pdf_destination = None;
                self.move_folder_query = empty_text();
            },
            Question::RecycleDocuments(paths) => {
                self.delete_pdf_targets = paths;
            },
            Question::Settings => {
                self.show_settings = true;
            },
        }
    }

    fn close_move(&mut self) -> (r: Vec<DocPath>)
        ensures
            final(self)@ == old(self)@.move_closed(),
            path_models(r@) == old(self)@.move_pdf_targets,
    {
        let mut targets: Vec<DocPath> = no_paths();
        std::mem::swap(&mut self.move_pdf_targets, &mut targets);
        self.move_pdf_destination = None;
        self.move_folder_query = empty_text();
        targets
    }

    /// Takes an answer and says what it asks for. `busy` says whether a document is being
    /// worked on, and `folder_open` whether a folder is open.
    pub fn answer(&mut self, answer: Answer, busy: bool, folder_open: bool) -> (r: Option<Task>)
        ensures
            (final(self)@, task_option(r)) == old(self)@.answered(answer@, busy, folder_open),
    {
        match answer {
            Answer::DiscardSession => {
                self.show_restore = false;
                Some(Task::ClearSession)
            },
            Answer::RestoreSession => {
                self.show_restore = false;
                Some(Task::RestoreSession)
            },
            Answer::CancelNewFolder => {
                self.show_new_folder = false;
                None
            },
            Answer::CreateFolder => Some(Task::CreateFolder(self.new_folder_name.clone())),
            Answer::CancelRenameFolder => {
                self.show_rename_folder = false;
                None
            },
            Answer::RenameFolder => {
                if folder_open {
                    Some(Task::RenameFolder(self.rename_folder_name.clone()))
                } else {
                    None
                }
            },
            Answer::OpenLocation => Some(Task::OpenLocation),
            Answer::ChangeLocation => {
                if busy {
                    self.show_settings = false;
                    self.message = Some(
                        "Najpierw zapisz albo anuluj bieżący dokument.".to_owned(),
                    );
                    None
                } else {
                    Some(Task::PickLocation)
                }
            },
            Answer::CloseSettings => {
                self.show_settings = false;
                None
            },
            Answer::CancelRenameDocument => {
                self.rename_pdf_target = None;
                None
            },
            Answer::RenameDocument => match &self.rename_pdf_target {
                Some(path) => Some(Task::RenameDocument(path.copy(), self.rename_pdf_name.clone())),
                None => None,
            },
            Answer::CancelMove => {
                self.close_move();
                None
            },
            Answer::ChooseDestination(path) => {
                self.move_pdf_destination = Some(path);
                None
            },
            Answer::MoveDocuments => {
                let target: Option<DocPath> = match &self.move_pdf_destination {
                    Some(path) => Some(path.copy()),
                    None => None,
                };
                match target {
                    Some(target) => {
                        let sources: Vec<DocPath> = self.close_move();
                        Some(Task::MoveDocuments(sources, target))
                    },
                    None => None,
                }
            },
            Answer::CancelRecycle => {
                self.delete_pdf_targets = no_paths();
                None
            },
            Answer::RecycleDocuments => {
                let mut targets: Vec<DocPath> = no_paths();
                std::mem::swap(&mut self.delete_pdf_targets, &mut targets);
                Some(Task::RecycleDocuments(targets))
            },
            Answer::KeepDocument => {
                self.show_cancel_confirm = false;
                None
            },
            Answer::AbandonDocument => {
                self.show_cancel_confirm = false;
                Some(Task::AbandonScan)
            },
            Answer::KeepPage => {
                self.delete_page_target = None;
                None
            },
            Answer::DeletePage => {
                let target: Option<u64> = self.delete_page_target;
                self.delete_page_target = None;
                match target {
                    Some(id) => Some(Task::DeletePage(id)),
                    None => None,
                }
            },
            Answer::StayInProgram => {
                self.show_exit_confirm = false;
                None
            },
            Answer::CloseProgram => {
                self.allow_exit = true;
                self.show_exit_confirm = false;
                Some(Task::CloseProgram)
            },
            Answer::Understood => {
                self.message = None;
                None
            },
        }
    }

    /// Background work on files was asked for: it has begun, or it is said why it has not.
    pub fn operation_requested(
        &mut self,
        operation: PendingFileOperation,
        accepted: Result<(), String>,
    )
        ensures
            final(self)@ == match accepted {
                Ok(_) => DialogsModel { pending_file_operation: Some(operation), ..old(self)@ },
                Err(error) => old(self)@.saying(error@),
            },
    {
        match accepted {
            Ok(_) => {
                self.pending_file_operation = Some(operation);
            },
            Err(error) => {
                self.message = Some(error);
            },
        }
    }

    /// Background work on files has ended, with a message where it broke down.
    pub fn operation_ended(&mut self, broken: Option<String>)
        ensures
            final(self)@ == match broken {
                None => DialogsModel { pending_file_operation: None, ..old(self)@ },
                Some(error) => (DialogsModel {
                    pending_file_operation: None,
                    ..old(self)@
                }).saying(error@),
            },
    {
        self.pending_file_operation = None;
        if let Some(error) = broken {
            self.message = Some(error);
        }
    }

    /// The window is to be closed. Says whether that has to wait: what is not saved is lost
    /// only once the user has agreed.
    pub fn close_requested(
        &mut self,
        slots_empty: bool,
        editing_pdf: bool,
        edit_dirty: bool,
    ) -> (r: bool)
        ensures
            r == (!leaves_freely(slots_empty, editing_pdf, edit_dirty) && !old(self)@.allow_exit),
            final(self)@ == if r {
                DialogsModel { show_exit_confirm: true, ..old(self)@ }
            } else {
                old(self)@
            },
    {
        let unsaved: bool = !can_leave_scan_without_confirmation(
            slots_empty,
            editing_pdf,
            edit_dirty,
        );
        if unsaved && !self.allow_exit {
            self.show_exit_confirm = true;
            true
        } else {
            false
        }
    }

    /// The scan is to be given up. Says whether that can be done at once; else the user is
    /// asked first.
    pub fn request_cancel_scan(
        &mut self,
        slots_empty: bool,
        editing_pdf: bool,
        edit_dirty: bool,
    ) -> (r: bool)
        ensures
            r == leaves_freely(slots_empty, editing_pdf, edit_dirty),
            final(self)@ == if r {
                old(self)@
            } else {
                DialogsModel { show_cancel_confirm: true, ..old(self)@ }
            },
    {
        if can_leave_scan_without_confirmation(slots_empty, editing_pdf, edit_dirty) {
            true
        } else {
            self.show_cancel_confirm = true;
            false
        }
    }
}

/// Whether a document can be left without losing anything: it has no pages, or it is a PDF
/// that was not changed.
pub open spec fn leaves_freely(slots_empty: bool, editing_pdf: bool, edit_dirty: bool) -> bool {
    slots_empty || (editing_pdf && !edit_dirty)
}

pub fn can_leave_scan_without_confirmation(
    slots_empty: bool,
    editing_pdf: bool,
    edit_dirty: bool,
) -> (r: bool)
    ensures
        r == leaves_freely(slots_empty, editing_pdf, edit_dirty),
{
    slots_empty || (editing_pdf && !edit_dirty)
}

/// Whether a document is being worked on, so that the library must stay where it is.
pub fn has_active_workflow_state(
    screen: Screen,
    pipeline_active: bool,
    has_pages: bool,
    has_pending_jobs: bool,
    editing_pdf: bool,
) -> (r: bool)
    ensures
        r == (screen == Screen::ScanHub || pipeline_active || has_pages || has_pending_jobs
            || editing_pdf),
{
    screen == Screen::ScanHub || pipeline_active || has_pages || has_pending_jobs || editing_pdf
}

/// A folder was asked for: where it was made it is opened, else it is said why not.
pub fn settle_new_folder(
    workspace: &mut Workspace,
    dialogs: &mut Dialogs,
    made: Result<FolderInfo, String>,
) -> (r: bool)
    requires
        old(workspace).wf(),
    ensures
        final(workspace).wf(),
        final(workspace).rest_as(*old(workspace)),
        match made {
            Ok(folder) => {
                &&& is_created(old(workspace).model(), folder@, final(workspace).model())
                &&& final(dialogs)@ == (DialogsModel { show_new_folder: false, ..old(dialogs)@ })
                &&& r == (folder@.path != old(workspace).model().root)
            },
            Err(error) => {
                &&& final(workspace).model() == old(workspace).model()
                &&& final(dialogs)@ == old(dialogs)@.saying(error@)
                &&& !r
            },
        },
{
    match made {
        Ok(folder) => {
            dialogs.show_new_folder = false;
            workspace.folder_created(folder)
        },
        Err(error) => {
            dialogs.message = Some(error);
            false
        },
    }
}

/// Whether a workspace is another one in which a folder was made and opened.
pub open spec fn is_created(
    before: WorkspaceModel,
    folder: FolderModel,
    after: WorkspaceModel,
) -> bool {
    &&& is_folder_listing(
        folders_except(before.folders, folder.path).push(folder),
        after.folders,
    )
    &&& after == (WorkspaceModel {
        folders: after.folders,
        revision: next_revision(before.revision),
        ..before
    }).opened(folder)
}

/// The open folder was to get another name: where it has, everything goes along, else it is
/// said why not. Says whether it has.
pub fn settle_renamed_folder(
    workspace: &mut Workspace,
    dialogs: &mut Dialogs,
    previous: &DocPath,
    renamed: Result<FolderInfo, String>,
) -> (r: bool)
    requires
        old(workspace).wf(),
    ensures
        final(workspace).wf(),
        final(workspace).rest_as(*old(workspace)),
        r == renamed is Ok,
        match renamed {
            Ok(folder) => {
                &&& final(workspace).model() == old(workspace).model().folder_renamed(
                    old(workspace).view.selected.listed(),
                    previous@,
                    folder@,
                )
                &&& final(dialogs)@ == (DialogsModel {
                    show_rename_folder: false,
                    ..old(dialogs)@
                })
            },
            Err(error) => {
                &&& final(workspace).model() == old(workspace).model()
                &&& final(dialogs)@ == old(dialogs)@.saying(error@)
            },
        },
{
    match renamed {
        Ok(folder) => {
            workspace.folder_renamed(previous, folder);
            dialogs.show_rename_folder = false;
            true
        },
        Err(error) => {
            dialogs.message = Some(error);
            false
        },
    }
}

/// A place was picked for the library: it is taken where it could be made ready, else it is
/// said why not. Says whether it was taken.
pub fn settle_location(
    workspace: &mut Workspace,
    dialogs: &mut Dialogs,
    picked: DocPath,
    ready: Result<(), String>,
) -> (r: bool)
    requires
        old(workspace).wf(),
    ensures
        final(workspace).wf(),
        final(workspace).rest_as(*old(workspace)),
        r == ready is Ok,
        match ready {
            Ok(_) => {
                &&& final(workspace).model() == old(workspace).model().relocated(picked@)
                &&& final(dialogs)@ == old(dialogs)@
            },
            Err(error) => {
                &&& final(workspace).model() == old(workspace).model()
                &&& final(dialogs)@ == old(dialogs)@.saying(error@)
            },
        },
{
    match ready {
        Ok(_) => {
            workspace.relocate(picked);
            true
        },
        Err(error) => {
            dialogs.message = Some(error);
            false
        },
    }
}

/// A line of a question, and whether it warns.
#[derive(Debug)]
pub struct Line {
    pub text: String,
    pub warns: bool,
}

pub open spec fn line_models(lines: Seq<Line>) -> Seq<(Seq<char>, bool)> {
    lines.map_values(|line: Line| (line.text@, line.warns))
}

fn push_line(lines: &mut Vec<Line>, text: String, warns: bool)
    ensures
        line_models(final(lines)@) == line_models(old(lines)@).push((text@, warns)),
{
    let ghost said = text@;
    lines.push(Line { text, warns });
    assert(line_models(lines@) =~= line_models(old(lines)@).push((said, warns)));
}

/// What is said of a session that was found again.
pub open spec fn restore_words(
    pages: nat,
    skipped: nat,
    folder: Seq<char>,
    folder_exists: bool,
) -> Seq<(Seq<char>, bool)> {
    let found = seq![
        ("Znaleziono niezapisaną sesję ("@ + page_count_words(pages + skipped) + ")."@, false),
    ];
    let place = if folder.len() > 0 {
        found.push(("Folder: "@ + folder, false))
    } else {
        found
    };
    let lost = if skipped > 0 {
        place.push(
            (
                decimal(skipped)
                    + " stron nie ma już obrazu ani oryginału. Pozostałe można odzyskać."@,
                true,
            ),
        )
    } else {
        place
    };
    if folder_exists {
        lost
    } else {
        lost.push(
            (
                "Pierwotny folder nie jest dostępny — strony trafią do głównej lokalizacji biblioteki."@,
                true,
            ),
        )
    }
}

pub fn restore_lines(
    pages: usize,
    skipped: usize,
    folder: &str,
    folder_exists: bool,
) -> (r: Vec<Line>)
    requires
        pages + skipped <= usize::MAX,
    ensures
        line_models(r@) == restore_words(pages as nat, skipped as nat, folder@, folder_exists),
{
    let mut lines: Vec<Line> = Vec::new();
    let mut found: String = "Znaleziono niezapisaną sesję (".to_owned();
    found.append(polish_page_count(pages + skipped).as_str());
    found.append(").");
    push_line(&mut lines, found, false);
    assert(line_models(lines@) =~= seq![
        (
            "Znaleziono niezapisaną sesję ("@ + page_count_words((pages + skipped) as nat) + ")."@,
            false,
        ),
    ]);
    if folder.unicode_len() > 0 {
        push_line(&mut lines, joined("Folder: ", folder), false);
    }
    if skipped > 0 {
        push_line(
            &mut lines,
            joined(
                decimal_text(skipped as u64).as_str(),
                " stron nie ma już obrazu ani oryginału. Pozostałe można odzyskać.",
            ),
            true,
        );
    }
    if !folder_exists {
        push_line(
            &mut lines,
            "Pierwotny folder nie jest dostępny — strony trafią do głównej lokalizacji biblioteki.".to_owned(),
            true,
        );
    }
    lines
}

/// Where the pages of a session that was found again go: to their folder, or to the library's
/// own location where the folder is gone.
pub fn restore_target(folder: &DocPath, folder_exists: bool, library_root: &DocPath) -> (r: DocPath)
    ensures
        r@ == if folder_exists {
            folder@
        } else {
            library_root@
        },
{
    if folder_exists {
        folder.copy()
    } else {
        library_root.copy()
    }
}

/// The words of the question whether to give up a document.
#[derive(Debug)]
pub struct CancelWords {
    pub title: String,
    pub detail: String,
    pub keep: String,
    pub give_up: String,
}

pub fn cancel_words(editing_pdf: bool, pages: usize) -> (r: CancelWords)
    ensures
        editing_pdf ==> {
            &&& r.title@ == "Anulować edycję?"@
            &&& r.detail@ == "Niezapisane zmiany w dokumencie zostaną utracone."@
            &&& r.keep@ == "Wróć do edycji"@
            &&& r.give_up@ == "Anuluj edycję"@
        },
        !editing_pdf ==> {
            &&& r.title@ == "Anulować dokument?"@
            &&& r.detail@ == "Zeskanowane strony ("@ + decimal(pages as nat)
                + ") zostaną utracone."@
            &&& r.keep@ == "Wróć do skanowania"@
            &&& r.give_up@ == "Anuluj dokument"@
        },
{
    if editing_pdf {
        CancelWords {
            title: "Anulować edycję?".to_owned(),
            detail: "Niezapisane zmiany w dokumencie zostaną utracone.".to_owned(),
            keep: "Wróć do edycji".to_owned(),
            give_up: "Anuluj edycję".to_owned(),
        }
    } else {
        let mut detail: String = "Zeskanowane strony (".to_owned();
        detail.append(decimal_text(pages as u64).as_str());
        detail.append(") zostaną utracone.");
        CancelWords {
            title: "Anulować dokument?".to_owned(),
            detail,
            keep: "Wróć do skanowania".to_owned(),
            give_up: "Anuluj dokument".to_owned(),
        }
    }
}

/// What is asked before a page is deleted, given its place in the document.
pub fn delete_page_text(place: Option<usize>) -> (r: String)
    requires
        place matches Some(index) ==> index < usize::MAX,
    ensures
        r@ == match place {
            Some(index) => "Usunąć stronę "@ + decimal((index + 1) as nat) + "?"@,
            None => "Ta strona już nie istnieje."@,
        },
{
    match place {
        Some(index) => {
            let mut text: String = "Usunąć stronę ".to_owned();
            text.append(decimal_text(index as u64 + 1).as_str());
            text.append("?");
            text
        },
        None => "Ta strona już nie istnieje.".to_owned(),
    }
}

/// What is said while files are worked on: a title and a detail.
pub fn operation_words(operation: PendingFileOperation) -> (r: (String, String))
    ensures
        match operation {
            PendingFileOperation::Move => {
                &&& r.0@ == "Przenoszenie dokumentów…"@
                &&& r.1@ == "Zachowywanie obu plików przy zbieżnych nazwach."@
            },
            PendingFileOperation::Recycle => {
                &&& r.0@ == "Przenoszenie do Kosza…"@
                &&& r.1@ == "Pliki pozostaną możliwe do odzyskania."@
            },
        },
{
    match operation {
        PendingFileOperation::Move => (
            "Przenoszenie dokumentów…".to_owned(),
            "Zachowywanie obu plików przy zbieżnych nazwach.".to_owned(),
        ),
        PendingFileOperation::Recycle => (
            "Przenoszenie do Kosza…".to_owned(),
            "Pliki pozostaną możliwe do odzyskania.".to_owned(),
        ),
    }
}

/// How long a message that goes away is shown, in milliseconds: longer where it offers a
/// document.
pub fn toast_lifetime_ms(offers_document: bool) -> (r: u64)
    ensures
        r == if offers_document {
            8_000u64
        } else {
            4_000u64
        },
{
    if offers_document {
        8_000
    } else {
        4_000
    }
}

/// Whether all documents are in a folder already.
pub open spec fn all_inside(targets: Seq<PathModel>, folder: PathModel) -> bool {
    forall|i: int| 0 <= i < targets.len() ==> (#[trigger] targets[i]).parent() == Some(folder)
}

fn are_all_inside(targets: &Vec<DocPath>, folder: &DocPath) -> (r: bool)
    ensures
        r == all_inside(path_models(targets@), folder@),
{
    let ghost models = path_models(targets@);
    let mut i: usize = 0;
    while i < targets.len()
        invariant
            i <= targets.len(),
            models == path_models(targets@),
            forall|k: int| 0 <= k < i ==> (#[trigger] models[k]).parent() == Some(folder@),
        decreases targets.len() - i,
    {
        assert(models[i as int] == targets[i as int]@);
        let inside: bool = match targets[i].parent() {
            Some(parent) => parent.same(folder),
            None => false,
        };
        if !inside {
            return false;
        }
        i = i + 1;
    }
    true
}

/// A folder that documents can be moved to.
#[derive(Debug)]
pub struct DestinationRow {
    pub path: DocPath,
    pub label: String,
    /// Whether it can be chosen: not all the documents are there already.
    pub enabled: bool,
    pub chosen: bool,
}

#[verifier::ext_equal]
pub struct DestinationModel {
    pub path: PathModel,
    pub label: Seq<char>,
    pub enabled: bool,
    pub chosen: bool,
}

impl View for DestinationRow {
    type V = DestinationModel;

    open spec fn view(&self) -> DestinationModel {
        DestinationModel {
            path: self.path@,
            label: self.label@,
            enabled: self.enabled,
            chosen: self.chosen,
        }
    }
}

pub open spec fn destination_models(rows: Seq<DestinationRow>) -> Seq<DestinationModel> {
    rows.map_values(|row: DestinationRow| row@)
}

/// How a folder is offered.
pub open spec fn destination(
    folder: FolderModel,
    targets: Seq<PathModel>,
    chosen: Option<PathModel>,
) -> DestinationModel {
    DestinationModel {
        path: folder.path,
        label: folder.name + "  ("@ + decimal(folder.pdf_count as nat) + " PDF)"@,
        enabled: !all_inside(targets, folder.path),
        chosen: chosen == Some(folder.path),
    }
}

/// The folders offered among the first `n`: those that a query finds.
pub open spec fn destinations(
    folders: Seq<FolderModel>,
    query: Seq<char>,
    targets: Seq<PathModel>,
    chosen: Option<PathModel>,
    n: nat,
) -> Seq<DestinationModel>
    decreases n,
{
    if n == 0 {
        Seq::empty()
    } else {
        let before = destinations(folders, query, targets, chosen, (n - 1) as nat);
        if folder_found(folders[n - 1].name, query) {
            before.push(destination(folders[n - 1], targets, chosen))
        } else {
            before
        }
    }
}

/// Lists the folders to which the documents asked about can be moved.
pub fn move_destinations(dialogs: &Dialogs, folders: &Vec<FolderInfo>) -> (r: Vec<DestinationRow>)
    ensures
        destination_models(r@) == destinations(
            folder_models(folders@),
            dialogs@.move_folder_query,
            dialogs@.move_pdf_targets,
            dialogs@.move_pdf_destination,
            folders@.len(),
        ),
{
    let ghost models = folder_models(folders@);
    let mut rows: Vec<DestinationRow> = Vec::new();
    let mut i: usize = 0;
    assert(destination_models(rows@) =~= Seq::<DestinationModel>::empty());
    while i < folders.len()
        invariant
            i <= folders.len(),
            models == folder_models(folders@),
            destination_models(rows@) == destinations(
                models,
                dialogs@.move_folder_query,
                dialogs@.move_pdf_targets,
                dialogs@.move_pdf_destination,
                i as nat,
            ),
        decreases folders.len() - i,
    {
        let folder: &FolderInfo = &folders[i];
        assert(models[i as int] == folder@);
        if folder_matches(folder.name.as_str(), dialogs.move_folder_query.as_str()) {
            let mut label: String = folder.name.clone();
            label.append("  (");
            label.append(decimal_text(folder.pdf_count as u64).as_str());
            label.append(" PDF)");
            let chosen: bool = match &dialogs.move_pdf_destination {
                Some(path) => path.same(&folder.path),
                None => false,
            };
            let row: DestinationRow = DestinationRow {
                path: folder.path.copy(),
                label,
                enabled: !are_all_inside(&dialogs.move_pdf_targets, &folder.path),
                chosen,
            };
            let ghost before = rows@;
            rows.push(row);
            assert(destination_models(rows@) =~= destination_models(before).push(row@));
        }
        i = i + 1;
    }
    rows
}

/// While a question stands open, it blocks everything else.
pub proof fn law_questions_block(dialogs: DialogsModel, question: QuestionModel)
    requires
        question matches QuestionModel::MoveDocuments(paths) ==> paths.len() > 0,
        question matches QuestionModel::RecycleDocuments(paths) ==> paths.len() > 0,
    ensures
        dialogs.asked(question).blocks(),
{
}

/// The documents that are moved are those asked about, and they go where the user chose.
pub proof fn law_chosen_documents_are_moved(
    dialogs: DialogsModel,
    paths: Seq<PathModel>,
    target: PathModel,
    busy: bool,
    folder_open: bool,
)
    ensures
        ({
            let asked = dialogs.asked(QuestionModel::MoveDocuments(paths));
            let chosen = asked.answered(
                AnswerModel::ChooseDestination(target),
                busy,
                folder_open,
            ).0;
            let (after, task) = chosen.answered(AnswerModel::MoveDocuments, busy, folder_open);
            &&& task == Some(TaskModel::MoveDocuments(paths, target))
            &&& after.move_pdf_targets.len() == 0
        }),
{
}

/// The documents that go to the bin are those asked about.
pub proof fn law_asked_documents_are_recycled(
    dialogs: DialogsModel,
    paths: Seq<PathModel>,
    busy: bool,
    folder_open: bool,
)
    ensures
        dialogs.asked(QuestionModel::RecycleDocuments(paths)).answered(
            AnswerModel::RecycleDocuments,
            busy,
            folder_open,
        ).1 == Some(TaskModel::RecycleDocuments(paths)),
{
}

/// Documents, pages and sessions are given up only where the user says so.
pub proof fn law_nothing_is_given_up_unasked(
    dialogs: DialogsModel,
    answer: AnswerModel,
    busy: bool,
    folder_open: bool,
)
    ensures
        ({
            let task = dialogs.answered(answer, busy, folder_open).1;
            &&& task == Some(TaskModel::AbandonScan) ==> answer == AnswerModel::AbandonDocument
            &&& task == Some(TaskModel::ClearSession) ==> answer == AnswerModel::DiscardSession
            &&& task == Some(TaskModel::CloseProgram) ==> answer == AnswerModel::CloseProgram
            &&& (task matches Some(TaskModel::DeletePage(id)) ==> answer == AnswerModel::DeletePage
                && dialogs.delete_page_target == Some(id))
            &&& (task matches Some(TaskModel::RecycleDocuments(_)) ==> answer
                == AnswerModel::RecycleDocuments)
        }),
{
}

} // verus!
