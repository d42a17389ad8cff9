//! The scan in progress as it is kept on disk, so that a crash loses nothing.
//!
//! The functions here decide which files are written, in what order, and what is made
//! of the files that are found; the caller reads and writes them.

use std::collections::BTreeMap;
use vstd::prelude::*;
use crate::document::{optional_bytes, CropCorners, EncodedPage, PageEncoding, PageModel};
use crate::paths::{DocPath, PathModel};
use crate::session_names::{
    file_name, law_file_name_is_read_back, law_manifest_is_no_page_file, manifest_name,
    page_file_name, parse_session_file_name, parsed_name, PageFile, SessionFileKind,
};

verus! {

broadcast use vstd::laws_cmp::group_laws_cmp;

/// Which pages a session has, in order, and the revision of the files of each.
#[derive(Debug)]
pub struct Manifest {
    pub folder_path: DocPath,
    pub started_at: u64,
    pub page_ids: Vec<u64>,
    pub page_revisions: BTreeMap<u64, u64>,
}

#[verifier::ext_equal]
pub struct ManifestModel {
    pub folder_path: PathModel,
    pub started_at: u64,
    pub page_ids: Seq<u64>,
    pub page_revisions: Map<u64, u64>,
}

impl View for Manifest {
    type V = ManifestModel;

    open spec fn view(&self) -> ManifestModel {
        ManifestModel {
            folder_path: self.folder_path@,
            started_at: self.started_at,
            page_ids: self.page_ids@,
            page_revisions: self.page_revisions@,
        }
    }
}

impl ManifestModel {
    /// The revision of the files of a page; pages of old sessions have none.
    pub open spec fn revision(self, id: u64) -> Option<u64> {
        if self.page_revisions.contains_key(id) {
            Some(self.page_revisions[id])
        } else {
            None
        }
    }

    /// The revision under which a page is written next.
    pub open spec fn next_revision(self, id: u64) -> int {
        match self.revision(id) {
            Some(revision) => revision + 1,
            None => 1,
        }
    }
}

/// What is kept of a page beside its bytes. Format 0 kept the page already turned, so
/// its turns are not applied again. Format 1 keeps it unturned. Format 2 adds the
/// encoding and the size, without which a Group 4 stream cannot be decoded.
#[derive(Debug, Clone, Copy, PartialEq, Eq, Structural)]
pub struct PageMetadata {
    pub corners: CropCorners,
    pub quarter_turns: u8,
    pub format: u8,
    pub encoding: PageEncoding,
    pub width: u32,
    pub height: u32,
}

pub const PAGE_METADATA_FORMAT: u8 = 2;

/// What the files of a page hold, as far as they could be read.
#[derive(Debug)]
pub struct PageFiles {
    pub jpeg: Option<Vec<u8>>,
    pub g4: Option<Vec<u8>>,
    pub original: Option<Vec<u8>>,
    pub metadata: Option<PageMetadata>,
}

#[verifier::ext_equal]
pub struct FilesModel {
    pub jpeg: Option<Seq<u8>>,
    pub g4: Option<Seq<u8>>,
    pub original: Option<Seq<u8>>,
    pub metadata: Option<PageMetadata>,
}

pub open spec fn optional_page(page: Option<EncodedPage>) -> Option<PageModel> {
    match page {
        None => None,
        Some(page) => Some(page@),
    }
}

impl View for PageFiles {
    type V = FilesModel;

    open spec fn view(&self) -> FilesModel {
        FilesModel {
            jpeg: optional_bytes(self.jpeg),
            g4: optional_bytes(self.g4),
            original: optional_bytes(self.original),
            metadata: self.metadata,
        }
    }
}

/// A page found again after a crash. Its size is zero by zero where an old session
/// did not record it.
#[derive(Debug)]
pub struct RecoveredPage {
    pub id: u64,
    pub page: Option<EncodedPage>,
    pub original_jpeg: Option<Vec<u8>>,
    pub corners: Option<CropCorners>,
    pub quarter_turns: u8,
}

#[verifier::ext_equal]
pub struct RecoveredModel {
    pub id: u64,
    pub page: Option<PageModel>,
    pub original_jpeg: Option<Seq<u8>>,
    pub corners: Option<CropCorners>,
    pub quarter_turns: u8,
}

impl View for RecoveredPage {
    type V = RecoveredModel;

    open spec fn view(&self) -> RecoveredModel {
        RecoveredModel {
            id: self.id,
            page: optional_page(self.page),
            original_jpeg: optional_bytes(self.original_jpeg),
            corners: self.corners,
            quarter_turns: self.quarter_turns,
        }
    }
}

/// A session found again. `highest_page_id` counts pages whose files were lost too:
/// new pages are numbered above it, so that no number is used twice.
#[derive(Debug)]
pub struct RecoveredSession {
    pub folder_path: DocPath,
    pub pages: Vec<RecoveredPage>,
    pub skipped_pages: usize,
    pub highest_page_id: u64,
}

#[verifier::ext_equal]
pub struct SessionModel {
    pub folder_path: PathModel,
    pub pages: Seq<RecoveredModel>,
    pub skipped_pages: nat,
    pub highest_page_id: u64,
}

pub open spec fn recovered_models(pages: Seq<RecoveredPage>) -> Seq<RecoveredModel> {
    pages.map_values(|page: RecoveredPage| page@)
}

impl View for RecoveredSession {
    type V = SessionModel;

    open spec fn view(&self) -> SessionModel {
        SessionModel {
            folder_path: self.folder_path@,
            pages: recovered_models(self.pages@),
            skipped_pages: self.skipped_pages as nat,
            highest_page_id: self.highest_page_id,
        }
    }
}

/// The page that files hold: the JPEG where there is one, else the Group 4 stream where
/// its size is known.
pub open spec fn encoded_in(files: FilesModel) -> Option<PageModel> {
    let modern = files.metadata is Some && files.metadata->Some_0.format >= 2;
    let metadata = files.metadata->Some_0;
    match (files.jpeg, files.g4) {
        (Some(bytes), _) => Some(
            PageModel {
                bytes,
                encoding: PageEncoding::Jpeg,
                width: if modern {
                    metadata.width
                } else {
                    0
                },
                height: if modern {
                    metadata.height
                } else {
                    0
                },
            },
        ),
        (None, Some(bytes)) => if modern && metadata.encoding == PageEncoding::G4 && metadata.width
            > 0 && metadata.height > 0 {
            Some(
                PageModel {
                    bytes,
                    encoding: PageEncoding::G4,
                    width: metadata.width,
                    height: metadata.height,
                },
            )
        } else {
            None
        },
        (None, None) => None,
    }
}

/// Whether nothing is left of a page.
pub open spec fn is_lost(files: FilesModel) -> bool {
    files.jpeg is None && files.g4 is None && files.original is None
}

/// What is recovered of a page that is not lost.
pub open spec fn recovered_from(id: u64, files: FilesModel) -> RecoveredModel {
    RecoveredModel {
        id,
        page: encoded_in(files),
        original_jpeg: files.original,
        corners: match files.metadata {
            None => None,
            Some(metadata) => Some(metadata.corners),
        },
        quarter_turns: match files.metadata {
            Some(metadata) => if metadata.format >= 1 {
                metadata.quarter_turns % 4
            } else {
                0
            },
            None => 0,
        },
    }
}

/// The page that files hold.
pub fn recovered_encoded_page(
    page_file: Option<(Vec<u8>, PageEncoding)>,
    metadata: &Option<PageMetadata>,
) -> (r: Option<EncodedPage>)
    ensures
        optional_page(r) == encoded_in(
            FilesModel {
                jpeg: match page_file {
                    Some((bytes, PageEncoding::Jpeg)) => Some(bytes@),
                    _ => None,
                },
                g4: match page_file {
                    Some((bytes, PageEncoding::G4)) => Some(bytes@),
                    _ => None,
                },
                original: None,
                metadata: *metadata,
            },
        ),
{
    let (bytes, encoding): (Vec<u8>, PageEncoding) = match page_file {
        None => {
            return None;
        },
        Some((bytes, encoding)) => (bytes, encoding),
    };
    match (encoding, metadata) {
        (PageEncoding::Jpeg, Some(metadata)) if metadata.format >= 2 => Some(
            EncodedPage { bytes, encoding, width: metadata.width, height: metadata.height },
        ),
        (PageEncoding::Jpeg, _) => Some(EncodedPage { bytes, encoding, width: 0, height: 0 }),
        (PageEncoding::G4, Some(metadata)) if metadata.format >= 2 && metadata.encoding
            == PageEncoding::G4 && metadata.width > 0 && metadata.height > 0 => Some(
            EncodedPage { bytes, encoding, width: metadata.width, height: metadata.height },
        ),
        (PageEncoding::G4, _) => None,
    }
}

/// What is recovered of a page; nothing where all its files are lost.
pub fn recover_page(id: u64, files: PageFiles) -> (r: Option<RecoveredPage>)
    ensures
        r is None <==> is_lost(files@),
        r matches Some(page) ==> page@ == recovered_from(id, files@),
{
    if files.jpeg.is_none() && files.g4.is_none() && files.original.is_none() {
        return None;
    }
    let page_file: Option<(Vec<u8>, PageEncoding)> = match files.jpeg {
        Some(bytes) => Some((bytes, PageEncoding::Jpeg)),
        None => match files.g4 {
            Some(bytes) => Some((bytes, PageEncoding::G4)),
            None => None,
        },
    };
    let page: Option<EncodedPage> = recovered_encoded_page(page_file, &files.metadata);
    let corners: Option<CropCorners> = match files.metadata {
        None => None,
        Some(metadata) => Some(metadata.corners),
    };
    let quarter_turns: u8 = match files.metadata {
        Some(metadata) => if metadata.format >= 1 {
            metadata.quarter_turns % 4
        } else {
            0
        },
        None => 0,
    };
    Some(RecoveredPage { id, page, original_jpeg: files.original, corners, quarter_turns })
}

/// What is recovered of the first `n` pages, in order.
pub open spec fn recovered_list(ids: Seq<u64>, files: Seq<FilesModel>, n: nat) -> Seq<
    RecoveredModel,
>
    decreases n,
{
    if n == 0 {
        Seq::empty()
    } else {
        let before = recovered_list(ids, files, (n - 1) as nat);
        if is_lost(files[n - 1]) {
            before
        } else {
            before.push(recovered_from(ids[n - 1], files[n - 1]))
        }
    }
}

/// The highest of the first `n` numbers; zero where there is none.
pub open spec fn highest_of(ids: Seq<u64>, n: nat) -> u64
    decreases n,
{
    if n == 0 {
        0
    } else {
        let before = highest_of(ids, (n - 1) as nat);
        if ids[n - 1] > before {
            ids[n - 1]
        } else {
            before
        }
    }
}

pub open spec fn files_models(files: Seq<PageFiles>) -> Seq<FilesModel> {
    files.map_values(|files: PageFiles| files@)
}

/// What is loaded: nothing where the manifest lists no page.
pub open spec fn loaded(manifest: ManifestModel, files: Seq<FilesModel>) -> Option<SessionModel> {
    let n = manifest.page_ids.len();
    let pages = recovered_list(manifest.page_ids, files, n);
    if n == 0 {
        None
    } else {
        Some(
            SessionModel {
                folder_path: manifest.folder_path,
                pages,
                skipped_pages: (n - pages.len()) as nat,
                highest_page_id: highest_of(manifest.page_ids, n),
            },
        )
    }
}

pub open spec fn session_model(session: Option<RecoveredSession>) -> Option<SessionModel> {
    match session {
        None => None,
        Some(session) => Some(session@),
    }
}

/// The list backwards, so that its first comes off the end.
fn reversed_files(files: Vec<PageFiles>) -> (r: Vec<PageFiles>)
    ensures
        r@ == files@.reverse(),
{
    let mut files: Vec<PageFiles> = files;
    let ghost all = files@;
    let mut reversed: Vec<PageFiles> = Vec::new();
    while files.len() > 0
        invariant
            files.len() <= all.len(),
            files@ == all.take(files.len() as int),
            reversed@ == all.skip(files.len() as int).reverse(),
        decreases files.len(),
    {
        let ghost n = files.len() as int;
        match files.pop() {
            Some(last) => {
                reversed.push(last);
                assert(files@ =~= all.take(n - 1));
                assert(reversed@ =~= all.skip(n - 1).reverse());
            },
            None => {},
        }
    }
    assert(all.skip(0) =~= all);
    reversed
}

fn highest_id(ids: &Vec<u64>) -> (r: u64)
    ensures
        r == highest_of(ids@, ids.len() as nat),
{
    let mut highest: u64 = 0;
    let mut i: usize = 0;
    while i < ids.len()
        invariant
            i <= ids.len(),
            highest == highest_of(ids@, i as nat),
        decreases ids.len() - i,
    {
        if ids[i] > highest {
            highest = ids[i];
        }
        i = i + 1;
    }
    highest
}

/// No page that a manifest lists is numbered above the highest.
pub proof fn law_highest_id_bounds_all(ids: Seq<u64>, n: nat, i: int)
    requires
        0 <= i < n <= ids.len(),
    ensures
        ids[i] <= highest_of(ids, n),
    decreases n,
{
    if i < n - 1 {
        law_highest_id_bounds_all(ids, (n - 1) as nat, i);
    }
}

/// Makes a session of a manifest and of what the files of its pages hold.
pub fn load_from_manifest(manifest: Manifest, files: Vec<PageFiles>) -> (r: Option<
    RecoveredSession,
>)
    requires
        files.len() == manifest.page_ids.len(),
    ensures
        session_model(r) == loaded(manifest@, files_models(files@)),
{
    if manifest.page_ids.len() == 0 {
        return None;
    }
    let ghost models = files_models(files@);
    let ghost all = files@;
    let total: usize = files.len();
    let mut rest: Vec<PageFiles> = reversed_files(files);
    let mut pages: Vec<RecoveredPage> = Vec::new();
    let mut i: usize = 0;
    while i < total
        invariant
            i <= total,
            total == all.len(),
            total == manifest.page_ids.len(),
            models == files_models(all),
            rest.len() == total - i,
            forall|k: int| 0 <= k < rest.len() ==> #[trigger] rest@[k] == all[total - 1 - k],
            pages.len() <= i,
            recovered_models(pages@) == recovered_list(manifest.page_ids@, models, i as nat),
        decreases total - i,
    {
        match rest.pop() {
            Some(files) => {
                assert(files == all[i as int]);
                assert(models[i as int] == files@);
                if let Some(page) = recover_page(manifest.page_ids[i], files) {
                    proof {
                        assert(recovered_models(pages@.push(page)) =~= recovered_models(
                            pages@,
                        ).push(page@));
                    }
                    pages.push(page);
                }
            },
            None => {},
        }
        i = i + 1;
    }
    let highest_page_id: u64 = highest_id(&manifest.page_ids);
    let skipped_pages: usize = total - pages.len();
    Some(
        RecoveredSession { folder_path: manifest.folder_path, pages, skipped_pages, highest_page_id },
    )
}

/// One step of keeping a session. A written file replaces an older one in one go.
#[derive(Debug)]
pub enum FileStep {
    Clear,
    CreateFolder,
    WriteBytes { name: String, bytes: Vec<u8> },
    WriteMetadata { name: String, metadata: PageMetadata },
    WriteManifest { manifest: Manifest },
    Remove { name: String },
}

pub ghost enum StepModel {
    Clear,
    CreateFolder,
    WriteBytes { name: Seq<char>, bytes: Seq<u8> },
    WriteMetadata { name: Seq<char>, metadata: PageMetadata },
    WriteManifest { manifest: ManifestModel },
    Remove { name: Seq<char> },
}

impl View for FileStep {
    type V = StepModel;

    open spec fn view(&self) -> StepModel {
        match self {
            FileStep::Clear => StepModel::Clear,
            FileStep::CreateFolder => StepModel::CreateFolder,
            FileStep::WriteBytes { name, bytes } => StepModel::WriteBytes {
                name: name@,
                bytes: bytes@,
            },
            FileStep::WriteMetadata { name, metadata } => StepModel::WriteMetadata {
                name: name@,
                metadata: *metadata,
            },
            FileStep::WriteManifest { manifest } => StepModel::WriteManifest {
                manifest: manifest@,
            },
            FileStep::Remove { name } => StepModel::Remove { name: name@ },
        }
    }
}

pub open spec fn step_models(steps: Seq<FileStep>) -> Seq<StepModel> {
    steps.map_values(|step: FileStep| step@)
}

/// What a file of a session holds.
pub ghost enum Content {
    Bytes(Seq<u8>),
    Metadata(PageMetadata),
    Manifest(ManifestModel),
}

/// The files of a session by name.
pub type Directory = Map<Seq<char>, Content>;

/// The files after a step.
pub open spec fn after_step(files: Directory, step: StepModel) -> Directory {
    match step {
        StepModel::Clear => Map::empty(),
        StepModel::CreateFolder => files,
        StepModel::WriteBytes { name, bytes } => files.insert(name, Content::Bytes(bytes)),
        StepModel::WriteMetadata { name, metadata } => files.insert(
            name,
            Content::Metadata(metadata),
        ),
        StepModel::WriteManifest { manifest } => files.insert(
            manifest_name(),
            Content::Manifest(manifest),
        ),
        StepModel::Remove { name } => files.remove(name),
    }
}

/// The files after the first `n` steps.
pub open spec fn after_steps(files: Directory, steps: Seq<StepModel>, n: nat) -> Directory
    decreases n,
{
    if n == 0 {
        files
    } else {
        after_step(after_steps(files, steps, (n - 1) as nat), steps[n - 1])
    }
}

/// The manifest that is kept.
pub open spec fn kept_manifest(files: Directory) -> Option<ManifestModel> {
    if files.contains_key(manifest_name()) {
        match files[manifest_name()] {
            Content::Manifest(manifest) => Some(manifest),
            _ => None,
        }
    } else {
        None
    }
}

/// The bytes that a file of a page holds.
pub open spec fn kept_bytes(
    files: Directory,
    id: u64,
    revision: Option<u64>,
    file: PageFile,
) -> Option<Seq<u8>> {
    let name = file_name(id, revision, file);
    if files.contains_key(name) {
        match files[name] {
            Content::Bytes(bytes) => Some(bytes),
            _ => None,
        }
    } else {
        None
    }
}

/// What the files of a page hold.
pub open spec fn kept_files(files: Directory, id: u64, revision: Option<u64>) -> FilesModel {
    let name = file_name(id, revision, PageFile::Metadata);
    FilesModel {
        jpeg: kept_bytes(files, id, revision, PageFile::Jpeg),
        g4: kept_bytes(files, id, revision, PageFile::G4),
        original: kept_bytes(files, id, revision, PageFile::Original),
        metadata: if files.contains_key(name) {
            match files[name] {
                Content::Metadata(metadata) => Some(metadata),
                _ => None,
            }
        } else {
            None
        },
    }
}

/// What is recovered of a page if the program stops now; `None` where it is lost or
/// not listed.
pub open spec fn kept_page(files: Directory, id: u64) -> Option<RecoveredModel> {
    match kept_manifest(files) {
        None => None,
        Some(manifest) => {
            let found = kept_files(files, id, manifest.revision(id));
            if !manifest.page_ids.contains(id) || is_lost(found) {
                None
            } else {
                Some(recovered_from(id, found))
            }
        },
    }
}

/// The file in which a page of an encoding is kept.
pub open spec fn page_file_for(encoding: PageEncoding) -> PageFile {
    match encoding {
        PageEncoding::Jpeg => PageFile::Jpeg,
        PageEncoding::G4 => PageFile::G4,
    }
}

fn page_file_of(encoding: PageEncoding) -> (r: PageFile)
    ensures
        r == page_file_for(encoding),
{
    match encoding {
        PageEncoding::Jpeg => PageFile::Jpeg,
        PageEncoding::G4 => PageFile::G4,
    }
}

/// What is kept beside a page that is written now.
pub open spec fn metadata_for(page: PageModel, corners: CropCorners, turns: u8) -> PageMetadata {
    PageMetadata {
        corners,
        quarter_turns: turns % 4,
        format: PAGE_METADATA_FORMAT,
        encoding: page.encoding,
        width: page.width,
        height: page.height,
    }
}

/// The manifest once a page is written.
pub open spec fn manifest_with(manifest: ManifestModel, id: u64, revision: u64) -> ManifestModel {
    ManifestModel {
        page_ids: if manifest.page_ids.contains(id) {
            manifest.page_ids
        } else {
            manifest.page_ids.push(id)
        },
        page_revisions: manifest.page_revisions.insert(id, revision),
        ..manifest
    }
}

/// The steps that take the files of a revision away.
pub open spec fn removal_steps(id: u64, revision: Option<u64>) -> Seq<StepModel> {
    seq![
        StepModel::Remove { name: file_name(id, revision, PageFile::G4) },
        StepModel::Remove { name: file_name(id, revision, PageFile::Jpeg) },
        StepModel::Remove { name: file_name(id, revision, PageFile::Original) },
        StepModel::Remove { name: file_name(id, revision, PageFile::Metadata) },
    ]
}

/// The steps that write a page: its files under a new revision, then the manifest that
/// points to them, and only then the old files go.
pub open spec fn write_steps(
    manifest: ManifestModel,
    id: u64,
    page: PageModel,
    original: Seq<u8>,
    corners: CropCorners,
    turns: u8,
) -> Seq<StepModel> {
    let revision = manifest.next_revision(id) as u64;
    seq![
        StepModel::WriteBytes {
            name: file_name(id, Some(revision), page_file_for(page.encoding)),
            bytes: page.bytes,
        },
        StepModel::WriteBytes {
            name: file_name(id, Some(revision), PageFile::Original),
            bytes: original,
        },
        StepModel::WriteMetadata {
            name: file_name(id, Some(revision), PageFile::Metadata),
            metadata: metadata_for(page, corners, turns),
        },
        StepModel::WriteManifest { manifest: manifest_with(manifest, id, revision) },
    ] + removal_steps(id, manifest.revision(id))
}

/// The other pages, in order.
pub open spec fn ids_without(ids: Seq<u64>, id: u64) -> Seq<u64> {
    ids.filter(|existing: u64| existing != id)
}

/// The manifest once a page is removed.
pub open spec fn manifest_without(manifest: ManifestModel, id: u64) -> ManifestModel {
    ManifestModel {
        page_ids: ids_without(manifest.page_ids, id),
        page_revisions: manifest.page_revisions.remove(id),
        ..manifest
    }
}

/// The steps that remove a page: first the manifest, then the files.
pub open spec fn remove_steps(manifest: ManifestModel, id: u64) -> Seq<StepModel> {
    seq![StepModel::WriteManifest { manifest: manifest_without(manifest, id) }] + removal_steps(
        id,
        manifest.revision(id),
    ) + if manifest.revision(id) is Some {
        removal_steps(id, None)
    } else {
        Seq::empty()
    }
}

/// A change to the session.
#[derive(Debug)]
pub enum SessionCommand {
    Begin { folder: DocPath },
    WritePage {
        id: u64,
        page: EncodedPage,
        original_jpeg: Vec<u8>,
        corners: CropCorners,
        quarter_turns: u8,
    },
    RemovePage { id: u64 },
    SetOrder { ids: Vec<u64> },
    SetFolder { folder: DocPath },
    Clear,
}

pub open spec fn manifest_option(manifest: Option<Manifest>) -> Option<ManifestModel> {
    match manifest {
        None => None,
        Some(manifest) => Some(manifest@),
    }
}

/// The steps of a command; `None` where it needs a manifest and there is none.
pub open spec fn command_steps(
    command: SessionCommand,
    manifest: Option<ManifestModel>,
    now: u64,
) -> Option<Seq<StepModel>> {
    match (command, manifest) {
        (SessionCommand::Begin { folder }, _) => Some(
            seq![
                StepModel::Clear,
                StepModel::CreateFolder,
                StepModel::WriteManifest {
                    manifest: ManifestModel {
                        folder_path: folder@,
                        started_at: now,
                        page_ids: Seq::empty(),
                        page_revisions: Map::empty(),
                    },
                },
            ],
        ),
        (SessionCommand::Clear, _) => Some(seq![StepModel::Clear]),
        (_, None) => None,
        (
            SessionCommand::WritePage { id, page, original_jpeg, corners, quarter_turns },
            Some(manifest),
        ) => Some(write_steps(manifest, id, page@, original_jpeg@, corners, quarter_turns)),
        (SessionCommand::RemovePage { id }, Some(manifest)) => Some(remove_steps(manifest, id)),
        (SessionCommand::SetOrder { ids }, Some(manifest)) => Some(
            seq![
                StepModel::WriteManifest {
                    manifest: ManifestModel { page_ids: ids@, ..manifest },
                },
            ],
        ),
        (SessionCommand::SetFolder { folder }, Some(manifest)) => Some(
            seq![
                StepModel::WriteManifest {
                    manifest: ManifestModel { folder_path: folder@, ..manifest },
                },
            ],
        ),
    }
}

fn push_removals(steps: &mut Vec<FileStep>, id: u64, revision: Option<u64>)
    ensures
        step_models(final(steps)@) == step_models(old(steps)@) + removal_steps(id, revision),
{
    let ghost before = step_models(steps@);
    steps.push(FileStep::Remove { name: page_file_name(id, revision, PageFile::G4) });
    steps.push(FileStep::Remove { name: page_file_name(id, revision, PageFile::Jpeg) });
    steps.push(FileStep::Remove { name: page_file_name(id, revision, PageFile::Original) });
    steps.push(FileStep::Remove { name: page_file_name(id, revision, PageFile::Metadata) });
    assert(step_models(steps@) =~= before + removal_steps(id, revision));
}

fn lists(ids: &Vec<u64>, id: u64) -> (r: bool)
    ensures
        r == ids@.contains(id),
{
    let mut i: usize = 0;
    while i < ids.len()
        invariant
            i <= ids.len(),
            forall|k: int| 0 <= k < i ==> #[trigger] ids[k] != id,
        decreases ids.len() - i,
    {
        if ids[i] == id {
            assert(ids@[i as int] == id);
            return true;
        }
        i = i + 1;
    }
    false
}

fn without_id(ids: &Vec<u64>, id: u64) -> (r: Vec<u64>)
    ensures
        r@ == ids_without(ids@, id),
{
    let mut kept: Vec<u64> = Vec::new();
    let mut i: usize = 0;
    assert(ids_without(ids@.take(0), id) =~= Seq::<u64>::empty()) by {
        reveal(Seq::filter);
    }
    while i < ids.len()
        invariant
            i <= ids.len(),
            kept@ == ids_without(ids@.take(i as int), id),
        decreases ids.len() - i,
    {
        proof {
            reveal(Seq::filter);
            assert(ids@.take(i + 1).drop_last() =~= ids@.take(i as int));
            assert(ids@.take(i + 1).last() == ids@[i as int]);
        }
        if ids[i] != id {
            kept.push(ids[i]);
        }
        i = i + 1;
    }
    assert(ids@.take(i as int) =~= ids@);
    kept
}

fn revision_in(revisions: &BTreeMap<u64, u64>, id: u64) -> (r: Option<u64>)
    ensures
        r == if revisions@.contains_key(id) {
            Some(revisions@[id])
        } else {
            None
        },
{
    match revisions.get(&id) {
        Some(revision) => Some(*revision),
        None => None,
    }
}

fn plan_write(
    manifest: Manifest,
    id: u64,
    page: EncodedPage,
    original_jpeg: Vec<u8>,
    corners: CropCorners,
    quarter_turns: u8,
) -> (r: Vec<FileStep>)
    requires
        manifest@.next_revision(id) <= u64::MAX,
    ensures
        step_models(r@) == write_steps(
            manifest@,
            id,
            page@,
            original_jpeg@,
            corners,
            quarter_turns,
        ),
{
    let ghost before = manifest@;
    let mut manifest: Manifest = manifest;
    let previous: Option<u64> = revision_in(&manifest.page_revisions, id);
    let revision: u64 = match previous {
        Some(revision) => revision + 1,
        None => 1,
    };
    let metadata: PageMetadata = PageMetadata {
        corners,
        quarter_turns: quarter_turns % 4,
        format: PAGE_METADATA_FORMAT,
        encoding: page.encoding,
        width: page.width,
        height: page.height,
    };
    let mut steps: Vec<FileStep> = Vec::new();
    steps.push(
        FileStep::WriteBytes {
            name: page_file_name(id, Some(revision), page_file_of(page.encoding)),
            bytes: page.bytes,
        },
    );
    steps.push(
        FileStep::WriteBytes {
            name: page_file_name(id, Some(revision), PageFile::Original),
            bytes: original_jpeg,
        },
    );
    steps.push(
        FileStep::WriteMetadata {
            name: page_file_name(id, Some(revision), PageFile::Metadata),
            metadata,
        },
    );
    if !lists(&manifest.page_ids, id) {
        manifest.page_ids.push(id);
    }
    manifest.page_revisions.insert(id, revision);
    assert(manifest@ =~= manifest_with(before, id, revision));
    steps.push(FileStep::WriteManifest { manifest });
    let ghost written = step_models(steps@);
    assert(written =~= write_steps(
        before,
        id,
        page@,
        original_jpeg@,
        corners,
        quarter_turns,
    ).take(4));
    push_removals(&mut steps, id, previous);
    assert(step_models(steps@) =~= write_steps(
        before,
        id,
        page@,
        original_jpeg@,
        corners,
        quarter_turns,
    ));
    steps
}

fn plan_removal(manifest: Manifest, id: u64) -> (r: Vec<FileStep>)
    ensures
        step_models(r@) == remove_steps(manifest@, id),
{
    let mut manifest: Manifest = manifest;
    let ghost before = manifest@;
    let previous: Option<u64> = revision_in(&manifest.page_revisions, id);
    let kept: Vec<u64> = without_id(&manifest.page_ids, id);
    manifest.page_revisions.remove(&id);
    manifest.page_ids = kept;
    assert(manifest@ =~= manifest_without(before, id));
    let mut steps: Vec<FileStep> = Vec::new();
    steps.push(FileStep::WriteManifest { manifest });
    assert(step_models(steps@) =~= remove_steps(before, id).take(1));
    push_removals(&mut steps, id, previous);
    if previous.is_some() {
        push_removals(&mut steps, id, None);
    }
    assert(step_models(steps@) =~= remove_steps(before, id));
    steps
}

/// The steps of a command, to be taken in order until one fails.
pub fn session_steps(command: SessionCommand, manifest: Option<Manifest>, now: u64) -> (r: Result<
    Vec<FileStep>,
    String,
>)
    requires
        command is WritePage && manifest is Some ==> manifest->Some_0@.next_revision(
            command->WritePage_id,
        ) <= u64::MAX,
    ensures
        match command_steps(command, manifest_option(manifest), now) {
            Some(steps) => r is Ok && step_models(r->Ok_0@) == steps,
            None => r is Err && r->Err_0@ == "Brak manifestu sesji."@,
        },
{
    let ghost expected = command_steps(command, manifest_option(manifest), now);
    let mut steps: Vec<FileStep> = Vec::new();
    match (command, manifest) {
        (SessionCommand::Begin { folder }, _) => {
            let fresh: Manifest = Manifest {
                folder_path: folder,
                started_at: now,
                page_ids: Vec::new(),
                page_revisions: BTreeMap::new(),
            };
            steps.push(FileStep::Clear);
            steps.push(FileStep::CreateFolder);
            assert(fresh@ =~= (ManifestModel {
                folder_path: folder@,
                started_at: now,
                page_ids: Seq::empty(),
                page_revisions: Map::empty(),
            }));
            steps.push(FileStep::WriteManifest { manifest: fresh });
            assert(step_models(steps@) =~= expected->Some_0);
            Ok(steps)
        },
        (SessionCommand::Clear, _) => {
            steps.push(FileStep::Clear);
            assert(step_models(steps@) =~= expected->Some_0);
            Ok(steps)
        },
        (_, None) => Err("Brak manifestu sesji.".to_owned()),
        (
            SessionCommand::WritePage { id, page, original_jpeg, corners, quarter_turns },
            Some(manifest),
        ) => Ok(plan_write(manifest, id, page, original_jpeg, corners, quarter_turns)),
        (SessionCommand::RemovePage { id }, Some(manifest)) => Ok(plan_removal(manifest, id)),
        (SessionCommand::SetOrder { ids }, Some(manifest)) => {
            let changed: Manifest = Manifest { page_ids: ids, ..manifest };
            steps.push(FileStep::WriteManifest { manifest: changed });
            assert(step_models(steps@) =~= expected->Some_0);
            Ok(steps)
        },
        (SessionCommand::SetFolder { folder }, Some(manifest)) => {
            let changed: Manifest = Manifest { folder_path: folder, ..manifest };
            steps.push(FileStep::WriteManifest { manifest: changed });
            assert(step_models(steps@) =~= expected->Some_0);
            Ok(steps)
        },
    }
}

/// What is known of the session that is kept on disk.
#[derive(Debug)]
pub struct SessionStore {
    pub manifest: Option<Manifest>,
}

/// Whether steps are those that a command needs, or it is said that there is no session.
pub open spec fn answers(
    r: Result<Vec<FileStep>, String>,
    steps: Option<Seq<StepModel>>,
) -> bool {
    match steps {
        Some(steps) => r is Ok && step_models(r->Ok_0@) == steps,
        None => r is Err && r->Err_0@ == "Brak manifestu sesji."@,
    }
}

impl SessionStore {
    /// Begins a session for a folder; what was kept before goes.
    pub fn begin(self, folder: DocPath, now: u64) -> (r: Result<Vec<FileStep>, String>)
        ensures
            answers(
                r,
                command_steps(
                    SessionCommand::Begin { folder },
                    manifest_option(self.manifest),
                    now,
                ),
            ),
            r is Ok,
    {
        session_steps(SessionCommand::Begin { folder }, self.manifest, now)
    }

    /// Keeps a page, in place of what was kept of it before.
    pub fn write_page(
        self,
        id: u64,
        page: EncodedPage,
        original_jpeg: Vec<u8>,
        corners: CropCorners,
        quarter_turns: u8,
    ) -> (r: Result<Vec<FileStep>, String>)
        requires
            self.manifest is Some ==> self.manifest->Some_0@.next_revision(id) <= u64::MAX,
        ensures
            answers(
                r,
                match manifest_option(self.manifest) {
                    None => None,
                    Some(manifest) => Some(
                        write_steps(
                            manifest,
                            id,
                            page@,
                            original_jpeg@,
                            corners,
                            quarter_turns,
                        ),
                    ),
                },
            ),
    {
        session_steps(
            SessionCommand::WritePage { id, page, original_jpeg, corners, quarter_turns },
            self.manifest,
            0,
        )
    }

    /// Forgets a page.
    pub fn remove_page(self, id: u64) -> (r: Result<Vec<FileStep>, String>)
        ensures
            answers(
                r,
                match manifest_option(self.manifest) {
                    None => None,
                    Some(manifest) => Some(remove_steps(manifest, id)),
                },
            ),
    {
        session_steps(SessionCommand::RemovePage { id }, self.manifest, 0)
    }

    /// Keeps the order of the pages.
    pub fn set_order(self, ids: Vec<u64>) -> (r: Result<Vec<FileStep>, String>)
        ensures
            answers(
                r,
                match manifest_option(self.manifest) {
                    None => None,
                    Some(manifest) => Some(
                        seq![
                            StepModel::WriteManifest {
                                manifest: ManifestModel { page_ids: ids@, ..manifest },
                            },
                        ],
                    ),
                },
            ),
    {
        session_steps(SessionCommand::SetOrder { ids }, self.manifest, 0)
    }

    /// Keeps the folder in which the document is to be saved.
    pub fn set_folder(self, folder: DocPath) -> (r: Result<Vec<FileStep>, String>)
        ensures
            answers(
                r,
                match manifest_option(self.manifest) {
                    None => None,
                    Some(manifest) => Some(
                        seq![
                            StepModel::WriteManifest {
                                manifest: ManifestModel { folder_path: folder@, ..manifest },
                            },
                        ],
                    ),
                },
            ),
    {
        session_steps(SessionCommand::SetFolder { folder }, self.manifest, 0)
    }

    /// Ends the session: nothing of it is kept.
    pub fn clear(self) -> (r: Result<Vec<FileStep>, String>)
        ensures
            answers(r, Some(seq![StepModel::Clear])),
    {
        session_steps(SessionCommand::Clear, self.manifest, 0)
    }
}

/// The name that a step writes or removes.
pub open spec fn touched_name(step: StepModel) -> Option<Seq<char>> {
    match step {
        StepModel::WriteBytes { name, bytes: _ } => Some(name),
        StepModel::WriteMetadata { name, metadata: _ } => Some(name),
        StepModel::Remove { name } => Some(name),
        _ => None,
    }
}

proof fn lemma_names_differ(
    id: u64,
    revision: Option<u64>,
    file: PageFile,
    other: u64,
    other_revision: Option<u64>,
    other_file: PageFile,
)
    ensures
        file_name(id, revision, file) == file_name(other, other_revision, other_file) ==> id
            == other && revision == other_revision && file == other_file,
{
    law_file_name_is_read_back(id, revision, file);
    law_file_name_is_read_back(other, other_revision, other_file);
}

/// A step on one file leaves the manifest and the files of other revisions alone.
proof fn lemma_step_is_local(
    files: Directory,
    step: StepModel,
    id: u64,
    revision: Option<u64>,
    file: PageFile,
)
    requires
        touched_name(step) == Some(file_name(id, revision, file)),
    ensures
        kept_manifest(after_step(files, step)) == kept_manifest(files),
        forall|other: u64, other_revision: Option<u64>|
            (other, other_revision) != (id, revision) ==> #[trigger] kept_files(
                after_step(files, step),
                other,
                other_revision,
            ) == kept_files(files, other, other_revision),
{
    law_manifest_is_no_page_file(id, revision, file);
    assert forall|other: u64, other_revision: Option<u64>|
        (other, other_revision) != (id, revision) implies #[trigger] kept_files(
        after_step(files, step),
        other,
        other_revision,
    ) == kept_files(files, other, other_revision) by {
        lemma_names_differ(id, revision, file, other, other_revision, PageFile::Jpeg);
        lemma_names_differ(id, revision, file, other, other_revision, PageFile::G4);
        lemma_names_differ(id, revision, file, other, other_revision, PageFile::Original);
        lemma_names_differ(id, revision, file, other, other_revision, PageFile::Metadata);
    }
}

/// Writing the manifest leaves the files of all pages alone.
proof fn lemma_manifest_step(files: Directory, manifest: ManifestModel)
    ensures
        kept_manifest(after_step(files, StepModel::WriteManifest { manifest })) == Some(manifest),
        forall|other: u64, revision: Option<u64>| #[trigger]
            kept_files(
                after_step(files, StepModel::WriteManifest { manifest }),
                other,
                revision,
            ) == kept_files(files, other, revision),
{
    assert forall|other: u64, revision: Option<u64>| #[trigger]
        kept_files(after_step(files, StepModel::WriteManifest { manifest }), other, revision)
            == kept_files(files, other, revision) by {
        law_manifest_is_no_page_file(other, revision, PageFile::Jpeg);
        law_manifest_is_no_page_file(other, revision, PageFile::G4);
        law_manifest_is_no_page_file(other, revision, PageFile::Original);
        law_manifest_is_no_page_file(other, revision, PageFile::Metadata);
    }
}

/// The files of a page that was just written.
pub open spec fn written_files(
    page: PageModel,
    original: Seq<u8>,
    metadata: PageMetadata,
    found: FilesModel,
) -> bool {
    &&& page.encoding == PageEncoding::Jpeg ==> found.jpeg == Some(page.bytes)
    &&& page.encoding == PageEncoding::G4 ==> found.jpeg is None && found.g4 == Some(page.bytes)
    &&& found.original == Some(original)
    &&& found.metadata == Some(metadata)
}

/// Where the files stand after some of the steps that write a page.
spec fn writing_at(
    before: Directory,
    now: Directory,
    manifest: ManifestModel,
    id: u64,
    page: PageModel,
    original: Seq<u8>,
    metadata: PageMetadata,
    n: nat,
) -> bool {
    let old_revision = manifest.revision(id);
    let revision = manifest.next_revision(id) as u64;
    &&& kept_manifest(now) == Some(
        if n < 4 {
            manifest
        } else {
            manifest_with(manifest, id, revision)
        },
    )
    &&& forall|other: u64, other_revision: Option<u64>|
        other != id ==> #[trigger] kept_files(now, other, other_revision) == kept_files(
            before,
            other,
            other_revision,
        )
    &&& n <= 4 ==> kept_files(now, id, old_revision) == kept_files(before, id, old_revision)
    &&& page.encoding == PageEncoding::G4 ==> kept_files(now, id, Some(revision)).jpeg is None
    &&& n >= 1 ==> kept_bytes(now, id, Some(revision), page_file_for(page.encoding)) == Some(
        page.bytes,
    )
    &&& n >= 2 ==> kept_files(now, id, Some(revision)).original == Some(original)
    &&& n >= 3 ==> written_files(page, original, metadata, kept_files(now, id, Some(revision)))
}

proof fn lemma_writing(
    files: Directory,
    manifest: ManifestModel,
    id: u64,
    page: PageModel,
    original: Seq<u8>,
    corners: CropCorners,
    turns: u8,
    n: nat,
)
    requires
        kept_manifest(files) == Some(manifest),
        manifest.next_revision(id) <= u64::MAX,
        page.encoding == PageEncoding::G4 ==> kept_files(
            files,
            id,
            Some(manifest.next_revision(id) as u64),
        ).jpeg is None,
        n <= 8,
    ensures
        writing_at(
            files,
            after_steps(files, write_steps(manifest, id, page, original, corners, turns), n),
            manifest,
            id,
            page,
            original,
            metadata_for(page, corners, turns),
            n,
        ),
    decreases n,
{
    let steps = write_steps(manifest, id, page, original, corners, turns);
    let revision = manifest.next_revision(id) as u64;
    let old_revision = manifest.revision(id);
    assert(Some(revision) != old_revision);
    if n > 0 {
        lemma_writing(files, manifest, id, page, original, corners, turns, (n - 1) as nat);
        let before = after_steps(files, steps, (n - 1) as nat);
        let step = steps[n - 1];
        let now = after_step(before, step);
        let written = page_file_for(page.encoding);
        lemma_names_differ(id, Some(revision), written, id, Some(revision), PageFile::Original);
        lemma_names_differ(id, Some(revision), written, id, Some(revision), PageFile::Metadata);
        lemma_names_differ(id, Some(revision), written, id, Some(revision), PageFile::Jpeg);
        lemma_names_differ(
            id,
            Some(revision),
            PageFile::Original,
            id,
            Some(revision),
            PageFile::Metadata,
        );
        lemma_names_differ(
            id,
            Some(revision),
            PageFile::Original,
            id,
            Some(revision),
            PageFile::Jpeg,
        );
        lemma_names_differ(
            id,
            Some(revision),
            PageFile::Metadata,
            id,
            Some(revision),
            PageFile::Jpeg,
        );
        lemma_names_differ(id, Some(revision), PageFile::Original, id, Some(revision), written);
        lemma_names_differ(id, Some(revision), PageFile::Metadata, id, Some(revision), written);
        lemma_names_differ(
            id,
            Some(revision),
            PageFile::Metadata,
            id,
            Some(revision),
            PageFile::Original,
        );
        if n == 1 {
            lemma_step_is_local(before, step, id, Some(revision), written);
        } else if n == 2 {
            lemma_step_is_local(before, step, id, Some(revision), PageFile::Original);
        } else if n == 3 {
            lemma_step_is_local(before, step, id, Some(revision), PageFile::Metadata);
        } else if n == 4 {
            lemma_manifest_step(before, manifest_with(manifest, id, revision));
            assert(kept_bytes(now, id, Some(revision), written) == kept_bytes(
                before,
                id,
                Some(revision),
                written,
            )) by {
                assert(kept_files(now, id, Some(revision)) == kept_files(
                    before,
                    id,
                    Some(revision),
                ));
            }
        } else {
            let file = if n == 5 {
                PageFile::G4
            } else if n == 6 {
                PageFile::Jpeg
            } else if n == 7 {
                PageFile::Original
            } else {
                PageFile::Metadata
            };
            assert(touched_name(step) == Some(file_name(id, old_revision, file)));
            lemma_step_is_local(before, step, id, old_revision, file);
            assert(kept_files(now, id, Some(revision)) == kept_files(before, id, Some(revision)));
        }
    }
}

/// The page as it is found again once it is written. A black-and-white page without a
/// size is of no use and only its photograph comes back.
pub open spec fn page_written(
    id: u64,
    page: PageModel,
    original: Seq<u8>,
    corners: CropCorners,
    turns: u8,
) -> RecoveredModel {
    RecoveredModel {
        id,
        page: if page.encoding == PageEncoding::Jpeg || (page.width > 0 && page.height > 0) {
            Some(page)
        } else {
            None
        },
        original_jpeg: Some(original),
        corners: Some(corners),
        quarter_turns: turns % 4,
    }
}

/// Wherever the program stops while it writes a page, every page can be loaded: the
/// others as they were, and this one as it was before or, once the manifest points to
/// it, as it was written.
pub proof fn law_writing_survives_a_crash(
    files: Directory,
    manifest: ManifestModel,
    id: u64,
    page: PageModel,
    original: Seq<u8>,
    corners: CropCorners,
    turns: u8,
    n: nat,
    other: u64,
)
    requires
        kept_manifest(files) == Some(manifest),
        manifest.next_revision(id) <= u64::MAX,
        page.encoding == PageEncoding::G4 ==> kept_files(
            files,
            id,
            Some(manifest.next_revision(id) as u64),
        ).jpeg is None,
        n <= write_steps(manifest, id, page, original, corners, turns).len(),
    ensures
        ({
            let steps = write_steps(manifest, id, page, original, corners, turns);
            let now = after_steps(files, steps, n);
            &&& other != id ==> kept_page(now, other) == kept_page(files, other)
            &&& n < 4 ==> kept_page(now, id) == kept_page(files, id)
            &&& n >= 4 ==> kept_page(now, id) == Some(
                page_written(id, page, original, corners, turns),
            )
        }),
{
    let steps = write_steps(manifest, id, page, original, corners, turns);
    let now = after_steps(files, steps, n);
    lemma_writing(files, manifest, id, page, original, corners, turns, n);
    let revision = manifest.next_revision(id) as u64;
    let after = manifest_with(manifest, id, revision);
    if other != id {
        assert(after.revision(other) == manifest.revision(other));
        assert(after.page_ids.contains(other) == manifest.page_ids.contains(other)) by {
            lemma_push_contains(manifest.page_ids, id, other);
        }
        assert(kept_files(now, other, manifest.revision(other)) == kept_files(
            files,
            other,
            manifest.revision(other),
        ));
    }
    if n >= 4 {
        assert(after.revision(id) == Some(revision));
        lemma_push_contains(manifest.page_ids, id, id);
        let found = kept_files(now, id, Some(revision));
        assert(written_files(page, original, metadata_for(page, corners, turns), found));
        assert(recovered_from(id, found) =~= page_written(id, page, original, corners, turns));
    }
}

proof fn lemma_push_contains(ids: Seq<u64>, added: u64, id: u64)
    ensures
        ids.push(added).contains(id) <==> ids.contains(id) || id == added,
{
    if ids.contains(id) {
        let k = choose|k: int| 0 <= k < ids.len() && ids[k] == id;
        assert(ids.push(added)[k] == id);
    }
    if id == added {
        assert(ids.push(added)[ids.len() as int] == id);
    }
}

proof fn lemma_removing(files: Directory, manifest: ManifestModel, id: u64, n: nat)
    requires
        n <= remove_steps(manifest, id).len(),
        kept_manifest(files) == Some(manifest),
    ensures
        ({
            let now = after_steps(files, remove_steps(manifest, id), n);
            &&& n >= 1 ==> kept_manifest(now) == Some(manifest_without(manifest, id))
            &&& forall|other: u64, revision: Option<u64>|
                other != id ==> #[trigger] kept_files(now, other, revision) == kept_files(
                    files,
                    other,
                    revision,
                )
        }),
    decreases n,
{
    let steps = remove_steps(manifest, id);
    if n > 0 {
        lemma_removing(files, manifest, id, (n - 1) as nat);
        let before = after_steps(files, steps, (n - 1) as nat);
        let step = steps[n - 1];
        if n == 1 {
            lemma_manifest_step(before, manifest_without(manifest, id));
        } else {
            let revision = if n <= 5 {
                manifest.revision(id)
            } else {
                None
            };
            let place = (n - 2) % 4;
            let file = if place == 0 {
                PageFile::G4
            } else if place == 1 {
                PageFile::Jpeg
            } else if place == 2 {
                PageFile::Original
            } else {
                PageFile::Metadata
            };
            assert(touched_name(step) == Some(file_name(id, revision, file)));
            lemma_step_is_local(before, step, id, revision, file);
        }
    }
}

/// Wherever the program stops while it removes a page, the other pages can be loaded as
/// they were, and from the first step on the page is gone for good.
pub proof fn law_removal_touches_one_page(
    files: Directory,
    manifest: ManifestModel,
    id: u64,
    n: nat,
    other: u64,
)
    requires
        kept_manifest(files) == Some(manifest),
        n <= remove_steps(manifest, id).len(),
    ensures
        ({
            let now = after_steps(files, remove_steps(manifest, id), n);
            &&& other != id ==> kept_page(now, other) == kept_page(files, other)
            &&& n >= 1 ==> kept_page(now, id) is None
        }),
{
    lemma_removing(files, manifest, id, n);
    let now = after_steps(files, remove_steps(manifest, id), n);
    let without = manifest_without(manifest, id);
    lemma_without_contains(manifest.page_ids, id, other);
    lemma_without_contains(manifest.page_ids, id, id);
    if other != id {
        assert(without.revision(other) == manifest.revision(other));
        assert(kept_files(now, other, manifest.revision(other)) == kept_files(
            files,
            other,
            manifest.revision(other),
        ));
    }
}

proof fn lemma_without_contains(ids: Seq<u64>, id: u64, other: u64)
    ensures
        ids_without(ids, id).contains(other) <==> ids.contains(other) && other != id,
    decreases ids.len(),
{
    reveal(Seq::filter);
    if ids.len() > 0 {
        let rest = ids.drop_last();
        lemma_without_contains(rest, id, other);
        lemma_push_contains(rest, ids.last(), other);
        assert(rest.push(ids.last()) =~= ids);
        lemma_push_contains(ids_without(rest, id), ids.last(), other);
    }
}

/// Every listed page of which anything is left is among the pages that are loaded.
pub proof fn law_loading_skips_only_lost_pages(
    ids: Seq<u64>,
    files: Seq<FilesModel>,
    n: nat,
    i: int,
)
    requires
        0 <= i < n,
        !is_lost(files[i]),
    ensures
        recovered_list(ids, files, n).contains(recovered_from(ids[i], files[i])),
    decreases n,
{
    let before = recovered_list(ids, files, (n - 1) as nat);
    let whole = recovered_list(ids, files, n);
    if i == n - 1 {
        assert(whole[before.len() as int] == recovered_from(ids[i], files[i]));
    } else {
        law_loading_skips_only_lost_pages(ids, files, (n - 1) as nat, i);
        let k = choose|k: int|
            0 <= k < before.len() && before[k] == recovered_from(ids[i], files[i]);
        assert(whole[k] == before[k]);
    }
}

/// The page and revision of a name that holds a page or a photograph.
pub open spec fn orphan(name: Seq<char>) -> Option<(u64, Option<u64>)> {
    match parsed_name(name) {
        Some((id, revision, file)) => if file.kind_of() == SessionFileKind::Metadata {
            None
        } else {
            Some((id, revision))
        },
        None => None,
    }
}

/// Whether a revision comes after another; no revision comes before all.
pub open spec fn is_later(left: Option<u64>, right: Option<u64>) -> bool {
    match (left, right) {
        (Some(left), Some(right)) => left > right,
        (Some(_), None) => true,
        (None, _) => false,
    }
}

/// Whether a list holds, in the order of their numbers, the pages that names belong to,
/// each with its latest revision.
pub open spec fn are_latest(names: Seq<String>, found: Seq<(u64, Option<u64>)>) -> bool {
    &&& forall|i: int, j: int| 0 <= i < j < found.len() ==> #[trigger] found[i].0 < #[trigger] found[j].0
    &&& forall|i: int| 0 <= i < found.len() ==> is_named(names, #[trigger] found[i])
    &&& forall|k: int|
        0 <= k < names.len() && orphan((#[trigger] names[k])@) is Some ==> is_covered(
            found,
            orphan(names[k]@)->Some_0,
        )
}

/// Whether some name belongs to a page and revision.
pub open spec fn is_named(names: Seq<String>, entry: (u64, Option<u64>)) -> bool {
    exists|k: int| 0 <= k < names.len() && orphan((#[trigger] names[k])@) == Some(entry)
}

/// Whether a list holds a page with a revision no earlier than this.
pub open spec fn is_covered(found: Seq<(u64, Option<u64>)>, entry: (u64, Option<u64>)) -> bool {
    exists|i: int|
        0 <= i < found.len() && (#[trigger] found[i]).0 == entry.0 && !is_later(entry.1, found[i].1)
}

fn comes_later(left: Option<u64>, right: Option<u64>) -> (r: bool)
    ensures
        r == is_later(left, right),
{
    match (left, right) {
        (Some(left), Some(right)) => left > right,
        (Some(_), None) => true,
        (None, _) => false,
    }
}

#[verifier::spinoff_prover]
#[verifier::rlimit(60)]
fn insert_orphan(
    found: &mut Vec<(u64, Option<u64>)>,
    id: u64,
    revision: Option<u64>,
    Ghost(names): Ghost<Seq<String>>,
    Ghost(next): Ghost<String>,
)
    requires
        are_latest(names, old(found)@),
        orphan(next@) == Some((id, revision)),
    ensures
        are_latest(names.push(next), final(found)@),
{
    let ghost before = found@;
    let ghost more = names.push(next);
    let mut at: usize = 0;
    while at < found.len() && found[at].0 < id
        invariant
            at <= found.len(),
            found@ == before,
            forall|i: int| 0 <= i < at ==> (#[trigger] found@[i]).0 < id,
        decreases found.len() - at,
    {
        at = at + 1;
    }
    proof {
        assert(more[names.len() as int] == next);
        assert forall|entry: (u64, Option<u64>)| is_named(names, entry) implies #[trigger] is_named(
            more,
            entry,
        ) by {
            let k = choose|k: int|
                0 <= k < names.len() && orphan((#[trigger] names[k])@) == Some(entry);
            assert(more[k] == names[k]);
        }
        assert(is_named(more, (id, revision)));
    }
    if at < found.len() && found[at].0 == id {
        if comes_later(revision, found[at].1) {
            found.set(at, (id, revision));
        }
        proof {
            assert forall|k: int| 0 <= k < more.len() && orphan((#[trigger] more[k])@) is Some implies
                is_covered(found@, orphan(more[k]@)->Some_0) by {
                let entry = orphan(more[k]@)->Some_0;
                if k < names.len() {
                    assert(more[k] == names[k]);
                    assert(is_covered(before, entry));
                    let i = choose|i: int|
                        0 <= i < before.len() && (#[trigger] before[i]).0 == entry.0 && !is_later(
                            entry.1,
                            before[i].1,
                        );
                    assert(found@[i].0 == entry.0);
                } else {
                    assert(found@[at as int].0 == entry.0);
                }
            }
        }
    } else {
        found.insert(at, (id, revision));
        proof {
            assert forall|i: int, j: int| 0 <= i < j < found@.len() implies #[trigger] found@[i].0
                < #[trigger] found@[j].0 by {
                if j == at {
                } else if i == at {
                    assert(found@[j] == before[j - 1]);
                    if at < j - 1 {
                        assert(before[at as int].0 < before[j - 1].0);
                    }
                } else {
                    let a = if i < at {
                        i
                    } else {
                        i - 1
                    };
                    let b = if j < at {
                        j
                    } else {
                        j - 1
                    };
                    assert(before[a].0 < before[b].0);
                }
            }
            assert forall|i: int| 0 <= i < found@.len() implies is_named(
                more,
                #[trigger] found@[i],
            ) by {
                if i < at {
                    assert(found@[i] == before[i]);
                } else if i > at {
                    assert(found@[i] == before[i - 1]);
                }
            }
            assert forall|k: int| 0 <= k < more.len() && orphan((#[trigger] more[k])@) is Some implies
                is_covered(found@, orphan(more[k]@)->Some_0) by {
                let entry = orphan(more[k]@)->Some_0;
                if k < names.len() {
                    assert(more[k] == names[k]);
                    assert(is_covered(before, entry));
                    let i = choose|i: int|
                        0 <= i < before.len() && (#[trigger] before[i]).0 == entry.0 && !is_later(
                            entry.1,
                            before[i].1,
                        );
                    let moved = if i < at {
                        i
                    } else {
                        i + 1
                    };
                    assert(found@[moved] == before[i]);
                } else {
                    assert(found@[at as int] == entry);
                }
            }
        }
    }
}

/// The pages that the files beside an unreadable manifest belong to, each with its
/// latest revision, by number.
pub fn orphan_revisions(names: &Vec<String>) -> (r: Vec<(u64, Option<u64>)>)
    ensures
        are_latest(names@, r@),
{
    let mut found: Vec<(u64, Option<u64>)> = Vec::new();
    let mut i: usize = 0;
    while i < names.len()
        invariant
            i <= names.len(),
            are_latest(names@.take(i as int), found@),
        decreases names.len() - i,
    {
        let ghost before = names@.take(i as int);
        assert(names@.take(i + 1) =~= before.push(names@[i as int]));
        match parse_session_file_name(names[i].as_str()) {
            Some((id, revision, SessionFileKind::Page)) => {
                insert_orphan(&mut found, id, revision, Ghost(before), Ghost(names@[i as int]));
            },
            Some((id, revision, SessionFileKind::Original)) => {
                insert_orphan(&mut found, id, revision, Ghost(before), Ghost(names@[i as int]));
            },
            _ => {
                proof {
                    lemma_no_orphan_added(before, names@[i as int], found@);
                }
            },
        }
        i = i + 1;
    }
    assert(names@.take(i as int) =~= names@);
    found
}

proof fn lemma_no_orphan_added(names: Seq<String>, next: String, found: Seq<(u64, Option<u64>)>)
    requires
        are_latest(names, found),
        orphan(next@) is None,
    ensures
        are_latest(names.push(next), found),
{
    let more = names.push(next);
    assert forall|i: int| 0 <= i < found.len() implies is_named(more, #[trigger] found[i]) by {
        let k = choose|k: int|
            0 <= k < names.len() && orphan((#[trigger] names[k])@) == Some(found[i]);
        assert(more[k] == names[k]);
    }
    assert forall|k: int| 0 <= k < more.len() && orphan((#[trigger] more[k])@) is Some implies
        is_covered(found, orphan(more[k]@)->Some_0) by {
        assert(more[k] == names[k]);
    }
}

pub open spec fn orphan_ids(found: Seq<(u64, Option<u64>)>) -> Seq<u64> {
    found.map_values(|entry: (u64, Option<u64>)| entry.0)
}

/// The numbers, among the first `n`, of the pages that are not lost.
pub open spec fn salvaged_ids(
    found: Seq<(u64, Option<u64>)>,
    files: Seq<FilesModel>,
    n: nat,
) -> Seq<u64>
    decreases n,
{
    if n == 0 {
        Seq::empty()
    } else {
        let before = salvaged_ids(found, files, (n - 1) as nat);
        if is_lost(files[n - 1]) {
            before
        } else {
            before.push(found[n - 1].0)
        }
    }
}

/// The revisions, among the first `n`, of the pages that are not lost.
pub open spec fn salvaged_revisions(
    found: Seq<(u64, Option<u64>)>,
    files: Seq<FilesModel>,
    n: nat,
) -> Map<u64, u64>
    decreases n,
{
    if n == 0 {
        Map::empty()
    } else {
        let before = salvaged_revisions(found, files, (n - 1) as nat);
        match found[n - 1].1 {
            Some(revision) => if is_lost(files[n - 1]) {
                before
            } else {
                before.insert(found[n - 1].0, revision)
            },
            None => before,
        }
    }
}

/// What is salvaged, and the manifest that lets the session go on.
pub open spec fn salvaged(
    found: Seq<(u64, Option<u64>)>,
    files: Seq<FilesModel>,
    now: u64,
) -> Option<(SessionModel, ManifestModel)> {
    let n = found.len();
    let pages = recovered_list(orphan_ids(found), files, n);
    let ids = salvaged_ids(found, files, n);
    let nowhere = PathModel { anchor: Seq::empty(), parts: Seq::empty() };
    if pages.len() == 0 {
        None
    } else {
        Some(
            (
                SessionModel {
                    folder_path: nowhere,
                    pages,
                    skipped_pages: 0,
                    highest_page_id: highest_of(ids, ids.len()),
                },
                ManifestModel {
                    folder_path: nowhere,
                    started_at: now,
                    page_ids: ids,
                    page_revisions: salvaged_revisions(found, files, n),
                },
            ),
        )
    }
}

fn no_path() -> (r: DocPath)
    ensures
        r@ == (PathModel { anchor: Seq::empty(), parts: Seq::empty() }),
{
    let path: DocPath = DocPath { anchor: String::new(), parts: Vec::new() };
    assert(path@.parts =~= Seq::<Seq<char>>::empty());
    assert(path@.anchor =~= Seq::<char>::empty());
    path
}

/// Makes a session of page files beside an unreadable manifest, instead of letting the
/// next session wipe them. The manifest that comes with it is to be written.
pub fn salvage_orphan_pages(
    found: &Vec<(u64, Option<u64>)>,
    files: Vec<PageFiles>,
    now: u64,
) -> (r: Option<(RecoveredSession, Manifest)>)
    requires
        files.len() == found.len(),
    ensures
        match salvaged(found@, files_models(files@), now) {
            None => r is None,
            Some((session, manifest)) => r is Some && r->Some_0.0@ == session && r->Some_0.1@
                == manifest,
        },
{
    let ghost models = files_models(files@);
    let ghost all = files@;
    let ghost ids = orphan_ids(found@);
    let mut rest: Vec<PageFiles> = reversed_files(files);
    let mut pages: Vec<RecoveredPage> = Vec::new();
    let mut page_ids: Vec<u64> = Vec::new();
    let mut page_revisions: BTreeMap<u64, u64> = BTreeMap::new();
    let mut i: usize = 0;
    while i < found.len()
        invariant
            i <= found.len(),
            all.len() == found.len(),
            models == files_models(all),
            ids == orphan_ids(found@),
            rest.len() == found.len() - i,
            forall|k: int| 0 <= k < rest.len() ==> #[trigger] rest@[k] == all[found.len() - 1 - k],
            recovered_models(pages@) == recovered_list(ids, models, i as nat),
            page_ids@ == salvaged_ids(found@, models, i as nat),
            page_revisions@ == salvaged_revisions(found@, models, i as nat),
        decreases found.len() - i,
    {
        match rest.pop() {
            Some(files) => {
                assert(files == all[i as int]);
                assert(models[i as int] == files@);
                let (id, revision): (u64, Option<u64>) = found[i];
                assert(ids[i as int] == id);
                if let Some(page) = recover_page(id, files) {
                    proof {
                        assert(recovered_models(pages@.push(page)) =~= recovered_models(
                            pages@,
                        ).push(page@));
                    }
                    pages.push(page);
                    page_ids.push(id);
                    if let Some(revision) = revision {
                        page_revisions.insert(id, revision);
                    }
                }
            },
            None => {},
        }
        i = i + 1;
    }
    if pages.len() == 0 {
        assert(recovered_models(pages@).len() == 0);
        return None;
    }
    assert(recovered_models(pages@).len() > 0);
    let highest_page_id: u64 = highest_id(&page_ids);
    let session: RecoveredSession = RecoveredSession {
        folder_path: no_path(),
        pages,
        skipped_pages: 0,
        highest_page_id,
    };
    let manifest: Manifest = Manifest {
        folder_path: no_path(),
        started_at: now,
        page_ids,
        page_revisions,
    };
    Some((session, manifest))
}

/// What stands where the manifest of a session is kept.
#[derive(Debug)]
pub enum ManifestState {
    Missing,
    Parsed(Manifest),
    Corrupt,
}

/// Whether files were read for pages, one after the other.
pub open spec fn were_read<F: Fn(u64, Option<u64>) -> PageFiles>(
    read: F,
    wanted: Seq<(u64, Option<u64>)>,
    files: Seq<PageFiles>,
) -> bool {
    &&& files.len() == wanted.len()
    &&& forall|i: int|
        0 <= i < files.len() ==> call_ensures(
            read,
            (wanted[i].0, wanted[i].1),
            #[trigger] files[i],
        )
}

fn read_pages<F: Fn(u64, Option<u64>) -> PageFiles>(
    wanted: &Vec<(u64, Option<u64>)>,
    read: &F,
) -> (r: Vec<PageFiles>)
    requires
        forall|id: u64, revision: Option<u64>| #[trigger] call_requires(*read, (id, revision)),
    ensures
        were_read(*read, wanted@, r@),
{
    let mut files: Vec<PageFiles> = Vec::new();
    let mut i: usize = 0;
    while i < wanted.len()
        invariant
            i <= wanted.len(),
            files.len() == i,
            forall|id: u64, revision: Option<u64>| #[trigger] call_requires(*read, (id, revision)),
            forall|k: int|
                0 <= k < i ==> call_ensures(
                    *read,
                    (wanted@[k].0, wanted@[k].1),
                    #[trigger] files@[k],
                ),
        decreases wanted.len() - i,
    {
        let page: (u64, Option<u64>) = wanted[i];
        let found: PageFiles = read(page.0, page.1);
        files.push(found);
        i = i + 1;
    }
    files
}

/// The pages that a manifest lists, each with the revision of its files.
pub open spec fn listed_pages(manifest: ManifestModel) -> Seq<(u64, Option<u64>)> {
    Seq::new(
        manifest.page_ids.len(),
        |i: int| (manifest.page_ids[i], manifest.revision(manifest.page_ids[i])),
    )
}

fn pages_of(manifest: &Manifest) -> (r: Vec<(u64, Option<u64>)>)
    ensures
        r@ == listed_pages(manifest@),
{
    let mut pages: Vec<(u64, Option<u64>)> = Vec::new();
    let mut i: usize = 0;
    while i < manifest.page_ids.len()
        invariant
            i <= manifest.page_ids.len(),
            pages@ == listed_pages(manifest@).take(i as int),
        decreases manifest.page_ids.len() - i,
    {
        let id: u64 = manifest.page_ids[i];
        pages.push((id, revision_in(&manifest.page_revisions, id)));
        i = i + 1;
        assert(pages@ =~= listed_pages(manifest@).take(i as int));
    }
    assert(listed_pages(manifest@).take(i as int) =~= listed_pages(manifest@));
    pages
}

/// Whether a session is the one that a manifest and the files of its pages make.
pub open spec fn is_loaded<F: Fn(u64, Option<u64>) -> PageFiles>(
    read: F,
    manifest: ManifestModel,
    files: Seq<PageFiles>,
    session: Option<SessionModel>,
) -> bool {
    &&& were_read(read, listed_pages(manifest), files)
    &&& session == loaded(manifest, files_models(files))
}

/// Whether a session and its manifest are made of the page files with these names.
pub open spec fn is_salvaged<F: Fn(u64, Option<u64>) -> PageFiles>(
    read: F,
    names: Seq<String>,
    found: Seq<(u64, Option<u64>)>,
    files: Seq<PageFiles>,
    now: u64,
    session: Option<SessionModel>,
    manifest: Option<ManifestModel>,
) -> bool {
    &&& are_latest(names, found)
    &&& were_read(read, found, files)
    &&& match salvaged(found, files_models(files), now) {
        None => session is None && manifest is None,
        Some((kept, new)) => session == Some(kept) && manifest == Some(new),
    }
}

/// What is found of a session that was kept, whatever its files hold: nothing where none
/// was; what the manifest lists; or, beside an unreadable manifest, what the page files
/// make.
pub open spec fn existing_may_be<
    F: Fn(u64, Option<u64>) -> PageFiles,
    N: Fn() -> Option<Vec<String>>,
>(
    state: ManifestState,
    read: F,
    list_names: N,
    now: u64,
    session: Option<SessionModel>,
    manifest: Option<ManifestModel>,
) -> bool {
    match state {
        ManifestState::Missing => session is None && manifest is None,
        ManifestState::Parsed(kept) => {
            &&& manifest is None
            &&& exists|files: Seq<PageFiles>| #[trigger] is_loaded(read, kept@, files, session)
        },
        ManifestState::Corrupt => {
            ||| {
                &&& call_ensures(list_names, (), None::<Vec<String>>)
                &&& session is None
                &&& manifest is None
            }
            ||| exists|names: Vec<String>, found: Seq<(u64, Option<u64>)>, files: Seq<PageFiles>|
                #[trigger] is_salvaged(read, names@, found, files, now, session, manifest)
                    && call_ensures(list_names, (), Some(names))
        },
    }
}

/// Finds the session that was kept. A manifest that comes with it is to be written.
pub fn load_existing<
    F: Fn(u64, Option<u64>) -> PageFiles,
    N: Fn() -> Option<Vec<String>>,
>(state: ManifestState, read: F, list_names: N, now: u64) -> (r: (
    Option<RecoveredSession>,
    Option<Manifest>,
))
    requires
        forall|id: u64, revision: Option<u64>| #[trigger] call_requires(read, (id, revision)),
        call_requires(list_names, ()),
    ensures
        existing_may_be(
            state,
            read,
            list_names,
            now,
            session_model(r.0),
            manifest_option(r.1),
        ),
{
    match state {
        ManifestState::Missing => (None, None),
        ManifestState::Parsed(manifest) => {
            let wanted: Vec<(u64, Option<u64>)> = pages_of(&manifest);
            let files: Vec<PageFiles> = read_pages(&wanted, &read);
            let ghost kept = manifest@;
            let ghost all = files@;
            let session: Option<RecoveredSession> = load_from_manifest(manifest, files);
            assert(is_loaded(read, kept, all, session_model(session)));
            (session, None)
        },
        ManifestState::Corrupt => {
            let listed: Option<Vec<String>> = list_names();
            match listed {
                None => (None, None),
                Some(names) => {
                    let found: Vec<(u64, Option<u64>)> = orphan_revisions(&names);
                    let files: Vec<PageFiles> = read_pages(&found, &read);
                    let ghost all = files@;
                    let r: (Option<RecoveredSession>, Option<Manifest>) =
                        match salvage_orphan_pages(&found, files, now) {
                        Some((session, manifest)) => (Some(session), Some(manifest)),
                        None => (None, None),
                    };
                    assert(is_salvaged(
                        read,
                        names@,
                        found@,
                        all,
                        now,
                        session_model(r.0),
                        manifest_option(r.1),
                    ));
                    r
                },
            }
        },
    }
}

} // verus!
