use skaner_dokumentow::document::{CropCorners, CropPoint, EncodedPage, PageEncoding};
use skaner_dokumentow::paths::DocPath;
use skaner_dokumentow::session::{
    load_existing, load_from_manifest, orphan_revisions, salvage_orphan_pages, session_steps,
    FileStep, Manifest, ManifestState, PageFiles, PageMetadata, RecoveredSession, SessionCommand,
    SessionStore,
};
use skaner_dokumentow::session_names::{
    page_file_name, parse_session_file_name, PageFile, SessionFileKind,
};
use std::collections::BTreeMap;

fn path(text: &str) -> DocPath {
    DocPath::new("", text.split('/').map(str::to_owned).collect())
}

fn copied(manifest: &Manifest) -> Manifest {
    Manifest {
        folder_path: manifest.folder_path.copy(),
        started_at: manifest.started_at,
        page_ids: manifest.page_ids.clone(),
        page_revisions: manifest.page_revisions.clone(),
    }
}

/// The folder of a session, in memory.
struct Folder {
    manifest: Option<Manifest>,
    bytes: BTreeMap<String, Vec<u8>>,
    metadata: BTreeMap<String, PageMetadata>,
}

impl Folder {
    fn new() -> Self {
        Folder { manifest: None, bytes: BTreeMap::new(), metadata: BTreeMap::new() }
    }

    fn store(&self) -> SessionStore {
        SessionStore { manifest: self.manifest.as_ref().map(copied) }
    }

    fn perform(&mut self, steps: Result<Vec<FileStep>, String>) -> Result<(), String> {
        for step in steps? {
            match step {
                FileStep::Clear => *self = Folder::new(),
                FileStep::CreateFolder => {}
                FileStep::WriteBytes { name, bytes } => {
                    self.bytes.insert(name, bytes);
                }
                FileStep::WriteMetadata { name, metadata } => {
                    self.metadata.insert(name, metadata);
                }
                FileStep::WriteManifest { manifest } => self.manifest = Some(manifest),
                FileStep::Remove { name } => {
                    self.bytes.remove(&name);
                    self.metadata.remove(&name);
                }
            }
        }
        Ok(())
    }

    fn begin(&mut self, folder: &str) {
        let steps = self.store().begin(path(folder), 1);
        self.perform(steps).expect("begin");
    }

    fn write_page(&mut self, id: u64, page: EncodedPage, original: &[u8], turns: u8) -> Result<(), String> {
        let steps = self.store().write_page(id, page, original.to_vec(), corners(), turns);
        self.perform(steps)
    }

    fn clear(&mut self) {
        let steps = self.store().clear();
        self.perform(steps).expect("clear");
    }

    fn files(&self, id: u64, revision: Option<u64>) -> PageFiles {
        let held = |file: PageFile| self.bytes.get(&page_file_name(id, revision, file)).cloned();
        PageFiles {
            jpeg: held(PageFile::Jpeg),
            g4: held(PageFile::G4),
            original: held(PageFile::Original),
            metadata: self
                .metadata
                .get(&page_file_name(id, revision, PageFile::Metadata))
                .copied(),
        }
    }

    fn load_existing(&mut self) -> Option<RecoveredSession> {
        let state = match &self.manifest {
            Some(manifest) => ManifestState::Parsed(copied(manifest)),
            None => ManifestState::Corrupt,
        };
        let names = || Some(self.bytes.keys().chain(self.metadata.keys()).cloned().collect());
        let read = |id: u64, revision: Option<u64>| self.files(id, revision);
        let (session, manifest) = load_existing(state, read, names, 2);
        self.manifest = manifest.or(self.manifest.take());
        session
    }

    fn holds(&self, id: u64, revision: Option<u64>, file: PageFile) -> bool {
        self.bytes.contains_key(&page_file_name(id, revision, file))
    }
}

fn jpeg(bytes: &[u8]) -> EncodedPage {
    EncodedPage { bytes: bytes.to_vec(), encoding: PageEncoding::Jpeg, width: 80, height: 120 }
}

fn g4(bytes: &[u8]) -> EncodedPage {
    EncodedPage { bytes: bytes.to_vec(), encoding: PageEncoding::G4, width: 2480, height: 3508 }
}

fn point(x: f32, y: f32) -> CropPoint {
    CropPoint::new(x.to_bits(), y.to_bits())
}

fn corners() -> CropCorners {
    CropCorners {
        top_left: point(0.1, 0.2),
        top_right: point(0.9, 0.2),
        bottom_right: point(0.9, 0.8),
        bottom_left: point(0.1, 0.8),
    }
}

fn bytes_of(session: &RecoveredSession, index: usize) -> Option<&[u8]> {
    session.pages[index].page.as_ref().map(|page| page.bytes.as_slice())
}

fn ids(session: &RecoveredSession) -> Vec<u64> {
    session.pages.iter().map(|page| page.id).collect()
}

#[test]
fn empty_session_loads_as_none() {
    let mut store = Folder::new();
    store.begin("D:/dokumenty/faktury");
    assert!(store.load_existing().is_none());
    store.clear();
}

#[test]
fn roundtrip_preserves_pages_order_and_folder() {
    let mut store = Folder::new();
    let folder = "D:/dokumenty/umowy";
    store.begin(folder);
    store.write_page(5, jpeg(b"piata-strona"), b"oryginal-5", 1).expect("write 5");
    store.write_page(9, jpeg(b"dziewiata-strona"), b"oryginal-9", 0).expect("write 9");
    let recovered = store.load_existing().expect("session");
    assert!(recovered.folder_path.same(&path(folder)));
    assert_eq!(recovered.pages[0].id, 5);
    assert_eq!(bytes_of(&recovered, 0), Some(b"piata-strona".as_slice()));
    assert_eq!(recovered.pages[0].original_jpeg.as_deref(), Some(b"oryginal-5".as_slice()));
    assert_eq!(recovered.pages[0].corners, Some(corners()));
    assert_eq!(recovered.pages[0].quarter_turns, 1);
    assert_eq!(recovered.pages[1].id, 9);
    store.clear();
    assert!(store.load_existing().is_none());
}

#[test]
fn remove_and_reorder_update_manifest() {
    let mut store = Folder::new();
    store.begin("D:/dokumenty");
    store.write_page(1, jpeg(b"a"), b"oa", 0).expect("write 1");
    store.write_page(2, jpeg(b"b"), b"ob", 0).expect("write 2");
    store.write_page(3, jpeg(b"c"), b"oc", 0).expect("write 3");
    let steps = store.store().remove_page(2);
    store.perform(steps).expect("remove");
    let steps = store.store().set_order(vec![3, 1]);
    store.perform(steps).expect("reorder");
    let recovered = store.load_existing().expect("session");
    assert_eq!(ids(&recovered), vec![3, 1]);
    assert!(!store.holds(2, Some(1), PageFile::Jpeg), "the files of a removed page go");
    store.clear();
}

#[test]
fn write_without_manifest_errors_without_panic() {
    let mut store = Folder::new();
    assert!(store.write_page(1, jpeg(b"x"), b"ox", 0).is_err());
    store.clear();
}

#[test]
fn every_change_but_begin_and_clear_needs_a_session() {
    let none = || SessionStore { manifest: None };
    assert_eq!(none().remove_page(1).unwrap_err(), "Brak manifestu sesji.");
    assert_eq!(none().set_order(vec![1]).unwrap_err(), "Brak manifestu sesji.");
    assert_eq!(none().set_folder(path("a")).unwrap_err(), "Brak manifestu sesji.");
    assert!(none().begin(path("a"), 3).is_ok());
    assert!(session_steps(SessionCommand::Clear, None, 0).is_ok());
}

#[test]
fn the_folder_of_a_session_can_change() {
    let mut store = Folder::new();
    store.begin("D:/a");
    store.write_page(1, jpeg(b"x"), b"ox", 0).expect("write");
    let steps = store.store().set_folder(path("D:/b"));
    store.perform(steps).expect("set folder");
    let recovered = store.load_existing().expect("session");
    assert!(recovered.folder_path.same(&path("D:/b")));
    assert_eq!(ids(&recovered), vec![1]);
}

#[test]
fn rewriting_same_id_keeps_single_entry() {
    let mut store = Folder::new();
    store.begin("D:/dokumenty");
    store.write_page(4, jpeg(b"stara"), b"oryginal", 0).expect("write");
    store.write_page(4, jpeg(b"nowa"), b"oryginal", 0).expect("rewrite");
    let manifest = store.manifest.as_ref().expect("manifest");
    assert_eq!(manifest.page_revisions.get(&4), Some(&2));
    assert!(!store.holds(4, Some(1), PageFile::Jpeg));
    assert!(store.holds(4, Some(2), PageFile::Jpeg));
    let recovered = store.load_existing().expect("session");
    assert_eq!(recovered.pages.len(), 1);
    assert_eq!(recovered.pages[0].id, 4);
    assert_eq!(bytes_of(&recovered, 0), Some(b"nowa".as_slice()));
    store.clear();
}

#[test]
fn legacy_page_without_original_still_loads() {
    let mut store = Folder::new();
    store.begin("D:/dokumenty");
    store.bytes.insert(page_file_name(7, None, PageFile::Jpeg), b"stary-format".to_vec());
    store.manifest.as_mut().expect("manifest").page_ids.push(7);

    let recovered = store.load_existing().expect("session");
    assert_eq!(recovered.pages.len(), 1);
    assert_eq!(bytes_of(&recovered, 0), Some(b"stary-format".as_slice()));
    assert_eq!(recovered.pages[0].original_jpeg, None);
    assert_eq!(recovered.pages[0].corners, None);
    assert_eq!(recovered.pages[0].quarter_turns, 0);
    store.clear();
}

fn old_metadata(quarter_turns: u8, format: u8) -> PageMetadata {
    PageMetadata {
        corners: corners(),
        quarter_turns,
        format,
        encoding: PageEncoding::Jpeg,
        width: 0,
        height: 0,
    }
}

#[test]
fn legacy_format_zero_metadata_never_reapplies_rotation() {
    let mut store = Folder::new();
    store.begin("D:/dokumenty");
    store.bytes.insert(page_file_name(4, None, PageFile::Jpeg), b"obrocony-jpeg".to_vec());
    // Legacy metadata (no `format` field): the stored JPEG already contains the rotation.
    store.metadata.insert(page_file_name(4, None, PageFile::Metadata), old_metadata(3, 0));
    store.manifest.as_mut().expect("manifest").page_ids.push(4);

    let recovered = store.load_existing().expect("session");
    assert_eq!(recovered.pages.len(), 1);
    assert_eq!(recovered.pages[0].quarter_turns, 0);
    assert!(recovered.pages[0].corners.is_some());
    store.clear();
}

#[test]
fn corrupt_manifest_salvages_pages_instead_of_discarding() {
    let mut store = Folder::new();
    store.begin("D:/dokumenty");
    store.write_page(3, jpeg(b"trzecia"), b"oryginal-3", 1).expect("write 3");
    store.write_page(8, jpeg(b"osma"), b"oryginal-8", 0).expect("write 8");
    store.manifest = None;

    let recovered = store.load_existing().expect("salvage");
    assert!(recovered.folder_path.parts.is_empty());
    assert_eq!(ids(&recovered), vec![3, 8]);
    assert_eq!(bytes_of(&recovered, 0), Some(b"trzecia".as_slice()));
    assert_eq!(recovered.pages[0].corners, Some(corners()));
    assert_eq!(recovered.pages[0].quarter_turns, 1);
    assert_eq!(recovered.highest_page_id, 8);
    // Salvage rebuilds the manifest so the restored session keeps persisting.
    store.write_page(9, jpeg(b"dziewiata"), b"o9", 0).expect("write after salvage");
    store.clear();
}

#[test]
fn highest_page_id_includes_pages_with_lost_files() {
    let mut store = Folder::new();
    store.begin("D:/dokumenty");
    store.write_page(2, jpeg(b"a"), b"oa", 0).expect("write 2");
    store.write_page(7, jpeg(b"b"), b"ob", 0).expect("write 7");
    let revision = store.manifest.as_ref().expect("manifest").page_revisions.get(&7).copied();
    for file in [PageFile::Jpeg, PageFile::G4, PageFile::Original, PageFile::Metadata] {
        store.bytes.remove(&page_file_name(7, revision, file));
        store.metadata.remove(&page_file_name(7, revision, file));
    }

    let recovered = store.load_existing().expect("session");
    assert_eq!(recovered.pages.len(), 1);
    assert_eq!(recovered.skipped_pages, 1);
    assert_eq!(recovered.highest_page_id, 7);
    store.clear();
}

fn is_page(page: &Option<EncodedPage>, expected: &EncodedPage) -> bool {
    page.as_ref().is_some_and(|page| {
        page.bytes == expected.bytes
            && page.encoding == expected.encoding
            && page.width == expected.width
            && page.height == expected.height
    })
}

#[test]
fn g4_page_round_trips_with_encoding_and_dimensions() {
    let mut store = Folder::new();
    store.begin("D:/dokumenty");
    store.write_page(2, g4(b"g4-bajty"), b"oryginal", 1).expect("write");
    assert!(store.holds(2, Some(1), PageFile::G4));
    assert!(!store.holds(2, Some(1), PageFile::Jpeg), "no .jpg for a G4 page");
    let recovered = store.load_existing().expect("session");
    assert!(is_page(&recovered.pages[0].page, &g4(b"g4-bajty")));
    assert_eq!(recovered.pages[0].quarter_turns, 1);
    store.clear();
}

#[test]
fn format_one_metadata_still_restores_as_jpeg() {
    let mut store = Folder::new();
    store.begin("D:/dokumenty");
    store.bytes.insert(page_file_name(4, None, PageFile::Jpeg), b"jpeg-bajty".to_vec());
    store.metadata.insert(page_file_name(4, None, PageFile::Metadata), old_metadata(2, 1));
    store.manifest.as_mut().expect("manifest").page_ids.push(4);
    let recovered = store.load_existing().expect("session");
    let page = recovered.pages[0].page.as_ref().expect("page");
    assert_eq!(page.encoding, PageEncoding::Jpeg);
    assert_eq!(page.bytes, b"jpeg-bajty");
    assert_eq!(
        (page.width, page.height),
        (0, 0),
        "legacy dims are unknown here; the app reads them from the JPEG"
    );
    assert_eq!(recovered.pages[0].quarter_turns, 2);
    store.clear();
}

#[test]
fn orphan_g4_without_metadata_is_skipped_not_guessed() {
    let mut store = Folder::new();
    store.begin("D:/dokumenty");
    store.write_page(3, g4(b"g4"), b"o3", 0).expect("write 3");
    store.write_page(5, jpeg(b"jpg"), b"o5", 0).expect("write 5");
    let dropped = store.metadata.remove(&page_file_name(3, Some(1), PageFile::Metadata));
    assert!(dropped.is_some(), "drop metadata of 3");
    store.manifest = None;
    let recovered = store.load_existing().expect("salvage");
    assert_eq!(ids(&recovered), vec![3, 5]);
    assert!(recovered.pages[0].page.is_none(), "G4 bytes without dims are unusable");
    assert_eq!(recovered.pages[0].original_jpeg.as_deref(), Some(b"o3".as_slice()));
    assert!(is_page(&recovered.pages[1].page, &jpeg(b"jpg")));
    store.clear();
}

#[test]
fn missing_processed_page_keeps_recoverable_original() {
    let mut store = Folder::new();
    store.begin("D:/dokumenty");
    store.bytes.insert(page_file_name(11, None, PageFile::Original), b"oryginal".to_vec());
    store.manifest.as_mut().expect("manifest").page_ids.push(11);

    let recovered = store.load_existing().expect("session");
    assert_eq!(recovered.pages.len(), 1);
    assert!(recovered.pages[0].page.is_none());
    assert_eq!(recovered.pages[0].original_jpeg.as_deref(), Some(b"oryginal".as_slice()));
    assert_eq!(recovered.skipped_pages, 0);
    store.clear();
}

#[test]
fn names_say_what_a_file_holds() {
    assert_eq!(page_file_name(4, None, PageFile::Jpeg), "4.jpg");
    assert_eq!(page_file_name(4, Some(2), PageFile::Metadata), "4.r2.crop.ron");
    for revision in [None, Some(1), Some(27)] {
        for file in [PageFile::Jpeg, PageFile::G4, PageFile::Original, PageFile::Metadata] {
            let name = page_file_name(123_456, revision, file);
            assert_eq!(parse_session_file_name(&name), Some((123_456, revision, file.kind())), "{name}");
        }
    }
    assert_eq!(PageFile::G4.kind(), SessionFileKind::Page);
    assert_eq!(parse_session_file_name("manifest.ron"), None);
    assert_eq!(parse_session_file_name(".r2.jpg"), None);
}

#[test]
fn the_latest_revision_of_a_page_counts() {
    let names = vec![
        page_file_name(3, Some(2), PageFile::Jpeg),
        page_file_name(3, Some(10), PageFile::Original),
        page_file_name(3, None, PageFile::Jpeg),
        page_file_name(1, None, PageFile::G4),
        "manifest.ron".to_owned(),
    ];
    assert_eq!(orphan_revisions(&names), vec![(1, None), (3, Some(10))]);
}

#[test]
fn nothing_is_found_where_no_session_was_kept() {
    let read = |_: u64, _: Option<u64>| -> PageFiles { panic!("no page is listed") };
    let (session, manifest) = load_existing(ManifestState::Missing, read, || None, 2);
    assert!(session.is_none() && manifest.is_none());
    let (session, manifest) = load_existing(ManifestState::Corrupt, read, || None, 2);
    assert!(session.is_none() && manifest.is_none());
    assert!(orphan_revisions(&vec!["notatki.txt".to_owned()]).is_empty());
    assert!(salvage_orphan_pages(&Vec::new(), Vec::new(), 2).is_none());
    let empty = Manifest {
        folder_path: path("Akta"),
        started_at: 1,
        page_ids: Vec::new(),
        page_revisions: BTreeMap::new(),
    };
    assert!(load_from_manifest(empty, Vec::new()).is_none());
}
