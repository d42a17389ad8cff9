//! What comes back from the worker that makes pages of photographs.

use vstd::prelude::*;
use crate::document::{CropCorners, PageModel};
use crate::messages::text_option;
use crate::pages::{encode_jpeg, jpeg_outcome, ScannedPage};
use crate::raster::{RasterModel, RgbRaster};
use crate::scan::{
    crash_message, crop_failure, lemma_slot_bounds, lemma_waiting_bounds, slot_of, waiting_count,
    waiting_slot, writes_page, DataModel, Scan, ScanModel, SlotModel,
};
use crate::session::SessionCommand;

verus! {

/// How many photographs can wait for the worker.
pub const QUEUE_CAPACITY: usize = 8;

/// The quality in which photographs are kept.
pub const ORIGINAL_JPEG_QUALITY: u8 = 88;

/// What the worker reports.
#[derive(Debug)]
pub enum PipelineEvent {
    PageReady { id: u64, page: ScannedPage, original_jpeg: Vec<u8>, corners: CropCorners },
    PageFailed { id: u64, original_jpeg: Vec<u8>, error: String },
    ReprocessDone { id: u64, page: ScannedPage, corners: CropCorners },
    ReprocessFailed { id: u64, error: String },
}

pub ghost enum EventModel {
    PageReady {
        id: u64,
        page: PageModel,
        thumbnail: RasterModel,
        original_jpeg: Seq<u8>,
        corners: CropCorners,
    },
    PageFailed { id: u64, original_jpeg: Seq<u8>, error: Seq<char> },
    ReprocessDone { id: u64, page: PageModel, thumbnail: RasterModel, corners: CropCorners },
    ReprocessFailed { id: u64, error: Seq<char> },
}

impl View for PipelineEvent {
    type V = EventModel;

    open spec fn view(&self) -> EventModel {
        match self {
            PipelineEvent::PageReady { id, page, original_jpeg, corners } => EventModel::PageReady {
                id: *id,
                page: page.model(),
                thumbnail: page.review_image@,
                original_jpeg: original_jpeg@,
                corners: *corners,
            },
            PipelineEvent::PageFailed { id, original_jpeg, error } => EventModel::PageFailed {
                id: *id,
                original_jpeg: original_jpeg@,
                error: error@,
            },
            PipelineEvent::ReprocessDone { id, page, corners } => EventModel::ReprocessDone {
                id: *id,
                page: page.model(),
                thumbnail: page.review_image@,
                corners: *corners,
            },
            PipelineEvent::ReprocessFailed { id, error } => EventModel::ReprocessFailed {
                id: *id,
                error: error@,
            },
        }
    }
}

/// The photograph as it is kept beside its page; nothing where it cannot be kept.
pub fn keep_original(frame: &RgbRaster) -> (r: Vec<u8>)
    requires
        frame.wf(),
    ensures
        r@ == match jpeg_outcome(
            frame.pixels@,
            frame.width,
            frame.height,
            ORIGINAL_JPEG_QUALITY,
        ) {
            Ok(bytes) => bytes,
            Err(_) => Seq::empty(),
        },
{
    match encode_jpeg(frame, ORIGINAL_JPEG_QUALITY) {
        Ok(bytes) => bytes,
        Err(_) => Vec::new(),
    }
}

/// Reports what became of a photograph.
pub fn page_event(
    id: u64,
    original_jpeg: Vec<u8>,
    corners: CropCorners,
    made: Result<ScannedPage, String>,
) -> (r: PipelineEvent)
    ensures
        r@ == match made {
            Ok(page) => EventModel::PageReady {
                id,
                page: page.model(),
                thumbnail: page.review_image@,
                original_jpeg: original_jpeg@,
                corners,
            },
            Err(error) => EventModel::PageFailed {
                id,
                original_jpeg: original_jpeg@,
                error: error@,
            },
        },
{
    match made {
        Ok(page) => PipelineEvent::PageReady { id, page, original_jpeg, corners },
        Err(error) => PipelineEvent::PageFailed { id, original_jpeg, error },
    }
}

/// Reports what became of a new crop.
pub fn reprocess_event(
    id: u64,
    corners: CropCorners,
    made: Result<ScannedPage, String>,
) -> (r: PipelineEvent)
    ensures
        r@ == match made {
            Ok(page) => EventModel::ReprocessDone {
                id,
                page: page.model(),
                thumbnail: page.review_image@,
                corners,
            },
            Err(error) => EventModel::ReprocessFailed { id, error: error@ },
        },
{
    match made {
        Ok(page) => PipelineEvent::ReprocessDone { id, page, corners },
        Err(error) => PipelineEvent::ReprocessFailed { id, error },
    }
}

impl EventModel {
    pub open spec fn id(self) -> u64 {
        match self {
            EventModel::PageReady { id, .. } => id,
            EventModel::PageFailed { id, .. } => id,
            EventModel::ReprocessDone { id, .. } => id,
            EventModel::ReprocessFailed { id, .. } => id,
        }
    }

    /// What the event makes of the document.
    pub open spec fn applied(self, scan: ScanModel) -> ScanModel {
        match self {
            EventModel::PageReady { id, page, thumbnail, original_jpeg, corners } =>
                scan.page_ready(
                id,
                DataModel { page, thumbnail, original_jpeg, corners, quarter_turns: 0 },
            ),
            EventModel::PageFailed { id, original_jpeg, error } => scan.page_failed(
                id,
                original_jpeg,
                error,
            ),
            EventModel::ReprocessDone { id, page, thumbnail, corners } => scan.reprocessed(
                id,
                page,
                thumbnail,
                corners,
            ),
            EventModel::ReprocessFailed { id, error } => scan.reprocess_failed(id, error),
        }
    }

    /// Where the page stands that the event is about; the length where there is none.
    pub open spec fn place(self, scan: ScanModel) -> int {
        match self {
            EventModel::PageReady { id, .. } => waiting_slot(scan.slots, id),
            _ => slot_of(scan.slots, self.id()),
        }
    }

    /// Whether the event finishes a page, which is then to be kept.
    pub open spec fn finishes(self, scan: ScanModel) -> bool {
        let i = self.place(scan);
        match self {
            EventModel::PageReady { .. } => i < scan.slots.len(),
            EventModel::ReprocessDone { .. } => i < scan.slots.len()
                && scan.slots[i].slot is Reprocessing,
            _ => false,
        }
    }

    /// What is said of the event.
    pub open spec fn message(self, scan: ScanModel) -> Option<Seq<char>> {
        let i = slot_of(scan.slots, self.id());
        match self {
            EventModel::ReprocessFailed { id, error } => if i < scan.slots.len()
                && scan.slots[i].slot is Reprocessing {
                Some(crop_failure(scan.slots[i].slot->Reprocessing_previous is Some, error))
            } else {
                None
            },
            _ => None,
        }
    }
}

/// Whether a command keeps the page that an event finished.
pub open spec fn keeps_finished(
    command: SessionCommand,
    event: EventModel,
    before: ScanModel,
) -> bool {
    writes_page(
        command,
        event.id(),
        event.applied(before).slots[event.place(before)].slot->Ready_0,
    )
}

/// What an event leaves to be done.
#[derive(Debug)]
pub struct EventOutcome {
    pub command: Option<SessionCommand>,
    pub message: Option<String>,
}

/// Takes an event in.
pub fn apply_event(scan: &mut Scan, event: PipelineEvent) -> (r: EventOutcome)
    requires
        forall|i: int|
            0 <= i < old(scan)@.slots.len() ==> (#[trigger] old(scan)@.slots[i]).revision
                < u64::MAX,
    ensures
        final(scan)@ == event@.applied(old(scan)@),
        old(scan)@.wf() ==> final(scan)@.wf(),
        r.command is Some == event@.finishes(old(scan)@),
        r.command matches Some(command) ==> keeps_finished(command, event@, old(scan)@),
        text_option(r.message) == event@.message(old(scan)@),
{
    let ghost before = scan@;
    let ghost news = event@;
    proof {
        lemma_slot_bounds(before.slots, news.id(), 0);
        lemma_waiting_bounds(before.slots, news.id(), 0);
    }
    match event {
        PipelineEvent::PageReady { id, page, original_jpeg, corners } => {
            let command: Option<SessionCommand> = scan.page_ready(
                id,
                page,
                original_jpeg,
                corners,
            );
            EventOutcome { command, message: None }
        },
        PipelineEvent::PageFailed { id, original_jpeg, error } => {
            scan.page_failed(id, original_jpeg, error);
            EventOutcome { command: None, message: None }
        },
        PipelineEvent::ReprocessDone { id, page, corners } => {
            let command: Option<SessionCommand> = scan.reprocess_done(id, page, corners);
            EventOutcome { command, message: None }
        },
        PipelineEvent::ReprocessFailed { id, error } => {
            let message: Option<String> = scan.reprocess_failed(id, error);
            EventOutcome { command: None, message }
        },
    }
}

pub open spec fn event_models(events: Seq<PipelineEvent>) -> Seq<EventModel> {
    events.map_values(|event: PipelineEvent| event@)
}

/// The document after the first `n` events.
pub open spec fn all_applied(scan: ScanModel, events: Seq<EventModel>, n: nat) -> ScanModel
    decreases n,
{
    if n == 0 {
        scan
    } else {
        events[n - 1].applied(all_applied(scan, events, (n - 1) as nat))
    }
}

/// What was said last of the first `n` events.
pub open spec fn last_message(scan: ScanModel, events: Seq<EventModel>, n: nat) -> Option<Seq<char>>
    decreases n,
{
    if n == 0 {
        None
    } else {
        match events[n - 1].message(all_applied(scan, events, (n - 1) as nat)) {
            Some(text) => Some(text),
            None => last_message(scan, events, (n - 1) as nat),
        }
    }
}

/// Whether commands keep the pages that the first `n` events finished, in order.
pub open spec fn all_kept(
    scan: ScanModel,
    events: Seq<EventModel>,
    n: nat,
    commands: Seq<SessionCommand>,
) -> bool
    decreases n,
{
    if n == 0 {
        commands.len() == 0
    } else {
        let before = all_applied(scan, events, (n - 1) as nat);
        if events[n - 1].finishes(before) {
            &&& commands.len() > 0
            &&& all_kept(scan, events, (n - 1) as nat, commands.drop_last())
            &&& keeps_finished(commands.last(), events[n - 1], before)
        } else {
            all_kept(scan, events, (n - 1) as nat, commands)
        }
    }
}

/// An event raises the revision of a page by one at most.
proof fn lemma_event_revisions(event: EventModel, scan: ScanModel, limit: u64)
    requires
        limit < u64::MAX,
        forall|i: int| 0 <= i < scan.slots.len() ==> (#[trigger] scan.slots[i]).revision <= limit,
    ensures
        event.applied(scan).slots.len() == scan.slots.len(),
        forall|i: int|
            0 <= i < scan.slots.len() ==> (#[trigger] event.applied(scan).slots[i]).revision
                <= limit + 1,
{
    lemma_slot_bounds(scan.slots, event.id(), 0);
    lemma_waiting_bounds(scan.slots, event.id(), 0);
    let after = event.applied(scan).slots;
    assert forall|i: int| 0 <= i < scan.slots.len() implies (#[trigger] after[i]).revision <= limit
        + 1 by {
        assert(scan.slots[i].revision <= limit);
    }
}

/// Takes in what the worker has reported. `dead` says that the worker was gone before its
/// last reports were read: then no page waits for it any longer. What is to be kept and what
/// is to be said comes back.
pub fn poll_pipeline(scan: &mut Scan, events: Vec<PipelineEvent>, dead: bool) -> (r: (
    Vec<SessionCommand>,
    Option<String>,
))
    requires
        forall|i: int|
            0 <= i < old(scan)@.slots.len() ==> (#[trigger] old(scan)@.slots[i]).revision
                + events.len() <= u64::MAX,
    ensures
        ({
            let models = event_models(events@);
            let taken = all_applied(old(scan)@, models, models.len());
            &&& final(scan)@ == if dead {
                taken.recovered()
            } else {
                taken
            }
            &&& all_kept(old(scan)@, models, models.len(), r.0@)
            &&& text_option(r.1) == if dead {
                Some(crash_message(waiting_count(taken.slots, taken.slots.len())))
            } else {
                last_message(old(scan)@, models, models.len())
            }
        }),
        old(scan)@.wf() ==> final(scan)@.wf(),
{
    let ghost before = scan@;
    let ghost models = event_models(events@);
    let ghost all = events@;
    let total: usize = events.len();
    let mut events: Vec<PipelineEvent> = events;
    let mut commands: Vec<SessionCommand> = Vec::new();
    let mut said: Option<String> = None;
    let mut i: usize = 0;
    let ghost limit: int = u64::MAX - total;
    while i < total
        invariant
            i <= total,
            total == all.len(),
            models == event_models(all),
            events.len() == total - i,
            forall|k: int| 0 <= k < total - i ==> #[trigger] events@[k] == all[i + k],
            limit == u64::MAX - total,
            scan@ == all_applied(before, models, i as nat),
            before.wf() ==> scan@.wf(),
            forall|k: int|
                0 <= k < scan@.slots.len() ==> (#[trigger] scan@.slots[k]).revision <= limit + i,
            all_kept(before, models, i as nat, commands@),
            text_option(said) == last_message(before, models, i as nat),
        decreases total - i,
    {
        assert(events@[0] == all[i + 0]);
        let event: PipelineEvent = events.remove(0);
        assert(models[i as int] == event@);
        proof {
            lemma_event_revisions(event@, scan@, (limit + i) as u64);
        }
        let outcome: EventOutcome = apply_event(scan, event);
        if let Some(command) = outcome.command {
            let ghost kept = commands@;
            commands.push(command);
            assert(commands@.drop_last() =~= kept);
        }
        if outcome.message.is_some() {
            said = outcome.message;
        }
        assert forall|k: int| 0 <= k < total - (i + 1) implies #[trigger] events@[k] == all[(i + 1)
            + k] by {
            assert(events@[k] == all[i + (k + 1)]);
        }
        i = i + 1;
    }
    if dead {
        said = Some(scan.recover_dead_pipeline());
    }
    (commands, said)
}

/// While no worker has crashed, a photograph that was taken is never lost: its page stands
/// where it stood after every report.
pub proof fn law_reports_lose_no_page(event: EventModel, scan: ScanModel)
    ensures
        event.applied(scan).slots.len() == scan.slots.len(),
        forall|i: int|
            0 <= i < scan.slots.len() ==> (#[trigger] event.applied(scan).slots[i]).id
                == scan.slots[i].id,
{
    lemma_slot_bounds(scan.slots, event.id(), 0);
    lemma_waiting_bounds(scan.slots, event.id(), 0);
}

/// A report on a page that is not there, or that no longer waits for its photograph,
/// changes no page.
pub proof fn law_late_reports_change_no_page(event: EventModel, scan: ScanModel)
    requires
        event.place(scan) == scan.slots.len(),
    ensures
        event.applied(scan).slots == scan.slots,
        !event.finishes(scan),
        event.message(scan) is None,
{
}

} // verus!
