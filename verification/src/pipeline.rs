//! The acquisition pipeline: what of a scan is new, in which batches it is
//! fetched, and which messages the consumer is sent, in which order.

use vstd::prelude::*;
use crate::fetch::{Fetched, FetchedView};
use crate::movie::{views, Movie, MovieView};
use crate::numeral::{decimal, push_decimal};
use crate::scanner::{ScanEntry, ScanEntryView};

verus! {

/// How many entries are fetched at a time.
pub const BATCH_SIZE: usize = 10;

/// A message from the pipeline to its consumer.
#[derive(Debug)]
pub enum Message {
    /// Text to show; nothing else.
    Status(String),
    /// A record to merge into the catalog, with text to show.
    Add(String, Movie),
    /// The last message: no other follows.
    Complete,
}

pub ghost enum MessageView {
    Status(Seq<char>),
    Add(Seq<char>, MovieView),
    Complete,
}

impl View for Message {
    type V = MessageView;

    open spec fn view(&self) -> MessageView {
        match self {
            Message::Status(t) => MessageView::Status(t@),
            Message::Add(t, m) => MessageView::Add(t@, m@),
            Message::Complete => MessageView::Complete,
        }
    }
}

/// The entries of `found` whose path is not among `existing`, in their
/// order.
pub open spec fn fresh_entries(found: Seq<ScanEntryView>, existing: Seq<Seq<char>>) -> Seq<
    ScanEntryView,
>
    decreases found.len(),
{
    if found.len() == 0 {
        Seq::empty()
    } else if existing.contains(found.last().path) {
        fresh_entries(found.drop_last(), existing)
    } else {
        fresh_entries(found.drop_last(), existing).push(found.last())
    }
}

/// Whether `path` is among `existing`.
pub fn is_known(existing: &Vec<String>, path: &String) -> (r: bool)
    ensures
        r == views(existing@).contains(path@),
{
    let mut i: usize = 0;
    while i < existing.len()
        invariant
            i <= existing@.len(),
            forall|j: int| 0 <= j < i ==> (#[trigger] existing@[j])@ != path@,
        decreases existing@.len() - i,
    {
        if existing[i] == *path {
            assert(views(existing@)[i as int] == path@);
            return true;
        }
        i += 1;
    }
    proof {
        let all = views(existing@);
        assert forall|j: int| 0 <= j < all.len() implies all[j] != path@ by {
            assert(all[j] == existing@[j]@);
        }
    }
    false
}

/// Drops from `found` every entry whose path is among `existing`, the
/// paths that the catalog held when the scan began.
pub fn dedup(found: Vec<ScanEntry>, existing: &Vec<String>) -> (r: Vec<ScanEntry>)
    ensures
        views(r@) == fresh_entries(views(found@), views(existing@)),
{
    let ghost all = views(found@);
    let ghost known = views(existing@);
    let mut out: Vec<ScanEntry> = Vec::new();
    assert(views(out@) =~= fresh_entries(all.take(0), known));
    for e in it: found
        invariant
            all == views(found@),
            known == views(existing@),
            views(out@) == fresh_entries(all.take(it.index() as int), known),
            it.seq() == found@,
    {
        proof {
            let i = it.index() as int;
            let t = all.take(i + 1);
            assert(t.drop_last() =~= all.take(i));
            assert(t.last() == e@);
        }
        if !is_known(existing, &e.path) {
            let ghost prior = views(out@);
            out.push(e);
            assert(views(out@) =~= prior.push(e@));
        }
    }
    assert(all.take(all.len() as int) =~= all);
    out
}

/// The text shown while the directory `root` is scanned.
pub open spec fn scanning_text(root: Seq<char>) -> Seq<char> {
    "Scanning: "@ + root + " (including subdirectories)..."@
}

/// The text shown when a scan found nothing new.
pub open spec fn nothing_new_text() -> Seq<char> {
    "No new movies found - all files already in database"@
}

/// The text shown when a scan found `fresh` new files and skipped
/// `skipped` known ones.
pub open spec fn found_text(fresh: nat, skipped: nat) -> Seq<char> {
    "Found "@ + decimal(fresh) + " new video files (skipped "@ + decimal(skipped)
        + " existing), fetching metadata in parallel..."@
}

/// The text shown when the fetch for `title` begins.
pub open spec fn fetching_text(title: Seq<char>) -> Seq<char> {
    "Fetching: "@ + title
}

/// The text shown with the record fetched for `title`.
pub open spec fn added_text(title: Seq<char>, found: bool) -> Seq<char> {
    if found {
        "\u{2713} Found: "@ + title
    } else {
        "\u{26a0} Added without metadata: "@ + title
    }
}

/// The text shown while the directory `root` is scanned.
pub fn scanning_status(root: &str) -> (r: String)
    ensures
        r@ == scanning_text(root@),
{
    let mut t = "Scanning: ".to_owned();
    t.append(root);
    t.append(" (including subdirectories)...");
    t
}

fn found_status(fresh: usize, skipped: usize) -> (r: String)
    ensures
        r@ == found_text(fresh as nat, skipped as nat),
{
    let mut t = "Found ".to_owned();
    push_decimal(&mut t, fresh as u64);
    t.append(" new video files (skipped ");
    push_decimal(&mut t, skipped as u64);
    t.append(" existing), fetching metadata in parallel...");
    t
}

fn fetching_status(title: &str) -> (r: String)
    ensures
        r@ == fetching_text(title@),
{
    let mut t = "Fetching: ".to_owned();
    t.append(title);
    t
}

fn added_status(title: &str, found: bool) -> (r: String)
    ensures
        r@ == added_text(title@, found),
{
    let mut t = if found {
        "\u{2713} Found: ".to_owned()
    } else {
        "\u{26a0} Added without metadata: ".to_owned()
    };
    t.append(title);
    t
}

/// The batch that begins at `from`: the next [`BATCH_SIZE`] pending
/// entries, or as many as are left.
pub open spec fn batch_at(pending: Seq<ScanEntryView>, from: nat) -> Seq<ScanEntryView> {
    if from + BATCH_SIZE <= pending.len() {
        pending.subrange(from as int, from + BATCH_SIZE)
    } else {
        pending.subrange(from as int, pending.len() as int)
    }
}

/// The messages that announce the fetches of a batch, in its order.
pub open spec fn announcements(batch: Seq<ScanEntryView>) -> Seq<MessageView> {
    batch.map_values(|e: ScanEntryView| MessageView::Status(fetching_text(e.title)))
}

/// How many batches `pending` entries make.
pub open spec fn batch_count(pending: nat) -> nat {
    (pending + BATCH_SIZE - 1) as nat / (BATCH_SIZE as nat)
}

/// What the pipeline hands out in one step: the messages to send to the
/// consumer, in this order, and the entries whose fetches begin now.
#[derive(Debug)]
pub struct Step {
    pub messages: Vec<Message>,
    pub dispatch: Vec<ScanEntry>,
}

pub ghost struct StepView {
    pub messages: Seq<MessageView>,
    pub dispatch: Seq<ScanEntryView>,
}

impl View for Step {
    type V = StepView;

    open spec fn view(&self) -> StepView {
        StepView { messages: views(self.messages@), dispatch: views(self.dispatch@) }
    }
}

/// The state of a pipeline.
pub ghost struct PipelineState {
    /// Whether the scan is still under way.
    pub scanning: bool,
    /// The paths that the catalog held when the scan began.
    pub existing: Seq<Seq<char>>,
    /// The new entries, in the order of the scan; none while scanning.
    pub pending: Seq<ScanEntryView>,
    /// How many of them have had their fetch begun: a prefix of `pending`.
    pub dispatched: nat,
    /// How many fetches have ended, each with its record sent.
    pub finished: nat,
}

impl PipelineState {
    /// Where the batch under way begins.
    pub open spec fn batch_start(self) -> nat {
        if self.dispatched == 0 {
            0
        } else {
            ((self.dispatched - 1) / (BATCH_SIZE as int) * BATCH_SIZE) as nat
        }
    }

    /// What holds of every pipeline: fetches begin batch by batch, and
    /// every batch before the one under way has ended.
    pub open spec fn valid(self) -> bool {
        &&& self.scanning ==> self.pending.len() == 0
        &&& self.finished <= self.dispatched <= self.pending.len()
        &&& self.dispatched == self.pending.len() || self.dispatched % (BATCH_SIZE as nat) == 0
        &&& self.batch_start() <= self.finished
        &&& self.finished < self.dispatched || self.dispatched == self.pending.len()
    }

    /// The scan has ended, and every new entry has been fetched and its
    /// record sent.
    pub open spec fn complete(self) -> bool {
        !self.scanning && self.finished == self.pending.len()
    }

    /// The pipeline of a scan that begins while the catalog holds the paths
    /// `existing`.
    pub open spec fn created(existing: Seq<Seq<char>>) -> PipelineState {
        PipelineState {
            scanning: true,
            existing,
            pending: Seq::empty(),
            dispatched: 0,
            finished: 0,
        }
    }

    /// The pipeline after the scan ended with `found`, and the step this
    /// makes; nothing happens unless the scan was under way.
    pub open spec fn scanned(self, found: Seq<ScanEntryView>) -> (PipelineState, StepView) {
        if self.scanning {
            PipelineState::started(found, self.existing)
        } else {
            (self, StepView { messages: Seq::empty(), dispatch: Seq::empty() })
        }
    }

    /// How many fetches are under way.
    pub open spec fn in_flight(self) -> nat {
        (self.dispatched - self.finished) as nat
    }

    /// The pipeline for what a scan found, deduplicated against the paths
    /// that the catalog held when the scan began, and its first step: with
    /// nothing new it is complete at once; else the first batch begins.
    pub open spec fn started(found: Seq<ScanEntryView>, existing: Seq<Seq<char>>) -> (
        PipelineState,
        StepView,
    ) {
        let pending = fresh_entries(found, existing);
        if pending.len() == 0 {
            (
                PipelineState { scanning: false, existing, pending, dispatched: 0, finished: 0 },
                StepView {
                    messages: seq![
                        MessageView::Status(nothing_new_text()),
                        MessageView::Complete,
                    ],
                    dispatch: Seq::empty(),
                },
            )
        } else {
            let batch = batch_at(pending, 0);
            (
                PipelineState {
                    scanning: false,
                    existing,
                    pending,
                    dispatched: batch.len(),
                    finished: 0,
                },
                StepView {
                    messages: seq![
                        MessageView::Status(
                            found_text(pending.len(), (found.len() - pending.len()) as nat),
                        ),
                    ] + announcements(batch),
                    dispatch: batch,
                },
            )
        }
    }

    /// The pipeline after the fetch for `title` ended with `fetched`, and
    /// the step this makes: the record is sent; when that ends the batch,
    /// the next batch begins, or, after the last batch, the completion
    /// message follows. With no fetch under way nothing happens.
    pub open spec fn fetched(self, title: Seq<char>, fetched: FetchedView) -> (
        PipelineState,
        StepView,
    ) {
        let add = MessageView::Add(added_text(title, fetched.found), fetched.movie);
        if self.finished >= self.dispatched {
            (self, StepView { messages: Seq::empty(), dispatch: Seq::empty() })
        } else if self.finished + 1 < self.dispatched {
            (
                PipelineState { finished: self.finished + 1, ..self },
                StepView { messages: seq![add], dispatch: Seq::empty() },
            )
        } else if self.dispatched < self.pending.len() {
            let batch = batch_at(self.pending, self.dispatched);
            (
                PipelineState {
                    dispatched: self.dispatched + batch.len(),
                    finished: self.finished + 1,
                    ..self
                },
                StepView { messages: seq![add] + announcements(batch), dispatch: batch },
            )
        } else {
            (
                PipelineState { finished: self.finished + 1, ..self },
                StepView { messages: seq![add, MessageView::Complete], dispatch: Seq::empty() },
            )
        }
    }
}

/// Where a pipeline stands.
#[derive(Clone, Copy, Debug, PartialEq, Eq, Structural)]
pub enum Phase {
    /// The directories are being scanned. Deduplication follows within the
    /// step that ends the scan.
    Scanning,
    /// Batch `batch` of `of` is being fetched, counted from 1. Draining
    /// follows within the step that ends the last batch.
    Fetching { batch: usize, of: usize },
    /// Everything is fetched and sent.
    Complete,
}

/// The pipeline of one scan, from scanning to completion.
#[derive(Debug)]
pub struct Pipeline {
    scanning: bool,
    existing: Vec<String>,
    pending: Vec<ScanEntry>,
    dispatched: usize,
    finished: usize,
}

impl View for Pipeline {
    type V = PipelineState;

    closed spec fn view(&self) -> PipelineState {
        PipelineState {
            scanning: self.scanning,
            existing: views(self.existing@),
            pending: views(self.pending@),
            dispatched: self.dispatched as nat,
            finished: self.finished as nat,
        }
    }
}

impl Pipeline {
    /// The pipeline is in a valid state.
    pub closed spec fn wf(&self) -> bool {
        self@.valid()
    }

    /// A well-formed pipeline is in a valid state.
    pub proof fn lemma_wf_valid(&self)
        requires
            self.wf(),
        ensures
            self@.valid(),
    {
    }

    fn take_batch(&self, from: usize) -> (r: (Vec<ScanEntry>, Vec<Message>))
        requires
            from <= self.pending@.len(),
        ensures
            views(r.0@) == batch_at(views(self.pending@), from as nat),
            views(r.1@) == announcements(batch_at(views(self.pending@), from as nat)),
            r.0@.len() <= BATCH_SIZE,
            from + r.0@.len() <= self.pending@.len(),
            r.0@.len() == if from + BATCH_SIZE <= self.pending@.len() {
                BATCH_SIZE as int
            } else {
                self.pending@.len() - from
            },
    {
        let left: usize = self.pending.len() - from;
        let n: usize = if left >= BATCH_SIZE {
            BATCH_SIZE
        } else {
            left
        };
        let mut batch: Vec<ScanEntry> = Vec::new();
        let mut notes: Vec<Message> = Vec::new();
        let mut i: usize = 0;
        while i < n
            invariant
                i <= n,
                from + n <= self.pending.len(),
                batch@.len() == i,
                notes@.len() == i,
                forall|j: int| 0 <= j < i ==> (#[trigger] batch@[j])@ == self.pending@[from + j]@,
                forall|j: int|
                    0 <= j < i ==> (#[trigger] notes@[j])@ == MessageView::Status(
                        fetching_text(self.pending@[from + j]@.title),
                    ),
            decreases n - i,
        {
            let e = &self.pending[from + i];
            notes.push(Message::Status(fetching_status(e.title.as_str())));
            batch.push(e.clone());
            i += 1;
        }
        proof {
            let target = batch_at(views(self.pending@), from as nat);
            assert(views(batch@) =~= target);
            assert(views(notes@) =~= announcements(target));
        }
        (batch, notes)
    }

    /// The pipeline of a scan that begins now; `existing` is the list of
    /// paths that the catalog holds at this moment, and is not asked for
    /// again.
    pub fn new(existing: Vec<String>) -> (r: Pipeline)
        ensures
            r.wf(),
            r@ == PipelineState::created(views(existing@)),
    {
        let r = Pipeline {
            scanning: true,
            existing,
            pending: Vec::new(),
            dispatched: 0,
            finished: 0,
        };
        assert(views(r.pending@) =~= Seq::<ScanEntryView>::empty());
        r
    }

    /// Records that the scan has ended with `found`, deduplicates it, and
    /// says what follows: the first batch, or completion at once.
    pub fn scanned(&mut self, found: Vec<ScanEntry>) -> (r: Step)
        requires
            old(self).wf(),
        ensures
            final(self).wf(),
            (final(self)@, r@) == old(self)@.scanned(views(found@)),
    {
        let mut messages: Vec<Message> = Vec::new();
        if !self.scanning {
            let dispatch: Vec<ScanEntry> = Vec::new();
            let step = Step { messages, dispatch };
            proof {
                assert(step@.messages =~= Seq::<MessageView>::empty());
                assert(step@.dispatch =~= Seq::<ScanEntryView>::empty());
            }
            return step;
        }
        proof {
            lemma_started_valid(views(found@), views(self.existing@));
            lemma_fresh_entries_len(views(found@), views(self.existing@));
        }
        let seen: usize = found.len();
        self.pending = dedup(found, &self.existing);
        self.scanning = false;
        if self.pending.len() == 0 {
            messages.push(
                Message::Status("No new movies found - all files already in database".to_owned()),
            );
            messages.push(Message::Complete);
            let dispatch: Vec<ScanEntry> = Vec::new();
            let step = Step { messages, dispatch };
            proof {
                assert(step@.messages =~= seq![
                    MessageView::Status(nothing_new_text()),
                    MessageView::Complete,
                ]);
                assert(step@.dispatch =~= Seq::<ScanEntryView>::empty());
            }
            step
        } else {
            let (dispatch, mut notes) = self.take_batch(0);
            messages.push(Message::Status(found_status(self.pending.len(), seen - self.pending.len())));
            let ghost first = views(messages@);
            let ghost rest = views(notes@);
            messages.append(&mut notes);
            self.dispatched = dispatch.len();
            let step = Step { messages, dispatch };
            proof {
                assert(step@.messages =~= first + rest);
                assert(first =~= seq![
                    MessageView::Status(
                        found_text(self@.pending.len(), (seen - self@.pending.len()) as nat),
                    ),
                ]);
            }
            step
        }
    }

    /// Records that the fetch for the entry titled `title` has ended with
    /// `fetched`, and says what follows from it.
    pub fn fetched(&mut self, title: &str, fetched: Fetched) -> (r: Step)
        requires
            old(self).wf(),
        ensures
            final(self).wf(),
            (final(self)@, r@) == old(self)@.fetched(title@, fetched@),
    {
        proof {
            lemma_fetched_valid(old(self)@, title@, fetched@);
        }
        let mut messages: Vec<Message> = Vec::new();
        if self.finished >= self.dispatched {
            let dispatch: Vec<ScanEntry> = Vec::new();
            let step = Step { messages, dispatch };
            proof {
                assert(step@.messages =~= Seq::<MessageView>::empty());
                assert(step@.dispatch =~= Seq::<ScanEntryView>::empty());
            }
            return step;
        }
        let ghost add = MessageView::Add(added_text(title@, fetched.found), fetched.movie@);
        messages.push(Message::Add(added_status(title, fetched.found), fetched.movie));
        assert(views(messages@) =~= seq![add]);
        self.finished = self.finished + 1;
        if self.finished < self.dispatched {
            let dispatch: Vec<ScanEntry> = Vec::new();
            let step = Step { messages, dispatch };
            assert(step@.dispatch =~= Seq::<ScanEntryView>::empty());
            step
        } else if self.dispatched < self.pending.len() {
            let (dispatch, mut notes) = self.take_batch(self.dispatched);
            let ghost rest = views(notes@);
            messages.append(&mut notes);
            self.dispatched = self.dispatched + dispatch.len();
            let step = Step { messages, dispatch };
            assert(step@.messages =~= seq![add] + rest);
            step
        } else {
            messages.push(Message::Complete);
            let dispatch: Vec<ScanEntry> = Vec::new();
            let step = Step { messages, dispatch };
            proof {
                assert(step@.messages =~= seq![add, MessageView::Complete]);
                assert(step@.dispatch =~= Seq::<ScanEntryView>::empty());
            }
            step
        }
    }

    /// Where the pipeline stands.
    pub fn phase(&self) -> (r: Phase)
        requires
            self.wf(),
        ensures
            self@.scanning <==> r == Phase::Scanning,
            self@.complete() <==> r == Phase::Complete,
            r matches Phase::Fetching { batch, of } ==> of == batch_count(self@.pending.len())
                && batch == batch_count(self@.dispatched) && 1 <= batch <= of,
    {
        if self.scanning {
            Phase::Scanning
        } else if self.finished == self.pending.len() {
            Phase::Complete
        } else {
            let of: usize = (self.pending.len() - 1) / BATCH_SIZE + 1;
            let batch: usize = (self.dispatched - 1) / BATCH_SIZE + 1;
            Phase::Fetching { batch, of }
        }
    }

    /// Whether everything is fetched and sent.
    pub fn is_complete(&self) -> (r: bool)
        ensures
            r == self@.complete(),
    {
        !self.scanning && self.finished == self.pending.len()
    }

    /// How many fetches are under way.
    pub fn in_flight(&self) -> (r: usize)
        requires
            self.wf(),
        ensures
            r == self@.in_flight(),
            r <= BATCH_SIZE,
    {
        self.dispatched - self.finished
    }
}

/// Deduplication drops entries and adds none.
pub proof fn lemma_fresh_entries_len(found: Seq<ScanEntryView>, existing: Seq<Seq<char>>)
    ensures
        fresh_entries(found, existing).len() <= found.len(),
    decreases found.len(),
{
    if found.len() > 0 {
        lemma_fresh_entries_len(found.drop_last(), existing);
    }
}

/// The first step leaves a valid pipeline with at most one batch under way,
/// and a pipeline comes to it by ending its scan.
pub proof fn lemma_started_valid(found: Seq<ScanEntryView>, existing: Seq<Seq<char>>)
    ensures
        PipelineState::created(existing).valid(),
        PipelineState::created(existing).scanned(found) == PipelineState::started(found, existing),
        PipelineState::started(found, existing).0.valid(),
        PipelineState::started(found, existing).0.in_flight() <= BATCH_SIZE,
{
}

/// Bounded concurrency: a step keeps the pipeline valid, never has more
/// than [`BATCH_SIZE`] fetches under way, and begins fetches only when
/// every fetch begun before has ended; what it begins is the next batch of
/// pending entries.
pub proof fn lemma_fetched_valid(s: PipelineState, title: Seq<char>, fetched: FetchedView)
    requires
        s.valid(),
    ensures
        s.fetched(title, fetched).0.valid(),
        s.fetched(title, fetched).0.in_flight() <= BATCH_SIZE,
        s.fetched(title, fetched).1.dispatch.len() > 0 ==> s.finished + 1 == s.dispatched,
        s.fetched(title, fetched).1.dispatch == s.pending.subrange(
            s.dispatched as int,
            s.fetched(title, fetched).0.dispatched as int,
        ),
{
    let r = s.fetched(title, fetched);
    assert(r.1.dispatch =~= s.pending.subrange(s.dispatched as int, r.0.dispatched as int));
}

/// How many of `msgs` carry a record.
pub open spec fn count_adds(msgs: Seq<MessageView>) -> nat
    decreases msgs.len(),
{
    if msgs.len() == 0 {
        0
    } else {
        count_adds(msgs.drop_last()) + if msgs.last() is Add {
            1nat
        } else {
            0nat
        }
    }
}

/// The messages that a pipeline in state `s` sends while the fetches named
/// by `events` end one after the other.
pub open spec fn trace(s: PipelineState, events: Seq<(Seq<char>, FetchedView)>) -> Seq<
    MessageView,
>
    decreases events.len(),
{
    if events.len() == 0 {
        Seq::empty()
    } else {
        let r = s.fetched(events[0].0, events[0].1);
        r.1.messages + trace(r.0, events.drop_first())
    }
}

/// All messages of one scan: those of its first step, then those sent
/// while the fetches named by `events` end one after the other.
pub open spec fn session(
    found: Seq<ScanEntryView>,
    existing: Seq<Seq<char>>,
    events: Seq<(Seq<char>, FetchedView)>,
) -> Seq<MessageView> {
    let r = PipelineState::started(found, existing);
    r.1.messages + trace(r.0, events)
}

proof fn lemma_count_adds_concat(a: Seq<MessageView>, b: Seq<MessageView>)
    ensures
        count_adds(a + b) == count_adds(a) + count_adds(b),
    decreases b.len(),
{
    if b.len() == 0 {
        assert(a + b =~= a);
    } else {
        lemma_count_adds_concat(a, b.drop_last());
        assert((a + b).drop_last() =~= a + b.drop_last());
        assert((a + b).last() == b.last());
    }
}

proof fn lemma_count_adds_one(m: MessageView)
    ensures
        count_adds(seq![m]) == if m is Add {
            1nat
        } else {
            0nat
        },
{
    assert(seq![m].drop_last() =~= Seq::<MessageView>::empty());
    assert(seq![m].last() == m);
    assert(count_adds(Seq::<MessageView>::empty()) == 0);
}

proof fn lemma_announcements_plain(batch: Seq<ScanEntryView>)
    ensures
        count_adds(announcements(batch)) == 0,
        forall|i: int|
            0 <= i < announcements(batch).len() ==> (#[trigger] announcements(batch)[i]) is Status,
    decreases batch.len(),
{
    if batch.len() > 0 {
        lemma_announcements_plain(batch.drop_last());
        assert(announcements(batch).drop_last() =~= announcements(batch.drop_last()));
    }
}

proof fn lemma_trace_after_complete(s: PipelineState, events: Seq<(Seq<char>, FetchedView)>)
    requires
        s.valid(),
        s.complete(),
    ensures
        trace(s, events) == Seq::<MessageView>::empty(),
    decreases events.len(),
{
    if events.len() > 0 {
        lemma_trace_after_complete(s, events.drop_first());
        assert(trace(s, events) =~= Seq::<MessageView>::empty());
    }
}

proof fn lemma_trace_order(s: PipelineState, events: Seq<(Seq<char>, FetchedView)>)
    requires
        s.valid(),
    ensures
        forall|i: int|
            0 <= i < trace(s, events).len() && (#[trigger] trace(s, events)[i]) is Complete ==> i
                == trace(s, events).len() - 1 && count_adds(trace(s, events).take(i)) + s.finished
                == s.pending.len(),
    decreases events.len(),
{
    if events.len() > 0 {
        let title = events[0].0;
        let fetched = events[0].1;
        let r = s.fetched(title, fetched);
        let m = r.1.messages;
        let rest = trace(r.0, events.drop_first());
        let t = trace(s, events);
        let add = MessageView::Add(added_text(title, fetched.found), fetched.movie);
        lemma_fetched_valid(s, title, fetched);
        lemma_trace_order(r.0, events.drop_first());
        lemma_count_adds_one(add);
        assert(t == m + rest);
        if s.finished >= s.dispatched {
            assert(t =~= rest);
        } else if s.finished + 1 < s.dispatched {
        } else if s.dispatched < s.pending.len() {
            let batch = batch_at(s.pending, s.dispatched);
            lemma_announcements_plain(batch);
            lemma_count_adds_concat(seq![add], announcements(batch));
        } else {
            lemma_trace_after_complete(r.0, events.drop_first());
            assert(t =~= seq![add, MessageView::Complete]);
            assert(t.take(1) =~= seq![add]);
        }
        assert forall|i: int| 0 <= i < t.len() && (#[trigger] t[i]) is Complete implies i
            == t.len() - 1 && count_adds(t.take(i)) + s.finished == s.pending.len() by {
            if i >= m.len() && rest.len() > 0 {
                let k = i - m.len();
                assert(t[i] == rest[k]);
                assert(t.take(i) =~= m + rest.take(k));
                lemma_count_adds_concat(m, rest.take(k));
                if m.len() == 0 {
                    assert(m =~= Seq::<MessageView>::empty());
                }
            } else if i < m.len() {
                if s.finished + 1 == s.dispatched && s.dispatched < s.pending.len() {
                    if i > 0 {
                        assert(m[i] == announcements(batch_at(s.pending, s.dispatched))[i - 1]);
                    }
                }
            }
        }
    }
}

/// Message ordering: in the messages of one scan, whatever the order in
/// which its fetches end, the completion message is the last one, and
/// before it stands one record for each entry that was new when the scan
/// began.
pub proof fn lemma_complete_comes_last(
    found: Seq<ScanEntryView>,
    existing: Seq<Seq<char>>,
    events: Seq<(Seq<char>, FetchedView)>,
)
    ensures
        forall|i: int|
            0 <= i < session(found, existing, events).len() && (#[trigger] session(
                found,
                existing,
                events,
            )[i]) is Complete ==> i == session(found, existing, events).len() - 1 && count_adds(
                session(found, existing, events).take(i),
            ) == fresh_entries(found, existing).len(),
{
    let r = PipelineState::started(found, existing);
    let m = r.1.messages;
    let rest = trace(r.0, events);
    let t = session(found, existing, events);
    let pending = fresh_entries(found, existing);
    lemma_started_valid(found, existing);
    lemma_trace_order(r.0, events);
    if pending.len() == 0 {
        lemma_trace_after_complete(r.0, events);
        assert(t =~= m);
        assert(t.take(1) =~= seq![MessageView::Status(nothing_new_text())]);
        lemma_count_adds_one(MessageView::Status(nothing_new_text()));
    } else {
        let batch = batch_at(pending, 0);
        let head = MessageView::Status(
            found_text(pending.len(), (found.len() - pending.len()) as nat),
        );
        lemma_announcements_plain(batch);
        lemma_count_adds_one(head);
        lemma_count_adds_concat(seq![head], announcements(batch));
        assert forall|i: int| 0 <= i < t.len() && (#[trigger] t[i]) is Complete implies i
            == t.len() - 1 && count_adds(t.take(i)) == pending.len() by {
            if i >= m.len() {
                let k = i - m.len();
                assert(t[i] == rest[k]);
                assert(t.take(i) =~= m + rest.take(k));
                lemma_count_adds_concat(m, rest.take(k));
            } else if i > 0 {
                assert(m[i] == announcements(batch)[i - 1]);
            }
        }
    }
}

} // verus!
