//! The polling engine: when a session polls, what it emits and when it ends.
//!
//! The engine is a state machine. [`Poller::command`] names the work that the
//! caller has to do next, and [`Poller::step`] takes what that work produced.

use vstd::prelude::*;
use crate::clock::{
    leap_adjustment, minutes_between, utc_now, whole_minutes_between, Timestamp, NANOS_PER_SECOND,
};
use crate::gh::{WebhookDelivery, WebhookDeliveryDetails};
use crate::watermark::{
    ids_of, lemma_selected, mark_after, reference_time, selected, Mark, Watermark,
};

verus! {

/// Minutes without a new delivery after which a session ends.
pub const TIMEOUT_MINUTES: i64 = 10;

/// Seconds to wait between two polls.
pub const BACKOFF_SECONDS: u64 = 5;

/// What the engine hands to its consumer.
#[derive(Debug)]
pub enum PollMessage {
    /// A delivery that was not seen before.
    Delivery(WebhookDeliveryDetails),
    /// The session ended for inactivity. Nothing follows it.
    TimedOut,
}

/// Whether a session that saw nothing since `since` has timed out at `now`.
pub open spec fn timed_out(since: Timestamp, now: Timestamp) -> bool {
    minutes_between(now, since) >= TIMEOUT_MINUTES
}

/// Whether the inactivity limit is reached at `now`, measured from `since`.
pub fn should_terminate_at(since: Timestamp, now: Timestamp) -> (r: bool)
    ensures
        r == timed_out(since, now),
{
    proof {
        use_type_invariant(&since);
        use_type_invariant(&now);
    }
    whole_minutes_between(now, since) >= TIMEOUT_MINUTES
}

/// Whether the inactivity limit is reached at the clock's present reading.
pub fn should_terminate(last_delivery_time: Timestamp) -> (r: bool)
    ensures
        exists|now: Timestamp| now.wf() && r == timed_out(last_delivery_time, now),
{
    let now = utc_now();
    should_terminate_at(last_delivery_time, now)
}

/// Between two instants of which neither is a leap second, the inactivity
/// limit is reached exactly when ten minutes or more lie between them.
pub proof fn lemma_timed_out_after_ten_minutes(since: Timestamp, now: Timestamp)
    requires
        since.wf(),
        now.wf(),
        since.subsec() < NANOS_PER_SECOND,
        now.subsec() < NANOS_PER_SECOND,
    ensures
        timed_out(since, now) <==> (now.seconds() - since.seconds()) * NANOS_PER_SECOND + (
        now.subsec() - since.subsec()) >= TIMEOUT_MINUTES * 60 * NANOS_PER_SECOND,
{
    assert(leap_adjustment(now, since) == 0);
}

/// Where a polling session stands.
#[derive(Clone, Copy, Debug, PartialEq, Eq, Structural)]
pub enum Phase {
    /// A cycle begins: the clock has to be read for the inactivity check.
    CheckingClock,
    /// The newest page of summaries has to be fetched.
    Listing,
    /// The details of the delivery with this id have to be fetched.
    Fetching(u64),
    /// The cycle is over: wait before the next one.
    Sleeping,
    /// The session ended for inactivity.
    TimedOut,
    /// The session ended because a page of summaries could not be fetched.
    Failed,
}

/// The work that the caller does for the engine.
#[derive(Clone, Copy, Debug, PartialEq, Eq, Structural)]
pub enum PollCommand {
    /// Read the clock and hand the reading in.
    ReadClock,
    /// Fetch the newest page of summaries.
    ListDeliveries,
    /// Fetch the details of the delivery with this id.
    GetDetails(u64),
    /// Wait this many seconds.
    Sleep(u64),
    /// Stop: the session is over.
    Stop,
}

/// What the caller's work produced.
#[derive(Debug)]
pub enum PollEvent {
    /// The clock was read.
    Clock(Timestamp),
    /// A page of summaries arrived, newest first.
    Page(Vec<WebhookDelivery>),
    /// The page of summaries could not be fetched.
    PageFailed,
    /// The details of a delivery arrived.
    Details(WebhookDeliveryDetails),
    /// The details of a delivery could not be fetched.
    DetailsFailed,
    /// The wait is over.
    Slept,
}

/// A polling session as a value.
pub struct PollerState {
    pub mark: Mark,
    pub phase: Phase,
    /// The ids selected in this cycle whose details come after the one that is
    /// being fetched, in the order in which they are emitted.
    pub pending: Seq<u64>,
}

/// The session that begins at `start`.
pub open spec fn initial_state(start: Timestamp) -> PollerState {
    PollerState {
        mark: Mark { start, last: None },
        phase: Phase::CheckingClock,
        pending: Seq::empty(),
    }
}

/// The work that a session waits for.
pub open spec fn command_of(s: PollerState) -> PollCommand {
    match s.phase {
        Phase::CheckingClock => PollCommand::ReadClock,
        Phase::Listing => PollCommand::ListDeliveries,
        Phase::Fetching(id) => PollCommand::GetDetails(id),
        Phase::Sleeping => PollCommand::Sleep(BACKOFF_SECONDS),
        Phase::TimedOut => PollCommand::Stop,
        Phase::Failed => PollCommand::Stop,
    }
}

/// The session is over.
pub open spec fn is_over(s: PollerState) -> bool {
    s.phase == Phase::TimedOut || s.phase == Phase::Failed
}

/// The session once the fetch of one delivery's details has ended, however it
/// ended: the next selected delivery is fetched, or the cycle is over.
pub open spec fn after_details(s: PollerState) -> PollerState {
    if s.pending.len() == 0 {
        PollerState { mark: s.mark, phase: Phase::Sleeping, pending: Seq::empty() }
    } else {
        PollerState {
            mark: s.mark,
            phase: Phase::Fetching(s.pending.first()),
            pending: s.pending.drop_first(),
        }
    }
}

/// The session after a page of summaries arrived: the watermark has moved
/// over the whole page, and the details of the selected deliveries are
/// fetched oldest first.
pub open spec fn after_page(s: PollerState, page: Seq<WebhookDelivery>) -> PollerState {
    after_details(
        PollerState {
            mark: mark_after(s.mark, page),
            phase: Phase::Listing,
            pending: ids_of(selected(s.mark, page)),
        },
    )
}

/// The session after `event`. An event that does not answer the work the
/// session waits for leaves it as it is.
pub open spec fn next_state(s: PollerState, event: PollEvent) -> PollerState {
    match (s.phase, event) {
        (Phase::CheckingClock, PollEvent::Clock(now)) => PollerState {
            mark: s.mark,
            phase: if timed_out(reference_time(s.mark), now) {
                Phase::TimedOut
            } else {
                Phase::Listing
            },
            pending: s.pending,
        },
        (Phase::Listing, PollEvent::Page(page)) => after_page(s, page@),
        (Phase::Listing, PollEvent::PageFailed) => PollerState {
            mark: s.mark,
            phase: Phase::Failed,
            pending: s.pending,
        },
        (Phase::Fetching(_), PollEvent::Details(_)) => after_details(s),
        (Phase::Fetching(_), PollEvent::DetailsFailed) => after_details(s),
        (Phase::Sleeping, PollEvent::Slept) => PollerState {
            mark: s.mark,
            phase: Phase::CheckingClock,
            pending: s.pending,
        },
        _ => s,
    }
}

/// The message that `event` makes the session emit, if any.
pub open spec fn message_of(s: PollerState, event: PollEvent) -> Option<PollMessage> {
    match (s.phase, event) {
        (Phase::CheckingClock, PollEvent::Clock(now)) => if timed_out(reference_time(s.mark), now) {
            Some(PollMessage::TimedOut)
        } else {
            None
        },
        (Phase::Fetching(_), PollEvent::Details(details)) => Some(PollMessage::Delivery(details)),
        _ => None,
    }
}

/// A polling session. It owns its watermark and shares it with nobody.
#[derive(Debug)]
pub struct Poller {
    watermark: Watermark,
    phase: Phase,
    pending: Vec<u64>,
}

impl View for Poller {
    type V = PollerState;

    closed spec fn view(&self) -> PollerState {
        PollerState { mark: self.watermark@, phase: self.phase, pending: self.pending@ }
    }
}

impl Poller {
    /// A session that begins at `start_time`.
    pub fn new(start_time: Timestamp) -> (p: Poller)
        ensures
            p@ == initial_state(start_time),
            coherent(p@),
    {
        Poller { watermark: Watermark::new(start_time), phase: Phase::CheckingClock, pending: Vec::new() }
    }

    /// A session that begins at the clock's present reading.
    pub fn start() -> (p: Poller)
        ensures
            exists|now: Timestamp| now.wf() && p@ == initial_state(now),
            coherent(p@),
    {
        let now = utc_now();
        Poller::new(now)
    }

    /// Where the session stands.
    pub fn phase(&self) -> (phase: Phase)
        ensures
            phase == self@.phase,
    {
        self.phase
    }

    /// The session's watermark.
    pub fn watermark(&self) -> (w: &Watermark)
        ensures
            w@ == self@.mark,
    {
        &self.watermark
    }

    /// Whether the session is over.
    pub fn is_finished(&self) -> (r: bool)
        ensures
            r == is_over(self@),
    {
        self.phase == Phase::TimedOut || self.phase == Phase::Failed
    }

    /// The work that the session waits for.
    pub fn command(&self) -> (c: PollCommand)
        ensures
            c == command_of(self@),
    {
        match self.phase {
            Phase::CheckingClock => PollCommand::ReadClock,
            Phase::Listing => PollCommand::ListDeliveries,
            Phase::Fetching(id) => PollCommand::GetDetails(id),
            Phase::Sleeping => PollCommand::Sleep(BACKOFF_SECONDS),
            Phase::TimedOut => PollCommand::Stop,
            Phase::Failed => PollCommand::Stop,
        }
    }

    /// Moves on to the next selected delivery, or ends the cycle.
    fn advance_fetch(&mut self)
        ensures
            final(self)@ == after_details(old(self)@),
    {
        if self.pending.len() == 0 {
            self.phase = Phase::Sleeping;
            assert(self.pending@ == Seq::<u64>::empty());
        } else {
            let id = self.pending.remove(0);
            self.phase = Phase::Fetching(id);
            assert(self.pending@ == old(self).pending@.drop_first());
        }
    }

    /// Takes what the caller's work produced, moves the session on and
    /// returns the message to emit, if there is one.
    pub fn step(&mut self, event: PollEvent) -> (message: Option<PollMessage>)
        ensures
            final(self)@ == next_state(old(self)@, event),
            message == message_of(old(self)@, event),
            coherent(old(self)@) ==> coherent(final(self)@),
    {
        proof {
            if coherent(self@) {
                lemma_step_is_coherent(self@, event);
            }
        }
        match self.phase {
            Phase::CheckingClock => match event {
                PollEvent::Clock(now) => {
                    let since = self.watermark.reference();
                    if should_terminate_at(since, now) {
                        self.phase = Phase::TimedOut;
                        Some(PollMessage::TimedOut)
                    } else {
                        self.phase = Phase::Listing;
                        None
                    }
                },
                _ => None,
            },
            Phase::Listing => match event {
                PollEvent::Page(page) => {
                    let ids = self.watermark.select_new(&page);
                    self.pending = ids;
                    self.advance_fetch();
                    None
                },
                PollEvent::PageFailed => {
                    self.phase = Phase::Failed;
                    None
                },
                _ => None,
            },
            Phase::Fetching(_) => match event {
                PollEvent::Details(details) => {
                    self.advance_fetch();
                    Some(PollMessage::Delivery(details))
                },
                PollEvent::DetailsFailed => {
                    self.advance_fetch();
                    None
                },
                _ => None,
            },
            Phase::Sleeping => match event {
                PollEvent::Slept => {
                    self.phase = Phase::CheckingClock;
                    None
                },
                _ => None,
            },
            Phase::TimedOut => None,
            Phase::Failed => None,
        }
    }

    /// Reads the clock and makes the inactivity check with the reading.
    pub fn check_clock(&mut self) -> (message: Option<PollMessage>)
        ensures
            exists|now: Timestamp|
                now.wf() && final(self)@ == next_state(old(self)@, PollEvent::Clock(now))
                    && message == message_of(old(self)@, PollEvent::Clock(now)),
            coherent(old(self)@) ==> coherent(final(self)@),
    {
        let now = utc_now();
        self.step(PollEvent::Clock(now))
    }
}

/// The messages that a session emits over a run of events, in order.
pub open spec fn emitted(s: PollerState, events: Seq<PollEvent>) -> Seq<PollMessage>
    decreases events.len(),
{
    if events.len() == 0 {
        Seq::empty()
    } else {
        let rest = emitted(next_state(s, events.first()), events.drop_first());
        match message_of(s, events.first()) {
            Some(message) => seq![message] + rest,
            None => rest,
        }
    }
}

/// A session that is over stays as it is, emits nothing and asks for no more
/// work, whatever is handed to it.
pub proof fn lemma_over_is_final(s: PollerState, event: PollEvent)
    requires
        is_over(s),
    ensures
        next_state(s, event) == s,
        message_of(s, event) is None,
        command_of(s) == PollCommand::Stop,
{
}

/// The timeout is signalled exactly on a clock reading, taken at the start of
/// a cycle, that lies ten minutes or more after the reference time, and the
/// session is over with it. A failed poll ends the session without a message.
pub proof fn lemma_timeout_ends_session(s: PollerState, event: PollEvent)
    ensures
        message_of(s, event) == Some(PollMessage::TimedOut) <==> ({
            &&& s.phase == Phase::CheckingClock
            &&& event matches PollEvent::Clock(now) && timed_out(reference_time(s.mark), now)
        }),
        message_of(s, event) == Some(PollMessage::TimedOut) ==> next_state(s, event).phase
            == Phase::TimedOut,
        s.phase == Phase::Listing && event == PollEvent::PageFailed ==> next_state(s, event).phase
            == Phase::Failed && message_of(s, event) is None,
{
}

/// A session that is over emits nothing over any run of events.
pub proof fn lemma_over_emits_nothing(s: PollerState, events: Seq<PollEvent>)
    requires
        is_over(s),
    ensures
        emitted(s, events) == Seq::<PollMessage>::empty(),
    decreases events.len(),
{
    if events.len() > 0 {
        lemma_over_is_final(s, events.first());
        lemma_over_emits_nothing(s, events.drop_first());
    }
}

/// Over any run of events the timeout is emitted at most once, and nothing
/// is emitted after it.
pub proof fn lemma_timeout_is_last(s: PollerState, events: Seq<PollEvent>, i: int)
    requires
        0 <= i < emitted(s, events).len(),
        emitted(s, events)[i] == PollMessage::TimedOut,
    ensures
        i == emitted(s, events).len() - 1,
    decreases events.len(),
{
    let next = next_state(s, events.first());
    let rest = emitted(next, events.drop_first());
    match message_of(s, events.first()) {
        Some(message) => {
            assert(emitted(s, events) == seq![message] + rest);
            if i == 0 {
                assert(message == PollMessage::TimedOut);
                lemma_timeout_ends_session(s, events.first());
                lemma_over_emits_nothing(next, events.drop_first());
            } else {
                assert(emitted(s, events)[i] == rest[i - 1]);
                lemma_timeout_is_last(next, events.drop_first(), i - 1);
            }
        },
        None => {
            lemma_timeout_is_last(next, events.drop_first(), i);
        },
    }
}

/// While details are fetched, a fetch that fails leaves the session exactly
/// where a fetch that succeeds leaves it: only the one message is missing,
/// and the deliveries selected after it are fetched and emitted as before.
pub proof fn lemma_failed_details_drop_one(s: PollerState, details: WebhookDeliveryDetails)
    requires
        s.phase is Fetching,
    ensures
        next_state(s, PollEvent::DetailsFailed) == next_state(s, PollEvent::Details(details)),
        next_state(s, PollEvent::DetailsFailed).mark == s.mark,
        message_of(s, PollEvent::DetailsFailed) is None,
        message_of(s, PollEvent::Details(details)) == Some(PollMessage::Delivery(details)),
        s.pending.len() > 0 ==> command_of(next_state(s, PollEvent::DetailsFailed))
            == PollCommand::GetDetails(s.pending.first()),
{
}

/// After a page arrived the session fetches the details of exactly the
/// selected deliveries, oldest first: the first one at once, the others
/// wait in order.
pub proof fn lemma_page_schedules_selected(s: PollerState, page: Vec<WebhookDelivery>)
    requires
        s.phase == Phase::Listing,
    ensures
        ({
            let ids = ids_of(selected(s.mark, page@));
            let next = next_state(s, PollEvent::Page(page));
            &&& next.mark == mark_after(s.mark, page@)
            &&& ids.len() == 0 ==> next.phase == Phase::Sleeping
            &&& ids.len() > 0 ==> next.phase == Phase::Fetching(ids[0]) && seq![ids[0]]
                + next.pending == ids
        }),
{
    let ids = ids_of(selected(s.mark, page@));
    if ids.len() > 0 {
        assert(seq![ids[0]] + ids.drop_first() == ids);
    }
}

/// The session after a run of events.
pub open spec fn state_after(s: PollerState, events: Seq<PollEvent>) -> PollerState
    decreases events.len(),
{
    if events.len() == 0 {
        s
    } else {
        state_after(next_state(s, events.first()), events.drop_first())
    }
}

/// The event in which the fetch of one delivery's details ends: the details,
/// or the failure where there are none.
pub open spec fn fetch_event(result: Option<WebhookDeliveryDetails>) -> PollEvent {
    match result {
        Some(details) => PollEvent::Details(details),
        None => PollEvent::DetailsFailed,
    }
}

/// The events in which a run of fetches ends.
pub open spec fn fetch_events(results: Seq<Option<WebhookDeliveryDetails>>) -> Seq<PollEvent> {
    Seq::new(results.len(), |i: int| fetch_event(results[i]))
}

/// The messages for the fetches that succeeded, in order.
pub open spec fn deliveries_of(results: Seq<Option<WebhookDeliveryDetails>>) -> Seq<PollMessage>
    decreases results.len(),
{
    if results.len() == 0 {
        Seq::empty()
    } else {
        let rest = deliveries_of(results.drop_first());
        match results.first() {
            Some(details) => seq![PollMessage::Delivery(details)] + rest,
            None => rest,
        }
    }
}

/// While details are fetched, one result for the delivery that is being
/// fetched and for each that waits makes the session emit the details that
/// arrived, in order, whichever of the fetches failed; then the cycle is
/// over and the watermark is where it was.
pub proof fn lemma_fetches_emit_what_arrived(
    s: PollerState,
    results: Seq<Option<WebhookDeliveryDetails>>,
)
    requires
        s.phase is Fetching,
        results.len() == s.pending.len() + 1,
    ensures
        emitted(s, fetch_events(results)) == deliveries_of(results),
        state_after(s, fetch_events(results)).phase == Phase::Sleeping,
        state_after(s, fetch_events(results)).mark == s.mark,
    decreases results.len(),
{
    let events = fetch_events(results);
    let next = next_state(s, events.first());
    assert(events.first() == fetch_event(results.first()));
    assert(events.drop_first() == fetch_events(results.drop_first()));
    assert(next == after_details(s));
    if s.pending.len() == 0 {
        assert(results.drop_first().len() == 0);
        assert(emitted(next, events.drop_first()) == Seq::<PollMessage>::empty());
        assert(deliveries_of(results.drop_first()) == Seq::<PollMessage>::empty());
        match results.first() {
            Some(details) => {
                assert(seq![PollMessage::Delivery(details)] + Seq::<PollMessage>::empty()
                    == seq![PollMessage::Delivery(details)]);
            },
            None => {},
        }
    } else {
        lemma_fetches_emit_what_arrived(next, results.drop_first());
    }
}

/// One whole cycle: a page and then one result for each delivery selected
/// from it. The session emits the details that arrived, oldest first, the
/// watermark has moved over the page, and the session waits for the next
/// cycle.
pub proof fn lemma_cycle_emits_what_arrived(
    s: PollerState,
    page: Vec<WebhookDelivery>,
    results: Seq<Option<WebhookDeliveryDetails>>,
)
    requires
        s.phase == Phase::Listing,
        results.len() == selected(s.mark, page@).len(),
    ensures
        emitted(s, seq![PollEvent::Page(page)] + fetch_events(results)) == deliveries_of(results),
        state_after(s, seq![PollEvent::Page(page)] + fetch_events(results)).phase
            == Phase::Sleeping,
        state_after(s, seq![PollEvent::Page(page)] + fetch_events(results)).mark == mark_after(
            s.mark,
            page@,
        ),
{
    let events = seq![PollEvent::Page(page)] + fetch_events(results);
    let next = next_state(s, events.first());
    assert(events.first() == PollEvent::Page(page));
    assert(events.drop_first() == fetch_events(results));
    assert(message_of(s, events.first()) is None);
    assert(emitted(s, events) == emitted(next, events.drop_first()));
    assert(state_after(s, events) == state_after(next, events.drop_first()));
    if results.len() == 0 {
        assert(next.phase == Phase::Sleeping);
        assert(fetch_events(results).len() == 0);
        assert(emitted(next, fetch_events(results)) == Seq::<PollMessage>::empty());
        assert(deliveries_of(results) == Seq::<PollMessage>::empty());
    } else {
        let ids = ids_of(selected(s.mark, page@));
        assert(next.phase == Phase::Fetching(ids[0]));
        assert(next.pending.len() + 1 == results.len());
        lemma_fetches_emit_what_arrived(next, results);
    }
}

/// The numbers of `ids` grow strictly from each to the next.
pub open spec fn ascending(ids: Seq<u64>) -> bool {
    forall|i: int, j: int| 0 <= i < j < ids.len() ==> ids[i] < ids[j]
}

/// What holds of a session at every moment: while details are fetched, the
/// id that is being fetched and those that wait grow strictly and end at the
/// watermark; at any other time nothing waits.
pub open spec fn coherent(s: PollerState) -> bool {
    match s.phase {
        Phase::Fetching(id) => {
            let queue = seq![id] + s.pending;
            &&& ascending(queue)
            &&& s.mark.last matches Some((last, _)) && last == queue.last()
        },
        _ => s.pending.len() == 0,
    }
}

/// The id below which a session asks for no details any more: the one it is
/// fetching or, at any other time, the last one it has seen.
pub open spec fn floor_of(s: PollerState) -> Option<u64> {
    match s.phase {
        Phase::Fetching(id) => Some(id),
        _ => match s.mark.last {
            Some((id, _)) => Some(id),
            None => None,
        },
    }
}

/// The id whose details the session asks for as soon as `event` is taken, if
/// the event makes it ask for any.
pub open spec fn request_of(s: PollerState, event: PollEvent) -> Option<u64> {
    let moved = match (s.phase, event) {
        (Phase::Listing, PollEvent::Page(_)) => true,
        (Phase::Fetching(_), PollEvent::Details(_)) => true,
        (Phase::Fetching(_), PollEvent::DetailsFailed) => true,
        _ => false,
    };
    match next_state(s, event).phase {
        Phase::Fetching(id) => if moved {
            Some(id)
        } else {
            None
        },
        _ => None,
    }
}

/// The ids whose details a session asks for over a run of events, in order.
pub open spec fn requests(s: PollerState, events: Seq<PollEvent>) -> Seq<u64>
    decreases events.len(),
{
    if events.len() == 0 {
        Seq::empty()
    } else {
        let rest = requests(next_state(s, events.first()), events.drop_first());
        match request_of(s, events.first()) {
            Some(id) => seq![id] + rest,
            None => rest,
        }
    }
}

/// A session begins coherent.
pub proof fn lemma_initial_is_coherent(start: Timestamp)
    ensures
        coherent(initial_state(start)),
        floor_of(initial_state(start)) is None,
{
}

/// Every event leaves a coherent session coherent, never lowers the id below
/// which it asks for nothing, and makes it ask only for an id above that.
pub proof fn lemma_step_is_coherent(s: PollerState, event: PollEvent)
    requires
        coherent(s),
    ensures
        coherent(next_state(s, event)),
        floor_of(s) matches Some(low) ==> (floor_of(next_state(s, event)) matches Some(next)
            && low <= next),
        request_of(s, event) matches Some(id) ==> floor_of(next_state(s, event)) == Some(id) && (
        floor_of(s) matches Some(low) ==> low < id),
{
    let next = next_state(s, event);
    match (s.phase, event) {
        (Phase::Listing, PollEvent::Page(page)) => {
            let chosen = selected(s.mark, page@);
            let ids = ids_of(chosen);
            lemma_selected(s.mark, page@);
            if ids.len() > 0 {
                assert(next.phase == Phase::Fetching(ids[0]));
                assert(seq![ids[0]] + next.pending == ids);
                assert(ids.last() == chosen.last().id);
                assert(ascending(ids)) by {
                    assert forall|i: int, j: int| 0 <= i < j < ids.len() implies ids[i]
                        < ids[j] by {
                        assert(chosen[i].id < chosen[j].id);
                    }
                }
                if s.mark.last is Some {
                    assert(chosen[0].id > s.mark.last.unwrap().0);
                }
            }
        },
        (Phase::Fetching(id), PollEvent::Details(_)) => {
            lemma_fetch_moves_up(s, id);
        },
        (Phase::Fetching(id), PollEvent::DetailsFailed) => {
            lemma_fetch_moves_up(s, id);
        },
        _ => {},
    }
}

/// When the fetch of one delivery's details has ended, a coherent session is
/// coherent still, and what it fetches next has a larger id.
proof fn lemma_fetch_moves_up(s: PollerState, id: u64)
    requires
        coherent(s),
        s.phase == Phase::Fetching(id),
    ensures
        coherent(after_details(s)),
        floor_of(after_details(s)) matches Some(next) && id <= next,
        s.pending.len() > 0 ==> id < s.pending.first(),
{
    let queue = seq![id] + s.pending;
    if s.pending.len() > 0 {
        assert(queue[0] == id && queue[1] == s.pending[0]);
        let rest = s.pending.drop_first();
        assert(seq![s.pending.first()] + rest == s.pending);
        assert forall|i: int, j: int| 0 <= i < j < s.pending.len() implies s.pending[i]
            < s.pending[j] by {
            assert(queue[i + 1] == s.pending[i] && queue[j + 1] == s.pending[j]);
        }
        assert(queue.last() == s.pending.last());
    } else {
        assert(queue.last() == id);
    }
}

/// Over any run of events a coherent session asks for details in the order
/// of strictly growing ids, all of them above the id it began at: it asks
/// for the details of no delivery twice.
pub proof fn lemma_requests_ascend(s: PollerState, events: Seq<PollEvent>)
    requires
        coherent(s),
    ensures
        ascending(requests(s, events)),
        requests(s, events).no_duplicates(),
        floor_of(s) matches Some(low) ==> forall|i: int|
            0 <= i < requests(s, events).len() ==> low < requests(s, events)[i],
    decreases events.len(),
{
    let all = requests(s, events);
    if events.len() > 0 {
        let event = events.first();
        let next = next_state(s, event);
        let rest = requests(next, events.drop_first());
        lemma_step_is_coherent(s, event);
        lemma_requests_ascend(next, events.drop_first());
        match request_of(s, event) {
            Some(id) => {
                assert(all == seq![id] + rest);
                assert forall|i: int, j: int| 0 <= i < j < all.len() implies all[i] < all[j] by {
                    assert(all[j] == rest[j - 1]);
                    if i > 0 {
                        assert(all[i] == rest[i - 1]);
                    }
                }
                if floor_of(s) is Some {
                    assert forall|i: int| 0 <= i < all.len() implies floor_of(s).unwrap()
                        < all[i] by {
                        if i > 0 {
                            assert(all[i] == rest[i - 1]);
                        }
                    }
                }
            },
            None => {
                assert(all == rest);
            },
        }
    }
    assert forall|i: int, j: int| 0 <= i < all.len() && 0 <= j < all.len() && i != j implies all[i]
        != all[j] by {
        if i < j {
            assert(all[i] < all[j]);
        } else {
            assert(all[j] < all[i]);
        }
    }
}

} // verus!
