//! The watermark of a polling session: which deliveries of a page are new,
//! and in which order they are selected.

use vstd::prelude::*;
use crate::clock::Timestamp;
use crate::gh::WebhookDelivery;

verus! {

/// The watermark as a value: when the session began and, once a delivery was
/// selected, the id and time of the last one.
pub struct Mark {
    pub start: Timestamp,
    pub last: Option<(u64, Timestamp)>,
}

/// Whether the summary `d` is new to a session whose watermark is `m`: a
/// larger id than the last one seen or, before any was seen, a time strictly
/// after the session's start.
pub open spec fn is_new(m: Mark, d: WebhookDelivery) -> bool {
    match m.last {
        Some((id, _)) => d.id > id,
        None => m.start.precedes(d.delivered_at),
    }
}

/// The watermark after `d` was selected.
pub open spec fn advance(m: Mark, d: WebhookDelivery) -> Mark {
    Mark { start: m.start, last: Some((d.id, d.delivered_at)) }
}

/// The watermark after `d` was looked at.
pub open spec fn observe(m: Mark, d: WebhookDelivery) -> Mark {
    if is_new(m, d) {
        advance(m, d)
    } else {
        m
    }
}

/// The summaries of `page` that are new, oldest first. `page` is held newest
/// first, so it is read from its end, and each selected summary moves the
/// watermark before the next one is looked at.
pub open spec fn selected(m: Mark, page: Seq<WebhookDelivery>) -> Seq<WebhookDelivery>
    decreases page.len(),
{
    if page.len() == 0 {
        Seq::empty()
    } else {
        let d = page.last();
        let rest = selected(observe(m, d), page.drop_last());
        if is_new(m, d) {
            seq![d] + rest
        } else {
            rest
        }
    }
}

/// The watermark after the whole of `page` was read.
pub open spec fn mark_after(m: Mark, page: Seq<WebhookDelivery>) -> Mark
    decreases page.len(),
{
    if page.len() == 0 {
        m
    } else {
        mark_after(observe(m, page.last()), page.drop_last())
    }
}

/// The ids of `s`, in order.
pub open spec fn ids_of(s: Seq<WebhookDelivery>) -> Seq<u64> {
    Seq::new(s.len(), |i: int| s[i].id)
}

/// The instant from which inactivity is measured: the later of the session's
/// start and the time of the last delivery seen.
pub open spec fn reference_time(m: Mark) -> Timestamp {
    match m.last {
        Some((_, t)) => if m.start.precedes(t) {
            t
        } else {
            m.start
        },
        None => m.start,
    }
}

/// The filter that a polling session keeps between polls.
#[derive(Debug)]
pub struct Watermark {
    start_time: Timestamp,
    last_seen: Option<(u64, Timestamp)>,
}

impl View for Watermark {
    type V = Mark;

    closed spec fn view(&self) -> Mark {
        Mark { start: self.start_time, last: self.last_seen }
    }
}

impl Watermark {
    /// The watermark of a session that begins at `start_time`.
    pub fn new(start_time: Timestamp) -> (w: Watermark)
        ensures
            w@ == (Mark { start: start_time, last: None }),
    {
        Watermark { start_time, last_seen: None }
    }

    /// When the session began.
    pub fn start_time(&self) -> (t: Timestamp)
        ensures
            t == self@.start,
    {
        self.start_time
    }

    /// The id of the last delivery selected, if any was.
    pub fn last_id(&self) -> (id: Option<u64>)
        ensures
            id == match self@.last {
                Some((id, _)) => Some(id),
                None => None,
            },
    {
        match self.last_seen {
            Some((id, _)) => Some(id),
            None => None,
        }
    }

    /// The time of the last delivery selected, if any was.
    pub fn last_delivery_time(&self) -> (t: Option<Timestamp>)
        ensures
            t == match self@.last {
                Some((_, t)) => Some(t),
                None => None,
            },
    {
        match self.last_seen {
            Some((_, t)) => Some(t),
            None => None,
        }
    }

    /// Whether the summary `d` is new to this session.
    pub fn admits(&self, d: &WebhookDelivery) -> (r: bool)
        ensures
            r == is_new(self@, *d),
    {
        match self.last_seen {
            Some((id, _)) => d.id > id,
            None => d.delivered_at.is_after(&self.start_time),
        }
    }

    /// The instant from which inactivity is measured.
    pub fn reference(&self) -> (t: Timestamp)
        ensures
            t == reference_time(self@),
    {
        match self.last_seen {
            Some((_, t)) => if t.is_after(&self.start_time) {
                t
            } else {
                self.start_time
            },
            None => self.start_time,
        }
    }

    /// Reads one page of summaries, newest first as the source gives them,
    /// and returns the ids of the new ones, oldest first. The watermark ends
    /// at the last summary selected.
    pub fn select_new(&mut self, page: &Vec<WebhookDelivery>) -> (ids: Vec<u64>)
        ensures
            ids@ == ids_of(selected(old(self)@, page@)),
            final(self)@ == mark_after(old(self)@, page@),
    {
        let mut ids: Vec<u64> = Vec::new();
        let mut i: usize = page.len();
        let ghost mut chosen: Seq<WebhookDelivery> = Seq::empty();
        proof {
            assert(page@.take(i as int) == page@);
            assert(chosen + selected(self@, page@) == selected(self@, page@));
        }
        while i > 0
            invariant
                i <= page.len(),
                ids@ == ids_of(chosen),
                chosen + selected(self@, page@.take(i as int)) == selected(old(self)@, page@),
                mark_after(self@, page@.take(i as int)) == mark_after(old(self)@, page@),
            decreases i,
        {
            let ghost before = self@;
            let ghost head = page@.take(i as int);
            i = i - 1;
            let d = &page[i];
            proof {
                assert(head.last() == *d);
                assert(head.drop_last() == page@.take(i as int));
            }
            if self.admits(d) {
                self.last_seen = Some((d.id, d.delivered_at));
                ids.push(d.id);
                proof {
                    assert(self@ == advance(before, *d));
                    let rest = selected(self@, page@.take(i as int));
                    assert(chosen + (seq![*d] + rest) == chosen.push(*d) + rest);
                    chosen = chosen.push(*d);
                    assert(ids@ == ids_of(chosen));
                }
            }
        }
        proof {
            assert(page@.take(0) == Seq::<WebhookDelivery>::empty());
            assert(chosen + Seq::<WebhookDelivery>::empty() == chosen);
        }
        ids
    }
}

/// The ids of `s` grow strictly from each element to the next.
pub open spec fn ids_increase(s: Seq<WebhookDelivery>) -> bool {
    forall|i: int, j: int| 0 <= i < j < s.len() ==> s[i].id < s[j].id
}

/// No element of `s` was delivered before an element that stands before it.
pub open spec fn times_ascend(s: Seq<WebhookDelivery>) -> bool {
    forall|i: int, j: int|
        0 <= i < j < s.len() ==> !s[j].delivered_at.precedes(s[i].delivered_at)
}

/// Every id of `s` is larger than the last id that `m` has seen, if it has
/// seen one.
pub open spec fn above_mark(m: Mark, s: Seq<WebhookDelivery>) -> bool {
    m.last matches Some((id, _)) ==> forall|i: int| 0 <= i < s.len() ==> s[i].id > id
}

/// The summaries selected over a run of pages, in the order of selection.
pub open spec fn session(m: Mark, pages: Seq<Seq<WebhookDelivery>>) -> Seq<WebhookDelivery>
    decreases pages.len(),
{
    if pages.len() == 0 {
        Seq::empty()
    } else {
        selected(m, pages.first()) + session(mark_after(m, pages.first()), pages.drop_first())
    }
}

/// `d` stands on one of `pages`.
pub open spec fn listed(pages: Seq<Seq<WebhookDelivery>>, d: WebhookDelivery) -> bool {
    exists|p: int| 0 <= p < pages.len() && #[trigger] pages[p].contains(d)
}

/// Over all of `pages` the source numbers its deliveries in the order of
/// their times: a larger id never comes with an earlier time.
pub open spec fn chronological(pages: Seq<Seq<WebhookDelivery>>) -> bool {
    forall|a: WebhookDelivery, b: WebhookDelivery|
        #[trigger] listed(pages, a) && #[trigger] listed(pages, b) && a.id < b.id
            ==> !b.delivered_at.precedes(a.delivered_at)
}

/// Within one page the selected ids grow strictly and lie above the
/// watermark, every selected summary stands on the page, and the watermark
/// ends at the last one selected.
pub proof fn lemma_selected(m: Mark, page: Seq<WebhookDelivery>)
    ensures
        ids_increase(selected(m, page)),
        above_mark(m, selected(m, page)),
        forall|i: int|
            0 <= i < selected(m, page).len() ==> page.contains(#[trigger] selected(m, page)[i]),
        mark_after(m, page) == if selected(m, page).len() == 0 {
            m
        } else {
            advance(m, selected(m, page).last())
        },
    decreases page.len(),
{
    if page.len() > 0 {
        let d = page.last();
        let m2 = observe(m, d);
        let front = page.drop_last();
        let rest = selected(m2, front);
        lemma_selected(m2, front);
        assert forall|i: int| 0 <= i < rest.len() implies page.contains(#[trigger] rest[i]) by {
            assert(front.contains(rest[i]));
            let k = choose|k: int| 0 <= k < front.len() && front[k] == rest[i];
            assert(page[k] == rest[i]);
        }
        if is_new(m, d) {
            let s = seq![d] + rest;
            assert(selected(m, page) == s);
            assert(page[page.len() - 1] == d);
            assert forall|i: int| 0 <= i < s.len() implies page.contains(#[trigger] s[i]) by {
                if i > 0 {
                    assert(s[i] == rest[i - 1]);
                }
            }
            assert forall|i: int, j: int| 0 <= i < j < s.len() implies s[i].id < s[j].id by {
                assert(s[j] == rest[j - 1]);
                if i > 0 {
                    assert(s[i] == rest[i - 1]);
                }
            }
            if m.last is Some {
                assert forall|i: int| 0 <= i < s.len() implies s[i].id > m.last.unwrap().0 by {
                    if i > 0 {
                        assert(s[i] == rest[i - 1]);
                    }
                }
            }
            if rest.len() > 0 {
                assert(s.last() == rest.last());
            }
        }
    }
}

/// Every summary selected over a run of pages stands on one of them.
pub proof fn lemma_session_listed(m: Mark, pages: Seq<Seq<WebhookDelivery>>, k: int)
    requires
        0 <= k < session(m, pages).len(),
    ensures
        listed(pages, session(m, pages)[k]),
    decreases pages.len(),
{
    let head = selected(m, pages.first());
    lemma_selected(m, pages.first());
    if k < head.len() {
        assert(pages[0].contains(head[k]));
    } else {
        let tail = pages.drop_first();
        lemma_session_listed(mark_after(m, pages.first()), tail, k - head.len());
        let d = session(m, pages)[k];
        let p = choose|p: int| 0 <= p < tail.len() && #[trigger] tail[p].contains(d);
        assert(pages[p + 1] == tail[p]);
        assert(pages[p + 1].contains(d));
    }
}

/// Whatever pages a session polls, the ids it selects grow strictly, so none
/// is selected twice, and all of them lie above the watermark it began with.
pub proof fn lemma_session_ids_increase(m: Mark, pages: Seq<Seq<WebhookDelivery>>)
    ensures
        ids_increase(session(m, pages)),
        above_mark(m, session(m, pages)),
        session(m, pages).no_duplicates(),
    decreases pages.len(),
{
    let all = session(m, pages);
    if pages.len() > 0 {
        let head = selected(m, pages.first());
        let m2 = mark_after(m, pages.first());
        let tail = session(m2, pages.drop_first());
        lemma_selected(m, pages.first());
        lemma_session_ids_increase(m2, pages.drop_first());
        assert(all == head + tail);
        assert forall|i: int, j: int| 0 <= i < j < all.len() implies all[i].id < all[j].id by {
            if j >= head.len() {
                assert(all[j] == tail[j - head.len()]);
                if i >= head.len() {
                    assert(all[i] == tail[i - head.len()]);
                } else {
                    assert(all[i] == head[i]);
                    assert(head[i].id <= head.last().id);
                }
            } else {
                assert(all[i] == head[i] && all[j] == head[j]);
            }
        }
        if m.last is Some {
            assert forall|i: int| 0 <= i < all.len() implies all[i].id > m.last.unwrap().0 by {
                if i >= head.len() {
                    assert(all[i] == tail[i - head.len()]);
                } else {
                    assert(all[i] == head[i]);
                }
            }
        }
    }
    assert forall|i: int, j: int| 0 <= i < all.len() && 0 <= j < all.len() && i != j implies all[i]
        != all[j] by {
        if i < j {
            assert(all[i].id < all[j].id);
        } else {
            assert(all[j].id < all[i].id);
        }
    }
}

/// Where the source numbers its deliveries in the order of their times, a
/// session selects them in the order of their times.
pub proof fn lemma_session_times_ascend(m: Mark, pages: Seq<Seq<WebhookDelivery>>)
    requires
        chronological(pages),
    ensures
        times_ascend(session(m, pages)),
{
    let all = session(m, pages);
    lemma_session_ids_increase(m, pages);
    assert forall|i: int, j: int| 0 <= i < j < all.len() implies !all[j].delivered_at.precedes(
        all[i].delivered_at,
    ) by {
        lemma_session_listed(m, pages, i);
        lemma_session_listed(m, pages, j);
        assert(all[i].id < all[j].id);
    }
}

/// A page on which nothing is new selects nothing and leaves the watermark
/// where it was.
pub proof fn lemma_nothing_new(m: Mark, page: Seq<WebhookDelivery>)
    requires
        forall|i: int| 0 <= i < page.len() ==> !is_new(m, #[trigger] page[i]),
    ensures
        selected(m, page) == Seq::<WebhookDelivery>::empty(),
        mark_after(m, page) == m,
    decreases page.len(),
{
    if page.len() > 0 {
        assert(!is_new(m, page[page.len() - 1]));
        let front = page.drop_last();
        assert forall|i: int| 0 <= i < front.len() implies !is_new(m, #[trigger] front[i]) by {
            assert(front[i] == page[i]);
        }
        lemma_nothing_new(m, front);
    }
}

/// Before any delivery was seen, a page that holds no delivery later than
/// the session's start selects nothing: a delivery at the very instant of the
/// start is not new.
pub proof fn lemma_start_is_excluded(m: Mark, page: Seq<WebhookDelivery>)
    requires
        m.last is None,
        forall|i: int|
            0 <= i < page.len() ==> !m.start.precedes(#[trigger] page[i].delivered_at),
    ensures
        selected(m, page) == Seq::<WebhookDelivery>::empty(),
        mark_after(m, page) == m,
{
    assert forall|i: int| 0 <= i < page.len() implies !is_new(m, #[trigger] page[i]) by {
        assert(!m.start.precedes(page[i].delivered_at));
    }
    lemma_nothing_new(m, page);
}

/// Before any delivery was seen, a delivery later than the session's start,
/// by however little, is selected and becomes the watermark.
pub proof fn lemma_after_start_is_selected(m: Mark, d: WebhookDelivery)
    requires
        m.last is None,
        m.start.precedes(d.delivered_at),
    ensures
        selected(m, seq![d]) == seq![d],
        mark_after(m, seq![d]) == advance(m, d),
{
    let page = seq![d];
    assert(page.last() == d);
    assert(page.drop_last() == Seq::<WebhookDelivery>::empty());
    assert(selected(advance(m, d), page.drop_last()) == Seq::<WebhookDelivery>::empty());
    assert(seq![d] + Seq::<WebhookDelivery>::empty() == seq![d]);
    assert(mark_after(advance(m, d), page.drop_last()) == advance(m, d));
}

/// Once the delivery with id `n` was selected, a page whose ids are all `n`
/// or less selects nothing.
pub proof fn lemma_seen_ids_are_excluded(m: Mark, n: u64, page: Seq<WebhookDelivery>)
    requires
        m.last matches Some((id, _)) && id == n,
        forall|i: int| 0 <= i < page.len() ==> (#[trigger] page[i]).id <= n,
    ensures
        selected(m, page) == Seq::<WebhookDelivery>::empty(),
        mark_after(m, page) == m,
{
    assert forall|i: int| 0 <= i < page.len() implies !is_new(m, #[trigger] page[i]) by {
        assert(page[i].id <= n);
    }
    lemma_nothing_new(m, page);
}

} // verus!
