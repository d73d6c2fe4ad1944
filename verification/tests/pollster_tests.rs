use chrono::{DateTime, Utc};
use ghes_webhook::clock::Timestamp;
use ghes_webhook::gh::{WebhookDelivery, WebhookDeliveryDetails, WebhookDeliveryRequest};
use ghes_webhook::watermark::Watermark;
use ghes_webhook::pollster::{
    should_terminate, should_terminate_at, Phase, PollCommand, PollEvent, PollMessage, Poller,
    BACKOFF_SECONDS, TIMEOUT_MINUTES,
};

const T0: i64 = 1_700_000_000;

fn at(secs: i64, nanos: u32) -> Timestamp {
    Timestamp::new(secs, nanos).unwrap()
}

fn stamp(t: DateTime<Utc>) -> Timestamp {
    Timestamp::new(t.timestamp(), t.timestamp_subsec_nanos()).unwrap()
}

fn summary(id: u64, delivered_at: Timestamp) -> WebhookDelivery {
    WebhookDelivery {
        id,
        delivered_at,
        event: String::from("issues"),
        action: String::from("opened"),
    }
}

fn details(id: u64, delivered_at: Timestamp) -> WebhookDeliveryDetails {
    WebhookDeliveryDetails {
        id,
        delivered_at,
        event: String::from("issues"),
        action: String::from("opened"),
        request: WebhookDeliveryRequest {
            headers: vec![(String::from("Content-Type"), String::from("application/json"))],
            payload: serde_json::Value::String(String::from("body")),
        },
    }
}

fn delivered_id(message: Option<PollMessage>) -> u64 {
    match message {
        Some(PollMessage::Delivery(d)) => d.id,
        other => panic!("expected a delivery, got {:?}", other),
    }
}

#[test]
fn test_should_terminate() {
    let now = Utc::now();
    let time = now - chrono::Duration::minutes(11);
    assert!(should_terminate(stamp(time)));
}

#[test]
fn test_should_not_terminate() {
    let now = Utc::now();
    let time = now - chrono::Duration::minutes(9);
    assert!(!should_terminate(stamp(time)));
}

#[test]
fn timeout_is_reached_at_ten_minutes_exactly() {
    assert_eq!(TIMEOUT_MINUTES, 10);
    let since = at(T0, 500);
    assert!(should_terminate_at(since, at(T0 + 11 * 60, 500)));
    assert!(!should_terminate_at(since, at(T0 + 9 * 60, 500)));
    assert!(should_terminate_at(since, at(T0 + 600, 500)));
    assert!(!should_terminate_at(since, at(T0 + 600, 499)));
    assert!(!should_terminate_at(since, at(T0 + 599, 999_999_999)));
    assert!(should_terminate_at(since, at(T0 + 600, 501)));
}

#[test]
fn timeout_is_not_reached_backwards() {
    let since = at(T0, 0);
    assert!(!should_terminate_at(since, at(T0 - 3600, 0)));
    assert!(!should_terminate_at(since, since));
}

#[test]
fn timeout_counts_a_leap_second() {
    // A nanosecond count of a second or more, in the 59th second of a minute, is a leap second.
    let minute_end = 1_435_708_859;
    assert_eq!(minute_end % 86_400, 59);
    let leap = at(minute_end, 1_000_000_000);
    // The leap second of the earlier instant is counted.
    assert!(should_terminate_at(leap, at(minute_end + 600, 0)));
    assert!(!should_terminate_at(leap, at(minute_end + 599, 999_999_999)));
    assert!(!should_terminate_at(at(minute_end, 999_999_999), at(minute_end + 600, 0)));
    // The one of the later instant is not, where the earlier lies in a later second of its day.
    let late_leap = at(minute_end, 1_999_999_999);
    assert!(should_terminate_at(at(minute_end - 601, 0), late_leap));
    assert!(!should_terminate_at(at(minute_end - 599, 0), late_leap));
    assert!(should_terminate_at(at(minute_end - 599, 0), at(minute_end + 1, 999_999_999)));
}

#[test]
fn timestamp_accepts_what_the_calendar_holds() {
    let min = DateTime::<Utc>::MIN_UTC;
    let max = DateTime::<Utc>::MAX_UTC;
    assert_eq!(min.timestamp(), ghes_webhook::clock::MIN_SECONDS);
    assert_eq!(max.timestamp(), ghes_webhook::clock::MAX_SECONDS);
    let cases: Vec<(i64, u32)> = vec![
        (0, 0),
        (T0, 999_999_999),
        (min.timestamp(), 0),
        (min.timestamp() - 1, 0),
        (max.timestamp(), 999_999_999),
        (max.timestamp(), 1_999_999_999),
        (max.timestamp() + 1, 0),
        (59, 1_000_000_000),
        (58, 1_000_000_000),
        (-1, 1_500_000_000),
        (-2, 1_500_000_000),
        (0, 2_000_000_000),
        (i64::MAX, 0),
        (i64::MIN, 0),
    ];
    for (secs, nanos) in cases {
        let ours = Timestamp::new(secs, nanos);
        let theirs = DateTime::from_timestamp(secs, nanos);
        assert_eq!(ours.is_some(), theirs.is_some(), "{} {}", secs, nanos);
        if let Some(t) = ours {
            assert_eq!(t.secs(), secs);
            assert_eq!(t.nanos(), nanos);
        }
    }
}

#[test]
fn timestamp_order_is_by_seconds_then_nanoseconds() {
    assert!(at(T0, 1).is_after(&at(T0, 0)));
    assert!(!at(T0, 0).is_after(&at(T0, 0)));
    assert!(!at(T0, 0).is_after(&at(T0, 1)));
    assert!(at(T0 + 1, 0).is_after(&at(T0, 999_999_999)));
    assert!(at(-5, 0).is_after(&at(-6, 999_999_999)));
}

#[test]
fn delivery_at_the_start_is_not_selected() {
    let start = at(T0, 0);
    let mut w = Watermark::new(start);
    let ids = w.select_new(&vec![summary(1, start)]);
    assert!(ids.is_empty());
    assert_eq!(w.last_id(), None);
    assert_eq!(w.last_delivery_time(), None);
    assert_eq!(w.start_time(), start);
}

#[test]
fn delivery_one_nanosecond_after_the_start_is_selected() {
    let start = at(T0, 0);
    let mut w = Watermark::new(start);
    let ids = w.select_new(&vec![summary(1, at(T0, 1))]);
    assert_eq!(ids, vec![1]);
    assert_eq!(w.last_id(), Some(1));
    assert_eq!(w.last_delivery_time(), Some(at(T0, 1)));
}

#[test]
fn delivery_before_the_start_is_not_selected() {
    let mut w = Watermark::new(at(T0, 0));
    let ids = w.select_new(&vec![summary(9, at(T0 - 1, 999_999_999))]);
    assert!(ids.is_empty());
}

#[test]
fn page_is_read_oldest_first() {
    let mut w = Watermark::new(at(T0, 0));
    let page = vec![
        summary(13, at(T0 + 30, 0)),
        summary(12, at(T0 + 20, 0)),
        summary(11, at(T0 + 10, 0)),
        summary(10, at(T0 - 10, 0)),
    ];
    let ids = w.select_new(&page);
    assert_eq!(ids, vec![11, 12, 13]);
    assert_eq!(w.last_id(), Some(13));
    assert_eq!(w.last_delivery_time(), Some(at(T0 + 30, 0)));
}

#[test]
fn seen_ids_are_not_selected_again() {
    let mut w = Watermark::new(at(T0, 0));
    let page = vec![summary(5, at(T0 + 2, 0)), summary(4, at(T0 + 1, 0))];
    assert_eq!(w.select_new(&page), vec![4, 5]);
    assert!(w.select_new(&page).is_empty());
    let older = vec![summary(5, at(T0 + 50, 0)), summary(3, at(T0 + 60, 0))];
    assert!(w.select_new(&older).is_empty());
    assert_eq!(w.last_id(), Some(5));
    assert_eq!(w.last_delivery_time(), Some(at(T0 + 2, 0)));
}

#[test]
fn id_gaps_are_allowed() {
    let mut w = Watermark::new(at(T0, 0));
    assert_eq!(w.select_new(&vec![summary(7, at(T0 + 1, 0))]), vec![7]);
    let page = vec![
        summary(40, at(T0 + 4, 0)),
        summary(19, at(T0 + 3, 0)),
        summary(7, at(T0 + 1, 0)),
    ];
    assert_eq!(w.select_new(&page), vec![19, 40]);
    assert_eq!(w.last_id(), Some(40));
}

#[test]
fn watermark_follows_the_order_of_the_page_not_the_largest_id() {
    let mut w = Watermark::new(at(T0, 0));
    // The source lists id 8 as newer than id 9: 9 is read first, then 8 is no longer new.
    let page = vec![summary(8, at(T0 + 5, 0)), summary(9, at(T0 + 4, 0))];
    assert_eq!(w.select_new(&page), vec![9]);
    assert_eq!(w.last_id(), Some(9));
    assert_eq!(w.last_delivery_time(), Some(at(T0 + 4, 0)));
}

#[test]
fn after_the_first_selection_only_ids_count() {
    let mut w = Watermark::new(at(T0, 0));
    // Once id 1 is selected, id 2 is new although it is not later than the start.
    let page = vec![summary(2, at(T0 - 100, 0)), summary(1, at(T0 + 1, 0))];
    assert_eq!(w.select_new(&page), vec![1, 2]);
    assert_eq!(w.last_delivery_time(), Some(at(T0 - 100, 0)));
    // Inactivity is measured from the later of the two instants.
    assert_eq!(w.reference(), at(T0, 0));
}

#[test]
fn empty_page_changes_nothing() {
    let mut w = Watermark::new(at(T0, 0));
    assert!(w.select_new(&Vec::new()).is_empty());
    assert_eq!(w.last_id(), None);
    assert_eq!(w.reference(), at(T0, 0));
}

#[test]
fn admits_follows_the_watermark() {
    let mut w = Watermark::new(at(T0, 0));
    assert!(w.admits(&summary(1, at(T0, 1))));
    assert!(!w.admits(&summary(1, at(T0, 0))));
    w.select_new(&vec![summary(3, at(T0 + 1, 0))]);
    assert!(w.admits(&summary(4, at(T0 - 1, 0))));
    assert!(!w.admits(&summary(3, at(T0 + 9, 0))));
    assert_eq!(w.reference(), at(T0 + 1, 0));
}

#[test]
fn session_emits_one_delivery_end_to_end() {
    let start = at(T0, 0);
    let mut p = Poller::new(start);
    assert_eq!(p.phase(), Phase::CheckingClock);
    assert_eq!(p.command(), PollCommand::ReadClock);
    assert!(p.step(PollEvent::Clock(at(T0 + 1, 0))).is_none());
    assert_eq!(p.command(), PollCommand::ListDeliveries);

    let future = at(4_089_312_000, 0);
    assert!(p.step(PollEvent::Page(vec![summary(1, future)])).is_none());
    assert_eq!(p.command(), PollCommand::GetDetails(1));

    let message = p.step(PollEvent::Details(details(1, at(1_627_776_000, 0))));
    match message {
        Some(PollMessage::Delivery(d)) => {
            assert_eq!(d.id, 1);
            assert_eq!(d.event, "issues");
            assert_eq!(d.action, "opened");
            assert_eq!(d.request.headers.len(), 1);
            assert_eq!(d.request.payload, serde_json::Value::String(String::from("body")));
        }
        other => panic!("expected a delivery, got {:?}", other),
    }
    assert_eq!(p.command(), PollCommand::Sleep(5));
    assert_eq!(BACKOFF_SECONDS, 5);
    assert!(p.step(PollEvent::Slept).is_none());
    assert_eq!(p.command(), PollCommand::ReadClock);
    assert_eq!(p.watermark().last_id(), Some(1));
    assert_eq!(p.watermark().last_delivery_time(), Some(future));

    // The same page again: nothing is emitted twice.
    assert!(p.step(PollEvent::Clock(at(T0 + 6, 0))).is_none());
    assert!(p.step(PollEvent::Page(vec![summary(1, future)])).is_none());
    assert_eq!(p.command(), PollCommand::Sleep(5));
}

#[test]
fn session_times_out_once_and_stops() {
    let mut p = Poller::new(at(T0, 0));
    assert!(p.step(PollEvent::Clock(at(T0 + 9 * 60, 0))).is_none());
    assert!(p.step(PollEvent::Page(Vec::new())).is_none());
    assert_eq!(p.command(), PollCommand::Sleep(5));
    assert!(p.step(PollEvent::Slept).is_none());
    let message = p.step(PollEvent::Clock(at(T0 + 11 * 60, 0)));
    assert!(matches!(message, Some(PollMessage::TimedOut)));
    assert_eq!(p.phase(), Phase::TimedOut);
    assert!(p.is_finished());
    assert_eq!(p.command(), PollCommand::Stop);
    assert!(p.step(PollEvent::Clock(at(T0 + 12 * 60, 0))).is_none());
    assert!(p.step(PollEvent::Page(vec![summary(1, at(T0 + 700, 0))])).is_none());
    assert!(p.step(PollEvent::Details(details(1, at(T0, 0)))).is_none());
    assert!(p.step(PollEvent::Slept).is_none());
    assert_eq!(p.phase(), Phase::TimedOut);
    assert_eq!(p.command(), PollCommand::Stop);
}

#[test]
fn timeout_is_measured_from_the_last_delivery() {
    let mut p = Poller::new(at(T0, 0));
    assert!(p.step(PollEvent::Clock(at(T0 + 60, 0))).is_none());
    assert!(p.step(PollEvent::Page(vec![summary(1, at(T0 + 300, 0))])).is_none());
    assert_eq!(delivered_id(p.step(PollEvent::Details(details(1, at(T0 + 300, 0))))), 1);
    assert!(p.step(PollEvent::Slept).is_none());
    // Eleven minutes after the start, but six after the last delivery.
    assert!(p.step(PollEvent::Clock(at(T0 + 660, 0))).is_none());
    assert_eq!(p.command(), PollCommand::ListDeliveries);
    assert!(p.step(PollEvent::Page(Vec::new())).is_none());
    assert!(p.step(PollEvent::Slept).is_none());
    let message = p.step(PollEvent::Clock(at(T0 + 900, 0)));
    assert!(matches!(message, Some(PollMessage::TimedOut)));
}

#[test]
fn failed_page_ends_the_session_without_a_message() {
    let mut p = Poller::new(at(T0, 0));
    assert!(p.step(PollEvent::Clock(at(T0 + 1, 0))).is_none());
    assert!(p.step(PollEvent::PageFailed).is_none());
    assert_eq!(p.phase(), Phase::Failed);
    assert!(p.is_finished());
    assert_eq!(p.command(), PollCommand::Stop);
    assert!(p.step(PollEvent::Clock(at(T0 + 3600, 0))).is_none());
    assert_eq!(p.phase(), Phase::Failed);
}

#[test]
fn failed_details_drop_one_delivery_only() {
    let mut p = Poller::new(at(T0, 0));
    assert!(p.step(PollEvent::Clock(at(T0 + 1, 0))).is_none());
    let page = vec![
        summary(3, at(T0 + 30, 0)),
        summary(2, at(T0 + 20, 0)),
        summary(1, at(T0 + 10, 0)),
    ];
    assert!(p.step(PollEvent::Page(page)).is_none());
    assert_eq!(p.command(), PollCommand::GetDetails(1));
    assert_eq!(delivered_id(p.step(PollEvent::Details(details(1, at(T0 + 10, 0))))), 1);
    assert_eq!(p.command(), PollCommand::GetDetails(2));
    assert!(p.step(PollEvent::DetailsFailed).is_none());
    assert_eq!(p.command(), PollCommand::GetDetails(3));
    assert_eq!(delivered_id(p.step(PollEvent::Details(details(3, at(T0 + 30, 0))))), 3);
    assert_eq!(p.command(), PollCommand::Sleep(5));
    assert_eq!(p.watermark().last_id(), Some(3));

    // The next cycle goes on as usual, and the dropped delivery is not fetched again.
    assert!(p.step(PollEvent::Slept).is_none());
    assert!(p.step(PollEvent::Clock(at(T0 + 40, 0))).is_none());
    let page = vec![summary(4, at(T0 + 35, 0)), summary(2, at(T0 + 20, 0))];
    assert!(p.step(PollEvent::Page(page)).is_none());
    assert_eq!(p.command(), PollCommand::GetDetails(4));
    assert_eq!(delivered_id(p.step(PollEvent::Details(details(4, at(T0 + 35, 0))))), 4);
    assert_eq!(p.command(), PollCommand::Sleep(5));
}

#[test]
fn events_that_answer_no_command_are_ignored() {
    let mut p = Poller::new(at(T0, 0));
    assert!(p.step(PollEvent::Slept).is_none());
    assert!(p.step(PollEvent::Page(vec![summary(1, at(T0 + 1, 0))])).is_none());
    assert!(p.step(PollEvent::Details(details(1, at(T0 + 1, 0)))).is_none());
    assert!(p.step(PollEvent::DetailsFailed).is_none());
    assert!(p.step(PollEvent::PageFailed).is_none());
    assert_eq!(p.phase(), Phase::CheckingClock);
    assert_eq!(p.watermark().last_id(), None);
    assert!(!p.is_finished());
}

#[test]
fn started_session_begins_now() {
    let before = Utc::now();
    let mut p = Poller::start();
    let after = Utc::now();
    let start = p.watermark().start_time();
    assert!(!stamp(before).is_after(&start));
    assert!(!start.is_after(&stamp(after)));
    assert_eq!(p.watermark().last_id(), None);
    assert_eq!(p.command(), PollCommand::ReadClock);
    assert!(p.check_clock().is_none());
    assert_eq!(p.command(), PollCommand::ListDeliveries);
}

#[test]
fn overlapping_pages_never_repeat_an_id() {
    let mut p = Poller::new(at(T0, 0));
    let pages = vec![
        vec![summary(2, at(T0 + 20, 0)), summary(1, at(T0 + 10, 0))],
        vec![
            summary(4, at(T0 + 40, 0)),
            summary(3, at(T0 + 30, 0)),
            summary(2, at(T0 + 20, 0)),
            summary(1, at(T0 + 10, 0)),
        ],
        vec![summary(4, at(T0 + 40, 0)), summary(3, at(T0 + 30, 0))],
        Vec::new(),
        vec![summary(7, at(T0 + 70, 0)), summary(4, at(T0 + 40, 0))],
    ];
    let mut requested: Vec<u64> = Vec::new();
    let mut emitted: Vec<(u64, Timestamp)> = Vec::new();
    let mut now = T0 + 1;
    for page in pages {
        assert!(p.step(PollEvent::Clock(at(now, 0))).is_none());
        let times: Vec<(u64, Timestamp)> = page.iter().map(|d| (d.id, d.delivered_at)).collect();
        assert!(p.step(PollEvent::Page(page)).is_none());
        while let PollCommand::GetDetails(id) = p.command() {
            requested.push(id);
            let delivered_at = times.iter().find(|(i, _)| *i == id).unwrap().1;
            match p.step(PollEvent::Details(details(id, delivered_at))) {
                Some(PollMessage::Delivery(d)) => emitted.push((d.id, d.delivered_at)),
                other => panic!("expected a delivery, got {:?}", other),
            }
        }
        assert_eq!(p.command(), PollCommand::Sleep(5));
        assert!(p.step(PollEvent::Slept).is_none());
        now += 5;
    }
    assert_eq!(requested, vec![1, 2, 3, 4, 7]);
    let ids: Vec<u64> = emitted.iter().map(|(id, _)| *id).collect();
    assert_eq!(ids, requested);
    for pair in emitted.windows(2) {
        assert!(pair[0].0 < pair[1].0);
        assert!(!pair[0].1.is_after(&pair[1].1));
    }
}
