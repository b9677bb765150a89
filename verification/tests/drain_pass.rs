//! Drain behaviour: FIFO order, TTL expiry, rate limiting, and the
//! retry-then-expire path, each run through whole ticks.
use mail_relay::drain::{entry_expired, run_tick, DrainAction, DrainPass, SendOutcome, TTL_SECONDS};
use mail_relay::email::Email;
use mail_relay::ledger::ErrorLedger;
use mail_relay::queue::MailQueue;

fn enqueue_named(queue: &mut MailQueue, subject: &str, at: u64) {
    queue.enqueue(Email::new(String::from(subject), String::from("body")), at);
}

#[test]
fn fifo_drain_order() {
    let mut queue = MailQueue::new();
    let mut ledger = ErrorLedger::new();
    enqueue_named(&mut queue, "A", 100);
    enqueue_named(&mut queue, "B", 101);
    enqueue_named(&mut queue, "C", 102);
    let outcomes = vec![SendOutcome::Sent, SendOutcome::Sent, SendOutcome::Sent];
    let (dispatched, processed) = run_tick(&mut queue, &mut ledger, &outcomes, 150, 3);
    assert_eq!(processed, 3);
    assert_eq!(queue.len(), 0);
    assert_eq!(ledger.len(), 0);
    let subjects: Vec<&str> = dispatched.iter().map(|e| e.subject.as_str()).collect();
    assert_eq!(subjects, ["A", "B", "C"]);
}

#[test]
fn ttl_expiry_skips_transport() {
    let mut queue = MailQueue::new();
    let mut ledger = ErrorLedger::new();
    enqueue_named(&mut queue, "stale", 0);
    assert!(entry_expired(&queue, 0, TTL_SECONDS + 1));
    // No outcomes supplied: the transport is never consulted, yet the
    // expired entry still goes.
    let outcomes: Vec<SendOutcome> = Vec::new();
    let (dispatched, processed) = run_tick(&mut queue, &mut ledger, &outcomes, TTL_SECONDS + 1, 5);
    assert_eq!(processed, 1);
    assert_eq!(queue.len(), 0);
    assert!(dispatched.is_empty());
    assert_eq!(ledger.len(), 0);
}

#[test]
fn entry_at_exact_ttl_is_not_expired() {
    let mut queue = MailQueue::new();
    enqueue_named(&mut queue, "fresh", 0);
    assert!(!entry_expired(&queue, 0, TTL_SECONDS));
    assert!(entry_expired(&queue, 0, TTL_SECONDS + 1));
}

#[test]
fn expiry_beats_remaining_budget() {
    // An expired entry in front of live ones is discarded first and
    // costs budget, like any processed entry.
    let mut queue = MailQueue::new();
    let mut ledger = ErrorLedger::new();
    enqueue_named(&mut queue, "stale", 0);
    enqueue_named(&mut queue, "live", 400);
    let outcomes = vec![SendOutcome::Sent];
    let (dispatched, processed) = run_tick(&mut queue, &mut ledger, &outcomes, 500, 5);
    assert_eq!(processed, 2);
    assert_eq!(queue.len(), 0);
    assert_eq!(dispatched.len(), 1);
    assert_eq!(dispatched[0].subject, "live");
}

#[test]
fn rate_limit_caps_processed_entries() {
    let mut queue = MailQueue::new();
    let mut ledger = ErrorLedger::new();
    for name in ["a", "b", "c", "d", "e"] {
        enqueue_named(&mut queue, name, 100);
    }
    let outcomes = vec![SendOutcome::Sent, SendOutcome::Sent];
    let (dispatched, processed) = run_tick(&mut queue, &mut ledger, &outcomes, 150, 2);
    assert_eq!(processed, 2);
    assert_eq!(dispatched.len(), 2);
    assert_eq!(queue.len(), 3);
    assert_eq!(queue.get(0).email.subject, "c");
    assert_eq!(queue.get(1).email.subject, "d");
    assert_eq!(queue.get(2).email.subject, "e");
}

#[test]
fn failed_dispatch_keeps_entry_and_records() {
    let mut queue = MailQueue::new();
    let mut ledger = ErrorLedger::new();
    enqueue_named(&mut queue, "flaky", 100);
    let outcomes = vec![SendOutcome::Failed(String::from("connection refused"))];
    let (dispatched, processed) = run_tick(&mut queue, &mut ledger, &outcomes, 150, 3);
    assert_eq!(processed, 1);
    assert!(dispatched.is_empty());
    assert_eq!(queue.len(), 1);
    assert_eq!(queue.get(0).email.subject, "flaky");
    assert_eq!(queue.get(0).received_at, 100);
    assert_eq!(ledger.len(), 1);
    let record = ledger.get(0);
    assert_eq!(record.reason.as_deref(), Some("connection refused"));
    assert_eq!(record.occurred_at, 150);
    // The tag is a digest prefix, not the text itself.
    assert_eq!(record.hash.chars().count(), 10);
    assert_ne!(record.hash, "connection");
    assert!(record.hash.chars().all(|c| c.is_ascii_hexdigit()));
}

#[test]
fn failure_tag_is_deterministic() {
    let mut first = ErrorLedger::new();
    let mut second = ErrorLedger::new();
    let mut queue_one = MailQueue::new();
    let mut queue_two = MailQueue::new();
    enqueue_named(&mut queue_one, "x", 0);
    enqueue_named(&mut queue_two, "y", 0);
    let outcomes = vec![SendOutcome::Failed(String::from("boom"))];
    run_tick(&mut queue_one, &mut first, &outcomes, 10, 1);
    run_tick(&mut queue_two, &mut second, &outcomes, 10, 1);
    assert_eq!(first.get(0).hash, second.get(0).hash);
}

#[test]
fn retry_then_expire() {
    let mut queue = MailQueue::new();
    let mut ledger = ErrorLedger::new();
    enqueue_named(&mut queue, "doomed", 0);
    let failing = vec![SendOutcome::Failed(String::from("still down"))];
    // Two ticks inside the TTL: the entry stays put, one record each.
    let (d1, _) = run_tick(&mut queue, &mut ledger, &failing, 100, 3);
    assert!(d1.is_empty());
    assert_eq!(queue.len(), 1);
    assert_eq!(ledger.len(), 1);
    let (d2, _) = run_tick(&mut queue, &mut ledger, &failing, 200, 3);
    assert!(d2.is_empty());
    assert_eq!(queue.len(), 1);
    assert_eq!(queue.get(0).received_at, 0);
    assert_eq!(ledger.len(), 2);
    // Past the TTL the entry is expired without another attempt.
    let (d3, processed) = run_tick(&mut queue, &mut ledger, &Vec::new(), TTL_SECONDS + 1, 3);
    assert!(d3.is_empty());
    assert_eq!(processed, 1);
    assert_eq!(queue.len(), 0);
    assert_eq!(ledger.len(), 2);
}

#[test]
fn outcome_exhaustion_stops_the_pass() {
    let mut queue = MailQueue::new();
    let mut ledger = ErrorLedger::new();
    enqueue_named(&mut queue, "one", 100);
    enqueue_named(&mut queue, "two", 101);
    let outcomes = vec![SendOutcome::Sent];
    let (dispatched, processed) = run_tick(&mut queue, &mut ledger, &outcomes, 150, 5);
    assert_eq!(processed, 1);
    assert_eq!(dispatched.len(), 1);
    assert_eq!(queue.len(), 1);
    assert_eq!(queue.get(0).email.subject, "two");
}

#[test]
fn mixed_outcomes_keep_failed_in_front() {
    let mut queue = MailQueue::new();
    let mut ledger = ErrorLedger::new();
    enqueue_named(&mut queue, "first", 100);
    enqueue_named(&mut queue, "second", 101);
    enqueue_named(&mut queue, "third", 102);
    let outcomes = vec![
        SendOutcome::Failed(String::from("err")),
        SendOutcome::Sent,
        SendOutcome::Failed(String::from("err again")),
    ];
    let (dispatched, processed) = run_tick(&mut queue, &mut ledger, &outcomes, 150, 3);
    assert_eq!(processed, 3);
    assert_eq!(dispatched.len(), 1);
    assert_eq!(dispatched[0].subject, "second");
    assert_eq!(queue.len(), 2);
    assert_eq!(queue.get(0).email.subject, "first");
    assert_eq!(queue.get(1).email.subject, "third");
    assert_eq!(ledger.len(), 2);
}

#[test]
fn lock_failure_record_has_tag_and_no_reason() {
    let mut ledger = ErrorLedger::new();
    ledger.push_lock_failure(42);
    assert_eq!(ledger.len(), 1);
    let record = ledger.get(0);
    assert!(record.reason.is_none());
    assert_eq!(record.occurred_at, 42);
    assert_eq!(record.hash.chars().count(), 10);
    assert!(record.hash.chars().all(|c| c.is_ascii_hexdigit()));
}

#[test]
fn step_api_drives_one_tick() {
    let mut queue = MailQueue::new();
    let mut ledger = ErrorLedger::new();
    enqueue_named(&mut queue, "stale", 0);
    enqueue_named(&mut queue, "good", 400);
    enqueue_named(&mut queue, "bad", 401);
    let now = TTL_SECONDS + 1;
    let mut pass = DrainPass::begin(&queue, &ledger, 3, now);
    let mut handed_out: Vec<String> = Vec::new();
    loop {
        match pass.next_action(&mut queue, &ledger) {
            DrainAction::Finished => break,
            DrainAction::Expired => {}
            DrainAction::Dispatch(email) => {
                handed_out.push(email.subject.clone());
                let outcome = if email.subject == "good" {
                    SendOutcome::Sent
                } else {
                    SendOutcome::Failed(String::from("refused"))
                };
                pass.record_outcome(&mut queue, &mut ledger, outcome);
            }
        }
    }
    assert_eq!(handed_out, ["good", "bad"]);
    assert_eq!(pass.processed, 3);
    assert_eq!(queue.len(), 1);
    assert_eq!(queue.get(0).email.subject, "bad");
    assert_eq!(ledger.len(), 1);
    assert_eq!(ledger.get(0).reason.as_deref(), Some("refused"));
    assert_eq!(ledger.get(0).occurred_at, now);
}
