use url_shortener::tracker::{HitAction, HitAggregator, HitEvent, Phase};
use url_shortener::window::Window;

const PERIOD: u64 = 5000;

fn hit(key: &str, now: u64) -> HitEvent {
    HitEvent::Hit { key: key.to_string(), now }
}

/// Hands each action's outcome back until the aggregator waits for input
/// again or stops; returns the writes it asked for and its last action.
fn drain(agg: &mut HitAggregator, mut action: HitAction, fail: bool) -> (Vec<(String, u64)>, HitAction) {
    let mut writes = Vec::new();
    loop {
        match action {
            HitAction::Write { key, amount } => {
                writes.push((key, amount));
                action = agg.step(HitEvent::WriteDone { ok: !fail });
            }
            other => return (writes, other),
        }
    }
}

#[test]
fn three_a_one_b_give_two_writes() {
    let mut agg = HitAggregator::new(PERIOD);
    assert!(matches!(agg.step(hit("a", 0)), HitAction::ReceiveUntil { deadline: 5000 }));
    assert!(matches!(agg.step(hit("a", 200)), HitAction::ReceiveUntil { deadline: 5000 }));
    assert!(matches!(agg.step(hit("b", 400)), HitAction::ReceiveUntil { deadline: 5000 }));
    assert!(matches!(agg.step(hit("a", 900)), HitAction::ReceiveUntil { deadline: 5000 }));
    let first = agg.step(HitEvent::TimerElapsed { now: 5000 });
    let (writes, last) = drain(&mut agg, first, false);
    assert_eq!(writes, vec![("a".to_string(), 3), ("b".to_string(), 1)]);
    assert!(matches!(last, HitAction::Receive));
    assert_eq!(agg.phase(), Phase::Idle);
}

#[test]
fn close_flushes_without_waiting() {
    let mut agg = HitAggregator::new(PERIOD);
    agg.step(hit("x", 10));
    let first = agg.step(HitEvent::ChannelClosed);
    let (writes, last) = drain(&mut agg, first, false);
    assert_eq!(writes, vec![("x".to_string(), 1)]);
    assert!(matches!(last, HitAction::Stop));
    assert_eq!(agg.phase(), Phase::Stopped);
}

#[test]
fn close_with_no_hits_writes_nothing() {
    let mut agg = HitAggregator::new(PERIOD);
    assert!(matches!(agg.step(HitEvent::ChannelClosed), HitAction::Stop));
    assert_eq!(agg.phase(), Phase::Stopped);
}

#[test]
fn distinct_keys_get_separate_writes() {
    let mut agg = HitAggregator::new(PERIOD);
    for (i, k) in ["p", "q", "p", "r", "q", "p"].iter().enumerate() {
        agg.step(hit(k, i as u64));
    }
    let first = agg.step(HitEvent::TimerElapsed { now: 6000 });
    let (writes, _) = drain(&mut agg, first, false);
    assert_eq!(
        writes,
        vec![("p".to_string(), 3), ("q".to_string(), 2), ("r".to_string(), 1)]
    );
}

#[test]
fn early_timer_keeps_collecting() {
    let mut agg = HitAggregator::new(PERIOD);
    agg.step(hit("a", 100));
    assert!(matches!(
        agg.step(HitEvent::TimerElapsed { now: 5099 }),
        HitAction::ReceiveUntil { deadline: 5100 }
    ));
    assert_eq!(agg.phase(), Phase::Collecting);
    match agg.step(HitEvent::TimerElapsed { now: 5100 }) {
        HitAction::Write { key, amount } => {
            assert_eq!(key, "a");
            assert_eq!(amount, 1);
        }
        _ => panic!("the window should close at its deadline"),
    }
}

#[test]
fn late_hit_starts_next_window() {
    let mut agg = HitAggregator::new(PERIOD);
    agg.step(hit("a", 0));
    agg.step(hit("a", 1000));
    let first = agg.step(hit("b", 5000));
    let (writes, last) = drain(&mut agg, first, false);
    assert_eq!(writes, vec![("a".to_string(), 2)]);
    assert!(matches!(last, HitAction::ReceiveUntil { deadline: 10000 }));
    assert_eq!(agg.phase(), Phase::Collecting);
    let first = agg.step(HitEvent::ChannelClosed);
    let (writes, last) = drain(&mut agg, first, false);
    assert_eq!(writes, vec![("b".to_string(), 1)]);
    assert!(matches!(last, HitAction::Stop));
}

#[test]
fn failed_writes_do_not_stop_the_flush() {
    let mut agg = HitAggregator::new(PERIOD);
    agg.step(hit("a", 0));
    agg.step(hit("b", 1));
    agg.step(hit("c", 2));
    let first = agg.step(HitEvent::TimerElapsed { now: 5000 });
    let (writes, last) = drain(&mut agg, first, true);
    assert_eq!(writes.len(), 3);
    assert!(matches!(last, HitAction::Receive));
    assert!(matches!(agg.step(hit("d", 9000)), HitAction::ReceiveUntil { deadline: 14000 }));
}

#[test]
fn deadline_saturates() {
    let mut agg = HitAggregator::new(PERIOD);
    assert!(matches!(
        agg.step(hit("a", u64::MAX - 1)),
        HitAction::ReceiveUntil { deadline: u64::MAX }
    ));
}

#[test]
fn accepts_follows_the_phase() {
    let mut agg = HitAggregator::new(PERIOD);
    assert!(agg.accepts(&hit("a", 0)));
    assert!(!agg.accepts(&HitEvent::WriteDone { ok: true }));
    assert!(!agg.accepts(&HitEvent::TimerElapsed { now: 0 }));
    agg.step(hit("a", 0));
    assert!(agg.accepts(&HitEvent::TimerElapsed { now: 0 }));
    agg.step(HitEvent::TimerElapsed { now: 5000 });
    assert!(agg.accepts(&HitEvent::WriteDone { ok: false }));
    assert!(!agg.accepts(&hit("a", 0)));
}

#[test]
fn window_counts_each_key() {
    let mut w = Window::new();
    assert_eq!(w.len(), 0);
    w.record("k".to_string());
    w.record("j".to_string());
    w.record("k".to_string());
    assert_eq!(w.len(), 2);
    let incs = w.increments();
    assert_eq!(incs[0].key, "k");
    assert_eq!(incs[0].amount, 2);
    assert_eq!(incs[1].key, "j");
    assert_eq!(incs[1].amount, 1);
}
