use logs_plugin::Plugin;

const TS: u64 = 1_700_000_000;

fn fresh() -> (
    Plugin,
    crossbeam_channel::Receiver<String>,
) {
    let (tx, rx) = crossbeam_channel::unbounded::<String>();
    (Plugin::new(&tx), rx)
}

#[test]
fn name_is_fixed() {
    let (p, _rx) = fresh();
    assert_eq!(p.name(), "logs");
}

#[test]
fn unload_token() {
    let (p, _rx) = fresh();
    assert_eq!(p.unload(), "unload");
}

#[test]
fn dispatch_returns_send_token() {
    let (mut p, _rx) = fresh();
    assert_eq!(p.dispatch("add", "", TS, "x", "alpha"), "send");
    assert_eq!(p.dispatch("clear", "", TS, "", "alpha"), "send");
    assert_eq!(p.dispatch("report", "myself", TS, "", "alpha"), "send");
    assert_eq!(p.dispatch("nonsense", "", TS, "", "alpha"), "send");
}

#[test]
fn scenario_add_then_report() {
    let (mut p, rx) = fresh();
    // "boot ok" stands for the decrypted form of the incoming data.
    p.dispatch("add", "3b2a1c", TS, "boot ok", "alpha");
    assert_eq!(p.len(), 1);
    p.dispatch("report", "myself", TS, "", "alpha");
    let msg = rx.try_recv().expect("one report message");
    assert!(rx.try_recv().is_err(), "exactly one message");
    let prefix = "send plugin mqtt report '";
    assert!(msg.starts_with(prefix));
    assert!(msg.ends_with('\''));
    let json = &msg[prefix.len()..msg.len() - 1];
    let report = logs_plugin::codec::deserialize_report(json).expect("decodable report");
    assert_eq!(report.topic, "tln/alpha/logs");
    assert!(report.payload.contains("boot ok"));
    assert!(report.payload.starts_with("1: "));
}

#[test]
fn scenario_report_to_someone_else_sends_nothing() {
    let (mut p, rx) = fresh();
    p.dispatch("add", "", TS, "a line", "alpha");
    p.dispatch("report", "someone-else", TS, "", "alpha");
    assert!(rx.try_recv().is_err());
}

#[test]
fn scenario_clear_on_nonempty() {
    let (mut p, rx) = fresh();
    p.dispatch("add", "", TS, "one", "alpha");
    p.dispatch("add", "", TS, "two", "alpha");
    assert!(p.len() == 2);
    assert_eq!(p.dispatch("clear", "ignored", TS, "", "alpha"), "send");
    assert_eq!(p.len(), 0);
    assert_eq!(p.status(), "");
    assert!(rx.try_recv().is_err());
}

#[test]
fn unknown_action_is_a_no_op() {
    let (mut p, _rx) = fresh();
    p.dispatch("add", "", TS, "kept", "alpha");
    p.dispatch("flush", "", TS, "", "alpha");
    assert_eq!(p.len(), 1);
    assert!(p.status().contains("kept"));
}

#[test]
fn status_is_idempotent() {
    let (mut p, _rx) = fresh();
    p.dispatch("add", "", TS, "first", "alpha");
    p.dispatch("add", "", TS + 5, "second", "alpha");
    let a = p.status();
    let b = p.status();
    assert_eq!(a, b);
}

#[test]
fn status_preserves_order() {
    let (mut p, _rx) = fresh();
    p.dispatch("add", "", TS, "earlier-entry", "alpha");
    p.dispatch("add", "", TS + 1, "later-entry", "alpha");
    let s = p.status();
    let i = s.find("earlier-entry").expect("first entry rendered");
    let j = s.find("later-entry").expect("second entry rendered");
    assert!(i < j);
}

#[test]
fn report_order_matches_dispatch_order() {
    let (mut p, rx) = fresh();
    p.dispatch("add", "", TS, "only", "alpha");
    p.dispatch("report", "myself", TS, "", "first");
    p.dispatch("report", "myself", TS, "", "first");
    let m1 = rx.try_recv().expect("first message");
    let m2 = rx.try_recv().expect("second message");
    assert_eq!(m1, m2);
    assert!(rx.try_recv().is_err());
}

#[test]
fn send_outcome_starts_unset_and_tracks_reports() {
    let (mut p, rx) = fresh();
    assert_eq!(p.last_send_ok(), None);
    p.dispatch("add", "", TS, "entry", "alpha");
    assert_eq!(p.last_send_ok(), None);
    p.dispatch("report", "someone-else", TS, "", "alpha");
    assert_eq!(p.last_send_ok(), None);
    p.dispatch("report", "myself", TS, "", "alpha");
    assert_eq!(p.last_send_ok(), Some(true));
    assert!(rx.try_recv().is_ok());
}

#[test]
fn lost_report_is_noted_and_never_touches_the_buffer() {
    let (tx, rx) = crossbeam_channel::unbounded::<String>();
    let mut p = Plugin::new(&tx);
    p.dispatch("add", "", TS, "kept line", "alpha");
    drop(rx);
    assert_eq!(p.dispatch("report", "myself", TS, "", "alpha"), "send");
    assert_eq!(p.last_send_ok(), Some(false));
    assert_eq!(p.len(), 1);
    assert!(p.status().contains("kept line"));
}

#[test]
fn report_does_not_block_on_a_full_bounded_channel() {
    let (tx, rx) = crossbeam_channel::bounded::<String>(1);
    tx.send("occupied".to_owned()).unwrap();
    let mut p = Plugin::new(&tx);
    p.dispatch("add", "", TS, "still here", "alpha");
    assert_eq!(p.dispatch("report", "myself", TS, "", "alpha"), "send");
    assert_eq!(p.last_send_ok(), Some(false));
    assert_eq!(rx.try_recv().unwrap(), "occupied");
    assert!(rx.try_recv().is_err());
    assert_eq!(p.len(), 1);
}

#[test]
fn eviction_keeps_the_newest_500() {
    let (mut p, _rx) = fresh();
    for k in 1..=501u64 {
        p.dispatch("add", "", TS + k, &k.to_string(), "alpha");
        assert!(p.len() <= 500);
    }
    assert_eq!(p.len(), 500);
    let s = p.status();
    // Entry 1 was evicted; entry 2 is now first, entry 501 last.
    assert!(s.starts_with("1: "));
    assert!(s.lines().next().unwrap().ends_with(" : 2"));
    assert!(s.lines().last().unwrap().ends_with(" : 501"));
    assert_eq!(s.lines().count(), 500);
}
