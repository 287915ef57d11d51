use thread_relay::guard::InFlight;

#[test]
fn second_message_of_a_busy_thread_waits() {
    let mut g = InFlight::new();
    assert!(!g.is_busy(7));
    assert!(g.try_begin(7));
    assert!(g.is_busy(7));
    assert!(!g.try_begin(7));
    assert!(g.try_begin(8));
    g.finish(7);
    assert!(!g.is_busy(7));
    assert!(g.is_busy(8));
    assert!(g.try_begin(7));
}

#[test]
fn finishing_an_idle_thread_changes_nothing() {
    let mut g = InFlight::new();
    g.finish(3);
    assert!(!g.is_busy(3));
}
