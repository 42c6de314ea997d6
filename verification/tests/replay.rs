use pqvpn::crypto::replay::{ReplayWindow, WINDOW_SIZE};

#[test]
fn accepts_strictly_increasing_sequence() {
    let mut w = ReplayWindow::new();
    for seq in 0..200u64 {
        assert!(w.check(seq));
        w.commit(seq);
    }
}

#[test]
fn rejects_exact_duplicate() {
    let mut w = ReplayWindow::new();
    w.commit(10);
    assert!(!w.check(10));
}

#[test]
fn accepts_reordered_packet_within_window() {
    let mut w = ReplayWindow::new();
    w.commit(50);
    assert!(w.check(45));
    w.commit(45);
    assert!(!w.check(45));
}

#[test]
fn rejects_packet_older_than_window() {
    let mut w = ReplayWindow::new();
    w.commit(1000);
    assert!(!w.check(1000 - WINDOW_SIZE));
}

#[test]
fn large_forward_jump_resets_window() {
    let mut w = ReplayWindow::new();
    w.commit(5);
    w.commit(5 + WINDOW_SIZE * 10);
    // The old seq is now far outside the window.
    assert!(!w.check(5));
}

#[test]
fn window_reaches_back_exactly_its_size() {
    let mut w = ReplayWindow::default();
    assert!(w.check(0));
    assert!(w.check(u64::MAX));
    w.commit(1000);
    assert!(w.check(1000 - WINDOW_SIZE + 1));
    assert!(!w.check(1000 - WINDOW_SIZE));
}

#[test]
fn committed_numbers_stay_refused_while_the_window_slides() {
    let mut w = ReplayWindow::new();
    w.commit(10);
    w.commit(12);
    assert!(w.check(11));
    w.commit(40);
    assert!(!w.check(10));
    assert!(w.check(11));
    assert!(!w.check(12));
    w.commit(12 + WINDOW_SIZE - 1);
    assert!(!w.check(12));
    assert!(!w.check(11));
    assert!(w.check(13));
    w.commit(u64::MAX);
    assert!(!w.check(13));
    assert!(!w.check(u64::MAX));
    assert!(w.check(u64::MAX - 1));
}

#[test]
fn commit_behind_the_window_changes_nothing() {
    let mut w = ReplayWindow::new();
    w.commit(1000);
    w.commit(1000 - WINDOW_SIZE);
    assert!(!w.check(1000 - WINDOW_SIZE));
    assert!(w.check(1000 - WINDOW_SIZE + 1));
    assert!(w.check(999));
    assert!(!w.check(1000));
}
