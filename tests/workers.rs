use geph5_client_core::dialer::{needs_refresh, retry_delay_ms, startup_jitter_ms};
use geph5_client_core::dispatch::{Dispatch, Outcome};
use geph5_client_core::supervisor::{step, Action, Event, WorkerState};

#[test]
fn healthy_worker_delivers_each_request_once() {
    let mut d = Dispatch::new();
    let ids: Vec<u64> = (0..3).map(|_| d.submit().unwrap()).collect();
    assert_eq!(ids, vec![0, 1, 2]);
    for want in ids {
        let id = d.take().unwrap();
        assert_eq!(id, want);
        assert!(matches!(d.report(id, true), Outcome::Deliver));
    }
    assert_eq!(d.take(), None);
}

#[test]
fn refused_open_is_passed_to_another_worker() {
    let mut d = Dispatch::new();
    let id = d.submit().unwrap();
    let by_a = d.take().unwrap();
    assert_eq!(by_a, id);
    assert!(matches!(d.report(by_a, false), Outcome::Requeue));
    let by_b = d.take().unwrap();
    assert_eq!(by_b, id);
    assert!(matches!(d.report(by_b, true), Outcome::Deliver));
    assert_eq!(d.take(), None);
}

#[test]
fn requeued_request_goes_to_the_back() {
    let mut d = Dispatch::new();
    let first = d.submit().unwrap();
    let second = d.submit().unwrap();
    let taken = d.take().unwrap();
    assert_eq!(taken, first);
    assert!(matches!(d.report(taken, false), Outcome::Requeue));
    assert_eq!(d.take(), Some(second));
    assert_eq!(d.take(), Some(first));
    assert_eq!(d.take(), None);
}

#[test]
fn failed_auth_deprioritizes_its_route() {
    let (s, a) = step(WorkerState::Waiting, Event::Slept);
    assert!(matches!(a, Action::Dial));
    let (s, a) = step(s, Event::Dialed("203.0.113.9:443".to_string()));
    assert!(matches!(a, Action::Authenticate));
    let (s, a) = step(s, Event::AuthFailed);
    match a {
        Action::Deprioritize(route) => assert_eq!(route, "203.0.113.9:443"),
        _ => panic!("expected deprioritization"),
    }
    assert!(matches!(s, WorkerState::Waiting));
}

#[test]
fn successful_session_never_deprioritizes() {
    let (s, _) = step(WorkerState::Dialing, Event::Dialed("203.0.113.9:443".to_string()));
    let (s, a) = step(s, Event::AuthSucceeded);
    assert!(matches!(a, Action::Serve));
    let (s, a) = step(s, Event::ProxyEnded);
    assert!(matches!(a, Action::Sleep));
    assert!(matches!(s, WorkerState::Waiting));
}

#[test]
fn failed_dial_only_sleeps() {
    let (s, a) = step(WorkerState::Dialing, Event::DialFailed);
    assert!(matches!(a, Action::Sleep));
    assert!(matches!(s, WorkerState::Waiting));
    let (s, a) = step(s, Event::AuthFailed);
    assert!(matches!(a, Action::Ignore));
    assert!(matches!(s, WorkerState::Waiting));
}

#[test]
fn backoff_stays_in_range() {
    for _ in 0..50 {
        assert!(startup_jitter_ms() < 1000);
        let r = retry_delay_ms(1000);
        assert!((1000..=1500).contains(&r));
    }
    assert_eq!(retry_delay_ms(0), 0);
}

#[test]
fn refresh_after_ten_minutes() {
    assert!(!needs_refresh(100, 699));
    assert!(needs_refresh(100, 700));
    assert!(!needs_refresh(700, 100));
}

#[test]
fn dead_mux_sends_worker_back_to_dialing() {
    let (s, a) = step(WorkerState::Serving, Event::ProxyEnded);
    assert!(matches!(a, Action::Sleep));
    let (s, a) = step(s, Event::Slept);
    assert!(matches!(a, Action::Dial));
    assert!(matches!(s, WorkerState::Dialing));
    // a request whose open failed on the dead session is served by a live one
    let mut d = Dispatch::new();
    let id = d.submit().unwrap();
    let taken = d.take().unwrap();
    assert!(matches!(d.report(taken, false), Outcome::Requeue));
    let again = d.take().unwrap();
    assert_eq!(again, id);
    assert!(matches!(d.report(again, true), Outcome::Deliver));
}
