use game_server::message::MyMessage;
use game_server::game::Game;
use game_server::message::Connect;
use game_server::session::{Frame, FrameAction, LivenessAction, Session, SessionState};

fn active_session(now: i64) -> Session {
    let mut s = Session::new(now);
    s.on_registered(true);
    s
}

#[test]
fn lifecycle_connecting_to_active() {
    let s = Session::new(1_000);
    assert_eq!(s.state, SessionState::Connecting);
    assert_eq!(s.last_activity_ms, 1_000);
    let mut ok = s;
    ok.on_registered(true);
    assert_eq!(ok.state, SessionState::Active);
    let mut failed = Session::new(1_000);
    failed.on_registered(false);
    assert_eq!(failed.state, SessionState::Closing);
}

#[test]
fn ping_is_answered_and_refreshes_liveness() {
    let mut s = active_session(0);
    let a = s.handle_frame(Frame::Ping(vec![1, 2, 3]), 4_000);
    assert!(matches!(a, FrameAction::ReplyPong(p) if p == vec![1, 2, 3]));
    assert_eq!(s.last_activity_ms, 4_000);
    assert_eq!(s.state, SessionState::Active);
}

#[test]
fn pong_refreshes_liveness_silently() {
    let mut s = active_session(0);
    let a = s.handle_frame(Frame::Pong(Vec::new()), 7_000);
    assert!(matches!(a, FrameAction::Nothing));
    assert_eq!(s.last_activity_ms, 7_000);
}

#[test]
fn close_frame_starts_closing() {
    let mut s = active_session(0);
    let a = s.handle_frame(Frame::Close, 1_000);
    assert!(matches!(a, FrameAction::CloseEcho));
    assert_eq!(s.state, SessionState::Closing);
}

#[test]
fn text_frame_becomes_command_tagged_with_session_id() {
    let mut s = active_session(0);
    let a = s.handle_frame(
        Frame::Text(b"{\"kind\":\"move\",\"data\":[10,0]}".to_vec()),
        2_000,
    );
    match a {
        FrameAction::Forward(w) => {
            assert_eq!(w.0, s.id);
            assert_eq!(w.1.kind, "move");
            assert_eq!(w.1.data.x, 10_000);
            assert_eq!(w.1.data.y, 0);
        },
        _ => panic!("expected a forwarded command"),
    }
    assert_eq!(s.last_activity_ms, 2_000);
}

#[test]
fn malformed_text_is_discarded_without_closing() {
    let mut s = active_session(0);
    let a = s.handle_frame(Frame::Text(b"garbage".to_vec()), 2_000);
    assert!(matches!(a, FrameAction::Nothing));
    assert_eq!(s.state, SessionState::Active);
}

#[test]
fn liveness_probe_below_timeout() {
    let mut s = active_session(0);
    let a = s.liveness_check(10_000);
    assert_eq!(a, LivenessAction::Probe);
    assert_eq!(s.state, SessionState::Active);
}

#[test]
fn silent_session_times_out_and_disconnects_once() {
    let mut s = active_session(0);
    let a = s.liveness_check(10_001);
    assert_eq!(a, LivenessAction::Stop);
    assert_eq!(s.state, SessionState::Closing);
    let d1 = s.on_stopped();
    assert_eq!(s.state, SessionState::Closed);
    let d1 = d1.expect("first teardown must notify");
    assert_eq!(d1.id, s.id);
    let d2 = s.on_stopped();
    assert!(d2.is_none());
}

#[test]
fn activity_resets_the_timeout_clock() {
    let mut s = active_session(0);
    s.handle_frame(Frame::Pong(Vec::new()), 9_000);
    let a = s.liveness_check(15_000);
    assert_eq!(a, LivenessAction::Probe);
}

#[test]
fn broadcast_copies_reach_every_session() {
    let mut g = Game::default();
    g.handle_connect(Connect { id: 1 });
    g.handle_connect(Connect { id: 2 });
    let msg = MyMessage("hello".to_string());
    let out = g.notify(&msg);
    assert_eq!(out.len(), 2);
    assert_eq!(out[0].0, 1);
    assert_eq!(out[1].0, 2);
    assert_eq!(out[0].1 .0, "hello");
    assert_eq!(out[1].1 .0, "hello");
}
