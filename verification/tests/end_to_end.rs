//! The full loop a real connection takes: session frames in, authority
//! commands, ticks, broadcast snapshots out.

use game_server::entity::Entity;
use game_server::game::Game;
use game_server::message::Connect;
use game_server::session::{Frame, FrameAction, Session, SessionState};
use game_server::vector::Vector2f;

fn lookup(g: &Game, id: u128) -> Option<Entity> {
    for (k, e) in g.state.entities.iter() {
        if *k == id {
            return Some(*e);
        }
    }
    None
}

fn forward(g: &mut Game, s: &mut Session, text: &str, now: i64) {
    match s.handle_frame(Frame::Text(text.as_bytes().to_vec()), now) {
        FrameAction::Forward(w) => g.handle_command(w),
        _ => panic!("command should have parsed"),
    }
}

#[test]
fn connect_move_and_watch_the_snapshot() {
    let mut g = Game::default();
    let mut s = Session::new(0);
    g.handle_connect(Connect { id: s.id });
    s.on_registered(true);
    assert_eq!(s.state, SessionState::Active);

    // First snapshot: one player, at rest, inside the arena.
    let out = g.tick_broadcast(1_000_000);
    assert_eq!(out.len(), 1);
    assert_eq!(out[0].0, s.id);
    let (px, vx) = match lookup(&g, s.id) {
        Some(Entity::Player(p)) => {
            assert!(p.position.x >= 0 && p.position.x <= 800_000);
            assert!(p.position.y >= 0 && p.position.y <= 600_000);
            assert_eq!(p.velocity, Vector2f::new(0, 0));
            (p.position.x, p.velocity.x)
        },
        _ => panic!("snapshot should hold one player"),
    };
    assert_eq!(vx, 0);

    // A move command raises velocity.x by exactly 10 units/s, and the
    // next tick moves the player by 10 * delta.
    forward(&mut g, &mut s, "{\"kind\":\"move\",\"data\":[10,0]}", 1_000_001);
    g.tick(1_000_016);
    match lookup(&g, s.id) {
        Some(Entity::Player(p)) => {
            assert_eq!(p.velocity.x, 10_000);
            if px + 160 <= 800_000 {
                assert_eq!(p.position.x, px + 160);
            }
        },
        _ => panic!("player vanished"),
    }
}

#[test]
fn fire_through_a_session_spawns_an_owned_bullet() {
    let mut g = Game::default();
    let mut s = Session::new(0);
    g.handle_connect(Connect { id: s.id });
    s.on_registered(true);

    let (px, py) = match lookup(&g, s.id) {
        Some(Entity::Player(p)) => (p.position.x, p.position.y),
        _ => panic!("player missing"),
    };
    // Click 10 units to the right of the player.
    forward(
        &mut g,
        &mut s,
        &format!(
            "{{\"kind\":\"fire\",\"data\":[{}.{:03},{}.{:03}]}}",
            px / 1000 + 10,
            px % 1000,
            py / 1000,
            py % 1000
        ),
        1,
    );
    assert_eq!(g.state.entities.len(), 2);
    let mut found = false;
    for (_k, e) in g.state.entities.iter() {
        if let Entity::Bullet(b) = e {
            assert_eq!(b.owner, Some(s.id));
            assert_eq!(b.position, Vector2f::new(px, py));
            assert_eq!(b.velocity, Vector2f::new(300_000, 0));
            found = true;
        }
    }
    assert!(found, "a bullet should have spawned");
}
