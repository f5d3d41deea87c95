use game_server::entity::Entity;
use game_server::game::Game;
use game_server::message::{Connect, Conversation, Disconnect, WrappedConversation};
use game_server::vector::Vector2f;

fn lookup(g: &Game, id: u128) -> Option<Entity> {
    for (k, e) in g.state.entities.iter() {
        if *k == id {
            return Some(*e);
        }
    }
    None
}

fn conv(kind: &str, x: i64, y: i64) -> Conversation<Vector2f> {
    Conversation::new(kind.to_string(), Vector2f::new(x, y))
}

#[test]
fn connect_inserts_player_and_registers_session() {
    let mut g = Game::default();
    g.handle_connect(Connect { id: 5 });
    assert_eq!(g.sessions, vec![5u128]);
    assert_eq!(g.state.entities.len(), 1);
    match lookup(&g, 5) {
        Some(Entity::Player(p)) => {
            assert_eq!(p.id, 5);
            assert_eq!(p.health, 100_000);
            assert_eq!(p.velocity, Vector2f::new(0, 0));
            assert!(p.position.x >= 0 && p.position.x < 800_000);
            assert!(p.position.y >= 0 && p.position.y < 600_000);
        },
        other => panic!("expected a player, got {:?}", other.is_some()),
    }
}

#[test]
fn connect_then_disconnect_leaves_nothing() {
    let mut g = Game::default();
    g.handle_connect(Connect { id: 5 });
    g.handle_disconnect(Disconnect { id: 5 });
    assert!(g.sessions.is_empty());
    assert!(g.state.entities.is_empty());
}

#[test]
fn disconnect_unknown_is_noop() {
    let mut g = Game::default();
    g.handle_connect(Connect { id: 5 });
    g.handle_disconnect(Disconnect { id: 99 });
    assert_eq!(g.sessions, vec![5u128]);
    assert_eq!(g.state.entities.len(), 1);
}

#[test]
fn move_impulses_accumulate() {
    let mut g = Game::default();
    g.handle_connect(Connect { id: 5 });
    g.apply_command(5, &conv("move", 10_000, 0), 1000);
    g.apply_command(5, &conv("move", 10_000, -2_000), 1001);
    match lookup(&g, 5) {
        Some(Entity::Player(p)) => {
            assert_eq!(p.velocity, Vector2f::new(20_000, -2_000));
        },
        _ => panic!("player vanished"),
    }
}

#[test]
fn move_for_unknown_session_is_discarded() {
    let mut g = Game::default();
    g.handle_connect(Connect { id: 5 });
    g.apply_command(77, &conv("move", 10_000, 0), 1000);
    match lookup(&g, 5) {
        Some(Entity::Player(p)) => assert_eq!(p.velocity, Vector2f::new(0, 0)),
        _ => panic!("player vanished"),
    }
    assert_eq!(g.state.entities.len(), 1);
}

#[test]
fn unknown_kind_is_discarded() {
    let mut g = Game::default();
    g.handle_connect(Connect { id: 5 });
    g.apply_command(5, &conv("dance", 10_000, 0), 1000);
    match lookup(&g, 5) {
        Some(Entity::Player(p)) => assert_eq!(p.velocity, Vector2f::new(0, 0)),
        _ => panic!("player vanished"),
    }
    assert_eq!(g.state.entities.len(), 1);
}

#[test]
fn fire_spawns_one_bullet_aimed_at_click() {
    let mut g = Game::default();
    g.handle_connect(Connect { id: 5 });
    let (px, py) = match lookup(&g, 5) {
        Some(Entity::Player(p)) => (p.position.x, p.position.y),
        _ => panic!("player vanished"),
    };
    g.apply_command(5, &conv("fire", px + 10_000, py), 42);
    assert_eq!(g.state.entities.len(), 2);
    match lookup(&g, 42) {
        Some(Entity::Bullet(b)) => {
            assert_eq!(b.owner, Some(5));
            assert_eq!(b.position, Vector2f::new(px, py));
            assert_eq!(b.velocity, Vector2f::new(300_000, 0));
        },
        _ => panic!("expected a bullet under the given key"),
    }
}

#[test]
fn fire_from_unknown_session_spawns_nothing() {
    let mut g = Game::default();
    g.handle_connect(Connect { id: 5 });
    g.apply_command(77, &conv("fire", 100_000, 100_000), 42);
    assert_eq!(g.state.entities.len(), 1);
    assert!(lookup(&g, 42).is_none());
}

#[test]
fn handle_command_routes_by_session_id() {
    let mut g = Game::default();
    g.handle_connect(Connect { id: 5 });
    g.handle_command(WrappedConversation(5, conv("move", 1_000, 2_000)));
    match lookup(&g, 5) {
        Some(Entity::Player(p)) => assert_eq!(p.velocity, Vector2f::new(1_000, 2_000)),
        _ => panic!("player vanished"),
    }
}

#[test]
fn tick_advances_entities_and_stamps_time() {
    let mut g = Game::default();
    g.handle_connect(Connect { id: 5 });
    g.apply_command(5, &conv("move", 10_000, 0), 1000);
    g.tick(1_000_000);
    let x1 = match lookup(&g, 5) {
        Some(Entity::Player(p)) => p.position.x,
        _ => panic!("player vanished"),
    };
    g.tick(1_000_016);
    assert_eq!(g.state.ts, 1_000_016);
    match lookup(&g, 5) {
        Some(Entity::Player(p)) => {
            // 10 units/s over exactly 16 ms: 160 milli-units (no wall nearby:
            // spawn x < 800 and one step of at most 10 units cannot clamp
            // unless the first tick already did; both ticks clamp identically).
            if x1 + 160 <= 800_000 {
                assert_eq!(p.position.x, x1 + 160);
            }
            assert_eq!(p.velocity.y, 0);
        },
        _ => panic!("player vanished"),
    }
}

#[test]
fn tick_broadcast_sends_one_copy_per_session() {
    let mut g = Game::default();
    g.handle_connect(Connect { id: 5 });
    g.handle_connect(Connect { id: 6 });
    let out = g.tick_broadcast(2_000_000);
    assert_eq!(out.len(), 2);
    assert_eq!(out[0].0, 5);
    assert_eq!(out[1].0, 6);
    assert_eq!(out[0].1, out[1].1);
    let text = String::from_utf8(out[0].1.clone()).unwrap();
    assert!(text.starts_with("{\"kind\":\"game_state\",\"data\":\"{\\\"ts\\\":2000000,"));
}

#[test]
fn broadcast_timestamps_do_not_decrease() {
    let mut g = Game::default();
    g.handle_connect(Connect { id: 5 });
    g.tick(3_000_000);
    let t1 = g.state.ts;
    g.tick(3_000_016);
    let t2 = g.state.ts;
    assert!(t1 <= t2);
}

#[test]
fn registry_and_players_stay_in_step() {
    let mut g = Game::default();
    for id in [5u128, 6, 7] {
        g.handle_connect(Connect { id });
    }
    g.apply_command(6, &conv("fire", 100_000, 100_000), 1_000_000);
    g.handle_disconnect(Disconnect { id: 6 });
    let mut player_ids: Vec<u128> = Vec::new();
    for (k, e) in g.state.entities.iter() {
        if let Entity::Player(p) = e {
            assert_eq!(p.id, *k);
            player_ids.push(*k);
        }
    }
    let mut sessions = g.sessions.clone();
    player_ids.sort();
    sessions.sort();
    assert_eq!(player_ids, sessions);
}

#[test]
fn reconnecting_overwrites_instead_of_duplicating() {
    let mut g = Game::default();
    g.handle_connect(Connect { id: 5 });
    g.apply_command(5, &conv("move", 9_000, 0), 1000);
    g.handle_connect(Connect { id: 5 });
    // Last write wins: one registry entry, one fresh player at rest.
    assert_eq!(g.sessions, vec![5u128]);
    assert_eq!(g.state.entities.len(), 1);
    match lookup(&g, 5) {
        Some(Entity::Player(p)) => assert_eq!(p.velocity, Vector2f::new(0, 0)),
        _ => panic!("player missing"),
    }
}

#[test]
fn command_racing_a_disconnect_is_discarded() {
    let mut g = Game::default();
    g.handle_connect(Connect { id: 5 });
    g.handle_disconnect(Disconnect { id: 5 });
    g.apply_command(5, &conv("move", 9_000, 0), 1000);
    g.apply_command(5, &conv("fire", 100_000, 100_000), 1001);
    assert!(g.state.entities.is_empty());
}
