use game_server::entity::{Bullet, Entity, Player};
use game_server::num::isqrt_u128;
use game_server::vector::Vector2f;

fn player_at(x: i64, y: i64, vx: i64, vy: i64) -> Player {
    Player {
        id: 7,
        health: 100_000,
        position: Vector2f::new(x, y),
        velocity: Vector2f::new(vx, vy),
    }
}

#[test]
fn zero_delta_changes_nothing() {
    let mut p = player_at(123_456, 500_000, 9_000, -4_000);
    let before = p;
    p.update(0);
    assert_eq!(p, before);

    let mut b = Entity::Bullet(Bullet {
        id: 9,
        owner: Some(7),
        position: Vector2f::new(1_000, 2_000),
        velocity: Vector2f::new(300_000, 0),
    });
    let b_before = Bullet {
        id: 9,
        owner: Some(7),
        position: Vector2f::new(1_000, 2_000),
        velocity: Vector2f::new(300_000, 0),
    };
    b.update(0);
    assert!(matches!(b, Entity::Bullet(x) if x == b_before));
}

#[test]
fn player_moves_linearly_inside_arena() {
    let mut p = player_at(100_000, 100_000, 10_000, -5_000);
    p.update(16);
    // 10 units/s for 16 ms is 160 milli-units.
    assert_eq!(p.position.x, 100_160);
    assert_eq!(p.position.y, 99_920);
    assert_eq!(p.velocity.x, 10_000);
    assert_eq!(p.velocity.y, -5_000);
}

#[test]
fn player_bounces_off_right_wall() {
    let mut p = player_at(799_000, 300_000, 2_000_000, 0);
    p.update(1_000);
    // Unclamped next x would be 2_799.0 units: clamp to 800, damp by -0.8.
    assert_eq!(p.position.x, 800_000);
    assert_eq!(p.velocity.x, -1_600_000);
    assert_eq!(p.position.y, 300_000);
}

#[test]
fn player_bounces_off_left_wall() {
    let mut p = player_at(1_000, 300_000, -10_000, 0);
    p.update(1_000);
    assert_eq!(p.position.x, 0);
    assert_eq!(p.velocity.x, 8_000);
}

#[test]
fn player_bounces_off_bottom_wall() {
    let mut p = player_at(400_000, 599_000, 0, 5_000);
    p.update(1_000);
    assert_eq!(p.position.y, 600_000);
    assert_eq!(p.velocity.y, -4_000);
}

#[test]
fn bullet_flies_unbounded() {
    let mut b = Bullet {
        id: 1,
        owner: None,
        position: Vector2f::new(799_000, 0),
        velocity: Vector2f::new(300_000, 0),
    };
    b.update(1_000);
    // No clamping for bullets: 799 + 300 = 1099 units.
    assert_eq!(b.position.x, 1_099_000);
    assert_eq!(b.velocity.x, 300_000);
}

#[test]
fn vector_sub_and_mul() {
    let a = Vector2f::new(5_000, -2_000);
    let b = Vector2f::new(1_000, 1_000);
    let d = a.sub(b);
    assert_eq!(d, Vector2f::new(4_000, -3_000));
    let s = d.mul(500);
    // Scaling by 0.5.
    assert_eq!(s, Vector2f::new(2_000, -1_500));
}

#[test]
fn toward_axis_gives_full_speed() {
    let from = Vector2f::new(100_000, 200_000);
    let to = Vector2f::new(110_000, 200_000);
    let v = from.toward(to, 300_000);
    assert_eq!(v, Vector2f::new(300_000, 0));
}

#[test]
fn toward_diagonal_has_bounded_magnitude() {
    let from = Vector2f::new(0, 0);
    let to = Vector2f::new(30_000, 40_000);
    let v = from.toward(to, 300_000);
    // 3-4-5 triangle: exactly (180, 240) units per second.
    assert_eq!(v, Vector2f::new(180_000, 240_000));
    let mag2 = (v.x as i128) * (v.x as i128) + (v.y as i128) * (v.y as i128);
    assert_eq!(mag2, 300_000i128 * 300_000i128);
}

#[test]
fn toward_own_position_points_right() {
    let p = Vector2f::new(50_000, 60_000);
    let v = p.toward(p, 300_000);
    assert_eq!(v, Vector2f::new(300_000, 0));
}

#[test]
fn isqrt_floors() {
    assert_eq!(isqrt_u128(0), 0);
    assert_eq!(isqrt_u128(1), 1);
    assert_eq!(isqrt_u128(3), 1);
    assert_eq!(isqrt_u128(4), 2);
    assert_eq!(isqrt_u128(2_500_000_000), 50_000);
    assert_eq!(isqrt_u128(u128::from(u64::MAX)), 4_294_967_295);
}

#[test]
fn new_player_spawns_inside_arena_at_rest() {
    let p = Player::new(42);
    assert_eq!(p.id, 42);
    assert_eq!(p.health, 100_000);
    assert_eq!(p.velocity, Vector2f::new(0, 0));
    assert!(p.position.x >= 0 && p.position.x < 800_000);
    assert!(p.position.y >= 0 && p.position.y < 600_000);
}
