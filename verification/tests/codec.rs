use game_server::codec::{encode_game_state_conversation, encode_state, parse_conversation};
use game_server::entity::{Bullet, Entity, Player};
use game_server::game::GameState;
use game_server::vector::Vector2f;

fn parse(s: &str) -> Option<(String, i64, i64)> {
    parse_conversation(&s.as_bytes().to_vec()).map(|c| (c.kind, c.data.x, c.data.y))
}

#[test]
fn parse_plain_move() {
    let r = parse("{\"kind\":\"move\",\"data\":[10,0]}").unwrap();
    assert_eq!(r, ("move".to_string(), 10_000, 0));
}

#[test]
fn parse_with_whitespace_and_fractions() {
    let r = parse("{ \"kind\" : \"fire\" , \"data\" : [ -3.5 , 1.25 ] }").unwrap();
    assert_eq!(r, ("fire".to_string(), -3_500, 1_250));
}

#[test]
fn parse_truncates_past_three_fraction_digits() {
    let r = parse("{\"kind\":\"move\",\"data\":[1.23456,0.0009]}").unwrap();
    assert_eq!(r, ("move".to_string(), 1_234, 0));
}

#[test]
fn parse_keeps_unknown_kinds() {
    let r = parse("{\"kind\":\"dance\",\"data\":[1,2]}").unwrap();
    assert_eq!(r.0, "dance");
}

#[test]
fn parse_rejects_malformed() {
    assert!(parse("").is_none());
    assert!(parse("not json").is_none());
    assert!(parse("{\"kind\":\"move\"}").is_none());
    assert!(parse("{\"data\":[1,2],\"kind\":\"move\"}").is_none());
    assert!(parse("{\"kind\":\"move\",\"data\":[1]}").is_none());
    assert!(parse("{\"kind\":\"move\",\"data\":[1,2,3]}").is_none());
    assert!(parse("{\"kind\":\"move\",\"data\":[1,2]} trailing").is_none());
    assert!(parse("{\"kind\":\"move\",\"data\":[1,]}").is_none());
    assert!(parse("{\"kind\":\"move\",\"data\":[.5,0]}").is_none());
    assert!(parse("{\"kind\":\"unterminated").is_none());
}

#[test]
fn parse_rejects_numbers_beyond_the_arena_scale() {
    // The integer part is capped at one million units.
    assert!(parse("{\"kind\":\"move\",\"data\":[1000001,0]}").is_none());
    assert!(parse("{\"kind\":\"move\",\"data\":[99999999999999,0]}").is_none());
    let r = parse("{\"kind\":\"move\",\"data\":[1000000,0]}").unwrap();
    assert_eq!(r.1, 1_000_000_000);
}

#[test]
fn encode_bullet_state_exactly() {
    let st = GameState {
        ts: 5,
        entities: vec![(
            0,
            Entity::Bullet(Bullet {
                id: 1,
                owner: None,
                position: Vector2f::new(1_500, -2_000),
                velocity: Vector2f::new(300_000, 0),
            }),
        )],
    };
    let out = String::from_utf8(encode_state(&st)).unwrap();
    assert_eq!(
        out,
        "{\"ts\":5,\"entities\":{\"00000000-0000-0000-0000-000000000000\":\
         {\"kind\":\"Bullet\",\"id\":\"00000000-0000-0000-0000-000000000001\",\
         \"owner\":null,\"position\":{\"x\":1.500,\"y\":-2.000},\
         \"velocity\":{\"x\":300.000,\"y\":0.000}}}}"
    );
}

#[test]
fn encode_player_state_exactly() {
    let st = GameState {
        ts: -42,
        entities: vec![(
            0xdead_beef,
            Entity::Player(Player {
                id: 0xdead_beef,
                health: 100_000,
                position: Vector2f::new(400_000, 300_000),
                velocity: Vector2f::new(0, 0),
            }),
        )],
    };
    let out = String::from_utf8(encode_state(&st)).unwrap();
    assert_eq!(
        out,
        "{\"ts\":-42,\"entities\":{\"00000000-0000-0000-0000-0000deadbeef\":\
         {\"kind\":\"Player\",\"id\":\"00000000-0000-0000-0000-0000deadbeef\",\
         \"health\":100.000,\"position\":{\"x\":400.000,\"y\":300.000},\
         \"velocity\":{\"x\":0.000,\"y\":0.000}}}}"
    );
}

#[test]
fn encode_two_entities_comma_separated() {
    let bullet = |id: u128| {
        Entity::Bullet(Bullet {
            id,
            owner: Some(3),
            position: Vector2f::new(0, 0),
            velocity: Vector2f::new(0, 0),
        })
    };
    let st = GameState { ts: 0, entities: vec![(1, bullet(1)), (2, bullet(2))] };
    let out = String::from_utf8(encode_state(&st)).unwrap();
    assert!(out.contains("},\"00000000-0000-0000-0000-000000000002\":{"));
    assert!(out.contains("\"owner\":\"00000000-0000-0000-0000-000000000003\""));
}

#[test]
fn broadcast_envelope_escapes_payload() {
    let data = b"{\"ts\":1,\"entities\":{}}".to_vec();
    let out = String::from_utf8(encode_game_state_conversation(&data)).unwrap();
    assert_eq!(
        out,
        "{\"kind\":\"game_state\",\"data\":\"{\\\"ts\\\":1,\\\"entities\\\":{}}\"}"
    );
}

#[test]
fn parse_round_trips_reasonable_client_input() {
    // What a JavaScript client would produce for a click at (512.5, 88).
    let r = parse("{\"kind\":\"fire\",\"data\":[512.5,88]}").unwrap();
    assert_eq!(r, ("fire".to_string(), 512_500, 88_000));
}
