//! The simulation authority: sole owner of the world state, single
//! entry point for all mutations, driver of the physics clock.
//!
//! The world's entities are held as a vector of key/entity pairs with
//! distinct keys; `lookup` is the map reading of that vector.  All
//! mutation is routed through the handler methods here, so a hosting
//! task that owns the `Game` serialises commands and ticks by
//! construction.

use vstd::prelude::*;
use crate::entity::{spec_entity_update, Entity, Player};
use crate::message::{Connect, Conversation, Disconnect, MyMessage, WrappedConversation};
use crate::num::sat_i64;
use crate::vector::{in_coord_range, spec_toward, Vector2f};
use crate::{ext, ARENA_H, ARENA_W, BULLET_SPEED, PLAYER_HEALTH};

verus! {

/// No two pairs carry the same key.
pub open spec fn keys_unique(s: Seq<(u128, Entity)>) -> bool {
    forall|i: int, j: int| 0 <= i < j < s.len() ==> s[i].0 != s[j].0
}

/// Some pair carries key `id`.
pub open spec fn has_key(s: Seq<(u128, Entity)>, id: u128) -> bool {
    exists|i: int| 0 <= i < s.len() && (#[trigger] s[i]).0 == id
}

/// The index of the pair carrying `id`; meaningful under `has_key`.
pub open spec fn idx_of(s: Seq<(u128, Entity)>, id: u128) -> int {
    choose|i: int| 0 <= i < s.len() && (#[trigger] s[i]).0 == id
}

/// The map reading of the pair vector.
pub open spec fn lookup(s: Seq<(u128, Entity)>, id: u128) -> Option<Entity> {
    if has_key(s, id) {
        Some(s[idx_of(s, id)].1)
    } else {
        None
    }
}

/// Under unique keys, the pair at any index is what `lookup` returns
/// for its key.
pub proof fn lemma_lookup_at(s: Seq<(u128, Entity)>, i: int)
    requires
        keys_unique(s),
        0 <= i < s.len(),
    ensures
        lookup(s, s[i].0) == Some(s[i].1),
{
    let id = s[i].0;
    assert(has_key(s, id));
    let j = idx_of(s, id);
    assert(0 <= j < s.len() && s[j].0 == id);
    if i != j {
        assert(s[i].0 != s[j].0);
    }
}

/// The world: a timestamp (milliseconds since epoch, refreshed every
/// tick) and the entities, keyed by 128-bit identifier.
pub struct GameState {
    pub ts: i64,
    pub entities: Vec<(u128, Entity)>,
}

impl GameState {
    /// Distinct keys, and every held entity well-formed.
    pub open spec fn wf(self) -> bool {
        keys_unique(self.entities@) && forall|i: int|
            0 <= i < self.entities@.len() ==> (#[trigger] self.entities@[i]).1.wf()
    }

    /// An empty world stamped with the given time.
    pub fn new(now_ms: i64) -> (s: GameState)
        ensures
            s.ts == now_ms,
            s.entities@.len() == 0,
            s.wf(),
    {
        GameState { ts: now_ms, entities: Vec::new() }
    }

    /// Insert `e` under `id`, overwriting any pair already keyed by
    /// `id` (last write wins) and appending otherwise.
    pub fn insert(&mut self, id: u128, e: Entity)
        requires
            old(self).wf(),
            e.wf(),
        ensures
            final(self).wf(),
            final(self).ts == old(self).ts,
            lookup(final(self).entities@, id) == Some(e),
            forall|k: u128|
                k != id ==> lookup(final(self).entities@, k) == lookup(old(self).entities@, k),
            has_key(old(self).entities@, id) ==> final(self).entities@.len() == old(
                self,
            ).entities@.len(),
            !has_key(old(self).entities@, id) ==> final(self).entities@ == old(
                self,
            ).entities@.push((id, e)),
            forall|i: int|
                0 <= i < old(self).entities@.len() ==> (#[trigger] final(self).entities@[i]).0
                    == old(self).entities@[i].0,
    {
        let ghost s0 = self.entities@;
        match find_pair(&self.entities, id) {
            Some(i) => {
                self.entities.remove(i);
                self.entities.insert(i, (id, e));
                proof {
                    assert(self.entities@ =~= s0.update(i as int, (id, e)));
                    let s1 = self.entities@;
                    assert(keys_unique(s1));
                    lemma_lookup_at(s1, i as int);
                    assert forall|k: u128| k != id implies lookup(s1, k) == lookup(s0, k) by {
                        lemma_lookup_others(s0, s1, k);
                    }
                }
            },
            None => {
                self.entities.push((id, e));
                proof {
                    let s1 = self.entities@;
                    assert(keys_unique(s1)) by {
                        assert forall|a: int, b: int| 0 <= a < b < s1.len() implies s1[a].0
                            != s1[b].0 by {
                            if b == s1.len() - 1 {
                                assert(s1[a] == s0[a]);
                                assert(!(s0[a].0 == id));
                            }
                        }
                    }
                    lemma_lookup_at(s1, s1.len() - 1);
                    assert forall|k: u128| k != id implies lookup(s1, k) == lookup(s0, k) by {
                        lemma_lookup_others(s0, s1, k);
                    }
                }
            },
        }
    }

    /// Remove the pair keyed by `id`; a no-op when it is absent.
    pub fn remove(&mut self, id: u128)
        requires
            old(self).wf(),
        ensures
            final(self).wf(),
            final(self).ts == old(self).ts,
            lookup(final(self).entities@, id) == None::<Entity>,
            forall|k: u128|
                k != id ==> lookup(final(self).entities@, k) == lookup(old(self).entities@, k),
            has_key(old(self).entities@, id) ==> final(self).entities@.len() == old(
                self,
            ).entities@.len() - 1,
            !has_key(old(self).entities@, id) ==> *final(self) == *old(self),
    {
        let ghost s0 = self.entities@;
        match find_pair(&self.entities, id) {
            Some(i) => {
                self.entities.remove(i);
                proof {
                    let s1 = self.entities@;
                    assert(keys_unique(s1)) by {
                        assert forall|a: int, b: int| 0 <= a < b < s1.len() implies s1[a].0
                            != s1[b].0 by {
                            lemma_remove_index(s0, i as int, a);
                            lemma_remove_index(s0, i as int, b);
                        }
                    }
                    assert(forall|j: int|
                        0 <= j < s1.len() ==> (#[trigger] s1[j]).1.wf()) by {
                        assert forall|j: int| 0 <= j < s1.len() implies (#[trigger] s1[j]).1.wf() by {
                            lemma_remove_index(s0, i as int, j);
                        }
                    }
                    if has_key(s1, id) {
                        let j = idx_of(s1, id);
                        assert(0 <= j < s1.len() && s1[j].0 == id);
                        lemma_remove_index(s0, i as int, j);
                        assert(false);
                    }
                    assert forall|k: u128| k != id implies lookup(s1, k) == lookup(s0, k) by {
                        if has_key(s0, k) {
                            let j = idx_of(s0, k);
                            assert(0 <= j < s0.len() && s0[j].0 == k);
                            assert(j != i);
                            let j1: int = if j < i {
                                j
                            } else {
                                j - 1
                            };
                            lemma_remove_index(s0, i as int, j1);
                            assert(s1[j1] == s0[j]);
                            lemma_lookup_at(s1, j1);
                            lemma_lookup_at(s0, j);
                        } else {
                            if has_key(s1, k) {
                                let j = idx_of(s1, k);
                                assert(0 <= j < s1.len() && s1[j].0 == k);
                                lemma_remove_index(s0, i as int, j);
                                assert(false);
                            }
                        }
                    }
                }
            },
            None => {},
        }
    }
}

impl Default for GameState {
    /// An empty world stamped with the wall clock.
    fn default() -> (s: GameState)
        ensures
            s.entities@.len() == 0,
            s.wf(),
    {
        GameState::new(ext::now_ms())
    }
}

/// After `s.remove(i)`, the element at `j` is the old `j` or `j + 1`.
proof fn lemma_remove_index(s: Seq<(u128, Entity)>, i: int, j: int)
    requires
        0 <= i < s.len(),
        0 <= j < s.len() - 1,
    ensures
        s.remove(i)[j] == if j < i {
            s[j]
        } else {
            s[j + 1]
        },
{
}

/// Two pair vectors that agree, pair for pair, wherever either carries
/// `k`, have the same `lookup` at `k`.  Stated for the update shape.
proof fn lemma_lookup_others(s0: Seq<(u128, Entity)>, s1: Seq<(u128, Entity)>, k: u128)
    requires
        keys_unique(s0),
        keys_unique(s1),
        s0.len() <= s1.len() <= s0.len() + 1,
        forall|i: int| 0 <= i < s0.len() ==> (#[trigger] s1[i]) == s0[i] || s1[i].0 != k,
        forall|i: int| s0.len() <= i < s1.len() ==> (#[trigger] s1[i]).0 != k,
        forall|i: int| 0 <= i < s0.len() ==> (#[trigger] s0[i]) == s1[i] || s0[i].0 != k,
    ensures
        lookup(s1, k) == lookup(s0, k),
{
    if has_key(s0, k) {
        let j = idx_of(s0, k);
        assert(0 <= j < s0.len() && s0[j].0 == k);
        assert(s1[j] == s0[j]);
        lemma_lookup_at(s0, j);
        lemma_lookup_at(s1, j);
    } else {
        if has_key(s1, k) {
            let j = idx_of(s1, k);
            assert(0 <= j < s1.len() && s1[j].0 == k);
            assert(j < s0.len());
            assert(s0[j] == s1[j]);
            assert(false);
        }
    }
}

/// The index of the pair keyed by `id`, if any.
fn find_pair(v: &Vec<(u128, Entity)>, id: u128) -> (r: Option<usize>)
    ensures
        match r {
            Some(i) => 0 <= i < v@.len() && v@[i as int].0 == id,
            None => !has_key(v@, id),
        },
{
    let n = v.len();
    let mut i: usize = 0;
    while i < n
        invariant
            0 <= i <= n,
            n == v@.len(),
            forall|j: int| 0 <= j < i ==> (#[trigger] v@[j]).0 != id,
        decreases n - i,
    {
        if v[i].0 == id {
            return Some(i);
        }
        i += 1;
    }
    proof {
        if has_key(v@, id) {
            let j = idx_of(v@, id);
            assert(0 <= j < v@.len() && v@[j].0 == id);
        }
    }
    None
}

/// The index of `id` in the session registry, if any.
fn find_session(v: &Vec<u128>, id: u128) -> (r: Option<usize>)
    ensures
        match r {
            Some(i) => 0 <= i < v@.len() && v@[i as int] == id,
            None => !v@.contains(id),
        },
{
    let n = v.len();
    let mut i: usize = 0;
    while i < n
        invariant
            0 <= i <= n,
            n == v@.len(),
            forall|j: int| 0 <= j < i ==> v@[j] != id,
        decreases n - i,
    {
        if v[i] == id {
            return Some(i);
        }
        i += 1;
    }
    proof {
        if v@.contains(id) {
            let j = choose|j: int| 0 <= j < v@.len() && v@[j] == id;
            assert(v@[j] == id);
        }
    }
    None
}

/// A velocity after a `move` impulse: the impulse is added, not set.
pub open spec fn spec_move_vel(v: Vector2f, d: Vector2f) -> Vector2f {
    Vector2f { x: sat_i64(v.x + d.x) as i64, y: sat_i64(v.y + d.y) as i64 }
}

/// What a `move` command does: if `from` keys a player, that player's
/// velocity gains the impulse and nothing else changes; otherwise the
/// command is discarded and the authority is exactly as before.
pub open spec fn move_applied(pre: Game, post: Game, from: u128, d: Vector2f) -> bool {
    match lookup(pre.state.entities@, from) {
        Some(Entity::Player(p)) => {
            &&& lookup(post.state.entities@, from) == Some(
                Entity::Player(Player { velocity: spec_move_vel(p.velocity, d), ..p }),
            )
            &&& forall|k: u128|
                k != from ==> lookup(post.state.entities@, k) == lookup(pre.state.entities@, k)
            &&& post.state.entities@.len() == pre.state.entities@.len()
        },
        _ => post == pre,
    }
}

/// What a `fire` command does: if `from` keys a player and the click
/// point is representable, a bullet owned by `from` spawns under key
/// `bkey` at the player's position, aimed at the click point with speed
/// `BULLET_SPEED`; otherwise the command is discarded.
pub open spec fn fire_applied(pre: Game, post: Game, from: u128, d: Vector2f, bkey: u128) -> bool {
    match lookup(pre.state.entities@, from) {
        Some(Entity::Player(p)) => {
            if in_coord_range(d) {
                &&& match lookup(post.state.entities@, bkey) {
                    Some(Entity::Bullet(bl)) => {
                        &&& bl.owner == Some(from)
                        &&& bl.position == p.position
                        &&& (bl.velocity.x as int, bl.velocity.y as int) == spec_toward(
                            p.position,
                            d,
                            BULLET_SPEED as int,
                        )
                    },
                    _ => false,
                }
                &&& forall|k: u128|
                    k != bkey ==> lookup(post.state.entities@, k) == lookup(
                        pre.state.entities@,
                        k,
                    )
            } else {
                post == pre
            }
        },
        _ => post == pre,
    }
}

/// The authority.  Fields are reached only through the handlers below;
/// the session registry holds the identifiers whose outbound channels
/// the hosting task keeps.
pub struct Game {
    pub state: GameState,
    pub sessions: Vec<u128>,
    pub last_tick_ms: i64,
}

impl Game {
    /// Distinct registered sessions and a well-formed world.
    pub open spec fn wf(self) -> bool {
        &&& self.state.wf()
        &&& forall|i: int, j: int|
            0 <= i < j < self.sessions@.len() ==> self.sessions@[i] != self.sessions@[j]
    }

    /// Register a session and insert its player (`Connect`): the
    /// session id joins the registry, and a fresh full-health player at
    /// rest, placed randomly in the arena, is keyed by it.
    pub fn handle_connect(&mut self, msg: Connect)
        requires
            old(self).wf(),
        ensures
            final(self).wf(),
            final(self).sessions@ == if old(self).sessions@.contains(msg.id) {
                old(self).sessions@
            } else {
                old(self).sessions@.push(msg.id)
            },
            match lookup(final(self).state.entities@, msg.id) {
                Some(Entity::Player(p)) => {
                    &&& p.id == msg.id
                    &&& p.health == PLAYER_HEALTH
                    &&& p.velocity == (Vector2f { x: 0, y: 0 })
                    &&& 0 <= p.position.x < ARENA_W
                    &&& 0 <= p.position.y < ARENA_H
                },
                _ => false,
            },
            forall|k: u128|
                k != msg.id ==> lookup(final(self).state.entities@, k) == lookup(
                    old(self).state.entities@,
                    k,
                ),
            final(self).state.ts == old(self).state.ts,
            final(self).last_tick_ms == old(self).last_tick_ms,
            sessions_players_sync(*old(self)) ==> sessions_players_sync(*final(self)),
    {
        match find_session(&self.sessions, msg.id) {
            Some(i) => {
                proof {
                    assert(self.sessions@.contains(msg.id)) by {
                        assert(self.sessions@[i as int] == msg.id);
                    }
                }
            },
            None => {
                self.sessions.push(msg.id);
                proof {
                    let s1 = self.sessions@;
                    assert forall|a: int, b: int| 0 <= a < b < s1.len() implies s1[a] != s1[b] by {
                        if b == s1.len() - 1 {
                            assert(s1[a] == old(self).sessions@[a]);
                            assert(old(self).sessions@.contains(s1[a])) by {
                                assert(old(self).sessions@[a] == s1[a]);
                            }
                        }
                    }
                }
            },
        }
        let player = Player::new(msg.id);
        self.state.insert(msg.id, Entity::Player(player));
        proof {
            let id = msg.id;
            let v0 = old(self).sessions@;
            let v1 = self.sessions@;
            let s0 = old(self).state.entities@;
            let s1 = self.state.entities@;
            assert(if v0.contains(id) {
                v1 == v0
            } else {
                v1 == v0.push(id)
            });
            assert(v1.contains(id)) by {
                if v0.contains(id) {
                    let j = choose|j: int| 0 <= j < v0.len() && v0[j] == id;
                    assert(v1[j] == id);
                } else {
                    assert(v1[v1.len() - 1] == id);
                }
            }
            if sessions_players_sync(*old(self)) {
                assert forall|s: u128| #[trigger] v1.contains(s) implies player_keyed(s1, s) by {
                    if s == id {
                        assert(lookup(s1, id) == Some(Entity::Player(player)));
                    } else {
                        assert(v0.contains(s)) by {
                            let j = choose|j: int| 0 <= j < v1.len() && v1[j] == s;
                            assert(v0[j] == s);
                        }
                        assert(player_keyed(s0, s));
                        assert(lookup(s1, s) == lookup(s0, s));
                    }
                }
                assert forall|k: u128| #[trigger] is_player_at(s1, k) implies v1.contains(k) by {
                    if k != id {
                        assert(lookup(s1, k) == lookup(s0, k));
                        assert(is_player_at(s0, k));
                        assert(v0.contains(k));
                        let j = choose|j: int| 0 <= j < v0.len() && v0[j] == k;
                        assert(v1[j] == k);
                    }
                }
            }
        }
    }

    /// Deregister a session and drop its player (`Disconnect`); a no-op
    /// for an unknown id.
    pub fn handle_disconnect(&mut self, msg: Disconnect)
        requires
            old(self).wf(),
        ensures
            final(self).wf(),
            !final(self).sessions@.contains(msg.id),
            forall|k: u128|
                k != msg.id ==> final(self).sessions@.contains(k) == old(
                    self,
                ).sessions@.contains(k),
            lookup(final(self).state.entities@, msg.id) == None::<Entity>,
            forall|k: u128|
                k != msg.id ==> lookup(final(self).state.entities@, k) == lookup(
                    old(self).state.entities@,
                    k,
                ),
            final(self).state.ts == old(self).state.ts,
            final(self).last_tick_ms == old(self).last_tick_ms,
            sessions_players_sync(*old(self)) ==> sessions_players_sync(*final(self)),
    {
        let ghost v0 = self.sessions@;
        match find_session(&self.sessions, msg.id) {
            Some(i) => {
                self.sessions.remove(i);
                proof {
                    let v1 = self.sessions@;
                    assert forall|a: int, b: int| 0 <= a < b < v1.len() implies v1[a] != v1[b] by {
                        lemma_session_remove_index(v0, i as int, a);
                        lemma_session_remove_index(v0, i as int, b);
                    }
                    if v1.contains(msg.id) {
                        let j = choose|j: int| 0 <= j < v1.len() && v1[j] == msg.id;
                        lemma_session_remove_index(v0, i as int, j);
                        assert(false);
                    }
                    assert forall|k: u128| k != msg.id implies v1.contains(k) == v0.contains(
                        k,
                    ) by {
                        if v0.contains(k) {
                            let j = choose|j: int| 0 <= j < v0.len() && v0[j] == k;
                            assert(j != i);
                            let j1: int = if j < i {
                                j
                            } else {
                                j - 1
                            };
                            lemma_session_remove_index(v0, i as int, j1);
                            assert(v1[j1] == k);
                        } else {
                            if v1.contains(k) {
                                let j = choose|j: int| 0 <= j < v1.len() && v1[j] == k;
                                lemma_session_remove_index(v0, i as int, j);
                                assert(v0.contains(k)) by {
                                    if j < i {
                                        assert(v0[j] == v1[j]);
                                    } else {
                                        assert(v0[j + 1] == v1[j]);
                                    }
                                }
                                assert(false);
                            }
                        }
                    }
                }
            },
            None => {},
        }
        self.state.remove(msg.id);
        proof {
            let id = msg.id;
            let s0 = old(self).state.entities@;
            let s1 = self.state.entities@;
            let v1 = self.sessions@;
            if sessions_players_sync(*old(self)) {
                assert forall|s: u128| #[trigger] v1.contains(s) implies player_keyed(s1, s) by {
                    assert(s != id);
                    assert(old(self).sessions@.contains(s));
                    assert(player_keyed(s0, s));
                    assert(lookup(s1, s) == lookup(s0, s));
                }
                assert forall|k: u128| #[trigger] is_player_at(s1, k) implies v1.contains(k) by {
                    assert(k != id);
                    assert(lookup(s1, k) == lookup(s0, k));
                    assert(is_player_at(s0, k));
                    assert(old(self).sessions@.contains(k));
                }
            }
        }
    }

    /// Dispatch one client command (`Command`): draw the key a spawned
    /// bullet would be stored under, then apply the command.
    pub fn handle_command(&mut self, msg: WrappedConversation<Vector2f>)
        requires
            old(self).wf(),
        ensures
            final(self).wf(),
            msg.1.kind@ == "move"@ ==> move_applied(*old(self), *final(self), msg.0, msg.1.data),
            msg.1.kind@ == "fire"@ ==> exists|b: u128|
                fire_applied(*old(self), *final(self), msg.0, msg.1.data, b),
            msg.1.kind@ != "move"@ && msg.1.kind@ != "fire"@ ==> *final(self) == *old(self),
            final(self).sessions@ == old(self).sessions@,
            final(self).state.ts == old(self).state.ts,
            final(self).last_tick_ms == old(self).last_tick_ms,
    {
        let bkey = ext::fresh_uuid();
        self.apply_command(msg.0, &msg.1, bkey);
        proof {
            if msg.1.kind@ == "fire"@ {
                assert(fire_applied(*old(self), *self, msg.0, msg.1.data, bkey));
            }
        }
    }

    /// Apply one client command, with the key a spawned bullet is
    /// stored under passed in.  An envelope whose `kind` is neither
    /// `move` nor `fire`, or that names no live player, is discarded.
    pub fn apply_command(&mut self, from: u128, conv: &Conversation<Vector2f>, bullet_key: u128)
        requires
            old(self).wf(),
        ensures
            final(self).wf(),
            conv.kind@ == "move"@ ==> move_applied(*old(self), *final(self), from, conv.data),
            conv.kind@ == "fire"@ ==> fire_applied(
                *old(self),
                *final(self),
                from,
                conv.data,
                bullet_key,
            ),
            conv.kind@ != "move"@ && conv.kind@ != "fire"@ ==> *final(self) == *old(self),
            final(self).sessions@ == old(self).sessions@,
            final(self).state.ts == old(self).state.ts,
            final(self).last_tick_ms == old(self).last_tick_ms,
    {
        proof {
            reveal_strlit("move");
            reveal_strlit("fire");
            assert("move"@ != "fire"@) by {
                assert("move"@[0] == 'm');
                assert("fire"@[0] == 'f');
            }
        }
        let move_kind: String = "move".to_owned();
        let fire_kind: String = "fire".to_owned();
        if conv.kind == move_kind {
            match find_pair(&self.state.entities, from) {
                Some(i) => {
                    let pair = self.state.entities[i];
                    proof {
                        lemma_lookup_at(self.state.entities@, i as int);
                    }
                    match pair.1 {
                        Entity::Player(p) => {
                            let updated = Player {
                                velocity: Vector2f::new(
                                    crate::num::sat_add_i64(p.velocity.x, conv.data.x),
                                    crate::num::sat_add_i64(p.velocity.y, conv.data.y),
                                ),
                                ..p
                            };
                            self.state.insert(from, Entity::Player(updated));
                        },
                        Entity::Bullet(_) => {},
                    }
                },
                None => {},
            }
        } else if conv.kind == fire_kind {
            match find_pair(&self.state.entities, from) {
                Some(i) => {
                    let pair = self.state.entities[i];
                    proof {
                        lemma_lookup_at(self.state.entities@, i as int);
                    }
                    match pair.1 {
                        Entity::Player(p) => {
                            if -crate::vector::COORD_LIMIT <= conv.data.x && conv.data.x
                                <= crate::vector::COORD_LIMIT && -crate::vector::COORD_LIMIT
                                <= conv.data.y && conv.data.y <= crate::vector::COORD_LIMIT {
                                let velocity = p.position.toward(conv.data, BULLET_SPEED);
                                let bullet = crate::entity::Bullet::new(
                                    Some(from),
                                    p.position,
                                    velocity,
                                );
                                self.state.insert(bullet_key, Entity::Bullet(bullet));
                            }
                        },
                        Entity::Bullet(_) => {},
                    }
                },
                None => {},
            }
        }
    }
}

/// The milliseconds a tick at `now` advances physics by: the time since
/// the previous tick, never negative.
pub open spec fn spec_delta(last: int, now: int) -> int {
    if now < last {
        0
    } else {
        sat_i64(now - last)
    }
}

/// The key at `k` holds a player whose own id is `k`.
pub open spec fn player_keyed(s: Seq<(u128, Entity)>, k: u128) -> bool {
    match lookup(s, k) {
        Some(Entity::Player(p)) => p.id == k,
        _ => false,
    }
}

/// The key at `k` holds a player.
pub open spec fn is_player_at(s: Seq<(u128, Entity)>, k: u128) -> bool {
    match lookup(s, k) {
        Some(Entity::Player(_)) => true,
        _ => false,
    }
}

/// The registry and the players are in 1:1 correspondence: every
/// registered session keys a player carrying its id, and every player
/// is keyed by a registered session.
pub open spec fn sessions_players_sync(g: Game) -> bool {
    &&& forall|s: u128| #[trigger] g.sessions@.contains(s) ==> player_keyed(g.state.entities@, s)
    &&& forall|k: u128| #[trigger] is_player_at(g.state.entities@, k) ==> g.sessions@.contains(k)
}

impl Game {
    /// One tick: advance every entity by the time elapsed since the
    /// previous tick and refresh the world timestamp.  Entity order in
    /// the world vector is preserved; the snapshot taken afterwards is
    /// what `notify` fans out.
    pub fn tick(&mut self, now_ms: i64)
        requires
            old(self).wf(),
        ensures
            final(self).wf(),
            final(self).last_tick_ms == now_ms,
            final(self).state.ts == now_ms,
            final(self).sessions@ == old(self).sessions@,
            final(self).state.entities@.len() == old(self).state.entities@.len(),
            forall|i: int|
                0 <= i < old(self).state.entities@.len() ==> (#[trigger] final(self).state.entities@[i]) == (
                old(self).state.entities@[i].0,
                spec_entity_update(
                    old(self).state.entities@[i].1,
                    spec_delta(old(self).last_tick_ms as int, now_ms as int),
                ),
            ),
            forall|k: u128|
                #[trigger] lookup(final(self).state.entities@, k) == match lookup(
                    old(self).state.entities@,
                    k,
                ) {
                    Some(e) => Some(
                        spec_entity_update(
                            e,
                            spec_delta(old(self).last_tick_ms as int, now_ms as int),
                        ),
                    ),
                    None => None,
                },
            sessions_players_sync(*old(self)) ==> sessions_players_sync(*final(self)),
    {
        let ghost g0 = *self;
        let ghost d = spec_delta(self.last_tick_ms as int, now_ms as int);
        let delta: i64 = {
            let gap: i128 = now_ms as i128 - self.last_tick_ms as i128;
            if gap < 0 {
                0
            } else if gap > i64::MAX as i128 {
                i64::MAX
            } else {
                gap as i64
            }
        };
        let n = self.state.entities.len();
        let mut i: usize = 0;
        while i < n
            invariant
                n == self.state.entities@.len(),
                0 <= i <= n,
                delta as int == d,
                d >= 0,
                g0.wf(),
                self.sessions == g0.sessions,
                self.last_tick_ms == g0.last_tick_ms,
                self.state.ts == g0.state.ts,
                g0.state.entities@.len() == n,
                forall|j: int|
                    0 <= j < i ==> (#[trigger] self.state.entities@[j]) == (
                    g0.state.entities@[j].0,
                    spec_entity_update(g0.state.entities@[j].1, d),
                ),
                forall|j: int|
                    i <= j < n ==> (#[trigger] self.state.entities@[j]) == g0.state.entities@[j],
            decreases n - i,
        {
            let pair = self.state.entities[i];
            let mut e = pair.1;
            proof {
                assert(g0.state.entities@[i as int].1.wf());
            }
            e.update(delta);
            set_pair(&mut self.state.entities, i, (pair.0, e));
            i += 1;
        }
        self.state.ts = now_ms;
        self.last_tick_ms = now_ms;
        proof {
            let s0 = g0.state.entities@;
            let s1 = self.state.entities@;
            assert(keys_unique(s1)) by {
                assert forall|a: int, b: int| 0 <= a < b < s1.len() implies s1[a].0 != s1[b].0 by {
                    assert(s1[a].0 == s0[a].0 && s1[b].0 == s0[b].0);
                }
            }
            assert forall|k: u128|
                #[trigger] lookup(s1, k) == match lookup(s0, k) {
                    Some(e) => Some(spec_entity_update(e, d)),
                    None => None,
                } by {
                if has_key(s0, k) {
                    let j = idx_of(s0, k);
                    assert(0 <= j < s0.len() && s0[j].0 == k);
                    lemma_lookup_at(s0, j);
                    assert(s1[j].0 == k);
                    lemma_lookup_at(s1, j);
                } else {
                    if has_key(s1, k) {
                        let j = idx_of(s1, k);
                        assert(0 <= j < s1.len() && s1[j].0 == k);
                        assert(s0[j].0 == k);
                        assert(false);
                    }
                }
            }
            if sessions_players_sync(g0) {
                assert forall|s: u128| #[trigger] self.sessions@.contains(s) implies player_keyed(
                    s1,
                    s,
                ) by {
                    assert(g0.sessions@.contains(s));
                    assert(player_keyed(s0, s));
                }
                assert forall|k: u128| #[trigger] is_player_at(s1, k) implies self.sessions@.contains(
                    k,
                ) by {
                    assert(is_player_at(s0, k));
                }
            }
        }
    }

    /// Fan one broadcast payload out to every registered session, in
    /// registration order: exactly one copy per session, each carrying
    /// the same text.
    pub fn notify(&self, msg: &MyMessage) -> (out: Vec<(u128, MyMessage)>)
        ensures
            out@.len() == self.sessions@.len(),
            forall|i: int|
                0 <= i < out@.len() ==> (#[trigger] out@[i]).0 == self.sessions@[i] && out@[i].1.0@
                    == msg.0@,
    {
        let mut out: Vec<(u128, MyMessage)> = Vec::new();
        let n = self.sessions.len();
        let mut i: usize = 0;
        while i < n
            invariant
                n == self.sessions@.len(),
                0 <= i <= n,
                out@.len() == i,
                forall|j: int|
                    0 <= j < i ==> (#[trigger] out@[j]).0 == self.sessions@[j] && out@[j].1.0@
                        == msg.0@,
            decreases n - i,
        {
            out.push((self.sessions[i], MyMessage(msg.0.clone())));
            i += 1;
        }
        out
    }
}


/// A `move` command keeps the registry and the players in step: the
/// registry is untouched and only a player's velocity changes.
pub proof fn lemma_move_preserves_sync(pre: Game, post: Game, from: u128, d: Vector2f)
    requires
        sessions_players_sync(pre),
        move_applied(pre, post, from, d),
        post.sessions@ == pre.sessions@,
    ensures
        sessions_players_sync(post),
{
    let s0 = pre.state.entities@;
    let s1 = post.state.entities@;
    match lookup(s0, from) {
        Some(Entity::Player(p)) => {
            assert(is_player_at(s0, from));
            assert(pre.sessions@.contains(from));
            assert(player_keyed(s0, from));
            assert forall|s: u128| #[trigger] post.sessions@.contains(s) implies player_keyed(
                s1,
                s,
            ) by {
                assert(pre.sessions@.contains(s));
                assert(player_keyed(s0, s));
                if s != from {
                    assert(lookup(s1, s) == lookup(s0, s));
                }
            }
            assert forall|k: u128| #[trigger] is_player_at(s1, k) implies post.sessions@.contains(
                k,
            ) by {
                if k != from {
                    assert(lookup(s1, k) == lookup(s0, k));
                    assert(is_player_at(s0, k));
                }
                assert(pre.sessions@.contains(k));
            }
        },
        _ => {},
    }
}

/// A `fire` command keeps the registry and the players in step,
/// provided the key the bullet is stored under is no session id.
pub proof fn lemma_fire_preserves_sync(pre: Game, post: Game, from: u128, d: Vector2f, bkey: u128)
    requires
        sessions_players_sync(pre),
        fire_applied(pre, post, from, d, bkey),
        post.sessions@ == pre.sessions@,
        !pre.sessions@.contains(bkey),
    ensures
        sessions_players_sync(post),
{
    let s0 = pre.state.entities@;
    let s1 = post.state.entities@;
    match lookup(s0, from) {
        Some(Entity::Player(p)) => {
            if in_coord_range(d) {
                assert forall|s: u128| #[trigger] post.sessions@.contains(s) implies player_keyed(
                    s1,
                    s,
                ) by {
                    assert(pre.sessions@.contains(s));
                    assert(s != bkey);
                    assert(lookup(s1, s) == lookup(s0, s));
                    assert(player_keyed(s0, s));
                }
                assert forall|k: u128| #[trigger] is_player_at(s1, k)
                    implies post.sessions@.contains(k) by {
                    assert(k != bkey);
                    assert(lookup(s1, k) == lookup(s0, k));
                    assert(is_player_at(s0, k));
                    assert(pre.sessions@.contains(k));
                }
            }
        },
        _ => {},
    }
}

/// The velocity reached after a sequence of `move` impulses, applied
/// head first.
pub open spec fn fold_moves(v: Vector2f, ds: Seq<Vector2f>) -> Vector2f
    decreases ds.len(),
{
    if ds.len() == 0 {
        v
    } else {
        fold_moves(spec_move_vel(v, ds[0]), ds.drop_first())
    }
}

/// The sum of the x components of a sequence of impulses.
pub open spec fn sum_x(ds: Seq<Vector2f>) -> int
    decreases ds.len(),
{
    if ds.len() == 0 {
        0
    } else {
        ds[0].x + sum_x(ds.drop_first())
    }
}

/// The sum of the y components of a sequence of impulses.
pub open spec fn sum_y(ds: Seq<Vector2f>) -> int
    decreases ds.len(),
{
    if ds.len() == 0 {
        0
    } else {
        ds[0].y + sum_y(ds.drop_first())
    }
}

/// Velocity accumulates additively over `move` impulses: as long as no
/// partial sum leaves the representable range, the velocity after the
/// whole sequence is the starting velocity plus the componentwise sum.
pub proof fn lemma_moves_accumulate(v: Vector2f, ds: Seq<Vector2f>)
    requires
        forall|i: int|
            0 <= i <= ds.len() ==> i64::MIN <= v.x + sum_x(#[trigger] ds.take(i)) <= i64::MAX,
        forall|i: int|
            0 <= i <= ds.len() ==> i64::MIN <= v.y + sum_y(#[trigger] ds.take(i)) <= i64::MAX,
    ensures
        fold_moves(v, ds) == (Vector2f {
            x: (v.x + sum_x(ds)) as i64,
            y: (v.y + sum_y(ds)) as i64,
        }),
    decreases ds.len(),
{
    if ds.len() == 0 {
        assert(ds.take(0) =~= ds);
    } else {
        let d0 = ds[0];
        let rest = ds.drop_first();
        assert(ds.take(1) =~= seq![d0]);
        assert(sum_x(ds.take(1)) == d0.x && sum_y(ds.take(1)) == d0.y) by {
            assert(ds.take(1).drop_first() =~= Seq::<Vector2f>::empty());
            assert(ds.take(1)[0] == d0);
            assert(sum_x(Seq::<Vector2f>::empty()) == 0);
            assert(sum_y(Seq::<Vector2f>::empty()) == 0);
        }
        let v1 = spec_move_vel(v, d0);
        assert(v1.x == v.x + d0.x && v1.y == v.y + d0.y);
        assert forall|i: int| 0 <= i <= rest.len() implies i64::MIN <= v1.x + sum_x(
            #[trigger] rest.take(i),
        ) <= i64::MAX && i64::MIN <= v1.y + sum_y(rest.take(i)) <= i64::MAX by {
            assert(ds.take(i + 1).drop_first() =~= rest.take(i));
            assert(sum_x(ds.take(i + 1)) == d0.x + sum_x(rest.take(i)));
            assert(sum_y(ds.take(i + 1)) == d0.y + sum_y(rest.take(i)));
        }
        lemma_moves_accumulate(v1, rest);
        assert(ds.take(ds.len() as int) =~= ds);
        assert(sum_x(ds) == d0.x + sum_x(rest));
        assert(sum_y(ds) == d0.y + sum_y(rest));
    }
}


impl Game {
    /// One full tick as the timer drives it: advance physics, stamp the
    /// world with `now_ms`, serialize the whole state into a
    /// `game_state` envelope and address one copy to every registered
    /// session, in registration order.  Delivering the copies (and
    /// tolerating dead recipients) is the hosting task's part.
    pub fn tick_broadcast(&mut self, now_ms: i64) -> (out: Vec<(u128, Vec<u8>)>)
        requires
            old(self).wf(),
        ensures
            final(self).wf(),
            final(self).last_tick_ms == now_ms,
            final(self).state.ts == now_ms,
            final(self).sessions@ == old(self).sessions@,
            final(self).state.entities@.len() == old(self).state.entities@.len(),
            forall|i: int|
                0 <= i < old(self).state.entities@.len() ==> (#[trigger] final(self).state.entities@[i]) == (
                old(self).state.entities@[i].0,
                spec_entity_update(
                    old(self).state.entities@[i].1,
                    spec_delta(old(self).last_tick_ms as int, now_ms as int),
                ),
            ),
            sessions_players_sync(*old(self)) ==> sessions_players_sync(*final(self)),
            out@.len() == old(self).sessions@.len(),
            forall|i: int|
                0 <= i < out@.len() ==> (#[trigger] out@[i]).0 == old(self).sessions@[i]
                    && out@[i].1@ == crate::codec::spec_game_state_conv(
                    crate::codec::spec_state_bytes(now_ms as int, final(self).state.entities@),
                ),
    {
        self.tick(now_ms);
        let data = crate::codec::encode_state(&self.state);
        let text = crate::codec::encode_game_state_conversation(&data);
        let mut out: Vec<(u128, Vec<u8>)> = Vec::new();
        let n = self.sessions.len();
        let mut i: usize = 0;
        while i < n
            invariant
                n == self.sessions@.len(),
                0 <= i <= n,
                out@.len() == i,
                forall|j: int|
                    0 <= j < i ==> (#[trigger] out@[j]).0 == self.sessions@[j] && out@[j].1@
                        == text@,
            decreases n - i,
        {
            out.push((self.sessions[i], copy_bytes(&text)));
            i += 1;
        }
        out
    }
}

impl Default for Game {
    /// An empty authority stamped with the wall clock: no sessions, no
    /// entities, the tick clock read now.
    fn default() -> (g: Game)
        ensures
            g.wf(),
            g.sessions@.len() == 0,
            g.state.entities@.len() == 0,
            sessions_players_sync(g),
    {
        let now = ext::now_ms();
        let g = Game { state: GameState::new(now), sessions: Vec::new(), last_tick_ms: now };
        proof {
            assert forall|k: u128| #[trigger] is_player_at(g.state.entities@, k)
                implies g.sessions@.contains(k) by {
                assert(!has_key(g.state.entities@, k));
            }
        }
        g
    }
}

/// A byte-for-byte copy.
fn copy_bytes(v: &Vec<u8>) -> (r: Vec<u8>)
    ensures
        r@ == v@,
{
    let mut r: Vec<u8> = Vec::new();
    let n = v.len();
    let mut i: usize = 0;
    while i < n
        invariant
            n == v@.len(),
            0 <= i <= n,
            r@ =~= v@.take(i as int),
        decreases n - i,
    {
        r.push(v[i]);
        proof {
            assert(v@.take(i as int + 1) =~= v@.take(i as int).push(v@[i as int]));
        }
        i += 1;
    }
    proof {
        assert(v@.take(n as int) =~= v@);
    }
    r
}


/// A zero-duration tick changes no entity: when the clock has not
/// advanced since the previous tick, the physics step maps every
/// well-formed entity to itself.
pub proof fn lemma_tick_zero_delta(e: Entity, last: int, now: int)
    requires
        e.wf(),
        now == last,
    ensures
        spec_entity_update(e, spec_delta(last, now)) == e,
{
    assert(spec_delta(last, now) == 0);
    crate::entity::lemma_update_zero_delta(e);
}

/// Broadcast timestamps never decrease: each tick stamps the snapshot
/// with the clock reading it was driven by, so a monotone clock gives
/// monotone timestamps across successive broadcasts.
pub proof fn lemma_broadcast_ts_nondecreasing(now1: int, now2: int, ts1: int, ts2: int)
    requires
        ts1 == now1,
        ts2 == now2,
        now1 <= now2,
    ensures
        ts1 <= ts2,
{
}

/// Replace the pair at `i`.
fn set_pair(v: &mut Vec<(u128, Entity)>, i: usize, x: (u128, Entity))
    requires
        i < old(v)@.len(),
    ensures
        final(v)@ == old(v)@.update(i as int, x),
{
    v.remove(i);
    v.insert(i, x);
    proof {
        assert(v@ =~= old(v)@.update(i as int, x));
    }
}

/// After `v.remove(i)`, the element at `j` is the old `j` or `j + 1`.
proof fn lemma_session_remove_index(v: Seq<u128>, i: int, j: int)
    requires
        0 <= i < v.len(),
        0 <= j < v.len() - 1,
    ensures
        v.remove(i)[j] == if j < i {
            v[j]
        } else {
            v[j + 1]
        },
{
}

} // verus!
