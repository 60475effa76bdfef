use vstd::prelude::*;
use crate::enemy::components::Enemy;
use crate::enemy::ENEMY_SIZE;
use crate::events::{EntityKind, GameEvent};
use crate::field::Field;
use crate::motion::advance;
use crate::player::components::{MoveInput, Player};
use crate::player::{PLAYER_SIZE, PLAYER_SPEED};
use crate::score::resources::Score;
use crate::star::components::Star;
use crate::star::STAR_SIZE;
use crate::vec2::Vec2;

verus! {

/// The event that tells the host of the new player.
pub open spec fn player_spawned(player: Player) -> GameEvent {
    GameEvent::Spawned {
        kind: EntityKind::Player,
        id: player.id,
        position: player.position,
        direction: None,
    }
}

/// Puts the player in the middle of the field. There must be no player
/// yet.
pub fn spawn_player(player: &mut Option<Player>, next_id: &mut u64, field: Field) -> (events: Vec<
    GameEvent,
>)
    requires
        *old(player) is None,
        *old(next_id) < u64::MAX,
    ensures
        *final(player) == Some(Player { id: *old(next_id), position: field.center() }),
        *final(next_id) == *old(next_id) + 1,
        events@ == seq![player_spawned(Player { id: *old(next_id), position: field.center() })],
{
    let made = Player { id: *next_id, position: field.middle() };
    *player = Some(made);
    *next_id = *next_id + 1;
    let mut events: Vec<GameEvent> = Vec::new();
    events.push(
        GameEvent::Spawned {
            kind: EntityKind::Player,
            id: made.id,
            position: made.position,
            direction: None,
        },
    );
    events
}

/// Moves the player, if there is one, where the keys send it.
pub fn player_movement(player: &mut Option<Player>, input: MoveInput, dt_ns: u64)
    ensures
        *final(player) == match *old(player) {
            Some(p) => Some(p.moved(input, dt_ns as int)),
            None => None,
        },
{
    match *player {
        Some(p) => {
            let direction: Vec2 = input.heading();
            let position: Vec2 = advance(p.position, direction, PLAYER_SPEED, dt_ns);
            *player = Some(Player { position, ..p });
        },
        None => {},
    }
}

/// Puts the player, if there is one, back on the field.
pub fn confine_player_movement(player: &mut Option<Player>, field: Field)
    ensures
        *final(player) == match *old(player) {
            Some(p) => Some(p.confined(field)),
            None => None,
        },
{
    match *player {
        Some(p) => {
            let position: Vec2 = field.confine(p.position, PLAYER_SIZE / 2);
            *player = Some(Player { position, ..p });
        },
        None => {},
    }
}

/// Tests whether any of the enemies catches the player.
pub fn is_caught(player: Player, enemies: &Vec<Enemy>) -> (b: bool)
    ensures
        b == player.caught(enemies@),
{
    let n: usize = enemies.len();
    let mut i: usize = 0;
    while i < n
        invariant
            i <= n,
            n == enemies@.len(),
            forall|j: int| 0 <= j < i ==> !player.hit_by(#[trigger] enemies@[j]),
        decreases n - i,
    {
        if player.position.is_closer_than(enemies[i].position, PLAYER_SIZE / 2 + ENEMY_SIZE / 2) {
            return true;
        }
        i += 1;
    }
    false
}

/// Ends the game if an enemy catches the player: the player is taken
/// away, and the host hears of it and of the end of the game, once,
/// however many enemies there are. Without a player, or with none caught,
/// nothing happens.
pub fn player_hit_enemy(player: &mut Option<Player>, enemies: &Vec<Enemy>) -> (events: Vec<
    GameEvent,
>)
    ensures
        match *old(player) {
            Some(p) => if p.caught(enemies@) {
                &&& *final(player) is None
                &&& events@ == seq![GameEvent::Despawned { id: p.id }, GameEvent::GameOver]
            } else {
                &&& *final(player) == *old(player)
                &&& events@ == Seq::<GameEvent>::empty()
            },
            None => {
                &&& *final(player) is None
                &&& events@ == Seq::<GameEvent>::empty()
            },
        },
{
    let mut events: Vec<GameEvent> = Vec::new();
    match *player {
        Some(p) => {
            if is_caught(p, enemies) {
                *player = None;
                events.push(GameEvent::Despawned { id: p.id });
                events.push(GameEvent::GameOver);
            }
        },
        None => {},
    }
    events
}

/// The test for a star that the player picks up.
pub open spec fn collected_by(player: Player) -> spec_fn(Star) -> bool {
    |star: Star| player.collects(star)
}

/// The test for a star that the player leaves where it is.
pub open spec fn missed_by(player: Player) -> spec_fn(Star) -> bool {
    |star: Star| !player.collects(star)
}

/// What the host hears of the stars that were picked up: for each in
/// turn, that it is gone and that a star was collected.
pub open spec fn collection_events(collected: Seq<Star>) -> Seq<GameEvent>
    decreases collected.len(),
{
    if collected.len() == 0 {
        Seq::empty()
    } else {
        collection_events(collected.drop_last()).push(
            GameEvent::Despawned { id: collected.last().id },
        ).push(GameEvent::StarCollected)
    }
}

/// Lets the player pick up every star that it overlaps: each of them is
/// taken away and counts one point, and the other stars stay in their
/// order. Without a player nothing happens. The score must have room for
/// the points.
pub fn player_hit_star(player: &Option<Player>, stars: &mut Vec<Star>, score: &mut Score) -> (events:
    Vec<GameEvent>)
    requires
        match *player {
            Some(p) => old(score).value + old(stars)@.filter(collected_by(p)).len() <= u32::MAX,
            None => true,
        },
    ensures
        match *player {
            Some(p) => {
                &&& final(stars)@ == old(stars)@.filter(missed_by(p))
                &&& final(score).value == old(score).value + old(stars)@.filter(
                    collected_by(p),
                ).len()
                &&& events@ == collection_events(old(stars)@.filter(collected_by(p)))
            },
            None => {
                &&& final(stars)@ == old(stars)@
                &&& *final(score) == *old(score)
                &&& events@ == Seq::<GameEvent>::empty()
            },
        },
{
    let mut events: Vec<GameEvent> = Vec::new();
    match *player {
        Some(p) => {
            let ghost before = stars@;
            let ghost taken = collected_by(p);
            let ghost left = missed_by(p);
            let mut kept: Vec<Star> = Vec::new();
            let mut points: usize = 0;
            let n: usize = stars.len();
            let mut i: usize = 0;
            proof {
                assert(before.take(0) =~= Seq::<Star>::empty());
                before.take(0).lemma_filter_len(taken);
                before.take(0).lemma_filter_len(left);
                assert(before.take(0).filter(taken) =~= Seq::<Star>::empty());
                assert(before.take(0).filter(left) =~= Seq::<Star>::empty());
            }
            while i < n
                invariant
                    i <= n,
                    n == before.len(),
                    stars@ == before,
                    taken == collected_by(p),
                    left == missed_by(p),
                    kept@ == before.take(i as int).filter(left),
                    points == before.take(i as int).filter(taken).len(),
                    points <= i,
                    events@ == collection_events(before.take(i as int).filter(taken)),
                decreases n - i,
            {
                let star: Star = stars[i];
                let hit: bool = p.position.is_closer_than(
                    star.position,
                    PLAYER_SIZE / 2 + STAR_SIZE / 2,
                );
                proof {
                    let seen = before.take(i as int);
                    assert(before.take(i + 1) =~= seen.push(star));
                    seen.lemma_filter_push(star, taken);
                    seen.lemma_filter_push(star, left);
                    if hit {
                        assert(seen.filter(taken).push(star).drop_last() =~= seen.filter(taken));
                    }
                }
                if hit {
                    points += 1;
                    events.push(GameEvent::Despawned { id: star.id });
                    events.push(GameEvent::StarCollected);
                } else {
                    kept.push(star);
                }
                i += 1;
            }
            assert(before.take(n as int) =~= before);
            score.value = score.value + points as u32;
            *stars = kept;
        },
        None => {},
    }
    events
}

} // verus!
