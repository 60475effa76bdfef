use vstd::prelude::*;
use crate::enemy::components::Enemy;
use crate::enemy::SAFE_DISTANCE;
use crate::events::{EntityKind, GameEvent};
use crate::field::Field;
use crate::random::random_position;
use crate::star::components::Star;
use crate::star::resources::StarSpawnTimer;
use crate::star::{MAX_ATTEMPTS, NUMBER_OF_STARS};
use crate::vec2::Vec2;

verus! {

/// Whether a place is safe for a new star: it is further than
/// `SAFE_DISTANCE` from every enemy.
pub open spec fn safe_from(candidate: Vec2, enemies: Seq<Enemy>) -> bool {
    forall|i: int|
        0 <= i < enemies.len() ==> !candidate.touches(
            (#[trigger] enemies[i]).position,
            SAFE_DISTANCE as int,
        )
}

/// Whether a place is taken for a new star after `tries` places have been
/// turned down: it is if it is safe, and also if `MAX_ATTEMPTS` places
/// have been turned down already.
pub open spec fn accepted(candidate: Vec2, enemies: Seq<Enemy>, tries: int) -> bool {
    safe_from(candidate, enemies) || tries >= MAX_ATTEMPTS
}

/// A place for a new star, and the places that were turned down before
/// it, in the order in which they were drawn.
#[derive(Clone, Debug, PartialEq, Eq)]
pub struct Placement {
    pub position: Vec2,
    pub rejected: Vec<Vec2>,
}

/// Tests whether a place is further than `SAFE_DISTANCE` from every enemy.
pub fn is_safe_from(candidate: Vec2, enemies: &Vec<Enemy>) -> (b: bool)
    ensures
        b == safe_from(candidate, enemies@),
{
    let n: usize = enemies.len();
    let mut i: usize = 0;
    while i < n
        invariant
            i <= n,
            n == enemies@.len(),
            forall|j: int|
                0 <= j < i ==> !candidate.touches(
                    (#[trigger] enemies@[j]).position,
                    SAFE_DISTANCE as int,
                ),
        decreases n - i,
    {
        if candidate.is_within(enemies[i].position, SAFE_DISTANCE) {
            return false;
        }
        i += 1;
    }
    true
}

/// Decides whether a place is taken for a new star after `tries` places
/// have been turned down.
pub fn accepts(candidate: Vec2, enemies: &Vec<Enemy>, tries: u32) -> (b: bool)
    ensures
        b == accepted(candidate, enemies@, tries as int),
{
    is_safe_from(candidate, enemies) || tries >= MAX_ATTEMPTS
}

/// Whether `placement` is what a search among the given enemies on the
/// given field can end with: every place lies on the field, each place
/// that was turned down is unsafe, at most `MAX_ATTEMPTS` places were
/// turned down, and the place that was taken is safe unless that many
/// were.
pub open spec fn is_placement(placement: Placement, enemies: Seq<Enemy>, field: Field) -> bool {
    &&& placement.rejected@.len() <= MAX_ATTEMPTS
    &&& forall|i: int|
        0 <= i < placement.rejected@.len() ==> field.contains(#[trigger] placement.rejected@[i])
            && !safe_from(placement.rejected@[i], enemies)
    &&& field.contains(placement.position)
    &&& accepted(placement.position, enemies, placement.rejected@.len() as int)
}

/// Finds a place for a new star: draws places of the field at random and
/// takes the first that is safe, or the one that is drawn after
/// `MAX_ATTEMPTS` places have been turned down.
pub fn place_star(enemies: &Vec<Enemy>, field: Field) -> (placement: Placement)
    ensures
        is_placement(placement, enemies@, field),
{
    let mut rejected: Vec<Vec2> = Vec::new();
    let mut tries: u32 = 0;
    loop
        invariant
            tries <= MAX_ATTEMPTS,
            rejected@.len() == tries,
            forall|i: int|
                0 <= i < rejected@.len() ==> field.contains(#[trigger] rejected@[i]) && !safe_from(
                    rejected@[i],
                    enemies@,
                ),
        decreases MAX_ATTEMPTS - tries,
    {
        let candidate: Vec2 = random_position(field);
        if accepts(candidate, enemies, tries) {
            return Placement { position: candidate, rejected };
        }
        rejected.push(candidate);
        tries += 1;
    }
}

/// The event that tells the host of a new star.
pub open spec fn star_spawned(star: Star) -> GameEvent {
    GameEvent::Spawned {
        kind: EntityKind::Star,
        id: star.id,
        position: star.position,
        direction: None,
    }
}

/// Whether `after` is `before` with `count` new stars at its end, each on
/// the field, numbered from `first_id` on, and `events` tells of each of
/// them in turn.
pub open spec fn stars_added(
    before: Seq<Star>,
    after: Seq<Star>,
    first_id: int,
    count: int,
    field: Field,
    events: Seq<GameEvent>,
) -> bool {
    &&& after.len() == before.len() + count
    &&& after.take(before.len() as int) == before
    &&& events.len() == count
    &&& forall|j: int|
        before.len() <= j < after.len() ==> {
            &&& (#[trigger] after[j]).id == first_id + (j - before.len())
            &&& field.contains(after[j].position)
            &&& events[j - before.len()] == star_spawned(after[j])
        }
}

/// Makes one star at the place that `place_star` finds.
fn spawn_star(stars: &mut Vec<Star>, enemies: &Vec<Enemy>, next_id: &mut u64, field: Field) -> (event:
    GameEvent)
    requires
        *old(next_id) < u64::MAX,
    ensures
        stars_added(old(stars)@, final(stars)@, *old(next_id) as int, 1, field, seq![event]),
        *final(next_id) == *old(next_id) + 1,
{
    let ghost before = stars@;
    let placement: Placement = place_star(enemies, field);
    let star = Star { id: *next_id, position: placement.position };
    stars.push(star);
    *next_id = *next_id + 1;
    assert(stars@.take(before.len() as int) =~= before);
    GameEvent::Spawned {
        kind: EntityKind::Star,
        id: star.id,
        position: star.position,
        direction: None,
    }
}

/// Makes the stars that the game starts with: `NUMBER_OF_STARS` of them,
/// each at the place that `place_star` finds among the enemies. Returns
/// one event for each.
pub fn spawn_stars(stars: &mut Vec<Star>, enemies: &Vec<Enemy>, next_id: &mut u64, field: Field) -> (events:
    Vec<GameEvent>)
    requires
        *old(next_id) + NUMBER_OF_STARS <= u64::MAX,
    ensures
        stars_added(
            old(stars)@,
            final(stars)@,
            *old(next_id) as int,
            NUMBER_OF_STARS as int,
            field,
            events@,
        ),
        *final(next_id) == *old(next_id) + NUMBER_OF_STARS,
{
    let ghost before = stars@;
    let ghost first_id = *next_id as int;
    let mut events: Vec<GameEvent> = Vec::new();
    let mut made: usize = 0;
    assert(stars@.take(before.len() as int) =~= before);
    while made < NUMBER_OF_STARS
        invariant
            made <= NUMBER_OF_STARS,
            *next_id == first_id + made,
            first_id + NUMBER_OF_STARS <= u64::MAX,
            stars_added(before, stars@, first_id, made as int, field, events@),
        decreases NUMBER_OF_STARS - made,
    {
        let ghost so_far = stars@;
        let ghost told = events@;
        let event: GameEvent = spawn_star(stars, enemies, next_id, field);
        events.push(event);
        made += 1;
        proof {
            assert(so_far =~= stars@.take(so_far.len() as int));
            assert(stars@.take(before.len() as int) =~= so_far.take(before.len() as int));
            assert forall|j: int| before.len() <= j < stars@.len() implies {
                &&& (#[trigger] stars@[j]).id == first_id + (j - before.len())
                &&& field.contains(stars@[j].position)
                &&& events@[j - before.len()] == star_spawned(stars@[j])
            } by {
                if j < so_far.len() {
                    assert(stars@[j] == so_far[j]);
                    assert(events@[j - before.len()] == told[j - before.len()]);
                } else {
                    assert(seq![event][j - so_far.len()] == event);
                }
            }
        }
    }
    events
}

/// Advances the timer that brings new stars.
pub fn tick_star_spawn_timer(star_spawn_timer: &mut StarSpawnTimer, dt_ns: u64)
    ensures
        final(star_spawn_timer).timer == old(star_spawn_timer).timer.ticked(dt_ns as int),
{
    star_spawn_timer.timer.tick(dt_ns);
}

/// Makes one star if the timer has just finished, and none otherwise.
pub fn spawn_stars_over_time(
    stars: &mut Vec<Star>,
    enemies: &Vec<Enemy>,
    next_id: &mut u64,
    field: Field,
    star_spawn_timer: &StarSpawnTimer,
) -> (events: Vec<GameEvent>)
    requires
        *old(next_id) < u64::MAX,
    ensures
        stars_added(
            old(stars)@,
            final(stars)@,
            *old(next_id) as int,
            if star_spawn_timer.timer.finished { 1int } else { 0int },
            field,
            events@,
        ),
        *final(next_id) == *old(next_id) + if star_spawn_timer.timer.finished { 1int } else { 0int },
{
    let ghost before = stars@;
    let mut events: Vec<GameEvent> = Vec::new();
    if star_spawn_timer.timer.finished() {
        let event: GameEvent = spawn_star(stars, enemies, next_id, field);
        events.push(event);
        assert(events@ =~= seq![event]);
    } else {
        assert(stars@.take(before.len() as int) =~= before);
    }
    events
}

} // verus!
