use vstd::prelude::*;
use crate::enemy::components::{all_wf, Enemy};
use crate::enemy::resources::EnemySpawnTimer;
use crate::enemy::{ENEMY_SIZE, ENEMY_SPEED, NUMBER_OF_ENEMIES};
use crate::events::{EntityKind, GameEvent};
use crate::field::Field;
use crate::motion::advance;
use crate::random::{random_direction, random_position};
use crate::star::components::Star;
use crate::star::STAR_SIZE;
use crate::vec2::{lemma_unit_components, Vec2};

verus! {

/// What the host hears of the enemies that turned round: one event for
/// each enemy that has left the field, in the order of the enemies.
pub open spec fn reversals(enemies: Seq<Enemy>, field: Field) -> Seq<GameEvent> {
    enemies.filter(has_left(field)).map_values(reversal())
}

/// The test for an enemy that has left the field.
pub open spec fn has_left(field: Field) -> spec_fn(Enemy) -> bool {
    |e: Enemy| e.left_field(field)
}

/// The event that tells of an enemy that turned round.
pub open spec fn reversal() -> spec_fn(Enemy) -> GameEvent {
    |e: Enemy| (GameEvent::DirectionReversed { id: e.id })
}

/// Moves every enemy along its direction for `dt_ns` nanoseconds.
pub fn enemy_movement(enemies: &mut Vec<Enemy>, dt_ns: u64)
    requires
        all_wf(old(enemies)@),
    ensures
        final(enemies)@.len() == old(enemies)@.len(),
        forall|i: int|
            0 <= i < old(enemies)@.len() ==> #[trigger] final(enemies)@[i] == old(enemies)@[i].moved(
                dt_ns as int,
            ),
        all_wf(final(enemies)@),
{
    let ghost before = enemies@;
    let n: usize = enemies.len();
    let mut i: usize = 0;
    while i < n
        invariant
            i <= n,
            n == before.len(),
            enemies@.len() == n,
            all_wf(before),
            forall|j: int| 0 <= j < i ==> #[trigger] enemies@[j] == before[j].moved(dt_ns as int),
            forall|j: int| i <= j < n ==> #[trigger] enemies@[j] == before[j],
        decreases n - i,
    {
        let enemy: Enemy = enemies[i];
        proof {
            assert(before[i as int].wf());
            lemma_unit_components(enemy.direction);
        }
        let position: Vec2 = advance(enemy.position, enemy.direction, ENEMY_SPEED, dt_ns);
        enemies.set(i, Enemy { position, ..enemy });
        i += 1;
    }
    assert forall|j: int| 0 <= j < enemies@.len() implies (#[trigger] enemies@[j]).wf() by {
        assert(before[j].wf());
    }
}

/// Turns every enemy round that has left the field: on each axis on which
/// it is outside, its direction along that axis changes sign, once.
/// Returns one event for each enemy that turned.
pub fn update_enemy_direction(enemies: &mut Vec<Enemy>, field: Field) -> (events: Vec<GameEvent>)
    requires
        all_wf(old(enemies)@),
    ensures
        final(enemies)@.len() == old(enemies)@.len(),
        forall|i: int|
            0 <= i < old(enemies)@.len() ==> #[trigger] final(enemies)@[i] == old(
                enemies,
            )@[i].turned(field),
        all_wf(final(enemies)@),
        events@ == reversals(old(enemies)@, field),
{
    let ghost before = enemies@;
    let ghost left = has_left(field);
    let ghost told = reversal();
    let mut events: Vec<GameEvent> = Vec::new();
    let n: usize = enemies.len();
    let mut i: usize = 0;
    assert(before.take(0) =~= Seq::<Enemy>::empty());
    assert(before.take(0).filter(left) =~= Seq::<Enemy>::empty()) by {
        before.take(0).lemma_filter_len(left);
    }
    while i < n
        invariant
            i <= n,
            n == before.len(),
            enemies@.len() == n,
            all_wf(before),
            left == has_left(field),
            told == reversal(),
            forall|j: int| 0 <= j < i ==> #[trigger] enemies@[j] == before[j].turned(field),
            forall|j: int| 0 <= j < i ==> (#[trigger] enemies@[j]).wf(),
            forall|j: int| i <= j < n ==> #[trigger] enemies@[j] == before[j],
            events@ == before.take(i as int).filter(left).map_values(told),
        decreases n - i,
    {
        let enemy: Enemy = enemies[i];
        proof {
            assert(before[i as int].wf());
            lemma_unit_components(enemy.direction);
        }
        let out_x: bool = field.is_outside_x(enemy.position, ENEMY_SIZE / 2);
        let out_y: bool = field.is_outside_y(enemy.position, ENEMY_SIZE / 2);
        let mut direction: Vec2 = enemy.direction;
        if out_x {
            direction.x = -direction.x;
        }
        if out_y {
            direction.y = -direction.y;
        }
        proof {
            assert(direction.x * direction.x == enemy.direction.x * enemy.direction.x
                && direction.y * direction.y == enemy.direction.y * enemy.direction.y)
                by (nonlinear_arith)
                requires
                    direction.x == enemy.direction.x || direction.x == -enemy.direction.x,
                    direction.y == enemy.direction.y || direction.y == -enemy.direction.y,
            ;
        }
        enemies.set(i, Enemy { direction, ..enemy });
        proof {
            let seen = before.take(i as int);
            assert(before.take(i + 1) =~= seen.push(enemy));
            seen.lemma_filter_push(enemy, left);
            if left(enemy) {
                assert(seen.filter(left).push(enemy).map_values(told) =~= seen.filter(
                    left,
                ).map_values(told).push(told(enemy)));
            }
        }
        if out_x || out_y {
            events.push(GameEvent::DirectionReversed { id: enemy.id });
        }
        i += 1;
    }
    assert(before.take(n as int) =~= before);
    events
}

/// An enemy turns round only while it is outside: on the field it keeps
/// its direction, and an enemy that was put back on a field with room for
/// it is on the field.
pub proof fn lemma_confined_enemy_does_not_turn(enemy: Enemy, field: Field)
    requires
        enemy.wf(),
    ensures
        !enemy.left_field(field) ==> enemy.turned(field) == enemy,
        ENEMY_SIZE <= field.width && ENEMY_SIZE <= field.height ==> !enemy.confined(
            field,
        ).left_field(field) && enemy.confined(field).turned(field) == enemy.confined(field),
        enemy.turned(field).turned(field) == enemy,
{
    lemma_unit_components(enemy.direction);
    if ENEMY_SIZE <= field.width && ENEMY_SIZE <= field.height {
        crate::field::lemma_confined_twice(field, enemy.position, (ENEMY_SIZE / 2) as i64);
    }
}

/// Puts every enemy back on the field: each coordinate of its centre is
/// pulled into the range that keeps the whole ball inside.
pub fn confine_enemy_movement(enemies: &mut Vec<Enemy>, field: Field)
    ensures
        final(enemies)@.len() == old(enemies)@.len(),
        forall|i: int|
            0 <= i < old(enemies)@.len() ==> #[trigger] final(enemies)@[i] == old(
                enemies,
            )@[i].confined(field),
        all_wf(old(enemies)@) ==> all_wf(final(enemies)@),
{
    let ghost before = enemies@;
    let n: usize = enemies.len();
    let mut i: usize = 0;
    while i < n
        invariant
            i <= n,
            n == before.len(),
            enemies@.len() == n,
            forall|j: int| 0 <= j < i ==> #[trigger] enemies@[j] == before[j].confined(field),
            forall|j: int| i <= j < n ==> #[trigger] enemies@[j] == before[j],
        decreases n - i,
    {
        let enemy: Enemy = enemies[i];
        let position: Vec2 = field.confine(enemy.position, ENEMY_SIZE / 2);
        enemies.set(i, Enemy { position, ..enemy });
        i += 1;
    }
    proof {
        if all_wf(before) {
            assert forall|j: int| 0 <= j < enemies@.len() implies (#[trigger] enemies@[j]).wf() by {
                assert(before[j].wf());
            }
        }
    }
}

/// Two points that are at most `reach` apart are at most `reach` apart
/// along each axis.
proof fn lemma_close_on_each_axis(dx: int, dy: int, reach: int)
    by (nonlinear_arith)
    requires
        0 <= reach,
        dx * dx + dy * dy <= reach * reach,
    ensures
        -reach <= dx <= reach,
        -reach <= dy <= reach,
{
}

/// Meeting a star keeps a direction a direction, and leaves the number
/// and the place.
pub proof fn lemma_bounced(enemy: Enemy, star: Star)
    requires
        enemy.wf(),
    ensures
        enemy.bounced(star).wf(),
        enemy.bounced(star).id == enemy.id,
        enemy.bounced(star).position == enemy.position,
{
    if enemy.hits(star) && !enemy.way_to(star).is_zero() {
        lemma_close_on_each_axis(
            enemy.position.x - star.position.x,
            enemy.position.y - star.position.y,
            ENEMY_SIZE / 2 + STAR_SIZE / 2,
        );
        crate::vec2::lemma_reflected_is_unit(enemy.direction, enemy.way_to(star));
    }
}

/// Lets one enemy meet one star.
pub fn bounce(enemy: Enemy, star: Star) -> (after: Enemy)
    requires
        enemy.wf(),
    ensures
        after == enemy.bounced(star),
        after.wf(),
{
    if !enemy.position.is_within(star.position, ENEMY_SIZE / 2 + STAR_SIZE / 2) {
        return enemy;
    }
    proof {
        lemma_close_on_each_axis(
            enemy.position.x - star.position.x,
            enemy.position.y - star.position.y,
            ENEMY_SIZE / 2 + STAR_SIZE / 2,
        );
    }
    let way = Vec2 {
        x: star.position.x - enemy.position.x,
        y: star.position.y - enemy.position.y,
    };
    if way.x == 0 && way.y == 0 {
        return enemy;
    }
    Enemy { direction: enemy.direction.reflect(way), ..enemy }
}

/// Lets every enemy bounce off every star that it touches. An enemy that
/// touches several stars meets them in their order. No ball moves and
/// none is lost.
pub fn enemy_hit_star(stars: &Vec<Star>, enemies: &mut Vec<Enemy>)
    requires
        all_wf(old(enemies)@),
    ensures
        final(enemies)@.len() == old(enemies)@.len(),
        forall|i: int|
            0 <= i < old(enemies)@.len() ==> #[trigger] final(enemies)@[i] == old(
                enemies,
            )@[i].bounced_all(stars@),
        all_wf(final(enemies)@),
{
    let ghost before = enemies@;
    let n: usize = enemies.len();
    let m: usize = stars.len();
    let mut i: usize = 0;
    while i < n
        invariant
            i <= n,
            n == before.len(),
            m == stars@.len(),
            enemies@.len() == n,
            all_wf(before),
            forall|j: int| 0 <= j < i ==> #[trigger] enemies@[j] == before[j].bounced_all(stars@),
            forall|j: int| 0 <= j < i ==> (#[trigger] enemies@[j]).wf(),
            forall|j: int| i <= j < n ==> #[trigger] enemies@[j] == before[j],
        decreases n - i,
    {
        let mut enemy: Enemy = enemies[i];
        let mut k: usize = 0;
        proof {
            assert(before[i as int].wf());
            assert(stars@.take(0) =~= Seq::<Star>::empty());
        }
        while k < m
            invariant
                k <= m,
                m == stars@.len(),
                i < n,
                n == before.len(),
                enemy.wf(),
                enemy == before[i as int].bounced_all(stars@.take(k as int)),
            decreases m - k,
        {
            proof {
                assert(stars@.take(k + 1).drop_last() =~= stars@.take(k as int));
                assert(stars@.take(k + 1).last() == stars@[k as int]);
            }
            enemy = bounce(enemy, stars[k]);
            k += 1;
        }
        assert(stars@.take(m as int) =~= stars@);
        enemies.set(i, enemy);
        i += 1;
    }
}

/// Whether `enemy` can be the enemy that was made under the number `id`:
/// it lies on the field and heads up and to the right.
pub open spec fn is_new_enemy(enemy: Enemy, id: int, field: Field) -> bool {
    &&& enemy.id == id
    &&& field.contains(enemy.position)
    &&& enemy.direction.is_unit()
    &&& 0 <= enemy.direction.x
    &&& 0 <= enemy.direction.y
}

/// The event that tells the host of a new enemy.
pub open spec fn enemy_spawned(enemy: Enemy) -> GameEvent {
    GameEvent::Spawned {
        kind: EntityKind::Enemy,
        id: enemy.id,
        position: enemy.position,
        direction: Some(enemy.direction),
    }
}

/// Whether `after` is `before` with `count` new enemies at its end,
/// numbered from `first_id` on, and `events` tells of each of them in
/// turn.
pub open spec fn enemies_added(
    before: Seq<Enemy>,
    after: Seq<Enemy>,
    first_id: int,
    count: int,
    field: Field,
    events: Seq<GameEvent>,
) -> bool {
    &&& after.len() == before.len() + count
    &&& after.take(before.len() as int) == before
    &&& events.len() == count
    &&& forall|j: int|
        before.len() <= j < after.len() ==> is_new_enemy(
            #[trigger] after[j],
            first_id + (j - before.len()),
            field,
        ) && events[j - before.len()] == enemy_spawned(after[j])
}

/// Makes one enemy at a random place, with a random direction.
fn spawn_enemy(enemies: &mut Vec<Enemy>, next_id: &mut u64, field: Field) -> (event: GameEvent)
    requires
        *old(next_id) < u64::MAX,
    ensures
        enemies_added(old(enemies)@, final(enemies)@, *old(next_id) as int, 1, field, seq![event]),
        *final(next_id) == *old(next_id) + 1,
{
    let ghost before = enemies@;
    let position: Vec2 = random_position(field);
    let direction: Vec2 = random_direction();
    let enemy = Enemy { id: *next_id, position, direction };
    enemies.push(enemy);
    *next_id = *next_id + 1;
    assert(enemies@.take(before.len() as int) =~= before);
    GameEvent::Spawned {
        kind: EntityKind::Enemy,
        id: enemy.id,
        position: enemy.position,
        direction: Some(enemy.direction),
    }
}

/// Makes the enemies that the game starts with: `NUMBER_OF_ENEMIES` of
/// them, each at a random place of the field and with a random direction.
/// Returns one event for each.
pub fn spawn_enemies(enemies: &mut Vec<Enemy>, next_id: &mut u64, field: Field) -> (events: Vec<
    GameEvent,
>)
    requires
        *old(next_id) + NUMBER_OF_ENEMIES <= u64::MAX,
    ensures
        enemies_added(
            old(enemies)@,
            final(enemies)@,
            *old(next_id) as int,
            NUMBER_OF_ENEMIES as int,
            field,
            events@,
        ),
        *final(next_id) == *old(next_id) + NUMBER_OF_ENEMIES,
        all_wf(old(enemies)@) ==> all_wf(final(enemies)@),
{
    let ghost before = enemies@;
    let ghost first_id = *next_id as int;
    let mut events: Vec<GameEvent> = Vec::new();
    let mut made: usize = 0;
    assert(enemies@.take(before.len() as int) =~= before);
    while made < NUMBER_OF_ENEMIES
        invariant
            made <= NUMBER_OF_ENEMIES,
            *next_id == first_id + made,
            first_id + NUMBER_OF_ENEMIES <= u64::MAX,
            enemies_added(before, enemies@, first_id, made as int, field, events@),
        decreases NUMBER_OF_ENEMIES - made,
    {
        let ghost so_far = enemies@;
        let ghost told = events@;
        let event: GameEvent = spawn_enemy(enemies, next_id, field);
        events.push(event);
        made += 1;
        proof {
            assert(so_far =~= enemies@.take(so_far.len() as int));
            assert(enemies@.take(before.len() as int) =~= so_far.take(before.len() as int));
            assert forall|j: int| before.len() <= j < enemies@.len() implies is_new_enemy(
                #[trigger] enemies@[j],
                first_id + (j - before.len()),
                field,
            ) && events@[j - before.len()] == enemy_spawned(enemies@[j]) by {
                if j < so_far.len() {
                    assert(enemies@[j] == so_far[j]);
                    assert(events@[j - before.len()] == told[j - before.len()]);
                } else {
                    assert(seq![event][j - so_far.len()] == event);
                }
            }
        }
    }
    proof {
        lemma_added_are_wf(before, enemies@, first_id, NUMBER_OF_ENEMIES as int, field, events@);
    }
    events
}

/// New enemies keep the enemies well-formed.
pub proof fn lemma_added_are_wf(
    before: Seq<Enemy>,
    after: Seq<Enemy>,
    first_id: int,
    count: int,
    field: Field,
    events: Seq<GameEvent>,
)
    requires
        enemies_added(before, after, first_id, count, field, events),
    ensures
        all_wf(before) ==> all_wf(after),
{
    if all_wf(before) {
        assert forall|j: int| 0 <= j < after.len() implies (#[trigger] after[j]).wf() by {
            if j < before.len() {
                assert(after[j] == after.take(before.len() as int)[j]);
                assert(before[j].wf());
            }
        }
    }
}

/// Advances the timer that brings new enemies.
pub fn tick_enemy_spawn_timer(enemy_spawn_timer: &mut EnemySpawnTimer, dt_ns: u64)
    ensures
        final(enemy_spawn_timer).timer == old(enemy_spawn_timer).timer.ticked(dt_ns as int),
{
    enemy_spawn_timer.timer.tick(dt_ns);
}

/// Makes one enemy if the timer has just finished, and none otherwise.
pub fn spawn_enemies_over_time(
    enemies: &mut Vec<Enemy>,
    next_id: &mut u64,
    field: Field,
    enemy_spawn_timer: &EnemySpawnTimer,
) -> (events: Vec<GameEvent>)
    requires
        *old(next_id) < u64::MAX,
    ensures
        enemies_added(
            old(enemies)@,
            final(enemies)@,
            *old(next_id) as int,
            if enemy_spawn_timer.timer.finished { 1int } else { 0int },
            field,
            events@,
        ),
        *final(next_id) == *old(next_id) + if enemy_spawn_timer.timer.finished { 1int } else { 0int },
        all_wf(old(enemies)@) ==> all_wf(final(enemies)@),
{
    let ghost before = enemies@;
    let ghost first_id = *next_id as int;
    let mut events: Vec<GameEvent> = Vec::new();
    if enemy_spawn_timer.timer.finished() {
        let event: GameEvent = spawn_enemy(enemies, next_id, field);
        events.push(event);
        assert(events@ =~= seq![event]);
    } else {
        assert(enemies@.take(before.len() as int) =~= before);
    }
    proof {
        lemma_added_are_wf(
            before,
            enemies@,
            first_id,
            if enemy_spawn_timer.timer.finished { 1int } else { 0int },
            field,
            events@,
        );
    }
    events
}

} // verus!
