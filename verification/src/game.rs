//! The whole game: its state, and what one tick does to it.

use vstd::prelude::*;
use crate::enemy::components::{all_wf, are_all_wf, Enemy};
use crate::enemy::resources::EnemySpawnTimer;
use crate::enemy::systems::{
    confine_enemy_movement, enemies_added, enemy_hit_star, enemy_movement, lemma_added_are_wf,
    reversals, spawn_enemies, spawn_enemies_over_time, tick_enemy_spawn_timer,
    update_enemy_direction,
};
use crate::enemy::NUMBER_OF_ENEMIES;
use crate::events::GameEvent;
use crate::field::Field;
use crate::player::components::{MoveInput, Player};
use crate::player::systems::{
    collected_by, collection_events, confine_player_movement, missed_by, player_hit_enemy,
    player_hit_star, player_movement, player_spawned, spawn_player,
};
use crate::score::resources::Score;
use crate::star::components::Star;
use crate::star::resources::StarSpawnTimer;
use crate::star::systems::{
    spawn_stars, spawn_stars_over_time, stars_added, tick_star_spawn_timer,
};
use crate::star::NUMBER_OF_STARS;

verus! {

/// Whether the game is still on.
#[derive(Clone, Copy, Debug, PartialEq, Eq, Structural)]
pub enum GamePhase {
    Running,
    /// An enemy has caught the player. The game stays over.
    GameOver,
}

/// All that the game keeps from tick to tick.
pub struct GameState {
    pub player: Option<Player>,
    pub enemies: Vec<Enemy>,
    pub stars: Vec<Star>,
    pub score: Score,
    pub enemy_spawn_timer: EnemySpawnTimer,
    pub star_spawn_timer: StarSpawnTimer,
    /// The number that the next new ball gets.
    pub next_id: u64,
    pub phase: GamePhase,
}

/// The state of the game as a mathematical value.
pub struct GameView {
    pub player: Option<Player>,
    pub enemies: Seq<Enemy>,
    pub stars: Seq<Star>,
    pub score: Score,
    pub enemy_spawn_timer: EnemySpawnTimer,
    pub star_spawn_timer: StarSpawnTimer,
    pub next_id: u64,
    pub phase: GamePhase,
}

impl View for GameState {
    type V = GameView;

    open spec fn view(&self) -> GameView {
        GameView {
            player: self.player,
            enemies: self.enemies@,
            stars: self.stars@,
            score: self.score,
            enemy_spawn_timer: self.enemy_spawn_timer,
            star_spawn_timer: self.star_spawn_timer,
            next_id: self.next_id,
            phase: self.phase,
        }
    }
}

/// Whether the numbers of the enemies grow along the sequence.
pub open spec fn enemies_in_order(enemies: Seq<Enemy>) -> bool {
    forall|i: int, j: int|
        0 <= i < j < enemies.len() ==> (#[trigger] enemies[i]).id < (#[trigger] enemies[j]).id
}

/// Whether the numbers of the stars grow along the sequence.
pub open spec fn stars_in_order(stars: Seq<Star>) -> bool {
    forall|i: int, j: int|
        0 <= i < j < stars.len() ==> (#[trigger] stars[i]).id < (#[trigger] stars[j]).id
}

impl GameView {
    /// Every number in use is under the number that the next ball gets.
    pub open spec fn ids_are_used(self) -> bool {
        &&& self.player matches Some(p) ==> p.id < self.next_id
        &&& forall|i: int| 0 <= i < self.enemies.len() ==> (#[trigger] self.enemies[i]).id < self.next_id
        &&& forall|i: int| 0 <= i < self.stars.len() ==> (#[trigger] self.stars[i]).id < self.next_id
    }

    /// No two balls have the same number.
    pub open spec fn ids_are_distinct(self) -> bool {
        &&& enemies_in_order(self.enemies)
        &&& stars_in_order(self.stars)
        &&& forall|i: int, j: int|
            0 <= i < self.enemies.len() && 0 <= j < self.stars.len() ==> (#[trigger] self.enemies[i]).id
                != (#[trigger] self.stars[j]).id
        &&& self.player matches Some(p) ==> {
            &&& forall|i: int| 0 <= i < self.enemies.len() ==> (#[trigger] self.enemies[i]).id != p.id
            &&& forall|i: int| 0 <= i < self.stars.len() ==> (#[trigger] self.stars[i]).id != p.id
        }
    }

    /// The enemies after they have moved for `dt_ns` nanoseconds.
    pub open spec fn enemies_moved(self, dt_ns: int) -> Seq<Enemy> {
        self.enemies.map_values(|e: Enemy| e.moved(dt_ns))
    }

    /// The enemies at the end of a tick of `dt_ns` nanoseconds: each has
    /// moved, has turned round where the move took it off the field, was
    /// then put back on the field, and has bounced off the stars.
    pub open spec fn enemies_advanced(self, dt_ns: int, field: Field) -> Seq<Enemy> {
        self.enemies.map_values(
            |e: Enemy| e.moved(dt_ns).turned(field).confined(field).bounced_all(self.stars),
        )
    }

    /// The player after it has moved under the given keys and was put
    /// back on the field.
    pub open spec fn player_advanced(self, input: MoveInput, dt_ns: int, field: Field) -> Option<
        Player,
    > {
        match self.player {
            Some(p) => Some(p.moved(input, dt_ns).confined(field)),
            None => None,
        }
    }

    /// The player at the end of the tick, unless an enemy has caught it.
    pub open spec fn survivor(self, input: MoveInput, dt_ns: int, field: Field) -> Option<Player> {
        match self.player_advanced(input, dt_ns, field) {
            Some(p) => if p.caught(self.enemies_advanced(dt_ns, field)) {
                None
            } else {
                Some(p)
            },
            None => None,
        }
    }

    /// Whether the score has room for the stars that the tick collects.
    pub open spec fn score_has_room(self, input: MoveInput, dt_ns: int, field: Field) -> bool {
        match self.survivor(input, dt_ns, field) {
            Some(p) => self.score.value + self.stars.filter(collected_by(p)).len() <= u32::MAX,
            None => true,
        }
    }

    /// The state after a tick of `dt_ns` nanoseconds, before any new ball
    /// is made. Both timers advance; the player and the enemies move,
    /// the enemies turn round at the edges, and all are put back on the
    /// field; the enemies bounce off the stars; the player is taken away
    /// if an enemy has caught it, and else collects the stars that it
    /// overlaps, one point each.
    pub open spec fn advanced(self, input: MoveInput, dt_ns: int, field: Field) -> GameView {
        let player = self.survivor(input, dt_ns, field);
        GameView {
            player,
            enemies: self.enemies_advanced(dt_ns, field),
            stars: match player {
                Some(p) => self.stars.filter(missed_by(p)),
                None => self.stars,
            },
            score: match player {
                Some(p) => Score {
                    value: (self.score.value + self.stars.filter(collected_by(p)).len()) as u32,
                },
                None => self.score,
            },
            enemy_spawn_timer: EnemySpawnTimer {
                timer: self.enemy_spawn_timer.timer.ticked(dt_ns),
            },
            star_spawn_timer: StarSpawnTimer { timer: self.star_spawn_timer.timer.ticked(dt_ns) },
            next_id: self.next_id,
            phase: if player is None {
                GamePhase::GameOver
            } else {
                GamePhase::Running
            },
        }
    }

    /// What the host hears of that part of the tick: first of the enemies
    /// that turned round, then either of the end of the game or of the
    /// stars that were collected.
    pub open spec fn advance_events(self, input: MoveInput, dt_ns: int, field: Field) -> Seq<
        GameEvent,
    > {
        reversals(self.enemies_moved(dt_ns), field) + match self.player_advanced(
            input,
            dt_ns,
            field,
        ) {
            Some(p) => if p.caught(self.enemies_advanced(dt_ns, field)) {
                seq![GameEvent::Despawned { id: p.id }, GameEvent::GameOver]
            } else {
                collection_events(self.stars.filter(collected_by(p)))
            },
            None => Seq::empty(),
        }
    }

    /// How many enemies are due: one if the enemies' timer has just
    /// finished, else none.
    pub open spec fn enemies_due(self) -> int {
        if self.enemy_spawn_timer.timer.finished {
            1
        } else {
            0
        }
    }

    /// How many stars are due: one if the stars' timer has just finished,
    /// else none.
    pub open spec fn stars_due(self) -> int {
        if self.star_spawn_timer.timer.finished {
            1
        } else {
            0
        }
    }

    /// Whether `after` is the state `self` with the balls that are due:
    /// the new enemies, and after them the new stars, stand at the end of
    /// their sequences, each on the field and under the next free number,
    /// `events` tells of each in turn, and nothing else has changed.
    pub open spec fn spawned(self, after: GameView, field: Field, events: Seq<GameEvent>) -> bool {
        &&& events.len() == self.enemies_due() + self.stars_due()
        &&& enemies_added(
            self.enemies,
            after.enemies,
            self.next_id as int,
            self.enemies_due(),
            field,
            events.take(self.enemies_due()),
        )
        &&& stars_added(
            self.stars,
            after.stars,
            self.next_id + self.enemies_due(),
            self.stars_due(),
            field,
            events.skip(self.enemies_due()),
        )
        &&& after.next_id == self.next_id + self.enemies_due() + self.stars_due()
        &&& after.player == self.player
        &&& after.score == self.score
        &&& after.enemy_spawn_timer == self.enemy_spawn_timer
        &&& after.star_spawn_timer == self.star_spawn_timer
        &&& after.phase == self.phase
    }

    /// The state is sound: every enemy has a direction, the balls are
    /// told apart by their numbers, and the game is over exactly when the
    /// player is gone.
    pub open spec fn wf(self) -> bool {
        &&& all_wf(self.enemies)
        &&& self.ids_are_used()
        &&& self.ids_are_distinct()
        &&& self.phase == GamePhase::GameOver <==> self.player is None
    }
}

impl GameState {
    /// Starts a game: the player in the middle of the field, then the
    /// first enemies, then the first stars among them, numbered from zero
    /// on in that order. Returns one event for each ball.
    pub fn new(field: Field) -> (started: (GameState, Vec<GameEvent>))
        ensures
            started.0@.wf(),
            started.0.phase == GamePhase::Running,
            started.0.score.value == 0,
            started.0.player == Some(Player { id: 0, position: field.center() }),
            started.0.enemy_spawn_timer == EnemySpawnTimer::initial(),
            started.0.star_spawn_timer == StarSpawnTimer::initial(),
            started.0.next_id == 1 + NUMBER_OF_ENEMIES + NUMBER_OF_STARS,
            started.1@.len() == 1 + NUMBER_OF_ENEMIES + NUMBER_OF_STARS,
            started.1@[0] == player_spawned(Player { id: 0, position: field.center() }),
            enemies_added(
                Seq::empty(),
                started.0.enemies@,
                1,
                NUMBER_OF_ENEMIES as int,
                field,
                started.1@.subrange(1, 1 + NUMBER_OF_ENEMIES),
            ),
            stars_added(
                Seq::empty(),
                started.0.stars@,
                1 + NUMBER_OF_ENEMIES,
                NUMBER_OF_STARS as int,
                field,
                started.1@.subrange(
                    1 + NUMBER_OF_ENEMIES,
                    1 + NUMBER_OF_ENEMIES + NUMBER_OF_STARS,
                ),
            ),
    {
        let mut state = GameState {
            player: None,
            enemies: Vec::new(),
            stars: Vec::new(),
            score: Score::default(),
            enemy_spawn_timer: EnemySpawnTimer::default(),
            star_spawn_timer: StarSpawnTimer::default(),
            next_id: 0,
            phase: GamePhase::Running,
        };
        let mut events: Vec<GameEvent> = spawn_player(&mut state.player, &mut state.next_id, field);
        let mut enemy_events: Vec<GameEvent> = spawn_enemies(
            &mut state.enemies,
            &mut state.next_id,
            field,
        );
        let mut star_events: Vec<GameEvent> = spawn_stars(
            &mut state.stars,
            &state.enemies,
            &mut state.next_id,
            field,
        );
        let ghost told_of_enemies = enemy_events@;
        let ghost told_of_stars = star_events@;
        events.append(&mut enemy_events);
        events.append(&mut star_events);
        proof {
            assert(events@.subrange(1, 1 + NUMBER_OF_ENEMIES) =~= told_of_enemies);
            assert(events@.subrange(
                1 + NUMBER_OF_ENEMIES,
                1 + NUMBER_OF_ENEMIES + NUMBER_OF_STARS,
            ) =~= told_of_stars);
            assert(state.enemies@.take(0) =~= Seq::<Enemy>::empty());
        }
        (state, events)
    }

    /// Tests whether the state is sound.
    pub fn is_sound(&self) -> (b: bool)
        ensures
            b == self@.wf(),
    {
        let player_id: Option<u64> = match self.player {
            Some(p) => Some(p.id),
            None => None,
        };
        let over: bool = match self.phase {
            GamePhase::GameOver => true,
            GamePhase::Running => false,
        };
        let used: bool = match player_id {
            Some(id) => id < self.next_id,
            None => true,
        };
        are_all_wf(&self.enemies) && over == self.player.is_none() && used
            && are_enemies_in_order(&self.enemies, self.next_id, player_id) && are_stars_in_order(
            &self.stars,
            self.next_id,
            player_id,
        ) && share_no_id(&self.enemies, &self.stars)
    }

    /// Tests whether the state can take a tick, whatever the keys, the
    /// time and the field: it is sound, two numbers are free, and the
    /// score has room for every star.
    pub fn can_tick(&self) -> (b: bool)
        ensures
            b == (self@.wf() && self.next_id + 2 <= u64::MAX && self.score.value + self.stars@.len()
                <= u32::MAX),
            b ==> forall|input: MoveInput, dt_ns: int, field: Field|
                #[trigger] self@.score_has_room(input, dt_ns, field),
    {
        proof {
            assert forall|input: MoveInput, dt_ns: int, field: Field|
                self.score.value + self.stars@.len() <= u32::MAX implies #[trigger] self@.score_has_room(
                input,
                dt_ns,
                field,
            ) by {
                lemma_room_for_every_star(self@, input, dt_ns, field);
            }
        }
        self.is_sound() && self.next_id <= u64::MAX - 2 && self.stars.len() as u128
            + self.score.value as u128 <= u32::MAX as u128
    }

    /// Runs that part of a tick which makes no new ball, in this order:
    /// the timers, the moves, the turns at the edges, the confinement,
    /// and then the collisions, enemies and stars first, then enemies and
    /// player, then player and stars.
    pub fn advance(&mut self, input: MoveInput, dt_ns: u64, field: Field) -> (events: Vec<
        GameEvent,
    >)
        requires
            old(self)@.wf(),
            old(self)@.score_has_room(input, dt_ns as int, field),
        ensures
            final(self)@ == old(self)@.advanced(input, dt_ns as int, field),
            events@ == old(self)@.advance_events(input, dt_ns as int, field),
            final(self)@.wf(),
    {
        let ghost before = self@;
        tick_enemy_spawn_timer(&mut self.enemy_spawn_timer, dt_ns);
        tick_star_spawn_timer(&mut self.star_spawn_timer, dt_ns);
        player_movement(&mut self.player, input, dt_ns);
        enemy_movement(&mut self.enemies, dt_ns);
        assert(self.enemies@ =~= before.enemies_moved(dt_ns as int));
        let mut events: Vec<GameEvent> = update_enemy_direction(&mut self.enemies, field);
        confine_player_movement(&mut self.player, field);
        confine_enemy_movement(&mut self.enemies, field);
        enemy_hit_star(&self.stars, &mut self.enemies);
        assert(self.enemies@ =~= before.enemies_advanced(dt_ns as int, field));
        assert(self.player == before.player_advanced(input, dt_ns as int, field));
        let mut caught: Vec<GameEvent> = player_hit_enemy(&mut self.player, &self.enemies);
        events.append(&mut caught);
        assert(self.player == before.survivor(input, dt_ns as int, field));
        let mut collected: Vec<GameEvent> = player_hit_star(
            &self.player,
            &mut self.stars,
            &mut self.score,
        );
        events.append(&mut collected);
        if self.player.is_none() {
            self.phase = GamePhase::GameOver;
        }
        proof {
            assert(events@ =~= before.advance_events(input, dt_ns as int, field));
            assert(self@.stars =~= before.advanced(input, dt_ns as int, field).stars);
            lemma_advanced_is_wf(before, input, dt_ns as int, field);
        }
        events
    }

    /// Makes the balls that are due: an enemy if the enemies' timer has
    /// just finished, then a star if the stars' timer has. There must be
    /// two free numbers left.
    pub fn spawn_due(&mut self, field: Field) -> (events: Vec<GameEvent>)
        requires
            old(self)@.wf(),
            old(self).next_id + 2 <= u64::MAX,
        ensures
            old(self)@.spawned(final(self)@, field, events@),
            final(self)@.wf(),
    {
        let ghost before = self@;
        let mut events: Vec<GameEvent> = spawn_enemies_over_time(
            &mut self.enemies,
            &mut self.next_id,
            field,
            &self.enemy_spawn_timer,
        );
        let mut star_events: Vec<GameEvent> = spawn_stars_over_time(
            &mut self.stars,
            &self.enemies,
            &mut self.next_id,
            field,
            &self.star_spawn_timer,
        );
        let ghost told_of_enemies = events@;
        let ghost told_of_stars = star_events@;
        events.append(&mut star_events);
        proof {
            assert(events@.take(before.enemies_due()) =~= told_of_enemies);
            assert(events@.skip(before.enemies_due()) =~= told_of_stars);
            lemma_spawned_is_wf(before, self@, field, events@);
        }
        events
    }

    /// Runs one tick of `dt_ns` nanoseconds under the given keys: first
    /// `advance`, then `spawn_due`. The events of the first part come
    /// first.
    pub fn tick(&mut self, input: MoveInput, dt_ns: u64, field: Field) -> (events: Vec<GameEvent>)
        requires
            old(self)@.wf(),
            old(self)@.score_has_room(input, dt_ns as int, field),
            old(self).next_id + 2 <= u64::MAX,
        ensures
            old(self)@.advance_events(input, dt_ns as int, field).len() <= events@.len(),
            events@.take(old(self)@.advance_events(input, dt_ns as int, field).len() as int) == old(
                self,
            )@.advance_events(input, dt_ns as int, field),
            old(self)@.advanced(input, dt_ns as int, field).spawned(
                final(self)@,
                field,
                events@.skip(old(self)@.advance_events(input, dt_ns as int, field).len() as int),
            ),
            final(self)@.wf(),
    {
        let mut events: Vec<GameEvent> = self.advance(input, dt_ns, field);
        let ghost told = events@;
        let mut spawn_events: Vec<GameEvent> = self.spawn_due(field);
        let ghost told_of_new = spawn_events@;
        events.append(&mut spawn_events);
        proof {
            assert(events@.take(told.len() as int) =~= told);
            assert(events@.skip(told.len() as int) =~= told_of_new);
        }
        events
    }
}

/// A score with room for every star has room for those that a tick
/// collects.
pub proof fn lemma_room_for_every_star(
    state: GameView,
    input: MoveInput,
    dt_ns: int,
    field: Field,
)
    requires
        state.score.value + state.stars.len() <= u32::MAX,
    ensures
        state.score_has_room(input, dt_ns, field),
{
    match state.survivor(input, dt_ns, field) {
        Some(p) => {
            state.stars.lemma_filter_len(collected_by(p));
        },
        None => {},
    }
}

/// Tests whether the numbers of the enemies grow along the vector, stay
/// under `next_id` and differ from the player's.
fn are_enemies_in_order(enemies: &Vec<Enemy>, next_id: u64, player_id: Option<u64>) -> (b: bool)
    ensures
        b == {
            &&& enemies_in_order(enemies@)
            &&& forall|i: int| 0 <= i < enemies@.len() ==> (#[trigger] enemies@[i]).id < next_id
            &&& player_id matches Some(id) ==> forall|i: int|
                0 <= i < enemies@.len() ==> (#[trigger] enemies@[i]).id != id
        },
{
    let n: usize = enemies.len();
    let mut i: usize = 0;
    while i < n
        invariant
            i <= n,
            n == enemies@.len(),
            forall|a: int, b: int|
                0 <= a < b < i ==> (#[trigger] enemies@[a]).id < (#[trigger] enemies@[b]).id,
            forall|a: int| 0 <= a < i ==> (#[trigger] enemies@[a]).id < next_id,
            player_id matches Some(id) ==> forall|a: int|
                0 <= a < i ==> (#[trigger] enemies@[a]).id != id,
        decreases n - i,
    {
        let id: u64 = enemies[i].id;
        if id >= next_id {
            return false;
        }
        if i > 0 && enemies[i - 1].id >= id {
            assert(!((#[trigger] enemies@[i - 1]).id < (#[trigger] enemies@[i as int]).id));
            return false;
        }
        match player_id {
            Some(other) => {
                if other == id {
                    return false;
                }
            },
            None => {},
        }
        assert forall|a: int, b: int| 0 <= a < b < i + 1 implies (#[trigger] enemies@[a]).id < (
        #[trigger] enemies@[b]).id by {
            if b == i && a < i - 1 {
                assert(enemies@[a].id < enemies@[i - 1].id);
            }
        }
        i += 1;
    }
    true
}

/// Tests whether the numbers of the stars grow along the vector, stay
/// under `next_id` and differ from the player's.
fn are_stars_in_order(stars: &Vec<Star>, next_id: u64, player_id: Option<u64>) -> (b: bool)
    ensures
        b == {
            &&& stars_in_order(stars@)
            &&& forall|i: int| 0 <= i < stars@.len() ==> (#[trigger] stars@[i]).id < next_id
            &&& player_id matches Some(id) ==> forall|i: int|
                0 <= i < stars@.len() ==> (#[trigger] stars@[i]).id != id
        },
{
    let n: usize = stars.len();
    let mut i: usize = 0;
    while i < n
        invariant
            i <= n,
            n == stars@.len(),
            forall|a: int, b: int|
                0 <= a < b < i ==> (#[trigger] stars@[a]).id < (#[trigger] stars@[b]).id,
            forall|a: int| 0 <= a < i ==> (#[trigger] stars@[a]).id < next_id,
            player_id matches Some(id) ==> forall|a: int|
                0 <= a < i ==> (#[trigger] stars@[a]).id != id,
        decreases n - i,
    {
        let id: u64 = stars[i].id;
        if id >= next_id {
            return false;
        }
        if i > 0 && stars[i - 1].id >= id {
            assert(!((#[trigger] stars@[i - 1]).id < (#[trigger] stars@[i as int]).id));
            return false;
        }
        match player_id {
            Some(other) => {
                if other == id {
                    return false;
                }
            },
            None => {},
        }
        assert forall|a: int, b: int| 0 <= a < b < i + 1 implies (#[trigger] stars@[a]).id < (
        #[trigger] stars@[b]).id by {
            if b == i && a < i - 1 {
                assert(stars@[a].id < stars@[i - 1].id);
            }
        }
        i += 1;
    }
    true
}

/// Tests whether no enemy has the number of a star.
fn share_no_id(enemies: &Vec<Enemy>, stars: &Vec<Star>) -> (b: bool)
    ensures
        b == forall|i: int, j: int|
            0 <= i < enemies@.len() && 0 <= j < stars@.len() ==> (#[trigger] enemies@[i]).id != (
            #[trigger] stars@[j]).id,
{
    let n: usize = enemies.len();
    let m: usize = stars.len();
    let mut i: usize = 0;
    while i < n
        invariant
            i <= n,
            n == enemies@.len(),
            m == stars@.len(),
            forall|a: int, b: int|
                0 <= a < i && 0 <= b < m ==> (#[trigger] enemies@[a]).id != (#[trigger] stars@[b]).id,
        decreases n - i,
    {
        let id: u64 = enemies[i].id;
        let mut j: usize = 0;
        while j < m
            invariant
                j <= m,
                i < n,
                n == enemies@.len(),
                m == stars@.len(),
                id == enemies@[i as int].id,
                forall|b: int| 0 <= b < j ==> enemies@[i as int].id != (#[trigger] stars@[b]).id,
            decreases m - j,
        {
            if stars[j].id == id {
                assert((#[trigger] enemies@[i as int]).id == (#[trigger] stars@[j as int]).id);
                return false;
            }
            j += 1;
        }
        i += 1;
    }
    true
}

/// New balls keep the state sound.
pub proof fn lemma_spawned_is_wf(
    state: GameView,
    after: GameView,
    field: Field,
    events: Seq<GameEvent>,
)
    requires
        state.wf(),
        state.spawned(after, field, events),
    ensures
        after.wf(),
{
    let e = state.enemies_due();
    lemma_added_are_wf(state.enemies, after.enemies, state.next_id as int, e, field, events.take(e));
    assert forall|i: int| 0 <= i < state.enemies.len() implies after.enemies[i]
        == #[trigger] state.enemies[i] by {
        assert(after.enemies.take(state.enemies.len() as int)[i] == after.enemies[i]);
    }
    assert forall|i: int| 0 <= i < state.stars.len() implies after.stars[i]
        == #[trigger] state.stars[i] by {
        assert(after.stars.take(state.stars.len() as int)[i] == after.stars[i]);
    }
    assert forall|i: int| 0 <= i < after.enemies.len() implies (#[trigger] after.enemies[i]).id
        < after.next_id && (i >= state.enemies.len() ==> after.enemies[i].id >= state.next_id) by {
        if i < state.enemies.len() {
            assert(after.enemies[i] == state.enemies[i]);
        }
    }
    assert forall|i: int| 0 <= i < after.stars.len() implies (#[trigger] after.stars[i]).id
        < after.next_id && (i >= state.stars.len() ==> after.stars[i].id >= state.next_id + e) by {
        if i < state.stars.len() {
            assert(after.stars[i] == state.stars[i]);
        }
    }
    assert(after.ids_are_distinct()) by {
        assert forall|i: int, j: int| 0 <= i < j < after.enemies.len() implies (
        #[trigger] after.enemies[i]).id < (#[trigger] after.enemies[j]).id by {
            if j < state.enemies.len() {
                assert(after.enemies[i] == state.enemies[i] && after.enemies[j]
                    == state.enemies[j]);
            } else if i < state.enemies.len() {
                assert(after.enemies[i] == state.enemies[i]);
            }
        }
        assert forall|i: int, j: int| 0 <= i < j < after.stars.len() implies (
        #[trigger] after.stars[i]).id < (#[trigger] after.stars[j]).id by {
            if j < state.stars.len() {
                assert(after.stars[i] == state.stars[i] && after.stars[j] == state.stars[j]);
            } else if i < state.stars.len() {
                assert(after.stars[i] == state.stars[i]);
            }
        }
        assert forall|i: int, j: int|
            0 <= i < after.enemies.len() && 0 <= j < after.stars.len() implies (
        #[trigger] after.enemies[i]).id != (#[trigger] after.stars[j]).id by {
            if i < state.enemies.len() && j < state.stars.len() {
                assert(after.enemies[i] == state.enemies[i] && after.stars[j] == state.stars[j]);
            } else if i < state.enemies.len() {
                assert(after.enemies[i] == state.enemies[i]);
            } else if j < state.stars.len() {
                assert(after.stars[j] == state.stars[j]);
            }
        }
        if let Some(p) = after.player {
            assert forall|i: int| 0 <= i < after.enemies.len() implies (
            #[trigger] after.enemies[i]).id != p.id by {
                if i < state.enemies.len() {
                    assert(after.enemies[i] == state.enemies[i]);
                }
            }
            assert forall|i: int| 0 <= i < after.stars.len() implies (#[trigger] after.stars[i]).id
                != p.id by {
                if i < state.stars.len() {
                    assert(after.stars[i] == state.stars[i]);
                }
            }
        }
    }
}

/// Stars that are left over when some are taken away are still in order,
/// and each of them was there before.
pub proof fn lemma_filter_keeps_order(stars: Seq<Star>, keep: spec_fn(Star) -> bool)
    requires
        stars_in_order(stars),
    ensures
        stars_in_order(stars.filter(keep)),
        forall|i: int|
            0 <= i < stars.filter(keep).len() ==> stars.contains(#[trigger] stars.filter(keep)[i]),
    decreases stars.len(),
{
    reveal(Seq::filter);
    if stars.len() > 0 {
        let rest = stars.drop_last();
        let kept = rest.filter(keep);
        assert forall|i: int, j: int| 0 <= i < j < rest.len() implies (#[trigger] rest[i]).id < (
        #[trigger] rest[j]).id by {
            assert(rest[i] == stars[i] && rest[j] == stars[j]);
        }
        lemma_filter_keeps_order(rest, keep);
        let all = stars.filter(keep);
        assert forall|i: int| 0 <= i < all.len() implies stars.contains(#[trigger] all[i]) by {
            if i < kept.len() {
                assert(all[i] == kept[i]);
                assert(rest.contains(kept[i]));
                let k = choose|k: int| 0 <= k < rest.len() && rest[k] == kept[i];
                assert(stars[k] == kept[i]);
            } else {
                assert(all[i] == stars[stars.len() - 1]);
            }
        }
        assert forall|i: int, j: int| 0 <= i < j < all.len() implies (#[trigger] all[i]).id < (
        #[trigger] all[j]).id by {
            if j < kept.len() {
                assert(all[i] == kept[i] && all[j] == kept[j]);
            } else {
                assert(all[j] == stars.last());
                assert(all[i] == kept[i]);
                assert(rest.contains(kept[i]));
                let k = choose|k: int| 0 <= k < rest.len() && rest[k] == kept[i];
                assert(stars[k] == kept[i]);
                assert(stars[k].id < stars[stars.len() - 1].id);
            }
        }
    }
}

/// A tick keeps the state sound.
pub proof fn lemma_advanced_is_wf(state: GameView, input: MoveInput, dt_ns: int, field: Field)
    requires
        state.wf(),
        0 <= dt_ns <= u64::MAX,
    ensures
        state.advanced(input, dt_ns, field).wf(),
{
    let after = state.advanced(input, dt_ns, field);
    assert forall|i: int| 0 <= i < after.enemies.len() implies (#[trigger] after.enemies[i]).id
        == state.enemies[i].id && after.enemies[i].wf() by {
        let e = state.enemies[i];
        assert(e.wf());
        lemma_turned_is_wf(e.moved(dt_ns), field);
        lemma_bounced_all(e.moved(dt_ns).turned(field).confined(field), state.stars);
    }
    match state.survivor(input, dt_ns, field) {
        Some(p) => {
            lemma_filter_keeps_order(state.stars, missed_by(p));
            assert forall|j: int| 0 <= j < after.stars.len() implies state.stars.contains(
                #[trigger] after.stars[j],
            ) by {}
        },
        None => {},
    }
    assert forall|j: int| 0 <= j < after.stars.len() implies exists|k: int|
        0 <= k < state.stars.len() && state.stars[k] == #[trigger] after.stars[j] by {
        assert(state.stars.contains(after.stars[j]));
    }
    assert(after.ids_are_used()) by {
        assert forall|j: int| 0 <= j < after.stars.len() implies (#[trigger] after.stars[j]).id
            < after.next_id by {
            let k = choose|k: int| 0 <= k < state.stars.len() && state.stars[k] == after.stars[j];
            assert(state.stars[k].id < state.next_id);
        }
    }
    assert(after.ids_are_distinct()) by {
        assert forall|i: int, j: int|
            0 <= i < after.enemies.len() && 0 <= j < after.stars.len() implies (
        #[trigger] after.enemies[i]).id != (#[trigger] after.stars[j]).id by {
            let k = choose|k: int| 0 <= k < state.stars.len() && state.stars[k] == after.stars[j];
            assert(state.enemies[i].id != state.stars[k].id);
        }
        assert forall|i: int, j: int| 0 <= i < j < after.enemies.len() implies (
        #[trigger] after.enemies[i]).id < (#[trigger] after.enemies[j]).id by {
            assert(state.enemies[i].id < state.enemies[j].id);
        }
        if let Some(p) = after.player {
            assert(state.player is Some && state.player->0.id == p.id);
            assert forall|j: int| 0 <= j < after.stars.len() implies (#[trigger] after.stars[j]).id
                != p.id by {
                let k = choose|k: int|
                    0 <= k < state.stars.len() && state.stars[k] == after.stars[j];
                assert(state.stars[k].id != p.id);
            }
        }
    }
}

/// Once the game is over it stays over: without a player no tick brings
/// one back, collects a star or changes the score.
pub proof fn lemma_game_over_is_final(state: GameView, input: MoveInput, dt_ns: int, field: Field)
    requires
        state.wf(),
        state.phase == GamePhase::GameOver,
    ensures
        state.advanced(input, dt_ns, field).phase == GamePhase::GameOver,
        state.advanced(input, dt_ns, field).player is None,
        state.advanced(input, dt_ns, field).stars == state.stars,
        state.advanced(input, dt_ns, field).score == state.score,
        state.advance_events(input, dt_ns, field) == reversals(state.enemies_moved(dt_ns), field),
{
}

/// The score never falls, and a tick that the player survives adds one
/// point for each star that is taken away.
pub proof fn lemma_score_counts_stars(state: GameView, input: MoveInput, dt_ns: int, field: Field)
    requires
        state.score_has_room(input, dt_ns, field),
    ensures
        state.advanced(input, dt_ns, field).score.value >= state.score.value,
        state.advanced(input, dt_ns, field).player is Some ==> state.advanced(
            input,
            dt_ns,
            field,
        ).score.value - state.score.value == state.stars.len() - state.advanced(
            input,
            dt_ns,
            field,
        ).stars.len(),
{
    match state.survivor(input, dt_ns, field) {
        Some(p) => {
            lemma_filter_splits(state.stars, collected_by(p), missed_by(p));
        },
        None => {},
    }
}

/// Two tests of which each star passes exactly one split the stars into
/// two parts.
proof fn lemma_filter_splits(stars: Seq<Star>, taken: spec_fn(Star) -> bool, left: spec_fn(
    Star,
) -> bool)
    requires
        forall|star: Star| #[trigger] taken(star) == !left(star),
    ensures
        stars.filter(taken).len() + stars.filter(left).len() == stars.len(),
    decreases stars.len(),
{
    reveal(Seq::filter);
    if stars.len() > 0 {
        lemma_filter_splits(stars.drop_last(), taken, left);
    }
}

/// Turning round keeps a direction a direction, and leaves the number.
pub proof fn lemma_turned_is_wf(enemy: Enemy, field: Field)
    requires
        enemy.wf(),
    ensures
        enemy.turned(field).wf(),
        enemy.turned(field).id == enemy.id,
{
    crate::vec2::lemma_unit_components(enemy.direction);
    let d = enemy.turned(field).direction;
    assert(d.x * d.x == enemy.direction.x * enemy.direction.x && d.y * d.y == enemy.direction.y
        * enemy.direction.y) by (nonlinear_arith)
        requires
            d.x == enemy.direction.x || d.x == -enemy.direction.x,
            d.y == enemy.direction.y || d.y == -enemy.direction.y,
    ;
}

/// Bouncing off stars keeps a direction a direction, and leaves the
/// number and the place.
pub proof fn lemma_bounced_all(enemy: Enemy, stars: Seq<Star>)
    requires
        enemy.wf(),
    ensures
        enemy.bounced_all(stars).wf(),
        enemy.bounced_all(stars).id == enemy.id,
        enemy.bounced_all(stars).position == enemy.position,
    decreases stars.len(),
{
    if stars.len() > 0 {
        lemma_bounced_all(enemy, stars.drop_last());
        crate::enemy::systems::lemma_bounced(enemy.bounced_all(stars.drop_last()), stars.last());
    }
}

} // verus!
