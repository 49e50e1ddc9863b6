//! The owned world aggregate — player, obstacles, projectiles and score —
//! with its invariant, the spawn policy, and the full per-frame update that
//! the playing state runs: move, fire, spawn, integrate, resolve collisions,
//! check the player, and cull.

use vstd::prelude::*;

use crate::score::sat32;
use crate::shape::DT_LIMIT;
use crate::shape::MOVEMENT_SPEED;
use crate::shape::OBSTACLE_SIZE_MAX;
use crate::shape::OBSTACLE_SIZE_MIN;
use crate::shape::OBSTACLE_SPEED_MAX;
use crate::shape::OBSTACLE_SPEED_MIN;
use crate::shape::PLAYER_SIZE;
use crate::shape::PROJECTILE_SIZE;
use crate::shape::SCREEN_LIMIT;
use crate::shape::Shape;
use crate::sim::InputState;
use crate::sim::any_pair;
use crate::sim::cull_collided;
use crate::sim::cull_obstacles_offscreen;
use crate::sim::cull_projectiles_offscreen;
use crate::sim::fire_projectile;
use crate::sim::hits_any;
use crate::sim::mark_all;
use crate::sim::marked;
use crate::sim::move_obstacles;
use crate::sim::move_player;
use crate::sim::move_projectiles;
use crate::sim::moved_down;
use crate::sim::moved_up;
use crate::sim::overlaps_any;
use crate::sim::pair_score;
use crate::sim::resolve_collisions;
use crate::sim::spec_cull_collided;
use crate::sim::spec_cull_obstacles;
use crate::sim::spec_cull_projectiles;
use crate::sim::spec_moved_player;
use crate::sim::spec_new_projectile;

verus! {

/// The spawn roll is a draw from `[0, SPAWN_ROLL_MAX]`; an obstacle spawns
/// when it reaches `SPAWN_THRESHOLD`, roughly one frame in twenty.
pub const SPAWN_THRESHOLD: u32 = 95;

/// Upper bound of the spawn roll's range.
pub const SPAWN_ROLL_MAX: u32 = 99;

/// Everything one playing session owns: the player, the two entity
/// collections, and the session score.
#[derive(Debug)]
pub struct World {
    pub player: Shape,
    pub obstacles: Vec<Shape>,
    pub projectiles: Vec<Shape>,
    pub score: u32,
}

/// What one frame reports back to the host loop.
#[derive(Clone, Copy, Debug, PartialEq, Eq, Structural)]
pub struct TickOutcome {
    /// The player's bounding box overlapped an obstacle: the game is over.
    pub player_hit: bool,
    /// The store should be rewritten: the game ended and the score at the
    /// start of the frame equalled the loaded high score.
    pub write_high_score: bool,
    /// The in-memory high score after this frame: raised to the score when
    /// any obstacle was shot, untouched otherwise.
    pub high_score: u32,
}

/// A live obstacle: spawn-range size and speed, on-screen horizontally, and
/// vertically between fully-above-the-top and the cull line.
pub open spec fn obstacle_ok(o: Shape) -> bool {
    &&& OBSTACLE_SIZE_MIN <= o.size <= OBSTACLE_SIZE_MAX
    &&& OBSTACLE_SPEED_MIN <= o.speed <= OBSTACLE_SPEED_MAX
    &&& 0 <= o.x <= SCREEN_LIMIT
    &&& -o.size <= o.y < SCREEN_LIMIT + o.size
    &&& !o.collided
}

/// A live projectile: fixed size, twice the player's speed, fired from an
/// on-screen point and not yet past the cull line above the screen.
pub open spec fn projectile_ok(p: Shape) -> bool {
    &&& p.size == PROJECTILE_SIZE
    &&& p.speed == 2 * MOVEMENT_SPEED
    &&& 0 <= p.x <= SCREEN_LIMIT
    &&& -(p.size / 2) < p.y <= SCREEN_LIMIT
    &&& !p.collided
}

/// The player entity at the start of a session: fixed size and speed,
/// centred on the screen, unmarked.
pub open spec fn spec_initial_player(w: int, h: int) -> Shape {
    Shape {
        x: (w / 2) as i64,
        y: (h / 2) as i64,
        size: PLAYER_SIZE,
        speed: MOVEMENT_SPEED,
        collided: false,
    }
}

/// A freshly spawned obstacle: drawn size and speed within their ranges,
/// fully above the top edge, horizontally at least half its size from either
/// screen edge.
pub open spec fn valid_spawn(o: Shape, w: int) -> bool {
    &&& OBSTACLE_SIZE_MIN <= o.size <= OBSTACLE_SIZE_MAX
    &&& OBSTACLE_SPEED_MIN <= o.speed <= OBSTACLE_SPEED_MAX
    &&& o.y == -o.size
    &&& o.size / 2 <= o.x <= w - o.size / 2
    &&& !o.collided
}

impl World {
    /// The world invariant: the player is a fixed-size, fixed-speed entity
    /// somewhere on screen, and every obstacle and projectile is live — in
    /// its spawn ranges, inside the cull lines, and unmarked. It holds after
    /// construction and after every frame, so in particular no collided
    /// entity ever survives a frame.
    pub open spec fn wf(self) -> bool {
        &&& self.player.size == PLAYER_SIZE
        &&& self.player.speed == MOVEMENT_SPEED
        &&& !self.player.collided
        &&& 0 <= self.player.x <= SCREEN_LIMIT
        &&& 0 <= self.player.y <= SCREEN_LIMIT
        &&& forall|k: int| 0 <= k < self.obstacles@.len() ==> obstacle_ok(#[trigger] self.obstacles@[k])
        &&& forall|k: int|
            0 <= k < self.projectiles@.len() ==> projectile_ok(#[trigger] self.projectiles@[k])
    }

    /// A fresh world: the player centred, no entities, score zero.
    pub fn new(screen_w: i64, screen_h: i64) -> (r: World)
        requires
            0 <= screen_w <= SCREEN_LIMIT,
            0 <= screen_h <= SCREEN_LIMIT,
        ensures
            r.wf(),
            r.player == spec_initial_player(screen_w as int, screen_h as int),
            r.obstacles@ == Seq::<Shape>::empty(),
            r.projectiles@ == Seq::<Shape>::empty(),
            r.score == 0,
    {
        let player = Shape {
            x: ((screen_w as u64) / 2) as i64,
            y: ((screen_h as u64) / 2) as i64,
            size: PLAYER_SIZE,
            speed: MOVEMENT_SPEED,
            collided: false,
        };
        World { player, obstacles: Vec::new(), projectiles: Vec::new(), score: 0 }
    }

    /// Starts a session over: drops every obstacle and projectile, recentres
    /// the player and zeroes the score. The player's size and speed are
    /// fixed for the whole program, so recentring rewrites the entity whole.
    pub fn reset_session(&mut self, screen_w: i64, screen_h: i64)
        requires
            0 <= screen_w <= SCREEN_LIMIT,
            0 <= screen_h <= SCREEN_LIMIT,
        ensures
            final(self).wf(),
            final(self).player == spec_initial_player(screen_w as int, screen_h as int),
            final(self).obstacles@ == Seq::<Shape>::empty(),
            final(self).projectiles@ == Seq::<Shape>::empty(),
            final(self).score == 0,
    {
        self.obstacles.clear();
        self.projectiles.clear();
        self.player = Shape {
            x: ((screen_w as u64) / 2) as i64,
            y: ((screen_h as u64) / 2) as i64,
            size: PLAYER_SIZE,
            speed: MOVEMENT_SPEED,
            collided: false,
        };
        self.score = 0;
    }
}

/// The obstacle collection as it stands mid-frame: this frame's spawn
/// appended, then everything fallen one step.
pub open spec fn obstacles_mid(obs: Seq<Shape>, spawn: Option<Shape>, dt: int) -> Seq<Shape> {
    let spawned = match spawn {
        Option::Some(o) => obs.push(o),
        Option::None => obs,
    };
    spawned.map_values(|s: Shape| moved_down(s, dt))
}

/// The projectile collection as it stands mid-frame: this frame's shot
/// appended, then everything risen one step.
pub open spec fn projectiles_mid(prs: Seq<Shape>, player: Shape, fire: bool, dt: int) -> Seq<
    Shape,
> {
    let fired = if fire {
        prs.push(spec_new_projectile(player))
    } else {
        prs
    };
    fired.map_values(|s: Shape| moved_up(s, dt))
}

/// The obstacles left at the end of the frame: marked against the mid-frame
/// projectiles, the off-screen ones culled, then the collided ones culled.
pub open spec fn obstacles_after(om: Seq<Shape>, pm: Seq<Shape>, h: int) -> Seq<Shape> {
    spec_cull_collided(spec_cull_obstacles(mark_all(om, pm), h))
}

/// The projectiles left at the end of the frame: marked against the
/// mid-frame obstacles, the off-screen ones culled, then the collided ones
/// culled.
pub open spec fn projectiles_after(pm: Seq<Shape>, om: Seq<Shape>) -> Seq<Shape> {
    spec_cull_collided(spec_cull_projectiles(mark_all(pm, om)))
}

/// The full statement of one playing frame, for a given spawn draw `sp`:
/// how the world after (`w1`) and the frame's outcome follow from the world
/// before (`w0`), the inputs and the loaded high score.
pub open spec fn frame_result_matches(
    w0: World,
    w1: World,
    out: TickOutcome,
    inp: InputState,
    dt: int,
    sw: int,
    sh: int,
    hs: int,
    sp: Option<Shape>,
) -> bool {
    let p1 = spec_moved_player(w0.player, inp, dt, sw, sh);
    let om = obstacles_mid(w0.obstacles@, sp, dt);
    let pm = projectiles_mid(w0.projectiles@, p1, inp.fire, dt);
    &&& (sp matches Option::Some(o) ==> valid_spawn(o, sw))
    &&& w1.player == p1
    &&& w1.obstacles@ == obstacles_after(om, pm, sh)
    &&& w1.projectiles@ == projectiles_after(pm, om)
    &&& w1.score as int == sat32(w0.score + pair_score(om, pm))
    &&& out.player_hit == hits_any(p1, om)
    &&& out.write_high_score == (out.player_hit && w0.score == hs)
    &&& out.high_score as int == (if any_pair(om, pm) {
        if w1.score > hs {
            w1.score as int
        } else {
            hs
        }
    } else {
        hs
    })
}

/// Relies on macroquad::rand::gen_range (macroquad re-exports quad_rand):
/// for unsigned integers it computes `low + (high - low) * r` in f64 with
/// `r` drawn in [0, 1) and casts back with truncation, so the result lies
/// between the bounds; float rounding can reach the upper bound, which makes
/// both bounds inclusive.
#[verifier::external_body]
fn random_in_range(low: u32, high: u32) -> (r: u32)
    requires
        low <= high,
    ensures
        low <= r <= high,
{
    macroquad::rand::gen_range(low, high)
}

/// Rolls the per-frame spawn chance and, roughly one frame in twenty, draws
/// a fresh obstacle: edge in [16, 64] pixels, fall speed in [50, 150] pixels
/// per second, centred anywhere that keeps it fully on screen horizontally,
/// resting fully above the top edge. Which frames spawn and what is drawn
/// are up to the random generator; whatever comes back, a returned obstacle
/// is a valid spawn for this screen width.
pub fn roll_spawn(screen_w: i64) -> (r: Option<Shape>)
    requires
        OBSTACLE_SIZE_MAX <= screen_w <= SCREEN_LIMIT,
    ensures
        r matches Some(o) ==> valid_spawn(o, screen_w as int),
{
    let roll = random_in_range(0, SPAWN_ROLL_MAX);
    if roll >= SPAWN_THRESHOLD {
        let size = random_in_range(OBSTACLE_SIZE_MIN as u32, OBSTACLE_SIZE_MAX as u32);
        let speed = random_in_range(OBSTACLE_SPEED_MIN as u32, OBSTACLE_SPEED_MAX as u32);
        let half = size / 2;
        let x = random_in_range(half, (screen_w as u32) - half);
        Some(
            Shape {
                x: x as i64,
                y: -(size as i64),
                size: size as i64,
                speed: speed as i64,
                collided: false,
            },
        )
    } else {
        None
    }
}

/// One playing frame with the spawn draw passed in, so the whole update is a
/// function of its arguments: the player moves by the held keys and is
/// clamped to the screen; a fire edge launches a projectile from the player;
/// the spawn, if any, joins the obstacles; obstacles fall and projectiles
/// rise one `speed * dt` step; every overlapping (obstacle, projectile) pair
/// is marked and scored; the player-obstacle check decides the game; and the
/// cull pass removes everything marked or off screen.
///
/// The score never decreases, the clamped player satisfies the screen
/// bounds, and the world invariant — in particular that no marked entity
/// survives — holds again at the end of the frame.
pub fn advance_frame(
    world: &mut World,
    inp: &InputState,
    dt: i64,
    screen_w: i64,
    screen_h: i64,
    high_score: u32,
    spawn: Option<Shape>,
) -> (out: TickOutcome)
    requires
        old(world).wf(),
        0 <= dt <= DT_LIMIT,
        OBSTACLE_SIZE_MAX <= screen_w <= SCREEN_LIMIT,
        0 <= screen_h <= SCREEN_LIMIT,
        spawn matches Some(o) ==> valid_spawn(o, screen_w as int),
    ensures
        final(world).wf(),
        final(world).score >= old(world).score,
        0 <= final(world).player.x <= screen_w,
        0 <= final(world).player.y <= screen_h,
        frame_result_matches(
            *old(world),
            *final(world),
            out,
            *inp,
            dt as int,
            screen_w as int,
            screen_h as int,
            high_score as int,
            spawn,
        ),
{
    let ghost w0 = *world;
    let score_start: u32 = world.score;

    move_player(&mut world.player, inp, dt, screen_w, screen_h);
    let ghost p1 = world.player;

    if inp.fire {
        fire_projectile(&mut world.projectiles, &world.player);
    }

    match spawn {
        Some(o) => world.obstacles.push(o),
        None => (),
    }
    let ghost spawned = world.obstacles@;
    let ghost fired = world.projectiles@;

    proof {
        assert forall|k: int| 0 <= k < spawned.len() implies (#[trigger] spawned[k]).wf() by {
            if k < w0.obstacles@.len() {
                assert(obstacle_ok(w0.obstacles@[k]));
            }
        }
        assert forall|k: int| 0 <= k < fired.len() implies (#[trigger] fired[k]).wf() by {
            if k < w0.projectiles@.len() {
                assert(projectile_ok(w0.projectiles@[k]));
            }
        }
    }

    move_obstacles(&mut world.obstacles, dt);
    move_projectiles(&mut world.projectiles, dt);
    let ghost om = world.obstacles@;
    let ghost pm = world.projectiles@;

    proof {
        assert(om == obstacles_mid(w0.obstacles@, spawn, dt as int));
        assert(pm == projectiles_mid(w0.projectiles@, p1, inp.fire, dt as int));
        assert forall|k: int| 0 <= k < om.len() implies (#[trigger] om[k]).wf() by {
            assert(om[k] == moved_down(spawned[k], dt as int));
            assert(spawned[k].wf());
            let s = spawned[k];
            assert(0 <= s.speed * dt <= 1_000_000_000_000) by (nonlinear_arith)
                requires
                    0 <= s.speed <= 1_000_000,
                    0 <= dt <= 1_000_000,
            ;
        }
        assert forall|k: int| 0 <= k < pm.len() implies (#[trigger] pm[k]).wf() by {
            assert(pm[k] == moved_up(fired[k], dt as int));
            assert(fired[k].wf());
            let s = fired[k];
            assert(0 <= s.speed * dt <= 1_000_000_000_000) by (nonlinear_arith)
                requires
                    0 <= s.speed <= 1_000_000,
                    0 <= dt <= 1_000_000,
            ;
        }
    }

    let hit = overlaps_any(&world.player, &world.obstacles);

    let mut hs: u32 = high_score;
    resolve_collisions(
        &mut world.obstacles,
        &mut world.projectiles,
        &mut world.score,
        &mut hs,
    );

    proof {
        assert forall|k: int|
            0 <= k < mark_all(om, pm).len() implies (#[trigger] mark_all(om, pm)[k]).wf() by {
            assert(mark_all(om, pm)[k] == marked(om[k], pm));
            assert(om[k].wf());
        }
        assert forall|k: int|
            0 <= k < mark_all(pm, om).len() implies (#[trigger] mark_all(pm, om)[k]).wf() by {
            assert(mark_all(pm, om)[k] == marked(pm[k], om));
            assert(pm[k].wf());
        }
    }

    cull_obstacles_offscreen(&mut world.obstacles, screen_h);
    cull_collided(&mut world.obstacles);
    cull_projectiles_offscreen(&mut world.projectiles);
    cull_collided(&mut world.projectiles);

    proof {
        let obs_marked = mark_all(om, pm);
        let obs_kept = spec_cull_obstacles(obs_marked, screen_h as int);
        assert forall|k: int|
            0 <= k < world.obstacles@.len() implies obstacle_ok(#[trigger] world.obstacles@[k]) by {
            let e = world.obstacles@[k];
            assert(obs_kept.contains(e));
            let j = choose|j: int| 0 <= j < obs_kept.len() && obs_kept[j] == e;
            assert(crate::sim::keep_obstacle(obs_kept[j], screen_h as int));
            assert(obs_marked.contains(obs_kept[j]));
            let m = choose|m: int| 0 <= m < obs_marked.len() && obs_marked[m] == e;
            assert(obs_marked[m] == marked(om[m], pm));
            assert(om[m] == moved_down(spawned[m], dt as int));
            let s = spawned[m];
            if m < w0.obstacles@.len() {
                assert(obstacle_ok(w0.obstacles@[m]));
            }
            assert(0 <= s.speed * dt) by (nonlinear_arith)
                requires
                    0 <= s.speed,
                    0 <= dt,
            ;
            assert(0 <= s.speed * dt <= 1_000_000_000_000) by (nonlinear_arith)
                requires
                    0 <= s.speed <= 1_000_000,
                    0 <= dt <= 1_000_000,
            ;
        }
        let prs_marked = mark_all(pm, om);
        let prs_kept = spec_cull_projectiles(prs_marked);
        assert forall|k: int|
            0 <= k < world.projectiles@.len() implies projectile_ok(
            #[trigger] world.projectiles@[k],
        ) by {
            let e = world.projectiles@[k];
            assert(prs_kept.contains(e));
            let j = choose|j: int| 0 <= j < prs_kept.len() && prs_kept[j] == e;
            assert(crate::sim::keep_projectile(prs_kept[j]));
            assert(prs_marked.contains(prs_kept[j]));
            let m = choose|m: int| 0 <= m < prs_marked.len() && prs_marked[m] == e;
            assert(prs_marked[m] == marked(pm[m], om));
            assert(pm[m] == moved_up(fired[m], dt as int));
            let s = fired[m];
            if m < w0.projectiles@.len() {
                assert(projectile_ok(w0.projectiles@[m]));
            }
            assert(0 <= s.speed * dt <= 1_000_000_000_000) by (nonlinear_arith)
                requires
                    0 <= s.speed <= 1_000_000,
                    0 <= dt <= 1_000_000,
            ;
        }
    }

    TickOutcome {
        player_hit: hit,
        write_high_score: hit && score_start == high_score,
        high_score: hs,
    }
}

/// One playing frame as the host loop runs it: rolls the spawn chance
/// itself, then advances the world exactly as `advance_frame` states for
/// whichever spawn came out of the draw.
pub fn tick(
    world: &mut World,
    inp: &InputState,
    dt: i64,
    screen_w: i64,
    screen_h: i64,
    high_score: u32,
) -> (out: TickOutcome)
    requires
        old(world).wf(),
        0 <= dt <= DT_LIMIT,
        OBSTACLE_SIZE_MAX <= screen_w <= SCREEN_LIMIT,
        0 <= screen_h <= SCREEN_LIMIT,
    ensures
        final(world).wf(),
        final(world).score >= old(world).score,
        0 <= final(world).player.x <= screen_w,
        0 <= final(world).player.y <= screen_h,
        forall|k: int|
            0 <= k < final(world).obstacles@.len() ==> !(#[trigger] final(world).obstacles@[k]).collided,
        forall|k: int|
            0 <= k < final(world).projectiles@.len() ==> !(#[trigger] final(world).projectiles@[k]).collided,
        out.write_high_score == (out.player_hit && old(world).score == high_score),
        exists|sp: Option<Shape>|
            #[trigger] frame_result_matches(
                *old(world),
                *final(world),
                out,
                *inp,
                dt as int,
                screen_w as int,
                screen_h as int,
                high_score as int,
                sp,
            ),
{
    let spawn = roll_spawn(screen_w);
    let out = advance_frame(world, inp, dt, screen_w, screen_h, high_score, spawn);
    proof {
        assert(frame_result_matches(
            *old(world),
            *world,
            out,
            *inp,
            dt as int,
            screen_w as int,
            screen_h as int,
            high_score as int,
            spawn,
        ));
    }
    out
}

} // verus!
