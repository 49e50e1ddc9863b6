//! The per-frame entity pipeline: player movement with clamping, projectile
//! firing, obstacle and projectile movement integration, pairwise collision
//! resolution with scoring, and the cull passes that drop collided and
//! off-screen entities.

use vstd::prelude::*;

use crate::score::add_score;
use crate::score::lemma_sat32_chain;
use crate::score::sat32;
use crate::score::score_value;
use crate::score::spec_score_value;
use crate::shape::DT_LIMIT;
use crate::shape::MOVEMENT_SPEED;
use crate::shape::PROJECTILE_SIZE;
use crate::shape::SCREEN_LIMIT;
use crate::shape::Shape;

verus! {

/// The held directional keys and the fire edge for one frame.
#[derive(Clone, Copy, Debug, PartialEq, Eq, Structural)]
pub struct InputState {
    pub left: bool,
    pub right: bool,
    pub up: bool,
    pub down: bool,
    pub fire: bool,
}

/// A value forced into `[lo, hi]`.
pub open spec fn clamped(v: int, lo: int, hi: int) -> int {
    if v < lo {
        lo
    } else if v > hi {
        hi
    } else {
        v
    }
}

/// Clamping lands inside the interval.
pub proof fn lemma_clamped_in_range(v: int, lo: int, hi: int)
    requires
        lo <= hi,
    ensures
        lo <= clamped(v, lo, hi) <= hi,
{
}

/// Forces a coordinate back into `[lo, hi]`.
pub fn clamp_i64(v: i64, lo: i64, hi: i64) -> (r: i64)
    requires
        lo <= hi,
    ensures
        r == clamped(v as int, lo as int, hi as int),
{
    if v < lo {
        lo
    } else if v > hi {
        hi
    } else {
        v
    }
}

/// The player after one frame of held directional input: each held key
/// contributes a full `MOVEMENT_SPEED * dt` step on its axis (diagonals
/// compose additively, opposite keys cancel), and the result is clamped to
/// the screen.
pub open spec fn spec_moved_player(p: Shape, inp: InputState, dt: int, w: int, h: int) -> Shape {
    let step = MOVEMENT_SPEED * dt;
    let x1 = p.x + (if inp.right {
        step
    } else {
        0
    }) - (if inp.left {
        step
    } else {
        0
    });
    let y1 = p.y + (if inp.down {
        step
    } else {
        0
    }) - (if inp.up {
        step
    } else {
        0
    });
    Shape { x: clamped(x1, 0, w) as i64, y: clamped(y1, 0, h) as i64, ..p }
}

/// An obstacle one frame later: fallen by `speed * dt` millipixels.
pub open spec fn moved_down(s: Shape, dt: int) -> Shape {
    Shape { y: (s.y + s.speed * dt) as i64, ..s }
}

/// A projectile one frame later: risen by `speed * dt` millipixels.
pub open spec fn moved_up(s: Shape, dt: int) -> Shape {
    Shape { y: (s.y - s.speed * dt) as i64, ..s }
}

/// The projectile fired from the player's centre: a small square travelling
/// upward at twice the player's speed.
pub open spec fn spec_new_projectile(p: Shape) -> Shape {
    Shape {
        x: p.x,
        y: p.y,
        size: PROJECTILE_SIZE,
        speed: (p.speed * 2) as i64,
        collided: false,
    }
}

/// Whether an entity's bounding box overlaps any entity of the sequence.
pub open spec fn hits_any(e: Shape, s: Seq<Shape>) -> bool {
    exists|j: int| 0 <= j < s.len() && e.spec_overlaps(#[trigger] s[j])
}

/// An entity with its collision marker raised if it overlaps anything in
/// `others`; geometry and speed are untouched.
pub open spec fn marked(e: Shape, others: Seq<Shape>) -> Shape {
    Shape { collided: e.collided || hits_any(e, others), ..e }
}

/// Every entity of `s` marked against the whole of `others`.
pub open spec fn mark_all(s: Seq<Shape>, others: Seq<Shape>) -> Seq<Shape> {
    s.map_values(|e: Shape| marked(e, others))
}

/// How many entities of `s` an entity's bounding box overlaps.
pub open spec fn hit_count(e: Shape, s: Seq<Shape>) -> int
    decreases s.len(),
{
    if s.len() == 0 {
        0
    } else {
        hit_count(e, s.drop_last()) + if e.spec_overlaps(s.last()) {
            1int
        } else {
            0int
        }
    }
}

/// The total score the pairwise scan awards: every overlapping (obstacle,
/// projectile) pair contributes the obstacle's pixel-rounded size.
pub open spec fn pair_score(obs: Seq<Shape>, prs: Seq<Shape>) -> int
    decreases obs.len(),
{
    if obs.len() == 0 {
        0
    } else {
        pair_score(obs.drop_last(), prs) + hit_count(obs.last(), prs) * spec_score_value(
            obs.last().size as int,
        )
    }
}

/// Whether any (obstacle, projectile) pair overlaps at all.
pub open spec fn any_pair(obs: Seq<Shape>, prs: Seq<Shape>) -> bool {
    exists|i: int| 0 <= i < obs.len() && hits_any(#[trigger] obs[i], prs)
}

/// Obstacles are kept while above the bottom edge: one is culled once its
/// centre is a full edge length below the screen.
pub open spec fn keep_obstacle(e: Shape, h: int) -> bool {
    e.y < h + e.size
}

/// Projectiles are kept until half their edge length above the top edge.
pub open spec fn keep_projectile(e: Shape) -> bool {
    e.y > -(e.size / 2)
}

/// The collided entities removed.
pub open spec fn spec_cull_collided(s: Seq<Shape>) -> Seq<Shape> {
    s.filter(|e: Shape| !e.collided)
}

/// The obstacles that have left the screen removed.
pub open spec fn spec_cull_obstacles(s: Seq<Shape>, h: int) -> Seq<Shape> {
    s.filter(|e: Shape| keep_obstacle(e, h))
}

/// The projectiles that have left the screen removed.
pub open spec fn spec_cull_projectiles(s: Seq<Shape>) -> Seq<Shape> {
    s.filter(|e: Shape| keep_projectile(e))
}

/// Filtering one more element appends it exactly when it satisfies the
/// predicate.
pub proof fn lemma_filter_push(s: Seq<Shape>, pred: spec_fn(Shape) -> bool, x: Shape)
    ensures
        s.push(x).filter(pred) == if pred(x) {
            s.filter(pred).push(x)
        } else {
            s.filter(pred)
        },
{
    reveal(Seq::filter);
    assert(s.push(x).drop_last() =~= s);
    assert(s.push(x).last() == x);
}

/// After a cull pass over the collided markers, no surviving entity is
/// still marked.
pub proof fn lemma_cull_clears_collided(s: Seq<Shape>)
    ensures
        forall|i: int|
            0 <= i < spec_cull_collided(s).len() ==> !(#[trigger] spec_cull_collided(s)[i]).collided,
{
    assert forall|i: int|
        0 <= i < spec_cull_collided(s).len() implies !(#[trigger] spec_cull_collided(
        s,
    )[i]).collided by {
        s.lemma_filter_pred(|e: Shape| !e.collided, i);
    }
}

/// One scan step of the overlap search: the prefix one longer hits exactly
/// when the shorter prefix hit or the new entity overlaps.
pub proof fn lemma_hits_any_step(e: Shape, s: Seq<Shape>, j: int)
    requires
        0 <= j < s.len(),
    ensures
        hits_any(e, s.subrange(0, j + 1)) == (hits_any(e, s.subrange(0, j)) || e.spec_overlaps(
            s[j],
        )),
{
    let a = s.subrange(0, j);
    let b = s.subrange(0, j + 1);
    assert(forall|k: int| 0 <= k < j ==> a[k] == #[trigger] b[k]);
    assert(b[j] == s[j]);
    if hits_any(e, a) {
        let k = choose|k: int| 0 <= k < a.len() && e.spec_overlaps(#[trigger] a[k]);
        assert(e.spec_overlaps(b[k]));
    }
    if e.spec_overlaps(s[j]) {
        assert(e.spec_overlaps(b[j]));
    }
    if hits_any(e, b) {
        let k = choose|k: int| 0 <= k < b.len() && e.spec_overlaps(#[trigger] b[k]);
        if k < j {
            assert(e.spec_overlaps(a[k]));
        }
    }
}

/// One scan step of the hit counter.
pub proof fn lemma_hit_count_step(e: Shape, s: Seq<Shape>, j: int)
    requires
        0 <= j < s.len(),
    ensures
        hit_count(e, s.subrange(0, j + 1)) == hit_count(e, s.subrange(0, j)) + if e.spec_overlaps(
            s[j],
        ) {
            1int
        } else {
            0int
        },
{
    let b = s.subrange(0, j + 1);
    assert(b.drop_last() =~= s.subrange(0, j));
    assert(b.last() == s[j]);
}

/// The hit counter never goes negative.
pub proof fn lemma_hit_count_nonneg(e: Shape, s: Seq<Shape>)
    ensures
        hit_count(e, s) >= 0,
    decreases s.len(),
{
    if s.len() > 0 {
        lemma_hit_count_nonneg(e, s.drop_last());
    }
}

/// One scan step of the pairwise score total.
pub proof fn lemma_pair_score_step(obs: Seq<Shape>, prs: Seq<Shape>, i: int)
    requires
        0 <= i < obs.len(),
    ensures
        pair_score(obs.subrange(0, i + 1), prs) == pair_score(obs.subrange(0, i), prs) + hit_count(
            obs[i],
            prs,
        ) * spec_score_value(obs[i].size as int),
{
    let b = obs.subrange(0, i + 1);
    assert(b.drop_last() =~= obs.subrange(0, i));
    assert(b.last() == obs[i]);
}

/// The pairwise score total never goes negative when every obstacle has a
/// positive size.
pub proof fn lemma_pair_score_nonneg(obs: Seq<Shape>, prs: Seq<Shape>)
    requires
        forall|k: int| 0 <= k < obs.len() ==> (#[trigger] obs[k]).size > 0,
    ensures
        pair_score(obs, prs) >= 0,
    decreases obs.len(),
{
    if obs.len() > 0 {
        assert(forall|k: int|
            0 <= k < obs.drop_last().len() ==> (#[trigger] obs.drop_last()[k]).size > 0);
        lemma_pair_score_nonneg(obs.drop_last(), prs);
        lemma_hit_count_nonneg(obs.last(), prs);
        let hc = hit_count(obs.last(), prs);
        let v = spec_score_value(obs.last().size as int);
        assert(obs[obs.len() - 1].size > 0);
        assert(v >= 0);
        assert(hc * v >= 0) by (nonlinear_arith)
            requires
                hc >= 0,
                v >= 0,
        ;
    }
}

/// One scan step of the any-overlapping-pair search.
pub proof fn lemma_any_pair_step(obs: Seq<Shape>, prs: Seq<Shape>, i: int)
    requires
        0 <= i < obs.len(),
    ensures
        any_pair(obs.subrange(0, i + 1), prs) == (any_pair(obs.subrange(0, i), prs) || hits_any(
            obs[i],
            prs,
        )),
{
    let a = obs.subrange(0, i);
    let b = obs.subrange(0, i + 1);
    assert(forall|k: int| 0 <= k < i ==> a[k] == #[trigger] b[k]);
    assert(b[i] == obs[i]);
    if any_pair(a, prs) {
        let k = choose|k: int| 0 <= k < a.len() && hits_any(#[trigger] a[k], prs);
        assert(hits_any(b[k], prs));
    }
    if hits_any(obs[i], prs) {
        assert(hits_any(b[i], prs));
    }
    if any_pair(b, prs) {
        let k = choose|k: int| 0 <= k < b.len() && hits_any(#[trigger] b[k], prs);
        if k < i {
            assert(hits_any(a[k], prs));
        }
    }
}

/// Moves the player by this frame's held keys and clamps the result to the
/// screen, so the player can never leave it.
pub fn move_player(p: &mut Shape, inp: &InputState, dt: i64, w: i64, h: i64)
    requires
        old(p).wf(),
        0 <= dt <= DT_LIMIT,
        0 <= w <= SCREEN_LIMIT,
        0 <= h <= SCREEN_LIMIT,
    ensures
        *final(p) == spec_moved_player(*old(p), *inp, dt as int, w as int, h as int),
        0 <= final(p).x <= w,
        0 <= final(p).y <= h,
{
    let step: i64 = MOVEMENT_SPEED * dt;
    let mut x: i64 = p.x;
    let mut y: i64 = p.y;
    if inp.right {
        x = x + step;
    }
    if inp.left {
        x = x - step;
    }
    if inp.down {
        y = y + step;
    }
    if inp.up {
        y = y - step;
    }
    p.x = clamp_i64(x, 0, w);
    p.y = clamp_i64(y, 0, h);
}

/// Appends the projectile fired from the player's centre.
pub fn fire_projectile(prs: &mut Vec<Shape>, player: &Shape)
    requires
        player.wf(),
    ensures
        final(prs)@ == old(prs)@.push(spec_new_projectile(*player)),
{
    let shot = Shape {
        x: player.x,
        y: player.y,
        size: PROJECTILE_SIZE,
        speed: player.speed * 2,
        collided: false,
    };
    prs.push(shot);
}

/// Advances every obstacle downward by `speed * dt` millipixels.
pub fn move_obstacles(v: &mut Vec<Shape>, dt: i64)
    requires
        0 <= dt <= DT_LIMIT,
        forall|k: int| 0 <= k < old(v)@.len() ==> (#[trigger] old(v)@[k]).wf(),
    ensures
        final(v)@ == old(v)@.map_values(|s: Shape| moved_down(s, dt as int)),
{
    let ghost v0 = v@;
    let mut out: Vec<Shape> = Vec::new();
    let mut i: usize = 0;
    while i < v.len()
        invariant
            v@ == v0,
            0 <= dt <= DT_LIMIT,
            forall|k: int| 0 <= k < v0.len() ==> (#[trigger] v0[k]).wf(),
            0 <= i <= v0.len(),
            out@ == v0.subrange(0, i as int).map_values(|s: Shape| moved_down(s, dt as int)),
        decreases v0.len() - i,
    {
        let s = v[i];
        proof {
            assert(0 <= s.speed * dt <= 1_000_000_000_000) by (nonlinear_arith)
                requires
                    0 <= s.speed <= 1_000_000,
                    0 <= dt <= 1_000_000,
            ;
        }
        let moved = Shape { y: s.y + s.speed * dt, ..s };
        out.push(moved);
        proof {
            assert(v0.subrange(0, i + 1).map_values(|s: Shape| moved_down(s, dt as int)) =~= v0
                .subrange(0, i as int).map_values(|s: Shape| moved_down(s, dt as int)).push(
                moved_down(v0[i as int], dt as int),
            ));
        }
        i = i + 1;
    }
    proof {
        assert(v0.subrange(0, v0.len() as int) =~= v0);
    }
    *v = out;
}

/// Advances every projectile upward by `speed * dt` millipixels.
pub fn move_projectiles(v: &mut Vec<Shape>, dt: i64)
    requires
        0 <= dt <= DT_LIMIT,
        forall|k: int| 0 <= k < old(v)@.len() ==> (#[trigger] old(v)@[k]).wf(),
    ensures
        final(v)@ == old(v)@.map_values(|s: Shape| moved_up(s, dt as int)),
{
    let ghost v0 = v@;
    let mut out: Vec<Shape> = Vec::new();
    let mut i: usize = 0;
    while i < v.len()
        invariant
            v@ == v0,
            0 <= dt <= DT_LIMIT,
            forall|k: int| 0 <= k < v0.len() ==> (#[trigger] v0[k]).wf(),
            0 <= i <= v0.len(),
            out@ == v0.subrange(0, i as int).map_values(|s: Shape| moved_up(s, dt as int)),
        decreases v0.len() - i,
    {
        let s = v[i];
        proof {
            assert(0 <= s.speed * dt <= 1_000_000_000_000) by (nonlinear_arith)
                requires
                    0 <= s.speed <= 1_000_000,
                    0 <= dt <= 1_000_000,
            ;
        }
        let moved = Shape { y: s.y - s.speed * dt, ..s };
        out.push(moved);
        proof {
            assert(v0.subrange(0, i + 1).map_values(|s: Shape| moved_up(s, dt as int)) =~= v0
                .subrange(0, i as int).map_values(|s: Shape| moved_up(s, dt as int)).push(
                moved_up(v0[i as int], dt as int),
            ));
        }
        i = i + 1;
    }
    proof {
        assert(v0.subrange(0, v0.len() as int) =~= v0);
    }
    *v = out;
}

/// Whether the entity's bounding box overlaps any entity in the vector; the
/// player-obstacle check of each playing frame.
pub fn overlaps_any(e: &Shape, v: &Vec<Shape>) -> (r: bool)
    requires
        e.wf(),
        forall|k: int| 0 <= k < v@.len() ==> (#[trigger] v@[k]).wf(),
    ensures
        r == hits_any(*e, v@),
{
    let mut i: usize = 0;
    while i < v.len()
        invariant
            forall|k: int| 0 <= k < v@.len() ==> (#[trigger] v@[k]).wf(),
            e.wf(),
            0 <= i <= v@.len(),
            !hits_any(*e, v@.subrange(0, i as int)),
        decreases v@.len() - i,
    {
        if e.collides_with(&v[i]) {
            proof {
                lemma_hits_any_step(*e, v@, i as int);
                assert(v@.subrange(0, v@.len() as int) =~= v@);
                assert(hits_any(*e, v@.subrange(0, i + 1)));
                lemma_hits_any_extend(*e, v@, i + 1);
            }
            return true;
        }
        proof {
            lemma_hits_any_step(*e, v@, i as int);
        }
        i = i + 1;
    }
    proof {
        assert(v@.subrange(0, v@.len() as int) =~= v@);
    }
    false
}

/// A hit inside a prefix is a hit in the whole sequence.
pub proof fn lemma_hits_any_extend(e: Shape, s: Seq<Shape>, j: int)
    requires
        0 <= j <= s.len(),
        hits_any(e, s.subrange(0, j)),
    ensures
        hits_any(e, s),
{
    let a = s.subrange(0, j);
    let k = choose|k: int| 0 <= k < a.len() && e.spec_overlaps(#[trigger] a[k]);
    assert(e.spec_overlaps(s[k]));
}

/// Pairwise collision resolution. Every (obstacle, projectile) pair whose
/// bounding boxes overlap raises both collision markers and awards the
/// obstacle's pixel-rounded size, once per overlapping pair; the in-memory
/// high score is raised to the score when at least one pair collided and is
/// otherwise untouched. Marking is a pass of its own, separate from culling,
/// so every pair is judged on the same frame's geometry.
pub fn resolve_collisions(
    obstacles: &mut Vec<Shape>,
    projectiles: &mut Vec<Shape>,
    score: &mut u32,
    high_score: &mut u32,
)
    requires
        forall|k: int| 0 <= k < old(obstacles)@.len() ==> (#[trigger] old(obstacles)@[k]).wf(),
        forall|k: int| 0 <= k < old(projectiles)@.len() ==> (#[trigger] old(projectiles)@[k]).wf(),
    ensures
        final(obstacles)@ == mark_all(old(obstacles)@, old(projectiles)@),
        final(projectiles)@ == mark_all(old(projectiles)@, old(obstacles)@),
        *final(score) as int == sat32(
            *old(score) + pair_score(old(obstacles)@, old(projectiles)@),
        ),
        *final(high_score) as int == (if any_pair(old(obstacles)@, old(projectiles)@) {
            if *final(score) > *old(high_score) {
                *final(score) as int
            } else {
                *old(high_score) as int
            }
        } else {
            *old(high_score) as int
        }),
        *final(score) >= *old(score),
{
    let ghost obs0 = old(obstacles)@;
    let ghost prs0 = old(projectiles)@;
    let ghost score0 = *old(score) as int;
    let mut new_obs: Vec<Shape> = Vec::new();
    let mut any: bool = false;
    let mut i: usize = 0;
    while i < obstacles.len()
        invariant
            obstacles@ == obs0,
            projectiles@ == prs0,
            forall|k: int| 0 <= k < obs0.len() ==> (#[trigger] obs0[k]).wf(),
            forall|k: int| 0 <= k < prs0.len() ==> (#[trigger] prs0[k]).wf(),
            0 <= i <= obs0.len(),
            new_obs@ == mark_all(obs0.subrange(0, i as int), prs0),
            *score as int == sat32(score0 + pair_score(obs0.subrange(0, i as int), prs0)),
            any == any_pair(obs0.subrange(0, i as int), prs0),
            0 <= score0 <= u32::MAX,
        decreases obs0.len() - i,
    {
        let o = obstacles[i];
        let mut hit: bool = false;
        let mut j: usize = 0;
        while j < projectiles.len()
            invariant
                obstacles@ == obs0,
                projectiles@ == prs0,
                forall|k: int| 0 <= k < obs0.len() ==> (#[trigger] obs0[k]).wf(),
                forall|k: int| 0 <= k < prs0.len() ==> (#[trigger] prs0[k]).wf(),
                0 <= i < obs0.len(),
                o == obs0[i as int],
                0 <= j <= prs0.len(),
                hit == hits_any(o, prs0.subrange(0, j as int)),
                *score as int == sat32(
                    score0 + pair_score(obs0.subrange(0, i as int), prs0) + hit_count(
                        o,
                        prs0.subrange(0, j as int),
                    ) * spec_score_value(o.size as int),
                ),
                any == (any_pair(obs0.subrange(0, i as int), prs0) || hit),
                0 <= score0 <= u32::MAX,
            decreases prs0.len() - j,
        {
            let p = projectiles[j];
            proof {
                lemma_hits_any_step(o, prs0, j as int);
                lemma_hit_count_step(o, prs0, j as int);
            }
            if o.collides_with(&p) {
                proof {
                    let ps = pair_score(obs0.subrange(0, i as int), prs0);
                    let hc = hit_count(o, prs0.subrange(0, j as int));
                    let v = spec_score_value(o.size as int);
                    assert forall|k: int|
                        0 <= k < obs0.subrange(0, i as int).len() implies (#[trigger] obs0.subrange(
                        0,
                        i as int,
                    )[k]).size > 0 by {
                        assert(obs0[k].wf());
                    }
                    lemma_pair_score_nonneg(obs0.subrange(0, i as int), prs0);
                    lemma_hit_count_nonneg(o, prs0.subrange(0, j as int));
                    assert(hc * v >= 0 && (hc + 1) * v == hc * v + v) by (nonlinear_arith)
                        requires
                            hc >= 0,
                            v >= 0,
                    ;
                    lemma_sat32_chain(score0 + ps + hc * v, v);
                }
                let inc = score_value(o.size);
                *score = add_score(*score, inc);
                hit = true;
                any = true;
            }
            j = j + 1;
        }
        proof {
            assert(prs0.subrange(0, prs0.len() as int) =~= prs0);
        }
        let done = Shape { collided: o.collided || hit, ..o };
        new_obs.push(done);
        proof {
            lemma_pair_score_step(obs0, prs0, i as int);
            lemma_any_pair_step(obs0, prs0, i as int);
            assert(done == marked(obs0[i as int], prs0));
            assert(mark_all(obs0.subrange(0, i + 1), prs0) =~= mark_all(
                obs0.subrange(0, i as int),
                prs0,
            ).push(marked(obs0[i as int], prs0)));
        }
        i = i + 1;
    }
    proof {
        assert(obs0.subrange(0, obs0.len() as int) =~= obs0);
    }
    let mut new_prs: Vec<Shape> = Vec::new();
    let mut j: usize = 0;
    while j < projectiles.len()
        invariant
            obstacles@ == obs0,
            projectiles@ == prs0,
            forall|k: int| 0 <= k < obs0.len() ==> (#[trigger] obs0[k]).wf(),
            forall|k: int| 0 <= k < prs0.len() ==> (#[trigger] prs0[k]).wf(),
            0 <= j <= prs0.len(),
            new_prs@ == mark_all(prs0.subrange(0, j as int), obs0),
        decreases prs0.len() - j,
    {
        let p = projectiles[j];
        let hit = overlaps_any(&p, obstacles);
        let done = Shape { collided: p.collided || hit, ..p };
        new_prs.push(done);
        proof {
            assert(done == marked(prs0[j as int], obs0));
            assert(mark_all(prs0.subrange(0, j + 1), obs0) =~= mark_all(
                prs0.subrange(0, j as int),
                obs0,
            ).push(marked(prs0[j as int], obs0)));
        }
        j = j + 1;
    }
    proof {
        assert(prs0.subrange(0, prs0.len() as int) =~= prs0);
    }
    if any {
        if *score > *high_score {
            *high_score = *score;
        }
    }
    proof {
        assert forall|k: int|
            0 <= k < obs0.len() implies (#[trigger] obs0[k]).size > 0 by {
            assert(obs0[k].wf());
        }
        lemma_pair_score_nonneg(obs0, prs0);
    }
    *obstacles = new_obs;
    *projectiles = new_prs;
}

/// Removes every entity marked as collided.
pub fn cull_collided(v: &mut Vec<Shape>)
    ensures
        final(v)@ == spec_cull_collided(old(v)@),
        forall|i: int| 0 <= i < final(v)@.len() ==> old(v)@.contains(#[trigger] final(v)@[i]),
        forall|i: int| 0 <= i < final(v)@.len() ==> !(#[trigger] final(v)@[i]).collided,
{
    let ghost v0 = v@;
    let mut out: Vec<Shape> = Vec::new();
    let mut i: usize = 0;
    while i < v.len()
        invariant
            v@ == v0,
            0 <= i <= v0.len(),
            out@ == spec_cull_collided(v0.subrange(0, i as int)),
            forall|j: int| 0 <= j < out@.len() ==> v0.contains(#[trigger] out@[j]),
            forall|j: int| 0 <= j < out@.len() ==> !(#[trigger] out@[j]).collided,
        decreases v0.len() - i,
    {
        let s = v[i];
        proof {
            assert(v0.subrange(0, i + 1) =~= v0.subrange(0, i as int).push(v0[i as int]));
            lemma_filter_push(v0.subrange(0, i as int), |e: Shape| !e.collided, v0[i as int]);
        }
        if !s.collided {
            out.push(s);
        }
        i = i + 1;
    }
    proof {
        assert(v0.subrange(0, v0.len() as int) =~= v0);
    }
    *v = out;
}

/// Removes every obstacle that has fallen past the bottom of the screen.
pub fn cull_obstacles_offscreen(v: &mut Vec<Shape>, h: i64)
    requires
        0 <= h <= SCREEN_LIMIT,
        forall|k: int| 0 <= k < old(v)@.len() ==> (#[trigger] old(v)@[k]).wf(),
    ensures
        final(v)@ == spec_cull_obstacles(old(v)@, h as int),
        forall|i: int| 0 <= i < final(v)@.len() ==> old(v)@.contains(#[trigger] final(v)@[i]),
        forall|i: int| 0 <= i < final(v)@.len() ==> keep_obstacle(#[trigger] final(v)@[i], h as int),
{
    let ghost v0 = v@;
    let mut out: Vec<Shape> = Vec::new();
    let mut i: usize = 0;
    while i < v.len()
        invariant
            v@ == v0,
            0 <= h <= SCREEN_LIMIT,
            forall|k: int| 0 <= k < v0.len() ==> (#[trigger] v0[k]).wf(),
            0 <= i <= v0.len(),
            out@ == spec_cull_obstacles(v0.subrange(0, i as int), h as int),
            forall|j: int| 0 <= j < out@.len() ==> v0.contains(#[trigger] out@[j]),
            forall|j: int| 0 <= j < out@.len() ==> keep_obstacle(#[trigger] out@[j], h as int),
        decreases v0.len() - i,
    {
        let s = v[i];
        proof {
            assert(v0.subrange(0, i + 1) =~= v0.subrange(0, i as int).push(v0[i as int]));
            lemma_filter_push(
                v0.subrange(0, i as int),
                |e: Shape| keep_obstacle(e, h as int),
                v0[i as int],
            );
        }
        if s.y < h + s.size {
            out.push(s);
        }
        i = i + 1;
    }
    proof {
        assert(v0.subrange(0, v0.len() as int) =~= v0);
    }
    *v = out;
}

/// Removes every projectile that has risen past the top of the screen.
pub fn cull_projectiles_offscreen(v: &mut Vec<Shape>)
    requires
        forall|k: int| 0 <= k < old(v)@.len() ==> (#[trigger] old(v)@[k]).wf(),
    ensures
        final(v)@ == spec_cull_projectiles(old(v)@),
        forall|i: int| 0 <= i < final(v)@.len() ==> old(v)@.contains(#[trigger] final(v)@[i]),
        forall|i: int| 0 <= i < final(v)@.len() ==> keep_projectile(#[trigger] final(v)@[i]),
{
    let ghost v0 = v@;
    let mut out: Vec<Shape> = Vec::new();
    let mut i: usize = 0;
    while i < v.len()
        invariant
            v@ == v0,
            forall|k: int| 0 <= k < v0.len() ==> (#[trigger] v0[k]).wf(),
            0 <= i <= v0.len(),
            out@ == spec_cull_projectiles(v0.subrange(0, i as int)),
            forall|j: int| 0 <= j < out@.len() ==> v0.contains(#[trigger] out@[j]),
            forall|j: int| 0 <= j < out@.len() ==> keep_projectile(#[trigger] out@[j]),
        decreases v0.len() - i,
    {
        let s = v[i];
        proof {
            assert(v0.subrange(0, i + 1) =~= v0.subrange(0, i as int).push(v0[i as int]));
            lemma_filter_push(
                v0.subrange(0, i as int),
                |e: Shape| keep_projectile(e),
                v0[i as int],
            );
        }
        let half: i64 = ((s.size as u64) / 2) as i64;
        if s.y > -half {
            out.push(s);
        }
        i = i + 1;
    }
    proof {
        assert(v0.subrange(0, v0.len() as int) =~= v0);
    }
    *v = out;
}

} // verus!
