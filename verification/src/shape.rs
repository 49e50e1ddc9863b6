//! The shared entity model: player, obstacles and projectiles are all
//! axis-aligned squares described by a centre position, an edge length and a
//! vertical speed, plus a soft-delete marker set when the entity was involved
//! in a destructive collision this frame.

use vstd::prelude::*;

verus! {

/// Millipixels per pixel: positions and sizes are stored in thousandths of a
/// screen pixel so that integer arithmetic models the simulation exactly.
pub const MILLI: i64 = 1000;

/// Player movement speed, in pixels per second.
pub const MOVEMENT_SPEED: i64 = 200;

/// Edge length of the player's bounding square, in millipixels.
pub const PLAYER_SIZE: i64 = 16_000;

/// Edge length of a projectile's bounding square, in millipixels.
pub const PROJECTILE_SIZE: i64 = 5_000;

/// Smallest obstacle edge length the spawner may draw, in millipixels.
pub const OBSTACLE_SIZE_MIN: i64 = 16_000;

/// Largest obstacle edge length the spawner may draw, in millipixels.
pub const OBSTACLE_SIZE_MAX: i64 = 64_000;

/// Slowest obstacle fall speed the spawner may draw, in pixels per second.
pub const OBSTACLE_SPEED_MIN: i64 = 50;

/// Fastest obstacle fall speed the spawner may draw, in pixels per second.
pub const OBSTACLE_SPEED_MAX: i64 = 150;

/// Upper bound on entity edge lengths, in millipixels.
pub const SIZE_LIMIT: i64 = 1_000_000_000;

/// Upper bound on the magnitude of entity coordinates, in millipixels.
/// Generous enough that one frame of movement from anywhere on screen stays
/// far from `i64` overflow.
pub const POS_LIMIT: i64 = 2_000_000_000_000;

/// Upper bound on entity speeds, in pixels per second.
pub const SPEED_LIMIT: i64 = 1_000_000;

/// Upper bound on a frame's duration, in milliseconds.
pub const DT_LIMIT: i64 = 1_000_000;

/// Upper bound on screen width and height, in millipixels.
pub const SCREEN_LIMIT: i64 = 1_000_000_000;

/// A simulated entity: a square of edge `size` centred at `(x, y)`, moving
/// vertically at `speed`. `collided` marks it for removal by the cull pass.
///
/// Units: `x`, `y` and `size` are millipixels; `speed` is pixels per second.
#[derive(Clone, Copy, Debug, PartialEq, Eq, Structural)]
pub struct Shape {
    pub x: i64,
    pub y: i64,
    pub size: i64,
    pub speed: i64,
    pub collided: bool,
}

/// An axis-aligned rectangle: top-left corner `(x, y)`, extent `(w, h)`,
/// all in millipixels.
#[derive(Clone, Copy, Debug, PartialEq, Eq, Structural)]
pub struct Rect {
    pub x: i64,
    pub y: i64,
    pub w: i64,
    pub h: i64,
}

impl Rect {
    /// Bounds under which the overlap test's sums stay far from overflow.
    pub open spec fn wf(self) -> bool {
        &&& -POS_LIMIT - SIZE_LIMIT <= self.x <= POS_LIMIT + SIZE_LIMIT
        &&& -POS_LIMIT - SIZE_LIMIT <= self.y <= POS_LIMIT + SIZE_LIMIT
        &&& 0 < self.w <= SIZE_LIMIT
        &&& 0 < self.h <= SIZE_LIMIT
    }

    /// Whether two rectangles share at least one point. Touching edges count
    /// as an overlap; the policy is applied consistently on both sides of
    /// every collision check in the crate.
    pub open spec fn spec_overlaps(self, other: Rect) -> bool {
        &&& self.x <= other.x + other.w
        &&& other.x <= self.x + self.w
        &&& self.y <= other.y + other.h
        &&& other.y <= self.y + self.h
    }

    /// Rectangle-intersection test over closed boxes.
    pub fn overlaps(&self, other: &Rect) -> (r: bool)
        requires
            self.wf(),
            other.wf(),
        ensures
            r == self.spec_overlaps(*other),
    {
        self.x <= other.x + other.w && other.x <= self.x + self.w && self.y <= other.y + other.h
            && other.y <= self.y + self.h
    }
}

impl Shape {
    /// Bounds that every entity in a live world satisfies; they keep all the
    /// geometric arithmetic of a frame within `i64`.
    pub open spec fn wf(self) -> bool {
        &&& 0 < self.size <= SIZE_LIMIT
        &&& -POS_LIMIT <= self.x <= POS_LIMIT
        &&& -POS_LIMIT <= self.y <= POS_LIMIT
        &&& 0 <= self.speed <= SPEED_LIMIT
    }

    /// The bounding square: edge `size`, centred at `(x, y)`. With an odd
    /// `size` the centre is biased half a millipixel toward the top-left,
    /// matching truncating division.
    pub open spec fn spec_rect(self) -> Rect {
        Rect {
            x: (self.x - self.size / 2) as i64,
            y: (self.y - self.size / 2) as i64,
            w: self.size,
            h: self.size,
        }
    }

    /// Whether the bounding squares of two entities share at least one point.
    /// Only the geometry matters: `speed` and `collided` are ignored.
    pub open spec fn spec_overlaps(self, other: Shape) -> bool {
        self.spec_rect().spec_overlaps(other.spec_rect())
    }

    /// Computes the bounding square of the entity.
    pub fn rect(&self) -> (r: Rect)
        requires
            self.wf(),
        ensures
            r == self.spec_rect(),
            r.wf(),
    {
        let half: i64 = ((self.size as u64) / 2) as i64;
        Rect { x: self.x - half, y: self.y - half, w: self.size, h: self.size }
    }

    /// Bounding-box collision test between two entities.
    pub fn collides_with(&self, other: &Shape) -> (r: bool)
        requires
            self.wf(),
            other.wf(),
        ensures
            r == self.spec_overlaps(*other),
    {
        self.rect().overlaps(&other.rect())
    }
}

/// The collision test is symmetric: whichever entity is asked, the answer is
/// the same.
pub proof fn lemma_overlaps_symmetric(a: Shape, b: Shape)
    ensures
        a.spec_overlaps(b) == b.spec_overlaps(a),
{
}

} // verus!
