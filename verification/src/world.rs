//! The in-memory world: a mapping from 3D block coordinate to block kind,
//! the list of live mobs, and the dimension tag. Terrain generation fills
//! a fixed square region with random-height columns and occasional trees.

use vstd::prelude::*;
use std::collections::HashMap;
use rand::Rng;
use crate::codec::{u32_of_i32, u32_from_i32};
use crate::player::Position;

verus! {

broadcast use vstd::std_specs::hash::group_hash_axioms;

/// The kinds of block this server places.
#[derive(Clone, Copy, Debug, PartialEq, Eq, Structural)]
pub enum BlockKind {
    Grass,
    Dirt,
    Log,
    Leaves,
}

#[derive(Clone, Copy, Debug, PartialEq, Eq, Structural)]
pub enum Dimension {
    Overworld,
    Nether,
    End,
}

/// A non-player world entity.
#[derive(Debug)]
pub struct Mob {
    pub id: u128,
    pub mob_type: String,
    pub position: Position,
    /// Health as a 32-bit float bit pattern.
    pub health_bits: u32,
}

impl Clone for Mob {
    fn clone(&self) -> (r: Mob)
        ensures
            r == *self,
    {
        Mob {
            id: self.id,
            mob_type: self.mob_type.clone(),
            position: self.position,
            health_bits: self.health_bits,
        }
    }
}

/// One map key per block coordinate: the three unsigned 32-bit patterns of
/// x, y and z side by side in one 128-bit value.
pub open spec fn coord_key(x: i32, y: i32, z: i32) -> u128 {
    ((u32_of_i32(x) as u128) * 0x1_0000_0000_0000_0000 + (u32_of_i32(y) as u128) * 0x1_0000_0000
        + (u32_of_i32(z) as u128)) as u128
}

/// Distinct coordinates pack to distinct keys.
pub broadcast proof fn lemma_coord_key_injective(
    x1: i32,
    y1: i32,
    z1: i32,
    x2: i32,
    y2: i32,
    z2: i32,
)
    ensures
        #![trigger coord_key(x1, y1, z1), coord_key(x2, y2, z2)]
        coord_key(x1, y1, z1) == coord_key(x2, y2, z2) ==> (x1 == x2 && y1 == y2 && z1 == z2),
{
}

pub fn make_coord_key(x: i32, y: i32, z: i32) -> (r: u128)
    ensures
        r == coord_key(x, y, z),
{
    (u32_from_i32(x) as u128) * 0x1_0000_0000_0000_0000u128 + (u32_from_i32(y) as u128)
        * 0x1_0000_0000u128 + (u32_from_i32(z) as u128)
}

/// The mob list after removing every mob with identity `id`.
pub open spec fn without_mob_id(s: Seq<Mob>, id: u128) -> Seq<Mob>
    decreases s.len(),
{
    if s.len() == 0 {
        s
    } else {
        let rest = without_mob_id(s.drop_last(), id);
        if s.last().id == id {
            rest
        } else {
            rest.push(s.last())
        }
    }
}

pub open spec fn has_mob_id(s: Seq<Mob>, id: u128) -> bool {
    exists|i: int| 0 <= i < s.len() && s[i].id == id
}

/// The shared world state.
pub struct World {
    blocks: HashMap<u128, BlockKind>,
    mobs: Vec<Mob>,
    dimension: Dimension,
}

impl World {
    /// The block map, keyed by packed coordinate.
    pub closed spec fn blocks(&self) -> Map<u128, BlockKind> {
        self.blocks@
    }

    pub closed spec fn mobs(&self) -> Seq<Mob> {
        self.mobs@
    }

    pub closed spec fn dim(&self) -> Dimension {
        self.dimension
    }

    pub fn dimension(&self) -> (r: Dimension)
        ensures
            r == self.dim(),
    {
        self.dimension
    }

    /// The block at a coordinate, if any.
    pub open spec fn block_at(&self, x: i32, y: i32, z: i32) -> Option<BlockKind> {
        if self.blocks().contains_key(coord_key(x, y, z)) {
            Some(self.blocks()[coord_key(x, y, z)])
        } else {
            None
        }
    }

    /// An empty overworld with no mobs.
    pub fn new() -> (r: World)
        ensures
            r.blocks() == Map::<u128, BlockKind>::empty(),
            r.mobs() == Seq::<Mob>::empty(),
            r.dim() == Dimension::Overworld,
    {
        World { blocks: HashMap::new(), mobs: Vec::new(), dimension: Dimension::Overworld }
    }

    pub fn get_block(&self, x: i32, y: i32, z: i32) -> (r: Option<BlockKind>)
        ensures
            r == self.block_at(x, y, z),
    {
        let key = make_coord_key(x, y, z);
        match self.blocks.get(&key) {
            Some(b) => Some(*b),
            None => None,
        }
    }

    pub fn set_block(&mut self, x: i32, y: i32, z: i32, kind: BlockKind)
        ensures
            final(self).blocks() == old(self).blocks().insert(coord_key(x, y, z), kind),
            final(self).mobs() == old(self).mobs(),
            final(self).dim() == old(self).dim(),
    {
        let key = make_coord_key(x, y, z);
        self.blocks.insert(key, kind);
    }

    pub fn remove_block(&mut self, x: i32, y: i32, z: i32)
        ensures
            final(self).blocks() == old(self).blocks().remove(coord_key(x, y, z)),
            final(self).mobs() == old(self).mobs(),
            final(self).dim() == old(self).dim(),
    {
        let key = make_coord_key(x, y, z);
        self.blocks.remove(&key);
    }

    pub fn add_mob(&mut self, m: Mob)
        ensures
            final(self).mobs() == old(self).mobs().push(m),
            final(self).blocks() == old(self).blocks(),
            final(self).dim() == old(self).dim(),
    {
        self.mobs.push(m);
    }

    /// Linear scan for a mob with identity `id`.
    pub fn find_mob_by_identity(&self, id: u128) -> (r: Option<&Mob>)
        ensures
            r is Some <==> has_mob_id(self.mobs(), id),
            (match r {
                Some(m) => m.id == id && (exists|i: int|
                    0 <= i < self.mobs().len() && self.mobs()[i] == *m),
                None => true,
            }),
    {
        let n = self.mobs.len();
        let mut i: usize = 0;
        while i < n
            invariant
                n == self.mobs().len(),
                0 <= i <= n,
                forall|j: int| 0 <= j < i ==> self.mobs()[j].id != id,
            decreases n - i,
        {
            if self.mobs[i].id == id {
                return Some(&self.mobs[i]);
            }
            i = i + 1;
        }
        None
    }

    /// Remove every mob with identity `id` (a mob dies when its health
    /// reaches zero).
    pub fn remove_mob_by_identity(&mut self, id: u128)
        ensures
            final(self).mobs() == without_mob_id(old(self).mobs(), id),
            final(self).blocks() == old(self).blocks(),
            final(self).dim() == old(self).dim(),
    {
        let ghost s = self.mobs();
        let n = self.mobs.len();
        let mut out: Vec<Mob> = Vec::new();
        let mut i: usize = 0;
        proof {
            assert(s.take(0) =~= Seq::<Mob>::empty());
        }
        while i < n
            invariant
                self.mobs() == s,
                n == s.len(),
                0 <= i <= n,
                out@ == without_mob_id(s.take(i as int), id),
            decreases n - i,
        {
            proof {
                assert(s.take(i + 1).drop_last() =~= s.take(i as int));
                assert(s.take(i + 1).last() == s[i as int]);
            }
            if self.mobs[i].id != id {
                let m = self.mobs[i].clone();
                out.push(m);
            }
            i = i + 1;
        }
        proof {
            assert(s.take(n as int) =~= s);
        }
        self.mobs = out;
    }
}

/// The bit pattern of the 64-bit float `10.0`.
pub const F64_TEN_BITS: u64 = 0x4024_0000_0000_0000;

/// The bit pattern of the 64-bit float `15.0`.
pub const F64_FIFTEEN_BITS: u64 = 0x402E_0000_0000_0000;

/// The bit pattern of the 64-bit float `64.0`.
pub const F64_SIXTY_FOUR_BITS: u64 = 0x4050_0000_0000_0000;

/// The two mobs the world starts with: a zombie at (10.0, 64.0, 10.0) and
/// a skeleton at (15.0, 64.0, 15.0), both at full health.
pub fn default_mobs(zombie_id: u128, skeleton_id: u128) -> (r: Vec<Mob>)
    ensures
        r@.len() == 2,
        r@[0].id == zombie_id,
        r@[0].mob_type@ == "Zombie"@,
        r@[0].position == (Position {
            x_bits: F64_TEN_BITS,
            y_bits: F64_SIXTY_FOUR_BITS,
            z_bits: F64_TEN_BITS,
        }),
        r@[0].health_bits == crate::player::FULL_HEALTH_BITS,
        r@[1].id == skeleton_id,
        r@[1].mob_type@ == "Skeleton"@,
        r@[1].position == (Position {
            x_bits: F64_FIFTEEN_BITS,
            y_bits: F64_SIXTY_FOUR_BITS,
            z_bits: F64_FIFTEEN_BITS,
        }),
        r@[1].health_bits == crate::player::FULL_HEALTH_BITS,
{
    let mut out: Vec<Mob> = Vec::new();
    out.push(
        Mob {
            id: zombie_id,
            mob_type: "Zombie".to_owned(),
            position: Position {
                x_bits: F64_TEN_BITS,
                y_bits: F64_SIXTY_FOUR_BITS,
                z_bits: F64_TEN_BITS,
            },
            health_bits: crate::player::FULL_HEALTH_BITS,
        },
    );
    out.push(
        Mob {
            id: skeleton_id,
            mob_type: "Skeleton".to_owned(),
            position: Position {
                x_bits: F64_FIFTEEN_BITS,
                y_bits: F64_SIXTY_FOUR_BITS,
                z_bits: F64_FIFTEEN_BITS,
            },
            health_bits: crate::player::FULL_HEALTH_BITS,
        },
    );
    out
}

/// Whether `(dx, dz, dy)` — offsets from a tree base — is inside the canopy:
/// within the 5×5 square, four to six blocks up, and under the diamond
/// (Manhattan-like) distance threshold.
pub open spec fn leaf_offset(dx: int, dz: int, dy: int) -> bool {
    -2 <= dx <= 2 && -2 <= dz <= 2 && 4 <= dy <= 6 && vstd::math::abs(dx) + vstd::math::abs(dz) + (
    dy - 4) < 4
}

/// Lexicographic order on canopy offsets: the order the generator visits
/// them in.
pub open spec fn offset_before(
    adx: int,
    adz: int,
    ady: int,
    bdx: int,
    bdz: int,
    bdy: int,
) -> bool {
    adx < bdx || (adx == bdx && (adz < bdz || (adz == bdz && ady < bdy)))
}

/// What a tree grown at `(x0, y0, z0)` leaves at `(x, y, z)`: canopy leaves
/// (placed after the trunk, so they win where the two overlap), else one of
/// the five trunk logs, else nothing.
pub open spec fn tree_block(x0: int, y0: int, z0: int, x: int, y: int, z: int) -> Option<
    BlockKind,
> {
    if leaf_offset(x - x0, z - z0, y - y0) {
        Some(BlockKind::Leaves)
    } else if x == x0 && z == z0 && 0 <= y - y0 < 5 {
        Some(BlockKind::Log)
    } else {
        None
    }
}

impl World {
    /// Grow one tree based at `(x, y, z)`: a five-block trunk upward, then
    /// a diamond canopy of leaves at heights four to six. Every other block
    /// is untouched.
    pub fn generate_large_tree(&mut self, x: i32, y: i32, z: i32)
        requires
            -0x7fff_fffe <= x <= 0x7fff_fffd,
            -0x7fff_fffe <= z <= 0x7fff_fffd,
            y <= 0x7fff_fff9,
        ensures
            forall|xx: i32, yy: i32, zz: i32|
                final(self).block_at(xx, yy, zz) == (match tree_block(
                    x as int,
                    y as int,
                    z as int,
                    xx as int,
                    yy as int,
                    zz as int,
                ) {
                    Some(b) => Some(b),
                    None => old(self).block_at(xx, yy, zz),
                }),
            final(self).mobs() == old(self).mobs(),
            final(self).dim() == old(self).dim(),
    {
        let mut i: i32 = 0;
        while i < 5
            invariant
                0 <= i <= 5,
                -0x7fff_fffe <= x <= 0x7fff_fffd,
                -0x7fff_fffe <= z <= 0x7fff_fffd,
                y <= 0x7fff_fff9,
                forall|xx: i32, yy: i32, zz: i32|
                    self.block_at(xx, yy, zz) == (if xx == x && zz == z && y <= yy < y + i {
                        Some(BlockKind::Log)
                    } else {
                        old(self).block_at(xx, yy, zz)
                    }),
                self.mobs() == old(self).mobs(),
                self.dim() == old(self).dim(),
            decreases 5 - i,
        {
            let ghost prev = *self;
            self.set_block(x, y + i, z, BlockKind::Log);
            proof {
                assert forall|xx: i32, yy: i32, zz: i32|
                    self.block_at(xx, yy, zz) == (if xx == x && zz == z && y <= yy < y + i + 1 {
                        Some(BlockKind::Log)
                    } else {
                        old(self).block_at(xx, yy, zz)
                    }) by {
                    lemma_coord_key_injective(xx, yy, zz, x, (y + i) as i32, z);
                    assert(prev.block_at(xx, yy, zz) == (if xx == x && zz == z && y <= yy < y
                        + i {
                        Some(BlockKind::Log)
                    } else {
                        old(self).block_at(xx, yy, zz)
                    }));
                }
            }
            i = i + 1;
        }
        let ghost mid = *self;
        let mut dx: i32 = -2;
        while dx <= 2
            invariant
                -2 <= dx <= 3,
                -0x7fff_fffe <= x <= 0x7fff_fffd,
                -0x7fff_fffe <= z <= 0x7fff_fffd,
                y <= 0x7fff_fff9,
                forall|xx: i32, yy: i32, zz: i32|
                    self.block_at(xx, yy, zz) == (if leaf_offset(
                        xx - x,
                        zz - z,
                        yy - y,
                    ) && offset_before(xx - x, zz - z, yy - y, dx as int, -2, 4) {
                        Some(BlockKind::Leaves)
                    } else {
                        mid.block_at(xx, yy, zz)
                    }),
                self.mobs() == mid.mobs(),
                self.dim() == mid.dim(),
            decreases 3 - dx,
        {
            let mut dz: i32 = -2;
            while dz <= 2
                invariant
                    -2 <= dx <= 2,
                    -2 <= dz <= 3,
                    -0x7fff_fffe <= x <= 0x7fff_fffd,
                    -0x7fff_fffe <= z <= 0x7fff_fffd,
                    y <= 0x7fff_fff9,
                    forall|xx: i32, yy: i32, zz: i32|
                        self.block_at(xx, yy, zz) == (if leaf_offset(
                            xx - x,
                            zz - z,
                            yy - y,
                        ) && offset_before(xx - x, zz - z, yy - y, dx as int, dz as int, 4) {
                            Some(BlockKind::Leaves)
                        } else {
                            mid.block_at(xx, yy, zz)
                        }),
                    self.mobs() == mid.mobs(),
                    self.dim() == mid.dim(),
                decreases 3 - dz,
            {
                let mut dy: i32 = 4;
                while dy <= 6
                    invariant
                        -2 <= dx <= 2,
                        -2 <= dz <= 2,
                        4 <= dy <= 7,
                        -0x7fff_fffe <= x <= 0x7fff_fffd,
                        -0x7fff_fffe <= z <= 0x7fff_fffd,
                        y <= 0x7fff_fff9,
                        forall|xx: i32, yy: i32, zz: i32|
                            self.block_at(xx, yy, zz) == (if leaf_offset(
                                xx - x,
                                zz - z,
                                yy - y,
                            ) && offset_before(
                                xx - x,
                                zz - z,
                                yy - y,
                                dx as int,
                                dz as int,
                                dy as int,
                            ) {
                                Some(BlockKind::Leaves)
                            } else {
                                mid.block_at(xx, yy, zz)
                            }),
                        self.mobs() == mid.mobs(),
                        self.dim() == mid.dim(),
                    decreases 7 - dy,
                {
                    let adx: i32 = if dx < 0 {
                        -dx
                    } else {
                        dx
                    };
                    let adz: i32 = if dz < 0 {
                        -dz
                    } else {
                        dz
                    };
                    if adx + adz + (dy - 4) < 4 {
                        let ghost prev = *self;
                        self.set_block(x + dx, y + dy, z + dz, BlockKind::Leaves);
                        proof {
                            assert forall|xx: i32, yy: i32, zz: i32|
                                self.block_at(xx, yy, zz) == (if leaf_offset(
                                    xx - x,
                                    zz - z,
                                    yy - y,
                                ) && offset_before(
                                    xx - x,
                                    zz - z,
                                    yy - y,
                                    dx as int,
                                    dz as int,
                                    dy + 1,
                                ) {
                                    Some(BlockKind::Leaves)
                                } else {
                                    mid.block_at(xx, yy, zz)
                                }) by {
                                lemma_coord_key_injective(
                                    xx,
                                    yy,
                                    zz,
                                    (x + dx) as i32,
                                    (y + dy) as i32,
                                    (z + dz) as i32,
                                );
                                assert(prev.block_at(xx, yy, zz) == (if leaf_offset(
                                    xx - x,
                                    zz - z,
                                    yy - y,
                                ) && offset_before(
                                    xx - x,
                                    zz - z,
                                    yy - y,
                                    dx as int,
                                    dz as int,
                                    dy as int,
                                ) {
                                    Some(BlockKind::Leaves)
                                } else {
                                    mid.block_at(xx, yy, zz)
                                }));
                            }
                        }
                    }
                    dy = dy + 1;
                }
                dz = dz + 1;
            }
            dx = dx + 1;
        }
    }
}

/// Relies on rand::thread_rng and rand::Rng::gen_range: a value drawn from
/// `lo..hi`; only membership in the range is promised.
#[verifier::external_body]
fn random_in_range(lo: i32, hi: i32) -> (r: i32)
    requires
        lo < hi,
    ensures
        lo <= r < hi,
{
    rand::thread_rng().gen_range(lo..hi)
}

/// Whether `(x, z)` is a column of the generated square region.
pub open spec fn in_region(x: i32, z: i32) -> bool {
    -100 <= x < 100 && -100 <= z < 100
}

/// Whether column `(a, c)` comes before `(x, z)` in generation order
/// (x major, z minor).
pub open spec fn col_done(a: i32, c: i32, x: i32, z: i32) -> bool {
    a < x || (a == x && c < z)
}

/// A generated column: some surface height between 61 and 66, solid dirt
/// below it, and at the surface grass — or leaves, where a neighboring
/// column's tree canopy overhangs it.
pub open spec fn column_settled(w: World, a: i32, c: i32) -> bool {
    exists|h: i32|
        61 <= h <= 66 && (forall|b: i32|
            0 <= b < h ==> #[trigger] w.block_at(a, b, c) == Some(BlockKind::Dirt)) && (w.block_at(
            a,
            h,
            c,
        ) == Some(BlockKind::Grass) || w.block_at(a, h, c) == Some(BlockKind::Leaves))
}

/// Whether `(a, b, c)` lies outside everything generation can touch: the
/// region plus two blocks of tree overhang, heights 0 through 73.
pub open spec fn outside_generated(a: i32, b: i32, c: i32) -> bool {
    !(-102 <= a <= 101 && 0 <= b <= 73 && -102 <= c <= 101)
}

impl World {
    /// Generate terrain over the square region: for each column a height
    /// drawn from 61..=66, dirt up to just below the surface, grass on top,
    /// and with a five-percent chance a tree on the column. Blocks outside
    /// the region (plus tree overhang) are untouched.
    pub fn generate(&mut self)
        ensures
            final(self).mobs() == old(self).mobs(),
            final(self).dim() == old(self).dim(),
            forall|a: i32, b: i32, c: i32|
                in_region(a, c) && 0 <= b <= 60 ==> #[trigger] final(self).block_at(a, b, c)
                    == Some(BlockKind::Dirt),
            forall|a: i32, c: i32|
                in_region(a, c) ==> #[trigger] column_settled(*final(self), a, c),
            forall|a: i32, b: i32, c: i32|
                outside_generated(a, b, c) ==> #[trigger] final(self).block_at(a, b, c) == old(
                    self,
                ).block_at(a, b, c),
    {
        let mut x: i32 = -100;
        while x < 100
            invariant
                -100 <= x <= 100,
                self.mobs() == old(self).mobs(),
                self.dim() == old(self).dim(),
                forall|a: i32, b: i32, c: i32|
                    in_region(a, c) && col_done(a, c, x, -100i32) && 0 <= b <= 60
                        ==> #[trigger] self.block_at(a, b, c) == Some(BlockKind::Dirt),
                forall|a: i32, c: i32|
                    in_region(a, c) && col_done(a, c, x, -100i32) ==> #[trigger] column_settled(
                        *self,
                        a,
                        c,
                    ),
                forall|a: i32, b: i32, c: i32|
                    outside_generated(a, b, c) ==> #[trigger] self.block_at(a, b, c) == old(
                        self,
                    ).block_at(a, b, c),
            decreases 100 - x,
        {
            let mut z: i32 = -100;
            while z < 100
                invariant
                    -100 <= x < 100,
                    -100 <= z <= 100,
                    self.mobs() == old(self).mobs(),
                    self.dim() == old(self).dim(),
                    forall|a: i32, b: i32, c: i32|
                        in_region(a, c) && col_done(a, c, x, z) && 0 <= b <= 60
                            ==> #[trigger] self.block_at(a, b, c) == Some(BlockKind::Dirt),
                    forall|a: i32, c: i32|
                        in_region(a, c) && col_done(a, c, x, z) ==> #[trigger] column_settled(
                            *self,
                            a,
                            c,
                        ),
                    forall|a: i32, b: i32, c: i32|
                        outside_generated(a, b, c) ==> #[trigger] self.block_at(a, b, c) == old(
                            self,
                        ).block_at(a, b, c),
                decreases 100 - z,
            {
                let ghost pre = *self;
                let dh = random_in_range(-3, 3);
                let h: i32 = 64 + dh;
                let mut yy: i32 = 0;
                while yy <= h
                    invariant
                        61 <= h <= 66,
                        0 <= yy <= h + 1,
                        -100 <= x < 100,
                        -100 <= z < 100,
                        self.mobs() == pre.mobs(),
                        self.dim() == pre.dim(),
                        forall|a: i32, b: i32, c: i32|
                            #[trigger] self.block_at(a, b, c) == (if a == x && c == z && 0 <= b
                                < yy {
                                Some(
                                    if b == h {
                                        BlockKind::Grass
                                    } else {
                                        BlockKind::Dirt
                                    },
                                )
                            } else {
                                pre.block_at(a, b, c)
                            }),
                    decreases h + 1 - yy,
                {
                    let kind = if yy == h {
                        BlockKind::Grass
                    } else {
                        BlockKind::Dirt
                    };
                    let ghost prev = *self;
                    self.set_block(x, yy, z, kind);
                    proof {
                        assert forall|a: i32, b: i32, c: i32|
                            #[trigger] self.block_at(a, b, c) == (if a == x && c == z && 0 <= b < yy
                                + 1 {
                                Some(
                                    if b == h {
                                        BlockKind::Grass
                                    } else {
                                        BlockKind::Dirt
                                    },
                                )
                            } else {
                                pre.block_at(a, b, c)
                            }) by {
                            lemma_coord_key_injective(a, b, c, x, yy, z);
                            assert(prev.block_at(a, b, c) == (if a == x && c == z && 0 <= b < yy {
                                Some(
                                    if b == h {
                                        BlockKind::Grass
                                    } else {
                                        BlockKind::Dirt
                                    },
                                )
                            } else {
                                pre.block_at(a, b, c)
                            }));
                        }
                    }
                    yy = yy + 1;
                }
                let ghost grown = *self;
                let roll = random_in_range(0, 100);
                let ghost had_tree = roll < 5;
                if roll < 5 {
                    self.generate_large_tree(x, h + 1, z);
                }
                proof {
                    // What this column pass did to any block: its own
                    // dirt-and-grass column, possibly a tree based one above
                    // the surface, and nothing else.
                    assert forall|a: i32, b: i32, c: i32|
                        #[trigger] self.block_at(a, b, c) == (match (if had_tree {
                            tree_block(
                                x as int,
                                (h + 1) as int,
                                z as int,
                                a as int,
                                b as int,
                                c as int,
                            )
                        } else {
                            None
                        }) {
                            Some(v) => Some(v),
                            None => (if a == x && c == z && 0 <= b <= h {
                                Some(
                                    if b == h {
                                        BlockKind::Grass
                                    } else {
                                        BlockKind::Dirt
                                    },
                                )
                            } else {
                                pre.block_at(a, b, c)
                            }),
                        }) by {
                        assert(grown.block_at(a, b, c) == (if a == x && c == z && 0 <= b <= h {
                            Some(
                                if b == h {
                                    BlockKind::Grass
                                } else {
                                    BlockKind::Dirt
                                },
                            )
                        } else {
                            pre.block_at(a, b, c)
                        }));
                    }
                    // Dirt below 61 for every column done after this one.
                    assert forall|a: i32, b: i32, c: i32|
                        in_region(a, c) && col_done(a, c, x, (z + 1) as i32) && 0 <= b <= 60
                            implies #[trigger] self.block_at(a, b, c) == Some(BlockKind::Dirt) by {
                        if col_done(a, c, x, z) {
                            assert(pre.block_at(a, b, c) == Some(BlockKind::Dirt));
                        }
                    }
                    // Each done column still has its surface.
                    assert forall|a: i32, c: i32|
                        in_region(a, c) && col_done(a, c, x, (z + 1) as i32) implies
                        #[trigger] column_settled(*self, a, c) by {
                        if col_done(a, c, x, z) {
                            assert(column_settled(pre, a, c));
                            let hh = choose|hh: i32|
                                61 <= hh <= 66 && (forall|b: i32|
                                    0 <= b < hh ==> #[trigger] pre.block_at(a, b, c) == Some(
                                        BlockKind::Dirt,
                                    )) && (pre.block_at(a, hh, c) == Some(BlockKind::Grass)
                                    || pre.block_at(a, hh, c) == Some(BlockKind::Leaves));
                            assert forall|b: i32| 0 <= b < hh implies #[trigger] self.block_at(
                                a,
                                b,
                                c,
                            ) == Some(BlockKind::Dirt) by {
                                assert(pre.block_at(a, b, c) == Some(BlockKind::Dirt));
                            }
                            assert(61 <= hh <= 66 && (forall|b: i32|
                                0 <= b < hh ==> #[trigger] self.block_at(a, b, c) == Some(
                                    BlockKind::Dirt,
                                )) && (self.block_at(a, hh, c) == Some(BlockKind::Grass)
                                || self.block_at(a, hh, c) == Some(BlockKind::Leaves)));
                        } else {
                            assert(a == x && c == z);
                            assert forall|b: i32| 0 <= b < h implies #[trigger] self.block_at(
                                a,
                                b,
                                c,
                            ) == Some(BlockKind::Dirt) by {}
                            assert(self.block_at(a, h, c) == Some(BlockKind::Grass));
                            assert(61 <= h <= 66 && (forall|b: i32|
                                0 <= b < h ==> #[trigger] self.block_at(a, b, c) == Some(
                                    BlockKind::Dirt,
                                )) && (self.block_at(a, h, c) == Some(BlockKind::Grass)
                                || self.block_at(a, h, c) == Some(BlockKind::Leaves)));
                        }
                    }
                    // Nothing outside the generated bounds moved.
                    assert forall|a: i32, b: i32, c: i32| outside_generated(a, b, c) implies
                        #[trigger] self.block_at(a, b, c) == old(self).block_at(a, b, c) by {
                        assert(pre.block_at(a, b, c) == old(self).block_at(a, b, c));
                    }
                }
                z = z + 1;
            }
            x = x + 1;
        }
    }
}

} // verus!
