use vstd::prelude::*;

use crate::components::{Point, Position};
use crate::map::{GameMap, TileType};
use crate::world::World;

verus! {

/// The set of tiles an entity currently sees, recomputed wholesale by
/// each visibility pass; never patched incrementally.
pub struct Viewshed {
    pub visible_tiles: Vec<Point>,
    pub range: i32,
}

impl Viewshed {
    pub fn new(range: i32) -> (r: Viewshed)
        ensures
            r.range == range,
            r.visible_tiles@.len() == 0,
    {
        Viewshed { visible_tiles: Vec::new(), range }
    }
}

pub open spec fn iabs(x: int) -> int {
    if x < 0 {
        -x
    } else {
        x
    }
}

pub open spec fn sign_of(x: int) -> int {
    if x < 0 {
        -1
    } else if x > 0 {
        1
    } else {
        0
    }
}

/// Number of unit steps of the ray from `a` to `b`: the Chebyshev
/// distance.
pub open spec fn steps(a: Point, b: Point) -> int {
    if iabs(b.x - a.x) >= iabs(b.y - a.y) {
        iabs(b.x - a.x)
    } else {
        iabs(b.y - a.y)
    }
}

pub open spec fn dist2(a: Point, b: Point) -> int {
    (b.x - a.x) * (b.x - a.x) + (b.y - a.y) * (b.y - a.y)
}

/// The `k`-th intermediate cell of the ray from `a` to `b`: each axis
/// advances in proportion `k / steps`, rounded toward `a`.
pub open spec fn ray_sample(a: Point, b: Point, k: int) -> Point {
    let n = steps(a, b);
    Point {
        x: (a.x + sign_of(b.x - a.x) * ((iabs(b.x - a.x) * k) / n)) as i32,
        y: (a.y + sign_of(b.y - a.y) * ((iabs(b.y - a.y) * k) / n)) as i32,
    }
}

pub open spec fn opaque_at(m: GameMap, p: Point) -> bool {
    m.tiles@[m.idx_of_point(p)] != TileType::Floor
}

/// A tile is visible from `o` when it lies on the map, within the
/// Euclidean range, and no intermediate ray cell is opaque. The
/// endpoint itself may be a wall: walls are seen, they only block
/// what lies beyond them.
pub open spec fn fov_visible(m: GameMap, o: Point, range: i32, t: Point) -> bool {
    &&& m.valid_point(t)
    &&& dist2(o, t) <= range * range
    &&& forall|k: int| 1 <= k < steps(o, t) ==> !opaque_at(m, #[trigger] ray_sample(o, t, k))
}

/// The visible tiles, in row-major grid order, among the first `n`
/// cells of the grid.
pub open spec fn fov_seq_upto(m: GameMap, o: Point, range: i32, n: int) -> Seq<Point>
    decreases n,
{
    if n <= 0 {
        Seq::empty()
    } else {
        let rest = fov_seq_upto(m, o, range, n - 1);
        let p = Point { x: ((n - 1) % (m.width as int)) as i32, y: ((n - 1) / (m.width as int)) as i32 };
        if fov_visible(m, o, range, p) {
            rest.push(p)
        } else {
            rest
        }
    }
}

/// Everything visible from `o`, in row-major grid order: the full
/// result of one visibility pass.
pub open spec fn fov_seq(m: GameMap, o: Point, range: i32) -> Seq<Point> {
    fov_seq_upto(m, o, range, m.tiles@.len() as int)
}

/// Recomputing a viewshed with unchanged position, range and map
/// yields identical visible tiles: the visibility pass is idempotent.
pub proof fn lemma_visibility_idempotent(
    m: GameMap,
    o: Point,
    range: i32,
    v1: Seq<Point>,
    v2: Seq<Point>,
)
    requires
        v1 == fov_seq(m, o, range),
        v2 == fov_seq(m, o, range),
    ensures
        v1 == v2,
{
}

/// The field of view reads only the tile grid and its dimensions:
/// two maps that agree on those see exactly the same tiles.
pub proof fn lemma_fov_visible_same(m1: GameMap, m2: GameMap, o: Point, range: i32, t: Point)
    requires
        m2.tiles == m1.tiles,
        m2.width == m1.width,
        m2.height == m1.height,
    ensures
        fov_visible(m1, o, range, t) == fov_visible(m2, o, range, t),
{
    assert(m2.tiles@ == m1.tiles@);
    assert forall|k: int| 1 <= k < steps(o, t) implies opaque_at(m1, #[trigger] ray_sample(o, t, k))
        == opaque_at(m2, ray_sample(o, t, k)) by {}
}

/// Likewise for the whole visibility pass.
pub proof fn lemma_fov_seq_same(m1: GameMap, m2: GameMap, o: Point, range: i32)
    requires
        m2.tiles == m1.tiles,
        m2.width == m1.width,
        m2.height == m1.height,
    ensures
        fov_seq(m1, o, range) == fov_seq(m2, o, range),
{
    assert(m2.tiles@ == m1.tiles@);
    lemma_fov_seq_upto_same(m1, m2, o, range, m1.tiles@.len() as int);
}

proof fn lemma_fov_seq_upto_same(m1: GameMap, m2: GameMap, o: Point, range: i32, n: int)
    requires
        m2.tiles == m1.tiles,
        m2.width == m1.width,
        m2.height == m1.height,
    ensures
        fov_seq_upto(m1, o, range, n) == fov_seq_upto(m2, o, range, n),
    decreases n,
{
    if n > 0 {
        lemma_fov_seq_upto_same(m1, m2, o, range, n - 1);
        let p = Point {
            x: ((n - 1) % (m1.width as int)) as i32,
            y: ((n - 1) / (m1.width as int)) as i32,
        };
        lemma_fov_visible_same(m1, m2, o, range, p);
    }
}

/// The per-axis advance stays between zero and the full axis extent,
/// so every ray sample lies in the bounding box of its endpoints.
proof fn lemma_ratio_bounds(d: int, k: int, n: int)
    requires
        0 <= d <= n,
        1 <= n,
        0 <= k <= n,
    ensures
        0 <= (d * k) / n <= d,
{
    assert(0 <= d * k) by (nonlinear_arith)
        requires
            0 <= d,
            0 <= k,
    ;
    assert(d * k <= d * n) by (nonlinear_arith)
        requires
            0 <= d,
            k <= n,
    ;
    assert(0 <= (d * k) / n && (d * k) / n <= d) by (nonlinear_arith)
        requires
            0 <= d * k,
            d * k <= d * n,
            1 <= n,
    ;
}

/// Intermediate ray cells lie on the map whenever both endpoints do.
proof fn lemma_ray_sample_valid(m: GameMap, a: Point, b: Point, k: int)
    requires
        m.wf(),
        m.valid_point(a),
        m.valid_point(b),
        0 <= k <= steps(a, b),
        1 <= steps(a, b),
    ensures
        m.valid_point(ray_sample(a, b, k)),
{
    let n = steps(a, b);
    lemma_ratio_bounds(iabs(b.x - a.x), k, n);
    lemma_ratio_bounds(iabs(b.y - a.y), k, n);
}

/// One ray-obstruction test: whether any intermediate cell between
/// `o` and `t` blocks sight.
fn ray_clear(map: &GameMap, o: Point, t: Point) -> (r: bool)
    requires
        map.wf(),
        map.valid_point(o),
        map.valid_point(t),
    ensures
        r == (forall|k: int| 1 <= k < steps(o, t) ==> !opaque_at(*map, #[trigger] ray_sample(o, t, k))),
{
    let dx = t.x as i64 - o.x as i64;
    let dy = t.y as i64 - o.y as i64;
    let adx: i64 = if dx < 0 {
        -dx
    } else {
        dx
    };
    let ady: i64 = if dy < 0 {
        -dy
    } else {
        dy
    };
    let n: i64 = if adx >= ady {
        adx
    } else {
        ady
    };
    proof {
        assert(n == steps(o, t));
    }
    let mut k: i64 = 1;
    while k < n
        invariant
            1 <= k,
            n == steps(o, t),
            k <= n || n < 1,
            map.wf(),
            map.valid_point(o),
            map.valid_point(t),
            adx == iabs(t.x - o.x),
            ady == iabs(t.y - o.y),
            forall|k2: int| 1 <= k2 < k ==> !opaque_at(*map, #[trigger] ray_sample(o, t, k2)),
        decreases n - k,
    {
        proof {
            lemma_ray_sample_valid(*map, o, t, k as int);
            lemma_ratio_bounds(adx as int, k as int, n as int);
            lemma_ratio_bounds(ady as int, k as int, n as int);
            assert(0 <= adx * k <= adx * n) by (nonlinear_arith)
                requires
                    0 <= adx <= n,
                    0 <= k <= n,
            ;
            assert(0 <= ady * k <= ady * n) by (nonlinear_arith)
                requires
                    0 <= ady <= n,
                    0 <= k <= n,
            ;
            assert(adx * n < 0x4000_0000_0000_0000) by (nonlinear_arith)
                requires
                    0 <= adx < 0x8000_0000,
                    0 <= n < 0x8000_0000,
            ;
            assert(ady * n < 0x4000_0000_0000_0000) by (nonlinear_arith)
                requires
                    0 <= ady < 0x8000_0000,
                    0 <= n < 0x8000_0000,
            ;
        }
        let rx = (adx * k) / n;
        let ry = (ady * k) / n;
        let sx: i64 = if t.x >= o.x {
            o.x as i64 + rx
        } else {
            o.x as i64 - rx
        };
        let sy: i64 = if t.y >= o.y {
            o.y as i64 + ry
        } else {
            o.y as i64 - ry
        };
        proof {
            let ki = k as int;
            let ni = n as int;
            let d_x = iabs(t.x - o.x);
            let d_y = iabs(t.y - o.y);
            assert(rx as int == (d_x * ki) / ni);
            assert(ry as int == (d_y * ki) / ni);
            assert(0 <= rx as int <= d_x);
            assert(0 <= ry as int <= d_y);
            assert(0 <= sx < map.width as i64);
            assert(0 <= sy < map.height as i64);
            assert(sx as int == o.x + sign_of(t.x - o.x) * ((d_x * ki) / ni));
            assert(sy as int == o.y + sign_of(t.y - o.y) * ((d_y * ki) / ni));
        }
        let sp = Position { x: sx as i32, y: sy as i32 };
        proof {
            assert(sp.x == ray_sample(o, t, k as int).x && sp.y == ray_sample(o, t, k as int).y);
        }
        let idx = map.pos_to_idx(&sp);
        if map.is_opaque(idx) {
            proof {
                assert(opaque_at(*map, ray_sample(o, t, k as int)));
            }
            return false;
        }
        k = k + 1;
    }
    true
}

/// Whether `t` is visible from `o` within `range`.
pub fn tile_visible(map: &GameMap, o: Point, range: i32, t: &Point) -> (r: bool)
    requires
        map.wf(),
        map.valid_point(o),
        0 <= range,
    ensures
        r == fov_visible(*map, o, range, *t),
{
    if t.x < 0 || t.x >= map.width || t.y < 0 || t.y >= map.height {
        return false;
    }
    let dx = t.x as i64 - o.x as i64;
    let dy = t.y as i64 - o.y as i64;
    proof {
        assert(dx * dx < 0x4000_0000_0000_0000 && 0 <= dx * dx) by (nonlinear_arith)
            requires
                -0x7fff_ffff <= dx <= 0x7fff_ffff,
        ;
        assert(dy * dy < 0x4000_0000_0000_0000 && 0 <= dy * dy) by (nonlinear_arith)
            requires
                -0x7fff_ffff <= dy <= 0x7fff_ffff,
        ;
        let r64 = range as int;
        assert(r64 * r64 < 0x4000_0000_0000_0000 && 0 <= r64 * r64) by (nonlinear_arith)
            requires
                0 <= r64 <= 0x7fff_ffff,
        ;
    }
    if dx * dx + dy * dy > (range as i64) * (range as i64) {
        return false;
    }
    ray_clear(map, o, *t)
}

/// Recompute the visible-tile list of every sighted, placed, live
/// entity from scratch; mobs and the player alike. Tiles off the map
/// never appear in the result, by construction of `fov_seq`.
pub fn visibility_system(map: &GameMap, world: &mut World)
    requires
        old(world).wf(),
        map.wf(),
    ensures
        final(world).wf(),
        forall|i: int|
            #![trigger final(world).viewsheds@[i]]
            0 <= i < old(world).n() ==> {
                if old(world).live@[i] && old(world).viewsheds@[i] is Some && old(
                    world,
                ).positions@[i] is Some && map.valid_pos(old(world).positions@[i]->0) && old(
                    world,
                ).viewsheds@[i]->0.range >= 0 {
                    &&& final(world).viewsheds@[i] is Some
                    &&& final(world).viewsheds@[i]->0.range == old(world).viewsheds@[i]->0.range
                    &&& final(world).viewsheds@[i]->0.visible_tiles@ == fov_seq(
                        *map,
                        Point {
                            x: old(world).positions@[i]->0.x,
                            y: old(world).positions@[i]->0.y,
                        },
                        old(world).viewsheds@[i]->0.range,
                    )
                } else {
                    final(world).viewsheds@[i] == old(world).viewsheds@[i]
                }
            },
        final(world).live == old(world).live,
        final(world).positions == old(world).positions,
        final(world).stats == old(world).stats,
        final(world).names == old(world).names,
        final(world).mobs == old(world).mobs,
        final(world).player == old(world).player,
{
    let n = world.live.len();
    let mut i: usize = 0;
    while i < n
        invariant
            i <= n,
            n == world.n(),
            world.wf(),
            map.wf(),
            world.live == old(world).live,
            world.positions == old(world).positions,
            world.stats == old(world).stats,
            world.names == old(world).names,
            world.mobs == old(world).mobs,
            world.player == old(world).player,
            world.viewsheds@.len() == old(world).viewsheds@.len(),
            forall|j: int|
                #![trigger world.viewsheds@[j]]
                0 <= j < i ==> {
                    if old(world).live@[j] && old(world).viewsheds@[j] is Some && old(
                        world,
                    ).positions@[j] is Some && map.valid_pos(old(world).positions@[j]->0) && old(
                        world,
                    ).viewsheds@[j]->0.range >= 0 {
                        &&& world.viewsheds@[j] is Some
                        &&& world.viewsheds@[j]->0.range == old(world).viewsheds@[j]->0.range
                        &&& world.viewsheds@[j]->0.visible_tiles@ == fov_seq(
                            *map,
                            Point {
                                x: old(world).positions@[j]->0.x,
                                y: old(world).positions@[j]->0.y,
                            },
                            old(world).viewsheds@[j]->0.range,
                        )
                    } else {
                        world.viewsheds@[j] == old(world).viewsheds@[j]
                    }
                },
            forall|j: int|
                i <= j < world.n() ==> #[trigger] world.viewsheds@[j] == old(world).viewsheds@[j],
        decreases n - i,
    {
        let e = crate::components::Entity { id: i };
        let live_now = world.entity_is_live(e);
        let range_opt = if live_now {
            match &world.viewsheds[i] {
                Some(v) => Some(v.range),
                None => None,
            }
        } else {
            None
        };
        let pos_opt = if live_now {
            world.get_position(e)
        } else {
            None
        };
        match (range_opt, pos_opt) {
            (Some(range), Some(p)) => {
                if range >= 0 && p.x >= 0 && p.x < map.width && p.y >= 0 && p.y < map.height {
                    let origin = Point { x: p.x, y: p.y };
                    let tiles = field_of_view_tiles(map, origin, range);
                    world.set_viewshed(e, Viewshed { visible_tiles: tiles, range });
                }
            },
            _ => {},
        }
        i = i + 1;
    }
}

/// Collect every tile visible from `origin`, scanning the grid in
/// row-major order.
pub fn field_of_view_tiles(map: &GameMap, origin: Point, range: i32) -> (r: Vec<Point>)
    requires
        map.wf(),
        map.valid_point(origin),
        0 <= range,
    ensures
        r@ == fov_seq(*map, origin, range),
{
    let mut out: Vec<Point> = Vec::new();
    let mut idx: usize = 0;
    let total = map.tiles.len();
    while idx < total
        invariant
            idx <= total,
            total == map.tiles@.len(),
            map.wf(),
            map.valid_point(origin),
            0 <= range,
            out@ == fov_seq_upto(*map, origin, range, idx as int),
        decreases total - idx,
    {
        let p = map.idx_to_xy_point(idx);
        proof {
            let ps = Point {
                x: ((idx as int) % (map.width as int)) as i32,
                y: ((idx as int) / (map.width as int)) as i32,
            };
            assert((idx as int) % (map.width as int) + ((idx as int) / (map.width as int))
                * map.width == idx as int && 0 <= (idx as int) % (map.width as int) < map.width
                && 0 <= (idx as int) / (map.width as int)) by (nonlinear_arith)
                requires
                    1 <= map.width,
                    0 <= idx as int,
            ;
            assert((idx as int) / (map.width as int) < map.height) by (nonlinear_arith)
                requires
                    1 <= map.width,
                    0 <= idx as int,
                    (idx as int) < map.width * map.height,
            ;
            assert(map.valid_point(ps));
            map.lemma_point_idx_bounds(ps);
            map.lemma_idx_injective(
                crate::components::Position { x: p.x, y: p.y },
                crate::components::Position { x: ps.x, y: ps.y },
            );
            assert(p == ps);
        }
        if tile_visible(map, origin, range, &p) {
            out.push(p);
        }
        idx = idx + 1;
    }
    out
}

/// For the player's viewshed, permanently record every visible wall
/// tile in the map's explored bitmap. Memory is monotone: once
/// remembered, a tile is never forgotten.
pub fn map_update_system(map: &mut GameMap, world: &World)
    requires
        old(map).wf(),
        world.wf(),
    ensures
        final(map).wf(),
        final(map).tiles == old(map).tiles,
        final(map).occupancy == old(map).occupancy,
        final(map).width == old(map).width,
        final(map).height == old(map).height,
        final(map).spec_start() == old(map).spec_start(),
        final(map).memory@.len() == old(map).memory@.len(),
        forall|i: int|
            0 <= i < old(map).memory@.len() && old(map).memory@[i] ==> final(map).memory@[i],
        forall|i: int|
            #![trigger final(map).memory@[i]]
            0 <= i < old(map).memory@.len() && !old(map).memory@[i] && final(map).memory@[i]
                ==> exists|k: int|
                {
                    &&& world.viewsheds@[world.player.id as int] is Some
                    &&& 0 <= k < world.viewsheds@[world.player.id as int]->0.visible_tiles@.len()
                    &&& old(map).valid_point(
                        #[trigger] world.viewsheds@[world.player.id as int]->0.visible_tiles@[k],
                    )
                    &&& old(map).idx_of_point(
                        world.viewsheds@[world.player.id as int]->0.visible_tiles@[k],
                    ) == i
                    &&& opaque_at(
                        *old(map),
                        world.viewsheds@[world.player.id as int]->0.visible_tiles@[k],
                    )
                },
        world.viewsheds@[world.player.id as int] is Some ==> ({
            let vs = world.viewsheds@[world.player.id as int]->0;
            forall|k: int|
                0 <= k < vs.visible_tiles@.len() && old(map).valid_point(
                    #[trigger] vs.visible_tiles@[k],
                ) && opaque_at(*old(map), vs.visible_tiles@[k])
                    ==> final(map).memory@[old(map).idx_of_point(vs.visible_tiles@[k])]
        }),
{
    let player = world.player;
    match &world.viewsheds[player.id] {
        Some(vs) => {
            let mut k: usize = 0;
            let ghost vtiles = vs.visible_tiles@;
            while k < vs.visible_tiles.len()
                invariant
                    k <= vtiles.len(),
                    vtiles == vs.visible_tiles@,
                    vtiles == world.viewsheds@[world.player.id as int]->0.visible_tiles@,
                    world.viewsheds@[world.player.id as int] is Some,
                    map.wf(),
                    map.tiles == old(map).tiles,
                    map.occupancy == old(map).occupancy,
                    map.width == old(map).width,
                    map.height == old(map).height,
                    map.spec_start() == old(map).spec_start(),
                    map.memory@.len() == old(map).memory@.len(),
                    forall|i: int|
                        0 <= i < old(map).memory@.len() && old(map).memory@[i] ==> map.memory@[i],
                    forall|i: int|
                        #![trigger map.memory@[i]]
                        0 <= i < old(map).memory@.len() && !old(map).memory@[i] && map.memory@[i]
                            ==> exists|k2: int|
                            {
                                &&& 0 <= k2 < vtiles.len()
                                &&& old(map).valid_point(#[trigger] vtiles[k2])
                                &&& old(map).idx_of_point(vtiles[k2]) == i
                                &&& opaque_at(*old(map), vtiles[k2])
                            },
                    forall|k2: int|
                        0 <= k2 < k && old(map).valid_point(#[trigger] vtiles[k2]) && opaque_at(
                            *old(map),
                            vtiles[k2],
                        ) ==> map.memory@[old(map).idx_of_point(vtiles[k2])],
                decreases vtiles.len() - k,
            {
                let t = vs.visible_tiles[k];
                let ghost msnap = *map;
                if t.x >= 0 && t.x < map.width && t.y >= 0 && t.y < map.height {
                    if map.xy_is_opaque(&t) {
                        proof {
                            map.lemma_point_idx_bounds(t);
                        }
                        map.remember(&t);
                    }
                }
                proof {
                    assert forall|k2: int|
                        0 <= k2 < k + 1 && old(map).valid_point(#[trigger] vtiles[k2]) && opaque_at(
                            *old(map),
                            vtiles[k2],
                        ) implies map.memory@[old(map).idx_of_point(vtiles[k2])] by {
                        old(map).lemma_point_idx_bounds(vtiles[k2]);
                        if k2 < k {
                            assert(msnap.memory@[old(map).idx_of_point(vtiles[k2])]);
                        }
                    }
                }
                k = k + 1;
            }
        },
        None => {},
    }
}

} // verus!
