use vstd::prelude::*;

use crate::components::{Point, Position};
use crate::map::GameMap;
use crate::visibility::opaque_at;
use crate::world::World;

verus! {

/// One draw command: a glyph at a grid position, with lower
/// priorities drawn first so higher ones overlay them.
#[derive(Debug, Clone, Copy, PartialEq, Eq, Structural)]
pub struct Drawable {
    pub pos: Point,
    pub glyph: char,
    pub priority: usize,
}

impl Drawable {
    pub fn new(pos: &Position, glyph: char, priority: usize) -> (r: Drawable)
        ensures
            r.pos.x == pos.x,
            r.pos.y == pos.y,
            r.glyph == glyph,
            r.priority == priority,
    {
        Drawable { pos: Point { x: pos.x, y: pos.y }, glyph, priority }
    }
}

/// The per-tick list of draw commands handed to the renderer.
pub struct DrawList {
    pub items: Vec<Drawable>,
}

/// Terrain glyph of a tile: `'#'` for walls, `'.'` for floors.
pub open spec fn glyph_for(m: GameMap, p: Point) -> char {
    if opaque_at(m, p) {
        '#'
    } else {
        '.'
    }
}

/// Terrain draw commands for the first `k` currently visible tiles.
pub open spec fn vis_draw_seq(m: GameMap, tiles: Seq<Point>, k: int) -> Seq<Drawable>
    decreases k,
{
    if k <= 0 {
        Seq::empty()
    } else {
        let rest = vis_draw_seq(m, tiles, k - 1);
        let p = tiles[k - 1];
        if m.valid_point(p) {
            rest.push(Drawable { pos: p, glyph: glyph_for(m, p), priority: 0 })
        } else {
            rest
        }
    }
}

/// Terrain draw commands for the first `n` remembered grid cells.
pub open spec fn mem_draw_seq(m: GameMap, n: int) -> Seq<Drawable>
    decreases n,
{
    if n <= 0 {
        Seq::empty()
    } else {
        let rest = mem_draw_seq(m, n - 1);
        if m.memory@[n - 1] {
            let p = Point {
                x: ((n - 1) % (m.width as int)) as i32,
                y: ((n - 1) / (m.width as int)) as i32,
            };
            rest.push(Drawable { pos: p, glyph: glyph_for(m, p), priority: 0 })
        } else {
            rest
        }
    }
}

/// Mob draw commands for the first `j` entity slots: every live mob
/// standing on a tile the given viewshed can see.
pub open spec fn mob_draw_seq(w: World, vs: Seq<Point>, j: int) -> Seq<Drawable>
    decreases j,
{
    if j <= 0 {
        Seq::empty()
    } else {
        let rest = mob_draw_seq(w, vs, j - 1);
        if w.live@[j - 1] && w.mobs@[j - 1] is Some && w.positions@[j - 1] is Some && vs.contains(
            Point { x: w.positions@[j - 1]->0.x, y: w.positions@[j - 1]->0.y },
        ) {
            rest.push(
                Drawable {
                    pos: Point { x: w.positions@[j - 1]->0.x, y: w.positions@[j - 1]->0.y },
                    glyph: w.mobs@[j - 1]->0.glyph,
                    priority: 1,
                },
            )
        } else {
            rest
        }
    }
}

/// Lower priorities first: the order the renderer must draw in.
pub open spec fn sorted_by_priority(s: Seq<Drawable>) -> bool {
    forall|a: int, b: int|
        0 <= a < b < s.len() ==> (#[trigger] s[a]).priority <= (#[trigger] s[b]).priority
}

/// Terrain commands all carry priority zero.
pub proof fn lemma_vis_draw_priority(m: GameMap, tiles: Seq<Point>, k: int)
    ensures
        forall|t: int|
            0 <= t < vis_draw_seq(m, tiles, k).len() ==> (#[trigger] vis_draw_seq(
                m,
                tiles,
                k,
            )[t]).priority == 0,
    decreases k,
{
    if k > 0 {
        lemma_vis_draw_priority(m, tiles, k - 1);
        let cur = vis_draw_seq(m, tiles, k);
        let rest = vis_draw_seq(m, tiles, k - 1);
        assert forall|t: int| 0 <= t < cur.len() implies (#[trigger] cur[t]).priority == 0 by {
            if t < rest.len() {
                assert(cur[t] == rest[t]);
            }
        }
    }
}

/// Remembered-tile commands all carry priority zero.
pub proof fn lemma_mem_draw_priority(m: GameMap, n: int)
    ensures
        forall|t: int|
            0 <= t < mem_draw_seq(m, n).len() ==> (#[trigger] mem_draw_seq(m, n)[t]).priority == 0,
    decreases n,
{
    if n > 0 {
        lemma_mem_draw_priority(m, n - 1);
        let cur = mem_draw_seq(m, n);
        let rest = mem_draw_seq(m, n - 1);
        assert forall|t: int| 0 <= t < cur.len() implies (#[trigger] cur[t]).priority == 0 by {
            if t < rest.len() {
                assert(cur[t] == rest[t]);
            }
        }
    }
}

/// Mob commands all carry priority one.
pub proof fn lemma_mob_draw_priority(w: World, vs: Seq<Point>, j: int)
    ensures
        forall|t: int|
            0 <= t < mob_draw_seq(w, vs, j).len() ==> (#[trigger] mob_draw_seq(w, vs, j)[t]).priority
                == 1,
    decreases j,
{
    if j > 0 {
        lemma_mob_draw_priority(w, vs, j - 1);
        let cur = mob_draw_seq(w, vs, j);
        let rest = mob_draw_seq(w, vs, j - 1);
        assert forall|t: int| 0 <= t < cur.len() implies (#[trigger] cur[t]).priority == 1 by {
            if t < rest.len() {
                assert(cur[t] == rest[t]);
            }
        }
    }
}

pub fn clear_screen(draw_list: &mut DrawList)
    ensures
        final(draw_list).items@.len() == 0,
{
    draw_list.items.clear();
}

fn contains_point(v: &Vec<Point>, p: &Point) -> (r: bool)
    ensures
        r == v@.contains(*p),
{
    let mut i: usize = 0;
    while i < v.len()
        invariant
            i <= v@.len(),
            forall|j: int| 0 <= j < i ==> v@[j] != *p,
        decreases v@.len() - i,
    {
        if v[i] == *p {
            return true;
        }
        i = i + 1;
    }
    false
}

/// Append terrain draw commands: first everything the player
/// currently sees, then every tile ever remembered. All at priority
/// zero, so mobs drawn later overlay them.
pub fn draw_map(draw_list: &mut DrawList, map: &GameMap, world: &World)
    requires
        map.wf(),
        world.wf(),
    ensures
        world.viewsheds@[world.player.id as int] is Some ==> final(draw_list).items@ == old(
            draw_list,
        ).items@ + vis_draw_seq(
            *map,
            world.viewsheds@[world.player.id as int]->0.visible_tiles@,
            world.viewsheds@[world.player.id as int]->0.visible_tiles@.len() as int,
        ) + mem_draw_seq(*map, map.memory@.len() as int),
        world.viewsheds@[world.player.id as int] is None ==> final(draw_list).items@ == old(
            draw_list,
        ).items@ + mem_draw_seq(*map, map.memory@.len() as int),
{
    match &world.viewsheds[world.player.id] {
        Some(vs) => {
            let ghost vtiles = vs.visible_tiles@;
            let mut k: usize = 0;
            while k < vs.visible_tiles.len()
                invariant
                    k <= vtiles.len(),
                    vtiles == vs.visible_tiles@,
                    map.wf(),
                    draw_list.items@ == old(draw_list).items@ + vis_draw_seq(
                        *map,
                        vtiles,
                        k as int,
                    ),
                decreases vtiles.len() - k,
            {
                let p = vs.visible_tiles[k];
                if p.x >= 0 && p.x < map.width && p.y >= 0 && p.y < map.height {
                    let glyph = if map.xy_is_opaque(&p) {
                        '#'
                    } else {
                        '.'
                    };
                    draw_list.items.push(Drawable { pos: p, glyph, priority: 0 });
                }
                k = k + 1;
            }
        },
        None => {},
    }
    let ghost base = draw_list.items@;
    let mut idx: usize = 0;
    let total = map.memory.len();
    while idx < total
        invariant
            idx <= total,
            total == map.memory@.len(),
            map.wf(),
            draw_list.items@ == base + mem_draw_seq(*map, idx as int),
        decreases total - idx,
    {
        if map.memory[idx] {
            let p = map.idx_to_xy_point(idx);
            proof {
                let ps = Point {
                    x: ((idx as int) % (map.width as int)) as i32,
                    y: ((idx as int) / (map.width as int)) as i32,
                };
                assert((idx as int) % (map.width as int) + ((idx as int) / (map.width as int))
                    * map.width == idx as int && 0 <= (idx as int) % (map.width as int) < map.width
                    && 0 <= (idx as int) / (map.width as int)) by (nonlinear_arith)
                    requires
                        1 <= map.width,
                        0 <= idx as int,
                ;
                assert((idx as int) / (map.width as int) < map.height) by (nonlinear_arith)
                    requires
                        1 <= map.width,
                        0 <= idx as int,
                        (idx as int) < map.width * map.height,
                ;
                assert(map.valid_point(ps));
                map.lemma_point_idx_bounds(ps);
                map.lemma_idx_injective(
                    Position { x: p.x, y: p.y },
                    Position { x: ps.x, y: ps.y },
                );
                assert(p == ps);
            }
            let glyph = if map.xy_is_opaque(&p) {
                '#'
            } else {
                '.'
            };
            draw_list.items.push(Drawable { pos: p, glyph, priority: 0 });
        }
        idx = idx + 1;
    }
}

/// Append one draw command per live mob the player's viewshed can
/// currently see, at priority one so they overlay the terrain.
pub fn draw_mobs(draw_list: &mut DrawList, world: &World)
    requires
        world.wf(),
    ensures
        world.viewsheds@[world.player.id as int] is Some ==> final(draw_list).items@ == old(
            draw_list,
        ).items@ + mob_draw_seq(
            *world,
            world.viewsheds@[world.player.id as int]->0.visible_tiles@,
            world.n(),
        ),
        world.viewsheds@[world.player.id as int] is None ==> final(draw_list).items == old(
            draw_list,
        ).items,
{
    match &world.viewsheds[world.player.id] {
        Some(vs) => {
            let ghost vtiles = vs.visible_tiles@;
            let n = world.live.len();
            let mut j: usize = 0;
            while j < n
                invariant
                    j <= n,
                    n == world.n(),
                    world.wf(),
                    vtiles == vs.visible_tiles@,
                    vtiles == world.viewsheds@[world.player.id as int]->0.visible_tiles@,
                    world.viewsheds@[world.player.id as int] is Some,
                    draw_list.items@ == old(draw_list).items@ + mob_draw_seq(
                        *world,
                        vtiles,
                        j as int,
                    ),
                decreases n - j,
            {
                let e = crate::components::Entity { id: j };
                let is_mob_here = world.entity_is_live(e) && world.entity_is_mob(e);
                let pos_opt = if is_mob_here {
                    world.get_position(e)
                } else {
                    None
                };
                match pos_opt {
                    Some(p) => {
                        let pt = Point { x: p.x, y: p.y };
                        if contains_point(&vs.visible_tiles, &pt) {
                            let glyph = match &world.mobs[j] {
                                Some(m) => m.glyph,
                                None => ' ',
                            };
                            draw_list.items.push(Drawable { pos: pt, glyph, priority: 1 });
                        }
                    },
                    None => {},
                }
                j = j + 1;
            }
        },
        None => {},
    }
}

} // verus!
