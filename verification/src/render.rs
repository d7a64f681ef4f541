//! What there is to draw: entities in view, the player's health, the latest
//! lines of the log, and the names under the mouse.

use vstd::prelude::*;
use crate::components::{Position, Renderer};
use crate::game_log::GameLog;
use crate::world::{World, WorldModel};

verus! {

/// Something to draw: a glyph at a place.
#[derive(Clone, Copy, Debug, PartialEq, Eq, Structural)]
pub struct Drawable {
    pub position: Position,
    pub renderer: Renderer,
}

/// `list` with `d` put in behind everything that is drawn no later than
/// `d`, where a higher render order is drawn earlier.
pub open spec fn inserted(list: Seq<Drawable>, d: Drawable) -> Seq<Drawable>
    decreases list.len(),
{
    if list.len() == 0 {
        seq![d]
    } else if list.last().renderer.render_order >= d.renderer.render_order {
        list.push(d)
    } else {
        inserted(list.drop_last(), d).push(list.last())
    }
}

/// Whether the entity in this slot is drawn: it has a place and a look,
/// and its tile is in view.
pub open spec fn shown(w: WorldModel, i: int) -> bool {
    let e = w.entities[i];
    &&& e.position is Some
    &&& e.renderer is Some
    &&& w.map.visible_tiles[w.map.idx(e.position.unwrap().x as int, e.position.unwrap().y as int)]
}

/// What is drawn of slots `0 .. n`, in drawing order: from the highest
/// render order to the lowest, and among equals in slot order.
pub open spec fn drawn_upto(w: WorldModel, n: int) -> Seq<Drawable>
    decreases n,
{
    if n <= 0 {
        Seq::empty()
    } else if shown(w, n - 1) {
        inserted(
            drawn_upto(w, n - 1),
            Drawable {
                position: w.entities[n - 1].position.unwrap(),
                renderer: w.entities[n - 1].renderer.unwrap(),
            },
        )
    } else {
        drawn_upto(w, n - 1)
    }
}

/// Whether `list` runs from the highest render order to the lowest.
pub open spec fn in_drawing_order(list: Seq<Drawable>) -> bool {
    forall|i: int, j: int|
        #![trigger list[i], list[j]]
        0 <= i < j < list.len() ==> list[i].renderer.render_order >= list[j].renderer.render_order
}

/// Putting something into a list in drawing order gives a list in drawing
/// order, one longer, of which the new entry is one.
pub proof fn lemma_inserted(list: Seq<Drawable>, d: Drawable)
    requires
        in_drawing_order(list),
    ensures
        in_drawing_order(inserted(list, d)),
        inserted(list, d).len() == list.len() + 1,
        inserted(list, d).contains(d),
        forall|x: Drawable| list.contains(x) ==> inserted(list, d).contains(x),
        forall|k: int|
            0 <= k < inserted(list, d).len() ==> inserted(list, d)[k] == d || list.contains(
                #[trigger] inserted(list, d)[k],
            ),
    decreases list.len(),
{
    let out = inserted(list, d);
    if list.len() == 0 {
        assert(out[0] == d);
    } else if list.last().renderer.render_order >= d.renderer.render_order {
        assert(out[list.len() as int] == d);
        assert forall|x: Drawable| list.contains(x) implies out.contains(x) by {
            let k = choose|k: int| 0 <= k < list.len() && list[k] == x;
            assert(out[k] == x);
        }
        assert forall|i: int, j: int|
            #![trigger out[i], out[j]]
            0 <= i < j < out.len() implies out[i].renderer.render_order
            >= out[j].renderer.render_order by {
            if j < list.len() {
                assert(list[i].renderer.render_order >= list[j].renderer.render_order);
            } else {
                assert(list[i].renderer.render_order >= list[list.len() - 1].renderer.render_order
                    || i == list.len() - 1);
            }
        }
        assert forall|k: int| 0 <= k < out.len() implies out[k] == d || list.contains(
            #[trigger] out[k],
        ) by {
            if k < list.len() {
                assert(list[k] == out[k]);
            }
        }
    } else {
        let rest = list.drop_last();
        let last = list.last();
        assert forall|i: int, j: int|
            #![trigger rest[i], rest[j]]
            0 <= i < j < rest.len() implies rest[i].renderer.render_order
            >= rest[j].renderer.render_order by {
            assert(list[i].renderer.render_order >= list[j].renderer.render_order);
        }
        lemma_inserted(rest, d);
        let inner = inserted(rest, d);
        assert(out == inner.push(last));
        let p = choose|p: int| 0 <= p < inner.len() && inner[p] == d;
        assert(out[p] == d);
        assert forall|x: Drawable| list.contains(x) implies out.contains(x) by {
            let k = choose|k: int| 0 <= k < list.len() && list[k] == x;
            if k < rest.len() {
                assert(rest[k] == x);
                assert(rest.contains(x));
                let q = choose|q: int| 0 <= q < inner.len() && inner[q] == x;
                assert(out[q] == x);
            } else {
                assert(out[inner.len() as int] == x);
            }
        }
        assert forall|k: int| 0 <= k < out.len() implies out[k] == d || list.contains(
            #[trigger] out[k],
        ) by {
            if k < inner.len() {
                assert(out[k] == inner[k]);
                if inner[k] != d {
                    assert(rest.contains(inner[k]));
                    let q = choose|q: int| 0 <= q < rest.len() && rest[q] == inner[k];
                    assert(list[q] == inner[k]);
                }
            } else {
                assert(list[list.len() - 1] == out[k]);
            }
        }
        assert forall|i: int, j: int|
            #![trigger out[i], out[j]]
            0 <= i < j < out.len() implies out[i].renderer.render_order
            >= out[j].renderer.render_order by {
            if j < inner.len() {
                assert(inner[i].renderer.render_order >= inner[j].renderer.render_order);
            } else {
                assert(out[i] == inner[i]);
                if inner[i] != d {
                    assert(rest.contains(inner[i]));
                    let q = choose|q: int| 0 <= q < rest.len() && rest[q] == inner[i];
                    assert(list[q].renderer.render_order >= list[list.len()
                        - 1].renderer.render_order);
                }
            }
        }
    }
}

/// What is drawn comes in drawing order.
pub proof fn lemma_drawn_in_order(w: WorldModel, n: int)
    ensures
        in_drawing_order(drawn_upto(w, n)),
    decreases n,
{
    if n > 0 {
        lemma_drawn_in_order(w, n - 1);
        if shown(w, n - 1) {
            lemma_inserted(
                drawn_upto(w, n - 1),
                Drawable {
                    position: w.entities[n - 1].position.unwrap(),
                    renderer: w.entities[n - 1].renderer.unwrap(),
                },
            );
        }
    }
}

fn insert_drawable(list: &mut Vec<Drawable>, d: Drawable)
    ensures
        final(list)@ == inserted(old(list)@, d),
{
    let mut at: usize = list.len();
    proof {
        assert(list@.take(at as int) =~= list@);
        assert(inserted(list@, d) + list@.skip(at as int) =~= inserted(list@, d));
    }
    while at > 0 && list[at - 1].renderer.render_order < d.renderer.render_order
        invariant
            at <= list@.len(),
            list@ == old(list)@,
            inserted(list@, d) == inserted(list@.take(at as int), d) + list@.skip(at as int),
        decreases at,
    {
        proof {
            let head = list@.take(at as int);
            assert(head.drop_last() =~= list@.take(at - 1));
            assert(inserted(head, d) == inserted(head.drop_last(), d).push(head.last()));
            assert(inserted(list@.take(at - 1), d).push(head.last()) + list@.skip(at as int)
                =~= inserted(list@.take(at - 1), d) + list@.skip(at - 1));
        }
        at -= 1;
    }
    proof {
        let head = list@.take(at as int);
        assert(inserted(head, d) == head.push(d));
        assert(head.push(d) + list@.skip(at as int) =~= list@.insert(at as int, d));
    }
    list.insert(at, d);
}

/// Lists what is to be drawn, in drawing order: everything that has a
/// place and a look and stands on a tile in view.
pub fn renderables(ecs: &World) -> (list: Vec<Drawable>)
    requires
        ecs.wf(),
    ensures
        list@ == drawn_upto(ecs@, ecs@.entities.len() as int),
        in_drawing_order(list@),
{
    let mut list: Vec<Drawable> = Vec::new();
    let n = ecs.entities.len();
    let mut i: usize = 0;
    while i < n
        invariant
            i <= n,
            n == ecs@.entities.len(),
            ecs.wf(),
            list@ == drawn_upto(ecs@, i as int),
        decreases n - i,
    {
        proof {
            assert(ecs@.slot_wf(i as int));
        }
        let e = &ecs.entities[i];
        match (e.position, e.renderer) {
            (Some(position), Some(renderer)) => {
                let index = ecs.map.xy_idx(position.x, position.y);
                if ecs.map.visible_tiles[index] {
                    insert_drawable(&mut list, Drawable { position, renderer });
                }
            },
            _ => {},
        }
        i += 1;
    }
    proof {
        lemma_drawn_in_order(ecs@, n as int);
    }
    list
}

/// The hit points of the players among slots `0 .. n`, each as what is
/// left and what is the most, in slot order.
pub open spec fn health_upto(w: WorldModel, n: int) -> Seq<(i32, i32)>
    decreases n,
{
    if n <= 0 {
        Seq::empty()
    } else {
        let e = w.entities[n - 1];
        if e.player is Some && e.combat_stats is Some {
            health_upto(w, n - 1).push(
                (e.combat_stats.unwrap().hp, e.combat_stats.unwrap().max_hp),
            )
        } else {
            health_upto(w, n - 1)
        }
    }
}

/// Reports the player's hit points for display.
pub fn player_health(ecs: &World) -> (health: Vec<(i32, i32)>)
    ensures
        health@ == health_upto(ecs@, ecs@.entities.len() as int),
{
    let mut health: Vec<(i32, i32)> = Vec::new();
    let n = ecs.entities.len();
    let mut i: usize = 0;
    while i < n
        invariant
            i <= n,
            n == ecs@.entities.len(),
            health@ == health_upto(ecs@, i as int),
        decreases n - i,
    {
        let e = &ecs.entities[i];
        match e.combat_stats {
            Some(s) => {
                if e.player.is_some() {
                    health.push((s.hp, s.max_hp));
                }
            },
            None => {},
        }
        i += 1;
    }
    health
}

/// The last `count` lines of a log, the latest first.
pub open spec fn latest(log: Seq<Seq<char>>, count: int) -> Seq<Seq<char>> {
    let shown = if count < log.len() {
        count
    } else {
        log.len() as int
    };
    Seq::new(shown as nat, |k: int| log[log.len() - 1 - k])
}

/// Copies the latest lines of the log for display, the latest first.
pub fn recent_log(log: &GameLog, count: usize) -> (lines: Vec<String>)
    ensures
        Seq::new(lines@.len(), |k: int| lines@[k]@) == latest(log@, count as int),
{
    let mut lines: Vec<String> = Vec::new();
    let n = log.entries.len();
    let shown = if count < n {
        count
    } else {
        n
    };
    let mut k: usize = 0;
    while k < shown
        invariant
            k <= shown,
            shown <= n,
            n == log.entries@.len(),
            lines@.len() == k,
            forall|j: int| 0 <= j < k ==> lines@[j]@ == log.entries@[n - 1 - j]@,
        decreases shown - k,
    {
        lines.push(log.entries[n - 1 - k].clone());
        k += 1;
    }
    proof {
        assert(Seq::new(lines@.len(), |k: int| lines@[k]@) =~= latest(log@, count as int));
    }
    lines
}

/// The names to show for tile `(x, y)` among slots `0 .. n`: those of the
/// entities that stand there, if the tile is in view.
pub open spec fn tooltips_upto(w: WorldModel, x: i32, y: i32, n: int) -> Seq<Seq<char>>
    decreases n,
{
    if n <= 0 {
        Seq::empty()
    } else {
        let e = w.entities[n - 1];
        if e.name is Some && e.position == Some(Position { x, y }) && w.map.visible_tiles[w.map.idx(
            x as int,
            y as int,
        )] {
            tooltips_upto(w, x, y, n - 1).push(e.name.unwrap())
        } else {
            tooltips_upto(w, x, y, n - 1)
        }
    }
}

/// Lists the names of whatever the mouse points at.
pub fn tooltips(ecs: &World, mouse_x: i32, mouse_y: i32) -> (names: Vec<String>)
    requires
        ecs.wf(),
    ensures
        Seq::new(names@.len(), |k: int| names@[k]@) == tooltips_upto(
            ecs@,
            mouse_x,
            mouse_y,
            ecs@.entities.len() as int,
        ),
{
    let mut names: Vec<String> = Vec::new();
    let n = ecs.entities.len();
    let mut i: usize = 0;
    while i < n
        invariant
            i <= n,
            n == ecs@.entities.len(),
            ecs.wf(),
            Seq::new(names@.len(), |k: int| names@[k]@) == tooltips_upto(
                ecs@,
                mouse_x,
                mouse_y,
                i as int,
            ),
        decreases n - i,
    {
        proof {
            assert(ecs@.slot_wf(i as int));
        }
        let ghost before = Seq::new(names@.len(), |k: int| names@[k]@);
        let e = &ecs.entities[i];
        match (&e.name, e.position) {
            (Some(name), Some(p)) => {
                if p.x == mouse_x && p.y == mouse_y {
                    let index = ecs.map.xy_idx(p.x, p.y);
                    if ecs.map.visible_tiles[index] {
                        names.push(name.name.clone());
                        proof {
                            assert(Seq::new(names@.len(), |k: int| names@[k]@) =~= before.push(
                                name.name@,
                            ));
                        }
                    }
                }
            },
            _ => {},
        }
        i += 1;
    }
    names
}

} // verus!
