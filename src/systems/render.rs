use vstd::prelude::*;

use rand::rngs::StdRng;

use crate::geom::{Vec2, UNIT};
use crate::random::random_in;
use crate::rendering::{red, red_color, Color, DrawCommand};
use crate::systems::input::{any_player, no_players};
use crate::world::{Row, World};

verus! {

/// The drawing for a row, if it is drawable: an asteroid, a bullet (a
/// square whose green channel flickers, shown here as zero), a ship (player
/// or enemy) or a gun, in that order of precedence.
pub open spec fn draw_of(r: Row) -> Option<DrawCommand> {
    if !r.alive || r.comps.transform is None {
        None
    } else {
        let t = r.comps.transform.unwrap();
        if r.comps.asteroid is Some {
            Some(DrawCommand::Asteroid { pos: t.pos, size: r.comps.asteroid.unwrap().size, dir: t.rot })
        } else if r.comps.bullet is Some {
            Some(DrawCommand::ColoredSquare { pos: t.pos, color: Color { r: 255, g: 0, b: 0, a: 255 } })
        } else if r.comps.player is Some || r.comps.enemy is Some {
            Some(DrawCommand::Ship { pos: t.pos, dir: t.rot })
        } else if r.comps.gun is Some {
            Some(DrawCommand::Gun { pos: t.pos, dir: t.rot })
        } else {
            None
        }
    }
}

/// The drawings for rows `[0, n)`, in row order.
pub open spec fn draws(rows: Seq<Row>, n: int) -> Seq<DrawCommand>
    decreases n,
{
    if n <= 0 {
        Seq::empty()
    } else {
        match draw_of(rows[n - 1]) {
            Some(d) => draws(rows, n - 1).push(d),
            None => draws(rows, n - 1),
        }
    }
}

/// A drawing with the flicker of a square's green channel taken out.
pub open spec fn steady(d: DrawCommand) -> DrawCommand {
    match d {
        DrawCommand::ColoredSquare { pos, color } => DrawCommand::ColoredSquare {
            pos,
            color: Color { g: 0, ..color },
        },
        _ => d,
    }
}

/// `actual` is `expected` but for the flicker, which stays in `[10, 255)`.
pub open spec fn flicker_matches(actual: Seq<DrawCommand>, expected: Seq<DrawCommand>) -> bool {
    &&& actual.len() == expected.len()
    &&& forall|i: int| 0 <= i < actual.len() ==> steady(#[trigger] actual[i]) == expected[i]
    &&& forall|i: int|
        0 <= i < actual.len() ==> (#[trigger] actual[i] matches DrawCommand::ColoredSquare {
            color,
            ..
        } ==> 10 <= color.g < 255)
}

/// `r1` is `r0` followed by the drawings of `rows`, up to the flicker.
pub open spec fn drawn(rows: Seq<Row>, r0: Seq<DrawCommand>, r1: Seq<DrawCommand>) -> bool {
    &&& r1.subrange(0, r0.len() as int) == r0
    &&& flicker_matches(r1.subrange(r0.len() as int, r1.len() as int), draws(rows, rows.len() as int))
}

/// Queues one drawing per drawable entity, in row order (see `draw_of`).
pub fn entity_render(world: &World, rng: &mut StdRng, render: &mut Vec<DrawCommand>)
    ensures
        drawn(world@, old(render)@, final(render)@),
{
    let ghost r0 = render@;
    let mut i: usize = 0;
    while i < world.len()
        invariant
            i <= world@.len(),
            render@.len() >= r0.len(),
            render@.subrange(0, r0.len() as int) == r0,
            flicker_matches(render@.subrange(r0.len() as int, render@.len() as int), draws(world@, i as int)),
        decreases world@.len() - i,
    {
        let row = world.row(i);
        let ghost before = render@;
        if row.alive {
            match row.comps.transform {
                Some(t) => {
                    if row.comps.asteroid.is_some() {
                        render.push(DrawCommand::Asteroid { pos: t.pos, size: row.comps.asteroid.unwrap().size, dir: t.rot });
                    } else if row.comps.bullet.is_some() {
                        let g = random_in(rng, 10, 255) as u8;
                        render.push(DrawCommand::ColoredSquare { pos: t.pos, color: Color { r: 255, g, b: 0, a: 255 } });
                    } else if row.comps.player.is_some() || row.comps.enemy.is_some() {
                        render.push(DrawCommand::Ship { pos: t.pos, dir: t.rot });
                    } else if row.comps.gun.is_some() {
                        render.push(DrawCommand::Gun { pos: t.pos, dir: t.rot });
                    }
                },
                None => {},
            }
        }
        proof {
            let a = render@.subrange(r0.len() as int, render@.len() as int);
            let pa = before.subrange(r0.len() as int, before.len() as int);
            if render@.len() > before.len() {
                assert(a =~= pa.push(render@.last()));
            } else {
                assert(a =~= pa);
            }
            assert(render@.subrange(0, r0.len() as int) =~= r0);
        }
        i = i + 1;
    }
}

/// Where the game-over banner starts: 28% across and 40% down the field.
pub const BANNER_X: i64 = 67_200;
pub const BANNER_Y: i64 = 64_000;

/// Banner text sizes, and the gap below the title (1.5 times its size).
pub const TITLE_SIZE: i32 = 20;
pub const SUBTITLE_SIZE: i32 = 1;
pub const TITLE_GAP: i64 = 30 * UNIT;

/// With no player in `rows`, `r1` is `r0` followed by the game-over banner:
/// the title, then below it the prompt to press space. Otherwise `r1` is
/// `r0`.
pub open spec fn banner_drawn(rows: Seq<Row>, r0: Seq<DrawCommand>, r1: Seq<DrawCommand>) -> bool {
    &&& no_players(rows) ==> r1.len() == r0.len() + 2 && r1.subrange(0, r0.len() as int) == r0
        && (r1[r0.len() as int] matches DrawCommand::Text { pos, text, size, color }
        && pos == (Vec2 { x: BANNER_X, y: BANNER_Y }) && text@ == "GAME OVER!"@
        && size == TITLE_SIZE && color == red()) && (r1[(r0.len() + 1) as int] matches DrawCommand::Text { pos, text, size, color }
        && pos == (Vec2 { x: BANNER_X, y: (BANNER_Y + TITLE_GAP) as i64 }) && text@ == "press space"@
        && size == SUBTITLE_SIZE && color == red())
    &&& !no_players(rows) ==> r1 == r0
}

/// With no player left, queues the game-over banner: the title, and below
/// it the prompt to press space.
pub fn game_over(world: &World, render: &mut Vec<DrawCommand>)
    ensures
        banner_drawn(world@, old(render)@, final(render)@),
{
    if !any_player(world) {
        let ghost r0 = render@;
        let title = "GAME OVER!".to_owned();
        render.push(DrawCommand::Text { pos: Vec2 { x: BANNER_X, y: BANNER_Y }, text: title, size: TITLE_SIZE, color: red_color() });
        let subtitle = "press space".to_owned();
        render.push(DrawCommand::Text { pos: Vec2 { x: BANNER_X, y: BANNER_Y + TITLE_GAP }, text: subtitle, size: SUBTITLE_SIZE, color: red_color() });
        assert(render@.subrange(0, r0.len() as int) =~= r0);
    }
}

} // verus!
