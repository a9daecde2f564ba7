use vstd::prelude::*;
use crate::exits::{CodelChooser, Direction, Position};
use crate::grid::{edge_distance, find_exit_spec, in_bounds, route_spec, slide_spec, Grid};
use crate::ops::PietColor;

verus! {

/// Slides through white codels from start in direction dp until a chromatic
/// codel is reached, rotating on obstacles; None once eight attempts fail.
#[verifier::loop_isolation(false)]
pub fn slide_through_white(g: &Grid, start: Position, dp: Direction) -> (r: Option<Position>)
    requires
        g.inv(),
        in_bounds(start, g.spec_width(), g.spec_height()),
    ensures
        r == slide_spec(*g, start, dp, 0),
        r matches Some(t) ==> in_bounds(t, g.spec_width(), g.spec_height())
            && g.spec_color_at(t) != PietColor::White
            && g.spec_color_at(t) != PietColor::Black,
{
    let mut pos = start;
    let mut d = dp;
    let mut attempts: usize = 0;
    while attempts < 8
        invariant
            attempts <= 8,
            in_bounds(pos, g.spec_width(), g.spec_height()),
            slide_spec(*g, start, dp, 0) == slide_spec(*g, pos, d, attempts as nat),
        decreases 8 - attempts, edge_distance(pos, d, g.spec_width(), g.spec_height()),
    {
        match pos.step(d, g.width(), g.height()) {
            Some(next_pos) => {
                match g.get(next_pos) {
                    Some(color) => {
                        if color.is_white() {
                            pos = next_pos;
                            continue;
                        } else if !color.is_black() {
                            proof {
                                assert(slide_spec(*g, pos, d, attempts as nat) == Some(next_pos));
                            }
                            return Some(next_pos);
                        }
                    }
                    None => {}
                }
            }
            None => {}
        }
        if attempts % 2 == 1 {
            d = d.rotate_clockwise(1);
        }
        attempts = attempts + 1;
    }
    None
}

/// Searches for a colored exit of the block, alternating codel-chooser
/// toggles and clockwise direction rotations, up to eight attempts.
#[verifier::loop_isolation(false)]
pub fn find_valid_exit(
    g: &Grid, block_id: usize, dp: Direction, cc: CodelChooser,
) -> (r: Option<(Position, Direction, CodelChooser)>)
    requires
        g.inv(),
        block_id < g.spec_block_count(),
    ensures
        r == find_exit_spec(*g, block_id as int, dp, cc, 0),
        r matches Some(t) ==> in_bounds(t.0, g.spec_width(), g.spec_height())
            && g.spec_color_at(t.0) != PietColor::Black,
{
    let mut d = dp;
    let mut c = cc;
    let mut attempts: usize = 0;
    while attempts < 8
        invariant
            attempts <= 8,
            find_exit_spec(*g, block_id as int, dp, cc, 0)
                == find_exit_spec(*g, block_id as int, d, c, attempts as nat),
        decreases 8 - attempts,
    {
        match g.get_exit(block_id, d, c) {
            Some(q) => {
                match g.get(q) {
                    Some(color) => {
                        if !color.is_black() {
                            return Some((q, d, c));
                        }
                    }
                    None => {}
                }
            }
            None => {}
        }
        if attempts % 2 == 0 {
            c = c.toggle();
        } else {
            d = d.rotate_clockwise(1);
        }
        attempts = attempts + 1;
    }
    None
}

/// One full transition out of a block: the routed landing codel, the state
/// after routing, and whether white was crossed on the way.
pub fn route(
    g: &Grid, block_id: usize, dp: Direction, cc: CodelChooser,
) -> (r: Option<(Position, Direction, CodelChooser, bool)>)
    requires
        g.inv(),
        block_id < g.spec_block_count(),
    ensures
        r == route_spec(*g, block_id as int, dp, cc),
        r matches Some(t) ==> in_bounds(t.0, g.spec_width(), g.spec_height())
            && g.spec_color_at(t.0) != PietColor::White
            && g.spec_color_at(t.0) != PietColor::Black,
{
    match find_valid_exit(g, block_id, dp, cc) {
        None => None,
        Some((q, dp2, cc2)) => {
            match g.get(q) {
                Some(color) => {
                    if color.is_white() {
                        match slide_through_white(g, q, dp2) {
                            None => None,
                            Some(t) => Some((t, dp2, cc2, true)),
                        }
                    } else {
                        Some((q, dp2, cc2, false))
                    }
                }
                None => None,
            }
        }
    }
}

} // verus!
