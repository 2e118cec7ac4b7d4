//! Healthbar geometry: what the renderer needs to draw a two-rectangle
//! bar over a combatant.
//!
//! The bar is a fixed-width background and a foreground whose width is
//! proportional to the remaining health fraction, left-aligned by
//! shifting it half of the missing width; it sits a fixed offset below
//! the entity. Drawing itself (meshes, materials, the scene graph) is a
//! rendering concern and stays with the host.

use crate::health::Health;
use crate::vec2::lemma_div_le;
use vstd::prelude::*;

verus! {

/// Full width of a healthbar, in world units.
pub const HEALTHBAR_WIDTH: i64 = 32;

/// Height of a healthbar, in world units.
pub const HEALTHBAR_HEIGHT: i64 = 10;

/// Vertical offset of the bar below its entity, in world units.
pub const HEALTHBAR_OFFSET_Y: i64 = -28;

/// The geometry of one healthbar, relative to its entity's position.
#[derive(Clone, Copy, Debug, PartialEq, Eq, Structural)]
pub struct HealthbarView {
    /// Width of the background rectangle.
    pub width: i64,
    /// Width of the foreground rectangle: proportional to remaining health.
    pub remaining_width: i64,
    /// Horizontal offset of the foreground, keeping it left-aligned.
    pub offset_x: i64,
}

/// The bar geometry for a combatant's health: the foreground takes
/// `cur_hp / max_hp` of the full width, rounded down, and is shifted left
/// by half of the missing width.
pub fn healthbar_view(h: &Health) -> (v: HealthbarView)
    requires
        h.max_hp > 0,
        h.wf(),
    ensures
        v.width == HEALTHBAR_WIDTH,
        v.remaining_width == HEALTHBAR_WIDTH as int * h.cur_hp as int / h.max_hp as int,
        0 <= v.remaining_width <= HEALTHBAR_WIDTH,
        v.offset_x == -((HEALTHBAR_WIDTH - v.remaining_width) / 2),
        h.cur_hp == h.max_hp ==> v.remaining_width == HEALTHBAR_WIDTH && v.offset_x == 0,
{
    let scaled: u64 = HEALTHBAR_WIDTH as u64 * h.cur_hp as u64;
    let rw: u64 = scaled / h.max_hp as u64;
    proof {
        lemma_div_le(scaled as int, h.max_hp as int, HEALTHBAR_WIDTH as int);
        if h.cur_hp == h.max_hp {
            vstd::arithmetic::div_mod::lemma_div_multiples_vanish(
                HEALTHBAR_WIDTH as int,
                h.max_hp as int,
            );
        }
    }
    let gap: u64 = HEALTHBAR_WIDTH as u64 - rw;
    HealthbarView {
        width: HEALTHBAR_WIDTH,
        remaining_width: rw as i64,
        offset_x: -((gap / 2) as i64),
    }
}

} // verus!
