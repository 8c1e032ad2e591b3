//! Inline image placements and their drawing order relative to text.

use vstd::prelude::*;

verus! {

/// Where and how an image is placed on the terminal grid.
#[derive(Debug, Clone, Copy, PartialEq, Eq, Default)]
pub struct Placement {
    /// Image this placement shows.
    pub image_id: u32,
    /// Identifier of this placement.
    pub placement_id: u32,
    /// Absolute grid row of the top-left corner.
    pub grid_row: i64,
    /// Grid column of the top-left corner.
    pub grid_col: u32,
    /// Display width in cells (0 = derive from the image).
    pub columns: u32,
    /// Display height in cells (0 = derive from the image).
    pub rows: u32,
    /// Stacking order: negative values draw under the text.
    pub z_index: i32,
    /// Source rectangle (x, y, width, height) in image pixels, if cropped.
    pub source_rect: Option<(u32, u32, u32, u32)>,
}

/// The placements of `s` that satisfy `under == (z_index < 0)`, in order.
pub open spec fn placements_by_layer(s: Seq<&Placement>, under: bool) -> Seq<&Placement>
    decreases s.len(),
{
    if s.len() == 0 {
        Seq::empty()
    } else if (s.last().z_index < 0) == under {
        placements_by_layer(s.drop_last(), under).push(s.last())
    } else {
        placements_by_layer(s.drop_last(), under)
    }
}

/// Split placements by z-index into those drawn under the text (z < 0) and
/// those drawn over it (z >= 0), each keeping the input order.
pub fn split_placements_by_z<'a>(placements: &[&'a Placement]) -> (r: (Vec<&'a Placement>, Vec<&'a Placement>))
    ensures
        r.0@ == placements_by_layer(placements@, true),
        r.1@ == placements_by_layer(placements@, false),
{
    let mut under: Vec<&'a Placement> = Vec::new();
    let mut over: Vec<&'a Placement> = Vec::new();
    let mut i: usize = 0;
    while i < placements.len()
        invariant
            i <= placements@.len(),
            under@ == placements_by_layer(placements@.subrange(0, i as int), true),
            over@ == placements_by_layer(placements@.subrange(0, i as int), false),
        decreases placements.len() - i,
    {
        let p = placements[i];
        proof {
            assert(placements@.subrange(0, i + 1).drop_last() =~= placements@.subrange(0, i as int));
        }
        if p.z_index < 0 {
            under.push(p);
        } else {
            over.push(p);
        }
        i = i + 1;
    }
    assert(placements@.subrange(0, placements@.len() as int) =~= placements@);
    (under, over)
}

/// Splitting by layer loses and duplicates nothing: every placement lands
/// in exactly one layer, so the two layers together are as long as the
/// input, and each holds only placements of its own side of z = 0.
pub proof fn lemma_layers_partition(s: Seq<&Placement>)
    ensures
        placements_by_layer(s, true).len() + placements_by_layer(s, false).len() == s.len(),
        forall|i: int| 0 <= i < placements_by_layer(s, true).len() ==> #[trigger] placements_by_layer(s, true)[i].z_index < 0,
        forall|i: int| 0 <= i < placements_by_layer(s, false).len() ==> #[trigger] placements_by_layer(s, false)[i].z_index >= 0,
    decreases s.len(),
{
    if s.len() > 0 {
        lemma_layers_partition(s.drop_last());
    }
}

} // verus!
