use vstd::prelude::*;

verus! {

/// One positioned glyph of a shaped run.
///
/// Offsets and advances are in the shaping engine's font units; `scale` is
/// that engine's units-per-em, the reference for converting them.
#[derive(Clone, Copy, Debug, PartialEq, Eq, Structural)]
pub struct Shape {
    pub glyph_id: u32,
    pub x_offset: i32,
    pub y_offset: i32,
    pub x_advance: i32,
    pub y_advance: i32,
    pub scale: u32,
}

/// Position of one output glyph as reported by the shaping engine.
#[derive(Clone, Copy, Debug, PartialEq, Eq, Structural)]
pub struct GlyphPosition {
    pub x_advance: i32,
    pub y_advance: i32,
    pub x_offset: i32,
    pub y_offset: i32,
}

/// The glyph record built from a glyph id and its position.
pub open spec fn shape_of(glyph_id: u32, p: GlyphPosition, upem: u32) -> Shape {
    Shape {
        glyph_id,
        x_offset: p.x_offset,
        y_offset: p.y_offset,
        x_advance: p.x_advance,
        y_advance: p.y_advance,
        scale: upem,
    }
}

/// Pairs the shaping engine's glyph ids with their positions, in output
/// order, tagging each record with the engine's units-per-em.
pub fn shapes_from_glyphs(glyph_ids: &[u32], positions: &[GlyphPosition], upem: u32) -> (shapes:
    Vec<Shape>)
    requires
        glyph_ids@.len() == positions@.len(),
    ensures
        shapes@.len() == glyph_ids@.len(),
        forall|i: int|
            0 <= i < shapes@.len() ==> #[trigger] shapes@[i] == shape_of(
                glyph_ids@[i],
                positions@[i],
                upem,
            ),
{
    let mut shapes: Vec<Shape> = Vec::new();
    let mut i: usize = 0;
    while i < glyph_ids.len()
        invariant
            glyph_ids@.len() == positions@.len(),
            i <= glyph_ids@.len(),
            shapes@.len() == i,
            forall|j: int|
                0 <= j < i ==> #[trigger] shapes@[j] == shape_of(glyph_ids@[j], positions@[j], upem),
        decreases glyph_ids@.len() - i,
    {
        let p = positions[i];
        shapes.push(
            Shape {
                glyph_id: glyph_ids[i],
                x_offset: p.x_offset,
                y_offset: p.y_offset,
                x_advance: p.x_advance,
                y_advance: p.y_advance,
                scale: upem,
            },
        );
        i = i + 1;
    }
    shapes
}

} // verus!
