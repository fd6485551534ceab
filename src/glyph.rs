use vstd::prelude::*;

use crate::buffer::{
    glyph_data_word, write_glyph_data_to_buffer, DesignCurve, DesignPoint, CURVE_WORDS,
    HEADER_WORDS,
};
use crate::grid::{AtlasError, VGrid, ATLAS_CHANNELS, GRID_ATLAS_SIZE};

verus! {

/// Where a glyph's data went and how to place its quad, in design units.
#[derive(Clone, Copy, Debug, PartialEq, Eq)]
pub struct Glyph {
    pub width: u16,
    pub height: u16,
    /// Offset of the quad's top-left corner from the pen position.
    pub offset_x: i32,
    pub offset_y: i32,
    /// Texel of the curve data atlas where the glyph's curve data starts.
    pub bezier_atlas_pos: u16,
    /// How far the pen moves after this glyph.
    pub advance: i16,
}

/// A glyph's box and spacing as the font gives them, in design units.
#[derive(Clone, Copy, Debug, PartialEq, Eq)]
pub struct GlyphMetrics {
    pub width: u16,
    pub height: u16,
    /// Distance from the pen position to the left edge of the glyph's box.
    pub bearing_x: i16,
    /// Distance from the baseline up to the top edge of the glyph's box.
    pub bearing_y: i16,
    pub advance: i16,
}

/// One corner of a glyph quad: its position in design units and its packed data.
#[derive(Clone, Copy, Debug, PartialEq, Eq)]
pub struct QuadVertex {
    pub x: i32,
    pub y: i32,
    pub data: u32,
}

/// Which corner of the quad vertex `j` stands on, as the first four vertex numbers:
/// 0 top left, 1 top right, 2 bottom left, 3 bottom right. The quad's two triangles
/// are vertices 0, 1, 2 and 3, 4, 5; vertex 4 repeats corner 2 and vertex 5 corner 1.
pub open spec fn corner_of(j: int) -> int {
    if j < 4 {
        j
    } else {
        6 - j
    }
}

/// 1 when vertex `j` is on the quad's right edge, else 0.
pub open spec fn corner_x(j: int) -> int {
    corner_of(j) % 2
}

/// 1 when vertex `j` is on the quad's bottom edge, else 0.
pub open spec fn corner_y(j: int) -> int {
    if corner_of(j) > 1 {
        1
    } else {
        0
    }
}

/// The record of a glyph with metrics `m` and curve data at texel `pos`: its quad's
/// top-left corner lies `bearing_x` right of the pen and `bearing_y` above the baseline.
pub open spec fn glyph_of(m: GlyphMetrics, pos: u16) -> Glyph {
    Glyph {
        width: m.width,
        height: m.height,
        offset_x: m.bearing_x as i32,
        offset_y: (m.bearing_y - m.height) as i32,
        bezier_atlas_pos: pos,
        advance: m.advance,
    }
}

/// The packed data of vertex `j` of a glyph whose curve data starts at texel `pos`:
/// bit 1 is the corner's x, bit 0 its y, and the bits from 2 up hold `pos`.
pub open spec fn vertex_data_of(j: int, pos: int) -> int {
    pos * 4 + corner_x(j) * 2 + corner_y(j)
}

/// Vertex `j` of the quad of `g`.
pub open spec fn quad_vertex_of(g: Glyph, j: int) -> QuadVertex {
    QuadVertex {
        x: (if corner_x(j) == 1 {
            g.offset_x + g.width
        } else {
            g.offset_x as int
        }) as i32,
        y: (if corner_y(j) == 1 {
            g.offset_y + g.height
        } else {
            g.offset_y as int
        }) as i32,
        data: vertex_data_of(j, g.bezier_atlas_pos as int) as u32,
    }
}

/// The corner of the quad that vertex `j` stands on, as its x and y bits.
fn corner(j: usize) -> (r: (u32, u32))
    requires
        j < 6,
    ensures
        r.0 == corner_x(j as int),
        r.1 == corner_y(j as int),
        r.0 <= 1,
        r.1 <= 1,
{
    let k: u32 = if j < 4 {
        j as u32
    } else {
        6 - j as u32
    };
    let norm_y: u32 = if k > 1 {
        1
    } else {
        0
    };
    (k % 2, norm_y)
}

/// The packed data of vertex `j` of a glyph whose curve data starts at texel `pos`.
pub fn vertex_data(j: usize, pos: u16) -> (r: u32)
    requires
        j < 6,
    ensures
        r == vertex_data_of(j as int, pos as int),
{
    let (norm_x, norm_y) = corner(j);
    pos as u32 * 4 + norm_x * 2 + norm_y
}

impl Glyph {
    /// The record of a glyph with metrics `m` whose curve data starts at texel
    /// `bezier_atlas_pos` of the curve data atlas.
    pub fn from_metrics(m: &GlyphMetrics, bezier_atlas_pos: u16) -> (g: Glyph)
        ensures
            g == glyph_of(*m, bezier_atlas_pos),
    {
        Glyph {
            width: m.width,
            height: m.height,
            offset_x: m.bearing_x as i32,
            offset_y: m.bearing_y as i32 - m.height as i32,
            bezier_atlas_pos,
            advance: m.advance,
        }
    }

    /// The six vertices of the two triangles that cover this glyph's box.
    pub fn quad(&self) -> (r: Vec<QuadVertex>)
        requires
            self.offset_x + self.width <= i32::MAX,
            self.offset_y + self.height <= i32::MAX,
        ensures
            r@.len() == 6,
            forall|j: int| 0 <= j < 6 ==> #[trigger] r@[j] == quad_vertex_of(*self, j),
    {
        let mut r: Vec<QuadVertex> = Vec::new();
        let mut j: usize = 0;
        while j < 6
            invariant
                0 <= j <= 6,
                r@.len() == j,
                self.offset_x + self.width <= i32::MAX,
                self.offset_y + self.height <= i32::MAX,
                forall|i: int| 0 <= i < j ==> #[trigger] r@[i] == quad_vertex_of(*self, i),
            decreases 6 - j,
        {
            let (norm_x, norm_y) = corner(j);
            let data = vertex_data(j, self.bezier_atlas_pos);
            let x = if norm_x == 1 {
                self.offset_x + self.width as i32
            } else {
                self.offset_x
            };
            let y = if norm_y == 1 {
                self.offset_y + self.height as i32
            } else {
                self.offset_y
            };
            r.push(QuadVertex { x, y, data });
            assert(r@[j as int] == quad_vertex_of(*self, j as int));
            j = j + 1;
        }
        r
    }
}

/// Writes what the renderer needs of one glyph: the texels of its grid into the grid
/// atlas with the grid's top-left cell at texel `(grid_x, grid_y)`, then its curve
/// data into `curve_data` from texel `bezier_atlas_pos` on (two words per texel), and
/// returns its record. When the grid cannot be written, nothing is written at all and
/// the grid atlas's error is returned.
pub fn place_glyph(
    grid: &VGrid,
    curves: &Vec<DesignCurve>,
    metrics: &GlyphMetrics,
    curve_data: &mut Vec<u16>,
    bezier_atlas_pos: u16,
    grid_atlas: &mut Vec<u8>,
    grid_x: u16,
    grid_y: u16,
) -> (r: Result<Glyph, AtlasError>)
    requires
        grid.wf(),
        metrics.width > 0,
        metrics.height > 0,
        GRID_ATLAS_SIZE as int * GRID_ATLAS_SIZE as int * ATLAS_CHANNELS as int <= old(
            grid_atlas,
        )@.len(),
        2 * bezier_atlas_pos + HEADER_WORDS + CURVE_WORDS * curves@.len() <= old(curve_data)@.len(),
    ensures
        final(grid_atlas)@.len() == old(grid_atlas)@.len(),
        final(curve_data)@.len() == old(curve_data)@.len(),
        !grid.fits_at(grid_x as int, grid_y as int, GRID_ATLAS_SIZE as int, GRID_ATLAS_SIZE as int)
            ==> r == Err::<Glyph, AtlasError>(AtlasError::OutOfBounds),
        grid.fits_at(grid_x as int, grid_y as int, GRID_ATLAS_SIZE as int, GRID_ATLAS_SIZE as int)
            && grid.overfull(ATLAS_CHANNELS as int) ==> r == Err::<Glyph, AtlasError>(
            AtlasError::TooManyCurves,
        ),
        grid.fits_at(grid_x as int, grid_y as int, GRID_ATLAS_SIZE as int, GRID_ATLAS_SIZE as int)
            && !grid.overfull(ATLAS_CHANNELS as int) && grid.index_too_large() ==> r == Err::<
            Glyph,
            AtlasError,
        >(AtlasError::CurveIndexTooLarge),
        grid.fits_at(grid_x as int, grid_y as int, GRID_ATLAS_SIZE as int, GRID_ATLAS_SIZE as int)
            && !grid.overfull(ATLAS_CHANNELS as int) && !grid.index_too_large() ==> r.is_ok(),
        r.is_err() ==> final(grid_atlas)@ == old(grid_atlas)@ && final(curve_data)@ == old(
            curve_data,
        )@,
        r.is_ok() ==> {
            &&& r == Ok::<Glyph, AtlasError>(glyph_of(*metrics, bezier_atlas_pos))
            &&& forall|p: int|
                0 <= p < final(grid_atlas)@.len() ==> #[trigger] final(grid_atlas)@[p]
                    == grid.atlas_byte(
                    old(grid_atlas)@,
                    grid_x as int,
                    grid_y as int,
                    GRID_ATLAS_SIZE as int,
                    ATLAS_CHANNELS as int,
                    p,
                )
            &&& forall|p: int|
                0 <= p < final(curve_data)@.len() ==> #[trigger] final(curve_data)@[p] as int
                    == glyph_data_word(
                    old(curve_data)@,
                    2 * bezier_atlas_pos,
                    curves@,
                    DesignPoint { x: metrics.width as i32, y: metrics.height as i32 },
                    seq![grid_x, grid_y, grid.width, grid.height],
                    p,
                )
        },
{
    match grid.write_vgrid_at(grid_x, grid_y, grid_atlas) {
        Err(e) => Err(e),
        Ok(()) => {
            let size = DesignPoint { x: metrics.width as i32, y: metrics.height as i32 };
            write_glyph_data_to_buffer(
                curve_data,
                2 * bezier_atlas_pos as usize,
                curves,
                &size,
                grid_x,
                grid_y,
                grid.width,
                grid.height,
            );
            Ok(Glyph::from_metrics(metrics, bezier_atlas_pos))
        },
    }
}

} // verus!
