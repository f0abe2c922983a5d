//! Window and camera geometry of a tile, and the re-anchoring of overlays
//! authored in canvas coordinates.
use vstd::prelude::*;

use crate::layout::{Tile, TileView, TiledDisplay, TiledDisplayView};

verus! {

/// Where the operating system window of a tile goes on screen.
#[derive(Debug, Clone, Copy, PartialEq, Eq, Structural)]
pub struct WindowGeometry {
    pub left: i32,
    pub top: i32,
    pub width: u32,
    pub height: u32,
}

/// The rectangle of the full canvas that a tile's camera renders.
#[derive(Debug, Clone, Copy, PartialEq, Eq, Structural)]
pub struct SubView {
    pub full_width: u32,
    pub full_height: u32,
    pub offset_x: i32,
    pub offset_y: i32,
    pub width: u32,
    pub height: u32,
}

pub open spec fn window_geometry_of(t: TileView) -> WindowGeometry {
    WindowGeometry {
        left: t.window_left,
        top: t.window_top,
        width: t.window_width,
        height: t.window_height,
    }
}

pub open spec fn sub_view_of(d: TiledDisplayView, t: TileView) -> SubView {
    SubView {
        full_width: d.width,
        full_height: d.height,
        offset_x: t.left_offset,
        offset_y: t.top_offset,
        width: t.window_width,
        height: t.window_height,
    }
}

/// The window's absolute position and size.
pub fn window_geometry(tile: &Tile) -> (r: WindowGeometry)
    ensures
        r == window_geometry_of(tile@),
{
    WindowGeometry {
        left: tile.window_left,
        top: tile.window_top,
        width: tile.window_width,
        height: tile.window_height,
    }
}

/// The camera's sub-rectangle of the full canvas.
pub fn sub_view(display: &TiledDisplay, tile: &Tile) -> (r: SubView)
    ensures
        r == sub_view_of(display@, tile@),
{
    let (full_width, full_height) = display.size();
    let (offset_x, offset_y) = tile.offset();
    let (width, height) = tile.size();
    SubView { full_width, full_height, offset_x, offset_y, width, height }
}

/// The tile lies inside the canvas.
pub open spec fn tile_within_canvas(d: TiledDisplayView, t: TileView) -> bool {
    &&& 0 <= t.left_offset
    &&& 0 <= t.top_offset
    &&& t.left_offset + t.window_width <= d.width
    &&& t.top_offset + t.window_height <= d.height
}

/// The camera rectangle lies within the full canvas size.
pub open spec fn sub_view_within(v: SubView) -> bool {
    &&& 0 <= v.offset_x
    &&& 0 <= v.offset_y
    &&& v.offset_x + v.width <= v.full_width
    &&& v.offset_y + v.height <= v.full_height
}

/// In a layout whose tiles all lie inside the canvas, every tile's camera
/// rectangle ends within the full canvas size, on both axes.
pub proof fn lemma_sub_views_within_canvas(d: TiledDisplayView)
    requires
        forall|i: int, j: int|
            0 <= i < d.machines.len() && 0 <= j < d.machines[i].tiles.len() ==> tile_within_canvas(
                d,
                #[trigger] d.machines[i].tiles[j],
            ),
    ensures
        forall|i: int, j: int|
            0 <= i < d.machines.len() && 0 <= j < d.machines[i].tiles.len() ==> sub_view_within(
                sub_view_of(d, #[trigger] d.machines[i].tiles[j]),
            ),
{
}

/// A coordinate of an overlay element.
#[derive(Debug, Clone, Copy, PartialEq, Eq, Structural)]
pub enum Length {
    /// A number of pixels.
    Px(i64),
    /// Any other unit, which re-anchoring leaves alone.
    Other,
}

/// The placement of an overlay element that has no parent.
#[derive(Debug, Clone, Copy, PartialEq, Eq, Structural)]
pub struct OverlayNode {
    /// Whether the element is positioned absolutely.
    pub absolute: bool,
    pub left: Length,
    pub top: Length,
}

pub open spec fn shift_length(l: Length, by: int) -> Length {
    match l {
        Length::Px(v) => Length::Px((v + by) as i64),
        Length::Other => Length::Other,
    }
}

/// Shifting by `by` stays within the range of pixel values.
pub open spec fn shift_fits(l: Length, by: int) -> bool {
    match l {
        Length::Px(v) => i64::MIN <= v + by <= i64::MAX,
        Length::Other => true,
    }
}

/// The node moved by `(dx, dy)`, if it is absolutely positioned.
pub open spec fn shifted_node(n: OverlayNode, dx: int, dy: int) -> OverlayNode {
    if n.absolute {
        OverlayNode { absolute: true, left: shift_length(n.left, dx), top: shift_length(n.top, dy) }
    } else {
        n
    }
}

/// The node in the tile's local window coordinates.
pub open spec fn reanchored(n: OverlayNode, t: TileView) -> OverlayNode {
    shifted_node(n, -t.left_offset, -t.top_offset)
}

/// The node back in canvas coordinates.
pub open spec fn unanchored(n: OverlayNode, t: TileView) -> OverlayNode {
    shifted_node(n, t.left_offset as int, t.top_offset as int)
}

fn shift(l: Length, by: i32) -> (r: Length)
    requires
        shift_fits(l, by as int),
    ensures
        r == shift_length(l, by as int),
{
    match l {
        Length::Px(v) => Length::Px(v + by as i64),
        Length::Other => Length::Other,
    }
}

/// Moves an absolutely positioned overlay element from canvas coordinates
/// into the tile's window by subtracting the tile's offset; other elements
/// are left as they are.
pub fn reanchor(node: OverlayNode, tile: &Tile) -> (r: OverlayNode)
    requires
        node.absolute ==> shift_fits(node.left, -tile.left_offset) && shift_fits(
            node.top,
            -tile.top_offset,
        ),
    ensures
        r == reanchored(node, tile@),
{
    if node.absolute {
        let dx = tile.left_offset as i64;
        let dy = tile.top_offset as i64;
        let left = match node.left {
            Length::Px(v) => Length::Px(v - dx),
            Length::Other => Length::Other,
        };
        let top = match node.top {
            Length::Px(v) => Length::Px(v - dy),
            Length::Other => Length::Other,
        };
        OverlayNode { absolute: true, left, top }
    } else {
        node
    }
}

/// Moves an absolutely positioned overlay element from the tile's window
/// back into canvas coordinates by adding the tile's offset.
pub fn unanchor(node: OverlayNode, tile: &Tile) -> (r: OverlayNode)
    requires
        node.absolute ==> shift_fits(node.left, tile.left_offset as int) && shift_fits(
            node.top,
            tile.top_offset as int,
        ),
    ensures
        r == unanchored(node, tile@),
{
    if node.absolute {
        OverlayNode {
            absolute: true,
            left: shift(node.left, tile.left_offset),
            top: shift(node.top, tile.top_offset),
        }
    } else {
        node
    }
}

/// Re-anchoring an element into a tile and moving it back by the same
/// offset gives the element exactly as it was.
pub proof fn lemma_reanchor_round_trip(n: OverlayNode, t: TileView)
    requires
        n.absolute ==> shift_fits(n.left, -t.left_offset) && shift_fits(n.top, -t.top_offset),
    ensures
        unanchored(reanchored(n, t), t) == n,
{
}

} // verus!
