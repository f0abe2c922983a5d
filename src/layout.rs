//! The layout model: a canvas, its machines, and their tiles.
use vstd::prelude::*;

verus! {

/// Which eye a tile renders for.
#[derive(Debug, Clone, Copy, PartialEq, Eq, Structural)]
pub enum StereoChannel {
    Left,
    Right,
}

/// One rendering surface of a machine.
#[derive(Debug)]
pub struct Tile {
    pub name: String,
    pub stereo_channel: StereoChannel,
    pub left_offset: i32,
    pub top_offset: i32,
    pub window_left: i32,
    pub window_top: i32,
    pub window_width: u32,
    pub window_height: u32,
}

/// A tile as a mathematical value.
pub ghost struct TileView {
    pub name: Seq<char>,
    pub stereo_channel: StereoChannel,
    pub left_offset: i32,
    pub top_offset: i32,
    pub window_left: i32,
    pub window_top: i32,
    pub window_width: u32,
    pub window_height: u32,
}

impl View for Tile {
    type V = TileView;

    open spec fn view(&self) -> TileView {
        TileView {
            name: self.name@,
            stereo_channel: self.stereo_channel,
            left_offset: self.left_offset,
            top_offset: self.top_offset,
            window_left: self.window_left,
            window_top: self.window_top,
            window_width: self.window_width,
            window_height: self.window_height,
        }
    }
}

impl Clone for Tile {
    fn clone(&self) -> (r: Tile)
        ensures
            r@ == self@,
    {
        Tile {
            name: self.name.clone(),
            stereo_channel: self.stereo_channel,
            left_offset: self.left_offset,
            top_offset: self.top_offset,
            window_left: self.window_left,
            window_top: self.window_top,
            window_width: self.window_width,
            window_height: self.window_height,
        }
    }
}

impl Tile {
    /// Position of the tile's top-left corner within the canvas.
    pub fn offset(&self) -> (r: (i32, i32))
        ensures
            r == (self.left_offset, self.top_offset),
    {
        (self.left_offset, self.top_offset)
    }

    /// Size of the tile's window in pixels.
    pub fn size(&self) -> (r: (u32, u32))
        ensures
            r == (self.window_width, self.window_height),
    {
        (self.window_width, self.window_height)
    }
}

/// One computer of the cluster, with the tiles it drives.
#[derive(Debug)]
pub struct Machine {
    pub identity: String,
    pub tiles: Vec<Tile>,
}

pub ghost struct MachineView {
    pub identity: Seq<char>,
    pub tiles: Seq<TileView>,
}

impl View for Machine {
    type V = MachineView;

    open spec fn view(&self) -> MachineView {
        MachineView { identity: self.identity@, tiles: self.tiles@.map_values(|t: Tile| t@) }
    }
}

/// The whole virtual canvas and the machines that share it.
#[derive(Debug)]
pub struct TiledDisplay {
    pub machines: Vec<Machine>,
    pub name: String,
    pub width: u32,
    pub height: u32,
}

pub ghost struct TiledDisplayView {
    pub machines: Seq<MachineView>,
    pub name: Seq<char>,
    pub width: u32,
    pub height: u32,
}

impl View for TiledDisplay {
    type V = TiledDisplayView;

    open spec fn view(&self) -> TiledDisplayView {
        TiledDisplayView {
            machines: self.machines@.map_values(|m: Machine| m@),
            name: self.name@,
            width: self.width,
            height: self.height,
        }
    }
}

impl TiledDisplay {
    /// Size of the full canvas in pixels.
    pub fn size(&self) -> (r: (u32, u32))
        ensures
            r == (self.width, self.height),
    {
        (self.width, self.height)
    }
}

} // verus!
