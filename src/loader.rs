//! The layout loader: turns the events of a layout document into a
//! `TiledDisplay`.
//!
//! The document has a root element holding `Name`, `Width`, `Height` and a
//! `Machines` wrapper; each child of the wrapper is a machine with
//! `Identity` and a `Tiles` wrapper; each child of that is a tile with
//! `Name`, `StereoChannel`, `LeftOffset`, `TopOffset`, `WindowLeft`,
//! `WindowTop`, `WindowWidth` and `WindowHeight`. Fields come in any order;
//! an absent wrapper is an empty list; unknown elements are skipped.
use vstd::prelude::*;

use crate::layout::{
    Machine, MachineView, StereoChannel, Tile, TileView, TiledDisplay, TiledDisplayView,
};
use crate::number::{i32_text, parse_i32, parse_u32, u32_text};
use crate::plugin::str_eq;
use crate::xml::{read_events, xml_events, XmlEvent, XmlEventView};

verus! {

/// A field of the layout schema.
#[derive(Debug, Clone, Copy, PartialEq, Eq, Structural)]
pub enum Field {
    DisplayName,
    Width,
    Height,
    Machines,
    Identity,
    Tiles,
    TileName,
    StereoChannel,
    LeftOffset,
    TopOffset,
    WindowLeft,
    WindowTop,
    WindowWidth,
    WindowHeight,
}

/// What is wrong with the structure of a layout document.
#[derive(Debug, Clone, Copy, PartialEq, Eq, Structural)]
pub enum SchemaFault {
    /// The document is not well-formed XML.
    Malformed,
    /// The document ends before its root element is closed.
    Truncated,
    /// A required field is absent.
    MissingField(Field),
    /// A field is given twice in one record.
    DuplicateField(Field),
    /// A field's text is not a value of its type.
    InvalidValue(Field),
    /// A field holds more than one piece of text.
    UnexpectedText(Field),
    /// Something follows the root element.
    TrailingContent,
}

/// Why a layout could not be loaded.
#[derive(Debug)]
pub enum LoadError {
    /// The file could not be read; the message says why.
    Io(String),
    /// The document does not have the layout's structure.
    Schema(SchemaFault),
}

/// A record of the schema: the level at which fields are looked up.
#[derive(Debug, Clone, Copy, PartialEq, Eq, Structural)]
pub enum Level {
    Root,
    Machine,
    Tile,
}

/// Where the parser stands in the document.
#[derive(Debug, Clone, Copy, PartialEq, Eq, Structural)]
pub enum Ctx {
    /// Before the root element.
    Before,
    /// Among the fields of a record.
    InRecord(Level),
    /// Inside the `Machines` wrapper.
    InMachines,
    /// Inside a `Tiles` wrapper.
    InTiles,
    /// Inside the element of a scalar field.
    InField(Field),
    /// Inside an unknown element of a record, this many levels down.
    Skip(usize, Level),
    /// After the root element.
    After,
}

/// A tile whose fields are being read.
pub ghost struct PartialTileView {
    pub name: Option<Seq<char>>,
    pub stereo_channel: Option<StereoChannel>,
    pub left_offset: Option<i32>,
    pub top_offset: Option<i32>,
    pub window_left: Option<i32>,
    pub window_top: Option<i32>,
    pub window_width: Option<u32>,
    pub window_height: Option<u32>,
}

/// The parser's state as a mathematical value.
pub ghost struct ParserView {
    pub ctx: Ctx,
    pub text: Option<Seq<char>>,
    pub name: Option<Seq<char>>,
    pub width: Option<u32>,
    pub height: Option<u32>,
    pub machines_seen: bool,
    pub machines: Seq<MachineView>,
    pub identity: Option<Seq<char>>,
    pub tiles_seen: bool,
    pub tiles: Seq<TileView>,
    pub tile: PartialTileView,
}

pub open spec fn empty_tile() -> PartialTileView {
    PartialTileView {
        name: None,
        stereo_channel: None,
        left_offset: None,
        top_offset: None,
        window_left: None,
        window_top: None,
        window_width: None,
        window_height: None,
    }
}

pub open spec fn initial() -> ParserView {
    ParserView {
        ctx: Ctx::Before,
        text: None,
        name: None,
        width: None,
        height: None,
        machines_seen: false,
        machines: Seq::empty(),
        identity: None,
        tiles_seen: false,
        tiles: Seq::empty(),
        tile: empty_tile(),
    }
}

/// The field that an element of this name is at this level.
pub open spec fn field_named(level: Level, n: Seq<char>) -> Option<Field> {
    match level {
        Level::Root => if n == "Name"@ {
            Some(Field::DisplayName)
        } else if n == "Width"@ {
            Some(Field::Width)
        } else if n == "Height"@ {
            Some(Field::Height)
        } else if n == "Machines"@ {
            Some(Field::Machines)
        } else {
            None
        },
        Level::Machine => if n == "Identity"@ {
            Some(Field::Identity)
        } else if n == "Tiles"@ {
            Some(Field::Tiles)
        } else {
            None
        },
        Level::Tile => if n == "Name"@ {
            Some(Field::TileName)
        } else if n == "StereoChannel"@ {
            Some(Field::StereoChannel)
        } else if n == "LeftOffset"@ {
            Some(Field::LeftOffset)
        } else if n == "TopOffset"@ {
            Some(Field::TopOffset)
        } else if n == "WindowLeft"@ {
            Some(Field::WindowLeft)
        } else if n == "WindowTop"@ {
            Some(Field::WindowTop)
        } else if n == "WindowWidth"@ {
            Some(Field::WindowWidth)
        } else if n == "WindowHeight"@ {
            Some(Field::WindowHeight)
        } else {
            None
        },
    }
}

/// The record that a field belongs to.
pub open spec fn field_level(f: Field) -> Level {
    match f {
        Field::DisplayName | Field::Width | Field::Height | Field::Machines => Level::Root,
        Field::Identity | Field::Tiles => Level::Machine,
        _ => Level::Tile,
    }
}

/// Whether the record being read already has this field.
pub open spec fn has_field(st: ParserView, f: Field) -> bool {
    match f {
        Field::DisplayName => st.name is Some,
        Field::Width => st.width is Some,
        Field::Height => st.height is Some,
        Field::Machines => st.machines_seen,
        Field::Identity => st.identity is Some,
        Field::Tiles => st.tiles_seen,
        Field::TileName => st.tile.name is Some,
        Field::StereoChannel => st.tile.stereo_channel is Some,
        Field::LeftOffset => st.tile.left_offset is Some,
        Field::TopOffset => st.tile.top_offset is Some,
        Field::WindowLeft => st.tile.window_left is Some,
        Field::WindowTop => st.tile.window_top is Some,
        Field::WindowWidth => st.tile.window_width is Some,
        Field::WindowHeight => st.tile.window_height is Some,
    }
}

/// The stereo channel that a text names.
pub open spec fn channel_text(s: Seq<char>) -> Option<StereoChannel> {
    if s == "Left"@ {
        Some(StereoChannel::Left)
    } else if s == "Right"@ {
        Some(StereoChannel::Right)
    } else {
        None
    }
}

/// A size: a positive unsigned decimal.
pub open spec fn size_text(s: Seq<char>) -> Option<u32> {
    match u32_text(s) {
        Some(v) => if v > 0 {
            Some(v)
        } else {
            None
        },
        None => None,
    }
}

/// Enters the element of field `f`, which must not be there yet.
pub open spec fn open_field(st: ParserView, f: Field) -> Result<ParserView, SchemaFault> {
    if has_field(st, f) {
        Err(SchemaFault::DuplicateField(f))
    } else {
        match f {
            Field::Machines => Ok(ParserView { ctx: Ctx::InMachines, machines_seen: true, ..st }),
            Field::Tiles => Ok(ParserView { ctx: Ctx::InTiles, tiles_seen: true, ..st }),
            _ => Ok(ParserView { ctx: Ctx::InField(f), text: None, ..st }),
        }
    }
}

/// Leaves the element of scalar field `f`, storing the value of its text.
pub open spec fn close_field(st: ParserView, f: Field) -> Result<ParserView, SchemaFault> {
    let t = match st.text {
        Some(t) => t,
        None => Seq::empty(),
    };
    let s = ParserView { ctx: Ctx::InRecord(field_level(f)), text: None, ..st };
    match f {
        Field::DisplayName => Ok(ParserView { name: Some(t), ..s }),
        Field::Identity => Ok(ParserView { identity: Some(t), ..s }),
        Field::TileName => Ok(ParserView { tile: PartialTileView { name: Some(t), ..s.tile }, ..s }),
        Field::Width => match size_text(t) {
            Some(v) => Ok(ParserView { width: Some(v), ..s }),
            None => Err(SchemaFault::InvalidValue(f)),
        },
        Field::Height => match size_text(t) {
            Some(v) => Ok(ParserView { height: Some(v), ..s }),
            None => Err(SchemaFault::InvalidValue(f)),
        },
        Field::StereoChannel => match channel_text(t) {
            Some(v) => Ok(
                ParserView { tile: PartialTileView { stereo_channel: Some(v), ..s.tile }, ..s },
            ),
            None => Err(SchemaFault::InvalidValue(f)),
        },
        Field::LeftOffset => match i32_text(t) {
            Some(v) => Ok(
                ParserView { tile: PartialTileView { left_offset: Some(v), ..s.tile }, ..s },
            ),
            None => Err(SchemaFault::InvalidValue(f)),
        },
        Field::TopOffset => match i32_text(t) {
            Some(v) => Ok(ParserView { tile: PartialTileView { top_offset: Some(v), ..s.tile }, ..s }),
            None => Err(SchemaFault::InvalidValue(f)),
        },
        Field::WindowLeft => match i32_text(t) {
            Some(v) => Ok(
                ParserView { tile: PartialTileView { window_left: Some(v), ..s.tile }, ..s },
            ),
            None => Err(SchemaFault::InvalidValue(f)),
        },
        Field::WindowTop => match i32_text(t) {
            Some(v) => Ok(ParserView { tile: PartialTileView { window_top: Some(v), ..s.tile }, ..s }),
            None => Err(SchemaFault::InvalidValue(f)),
        },
        Field::WindowWidth => match size_text(t) {
            Some(v) => Ok(
                ParserView { tile: PartialTileView { window_width: Some(v), ..s.tile }, ..s },
            ),
            None => Err(SchemaFault::InvalidValue(f)),
        },
        Field::WindowHeight => match size_text(t) {
            Some(v) => Ok(
                ParserView { tile: PartialTileView { window_height: Some(v), ..s.tile }, ..s },
            ),
            None => Err(SchemaFault::InvalidValue(f)),
        },
        _ => Ok(s),
    }
}

/// The tile read so far, if it has every field.
pub open spec fn finished_tile(t: PartialTileView) -> Result<TileView, SchemaFault> {
    if t.name is None {
        Err(SchemaFault::MissingField(Field::TileName))
    } else if t.stereo_channel is None {
        Err(SchemaFault::MissingField(Field::StereoChannel))
    } else if t.left_offset is None {
        Err(SchemaFault::MissingField(Field::LeftOffset))
    } else if t.top_offset is None {
        Err(SchemaFault::MissingField(Field::TopOffset))
    } else if t.window_left is None {
        Err(SchemaFault::MissingField(Field::WindowLeft))
    } else if t.window_top is None {
        Err(SchemaFault::MissingField(Field::WindowTop))
    } else if t.window_width is None {
        Err(SchemaFault::MissingField(Field::WindowWidth))
    } else if t.window_height is None {
        Err(SchemaFault::MissingField(Field::WindowHeight))
    } else {
        Ok(
            TileView {
                name: t.name->Some_0,
                stereo_channel: t.stereo_channel->Some_0,
                left_offset: t.left_offset->Some_0,
                top_offset: t.top_offset->Some_0,
                window_left: t.window_left->Some_0,
                window_top: t.window_top->Some_0,
                window_width: t.window_width->Some_0,
                window_height: t.window_height->Some_0,
            },
        )
    }
}

/// Leaves a record: the root ends the document, a machine or a tile is
/// appended to its list.
pub open spec fn close_record(st: ParserView, level: Level) -> Result<ParserView, SchemaFault> {
    match level {
        Level::Root => Ok(ParserView { ctx: Ctx::After, ..st }),
        Level::Machine => match st.identity {
            Some(id) => Ok(
                ParserView {
                    ctx: Ctx::InMachines,
                    machines: st.machines.push(MachineView { identity: id, tiles: st.tiles }),
                    identity: None,
                    tiles_seen: false,
                    tiles: Seq::empty(),
                    ..st
                },
            ),
            None => Err(SchemaFault::MissingField(Field::Identity)),
        },
        Level::Tile => match finished_tile(st.tile) {
            Ok(t) => Ok(ParserView { ctx: Ctx::InTiles, tiles: st.tiles.push(t), tile: empty_tile(), ..st }),
            Err(e) => Err(e),
        },
    }
}

/// Enters a new machine or tile record.
pub open spec fn open_record(st: ParserView, level: Level) -> ParserView {
    match level {
        Level::Machine => ParserView {
            ctx: Ctx::InRecord(Level::Machine),
            identity: None,
            tiles_seen: false,
            tiles: Seq::empty(),
            ..st
        },
        Level::Tile => ParserView { ctx: Ctx::InRecord(Level::Tile), tile: empty_tile(), ..st },
        Level::Root => ParserView { ctx: Ctx::InRecord(Level::Root), ..st },
    }
}

pub open spec fn and_then(
    r: Result<ParserView, SchemaFault>,
    f: spec_fn(ParserView) -> Result<ParserView, SchemaFault>,
) -> Result<ParserView, SchemaFault> {
    match r {
        Ok(s) => f(s),
        Err(e) => Err(e),
    }
}

/// An event among the fields of a record.
pub open spec fn step_record(st: ParserView, level: Level, e: XmlEventView) -> Result<
    ParserView,
    SchemaFault,
> {
    match e {
        XmlEventView::Start(n) => match field_named(level, n) {
            Some(f) => open_field(st, f),
            None => Ok(ParserView { ctx: Ctx::Skip(0, level), ..st }),
        },
        XmlEventView::Empty(n) => match field_named(level, n) {
            Some(f) => match f {
                Field::Machines | Field::Tiles => and_then(
                    open_field(st, f),
                    |s: ParserView| Ok(ParserView { ctx: st.ctx, ..s }),
                ),
                _ => and_then(open_field(st, f), |s: ParserView| close_field(s, f)),
            },
            None => Ok(st),
        },
        XmlEventView::End(_) => close_record(st, level),
        XmlEventView::Malformed => Err(SchemaFault::Malformed),
        _ => Ok(st),
    }
}

/// An event inside a wrapper whose children are records of `level`.
pub open spec fn step_list(st: ParserView, level: Level, e: XmlEventView) -> Result<
    ParserView,
    SchemaFault,
> {
    match e {
        XmlEventView::Start(_) => Ok(open_record(st, level)),
        XmlEventView::Empty(_) => close_record(open_record(st, level), level),
        XmlEventView::End(_) => Ok(
            ParserView {
                ctx: Ctx::InRecord(
                    if level == Level::Machine {
                        Level::Root
                    } else {
                        Level::Machine
                    },
                ),
                ..st
            },
        ),
        XmlEventView::Malformed => Err(SchemaFault::Malformed),
        _ => Ok(st),
    }
}

/// One event of the document.
pub open spec fn step(st: ParserView, e: XmlEventView) -> Result<ParserView, SchemaFault> {
    match st.ctx {
        Ctx::Before => match e {
            XmlEventView::Start(_) => Ok(ParserView { ctx: Ctx::InRecord(Level::Root), ..st }),
            XmlEventView::Empty(_) => Ok(ParserView { ctx: Ctx::After, ..st }),
            XmlEventView::End(_) | XmlEventView::Malformed => Err(SchemaFault::Malformed),
            _ => Ok(st),
        },
        Ctx::After => match e {
            XmlEventView::Start(_) | XmlEventView::Empty(_) => Err(SchemaFault::TrailingContent),
            XmlEventView::End(_) | XmlEventView::Malformed => Err(SchemaFault::Malformed),
            _ => Ok(st),
        },
        Ctx::InRecord(level) => step_record(st, level, e),
        Ctx::InMachines => step_list(st, Level::Machine, e),
        Ctx::InTiles => step_list(st, Level::Tile, e),
        Ctx::InField(f) => match e {
            XmlEventView::Text(t) => if st.text is Some {
                Err(SchemaFault::UnexpectedText(f))
            } else {
                Ok(ParserView { text: Some(t), ..st })
            },
            XmlEventView::Start(_) | XmlEventView::Empty(_) => Err(SchemaFault::InvalidValue(f)),
            XmlEventView::End(_) => close_field(st, f),
            XmlEventView::Malformed => Err(SchemaFault::Malformed),
            _ => Ok(st),
        },
        Ctx::Skip(depth, level) => match e {
            XmlEventView::Start(_) => Ok(ParserView { ctx: Ctx::Skip((depth + 1) as usize, level), ..st }),
            XmlEventView::End(_) => if depth == 0 {
                Ok(ParserView { ctx: Ctx::InRecord(level), ..st })
            } else {
                Ok(ParserView { ctx: Ctx::Skip((depth - 1) as usize, level), ..st })
            },
            XmlEventView::Malformed => Err(SchemaFault::Malformed),
            _ => Ok(st),
        },
    }
}

/// The parser's state after a sequence of events.
pub open spec fn run(evs: Seq<XmlEventView>) -> Result<ParserView, SchemaFault>
    decreases evs.len(),
{
    if evs.len() == 0 {
        Ok(initial())
    } else {
        match run(evs.drop_last()) {
            Ok(s) => step(s, evs.last()),
            Err(e) => Err(e),
        }
    }
}

/// The layout once the whole document has been read.
pub open spec fn finish(st: ParserView) -> Result<TiledDisplayView, SchemaFault> {
    if st.ctx != Ctx::After {
        Err(SchemaFault::Truncated)
    } else if st.name is None {
        Err(SchemaFault::MissingField(Field::DisplayName))
    } else if st.width is None {
        Err(SchemaFault::MissingField(Field::Width))
    } else if st.height is None {
        Err(SchemaFault::MissingField(Field::Height))
    } else {
        Ok(
            TiledDisplayView {
                machines: st.machines,
                name: st.name->Some_0,
                width: st.width->Some_0,
                height: st.height->Some_0,
            },
        )
    }
}

/// The layout that a sequence of document events describes.
pub open spec fn layout_of_events(evs: Seq<XmlEventView>) -> Result<TiledDisplayView, SchemaFault> {
    match run(evs) {
        Ok(s) => finish(s),
        Err(e) => Err(e),
    }
}

pub open spec fn opt_view(o: Option<String>) -> Option<Seq<char>> {
    match o {
        Some(s) => Some(s@),
        None => None,
    }
}

/// A tile whose fields are being read.
pub struct PartialTile {
    pub name: Option<String>,
    pub stereo_channel: Option<StereoChannel>,
    pub left_offset: Option<i32>,
    pub top_offset: Option<i32>,
    pub window_left: Option<i32>,
    pub window_top: Option<i32>,
    pub window_width: Option<u32>,
    pub window_height: Option<u32>,
}

impl View for PartialTile {
    type V = PartialTileView;

    open spec fn view(&self) -> PartialTileView {
        PartialTileView {
            name: opt_view(self.name),
            stereo_channel: self.stereo_channel,
            left_offset: self.left_offset,
            top_offset: self.top_offset,
            window_left: self.window_left,
            window_top: self.window_top,
            window_width: self.window_width,
            window_height: self.window_height,
        }
    }
}

impl PartialTile {
    pub fn new() -> (r: PartialTile)
        ensures
            r@ == empty_tile(),
    {
        PartialTile {
            name: None,
            stereo_channel: None,
            left_offset: None,
            top_offset: None,
            window_left: None,
            window_top: None,
            window_width: None,
            window_height: None,
        }
    }

    /// The tile, if every field has been read.
    pub fn finish(self) -> (r: Result<Tile, SchemaFault>)
        ensures
            match (r, finished_tile(self@)) {
                (Ok(t), Ok(v)) => t@ == v,
                (Err(a), Err(b)) => a == b,
                _ => false,
            },
    {
        match (
            self.name,
            self.stereo_channel,
            self.left_offset,
            self.top_offset,
            self.window_left,
            self.window_top,
            self.window_width,
            self.window_height,
        ) {
            (Some(name), Some(c), Some(lo), Some(to), Some(wl), Some(wt), Some(ww), Some(wh)) => Ok(
                Tile {
                    name,
                    stereo_channel: c,
                    left_offset: lo,
                    top_offset: to,
                    window_left: wl,
                    window_top: wt,
                    window_width: ww,
                    window_height: wh,
                },
            ),
            (None, _, _, _, _, _, _, _) => Err(SchemaFault::MissingField(Field::TileName)),
            (_, None, _, _, _, _, _, _) => Err(SchemaFault::MissingField(Field::StereoChannel)),
            (_, _, None, _, _, _, _, _) => Err(SchemaFault::MissingField(Field::LeftOffset)),
            (_, _, _, None, _, _, _, _) => Err(SchemaFault::MissingField(Field::TopOffset)),
            (_, _, _, _, None, _, _, _) => Err(SchemaFault::MissingField(Field::WindowLeft)),
            (_, _, _, _, _, None, _, _) => Err(SchemaFault::MissingField(Field::WindowTop)),
            (_, _, _, _, _, _, None, _) => Err(SchemaFault::MissingField(Field::WindowWidth)),
            (_, _, _, _, _, _, _, None) => Err(SchemaFault::MissingField(Field::WindowHeight)),
        }
    }
}

/// The state of the layout parser between two events.
pub struct Parser {
    pub ctx: Ctx,
    pub text: Option<String>,
    pub name: Option<String>,
    pub width: Option<u32>,
    pub height: Option<u32>,
    pub machines_seen: bool,
    pub machines: Vec<Machine>,
    pub identity: Option<String>,
    pub tiles_seen: bool,
    pub tiles: Vec<Tile>,
    pub tile: PartialTile,
}

impl View for Parser {
    type V = ParserView;

    open spec fn view(&self) -> ParserView {
        ParserView {
            ctx: self.ctx,
            text: opt_view(self.text),
            name: opt_view(self.name),
            width: self.width,
            height: self.height,
            machines_seen: self.machines_seen,
            machines: self.machines@.map_values(|m: Machine| m@),
            identity: opt_view(self.identity),
            tiles_seen: self.tiles_seen,
            tiles: self.tiles@.map_values(|t: Tile| t@),
            tile: self.tile@,
        }
    }
}

/// The parser's result agrees with the model's.
pub open spec fn agrees(r: Result<Parser, SchemaFault>, m: Result<ParserView, SchemaFault>) -> bool {
    match (r, m) {
        (Ok(p), Ok(v)) => p@ == v,
        (Err(a), Err(b)) => a == b,
        _ => false,
    }
}

/// No skipped element nests deeper than `bound`.
pub open spec fn depth_within(ctx: Ctx, bound: int) -> bool {
    match ctx {
        Ctx::Skip(d, _) => d <= bound,
        _ => true,
    }
}

/// The field that an element of this name is at this level.
pub fn field_of(level: Level, n: &str) -> (r: Option<Field>)
    ensures
        r == field_named(level, n@),
{
    match level {
        Level::Root => if str_eq(n, "Name") {
            Some(Field::DisplayName)
        } else if str_eq(n, "Width") {
            Some(Field::Width)
        } else if str_eq(n, "Height") {
            Some(Field::Height)
        } else if str_eq(n, "Machines") {
            Some(Field::Machines)
        } else {
            None
        },
        Level::Machine => if str_eq(n, "Identity") {
            Some(Field::Identity)
        } else if str_eq(n, "Tiles") {
            Some(Field::Tiles)
        } else {
            None
        },
        Level::Tile => if str_eq(n, "Name") {
            Some(Field::TileName)
        } else if str_eq(n, "StereoChannel") {
            Some(Field::StereoChannel)
        } else if str_eq(n, "LeftOffset") {
            Some(Field::LeftOffset)
        } else if str_eq(n, "TopOffset") {
            Some(Field::TopOffset)
        } else if str_eq(n, "WindowLeft") {
            Some(Field::WindowLeft)
        } else if str_eq(n, "WindowTop") {
            Some(Field::WindowTop)
        } else if str_eq(n, "WindowWidth") {
            Some(Field::WindowWidth)
        } else if str_eq(n, "WindowHeight") {
            Some(Field::WindowHeight)
        } else {
            None
        },
    }
}

/// Reads a stereo channel by its name.
pub fn parse_channel(s: &str) -> (r: Option<StereoChannel>)
    ensures
        r == channel_text(s@),
{
    if str_eq(s, "Left") {
        Some(StereoChannel::Left)
    } else if str_eq(s, "Right") {
        Some(StereoChannel::Right)
    } else {
        None
    }
}

/// Reads a size: a positive unsigned decimal.
pub fn parse_size(s: &str) -> (r: Option<u32>)
    ensures
        r == size_text(s@),
{
    match parse_u32(s) {
        Some(v) => if v > 0 {
            Some(v)
        } else {
            None
        },
        None => None,
    }
}

impl Parser {
    pub fn new() -> (r: Parser)
        ensures
            r@ == initial(),
    {
        let r = Parser {
            ctx: Ctx::Before,
            text: None,
            name: None,
            width: None,
            height: None,
            machines_seen: false,
            machines: Vec::new(),
            identity: None,
            tiles_seen: false,
            tiles: Vec::new(),
            tile: PartialTile::new(),
        };
        assert(r@.machines =~= Seq::empty());
        assert(r@.tiles =~= Seq::empty());
        r
    }

    fn has_field(&self, f: Field) -> (r: bool)
        ensures
            r == has_field(self@, f),
    {
        match f {
            Field::DisplayName => self.name.is_some(),
            Field::Width => self.width.is_some(),
            Field::Height => self.height.is_some(),
            Field::Machines => self.machines_seen,
            Field::Identity => self.identity.is_some(),
            Field::Tiles => self.tiles_seen,
            Field::TileName => self.tile.name.is_some(),
            Field::StereoChannel => self.tile.stereo_channel.is_some(),
            Field::LeftOffset => self.tile.left_offset.is_some(),
            Field::TopOffset => self.tile.top_offset.is_some(),
            Field::WindowLeft => self.tile.window_left.is_some(),
            Field::WindowTop => self.tile.window_top.is_some(),
            Field::WindowWidth => self.tile.window_width.is_some(),
            Field::WindowHeight => self.tile.window_height.is_some(),
        }
    }

    fn open_field(self, f: Field) -> (r: Result<Parser, SchemaFault>)
        ensures
            agrees(r, open_field(self@, f)),
    {
        if self.has_field(f) {
            return Err(SchemaFault::DuplicateField(f));
        }
        let mut s = self;
        match f {
            Field::Machines => {
                s.ctx = Ctx::InMachines;
                s.machines_seen = true;
            },
            Field::Tiles => {
                s.ctx = Ctx::InTiles;
                s.tiles_seen = true;
            },
            _ => {
                s.ctx = Ctx::InField(f);
                s.text = None;
            },
        }
        Ok(s)
    }

    fn close_field(self, f: Field) -> (r: Result<Parser, SchemaFault>)
        ensures
            agrees(r, close_field(self@, f)),
    {
        let mut s = self;
        let t = match s.text.take() {
            Some(t) => t,
            None => String::new(),
        };
        s.ctx = Ctx::InRecord(
            match f {
                Field::DisplayName | Field::Width | Field::Height | Field::Machines => Level::Root,
                Field::Identity | Field::Tiles => Level::Machine,
                _ => Level::Tile,
            },
        );
        match f {
            Field::DisplayName => s.name = Some(t),
            Field::Identity => s.identity = Some(t),
            Field::TileName => s.tile.name = Some(t),
            Field::Width => match parse_size(t.as_str()) {
                Some(v) => s.width = Some(v),
                None => return Err(SchemaFault::InvalidValue(f)),
            },
            Field::Height => match parse_size(t.as_str()) {
                Some(v) => s.height = Some(v),
                None => return Err(SchemaFault::InvalidValue(f)),
            },
            Field::StereoChannel => match parse_channel(t.as_str()) {
                Some(v) => s.tile.stereo_channel = Some(v),
                None => return Err(SchemaFault::InvalidValue(f)),
            },
            Field::LeftOffset => match parse_i32(t.as_str()) {
                Some(v) => s.tile.left_offset = Some(v),
                None => return Err(SchemaFault::InvalidValue(f)),
            },
            Field::TopOffset => match parse_i32(t.as_str()) {
                Some(v) => s.tile.top_offset = Some(v),
                None => return Err(SchemaFault::InvalidValue(f)),
            },
            Field::WindowLeft => match parse_i32(t.as_str()) {
                Some(v) => s.tile.window_left = Some(v),
                None => return Err(SchemaFault::InvalidValue(f)),
            },
            Field::WindowTop => match parse_i32(t.as_str()) {
                Some(v) => s.tile.window_top = Some(v),
                None => return Err(SchemaFault::InvalidValue(f)),
            },
            Field::WindowWidth => match parse_size(t.as_str()) {
                Some(v) => s.tile.window_width = Some(v),
                None => return Err(SchemaFault::InvalidValue(f)),
            },
            Field::WindowHeight => match parse_size(t.as_str()) {
                Some(v) => s.tile.window_height = Some(v),
                None => return Err(SchemaFault::InvalidValue(f)),
            },
            _ => {},
        }
        Ok(s)
    }

    fn open_record(self, level: Level) -> (r: Parser)
        ensures
            r@ == open_record(self@, level),
    {
        let mut s = self;
        s.ctx = Ctx::InRecord(level);
        match level {
            Level::Machine => {
                s.identity = None;
                s.tiles_seen = false;
                s.tiles = Vec::new();
                assert(s@.tiles =~= Seq::empty());
            },
            Level::Tile => s.tile = PartialTile::new(),
            Level::Root => {},
        }
        s
    }

    fn close_record(self, level: Level) -> (r: Result<Parser, SchemaFault>)
        ensures
            agrees(r, close_record(self@, level)),
    {
        let mut s = self;
        match level {
            Level::Root => {
                s.ctx = Ctx::After;
                Ok(s)
            },
            Level::Machine => match s.identity.take() {
                Some(id) => {
                    let ghost old_machines = s@.machines;
                    let ghost old_tiles = s@.tiles;
                    let mut tiles = Vec::new();
                    std::mem::swap(&mut s.tiles, &mut tiles);
                    let m = Machine { identity: id, tiles };
                    assert(m@.tiles == old_tiles);
                    s.machines.push(m);
                    assert(s@.machines =~= old_machines.push(m@));
                    assert(s@.tiles =~= Seq::empty());
                    s.tiles_seen = false;
                    s.ctx = Ctx::InMachines;
                    Ok(s)
                },
                None => Err(SchemaFault::MissingField(Field::Identity)),
            },
            Level::Tile => {
                let mut t = PartialTile::new();
                std::mem::swap(&mut s.tile, &mut t);
                match t.finish() {
                    Ok(t) => {
                        let ghost old_tiles = s@.tiles;
                        s.tiles.push(t);
                        assert(s@.tiles =~= old_tiles.push(t@));
                        s.ctx = Ctx::InTiles;
                        Ok(s)
                    },
                    Err(e) => Err(e),
                }
            },
        }
    }

    fn step_record(self, level: Level, e: XmlEvent) -> (r: Result<Parser, SchemaFault>)
        ensures
            agrees(r, step_record(self@, level, e@)),
    {
        match e {
            XmlEvent::Start(n) => match field_of(level, n.as_str()) {
                Some(f) => self.open_field(f),
                None => {
                    let mut s = self;
                    s.ctx = Ctx::Skip(0, level);
                    Ok(s)
                },
            },
            XmlEvent::Empty(n) => match field_of(level, n.as_str()) {
                Some(f) => match f {
                    Field::Machines | Field::Tiles => {
                        let ctx = self.ctx;
                        match self.open_field(f) {
                            Ok(mut s) => {
                                s.ctx = ctx;
                                Ok(s)
                            },
                            Err(e) => Err(e),
                        }
                    },
                    _ => match self.open_field(f) {
                        Ok(s) => s.close_field(f),
                        Err(e) => Err(e),
                    },
                },
                None => Ok(self),
            },
            XmlEvent::End(_) => self.close_record(level),
            XmlEvent::Malformed => Err(SchemaFault::Malformed),
            _ => Ok(self),
        }
    }

    fn step_list(self, level: Level, e: XmlEvent) -> (r: Result<Parser, SchemaFault>)
        ensures
            agrees(r, step_list(self@, level, e@)),
    {
        match e {
            XmlEvent::Start(_) => Ok(self.open_record(level)),
            XmlEvent::Empty(_) => self.open_record(level).close_record(level),
            XmlEvent::End(_) => {
                let mut s = self;
                s.ctx = Ctx::InRecord(
                    if level == Level::Machine {
                        Level::Root
                    } else {
                        Level::Machine
                    },
                );
                Ok(s)
            },
            XmlEvent::Malformed => Err(SchemaFault::Malformed),
            _ => Ok(self),
        }
    }

    /// Takes one event of the document.
    pub fn step(self, e: XmlEvent) -> (r: Result<Parser, SchemaFault>)
        requires
            depth_within(self.ctx, usize::MAX - 1),
        ensures
            agrees(r, step(self@, e@)),
    {
        let mut s = self;
        match s.ctx {
            Ctx::Before => match e {
                XmlEvent::Start(_) => {
                    s.ctx = Ctx::InRecord(Level::Root);
                    Ok(s)
                },
                XmlEvent::Empty(_) => {
                    s.ctx = Ctx::After;
                    Ok(s)
                },
                XmlEvent::End(_) | XmlEvent::Malformed => Err(SchemaFault::Malformed),
                _ => Ok(s),
            },
            Ctx::After => match e {
                XmlEvent::Start(_) | XmlEvent::Empty(_) => Err(SchemaFault::TrailingContent),
                XmlEvent::End(_) | XmlEvent::Malformed => Err(SchemaFault::Malformed),
                _ => Ok(s),
            },
            Ctx::InRecord(level) => s.step_record(level, e),
            Ctx::InMachines => s.step_list(Level::Machine, e),
            Ctx::InTiles => s.step_list(Level::Tile, e),
            Ctx::InField(f) => match e {
                XmlEvent::Text(t) => if s.text.is_some() {
                    Err(SchemaFault::UnexpectedText(f))
                } else {
                    s.text = Some(t);
                    Ok(s)
                },
                XmlEvent::Start(_) | XmlEvent::Empty(_) => Err(SchemaFault::InvalidValue(f)),
                XmlEvent::End(_) => s.close_field(f),
                XmlEvent::Malformed => Err(SchemaFault::Malformed),
                _ => Ok(s),
            },
            Ctx::Skip(depth, level) => match e {
                XmlEvent::Start(_) => {
                    s.ctx = Ctx::Skip(depth + 1, level);
                    Ok(s)
                },
                XmlEvent::End(_) => {
                    if depth == 0 {
                        s.ctx = Ctx::InRecord(level);
                    } else {
                        s.ctx = Ctx::Skip(depth - 1, level);
                    }
                    Ok(s)
                },
                XmlEvent::Malformed => Err(SchemaFault::Malformed),
                _ => Ok(s),
            },
        }
    }

    /// The layout, once the document has ended.
    pub fn finish(self) -> (r: Result<TiledDisplay, SchemaFault>)
        ensures
            match (r, finish(self@)) {
                (Ok(d), Ok(v)) => d@ == v,
                (Err(a), Err(b)) => a == b,
                _ => false,
            },
    {
        if self.ctx != Ctx::After {
            return Err(SchemaFault::Truncated);
        }
        match (self.name, self.width, self.height) {
            (Some(name), Some(width), Some(height)) => Ok(
                TiledDisplay { machines: self.machines, name, width, height },
            ),
            (None, _, _) => Err(SchemaFault::MissingField(Field::DisplayName)),
            (_, None, _) => Err(SchemaFault::MissingField(Field::Width)),
            (_, _, None) => Err(SchemaFault::MissingField(Field::Height)),
        }
    }
}

/// The views of a sequence of events.
pub open spec fn events_view(events: Seq<XmlEvent>) -> Seq<XmlEventView> {
    events.map_values(|e: XmlEvent| e@)
}

/// The loader's result agrees with the layout that the events describe.
pub open spec fn loaded_as(r: Result<TiledDisplay, LoadError>, m: Result<TiledDisplayView, SchemaFault>) -> bool {
    match (r, m) {
        (Ok(d), Ok(v)) => d@ == v,
        (Err(LoadError::Schema(a)), Err(b)) => a == b,
        _ => false,
    }
}

proof fn lemma_step_depth(st: ParserView, e: XmlEventView, bound: int)
    requires
        depth_within(st.ctx, bound),
        bound >= 0,
    ensures
        step(st, e) matches Ok(s) ==> depth_within(s.ctx, bound + 1),
{
}

proof fn lemma_run_fault_stays(evs: Seq<XmlEventView>, k: int)
    requires
        0 <= k <= evs.len(),
        run(evs.take(k)) is Err,
    ensures
        run(evs) == run(evs.take(k)),
    decreases evs.len() - k,
{
    if k < evs.len() {
        assert(evs.take(k + 1).drop_last() == evs.take(k));
        lemma_run_fault_stays(evs, k + 1);
    } else {
        assert(evs.take(k) == evs);
    }
}

/// Builds the layout that a sequence of document events describes.
pub fn parse_events(events: &Vec<XmlEvent>) -> (r: Result<TiledDisplay, LoadError>)
    ensures
        loaded_as(r, layout_of_events(events_view(events@))),
{
    let ghost evs = events_view(events@);
    let mut p = Parser::new();
    let mut i: usize = 0;
    assert(evs.take(0) =~= Seq::empty());
    while i < events.len()
        invariant
            evs == events_view(events@),
            i <= events.len(),
            run(evs.take(i as int)) == Ok::<ParserView, SchemaFault>(p@),
            depth_within(p.ctx, i as int),
        decreases events.len() - i,
    {
        let e = events[i].clone();
        proof {
            assert(evs.take(i + 1).drop_last() == evs.take(i as int));
            assert(evs.take(i + 1).last() == e@);
            lemma_step_depth(p@, e@, i as int);
        }
        match p.step(e) {
            Ok(next) => p = next,
            Err(f) => {
                proof {
                    lemma_run_fault_stays(evs, i + 1);
                }
                return Err(LoadError::Schema(f));
            },
        }
        i = i + 1;
    }
    assert(evs.take(i as int) == evs);
    match p.finish() {
        Ok(d) => Ok(d),
        Err(f) => Err(LoadError::Schema(f)),
    }
}

/// Loads a layout from the text of its XML document: the layout that the
/// document's events describe, or the schema fault that stops them; a
/// document that is not well-formed XML is refused as `Malformed`.
pub fn load_str(s: &str) -> (r: Result<TiledDisplay, LoadError>)
    ensures
        match xml_events(s@) {
            Some(evs) => loaded_as(r, layout_of_events(evs)),
            None => r matches Err(LoadError::Schema(SchemaFault::Malformed)),
        },
{
    match read_events(s) {
        Some(events) => parse_events(&events),
        None => Err(LoadError::Schema(SchemaFault::Malformed)),
    }
}

/// The two states differ at most in whether the `Machines` wrapper was seen.
pub open spec fn same_but_wrapper(a: ParserView, b: ParserView) -> bool {
    a == ParserView { machines_seen: true, ..b }
}

/// An event that is no `Machines` element.
pub open spec fn not_machines_tag(e: XmlEventView) -> bool {
    e != XmlEventView::Start("Machines"@) && e != XmlEventView::Empty("Machines"@)
}

proof fn lemma_step_ignores_wrapper(a: ParserView, b: ParserView, e: XmlEventView)
    requires
        same_but_wrapper(a, b),
        not_machines_tag(e),
    ensures
        match (step(a, e), step(b, e)) {
            (Ok(x), Ok(y)) => same_but_wrapper(x, y),
            (Err(x), Err(y)) => x == y,
            _ => false,
        },
{
    match e {
        XmlEventView::Start(n) => {
            if a.ctx == Ctx::InRecord(Level::Root) {
                assert(field_named(Level::Root, n) != Some(Field::Machines));
            }
        },
        XmlEventView::Empty(n) => {
            if a.ctx == Ctx::InRecord(Level::Root) {
                assert(field_named(Level::Root, n) != Some(Field::Machines));
            }
        },
        _ => {},
    }
}

proof fn lemma_run_ignores_wrapper(
    pa: Seq<XmlEventView>,
    pb: Seq<XmlEventView>,
    post: Seq<XmlEventView>,
)
    requires
        match (run(pa), run(pb)) {
            (Ok(x), Ok(y)) => same_but_wrapper(x, y),
            _ => false,
        },
        forall|i: int| 0 <= i < post.len() ==> not_machines_tag(#[trigger] post[i]),
    ensures
        match (run(pa + post), run(pb + post)) {
            (Ok(x), Ok(y)) => same_but_wrapper(x, y),
            (Err(x), Err(y)) => x == y,
            _ => false,
        },
    decreases post.len(),
{
    if post.len() == 0 {
        assert(pa + post == pa);
        assert(pb + post == pb);
    } else {
        let init = post.drop_last();
        lemma_run_ignores_wrapper(pa, pb, init);
        assert((pa + post).drop_last() == pa + init);
        assert((pb + post).drop_last() == pb + init);
        assert((pa + post).last() == post.last());
        assert((pb + post).last() == post.last());
        assert(not_machines_tag(post[post.len() - 1]));
        match (run(pa + init), run(pb + init)) {
            (Ok(x), Ok(y)) => lemma_step_ignores_wrapper(x, y, post.last()),
            _ => {},
        }
    }
}

/// A `Machines` wrapper with no machine in it, written open and closed or
/// self-closing.
pub open spec fn empty_machines_wrapper(self_closing: bool) -> Seq<XmlEventView> {
    if self_closing {
        seq![XmlEventView::Empty("Machines"@)]
    } else {
        seq![XmlEventView::Start("Machines"@), XmlEventView::End("Machines"@)]
    }
}

/// A place among the root's own fields.
pub open spec fn root_ctx(c: Ctx) -> bool {
    match c {
        Ctx::Before | Ctx::After | Ctx::InRecord(Level::Root) | Ctx::Skip(_, Level::Root) => true,
        Ctx::InField(f) => field_level(f) == Level::Root,
        _ => false,
    }
}

/// The events `before` are the start of a document that has reached the
/// root's fields, at any point among them, and holds no `Machines` wrapper.
pub open spec fn among_root_fields(before: Seq<XmlEventView>) -> bool {
    run(before) matches Ok(s) && s.ctx == Ctx::InRecord(Level::Root) && !s.machines_seen
}

proof fn lemma_step_before_wrapper(p: ParserView, e: XmlEventView)
    requires
        !p.machines_seen ==> root_ctx(p.ctx) && p.machines.len() == 0,
    ensures
        step(p, e) matches Ok(x) ==> {
            &&& p.machines_seen ==> x.machines_seen
            &&& !x.machines_seen ==> root_ctx(x.ctx) && x.machines.len() == 0
            &&& (!p.machines_seen && not_machines_tag(e)) ==> !x.machines_seen
        },
{
    match e {
        XmlEventView::Start(n) => {
            if p.ctx == Ctx::InRecord(Level::Root) && n != "Machines"@ {
                assert(field_named(Level::Root, n) != Some(Field::Machines));
            }
        },
        XmlEventView::Empty(n) => {
            if p.ctx == Ctx::InRecord(Level::Root) && n != "Machines"@ {
                assert(field_named(Level::Root, n) != Some(Field::Machines));
            }
        },
        _ => {},
    }
}

proof fn lemma_run_before_wrapper(evs: Seq<XmlEventView>)
    ensures
        run(evs) matches Ok(s) ==> (!s.machines_seen ==> root_ctx(s.ctx) && s.machines.len() == 0),
    decreases evs.len(),
{
    if evs.len() > 0 {
        lemma_run_before_wrapper(evs.drop_last());
        if let Ok(p) = run(evs.drop_last()) {
            lemma_step_before_wrapper(p, evs.last());
        }
    }
}

proof fn lemma_rest_adds_no_wrapper(before: Seq<XmlEventView>, rest: Seq<XmlEventView>)
    requires
        run(before) matches Ok(s) && !s.machines_seen,
        forall|i: int| 0 <= i < rest.len() ==> not_machines_tag(#[trigger] rest[i]),
    ensures
        run(before + rest) matches Ok(s) ==> !s.machines_seen && s.machines.len() == 0,
    decreases rest.len(),
{
    if rest.len() == 0 {
        assert(before + rest == before);
        lemma_run_before_wrapper(before);
    } else {
        let init = rest.drop_last();
        lemma_rest_adds_no_wrapper(before, init);
        assert((before + rest).drop_last() == before + init);
        assert((before + rest).last() == rest[rest.len() - 1]);
        lemma_run_before_wrapper(before + init);
        if let Ok(p) = run(before + init) {
            lemma_step_before_wrapper(p, rest[rest.len() - 1]);
        }
        lemma_run_before_wrapper(before + rest);
    }
}

/// A document that holds an empty `Machines` wrapper at any point among
/// the root's fields loads exactly as the same document without it,
/// whatever else it holds; where it loads, it has no machine.
pub proof fn lemma_empty_wrapper_same_as_none(
    before: Seq<XmlEventView>,
    rest: Seq<XmlEventView>,
    self_closing: bool,
)
    requires
        among_root_fields(before),
        forall|i: int| 0 <= i < rest.len() ==> not_machines_tag(#[trigger] rest[i]),
    ensures
        layout_of_events(before + empty_machines_wrapper(self_closing) + rest) == layout_of_events(
            before + rest,
        ),
        layout_of_events(before + rest) matches Ok(d) ==> d.machines.len() == 0,
{
    reveal_strlit("Machines");
    reveal_strlit("Name");
    reveal_strlit("Width");
    reveal_strlit("Height");
    let pb = before;
    let pa = pb + empty_machines_wrapper(self_closing);
    assert("Machines"@.len() == 8 && "Name"@.len() == 4 && "Width"@.len() == 5);
    assert("Machines"@ != "Name"@);
    assert("Machines"@ != "Width"@);
    assert("Machines"@ != "Height"@);
    let s0 = run(pb)->Ok_0;
    assert(field_named(Level::Root, "Machines"@) == Some(Field::Machines));
    let s1 = ParserView { machines_seen: true, ..s0 };
    if self_closing {
        assert(pa.drop_last() == pb);
        assert(pa.last() == XmlEventView::Empty("Machines"@));
        assert(open_field(s0, Field::Machines) == Ok::<ParserView, SchemaFault>(
            ParserView { ctx: Ctx::InMachines, ..s1 },
        ));
        assert(step(s0, XmlEventView::Empty("Machines"@)) == Ok::<ParserView, SchemaFault>(s1));
        assert(run(pa) == Ok::<ParserView, SchemaFault>(s1));
    } else {
        let pm = pa.drop_last();
        assert(pm.drop_last() == pb);
        assert(pm.last() == XmlEventView::Start("Machines"@));
        assert(pa.last() == XmlEventView::End("Machines"@));
        let sm = ParserView { ctx: Ctx::InMachines, ..s1 };
        assert(step(s0, XmlEventView::Start("Machines"@)) == Ok::<ParserView, SchemaFault>(sm));
        assert(run(pm) == Ok::<ParserView, SchemaFault>(sm));
        assert(step(sm, XmlEventView::End("Machines"@)) == Ok::<ParserView, SchemaFault>(s1));
        assert(run(pa) == Ok::<ParserView, SchemaFault>(s1));
    }
    lemma_run_ignores_wrapper(pa, pb, rest);
    lemma_rest_adds_no_wrapper(pb, rest);
}

} // verus!
