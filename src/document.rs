//! The events of a layout document written from a layout, and the proof
//! that the loader reads every machine and tile of it back, in order.
use vstd::prelude::*;

use crate::layout::{MachineView, StereoChannel, TileView, TiledDisplayView};
use crate::loader::{
    channel_text, close_field, empty_tile, field_level, field_named, finish, finished_tile, has_field,
    initial, layout_of_events, run, step, Ctx, Field, Level, ParserView, PartialTileView, SchemaFault,
};
use crate::number::{all_digits, digits_value, i32_text, is_digit, u32_text};
use crate::xml::XmlEventView;

verus! {

pub open spec fn digit_char(d: nat) -> char {
    if d == 0 {
        '0'
    } else if d == 1 {
        '1'
    } else if d == 2 {
        '2'
    } else if d == 3 {
        '3'
    } else if d == 4 {
        '4'
    } else if d == 5 {
        '5'
    } else if d == 6 {
        '6'
    } else if d == 7 {
        '7'
    } else if d == 8 {
        '8'
    } else {
        '9'
    }
}

/// The decimal digits of `n`.
pub open spec fn decimal(n: nat) -> Seq<char>
    decreases n,
{
    if n < 10 {
        seq![digit_char(n)]
    } else {
        decimal(n / 10).push(digit_char(n % 10))
    }
}

/// `v` in decimal, with a leading `-` when it is negative.
pub open spec fn signed_decimal(v: int) -> Seq<char> {
    if v < 0 {
        seq!['-'] + decimal((-v) as nat)
    } else {
        decimal(v as nat)
    }
}

proof fn lemma_digit_char(d: nat)
    requires
        d < 10,
    ensures
        is_digit(digit_char(d)),
        digit_char(d) as nat - '0' as nat == d,
{
}

proof fn lemma_decimal(n: nat)
    ensures
        all_digits(decimal(n)),
        digits_value(decimal(n)) == n,
    decreases n,
{
    lemma_digit_char(n % 10);
    if n >= 10 {
        lemma_decimal(n / 10);
        assert(n == (n / 10) * 10 + n % 10) by (nonlinear_arith);
        let s = decimal(n);
        assert(s.drop_last() == decimal(n / 10));
        assert(s.last() == digit_char(n % 10));
        assert(digits_value(s) == digits_value(decimal(n / 10)) * 10 + (digit_char(n % 10) as nat
            - '0' as nat) as nat);
        assert forall|i: int| 0 <= i < s.len() implies is_digit(#[trigger] s[i]) by {
            if i < s.len() - 1 {
                assert(s[i] == decimal(n / 10)[i]);
            }
        }
    } else {
        lemma_digit_char(n);
        assert(decimal(n).drop_last() =~= Seq::<char>::empty());
        assert(digits_value(Seq::<char>::empty()) == 0);
        assert(decimal(n).last() == digit_char(n));
    }
}

proof fn lemma_u32_decimal(v: u32)
    ensures
        u32_text(decimal(v as nat)) == Some(v),
{
    lemma_decimal(v as nat);
    assert(is_digit(decimal(v as nat)[0]));
}

proof fn lemma_i32_decimal(v: i32)
    ensures
        i32_text(signed_decimal(v as int)) == Some(v),
{
    if v < 0 {
        let m = (-v) as nat;
        lemma_decimal(m);
        let s = signed_decimal(v as int);
        assert(s[0] == '-');
        assert(s.drop_first() =~= decimal(m));
    } else {
        lemma_decimal(v as nat);
        assert(is_digit(decimal(v as nat)[0]));
    }
}

pub open spec fn channel_name(c: StereoChannel) -> Seq<char> {
    match c {
        StereoChannel::Left => "Left"@,
        StereoChannel::Right => "Right"@,
    }
}

/// A scalar field element holding `text`.
pub open spec fn field_events(name: Seq<char>, text: Seq<char>) -> Seq<XmlEventView> {
    seq![XmlEventView::Start(name), XmlEventView::Text(text), XmlEventView::End(name)]
}

/// Every size in the layout is positive.
pub open spec fn valid_layout(d: TiledDisplayView) -> bool {
    &&& d.width > 0
    &&& d.height > 0
    &&& forall|i: int, j: int|
        0 <= i < d.machines.len() && 0 <= j < d.machines[i].tiles.len() ==> {
            &&& (#[trigger] d.machines[i].tiles[j]).window_width > 0
            &&& d.machines[i].tiles[j].window_height > 0
        }
}

/// The parser's state after `evs`, starting from `st`.
pub open spec fn run_from(st: ParserView, evs: Seq<XmlEventView>) -> Result<ParserView, SchemaFault>
    decreases evs.len(),
{
    if evs.len() == 0 {
        Ok(st)
    } else {
        match run_from(st, evs.drop_last()) {
            Ok(s) => step(s, evs.last()),
            Err(e) => Err(e),
        }
    }
}

proof fn lemma_run_is_run_from(evs: Seq<XmlEventView>)
    ensures
        run(evs) == run_from(initial(), evs),
    decreases evs.len(),
{
    if evs.len() > 0 {
        lemma_run_is_run_from(evs.drop_last());
    }
}

proof fn lemma_run_from_concat(st: ParserView, a: Seq<XmlEventView>, b: Seq<XmlEventView>)
    ensures
        run_from(st, a + b) == match run_from(st, a) {
            Ok(s) => run_from(s, b),
            Err(e) => Err(e),
        },
    decreases b.len(),
{
    if b.len() == 0 {
        assert(a + b == a);
    } else {
        lemma_run_from_concat(st, a, b.drop_last());
        assert((a + b).drop_last() == a + b.drop_last());
        assert((a + b).last() == b.last());
    }
}

proof fn lemma_run_from_chunk(
    st: ParserView,
    a: Seq<XmlEventView>,
    b: Seq<XmlEventView>,
    mid: ParserView,
    end: ParserView,
)
    requires
        run_from(st, a) == Ok::<ParserView, SchemaFault>(mid),
        run_from(mid, b) == Ok::<ParserView, SchemaFault>(end),
    ensures
        run_from(st, a + b) == Ok::<ParserView, SchemaFault>(end),
{
    lemma_run_from_concat(st, a, b);
}

proof fn lemma_one(st: ParserView, e: XmlEventView)
    ensures
        run_from(st, seq![e]) == step(st, e),
{
    assert(seq![e].drop_last() =~= Seq::<XmlEventView>::empty());
    assert(run_from(st, Seq::<XmlEventView>::empty()) == Ok::<ParserView, SchemaFault>(st));
    assert(seq![e].last() == e);
}

proof fn lemma_two(st: ParserView, e1: XmlEventView, e2: XmlEventView)
    ensures
        run_from(st, seq![e1, e2]) == match step(st, e1) {
            Ok(s) => step(s, e2),
            Err(e) => Err(e),
        },
{
    lemma_one(st, e1);
    assert(seq![e1, e2].drop_last() =~= seq![e1]);
    assert(seq![e1, e2].last() == e2);
}

proof fn lemma_field(st: ParserView, name: Seq<char>, text: Seq<char>, f: Field)
    requires
        st.ctx == Ctx::InRecord(field_level(f)),
        field_named(field_level(f), name) == Some(f),
        f != Field::Machines && f != Field::Tiles,
        !has_field(st, f),
    ensures
        run_from(st, field_events(name, text)) == close_field(
            ParserView { ctx: Ctx::InField(f), text: Some(text), ..st },
            f,
        ),
{
    let evs = field_events(name, text);
    assert(evs.drop_last() =~= seq![XmlEventView::Start(name), XmlEventView::Text(text)]);
    assert(evs.last() == XmlEventView::End(name));
    lemma_two(st, XmlEventView::Start(name), XmlEventView::Text(text));
}

proof fn lemma_names()
    ensures
        field_named(Level::Root, "Name"@) == Some(Field::DisplayName),
        field_named(Level::Root, "Width"@) == Some(Field::Width),
        field_named(Level::Root, "Height"@) == Some(Field::Height),
        field_named(Level::Root, "Machines"@) == Some(Field::Machines),
        field_named(Level::Machine, "Identity"@) == Some(Field::Identity),
        field_named(Level::Machine, "Tiles"@) == Some(Field::Tiles),
        field_named(Level::Tile, "Name"@) == Some(Field::TileName),
        field_named(Level::Tile, "StereoChannel"@) == Some(Field::StereoChannel),
        field_named(Level::Tile, "LeftOffset"@) == Some(Field::LeftOffset),
        field_named(Level::Tile, "TopOffset"@) == Some(Field::TopOffset),
        field_named(Level::Tile, "WindowLeft"@) == Some(Field::WindowLeft),
        field_named(Level::Tile, "WindowTop"@) == Some(Field::WindowTop),
        field_named(Level::Tile, "WindowWidth"@) == Some(Field::WindowWidth),
        field_named(Level::Tile, "WindowHeight"@) == Some(Field::WindowHeight),
        channel_text("Left"@) == Some(StereoChannel::Left),
        channel_text("Right"@) == Some(StereoChannel::Right),
{
    reveal_strlit("Name");
    reveal_strlit("Width");
    reveal_strlit("Height");
    reveal_strlit("Machines");
    reveal_strlit("Identity");
    reveal_strlit("Tiles");
    reveal_strlit("StereoChannel");
    reveal_strlit("LeftOffset");
    reveal_strlit("TopOffset");
    reveal_strlit("WindowLeft");
    reveal_strlit("WindowTop");
    reveal_strlit("WindowWidth");
    reveal_strlit("WindowHeight");
    reveal_strlit("Left");
    reveal_strlit("Right");
    assert("Name"@.len() == 4 && "Width"@.len() == 5 && "Height"@.len() == 6);
    assert("Machines"@.len() == 8 && "Identity"@.len() == 8 && "Tiles"@.len() == 5);
    assert("StereoChannel"@.len() == 13 && "LeftOffset"@.len() == 10 && "TopOffset"@.len() == 9);
    assert("WindowLeft"@.len() == 10 && "WindowTop"@.len() == 9 && "WindowWidth"@.len() == 11);
    assert("WindowHeight"@.len() == 12 && "Left"@.len() == 4 && "Right"@.len() == 5);
    assert("Machines"@[0] != "Identity"@[0]);
    assert("LeftOffset"@[0] != "WindowLeft"@[0]);
    assert("TopOffset"@[0] != "WindowTop"@[0]);
    assert("Width"@[0] != "Tiles"@[0]);
}

/// The element name of a field.
pub open spec fn field_tag(f: Field) -> Seq<char> {
    match f {
        Field::DisplayName | Field::TileName => "Name"@,
        Field::Width => "Width"@,
        Field::Height => "Height"@,
        Field::Machines => "Machines"@,
        Field::Identity => "Identity"@,
        Field::Tiles => "Tiles"@,
        Field::StereoChannel => "StereoChannel"@,
        Field::LeftOffset => "LeftOffset"@,
        Field::TopOffset => "TopOffset"@,
        Field::WindowLeft => "WindowLeft"@,
        Field::WindowTop => "WindowTop"@,
        Field::WindowWidth => "WindowWidth"@,
        Field::WindowHeight => "WindowHeight"@,
    }
}

proof fn lemma_field_tag(f: Field)
    ensures
        field_named(field_level(f), field_tag(f)) == Some(f),
{
    lemma_names();
}

/// The text of a tile's field.
pub open spec fn tile_text(t: TileView, f: Field) -> Seq<char> {
    match f {
        Field::TileName => t.name,
        Field::StereoChannel => channel_name(t.stereo_channel),
        Field::LeftOffset => signed_decimal(t.left_offset as int),
        Field::TopOffset => signed_decimal(t.top_offset as int),
        Field::WindowLeft => signed_decimal(t.window_left as int),
        Field::WindowTop => signed_decimal(t.window_top as int),
        Field::WindowWidth => decimal(t.window_width as nat),
        _ => decimal(t.window_height as nat),
    }
}

/// A tile's fields, written in the order `order`.
pub open spec fn tile_fields_events(t: TileView, order: Seq<Field>) -> Seq<XmlEventView>
    decreases order.len(),
{
    if order.len() == 0 {
        Seq::empty()
    } else {
        tile_fields_events(t, order.drop_last()) + field_events(
            field_tag(order.last()),
            tile_text(t, order.last()),
        )
    }
}

/// Distinct fields of one record.
pub open spec fn fields_of(order: Seq<Field>, level: Level) -> bool {
    &&& forall|i: int| 0 <= i < order.len() ==> field_level(#[trigger] order[i]) == level
    &&& forall|i: int, j: int| 0 <= i < j < order.len() ==> order[i] != order[j]
}

/// Every field of the record, each once, in some order.
pub open spec fn all_fields_of(order: Seq<Field>, level: Level) -> bool {
    &&& fields_of(order, level)
    &&& forall|f: Field| field_level(f) == level ==> order.contains(f)
}

/// The tile as read after the fields in `fs`.
pub open spec fn partial_tile_of(t: TileView, fs: Seq<Field>) -> PartialTileView {
    PartialTileView {
        name: if fs.contains(Field::TileName) { Some(t.name) } else { None },
        stereo_channel: if fs.contains(Field::StereoChannel) { Some(t.stereo_channel) } else { None },
        left_offset: if fs.contains(Field::LeftOffset) { Some(t.left_offset) } else { None },
        top_offset: if fs.contains(Field::TopOffset) { Some(t.top_offset) } else { None },
        window_left: if fs.contains(Field::WindowLeft) { Some(t.window_left) } else { None },
        window_top: if fs.contains(Field::WindowTop) { Some(t.window_top) } else { None },
        window_width: if fs.contains(Field::WindowWidth) { Some(t.window_width) } else { None },
        window_height: if fs.contains(Field::WindowHeight) { Some(t.window_height) } else { None },
    }
}

proof fn lemma_contains_push(fs: Seq<Field>, f: Field, g: Field)
    ensures
        fs.push(f).contains(g) == (fs.contains(g) || g == f),
{
    if fs.contains(g) {
        let i = choose|i: int| 0 <= i < fs.len() && fs[i] == g;
        assert(fs.push(f)[i] == g);
    }
    if g == f {
        assert(fs.push(f)[fs.len() as int] == g);
    }
    if fs.push(f).contains(g) && g != f {
        let i = choose|i: int| 0 <= i < fs.push(f).len() && fs.push(f)[i] == g;
        assert(fs[i] == g);
    }
}

proof fn lemma_tile_fields(st: ParserView, t: TileView, order: Seq<Field>)
    requires
        st.ctx == Ctx::InRecord(Level::Tile),
        st.text is None,
        st.tile == empty_tile(),
        fields_of(order, Level::Tile),
        t.window_width > 0,
        t.window_height > 0,
    ensures
        run_from(st, tile_fields_events(t, order)) == Ok::<ParserView, SchemaFault>(
            ParserView { tile: partial_tile_of(t, order), ..st },
        ),
    decreases order.len(),
{
    if order.len() == 0 {
        assert(partial_tile_of(t, order) == empty_tile());
    } else {
        let init = order.drop_last();
        let f = order.last();
        assert(fields_of(init, Level::Tile)) by {
            assert forall|i: int| 0 <= i < init.len() implies field_level(#[trigger] init[i])
                == Level::Tile by {
                assert(init[i] == order[i]);
            }
        }
        lemma_tile_fields(st, t, init);
        let mid = ParserView { tile: partial_tile_of(t, init), ..st };
        assert(field_level(order[order.len() - 1]) == Level::Tile);
        assert(!init.contains(f)) by {
            if init.contains(f) {
                let i = choose|i: int| 0 <= i < init.len() && init[i] == f;
                assert(order[i] == order[order.len() - 1]);
            }
        }
        assert(init.push(f) == order);
        assert forall|g: Field| #[trigger] order.contains(g) == (init.contains(g) || g == f) by {
            lemma_contains_push(init, f, g);
        }
        lemma_field_tag(f);
        lemma_names();
        lemma_i32_decimal(t.left_offset);
        lemma_i32_decimal(t.top_offset);
        lemma_i32_decimal(t.window_left);
        lemma_i32_decimal(t.window_top);
        lemma_u32_decimal(t.window_width);
        lemma_u32_decimal(t.window_height);
        assert(channel_text(channel_name(t.stereo_channel)) == Some(t.stereo_channel));
        lemma_field(mid, field_tag(f), tile_text(t, f), f);
        let end = ParserView { tile: partial_tile_of(t, order), ..st };
        assert(run_from(mid, field_events(field_tag(f), tile_text(t, f))) == Ok::<
            ParserView,
            SchemaFault,
        >(end));
        lemma_run_from_chunk(
            st,
            tile_fields_events(t, init),
            field_events(field_tag(f), tile_text(t, f)),
            mid,
            end,
        );
    }
}

/// A tile record with its fields in the order `order`.
pub open spec fn tile_events(t: TileView, order: Seq<Field>) -> Seq<XmlEventView> {
    seq![XmlEventView::Start("Tile"@)] + tile_fields_events(t, order) + seq![
        XmlEventView::End("Tile"@),
    ]
}

/// Tile records in order, the fields of tile `j` in the order `orders[j]`.
pub open spec fn tiles_events(ts: Seq<TileView>, orders: Seq<Seq<Field>>) -> Seq<XmlEventView>
    decreases ts.len(),
{
    if ts.len() == 0 {
        Seq::empty()
    } else {
        tiles_events(ts.drop_last(), orders.drop_last()) + tile_events(ts.last(), orders.last())
    }
}

/// A machine record: its identity before or after its `Tiles` wrapper.
pub open spec fn machine_events(m: MachineView, identity_first: bool, orders: Seq<Seq<Field>>) -> Seq<
    XmlEventView,
> {
    let id = field_events("Identity"@, m.identity);
    let tiles = seq![XmlEventView::Start("Tiles"@)] + tiles_events(m.tiles, orders) + seq![
        XmlEventView::End("Tiles"@),
    ];
    seq![XmlEventView::Start("Machine"@)] + (if identity_first {
        id + tiles
    } else {
        tiles + id
    }) + seq![XmlEventView::End("Machine"@)]
}

/// How a document orders the fields of each of its records.
pub ghost struct DocumentShape {
    /// The order of the root's fields.
    pub root: Seq<Field>,
    /// For each machine, whether its identity comes before its tiles.
    pub identity_first: Seq<bool>,
    /// For each machine and each of its tiles, the order of the tile's fields.
    pub tiles: Seq<Seq<Seq<Field>>>,
}

pub open spec fn machines_events(
    ms: Seq<MachineView>,
    firsts: Seq<bool>,
    orders: Seq<Seq<Seq<Field>>>,
) -> Seq<XmlEventView>
    decreases ms.len(),
{
    if ms.len() == 0 {
        Seq::empty()
    } else {
        machines_events(ms.drop_last(), firsts.drop_last(), orders.drop_last()) + machine_events(
            ms.last(),
            firsts.last(),
            orders.last(),
        )
    }
}

/// One field of the root: a scalar element, or the `Machines` wrapper.
pub open spec fn root_field_events(d: TiledDisplayView, sh: DocumentShape, f: Field) -> Seq<
    XmlEventView,
> {
    match f {
        Field::DisplayName => field_events("Name"@, d.name),
        Field::Width => field_events("Width"@, decimal(d.width as nat)),
        Field::Height => field_events("Height"@, decimal(d.height as nat)),
        _ => seq![XmlEventView::Start("Machines"@)] + machines_events(
            d.machines,
            sh.identity_first,
            sh.tiles,
        ) + seq![XmlEventView::End("Machines"@)],
    }
}

pub open spec fn root_fields_events(d: TiledDisplayView, sh: DocumentShape, order: Seq<Field>) -> Seq<
    XmlEventView,
>
    decreases order.len(),
{
    if order.len() == 0 {
        Seq::empty()
    } else {
        root_fields_events(d, sh, order.drop_last()) + root_field_events(d, sh, order.last())
    }
}

/// The events of the document that declares layout `d` in shape `sh`.
pub open spec fn display_events(d: TiledDisplayView, sh: DocumentShape) -> Seq<XmlEventView> {
    seq![XmlEventView::Start("TiledDisplay"@)] + root_fields_events(d, sh, sh.root) + seq![
        XmlEventView::End("TiledDisplay"@),
    ]
}

/// The shape orders every field of every record of `d`, each once.
pub open spec fn shape_of(d: TiledDisplayView, sh: DocumentShape) -> bool {
    &&& all_fields_of(sh.root, Level::Root)
    &&& sh.identity_first.len() == d.machines.len()
    &&& sh.tiles.len() == d.machines.len()
    &&& forall|i: int|
        0 <= i < d.machines.len() ==> (#[trigger] sh.tiles[i]).len() == d.machines[i].tiles.len()
    &&& forall|i: int, j: int|
        0 <= i < d.machines.len() && 0 <= j < d.machines[i].tiles.len() ==> all_fields_of(
            #[trigger] sh.tiles[i][j],
            Level::Tile,
        )
}

proof fn lemma_tile(st: ParserView, t: TileView, order: Seq<Field>)
    requires
        st.ctx == Ctx::InTiles,
        st.text is None,
        st.tile == empty_tile(),
        all_fields_of(order, Level::Tile),
        t.window_width > 0,
        t.window_height > 0,
    ensures
        run_from(st, tile_events(t, order)) == Ok::<ParserView, SchemaFault>(
            ParserView { tiles: st.tiles.push(t), ..st },
        ),
{
    let a0 = seq![XmlEventView::Start("Tile"@)];
    let s0 = ParserView { ctx: Ctx::InRecord(Level::Tile), ..st };
    lemma_one(st, XmlEventView::Start("Tile"@));
    lemma_tile_fields(s0, t, order);
    let s1 = ParserView { tile: partial_tile_of(t, order), ..s0 };
    lemma_run_from_chunk(st, a0, tile_fields_events(t, order), s0, s1);
    assert(field_level(Field::TileName) == Level::Tile && order.contains(Field::TileName));
    assert(field_level(Field::StereoChannel) == Level::Tile && order.contains(Field::StereoChannel));
    assert(field_level(Field::LeftOffset) == Level::Tile && order.contains(Field::LeftOffset));
    assert(field_level(Field::TopOffset) == Level::Tile && order.contains(Field::TopOffset));
    assert(field_level(Field::WindowLeft) == Level::Tile && order.contains(Field::WindowLeft));
    assert(field_level(Field::WindowTop) == Level::Tile && order.contains(Field::WindowTop));
    assert(field_level(Field::WindowWidth) == Level::Tile && order.contains(Field::WindowWidth));
    assert(field_level(Field::WindowHeight) == Level::Tile && order.contains(Field::WindowHeight));
    assert(order.contains(Field::TileName) && order.contains(Field::StereoChannel)
        && order.contains(Field::LeftOffset) && order.contains(Field::TopOffset)
        && order.contains(Field::WindowLeft) && order.contains(Field::WindowTop)
        && order.contains(Field::WindowWidth) && order.contains(Field::WindowHeight));
    assert(finished_tile(partial_tile_of(t, order)) == Ok::<TileView, SchemaFault>(t));
    let s2 = ParserView { tiles: st.tiles.push(t), ..st };
    lemma_one(s1, XmlEventView::End("Tile"@));
    lemma_run_from_chunk(st, a0 + tile_fields_events(t, order), seq![XmlEventView::End("Tile"@)], s1, s2);
}

proof fn lemma_tiles(st: ParserView, ts: Seq<TileView>, orders: Seq<Seq<Field>>)
    requires
        st.ctx == Ctx::InTiles,
        st.text is None,
        st.tile == empty_tile(),
        orders.len() == ts.len(),
        forall|j: int| 0 <= j < ts.len() ==> all_fields_of(#[trigger] orders[j], Level::Tile),
        forall|j: int| 0 <= j < ts.len() ==> (#[trigger] ts[j]).window_width > 0 && ts[j].window_height > 0,
    ensures
        run_from(st, tiles_events(ts, orders)) == Ok::<ParserView, SchemaFault>(
            ParserView { tiles: st.tiles + ts, ..st },
        ),
    decreases ts.len(),
{
    if ts.len() == 0 {
        assert(st.tiles + ts =~= st.tiles);
        assert(tiles_events(ts, orders) =~= Seq::<XmlEventView>::empty());
    } else {
        let init = ts.drop_last();
        let oinit = orders.drop_last();
        assert forall|j: int| 0 <= j < init.len() implies (#[trigger] init[j]).window_width > 0
            && init[j].window_height > 0 by {
            assert(init[j] == ts[j]);
        }
        assert forall|j: int| 0 <= j < init.len() implies all_fields_of(#[trigger] oinit[j], Level::Tile) by {
            assert(oinit[j] == orders[j]);
        }
        lemma_tiles(st, init, oinit);
        let mid = ParserView { tiles: st.tiles + init, ..st };
        assert(ts.last() == ts[ts.len() - 1]);
        assert(orders.last() == orders[ts.len() - 1]);
        lemma_tile(mid, ts.last(), orders.last());
        assert((st.tiles + init).push(ts.last()) =~= st.tiles + ts);
        lemma_run_from_chunk(
            st,
            tiles_events(init, oinit),
            tile_events(ts.last(), orders.last()),
            mid,
            ParserView { tiles: st.tiles + ts, ..st },
        );
    }
}

/// A state between two machines of the `Machines` wrapper.
pub open spec fn between_machines(st: ParserView) -> bool {
    &&& st.ctx == Ctx::InMachines
    &&& st.text is None
    &&& st.tile == empty_tile()
    &&& st.identity is None
    &&& !st.tiles_seen
    &&& st.tiles == Seq::<TileView>::empty()
}

proof fn lemma_machine(st: ParserView, m: MachineView, identity_first: bool, orders: Seq<Seq<Field>>)
    requires
        between_machines(st),
        orders.len() == m.tiles.len(),
        forall|j: int| 0 <= j < m.tiles.len() ==> all_fields_of(#[trigger] orders[j], Level::Tile),
        forall|j: int| 0 <= j < m.tiles.len() ==> (#[trigger] m.tiles[j]).window_width > 0
            && m.tiles[j].window_height > 0,
    ensures
        run_from(st, machine_events(m, identity_first, orders)) == Ok::<ParserView, SchemaFault>(
            ParserView { machines: st.machines.push(m), ..st },
        ),
{
    lemma_names();
    let a0 = seq![XmlEventView::Start("Machine"@)];
    let s0 = ParserView { ctx: Ctx::InRecord(Level::Machine), ..st };
    lemma_one(st, XmlEventView::Start("Machine"@));
    let id = field_events("Identity"@, m.identity);
    let tiles = seq![XmlEventView::Start("Tiles"@)] + tiles_events(m.tiles, orders) + seq![
        XmlEventView::End("Tiles"@),
    ];
    // the tiles wrapper, from a state among the machine's fields
    assert forall|x: ParserView|
        x.ctx == Ctx::InRecord(Level::Machine) && !x.tiles_seen && x.text is None && x.tile
            == empty_tile() && x.tiles == Seq::<TileView>::empty() implies run_from(x, tiles)
        == Ok::<ParserView, SchemaFault>(ParserView { tiles_seen: true, tiles: m.tiles, ..x }) by {
        let x1 = ParserView { ctx: Ctx::InTiles, tiles_seen: true, ..x };
        lemma_one(x, XmlEventView::Start("Tiles"@));
        lemma_tiles(x1, m.tiles, orders);
        assert(x1.tiles + m.tiles =~= m.tiles);
        let x2 = ParserView { tiles: m.tiles, ..x1 };
        lemma_run_from_chunk(x, seq![XmlEventView::Start("Tiles"@)], tiles_events(m.tiles, orders), x1, x2);
        lemma_one(x2, XmlEventView::End("Tiles"@));
        lemma_run_from_chunk(
            x,
            seq![XmlEventView::Start("Tiles"@)] + tiles_events(m.tiles, orders),
            seq![XmlEventView::End("Tiles"@)],
            x2,
            ParserView { tiles_seen: true, tiles: m.tiles, ..x },
        );
    }
    let s3 = ParserView { identity: Some(m.identity), tiles_seen: true, tiles: m.tiles, ..s0 };
    if identity_first {
        let s1 = ParserView { identity: Some(m.identity), ..s0 };
        lemma_field(s0, "Identity"@, m.identity, Field::Identity);
        lemma_run_from_chunk(s0, id, tiles, s1, s3);
    } else {
        let s1 = ParserView { tiles_seen: true, tiles: m.tiles, ..s0 };
        lemma_field(s1, "Identity"@, m.identity, Field::Identity);
        lemma_run_from_chunk(s0, tiles, id, s1, s3);
    }
    let body = if identity_first { id + tiles } else { tiles + id };
    lemma_run_from_chunk(st, a0, body, s0, s3);
    let s5 = ParserView { machines: st.machines.push(m), ..st };
    lemma_one(s3, XmlEventView::End("Machine"@));
    lemma_run_from_chunk(st, a0 + body, seq![XmlEventView::End("Machine"@)], s3, s5);
}

proof fn lemma_machines(
    st: ParserView,
    ms: Seq<MachineView>,
    firsts: Seq<bool>,
    orders: Seq<Seq<Seq<Field>>>,
)
    requires
        between_machines(st),
        firsts.len() == ms.len(),
        orders.len() == ms.len(),
        forall|i: int| 0 <= i < ms.len() ==> (#[trigger] orders[i]).len() == ms[i].tiles.len(),
        forall|i: int, j: int|
            0 <= i < ms.len() && 0 <= j < ms[i].tiles.len() ==> all_fields_of(
                #[trigger] orders[i][j],
                Level::Tile,
            ),
        forall|i: int, j: int|
            0 <= i < ms.len() && 0 <= j < ms[i].tiles.len() ==> (#[trigger] ms[i].tiles[j]).window_width
                > 0 && ms[i].tiles[j].window_height > 0,
    ensures
        run_from(st, machines_events(ms, firsts, orders)) == Ok::<ParserView, SchemaFault>(
            ParserView { machines: st.machines + ms, ..st },
        ),
    decreases ms.len(),
{
    if ms.len() == 0 {
        assert(st.machines + ms =~= st.machines);
        assert(machines_events(ms, firsts, orders) =~= Seq::<XmlEventView>::empty());
    } else {
        let init = ms.drop_last();
        let finit = firsts.drop_last();
        let oinit = orders.drop_last();
        assert forall|i: int| 0 <= i < init.len() implies (#[trigger] oinit[i]).len()
            == init[i].tiles.len() by {
            assert(oinit[i] == orders[i] && init[i] == ms[i]);
        }
        assert forall|i: int, j: int|
            0 <= i < init.len() && 0 <= j < init[i].tiles.len() implies all_fields_of(
            #[trigger] oinit[i][j],
            Level::Tile,
        ) by {
            assert(oinit[i] == orders[i] && init[i] == ms[i]);
        }
        assert forall|i: int, j: int|
            0 <= i < init.len() && 0 <= j < init[i].tiles.len() implies (#[trigger] init[i].tiles[j]).window_width
            > 0 && init[i].tiles[j].window_height > 0 by {
            assert(init[i] == ms[i]);
        }
        lemma_machines(st, init, finit, oinit);
        let mid = ParserView { machines: st.machines + init, ..st };
        let k = ms.len() - 1;
        let last = ms.last();
        assert(last == ms[k]);
        assert(orders.last() == orders[k]);
        assert forall|j: int| 0 <= j < last.tiles.len() implies all_fields_of(
            #[trigger] orders.last()[j],
            Level::Tile,
        ) by {
            assert(orders[k][j] == orders.last()[j]);
        }
        assert forall|j: int| 0 <= j < last.tiles.len() implies (#[trigger] last.tiles[j]).window_width > 0
            && last.tiles[j].window_height > 0 by {
            assert(ms[k].tiles[j] == last.tiles[j]);
        }
        lemma_machine(mid, last, firsts.last(), orders.last());
        assert((st.machines + init).push(last) =~= st.machines + ms);
        lemma_run_from_chunk(
            st,
            machines_events(init, finit, oinit),
            machine_events(last, firsts.last(), orders.last()),
            mid,
            ParserView { machines: st.machines + ms, ..st },
        );
    }
}

/// The state after the root's fields in `fs`.
pub open spec fn root_state(d: TiledDisplayView, fs: Seq<Field>) -> ParserView {
    ParserView {
        ctx: Ctx::InRecord(Level::Root),
        name: if fs.contains(Field::DisplayName) { Some(d.name) } else { None },
        width: if fs.contains(Field::Width) { Some(d.width) } else { None },
        height: if fs.contains(Field::Height) { Some(d.height) } else { None },
        machines_seen: fs.contains(Field::Machines),
        machines: if fs.contains(Field::Machines) { d.machines } else { Seq::empty() },
        ..initial()
    }
}

proof fn lemma_root_fields(d: TiledDisplayView, sh: DocumentShape, order: Seq<Field>)
    requires
        valid_layout(d),
        shape_of(d, sh),
        fields_of(order, Level::Root),
    ensures
        run_from(root_state(d, Seq::empty()), root_fields_events(d, sh, order)) == Ok::<
            ParserView,
            SchemaFault,
        >(root_state(d, order)),
    decreases order.len(),
{
    let st = root_state(d, Seq::empty());
    if order.len() == 0 {
        assert(order =~= Seq::<Field>::empty());
    } else {
        let init = order.drop_last();
        let f = order.last();
        assert(fields_of(init, Level::Root)) by {
            assert forall|i: int| 0 <= i < init.len() implies field_level(#[trigger] init[i])
                == Level::Root by {
                assert(init[i] == order[i]);
            }
        }
        lemma_root_fields(d, sh, init);
        let mid = root_state(d, init);
        assert(field_level(order[order.len() - 1]) == Level::Root);
        assert(!init.contains(f)) by {
            if init.contains(f) {
                let i = choose|i: int| 0 <= i < init.len() && init[i] == f;
                assert(order[i] == order[order.len() - 1]);
            }
        }
        assert(init.push(f) == order);
        assert forall|g: Field| #[trigger] order.contains(g) == (init.contains(g) || g == f) by {
            lemma_contains_push(init, f, g);
        }
        lemma_field_tag(f);
        lemma_names();
        lemma_u32_decimal(d.width);
        lemma_u32_decimal(d.height);
        let end = root_state(d, order);
        if f == Field::Machines {
            let m0 = ParserView { ctx: Ctx::InMachines, machines_seen: true, ..mid };
            lemma_one(mid, XmlEventView::Start("Machines"@));
            lemma_machines(m0, d.machines, sh.identity_first, sh.tiles);
            assert(m0.machines + d.machines =~= d.machines);
            let m1 = ParserView { machines: d.machines, ..m0 };
            let evs = machines_events(d.machines, sh.identity_first, sh.tiles);
            lemma_run_from_chunk(mid, seq![XmlEventView::Start("Machines"@)], evs, m0, m1);
            lemma_one(m1, XmlEventView::End("Machines"@));
            lemma_run_from_chunk(
                mid,
                seq![XmlEventView::Start("Machines"@)] + evs,
                seq![XmlEventView::End("Machines"@)],
                m1,
                end,
            );
        } else {
            let text = if f == Field::DisplayName {
                d.name
            } else if f == Field::Width {
                decimal(d.width as nat)
            } else {
                decimal(d.height as nat)
            };
            lemma_field(mid, field_tag(f), text, f);
        }
        lemma_run_from_chunk(st, root_fields_events(d, sh, init), root_field_events(d, sh, f), mid, end);
    }
}

/// Loading the document that declares a layout whose sizes are all
/// positive, with the fields of each record in any order, gives that layout
/// back: the same machines in the same order, each with the same tiles in
/// the same order.
pub proof fn lemma_layout_loads_back(d: TiledDisplayView, sh: DocumentShape)
    requires
        valid_layout(d),
        shape_of(d, sh),
    ensures
        layout_of_events(display_events(d, sh)) == Ok::<TiledDisplayView, SchemaFault>(d),
{
    let st = initial();
    let a0 = seq![XmlEventView::Start("TiledDisplay"@)];
    let s0 = root_state(d, Seq::empty());
    lemma_one(st, XmlEventView::Start("TiledDisplay"@));
    lemma_root_fields(d, sh, sh.root);
    let s1 = root_state(d, sh.root);
    lemma_run_from_chunk(st, a0, root_fields_events(d, sh, sh.root), s0, s1);
    let s2 = ParserView { ctx: Ctx::After, ..s1 };
    lemma_one(s1, XmlEventView::End("TiledDisplay"@));
    lemma_run_from_chunk(
        st,
        a0 + root_fields_events(d, sh, sh.root),
        seq![XmlEventView::End("TiledDisplay"@)],
        s1,
        s2,
    );
    assert(field_level(Field::DisplayName) == Level::Root && sh.root.contains(Field::DisplayName));
    assert(field_level(Field::Width) == Level::Root && sh.root.contains(Field::Width));
    assert(field_level(Field::Height) == Level::Root && sh.root.contains(Field::Height));
    assert(field_level(Field::Machines) == Level::Root && sh.root.contains(Field::Machines));
    assert(sh.root.contains(Field::DisplayName) && sh.root.contains(Field::Width)
        && sh.root.contains(Field::Height) && sh.root.contains(Field::Machines));
    lemma_run_is_run_from(display_events(d, sh));
    assert(finish(s2) == Ok::<TiledDisplayView, SchemaFault>(d));
}

} // verus!
