use bevy_tiled_display::{
    reanchor, sub_view, unanchor, window_geometry, Length, OverlayNode, StereoChannel, SubView,
    Tile, TiledDisplay, WindowGeometry,
};

fn tile(left: i32, top: i32, w: u32, h: u32) -> Tile {
    Tile {
        name: "t".to_string(),
        stereo_channel: StereoChannel::Left,
        left_offset: left,
        top_offset: top,
        window_left: 30,
        window_top: -40,
        window_width: w,
        window_height: h,
    }
}

fn display(w: u32, h: u32) -> TiledDisplay {
    TiledDisplay { machines: Vec::new(), name: "d".to_string(), width: w, height: h }
}

#[test]
fn window_geometry_is_window_placement() {
    assert_eq!(
        window_geometry(&tile(5, 6, 640, 480)),
        WindowGeometry { left: 30, top: -40, width: 640, height: 480 }
    );
}

#[test]
fn sub_view_is_tile_rectangle_in_canvas() {
    let d = display(10800, 4096);
    let t = tile(2160, 0, 540, 4096);
    let v = sub_view(&d, &t);
    assert_eq!(
        v,
        SubView { full_width: 10800, full_height: 4096, offset_x: 2160, offset_y: 0, width: 540, height: 4096 }
    );
    assert!(v.offset_x as i64 + v.width as i64 <= v.full_width as i64);
    assert_eq!(d.size(), (10800, 4096));
    assert_eq!(t.offset(), (2160, 0));
    assert_eq!(t.size(), (540, 4096));
}

#[test]
fn single_machine_sub_view_covers_canvas() {
    let v = sub_view(&display(1920, 1080), &tile(0, 0, 1920, 1080));
    assert_eq!((v.offset_x, v.offset_y), (0, 0));
    assert_eq!((v.width, v.height), (v.full_width, v.full_height));
}

#[test]
fn reanchor_shifts_absolute_pixels_by_minus_offset() {
    let t = tile(1080, 200, 540, 4096);
    let n = OverlayNode { absolute: true, left: Length::Px(1100), top: Length::Other };
    let r = reanchor(n, &t);
    assert_eq!(r, OverlayNode { absolute: true, left: Length::Px(20), top: Length::Other });
    assert_eq!(unanchor(r, &t), n);
}

#[test]
fn reanchor_leaves_relative_nodes() {
    let t = tile(1080, 200, 540, 4096);
    let n = OverlayNode { absolute: false, left: Length::Px(5), top: Length::Px(6) };
    assert_eq!(reanchor(n, &t), n);
}

#[test]
fn reanchor_round_trip_with_negative_offset() {
    let t = tile(-300, -7, 540, 4096);
    let n = OverlayNode { absolute: true, left: Length::Px(-10), top: Length::Px(3) };
    let r = reanchor(n, &t);
    assert_eq!(r, OverlayNode { absolute: true, left: Length::Px(290), top: Length::Px(10) });
    assert_eq!(unanchor(r, &t), n);
}

#[test]
fn tile_clone_keeps_fields() {
    let t = tile(1, 2, 3, 4);
    let c = t.clone();
    assert_eq!((c.name.as_str(), c.left_offset, c.window_height), ("t", 1, 4));
}
