use wasm_game_of_life::{ColorError, RenderPixels, Universe};

#[test]
fn blocks_are_filled_per_cell() {
    let mut universe = Universe::new(3, 2).unwrap();
    universe.set_cells(&[(0, 1), (1, 2)]);
    let mut px = RenderPixels::new_from(&universe, 2, "#ffffff", "#000000").unwrap();
    assert_eq!(px.width(), 6);
    assert_eq!(px.height(), 4);
    px.compose(&universe);
    let l = 0xffff_ffffu32;
    let d = 0xff00_0000u32;
    let expected = vec![
        d, d, l, l, d, d, //
        d, d, l, l, d, d, //
        d, d, d, d, l, l, //
        d, d, d, d, l, l, //
    ];
    assert_eq!(px.pixels(), expected.as_slice());
}

#[test]
fn cell_size_one_maps_cells_to_pixels() {
    let mut universe = Universe::new(2, 2).unwrap();
    universe.set_cells(&[(1, 0)]);
    let mut px = RenderPixels::new_from(&universe, 1, "102030", "405060").unwrap();
    px.compose(&universe);
    assert_eq!(px.pixels(), &[0xff60_5040, 0xff60_5040, 0xff30_2010, 0xff60_5040]);
}

#[test]
fn bytes_come_out_red_green_blue_alpha() {
    let universe = Universe::new(1, 1).unwrap();
    let mut px = RenderPixels::new_from(&universe, 2, "#11223344", "#a0b0c0").unwrap();
    px.compose(&universe);
    let bytes = px.pixel_bytes();
    assert_eq!(bytes.len(), 16);
    assert_eq!(&bytes[0..4], &[0xa0, 0xb0, 0xc0, 0xff]);
    assert_eq!(&bytes[12..16], &[0xa0, 0xb0, 0xc0, 0xff]);

    let mut alive = Universe::new(1, 1).unwrap();
    alive.flip_cell(0, 0);
    px.compose(&alive);
    assert_eq!(px.pixel_bytes(), [0x11, 0x22, 0x33, 0x44].repeat(4));
}

#[test]
fn buffer_starts_blank_and_sized() {
    let universe = Universe::new(4, 3).unwrap();
    let px = RenderPixels::new_from(&universe, 3, "#000000", "#ffffff").unwrap();
    assert_eq!(px.pixels().len(), 12 * 9);
    assert!(px.pixels().iter().all(|&p| p == 0));
    assert_eq!(px.pixel_bytes().len(), 12 * 9 * 4);
}

#[test]
fn bad_colours_are_reported() {
    let universe = Universe::new(2, 2).unwrap();
    assert_eq!(
        RenderPixels::new_from(&universe, 1, "#12345", "#zzzzzz").err(),
        Some(ColorError::InvalidLength("12345".to_string()))
    );
    assert_eq!(
        RenderPixels::new_from(&universe, 1, "#123456", "#zzzzzz").err(),
        Some(ColorError::InvalidHex("zzzzzz".to_string()))
    );
}

#[test]
fn redraw_follows_the_grid() {
    let mut universe = Universe::new(6, 6).unwrap();
    universe.set_cells(&[(1, 2), (2, 3), (3, 1), (3, 2), (3, 3)]);
    let mut px = RenderPixels::new_from(&universe, 4, "#ffffff", "#000000").unwrap();
    universe.tick();
    px.compose(&universe);
    let cells = universe.cells();
    for y in 0..24usize {
        for x in 0..24usize {
            let alive = cells[(y / 4) * 6 + x / 4] == wasm_game_of_life::Cell::Alive;
            let want = if alive { 0xffff_ffff } else { 0xff00_0000 };
            assert_eq!(px.pixels()[y * 24 + x], want, "pixel {y},{x}");
        }
    }
}
