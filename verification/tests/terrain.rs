use heightmap::terrain::{gray_sample, height_of, terrain_from_heights, CELLS, SIZE, SIZE_BITS};

#[test]
fn grid_is_square_with_a_power_of_two_side() {
    assert_eq!(SIZE_BITS, 11);
    assert_eq!(SIZE, 1 << SIZE_BITS);
    assert_eq!(SIZE, 2048);
    assert_eq!(CELLS, SIZE * SIZE);
}

#[test]
fn elevation_is_the_top_byte() {
    assert_eq!(height_of(0), 0);
    assert_eq!(height_of(0x00ff_ffff), 0);
    assert_eq!(height_of(0x0100_0000), 1);
    assert_eq!(height_of(0x7f12_3456), 0x7f);
    assert_eq!(height_of(0xffff_ffff), 255);
}

#[test]
fn gray_sample_repeats_the_elevation_in_every_byte() {
    assert_eq!(gray_sample(0), 0);
    assert_eq!(gray_sample(1), 0x0101_0101);
    assert_eq!(gray_sample(0x80), 0x8080_8080);
    assert_eq!(gray_sample(255), 0xffff_ffff);
    for h in 0..=255u8 {
        assert_eq!(height_of(gray_sample(h)), h as u32);
    }
}

#[test]
fn terrain_from_heights_packs_each_cell() {
    assert_eq!(terrain_from_heights(&Vec::new()), Vec::<u32>::new());
    assert_eq!(
        terrain_from_heights(&vec![0, 7, 255, 16]),
        vec![0, 0x0707_0707, 0xffff_ffff, 0x1010_1010]
    );
    let heights: Vec<u8> = (0..CELLS).map(|i| (i % 251) as u8).collect();
    let terrain = terrain_from_heights(&heights);
    assert_eq!(terrain.len(), CELLS);
    assert_eq!(terrain[CELLS - 1], gray_sample(((CELLS - 1) % 251) as u8));
}
