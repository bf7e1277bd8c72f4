use dictate::icons::{draw_circle, draw_ring, empty_canvas, set_pixel, IdlePalette, CANVAS_BYTES, ICON_SIZE};

fn pixel(canvas: &[u8], x: usize, y: usize) -> [u8; 4] {
    let i = (y * ICON_SIZE + x) * 4;
    [canvas[i], canvas[i + 1], canvas[i + 2], canvas[i + 3]]
}

#[test]
fn canvas_starts_transparent() {
    let c = empty_canvas();
    assert_eq!(c.len(), CANVAS_BYTES);
    assert!(c.iter().all(|&b| b == 0));
}

#[test]
fn set_pixel_writes_one_pixel_and_ignores_outside() {
    let mut c = empty_canvas();
    set_pixel(&mut c, 3, 2, [1, 2, 3, 4]);
    assert_eq!(pixel(&c, 3, 2), [1, 2, 3, 4]);
    assert_eq!(c.iter().filter(|&&b| b != 0).count(), 4);
    let before = c.clone();
    set_pixel(&mut c, -1, 0, [9, 9, 9, 9]);
    set_pixel(&mut c, 44, 0, [9, 9, 9, 9]);
    set_pixel(&mut c, 0, 44, [9, 9, 9, 9]);
    assert_eq!(c, before);
}

#[test]
fn circle_paints_the_disk() {
    let mut c = empty_canvas();
    draw_circle(&mut c, 22, 22, 21, [220, 24, 32, 255]);
    assert_eq!(pixel(&c, 22, 22), [220, 24, 32, 255]);
    assert_eq!(pixel(&c, 22, 1), [220, 24, 32, 255]);
    assert_eq!(pixel(&c, 0, 0), [0, 0, 0, 0]);
    assert_eq!(pixel(&c, 22, 0), [0, 0, 0, 0]);
    let painted = (0..ICON_SIZE * ICON_SIZE).filter(|p| c[p * 4 + 3] == 255).count();
    let expected = (0..ICON_SIZE as i32)
        .flat_map(|y| (0..ICON_SIZE as i32).map(move |x| (x, y)))
        .filter(|&(x, y)| (x - 22) * (x - 22) + (y - 22) * (y - 22) <= 21 * 21)
        .count();
    assert_eq!(painted, expected);
}

#[test]
fn ring_leaves_the_centre() {
    let mut c = empty_canvas();
    draw_ring(&mut c, 22, 22, 21, 15, [120, 120, 120, 255]);
    assert_eq!(pixel(&c, 22, 22), [0, 0, 0, 0]);
    assert_eq!(pixel(&c, 22, 4), [120, 120, 120, 255]);
    assert_eq!(pixel(&c, 22, 7), [120, 120, 120, 255]);
    assert_eq!(pixel(&c, 22, 8), [0, 0, 0, 0]);
}

#[test]
fn palettes() {
    assert_eq!(IdlePalette::light().body, [255, 255, 255, 255]);
    assert_eq!(IdlePalette::dark().grille, [255, 255, 255, 90]);
}
