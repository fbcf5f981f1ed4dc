use raster::{Screen, HEIGHT, WIDTH};

#[test]
fn new_screen_is_cleared() {
    let s = Screen::new(7);
    assert_eq!(s.get_pixel(0, 0), 7);
    assert_eq!(s.get_pixel(WIDTH - 1, HEIGHT - 1), 7);
}

#[test]
fn pixel_off_canvas_is_ignored() {
    let mut s = Screen::new(0);
    s.pixel(WIDTH, 0, 9);
    s.pixel(0, HEIGHT, 9);
    assert_eq!(s.get_pixel(WIDTH, 0), 0);
    assert_eq!(s.get_pixel(0, 0), 0);
    s.pixel(5, 6, 9);
    assert_eq!(s.get_pixel(5, 6), 9);
    assert_eq!(s.get_pixel(6, 5), 0);
}

#[test]
fn clear_sets_every_pixel() {
    let mut s = Screen::new(1);
    s.pixel(3, 3, 4);
    s.clear(2);
    assert_eq!(s.get_pixel(3, 3), 2);
    assert_eq!(s.get_pixel(319, 199), 2);
}

#[test]
fn line_is_drawn() {
    let mut s = Screen::new(0);
    s.line(5, 0, -2, 0, 3, 0);
    assert_eq!(s.get_pixel(0, 0), 5);
    assert_eq!(s.get_pixel(3, 0), 5);
    assert_eq!(s.get_pixel(4, 0), 0);
}

#[test]
fn rect_is_drawn() {
    let mut s = Screen::new(0);
    s.rect(3, 10, 10, 2, 2);
    assert_eq!(s.get_pixel(10, 10), 3);
    assert_eq!(s.get_pixel(12, 12), 3);
    assert_eq!(s.get_pixel(13, 12), 0);
}

#[test]
fn dilation_is_drawn() {
    let mut s = Screen::new(0);
    s.dilation(4, 0, 0, 2);
    assert_eq!(s.get_pixel(0, 0), 4);
    assert_eq!(s.get_pixel(1, 0), 4);
    assert_eq!(s.get_pixel(0, 1), 4);
    assert_eq!(s.get_pixel(1, 1), 0);
}

#[test]
fn circle_is_drawn() {
    let mut s = Screen::new(0);
    s.circle(9, 20, 20, 5);
    assert_eq!(s.get_pixel(25, 20), 9);
    assert_eq!(s.get_pixel(20, 15), 9);
    assert_eq!(s.get_pixel(20, 20), 0);
}

#[test]
fn debug_draws_palette_grid() {
    let mut s = Screen::new(0);
    s.debug(2);
    assert_eq!(s.get_pixel(3, 3), 17);
    assert_eq!(s.get_pixel(31, 31), 255);
    assert_eq!(s.get_pixel(1, 1), 0);
}
