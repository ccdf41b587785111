use hexcanvas::palette::{closest_palette_entry, find_closest_heart, rgba_to_rgb, PALETTE_LEN};

#[test]
fn opaque_red_is_the_red_heart() {
    assert_eq!(find_closest_heart([255, 0, 0, 255]), "\u{2764}\u{fe0f}");
}

#[test]
fn transparent_red_is_the_white_heart() {
    assert_eq!(rgba_to_rgb([255, 0, 0, 0]), [255, 255, 255]);
    assert_eq!(find_closest_heart([255, 0, 0, 0]), "\u{1f90d}");
}

#[test]
fn compositing_over_white() {
    assert_eq!(rgba_to_rgb([100, 50, 0, 128]), [177, 152, 127]);
    assert_eq!(rgba_to_rgb([12, 34, 56, 255]), [12, 34, 56]);
    assert_eq!(rgba_to_rgb([12, 34, 56, 0]), [255, 255, 255]);
    assert_eq!(rgba_to_rgb([255, 255, 255, 77]), [255, 255, 255]);
    assert_eq!(rgba_to_rgb([0, 0, 0, 1]), [254, 254, 254]);
}

#[test]
fn exact_palette_colours_match_their_first_entry() {
    assert_eq!(PALETTE_LEN, 18);
    assert_eq!(closest_palette_entry([255, 0, 0]), 0);
    assert_eq!(closest_palette_entry([255, 255, 0]), 1);
    assert_eq!(closest_palette_entry([0, 255, 0]), 2);
    assert_eq!(closest_palette_entry([0, 0, 255]), 3);
    assert_eq!(closest_palette_entry([128, 0, 128]), 4);
    assert_eq!(closest_palette_entry([0, 0, 0]), 5);
    assert_eq!(closest_palette_entry([255, 255, 255]), 6);
    assert_eq!(closest_palette_entry([255, 105, 180]), 7);
    assert_eq!(closest_palette_entry([255, 192, 203]), 8);
    assert_eq!(closest_palette_entry([255, 20, 147]), 9);
    assert_eq!(closest_palette_entry([255, 182, 193]), 10);
    assert_eq!(closest_palette_entry([255, 160, 122]), 11);
    assert_eq!(closest_palette_entry([255, 165, 0]), 15);
    assert_eq!(closest_palette_entry([139, 69, 19]), 16);
}

#[test]
fn nearest_colour_wins() {
    // (10, 10, 10) is 300 from black and far from everything else
    assert_eq!(closest_palette_entry([10, 10, 10]), 5);
    assert_eq!(find_closest_heart([10, 10, 10, 255]), "\u{1f5a4}");
    assert_eq!(find_closest_heart([0, 0, 250, 255]), "\u{1f499}");
    assert_eq!(find_closest_heart([250, 250, 10, 255]), "\u{1f49b}");
}

#[test]
fn ties_go_to_the_earlier_entry() {
    // (64, 0, 64) is equally far from purple (128, 0, 128), entry 4, and
    // from black (0, 0, 0), entry 5
    assert_eq!(closest_palette_entry([64, 0, 64]), 4);
    assert_eq!(find_closest_heart([64, 0, 64, 255]), "\u{1f49c}");
    // one step towards black decides for black
    assert_eq!(closest_palette_entry([63, 0, 64]), 5);
    // duplicates of one colour: the first stands
    assert_eq!(find_closest_heart([255, 192, 203, 255]), "\u{2763}\u{fe0f}");
    assert_eq!(find_closest_heart([255, 105, 180, 255]), "\u{1f494}");
}

#[test]
fn orange_lies_between_red_and_yellow() {
    assert_eq!(closest_palette_entry([255, 127, 0]), 15);
    assert_eq!(closest_palette_entry([255, 40, 0]), 0);
    assert_eq!(closest_palette_entry([0, 127, 0]), 5);
    assert_eq!(closest_palette_entry([0, 128, 0]), 2);
}
