use mandelbrot::color::{
    color_at_stop, gradient_segment, gradient_stop, pack_argb, Stop, BACKGROUND, GRADIENT_LEN, STOPS,
};

#[test]
fn bottom_of_range_takes_first_stop() {
    // The first stop is (0, 0, 0.5): half intensity rounds up to 128.
    assert_eq!(color_at_stop(0), 0xff00_0080);
    assert_eq!(color_at_stop(3), 0xff00_ffff);
    assert_eq!(color_at_stop(4), 0xff80_ff80);
}

#[test]
fn every_segment_has_an_upper_stop() {
    assert_eq!(GRADIENT_LEN, STOPS + 1);
    for bin in 0..STOPS {
        let (lo, hi) = gradient_segment(bin).unwrap();
        assert_eq!(lo, gradient_stop(bin));
        assert_eq!(hi, gradient_stop(bin + 1));
    }
    assert_eq!(gradient_segment(STOPS - 1), Some((Stop { r: 0, g: 0, b: 1 }, Stop { r: 0, g: 0, b: 0 })));
}

#[test]
fn bins_past_the_last_segment_are_background() {
    assert_eq!(gradient_segment(STOPS), None);
    assert_eq!(gradient_segment(STOPS + 5), None);
    assert_eq!(gradient_segment(usize::MAX), None);
    assert_eq!(BACKGROUND, 0xff00_0000);
}

#[test]
fn pack_places_channels_and_clamps() {
    assert_eq!(pack_argb(0x12, 0x34, 0x56), 0xff12_3456);
    assert_eq!(pack_argb(-3, 300, 255), 0xff00_ffff);
    assert_eq!(pack_argb(0, 0, 0), BACKGROUND);
}
