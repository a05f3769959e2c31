use mjpeg_proxy::scale::scaled_height;

fn single_precision_height(width: u32, height: u32, new_width: u16) -> u16 {
    let scale: f32 = new_width as f32 / width as f32;
    (height as f32 * scale) as u16
}

#[test]
fn heights_of_common_sizes() {
    assert_eq!(scaled_height(640, 480, 320), 240);
    assert_eq!(scaled_height(1920, 1080, 1280), 720);
    assert_eq!(scaled_height(1920, 1080, 333), 187);
    assert_eq!(scaled_height(3, 10, 1), 3);
    assert_eq!(scaled_height(100, 100, 0), 0);
    assert_eq!(scaled_height(65535, 1, 1), 0);
}

#[test]
fn a_height_beyond_sixteen_bits_is_cut_off() {
    assert_eq!(scaled_height(1, 65535, 65535), 65535);
    assert_eq!(scaled_height(1, 2, 65535), 65535);
    assert_eq!(scaled_height(1, 1, 65535), 65535);
}

#[test]
fn heights_are_those_of_single_precision() {
    let mut width: u32 = 1;
    while width <= 65535 {
        let mut height: u32 = 0;
        while height <= 65535 {
            for new_width in [0u16, 1, 2, 3, 5, 7, 10, 99, 101, 640, 1023, 4099, 32771, 65533, 65535] {
                assert_eq!(
                    scaled_height(width, height, new_width),
                    single_precision_height(width, height, new_width)
                );
            }
            height += 1 + height / 3;
        }
        width += 1 + width / 40;
    }
}

#[test]
fn heights_are_those_of_single_precision_for_scattered_sides() {
    let mut state: u64 = 88172645463325252;
    for _ in 0..200000 {
        state ^= state << 13;
        state ^= state >> 7;
        state ^= state << 17;
        let width = (state & 0xffff) as u32;
        let height = ((state >> 16) & 0xffff) as u32;
        let new_width = ((state >> 32) & 0xffff) as u16;
        if width > 0 {
            assert_eq!(
                scaled_height(width, height, new_width),
                single_precision_height(width, height, new_width)
            );
        }
    }
}

#[test]
fn the_same_width_keeps_the_height() {
    for side in [1u32, 2, 3, 255, 256, 640, 21845, 65535] {
        for height in [0u32, 1, 7, 480, 65535] {
            assert_eq!(scaled_height(side, height, side as u16) as u32, height);
        }
    }
}

#[test]
fn the_aspect_ratio_is_kept() {
    for (width, height, new_width) in [(640u32, 480u32, 100u16), (1279, 717, 911), (49, 51, 7000)] {
        let exact = 100 * height as u64 * new_width as u64;
        let got = scaled_height(width, height, new_width) as u64;
        assert!(100 * got * (width as u64) < exact + width as u64);
        assert!(exact < (100 * got + 101) * width as u64);
    }
}

#[test]
fn the_ratio_is_one_only_for_equal_widths() {
    for width in [1u16, 2, 3, 1000, 65534, 65535] {
        for new_width in [1u16, 2, 3, 999, 1000, 1001, 65533, 65534, 65535] {
            let scale: f32 = new_width as f32 / width as f32;
            assert_eq!(scale == 1.0, new_width == width);
        }
    }
}
