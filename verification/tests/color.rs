use heat2d::color::{sector_color, HueSector, Rgb};

/// The hue ramp on floating-point values, which ends in `sector_color`.
fn map_color(value: f64) -> Rgb {
    let h = f64::max(0.0, f64::min(1.0, (1.0 - value) * 2.0 / 6.0));
    let x = 1.0 - (((h * 6.0) % 2.0) - 1.0).abs();
    let sector = if h < 1.0 / 6.0 {
        HueSector::RedToYellow
    } else if h < 2.0 / 6.0 {
        HueSector::YellowToGreen
    } else if h < 3.0 / 6.0 {
        HueSector::GreenToCyan
    } else {
        HueSector::CyanToBlue
    };
    sector_color(sector, (x * 255.0) as u8)
}

fn distance(a: Rgb, b: Rgb) -> i32 {
    (a.r as i32 - b.r as i32).abs() + (a.g as i32 - b.g as i32).abs() + (a.b as i32 - b.b as i32).abs()
}

#[test]
fn sector_color_puts_the_intermediate_channel_in_its_place() {
    assert_eq!(sector_color(HueSector::RedToYellow, 40), Rgb { r: 255, g: 40, b: 0 });
    assert_eq!(sector_color(HueSector::YellowToGreen, 40), Rgb { r: 40, g: 255, b: 0 });
    assert_eq!(sector_color(HueSector::GreenToCyan, 40), Rgb { r: 0, g: 255, b: 40 });
    assert_eq!(sector_color(HueSector::CyanToBlue, 40), Rgb { r: 0, g: 40, b: 255 });
}

#[test]
fn sector_color_takes_every_byte() {
    for x in 0..=255u8 {
        assert_eq!(sector_color(HueSector::RedToYellow, x), Rgb { r: 255, g: x, b: 0 });
        assert_eq!(sector_color(HueSector::CyanToBlue, x), Rgb { r: 0, g: x, b: 255 });
    }
}

#[test]
fn neighbouring_sectors_meet() {
    assert_eq!(
        sector_color(HueSector::RedToYellow, 255),
        sector_color(HueSector::YellowToGreen, 255)
    );
    assert_eq!(
        sector_color(HueSector::YellowToGreen, 0),
        sector_color(HueSector::GreenToCyan, 0)
    );
    assert_eq!(
        sector_color(HueSector::GreenToCyan, 255),
        sector_color(HueSector::CyanToBlue, 255)
    );
}

#[test]
fn colour_moves_as_far_as_the_intermediate_channel() {
    let sectors = [
        HueSector::RedToYellow,
        HueSector::YellowToGreen,
        HueSector::GreenToCyan,
        HueSector::CyanToBlue,
    ];
    for sector in sectors {
        for (x, y) in [(0u8, 255u8), (10, 11), (200, 100), (7, 7)] {
            let d = distance(sector_color(sector, x), sector_color(sector, y));
            assert_eq!(d, (x as i32 - y as i32).abs());
        }
    }
}

#[test]
fn map_color_of_one_is_pure_red() {
    assert_eq!(map_color(1.0), Rgb { r: 255, g: 0, b: 0 });
}

#[test]
fn map_color_of_minus_one_is_pure_blue() {
    assert_eq!(map_color(-1.0), Rgb { r: 0, g: 0, b: 255 });
}

#[test]
fn map_color_passes_through_yellow_green_and_cyan() {
    assert_eq!(map_color(0.75), Rgb { r: 255, g: 127, b: 0 });
    assert_eq!(map_color(0.5), Rgb { r: 255, g: 255, b: 0 });
    assert_eq!(map_color(0.25), Rgb { r: 127, g: 255, b: 0 });
    assert_eq!(map_color(0.0), Rgb { r: 0, g: 255, b: 0 });
    assert_eq!(map_color(-0.5), Rgb { r: 0, g: 255, b: 255 });
}

#[test]
fn map_color_clamps_values_out_of_range() {
    assert_eq!(map_color(2.0), Rgb { r: 255, g: 0, b: 0 });
    assert_eq!(map_color(1.0e300), Rgb { r: 255, g: 0, b: 0 });
    assert_eq!(map_color(f64::INFINITY), Rgb { r: 255, g: 0, b: 0 });
    assert_eq!(map_color(-3.0), Rgb { r: 0, g: 0, b: 255 });
    assert_eq!(map_color(f64::NEG_INFINITY), Rgb { r: 0, g: 0, b: 255 });
    assert_eq!(map_color(f64::NAN), Rgb { r: 0, g: 0, b: 255 });
}

#[test]
fn map_color_has_no_jump() {
    let mut previous = map_color(-1.0);
    let mut k = -1000i32;
    while k < 1000 {
        k += 1;
        let next = map_color(k as f64 / 1000.0);
        assert!(distance(previous, next) <= 3, "jump at {}", k);
        previous = next;
    }
}
