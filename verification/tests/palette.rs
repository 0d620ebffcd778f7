use spectral_colors::{
    get_colors, InvalidPaletteError, NormalizedColor, QuantizedColor, SpectralColors, MIN_STOPS,
    SPECTRAL_COLORS_STRS, STOP_DEN,
};

fn stop(r: i128, g: i128, b: i128) -> NormalizedColor {
    NormalizedColor { r, g, b, a: 255, den: 255 }
}

#[test]
fn four_stops_are_read_in_order() {
    let stops = get_colors("ff000000ff000000ffffffff").unwrap();
    assert_eq!(
        stops,
        vec![stop(255, 0, 0), stop(0, 255, 0), stop(0, 0, 255), stop(255, 255, 255)]
    );
}

#[test]
fn every_channel_of_a_stop_is_a_fraction_of_one() {
    let stops = get_colors(SPECTRAL_COLORS_STRS[8]).unwrap();
    assert_eq!(6 * stops.len(), SPECTRAL_COLORS_STRS[8].len());
    for c in &stops {
        assert_eq!(c.den, STOP_DEN);
        assert_eq!(c.a, c.den);
        for ch in [c.r, c.g, c.b, c.a] {
            assert!(0 <= ch && ch <= c.den);
        }
    }
}

#[test]
fn length_four_is_refused() {
    assert_eq!(get_colors("ff00"), Err(InvalidPaletteError));
}

#[test]
fn length_seven_is_refused() {
    assert_eq!(get_colors("ff0000f"), Err(InvalidPaletteError));
}

#[test]
fn a_letter_past_f_is_refused() {
    assert_eq!(get_colors("ff00g0"), Err(InvalidPaletteError));
    assert_eq!(get_colors("ff0000"), Ok(vec![stop(255, 0, 0)]));
}

#[test]
fn a_sign_is_no_digit() {
    assert_eq!(get_colors("+f+f+f"), Err(InvalidPaletteError));
    assert_eq!(get_colors("-1-1-1"), Err(InvalidPaletteError));
}

#[test]
fn a_blank_is_no_digit() {
    assert_eq!(get_colors("ff 000"), Err(InvalidPaletteError));
}

#[test]
fn characters_outside_ascii_are_refused() {
    assert_eq!(get_colors("ff00\u{e9}0"), Err(InvalidPaletteError));
    assert_eq!(get_colors("\u{ff11}\u{ff11}"), Err(InvalidPaletteError));
}

#[test]
fn a_bad_digit_in_a_later_group_is_refused() {
    assert_eq!(get_colors("00000000000z"), Err(InvalidPaletteError));
    assert_eq!(get_colors("000000z00000"), Err(InvalidPaletteError));
}

#[test]
fn the_empty_specifier_has_no_stops() {
    assert_eq!(get_colors(""), Ok(vec![]));
}

#[test]
fn digits_of_both_cases_are_read() {
    assert_eq!(get_colors("0a1B9fAbCdEF"), Ok(vec![stop(10, 27, 159), stop(171, 205, 239)]));
    assert_eq!(get_colors("09afAF"), Ok(vec![stop(0x09, 0xaf, 0xaf)]));
    assert_eq!(get_colors("102030"), Ok(vec![stop(16, 32, 48)]));
}

#[test]
fn the_spectral_scheme_has_eleven_stops() {
    let scheme = SpectralColors::new();
    let stops = scheme.colors();
    assert_eq!(stops.len(), 11);
    assert_eq!(stops[0], stop(0x9e, 0x01, 0x42));
    assert_eq!(stops[5], stop(0xff, 0xff, 0xbf));
    assert_eq!(stops[10], stop(0x5e, 0x4f, 0xa2));
    assert_eq!(stops.to_vec(), get_colors(SPECTRAL_COLORS_STRS[8]).unwrap());
}

#[test]
fn a_palette_needs_four_stops() {
    assert_eq!(MIN_STOPS, 4);
    let three = get_colors("ff000000ff000000ff").unwrap();
    assert_eq!(three.len(), 3);
    assert!(SpectralColors::from_stops(three).is_none());
    assert!(SpectralColors::from_stops(vec![]).is_none());
    let four = get_colors("ff000000ff000000ffffffff").unwrap();
    let palette = SpectralColors::from_stops(four.clone()).unwrap();
    assert_eq!(palette.colors().to_vec(), four);
}

#[test]
fn a_palette_takes_only_stops() {
    let good = stop(1, 2, 3);
    let cases = [
        NormalizedColor { r: 1, g: 2, b: 3, a: 255, den: 256 },
        NormalizedColor { r: 1, g: 2, b: 3, a: 254, den: 255 },
        NormalizedColor { r: 256, g: 2, b: 3, a: 255, den: 255 },
        NormalizedColor { r: 1, g: -1, b: 3, a: 255, den: 255 },
        NormalizedColor { r: 1, g: 2, b: 300, a: 255, den: 255 },
    ];
    for bad in cases {
        for at in 0..4 {
            let mut stops = vec![good; 4];
            stops[at] = bad;
            assert!(SpectralColors::from_stops(stops).is_none());
        }
    }
    assert!(SpectralColors::from_stops(vec![good; 4]).is_some());
}

#[test]
fn a_stop_quantizes_to_its_own_bytes() {
    for c in get_colors(SPECTRAL_COLORS_STRS[8]).unwrap() {
        assert_eq!(
            c.quantize(),
            QuantizedColor { r: c.r as u8, g: c.g as u8, b: c.b as u8, a: 255 }
        );
    }
}

#[test]
fn every_scheme_of_the_table_is_a_specifier() {
    assert_eq!(SPECTRAL_COLORS_STRS.len(), 9);
    for (at, specifier) in SPECTRAL_COLORS_STRS.iter().enumerate() {
        let stops = get_colors(specifier).unwrap();
        assert_eq!(stops.len(), at + 3);
        assert_eq!(SpectralColors::from_stops(stops).is_some(), at + 3 >= 4);
    }
    assert_eq!(
        get_colors(SPECTRAL_COLORS_STRS[0]),
        Ok(vec![stop(0xfc, 0x8d, 0x59), stop(0xff, 0xff, 0xbf), stop(0x99, 0xd5, 0x94)])
    );
}
