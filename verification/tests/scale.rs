use spectral_colors::{
    get_colors, position, Colors, DomainError, Fraction, NormalizedColor, QuantizedColor,
    SpectralColors, UNIT,
};

fn bytes(r: u8, g: u8, b: u8) -> QuantizedColor {
    QuantizedColor { r, g, b, a: 255 }
}

fn four_stops() -> SpectralColors {
    SpectralColors::from_stops(get_colors("ff000000ff000000ffffffff").unwrap()).unwrap()
}

/// Shows the position that it was handed: its numerator in red, its
/// denominator in green.
fn echo(_: &SpectralColors, t: Fraction) -> NormalizedColor {
    NormalizedColor { r: t.num as i128, g: t.den as i128, b: 0, a: 255, den: 255 }
}

#[test]
fn position_in_a_rising_domain() {
    assert_eq!(position(3, 1, 9), Ok(Fraction { num: 2, den: 8 }));
    assert_eq!(position(-4, 1, 9), Ok(Fraction { num: -5, den: 8 }));
    assert_eq!(position(12, 1, 9), Ok(Fraction { num: 11, den: 8 }));
    assert_eq!(position(1, 1, 9), Ok(Fraction { num: 0, den: 8 }));
    assert_eq!(position(9, 1, 9), Ok(Fraction { num: 8, den: 8 }));
}

#[test]
fn position_in_a_falling_domain() {
    assert_eq!(position(3, 9, 1), Ok(Fraction { num: 6, den: 8 }));
    assert_eq!(position(12, 9, 1), Ok(Fraction { num: -3, den: 8 }));
    assert_eq!(position(-4, 9, 1), Ok(Fraction { num: 13, den: 8 }));
}

#[test]
fn position_over_the_widest_domains() {
    assert_eq!(
        position(0, i32::MIN, i32::MAX),
        Ok(Fraction { num: 2147483648, den: u32::MAX })
    );
    assert_eq!(
        position(i32::MIN, i32::MAX, i32::MIN),
        Ok(Fraction { num: 4294967295, den: u32::MAX })
    );
    assert_eq!(
        position(i32::MAX, i32::MIN, i32::MIN + 1),
        Ok(Fraction { num: 4294967295, den: 1 })
    );
    assert_eq!(
        position(i32::MIN, i32::MAX - 1, i32::MAX),
        Ok(Fraction { num: -4294967294, den: 1 })
    );
}

#[test]
fn position_in_an_empty_domain() {
    assert_eq!(position(3, 5, 5), Err(DomainError));
    assert_eq!(position(5, 5, 5), Err(DomainError));
    assert_eq!(position(0, i32::MIN, i32::MIN), Err(DomainError));
}

#[test]
fn clamping_keeps_the_denominator() {
    assert_eq!(Fraction { num: -5, den: 8 }.clamp_unit(), Fraction { num: 0, den: 8 });
    assert_eq!(Fraction { num: 11, den: 8 }.clamp_unit(), Fraction { num: 8, den: 8 });
    assert_eq!(Fraction { num: 3, den: 8 }.clamp_unit(), Fraction { num: 3, den: 8 });
    assert_eq!(Fraction { num: 0, den: 8 }.clamp_unit(), Fraction { num: 0, den: 8 });
    assert_eq!(Fraction { num: 8, den: 8 }.clamp_unit(), Fraction { num: 8, den: 8 });
    assert_eq!(
        Fraction { num: i64::MAX, den: u32::MAX }.clamp_unit(),
        Fraction { num: u32::MAX as i64, den: u32::MAX }
    );
}

#[test]
fn equal_ends_raise_a_domain_error() {
    let palette = four_stops();
    for clamp in [false, true] {
        assert_eq!(
            palette.scale_sequential(0, clamp, 0, 0, SpectralColors::interpolate_spectral),
            Err(DomainError)
        );
        assert_eq!(
            palette.scale_sequential(3, clamp, 7, 7, SpectralColors::interpolate_spectral),
            Err(DomainError)
        );
        assert_eq!(palette.scale_sequential(3, clamp, -1, -1, echo), Err(DomainError));
    }
}

#[test]
fn the_interpolator_is_handed_the_position() {
    let palette = four_stops();
    // 30 in the domain from 10 to 110 is 20/100
    assert_eq!(palette.scale_sequential(30, false, 10, 110, echo), Ok(bytes(20, 100, 0)));
    assert_eq!(palette.scale_sequential(30, true, 10, 110, echo), Ok(bytes(20, 100, 0)));
    // 210 is 200/100: clamped to 100/100
    assert_eq!(palette.scale_sequential(210, false, 10, 110, echo), Ok(bytes(200, 100, 0)));
    assert_eq!(palette.scale_sequential(210, true, 10, 110, echo), Ok(bytes(100, 100, 0)));
    // 5 is -5/100: clamped to 0/100
    assert_eq!(palette.scale_sequential(5, false, 10, 110, echo), Ok(bytes(0, 100, 0)));
    assert_eq!(palette.scale_sequential(5, true, 10, 110, echo), Ok(bytes(0, 100, 0)));
    // in the falling domain from 110 to 10, 30 is 80/100
    assert_eq!(palette.scale_sequential(30, true, 110, 10, echo), Ok(bytes(80, 100, 0)));
}

#[test]
fn the_colour_of_the_interpolator_is_quantized() {
    let palette = four_stops();
    let fixed = |_: &SpectralColors, _: Fraction| NormalizedColor {
        r: 1,
        g: 2,
        b: 7,
        a: -3,
        den: 3,
    };
    assert_eq!(
        palette.scale_sequential(1, true, 0, 2, fixed),
        Ok(QuantizedColor { r: 85, g: 170, b: 255, a: 0 })
    );
}

#[test]
fn the_lower_end_is_the_first_stop() {
    let palette = four_stops();
    assert_eq!(
        palette.scale_sequential(0, true, 0, 1, SpectralColors::interpolate_spectral),
        Ok(bytes(255, 0, 0))
    );
    for (x0, x1) in [(0, 1), (-7, 3), (3, -7), (i32::MIN, i32::MAX), (i32::MAX, i32::MIN), (5, 6)] {
        for clamp in [false, true] {
            assert_eq!(
                palette.scale_sequential(x0, clamp, x0, x1, SpectralColors::interpolate_spectral),
                Ok(bytes(255, 0, 0))
            );
        }
    }
    let scheme = SpectralColors::new();
    assert_eq!(
        scheme.scale_sequential(-40, true, -40, 1000, SpectralColors::interpolate_spectral),
        Ok(bytes(0x9e, 0x01, 0x42))
    );
}

#[test]
fn the_upper_end_is_the_last_stop() {
    let palette = four_stops();
    assert_eq!(
        palette.scale_sequential(1, true, 0, 1, SpectralColors::interpolate_spectral),
        Ok(bytes(255, 255, 255))
    );
    let scheme = SpectralColors::new();
    for (x0, x1) in [(0, 1), (-7, 3), (3, -7), (i32::MIN, i32::MAX), (i32::MAX, i32::MIN), (5, 6)] {
        for clamp in [false, true] {
            assert_eq!(
                scheme.scale_sequential(x1, clamp, x0, x1, SpectralColors::interpolate_spectral),
                Ok(bytes(0x5e, 0x4f, 0xa2))
            );
        }
    }
}

#[test]
fn scalars_outside_the_domain_are_clamped_to_its_ends() {
    let scheme = SpectralColors::new();
    let run = |x: i32| {
        scheme.scale_sequential(x, true, -100, 300, SpectralColors::interpolate_spectral)
    };
    for x in [-101, -1000, i32::MIN] {
        assert_eq!(run(x), run(-100));
    }
    for x in [301, 1000, i32::MAX] {
        assert_eq!(run(x), run(300));
    }
    assert_eq!(run(-100), Ok(bytes(0x9e, 0x01, 0x42)));
    assert_eq!(run(300), Ok(bytes(0x5e, 0x4f, 0xa2)));
}

#[test]
fn scalars_inside_a_falling_domain_are_not_clamped() {
    let palette = four_stops();
    let run = |x: i32, clamp: bool, x0: i32, x1: i32| {
        palette.scale_sequential(x, clamp, x0, x1, SpectralColors::interpolate_spectral)
    };
    // 5 is below the first end of the domain from 10 to 0, and half way along it
    assert_eq!(run(5, true, 10, 0), Ok(bytes(42, 85, 212)));
    assert_eq!(run(12, true, 10, 0), Ok(bytes(255, 0, 0)));
    assert_eq!(run(-3, true, 10, 0), Ok(bytes(255, 255, 255)));
    assert_eq!(run(7, false, 10, 2), Ok(bytes(10, 127, 127)));
}

#[test]
fn a_scale_along_four_stops() {
    let palette = four_stops();
    let expected = [
        bytes(255, 0, 0),
        bytes(132, 116, 5),
        bytes(42, 170, 42),
        bytes(10, 127, 127),
        bytes(42, 85, 212),
        bytes(132, 138, 249),
        bytes(255, 255, 255),
        bytes(255, 255, 255),
        bytes(255, 255, 255),
    ];
    for (x, out) in expected.into_iter().enumerate() {
        for clamp in [false, true] {
            assert_eq!(
                palette.scale_sequential(
                    x as i32,
                    clamp,
                    0,
                    8,
                    SpectralColors::interpolate_spectral
                ),
                Ok(out)
            );
        }
    }
}

#[test]
fn repeated_calls_give_the_same_bytes() {
    let scheme = SpectralColors::new();
    let again = SpectralColors::new();
    for x in [-9, 0, 1, 17, 4000, 65535, 65536, 70000] {
        let first = scheme.scale_spectral(x);
        assert_eq!(scheme.scale_spectral(x), first);
        assert_eq!(again.scale_spectral(x), first);
        let clamped = scheme.scale_spectral_clamp(x);
        assert_eq!(scheme.scale_spectral_clamp(x), clamped);
        assert_eq!(
            scheme.scale_sequential(x, false, 0, UNIT, SpectralColors::interpolate_spectral),
            Ok(first)
        );
        assert_eq!(
            scheme.scale_sequential(x, true, 0, UNIT, SpectralColors::interpolate_spectral),
            Ok(clamped)
        );
    }
}

#[test]
fn the_spectral_scale_over_the_unit_domain() {
    assert_eq!(UNIT, 65536);
    let scheme = SpectralColors::new();
    let expected = [
        (i32::MIN, bytes(158, 1, 66)),
        (-5, bytes(158, 1, 66)),
        (0, bytes(158, 1, 66)),
        (1, bytes(158, 1, 66)),
        (100, bytes(158, 2, 66)),
        (5957, bytes(208, 59, 74)),
        (5958, bytes(209, 59, 74)),
        (16384, bytes(250, 156, 90)),
        (32768, bytes(241, 248, 170)),
        (49152, bytes(90, 177, 172)),
        (59578, bytes(93, 79, 162)),
        (59579, bytes(94, 78, 161)),
        (62000, bytes(111, 55, 151)),
        (65535, bytes(137, 22, 135)),
        (65536, bytes(94, 79, 162)),
        (65543, bytes(94, 79, 162)),
        (i32::MAX, bytes(94, 79, 162)),
    ];
    for (x, out) in expected {
        assert_eq!(scheme.scale_spectral(x), out);
        assert_eq!(scheme.scale_spectral_clamp(x), out);
    }
}

#[test]
fn the_colour_at_a_position_of_the_spectral_scheme() {
    let scheme = SpectralColors::new();
    assert_eq!(
        scheme.interpolate_spectral(Fraction { num: 1, den: 2 }),
        NormalizedColor { r: 11580, g: 11945, b: 8192, a: 12240, den: 12240 }
    );
    assert_eq!(
        scheme.interpolate_spectral(Fraction { num: 1, den: 2 }).quantize(),
        bytes(241, 248, 170)
    );
    assert_eq!(
        scheme.interpolate_spectral(Fraction { num: 0, den: 1 }),
        NormalizedColor { r: 948, g: 6, b: 396, a: 1530, den: 1530 }
    );
    assert_eq!(
        scheme.interpolate_spectral(Fraction { num: 9, den: 1 }),
        NormalizedColor { r: 564, g: 474, b: 972, a: 1530, den: 1530 }
    );
}
