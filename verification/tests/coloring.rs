use image_gen::coloring::{ColorError, SolidColor, TransparentColor};

#[test]
fn parses_six_digit_code() {
    let c = TransparentColor::from_hex_code("1e90ff").unwrap();
    assert_eq!((c.red, c.green, c.blue, c.alpha), (30, 144, 255, 255));
}

#[test]
fn parses_six_digit_code_with_hash() {
    let c = TransparentColor::from_hex_code("#052f5f").unwrap();
    assert_eq!((c.red, c.green, c.blue, c.alpha), (5, 47, 95, 255));
}

#[test]
fn parses_eight_digit_code() {
    let c = TransparentColor::from_hex_code("11223344").unwrap();
    assert_eq!((c.red, c.green, c.blue, c.alpha), (0x11, 0x22, 0x33, 0x44));
}

#[test]
fn parses_uppercase_digits() {
    let c = TransparentColor::from_hex_code("#ABCDEF").unwrap();
    assert_eq!((c.red, c.green, c.blue, c.alpha), (0xab, 0xcd, 0xef, 255));
}

#[test]
fn rejects_wrong_length() {
    match TransparentColor::from_hex_code("12345") {
        Err(ColorError::InvalidColorFormat(s)) => assert_eq!(s, "12345"),
        _ => panic!("a five-digit code must be rejected"),
    }
}

#[test]
fn rejects_non_hex_digit() {
    match TransparentColor::from_hex_code("12g45f") {
        Err(ColorError::InvalidColorFormat(s)) => assert_eq!(s, "12g45f"),
        _ => panic!("a non-hex character must be rejected"),
    }
}

#[test]
fn rejects_bare_hash() {
    assert!(matches!(
        TransparentColor::from_hex_code("#"),
        Err(ColorError::InvalidColorFormat(_))
    ));
}

#[test]
fn solid_from_six_digit_code() {
    let c = SolidColor::from_hex_code("ff8000").unwrap();
    assert_eq!((c.red, c.green, c.blue), (255, 128, 0));
}

#[test]
fn solid_from_opaque_eight_digit_code() {
    let c = SolidColor::from_hex_code("#0a0b0cff").unwrap();
    assert_eq!((c.red, c.green, c.blue), (10, 11, 12));
}

#[test]
fn solid_rejects_translucent_code() {
    match SolidColor::from_hex_code("0a0b0c80") {
        Err(ColorError::AlphaNotAllowed(s)) => assert_eq!(s, "0a0b0c80"),
        _ => panic!("a translucent code must be rejected for a solid color"),
    }
}

#[test]
fn solid_rejects_malformed_code() {
    assert!(matches!(
        SolidColor::from_hex_code("zz"),
        Err(ColorError::InvalidColorFormat(_))
    ));
}

#[test]
fn as_solid_drops_alpha() {
    let t = TransparentColor { red: 1, green: 2, blue: 3, alpha: 77 };
    let s = t.as_solid();
    assert_eq!((s.red, s.green, s.blue), (1, 2, 3));
}

#[test]
fn to_transparent_is_fully_opaque() {
    let s = SolidColor { red: 4, green: 5, blue: 6 };
    let t = s.to_transparent();
    assert_eq!((t.red, t.green, t.blue, t.alpha), (4, 5, 6, 255));
}

#[test]
fn try_into_solid_needs_full_alpha() {
    let opaque = TransparentColor { red: 9, green: 8, blue: 7, alpha: 255 };
    let translucent = TransparentColor { red: 9, green: 8, blue: 7, alpha: 254 };
    assert!(opaque.try_into_solid().is_ok());
    assert!(translucent.try_into_solid().is_err());
}

#[test]
fn draw_on_solid_exact_blend() {
    let base = SolidColor { red: 100, green: 150, blue: 200 };
    let over = TransparentColor { red: 50, green: 60, blue: 70, alpha: 128 };
    let r = over.draw_on_solid(&base);
    assert_eq!((r.red, r.green, r.blue), (74, 104, 134));
}

#[test]
fn draw_on_solid_half_white_over_black() {
    let base = SolidColor { red: 0, green: 0, blue: 0 };
    let over = TransparentColor { red: 255, green: 255, blue: 255, alpha: 128 };
    let r = over.draw_on_solid(&base);
    assert_eq!((r.red, r.green, r.blue), (128, 128, 128));
}

#[test]
fn full_opacity_overwrites_base() {
    let base = SolidColor { red: 1, green: 2, blue: 3 };
    let over = TransparentColor { red: 50, green: 60, blue: 70, alpha: 255 };
    let r = over.draw_on_solid(&base);
    let s = over.as_solid();
    assert_eq!((r.red, r.green, r.blue), (s.red, s.green, s.blue));
}

#[test]
fn zero_alpha_keeps_base() {
    let base = SolidColor { red: 100, green: 150, blue: 200 };
    let r = TransparentColor::transparent().draw_on_solid(&base);
    assert_eq!((r.red, r.green, r.blue), (100, 150, 200));
}

#[test]
fn draw_on_exact_combination() {
    let base = TransparentColor { red: 10, green: 20, blue: 30, alpha: 100 };
    let over = TransparentColor { red: 200, green: 100, blue: 50, alpha: 200 };
    let r = over.draw_on(&base);
    assert_eq!((r.red, r.green, r.blue, r.alpha), (181, 92, 47, 222));
}

#[test]
fn draw_on_zero_combined_alpha_keeps_base_channels() {
    let base = TransparentColor { red: 1, green: 2, blue: 3, alpha: 0 };
    let over = TransparentColor { red: 12, green: 34, blue: 56, alpha: 0 };
    let r = over.draw_on(&base);
    assert_eq!((r.red, r.green, r.blue, r.alpha), (1, 2, 3, 0));
}

#[test]
fn sequential_draws_match_combined_within_three_units() {
    let base = SolidColor { red: 254, green: 254, blue: 254 };
    let t1 = TransparentColor { red: 127, green: 127, blue: 127, alpha: 20 };
    let t2 = TransparentColor { red: 0, green: 0, blue: 0, alpha: 215 };
    let sequential = t2.draw_on_solid(&t1.draw_on_solid(&base));
    let combined = t2.draw_on(&t1).draw_on_solid(&base);
    assert_eq!((sequential.red, sequential.green, sequential.blue), (38, 38, 38));
    assert_eq!((combined.red, combined.green, combined.blue), (35, 35, 35));
    let channels = [
        (sequential.red, combined.red),
        (sequential.green, combined.green),
        (sequential.blue, combined.blue),
    ];
    for (s, c) in channels {
        let diff = (s as i32 - c as i32).abs();
        assert!(diff <= 3, "channel deviation {diff} exceeds the proven bound");
    }
}

#[test]
fn black_is_black() {
    let b = SolidColor::black();
    assert_eq!((b.red, b.green, b.blue), (0, 0, 0));
}

#[test]
fn transparent_is_clear() {
    let t = TransparentColor::transparent();
    assert_eq!((t.red, t.green, t.blue, t.alpha), (0, 0, 0, 0));
}
