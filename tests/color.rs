use render_color::Color;

#[test]
fn test_from_u32() {
    let hex_red = 0xFF0000;
    let hex_green = 0x00FF00;
    let hex_blue = 0x0000FF;
    let r: Color = hex_red.into();
    let g: Color = hex_green.into();
    let b: Color = hex_blue.into();
    // test red values
    assert_eq!(0x00, r.values().0);
    assert_eq!(0x00, r.values().1);
    assert_eq!(0xFF, r.values().2);
    // test green values
    assert_eq!(0x00, g.values().0);
    assert_eq!(0xFF, g.values().1);
    assert_eq!(0x00, g.values().2);
    // test blue values
    assert_eq!(0xFF, b.values().0);
    assert_eq!(0x00, b.values().1);
    assert_eq!(0x00, b.values().2);
}

#[test]
fn parse_color() {
    // test all numbers, uppercase and lowercase letters
    assert_eq!(17 * 0, Color::parse_color("00").unwrap());
    assert_eq!(17 * 1, Color::parse_color("11").unwrap());
    assert_eq!(17 * 2, Color::parse_color("22").unwrap());
    assert_eq!(17 * 3, Color::parse_color("33").unwrap());
    assert_eq!(17 * 4, Color::parse_color("44").unwrap());
    assert_eq!(17 * 5, Color::parse_color("55").unwrap());
    assert_eq!(17 * 6, Color::parse_color("66").unwrap());
    assert_eq!(17 * 7, Color::parse_color("77").unwrap());
    assert_eq!(17 * 8, Color::parse_color("88").unwrap());
    assert_eq!(17 * 9, Color::parse_color("99").unwrap());
    assert_eq!(17 * 10, Color::parse_color("aa").unwrap());
    assert_eq!(17 * 10, Color::parse_color("AA").unwrap());
    assert_eq!(17 * 11, Color::parse_color("bb").unwrap());
    assert_eq!(17 * 11, Color::parse_color("BB").unwrap());
    assert_eq!(17 * 12, Color::parse_color("cc").unwrap());
    assert_eq!(17 * 12, Color::parse_color("CC").unwrap());
    assert_eq!(17 * 13, Color::parse_color("dd").unwrap());
    assert_eq!(17 * 13, Color::parse_color("DD").unwrap());
    assert_eq!(17 * 14, Color::parse_color("ee").unwrap());
    assert_eq!(17 * 14, Color::parse_color("EE").unwrap());
    assert_eq!(17 * 15, Color::parse_color("ff").unwrap());
    assert_eq!(17 * 15, Color::parse_color("FF").unwrap());
    // test a few mixed values
    assert_eq!(00, Color::parse_color("00").unwrap());
    assert_eq!(50, Color::parse_color("32").unwrap());
    assert_eq!(100, Color::parse_color("64").unwrap());
    assert_eq!(150, Color::parse_color("96").unwrap());
    assert_eq!(200, Color::parse_color("c8").unwrap());
    assert_eq!(250, Color::parse_color("fa").unwrap());
    assert_eq!(255, Color::parse_color("ff").unwrap());
    // test invalid values
    assert_eq!(false, Color::parse_color("").is_some());
    assert_eq!(false, Color::parse_color("h").is_some());
    assert_eq!(false, Color::parse_color("h2").is_some());
    assert_eq!(false, Color::parse_color("yz").is_some());
    assert_eq!(false, Color::parse_color("3x").is_some());
}

#[test]
fn parse_rgb() {
    // test some valid color values
    let rgb_black = Color::parse_rgb("000000").unwrap();
    assert_eq!((0, 0, 0, 255), rgb_black.values());
    let rgb_red = Color::parse_rgb("ff0000").unwrap();
    assert_eq!((0, 0, 255, 255), rgb_red.values());
    let rgb_green = Color::parse_rgb("00ff00").unwrap();
    assert_eq!((0, 255, 0, 255), rgb_green.values());
    let rgb_blue = Color::parse_rgb("0000ff").unwrap();
    assert_eq!((255, 0, 0, 255), rgb_blue.values());
    let rgb_white = Color::parse_rgb("ffffff").unwrap();
    assert_eq!((255, 255, 255, 255), rgb_white.values());
    // test invalid formats
    assert_eq!(false, Color::parse_rgb("").is_some());
    assert_eq!(false, Color::parse_rgb("0").is_some());
    assert_eq!(false, Color::parse_rgb("00").is_some());
    assert_eq!(false, Color::parse_rgb("000").is_some());
    assert_eq!(false, Color::parse_rgb("0000").is_some());
    assert_eq!(false, Color::parse_rgb("00000").is_some());
    assert_eq!(false, Color::parse_rgb("xxxxxx").is_some());
    assert_eq!(false, Color::parse_rgb("0000000").is_some());
    assert_eq!(false, Color::parse_rgb("00000000").is_some());
}

#[test]
fn parse_argb() {
    // test some valid color values
    let rgb_transparent = Color::parse_argb("00000000").unwrap();
    assert_eq!((0, 0, 0, 0), rgb_transparent.values());
    let rgb_red = Color::parse_argb("40ff0000").unwrap();
    assert_eq!((0, 0, 255, 64), rgb_red.values());
    let rgb_green = Color::parse_argb("8000ff00").unwrap();
    assert_eq!((0, 255, 0, 128), rgb_green.values());
    let rgb_blue = Color::parse_argb("c00000ff").unwrap();
    assert_eq!((255, 0, 0, 192), rgb_blue.values());
    let rgb_white = Color::parse_argb("ffffffff").unwrap();
    assert_eq!((255, 255, 255, 255), rgb_white.values());
    // test some invalid formats
    assert_eq!(false, Color::parse_argb("").is_some());
    assert_eq!(false, Color::parse_argb("0").is_some());
    assert_eq!(false, Color::parse_argb("00").is_some());
    assert_eq!(false, Color::parse_argb("000").is_some());
    assert_eq!(false, Color::parse_argb("0000").is_some());
    assert_eq!(false, Color::parse_argb("00000").is_some());
    assert_eq!(false, Color::parse_argb("000000").is_some());
    assert_eq!(false, Color::parse_argb("0000000").is_some());
    assert_eq!(false, Color::parse_argb("xxxxxxxx").is_some());
    assert_eq!(false, Color::parse_argb("000000000").is_some());
    assert_eq!(false, Color::parse_argb("0000000000").is_some());
}

#[test]
fn parse() {
    // #-prefixed (HTML-style)
    assert_eq!(true, Color::parse("#000000").is_some());
    assert_eq!(true, Color::parse("#00000000").is_some());
    // 0x-prefixed (Hex-style)
    assert_eq!(true, Color::parse("0x000000").is_some());
    assert_eq!(true, Color::parse("0x00000000").is_some());
    // No prefix
    assert_eq!(true, Color::parse("000000").is_some());
    assert_eq!(true, Color::parse("00000000").is_some());
    // Actual colors
    let red = Color::parse("0xFFFF0000").unwrap();
    assert_eq!((0, 0, 255, 255), red.values());
    let green = Color::parse("0xFF00FF00").unwrap();
    assert_eq!((0, 255, 0, 255), green.values());
    let blue = Color::parse("0xFF0000FF").unwrap();
    assert_eq!((255, 0, 0, 255), blue.values());
    // wrong formats
    assert_eq!(false, Color::parse("").is_some());
    assert_eq!(false, Color::parse("0").is_some());
    assert_eq!(false, Color::parse("00").is_some());
    assert_eq!(false, Color::parse("000").is_some());
    assert_eq!(false, Color::parse("0000").is_some());
    assert_eq!(false, Color::parse("00000").is_some());
    assert_eq!(false, Color::parse("0000000").is_some());
}
