use adsb_globe::adsb::math::{above_zero, same_number, Degrees, Point3};
use adsb_globe::adsb::text::{chars_of, decimal, split, split_lines, string_of};

fn samples() -> Vec<f32> {
    vec![
        0.0,
        -0.0,
        1.0,
        -1.0,
        0.01,
        0.1,
        0.5,
        90.0,
        -90.0,
        180.0,
        -180.0,
        f32::MIN_POSITIVE,
        -f32::MIN_POSITIVE,
        f32::from_bits(1),
        f32::from_bits(0x8000_0001),
        f32::MAX,
        f32::MIN,
        f32::INFINITY,
        f32::NEG_INFINITY,
        f32::NAN,
        -f32::NAN,
        f32::from_bits(0x7F80_0001),
        f32::from_bits(0xFF80_0001),
        f32::from_bits(0x7FFF_FFFF),
        f32::from_bits(0xFFFF_FFFF),
    ]
}

#[test]
fn above_zero_agrees_with_the_numbers() {
    for x in samples() {
        assert_eq!(above_zero(x.to_bits()), x > 0.0, "{}", x);
    }
}

#[test]
fn same_number_agrees_with_the_numbers() {
    for a in samples() {
        for b in samples() {
            assert_eq!(same_number(a.to_bits(), b.to_bits()), a == b, "{} {}", a, b);
        }
    }
}

#[test]
fn points_coincide_component_by_component() {
    let p = Point3 { x: 1.0f32.to_bits(), y: 0.0f32.to_bits(), z: 3.0f32.to_bits() };
    let q = Point3 { x: 1.0f32.to_bits(), y: (-0.0f32).to_bits(), z: 3.0f32.to_bits() };
    let r = Point3 { x: 1.0f32.to_bits(), y: 0.0f32.to_bits(), z: 3.5f32.to_bits() };
    let n = Point3 { x: f32::NAN.to_bits(), y: 0.0f32.to_bits(), z: 3.0f32.to_bits() };
    assert!(p.coincides(&p));
    assert!(p.coincides(&q));
    assert!(!p.coincides(&r));
    assert!(!n.coincides(&n));
    assert_eq!(Degrees(7), Degrees(7));
}

fn text(chars: &Vec<char>) -> String {
    chars.iter().collect()
}

#[test]
fn decimal_numerals() {
    assert_eq!(text(&decimal(0)), "0");
    assert_eq!(text(&decimal(7)), "7");
    assert_eq!(text(&decimal(10)), "10");
    assert_eq!(text(&decimal(5_000)), "5000");
    assert_eq!(text(&decimal(-1)), "-1");
    assert_eq!(text(&decimal(-120)), "-120");
    assert_eq!(text(&decimal(1_766_880_000)), "1766880000");
    assert_eq!(text(&decimal(i64::MAX)), i64::MAX.to_string());
    assert_eq!(text(&decimal(i64::MIN)), i64::MIN.to_string());
    for n in -1_000i64..1_000 {
        assert_eq!(text(&decimal(n)), n.to_string());
    }
}

#[test]
fn strings_and_characters_convert_both_ways() {
    let s = "a,b\u{e9}\u{1F600}c";
    let chars = chars_of(s);
    assert_eq!(chars, s.chars().collect::<Vec<char>>());
    assert_eq!(string_of(&chars), s);
    assert_eq!(string_of(&Vec::new()), "");
}

fn parts(s: &str, separator: char) -> Vec<String> {
    split(&chars_of(s), separator).iter().map(text).collect()
}

#[test]
fn split_cuts_at_every_separator() {
    assert_eq!(parts("", ','), vec![""]);
    assert_eq!(parts("abc", ','), vec!["abc"]);
    assert_eq!(parts("a,b,c", ','), vec!["a", "b", "c"]);
    assert_eq!(parts(",", ','), vec!["", ""]);
    assert_eq!(parts("a,,b,", ','), vec!["a", "", "b", ""]);
    for s in ["x,y", ",x", "x,", ",,", "no separators here", "1,2,3,4,5,6"] {
        let expected: Vec<String> = s.split(',').map(|p| p.to_string()).collect();
        assert_eq!(parts(s, ','), expected);
    }
}

fn lines(s: &str) -> Vec<String> {
    split_lines(&chars_of(s)).iter().map(text).collect()
}

#[test]
fn lines_end_at_line_feeds() {
    assert_eq!(lines(""), Vec::<String>::new());
    assert_eq!(lines("a"), vec!["a"]);
    assert_eq!(lines("a\n"), vec!["a"]);
    assert_eq!(lines("a\nb"), vec!["a", "b"]);
    assert_eq!(lines("a\r\nb\r\n"), vec!["a", "b"]);
    assert_eq!(lines("a\n\nb"), vec!["a", "", "b"]);
    assert_eq!(lines("\n"), vec![""]);
    assert_eq!(lines("a\r"), vec!["a\r"]);
    assert_eq!(lines("a\r\r\n"), vec!["a\r"]);
    assert_eq!(lines("\r\n\r\n"), vec!["", ""]);
    for s in ["x\ny\n", "x\r\ny", "\n\n\n", "one\r\ntwo\nthree\r", "a\rb\nc"] {
        let expected: Vec<String> = s.lines().map(|p| p.to_string()).collect();
        assert_eq!(lines(s), expected, "{:?}", s);
    }
}
