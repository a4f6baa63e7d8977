use esp_host_bridge::number::{parse_milli, parse_u32, parse_u64, push_tenths, push_whole};
use esp_host_bridge::text::{
    chars_string, cut_bytes_exec, lines_exec, split_on_exec, str_chars, trim_exec, words_exec,
};

fn chars(s: &str) -> Vec<char> {
    s.chars().collect()
}

fn strings(v: &Vec<Vec<char>>) -> Vec<String> {
    v.iter().map(|l| l.iter().collect()).collect()
}

#[test]
fn lines_follow_str_lines() {
    for text in ["a\nb\r\nc", "a\n", "a\n\n", "", "\n", "x\r", "one\r\n\r\ntwo\n"] {
        let got = strings(&lines_exec(&chars(text)));
        let want: Vec<String> = text.lines().map(|l| l.to_string()).collect();
        assert_eq!(got, want, "{:?}", text);
    }
}

#[test]
fn words_follow_split_whitespace() {
    for text in ["  a  b\tc\n", "", "   ", "x", "\u{a0}y\u{2003}z "] {
        let got = strings(&words_exec(&chars(text)));
        let want: Vec<String> = text.split_whitespace().map(|w| w.to_string()).collect();
        assert_eq!(got, want, "{:?}", text);
    }
}

#[test]
fn trim_follows_str_trim() {
    for text in ["  a b  ", "\t\n", "x", "\u{3000}y\u{85}"] {
        let got: String = trim_exec(&chars(text)).iter().collect();
        assert_eq!(got, text.trim());
    }
}

#[test]
fn split_follows_str_split() {
    let sep = chars("{\"Id\":");
    for text in ["[{\"Id\":1},{\"Id\":2}]", "", "{\"Id\":", "none"] {
        let got = strings(&split_on_exec(&chars(text), &sep));
        let want: Vec<String> = text.split("{\"Id\":").map(|p| p.to_string()).collect();
        assert_eq!(got, want, "{:?}", text);
    }
}

#[test]
fn chars_round_trip() {
    let s = "héllo, wörld ✓";
    assert_eq!(chars_string(&str_chars(s)), s);
}

#[test]
fn cut_bytes_matches_byte_slicing() {
    let name = chars("a-very-long-virtual-machine-name");
    let got: String = cut_bytes_exec(&name, 24).iter().collect();
    assert_eq!(got, "a-very-long-virtual-mach");
    let short = chars("vm");
    let got: String = cut_bytes_exec(&short, 24).iter().collect();
    assert_eq!(got, "vm");
    let wide = chars("ééééééééééééxyz");
    let got: String = cut_bytes_exec(&wide, 24).iter().collect();
    assert_eq!(got, "éééééééééééé");
}

#[test]
fn unsigned_parsing_follows_str_parse() {
    assert_eq!(parse_u32(&chars("42")), Some(42));
    assert_eq!(parse_u32(&chars("+7")), Some(7));
    assert_eq!(parse_u32(&chars("-1")), None);
    assert_eq!(parse_u32(&chars("")), None);
    assert_eq!(parse_u32(&chars("+")), None);
    assert_eq!(parse_u32(&chars("4294967295")), Some(u32::MAX));
    assert_eq!(parse_u32(&chars("4294967296")), None);
    assert_eq!(parse_u64(&chars("18446744073709551615")), Some(u64::MAX));
    assert_eq!(parse_u64(&chars("18446744073709551616")), None);
    assert_eq!(parse_u64(&chars("12a")), None);
}

#[test]
fn decimal_parsing_in_thousandths() {
    assert_eq!(parse_milli(&chars("43.9")), Some(43_900));
    assert_eq!(parse_milli(&chars("+43.9")), Some(43_900));
    assert_eq!(parse_milli(&chars("-273.15")), Some(-273_150));
    assert_eq!(parse_milli(&chars("5.")), Some(5_000));
    assert_eq!(parse_milli(&chars(".5")), Some(500));
    assert_eq!(parse_milli(&chars("0.12345")), Some(123));
    assert_eq!(parse_milli(&chars("-0.0009")), Some(0));
    assert_eq!(parse_milli(&chars("45000")), Some(45_000_000));
    assert_eq!(parse_milli(&chars(".")), None);
    assert_eq!(parse_milli(&chars("")), None);
    assert_eq!(parse_milli(&chars("1.2.3")), None);
    assert_eq!(parse_milli(&chars("4-3")), None);
    assert_eq!(parse_milli(&chars(" 1")), None);
    assert_eq!(parse_milli(&chars("99999999999999999999")), None);
}

#[test]
fn decimal_parsing_with_exponents() {
    assert_eq!(parse_milli(&chars("4e4")), Some(40_000_000));
    assert_eq!(parse_milli(&chars("4E1")), Some(40_000));
    assert_eq!(parse_milli(&chars("1.5e+2")), Some(150_000));
    assert_eq!(parse_milli(&chars("25e-1")), Some(2_500));
    assert_eq!(parse_milli(&chars("-1e-4")), Some(0));
    assert_eq!(parse_milli(&chars("5e-99999999999999999999999999")), Some(0));
    assert_eq!(parse_milli(&chars("0e99999999999999999999999999")), Some(0));
    assert_eq!(parse_milli(&chars("1e99999999999999999999999999")), None);
    assert_eq!(parse_milli(&chars("e5")), None);
    assert_eq!(parse_milli(&chars("1e")), None);
    assert_eq!(parse_milli(&chars("1e+")), None);
    assert_eq!(parse_milli(&chars("1e2.5")), None);
    assert_eq!(parse_milli(&chars(".e1")), None);
}

#[test]
fn one_decimal_printing() {
    let cases = [
        (45_500, "45.5"),
        (62_299, "62.3"),
        (0, "0.0"),
        (-40, "-0.0"),
        (-1_250, "-1.2"),
        (1_350, "1.4"),
        (1_251, "1.3"),
        (100_000, "100.0"),
    ];
    for (m, want) in cases {
        let mut out = Vec::new();
        push_tenths(&mut out, m);
        let got: String = out.iter().collect();
        assert_eq!(got, want, "{}", m);
    }
    let mut out = Vec::new();
    push_whole(&mut out, -499);
    assert_eq!(out.iter().collect::<String>(), "-0");
}
