use web_libusb::printf::{
    arg_kinds, conversion_kind, func, to_write, write_all, ArgKind, Argument, DoubleFormat, VaArg,
};
use web_libusb::stdio::{printf, putchar, puts};

fn render(format: &[u8], args: &[VaArg]) -> (String, i32) {
    let (items, status) = func(format, args);
    let mut text = String::new();
    write_all(&mut text, &items);
    (text, status)
}

#[test]
fn hex_with_width_five() {
    assert_eq!(render(b"%05x", &[VaArg::Word(0x2A)]), ("0002a".to_string(), 0));
}

#[test]
fn hex_pieces() {
    let (items, status) = func(b"%05x", &[VaArg::Word(0x2A)]);
    assert_eq!(status, 0);
    assert_eq!(items, vec![Argument::Extra(b""), Argument::Hex(5, 0x2A), Argument::Extra(b"")]);
}

#[test]
fn hex_widths() {
    assert_eq!(render(b"%x", &[VaArg::Word(0)]).0, "0");
    assert_eq!(render(b"%x", &[VaArg::Word(0xABCDEF)]).0, "abcdef");
    assert_eq!(render(b"%02x", &[VaArg::Word(0xF)]).0, "0f");
    assert_eq!(render(b"%02x", &[VaArg::Word(0x123)]).0, "123");
    assert_eq!(render(b"%08x", &[VaArg::Word(0xdeadbeef)]).0, "deadbeef");
    assert_eq!(render(b"%10x", &[VaArg::Word(0xffffffff)]).0, "00ffffffff");
    assert_eq!(render(b"%00x", &[VaArg::Word(7)]).0, "7");
    assert_eq!(render(b"%+4x", &[VaArg::Word(7)]).0, "0007");
    assert_eq!(render(b"%99x", &[VaArg::Word(1)]).0, format!("{:099x}", 1));
}

#[test]
fn signed_decimal() {
    assert_eq!(render(b"%d", &[VaArg::Word(0)]).0, "0");
    assert_eq!(render(b"%d", &[VaArg::Word(42)]).0, "42");
    assert_eq!(render(b"%i", &[VaArg::Word(1234567890)]).0, "1234567890");
    assert_eq!(render(b"%d", &[VaArg::Word(0xffffffff)]).0, "-1");
    assert_eq!(render(b"%d", &[VaArg::Word(0x80000000)]).0, "-2147483648");
    assert_eq!(render(b"%d", &[VaArg::Word(0x7fffffff)]).0, "2147483647");
    // a width in front of a conversion other than hex is read and not used
    assert_eq!(render(b"%05d", &[VaArg::Word(42)]).0, "42");
}

#[test]
fn literal_runs_and_conversions_in_order() {
    let (text, status) =
        render(b"len=%d id=%04x!", &[VaArg::Word(12), VaArg::Word(0xe012)]);
    assert_eq!(status, 0);
    assert_eq!(text, "len=12 id=e012!");
    let (items, _) = func(b"a%db", &[VaArg::Word(1)]);
    assert_eq!(items, vec![Argument::Extra(b"a"), Argument::Int(1), Argument::Extra(b"b")]);
}

#[test]
fn format_without_conversions() {
    let (items, status) = func(b"plain", &[]);
    assert_eq!(status, 0);
    assert_eq!(items, vec![Argument::Extra(b"plain")]);
    let (items, status) = func(b"", &[]);
    assert_eq!(status, 0);
    assert_eq!(items, vec![Argument::Extra(b"")]);
}

#[test]
fn every_conversion_pulls_its_kind() {
    let args = [
        VaArg::Word(0xfffffffe),
        VaArg::Word(0xfffffffe),
        VaArg::Word(3),
        VaArg::Word(4),
        VaArg::Word(5),
        VaArg::Word(6),
        VaArg::Word(7),
        VaArg::Word(8),
        VaArg::Str(b"text"),
        VaArg::Word(0x141),
        VaArg::Word(0x1000),
    ];
    let (items, status) = func(b"%i%u%f%F%e%E%g%G%s%c%p%%", &args);
    assert_eq!(status, 0);
    let e = Argument::Extra(b"");
    assert_eq!(
        items,
        vec![
            e,
            Argument::Int(-2),
            e,
            Argument::Uint(0xfffffffe),
            e,
            Argument::Double { value: 3, upper: false, format: DoubleFormat::Normal },
            e,
            Argument::Double { value: 4, upper: true, format: DoubleFormat::Normal },
            e,
            Argument::Double { value: 5, upper: false, format: DoubleFormat::Standard },
            e,
            Argument::Double { value: 6, upper: true, format: DoubleFormat::Standard },
            e,
            Argument::Double { value: 7, upper: false, format: DoubleFormat::Auto },
            e,
            Argument::Double { value: 8, upper: true, format: DoubleFormat::Auto },
            e,
            Argument::String(b"text"),
            e,
            Argument::Char(0x41),
            e,
            Argument::Pointer(0x1000),
            e,
            Argument::Percent,
            e,
        ]
    );
}

#[test]
fn percent_percent_pulls_no_argument() {
    let (items, status) = func(b"100%%%d", &[VaArg::Word(5)]);
    assert_eq!(status, 0);
    assert_eq!(
        items,
        vec![
            Argument::Extra(b"100"),
            Argument::Percent,
            Argument::Extra(b""),
            Argument::Int(5),
            Argument::Extra(b""),
        ]
    );
}

#[test]
fn pieces_without_a_text_render_as_nothing() {
    let args = [VaArg::Word(1), VaArg::Str(b"s"), VaArg::Word(65), VaArg::Word(2), VaArg::Word(3)];
    assert_eq!(render(b"<%u|%s|%c|%p|%f|%%>", &args), ("<|||||>".to_string(), 0));
}

#[test]
fn unknown_conversion_stops_the_reading() {
    let (items, status) = func(b"ok %d then %q rest %d", &[VaArg::Word(1), VaArg::Word(2)]);
    assert_eq!(status, -1);
    assert_eq!(
        items,
        vec![Argument::Extra(b"ok "), Argument::Int(1), Argument::Extra(b" then ")]
    );
    assert_eq!(func(b"%", &[]).1, -1);
    assert_eq!(func(b"abc%", &[]).1, -1);
    assert_eq!(func(b"%05", &[VaArg::Word(1)]).1, -1);
    assert_eq!(func(b"%5x", &[VaArg::Word(1)]).1, -1);
    assert_eq!(func(b"%l", &[VaArg::Word(1)]).1, -1);
    assert_eq!(func(b"%\0", &[VaArg::Word(1)]).1, -1);
}

#[test]
fn a_conversion_without_an_argument_of_its_kind_stops_the_reading() {
    assert_eq!(func(b"%d", &[]).1, -1);
    assert_eq!(func(b"%d%d", &[VaArg::Word(1)]).1, -1);
    assert_eq!(func(b"%d", &[VaArg::Str(b"x")]).1, -1);
    assert_eq!(func(b"%s", &[VaArg::Word(1)]).1, -1);
    let (items, status) = func(b"a%sb", &[]);
    assert_eq!(status, -1);
    assert_eq!(items, vec![Argument::Extra(b"a")]);
}

#[test]
fn to_write_appends() {
    let mut text = String::from("> ");
    to_write(&mut text, Argument::Extra(b"id "));
    to_write(&mut text, Argument::Hex(4, 0x1f));
    to_write(&mut text, Argument::Percent);
    to_write(&mut text, Argument::Int(-7));
    to_write(&mut text, Argument::Hex(0, -1));
    assert_eq!(text, "> id 001f-7ffffffff");
}

#[test]
fn literal_bytes_that_are_no_text_are_replaced() {
    let mut text = String::new();
    to_write(&mut text, Argument::Extra(&[0x61, 0xff, 0x62]));
    assert_eq!(text, "a\u{fffd}b");
    let mut text = String::new();
    to_write(&mut text, Argument::Extra("gr\u{fc}n".as_bytes()));
    assert_eq!(text, "gr\u{fc}n");
}

#[test]
fn hex_dump_cells_gather_in_the_row() {
    let mut row = String::new();
    assert_eq!(printf(&mut row, b"%02x ", &[VaArg::Word(0xab)]), (0, None));
    assert_eq!(row, "ab ");
    assert_eq!(printf(&mut row, b"%02x ", &[VaArg::Word(0x01)]), (0, None));
    assert_eq!(printf(&mut row, b"%02x ", &[VaArg::Word(0xff)]), (0, None));
    assert_eq!(row, "ab 01 ff ");
    // any other format goes out at once and leaves the row alone
    assert_eq!(
        printf(&mut row, b"%02x", &[VaArg::Word(0x10)]),
        (0, Some("10".to_string()))
    );
    assert_eq!(
        printf(&mut row, b"%02x  ", &[VaArg::Word(0x10)]),
        (0, Some("10  ".to_string()))
    );
    assert_eq!(row, "ab 01 ff ");
    // the line feed hands the row out and clears it
    assert_eq!(putchar(&mut row, 10), (0, Some("ab 01 ff ".to_string())));
    assert_eq!(row, "");
    assert_eq!(putchar(&mut row, 10), (0, Some(String::new())));
    assert_eq!(row, "");
}

#[test]
fn printf_reports_success_even_for_a_format_it_cannot_read() {
    let mut row = String::from("r");
    assert_eq!(printf(&mut row, b"a%qb", &[]), (0, Some("a".to_string())));
    assert_eq!(printf(&mut row, b"", &[]), (0, Some(String::new())));
    assert_eq!(row, "r");
}

#[test]
fn putchar_hands_out_single_characters() {
    let mut row = String::from("kept");
    assert_eq!(putchar(&mut row, 0x41), (0, Some("A".to_string())));
    assert_eq!(putchar(&mut row, 0x20ac), (0, Some("\u{20ac}".to_string())));
    assert_eq!(putchar(&mut row, 0), (0, Some("\0".to_string())));
    assert_eq!(putchar(&mut row, 0x10ffff), (0, Some("\u{10ffff}".to_string())));
    assert_eq!(putchar(&mut row, 0xd7ff), (0, Some("\u{d7ff}".to_string())));
    assert_eq!(putchar(&mut row, 0xe000), (0, Some("\u{e000}".to_string())));
    // codes that are no character
    assert_eq!(putchar(&mut row, 0xd800), (0, None));
    assert_eq!(putchar(&mut row, 0xdfff), (0, None));
    assert_eq!(putchar(&mut row, 0x110000), (0, None));
    assert_eq!(putchar(&mut row, -1), (0, None));
    assert_eq!(row, "kept");
}

#[test]
fn puts_hands_the_text_out() {
    assert_eq!(puts(b"hello"), (0, "hello".to_string()));
    assert_eq!(puts(b""), (0, String::new()));
    assert_eq!(puts(&[0x68, 0x80, 0x69]), (0, "h\u{fffd}i".to_string()));
}

#[test]
fn the_table_of_conversions() {
    for ch in b"dixufFeEgGcp" {
        assert_eq!(conversion_kind(*ch), Some(ArgKind::Word));
    }
    assert_eq!(conversion_kind(b's'), Some(ArgKind::Str));
    assert_eq!(conversion_kind(b'%'), Some(ArgKind::Nothing));
    for ch in [b'q', b'l', b'D', b'X', b'S', b' ', b'0', 0u8, 0xff] {
        assert_eq!(conversion_kind(ch), None);
    }
}

#[test]
fn what_a_format_pulls() {
    assert_eq!(arg_kinds(b""), vec![]);
    assert_eq!(arg_kinds(b"no conversions"), vec![]);
    assert_eq!(arg_kinds(b"%%"), vec![]);
    assert_eq!(
        arg_kinds(b"%d %s %% %05x"),
        vec![ArgKind::Word, ArgKind::Str, ArgKind::Word]
    );
    // up to the first character that is no conversion
    assert_eq!(arg_kinds(b"%c%q%d"), vec![ArgKind::Word]);
    assert_eq!(arg_kinds(b"%s%"), vec![ArgKind::Str]);
    assert_eq!(arg_kinds(b"%02x "), vec![ArgKind::Word]);
}

#[test]
fn arguments_of_the_kinds_pulled_make_a_readable_format_succeed() {
    let format = b"%s=%d (%02x%%)";
    let kinds = arg_kinds(format);
    let args: Vec<VaArg> = kinds
        .iter()
        .map(|k| match k {
            ArgKind::Str => VaArg::Str(b"n"),
            _ => VaArg::Word(10),
        })
        .collect();
    assert_eq!(render(format, &args), ("=10 (0a)".to_string(), 0));
}
