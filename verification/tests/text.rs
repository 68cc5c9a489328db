use bytecode_vm::text::{decimal_width, push_decimal, push_fill, push_number, push_padded, Fill};

fn decimal(n: usize) -> String {
    let mut out = String::new();
    push_decimal(&mut out, n);
    out
}

#[test]
fn push_decimal_writes_the_numeral() {
    assert_eq!(decimal(0), "0");
    assert_eq!(decimal(7), "7");
    assert_eq!(decimal(10), "10");
    assert_eq!(decimal(1234567890), "1234567890");
    assert_eq!(decimal(usize::MAX), format!("{}", usize::MAX));
}

#[test]
fn push_decimal_appends() {
    let mut out = String::from("n=");
    push_decimal(&mut out, 405);
    assert_eq!(out, "n=405");
}

#[test]
fn decimal_width_counts_the_digits() {
    assert_eq!(decimal_width(0), 1);
    assert_eq!(decimal_width(9), 1);
    assert_eq!(decimal_width(10), 2);
    assert_eq!(decimal_width(99), 2);
    assert_eq!(decimal_width(100), 3);
    assert_eq!(decimal_width(usize::MAX), format!("{}", usize::MAX).len());
}

#[test]
fn push_fill_repeats_the_character() {
    let mut out = String::from("a");
    push_fill(&mut out, 0, Fill::Zero);
    assert_eq!(out, "a");
    push_fill(&mut out, 3, Fill::Zero);
    assert_eq!(out, "a000");
    push_fill(&mut out, 2, Fill::Space);
    assert_eq!(out, "a000  ");
}

#[test]
fn push_number_pads_on_the_left() {
    let cases =
        [(0usize, 4usize), (3, 4), (42, 4), (999, 4), (1000, 4), (12345, 4), (5, 0), (5, 1)];
    for (n, width) in cases {
        let mut spaces = String::new();
        push_number(&mut spaces, n, width, Fill::Space);
        assert_eq!(spaces, format!("{: >w$}", n, w = width));
        let mut zeros = String::new();
        push_number(&mut zeros, n, width, Fill::Zero);
        assert_eq!(zeros, format!("{:0>w$}", n, w = width));
    }
}

#[test]
fn push_number_exact_columns() {
    let mut out = String::new();
    push_number(&mut out, 3, 4, Fill::Space);
    push_number(&mut out, 7, 4, Fill::Zero);
    push_number(&mut out, 123456, 4, Fill::Zero);
    assert_eq!(out, "   30007123456");
}

#[test]
fn push_padded_pads_text() {
    let mut out = String::new();
    push_padded(&mut out, "|", 4, Fill::Space);
    assert_eq!(out, "   |");
    push_padded(&mut out, "abcdef", 4, Fill::Space);
    assert_eq!(out, "   |abcdef");
    push_padded(&mut out, "\u{e9}", 3, Fill::Zero);
    assert_eq!(out, "   |abcdef00\u{e9}");
}
