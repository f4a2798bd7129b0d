use shortcut_keeper::screens::main_screen::calc_longest_lens;
use shortcut_keeper::shortcuts::Shortcut;
use shortcut_keeper::utils::take_input_number;

#[test]
fn parses_plain_numbers() {
    assert_eq!(take_input_number("42"), Some(42));
    assert_eq!(take_input_number("0"), Some(0));
    assert_eq!(take_input_number("007"), Some(7));
}

#[test]
fn parses_signed_numbers() {
    assert_eq!(take_input_number("+3"), Some(3));
    assert_eq!(take_input_number("-7"), Some(-7));
    assert_eq!(take_input_number("-0"), Some(0));
}

#[test]
fn parses_the_type_range_exactly() {
    assert_eq!(take_input_number("2147483647"), Some(i32::MAX));
    assert_eq!(take_input_number("2147483648"), None);
    assert_eq!(take_input_number("-2147483648"), Some(i32::MIN));
    assert_eq!(take_input_number("-2147483649"), None);
    assert_eq!(take_input_number("99999999999999999999"), None);
}

#[test]
fn rejects_anything_that_is_not_a_number() {
    assert_eq!(take_input_number(""), None);
    assert_eq!(take_input_number("+"), None);
    assert_eq!(take_input_number("-"), None);
    assert_eq!(take_input_number("abc"), None);
    assert_eq!(take_input_number("12x"), None);
    assert_eq!(take_input_number(" 12"), None);
    assert_eq!(take_input_number("1 2"), None);
    assert_eq!(take_input_number("--3"), None);
}

#[test]
fn column_widths_cover_entries_and_headers() {
    let mut shortcuts = vec![
        Shortcut::from("CTRL+S".to_string(), "save".to_string()),
        Shortcut::from("A".to_string(), "a rather long description".to_string()),
    ];
    let headers = ["Lookup count", "Shortcut", "Description"];
    let widths = calc_longest_lens(&shortcuts, &headers);
    // Headers win where every entry is narrower; the long description wins
    // its column.
    assert_eq!(widths, vec![12, 8, 25]);
    shortcuts.clear();
    let empty_widths = calc_longest_lens(&shortcuts, &headers);
    assert_eq!(empty_widths, vec![12, 8, 11]);
}
