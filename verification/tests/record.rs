use invoice_qr::record::{parse_line, parse_record, record_entry, FIELD_SEPARATOR, KEY_FIELD, MIN_FIELDS};

fn fields(items: &[&str]) -> Vec<String> {
    items.iter().map(|s| s.to_string()).collect()
}

fn entry(key: &str, payload: &str) -> Option<(String, String)> {
    Some((key.to_string(), payload.to_string()))
}

#[test]
fn record_constants() {
    assert_eq!(FIELD_SEPARATOR, ',');
    assert_eq!(MIN_FIELDS, 5);
    assert_eq!(KEY_FIELD, 2);
}

#[test]
fn parse_record_trims_the_line_only() {
    assert_eq!(parse_record("  a, b ,c \n"), fields(&["a", " b ", "c"]));
}

#[test]
fn parse_record_drops_empty_fields() {
    assert_eq!(parse_record("a,,b,c,d,e"), fields(&["a", "b", "c", "d", "e"]));
}

#[test]
fn parse_record_of_blank_line_has_no_fields() {
    assert_eq!(parse_record("   \t"), Vec::<String>::new());
    assert_eq!(parse_record(""), Vec::<String>::new());
}

#[test]
fn parse_record_keeps_a_field_of_spaces_inside_the_line() {
    assert_eq!(parse_record("a, ,b"), fields(&["a", " ", "b"]));
}

#[test]
fn record_entry_with_five_fields() {
    assert_eq!(
        record_entry(&fields(&["a", "b", "inv1", "c", "d"]), false),
        entry("inv1.png", "a b inv1 c d")
    );
}

#[test]
fn record_entry_joins_with_tab() {
    assert_eq!(
        record_entry(&fields(&["a", "b", "c", "d", "e"]), true),
        entry("c.png", "a\tb\tc\td\te")
    );
}

#[test]
fn record_entry_joins_every_field() {
    assert_eq!(
        record_entry(&fields(&["1", "2", "3", "4", "5", "6", "7"]), false),
        entry("3.png", "1 2 3 4 5 6 7")
    );
}

#[test]
fn record_entry_with_four_fields_is_none() {
    assert_eq!(record_entry(&fields(&["a", "b", "c", "d"]), false), None);
    assert_eq!(record_entry(&fields(&["a", "b", "c", "d"]), true), None);
}

#[test]
fn record_entry_without_fields_is_none() {
    assert_eq!(record_entry(&Vec::new(), false), None);
}

#[test]
fn parse_line_five_fields_space() {
    assert_eq!(parse_line("a,b,inv1,c,d", false), entry("inv1.png", "a b inv1 c d"));
}

#[test]
fn parse_line_empty_field_is_not_counted() {
    assert_eq!(parse_line("a,,b,c,d,e", true), entry("c.png", "a\tb\tc\td\te"));
    assert_eq!(parse_line("a,,b,c,d", true), None);
}

#[test]
fn parse_line_three_fields_is_none() {
    assert_eq!(parse_line("a,b,c", false), None);
}

#[test]
fn parse_line_trims_before_splitting() {
    assert_eq!(parse_line("  a,b,inv 7,c,d \r\n", false), entry("inv 7.png", "a b inv 7 c d"));
}

#[test]
fn parse_line_key_of_non_ascii_field() {
    assert_eq!(parse_line("x,y,café,z,w", false), entry("café.png", "x y café z w"));
}
