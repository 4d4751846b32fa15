use invoice_qr::text::{join_fields, split_fields, trim};

fn strings(items: &[&str]) -> Vec<String> {
    items.iter().map(|s| s.to_string()).collect()
}

#[test]
fn trim_removes_surrounding_whitespace() {
    assert_eq!(trim("  a b \t\r\n"), "a b");
}

#[test]
fn trim_keeps_inner_whitespace() {
    assert_eq!(trim("a \t b"), "a \t b");
}

#[test]
fn trim_of_blank_line_is_empty() {
    assert_eq!(trim(" \t \n"), "");
    assert_eq!(trim(""), "");
}

#[test]
fn trim_knows_unicode_whitespace() {
    assert_eq!(trim("\u{a0}\u{3000}x y\u{2003}\u{85}"), "x y");
}

#[test]
fn trim_keeps_other_characters() {
    assert_eq!(trim("\u{200b}a\u{200b}"), "\u{200b}a\u{200b}");
    assert_eq!(trim("é,ß"), "é,ß");
}

#[test]
fn trim_agrees_with_std_trim() {
    for line in ["", " ", "x", " x", "x ", "\n\tx y\u{2028}", "  a,b ,c  ", "\u{1680}q\u{205f}"] {
        assert_eq!(trim(line), line.trim());
    }
}

#[test]
fn split_fields_drops_empty_pieces() {
    assert_eq!(split_fields("a,,b", ','), strings(&["a", "b"]));
    assert_eq!(split_fields(",a,b,", ','), strings(&["a", "b"]));
}

#[test]
fn split_fields_of_separators_only_is_empty() {
    assert_eq!(split_fields(",,,", ','), Vec::<String>::new());
    assert_eq!(split_fields("", ','), Vec::<String>::new());
}

#[test]
fn split_fields_without_separator_is_one_field() {
    assert_eq!(split_fields("abc", ','), strings(&["abc"]));
}

#[test]
fn split_fields_keeps_whitespace_inside_fields() {
    assert_eq!(split_fields("a, b ,c", ','), strings(&["a", " b ", "c"]));
    assert_eq!(split_fields(" , ", ','), strings(&[" ", " "]));
}

#[test]
fn split_fields_handles_non_ascii() {
    assert_eq!(split_fields("é,ß,,日本", ','), strings(&["é", "ß", "日本"]));
}

#[test]
fn split_fields_agrees_with_std_split() {
    for text in ["", ",", "a", "a,b", ",a,,b,", "x,,,,y", "1,2,3,4,5,6"] {
        let expected: Vec<String> =
            text.split(',').filter(|x| !x.is_empty()).map(|x| x.to_string()).collect();
        assert_eq!(split_fields(text, ','), expected);
    }
}

#[test]
fn split_fields_on_another_separator() {
    assert_eq!(split_fields("a;b,c;;d", ';'), strings(&["a", "b,c", "d"]));
}

#[test]
fn join_fields_puts_separator_between_neighbours() {
    assert_eq!(join_fields(&strings(&["a", "b", "c"]), " "), "a b c");
    assert_eq!(join_fields(&strings(&["a", "b", "c"]), "\t"), "a\tb\tc");
}

#[test]
fn join_fields_of_one_part_is_that_part() {
    assert_eq!(join_fields(&strings(&["only"]), " "), "only");
}

#[test]
fn join_fields_of_nothing_is_empty() {
    assert_eq!(join_fields(&Vec::new(), " "), "");
}

#[test]
fn join_fields_agrees_with_std_join() {
    let parts = strings(&["x", "", "y z", "é"]);
    assert_eq!(join_fields(&parts, ", "), parts.join(", "));
}
