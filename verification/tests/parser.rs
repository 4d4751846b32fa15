use invoice_qr::mapping::OutputMapping;
use invoice_qr::parser::parse_data_from_line;

fn lines(items: &[&str]) -> Vec<String> {
    items.iter().map(|s| s.to_string()).collect()
}

fn sorted_entries(mapping: &OutputMapping) -> Vec<(String, String)> {
    let mut entries = mapping.entries().clone();
    entries.sort();
    entries
}

fn pair(key: &str, value: &str) -> (String, String) {
    (key.to_string(), value.to_string())
}

#[test]
fn one_qualifying_line_with_space() {
    let mapping = parse_data_from_line(lines(&["a,b,inv1,c,d"]), false);
    assert_eq!(sorted_entries(&mapping), vec![pair("inv1.png", "a b inv1 c d")]);
    assert_eq!(mapping.len(), 1);
    assert_eq!(mapping.get("inv1.png"), Some(&"a b inv1 c d".to_string()));
}

#[test]
fn empty_field_is_dropped_and_tab_joins() {
    let mapping = parse_data_from_line(lines(&["a,,b,c,d,e"]), true);
    assert_eq!(sorted_entries(&mapping), vec![pair("c.png", "a\tb\tc\td\te")]);
}

#[test]
fn three_fields_give_no_entry() {
    let mapping = parse_data_from_line(lines(&["a,b,c"]), false);
    assert!(mapping.is_empty());
    assert_eq!(mapping.len(), 0);
    assert!(mapping.entries().is_empty());
}

#[test]
fn four_fields_give_no_entry_five_do() {
    assert!(parse_data_from_line(lines(&["a,b,c,d"]), false).is_empty());
    assert!(parse_data_from_line(lines(&["a,b,c,d,,,"]), false).is_empty());
    assert_eq!(parse_data_from_line(lines(&["a,b,c,d,e"]), false).len(), 1);
}

#[test]
fn no_lines_give_empty_mapping() {
    assert!(parse_data_from_line(Vec::new(), false).is_empty());
    assert!(parse_data_from_line(Vec::new(), true).is_empty());
}

#[test]
fn short_lines_add_nothing_wherever_they_stand() {
    let with_short = parse_data_from_line(
        lines(&["name,id", "1,2,x,3,4", "", "a,b,c", "5,6,y,7,8", " , , "]),
        false,
    );
    let without = parse_data_from_line(lines(&["1,2,x,3,4", "5,6,y,7,8"]), false);
    assert_eq!(sorted_entries(&with_short), sorted_entries(&without));
    assert_eq!(
        sorted_entries(&without),
        vec![pair("x.png", "1 2 x 3 4"), pair("y.png", "5 6 y 7 8")]
    );
}

#[test]
fn key_is_third_field_and_payload_joins_all_fields() {
    let mapping = parse_data_from_line(lines(&["p,q,r,s,t,u,v"]), false);
    assert_eq!(sorted_entries(&mapping), vec![pair("r.png", "p q r s t u v")]);
    let mapping = parse_data_from_line(lines(&["p,q,r,s,t,u,v"]), true);
    assert_eq!(sorted_entries(&mapping), vec![pair("r.png", "p\tq\tr\ts\tt\tu\tv")]);
}

#[test]
fn parsing_twice_gives_the_same_mapping() {
    let input = lines(&["a,b,k1,c,d", "short", "e,f,k2,g,h", "i,j,k1,k,l"]);
    let first = parse_data_from_line(input.clone(), true);
    let second = parse_data_from_line(input, true);
    assert_eq!(sorted_entries(&first), sorted_entries(&second));
    assert_eq!(first.len(), 2);
}

#[test]
fn later_line_overwrites_earlier_one() {
    let mapping = parse_data_from_line(lines(&["a,b,k,c,d", "e,f,k,g,h"]), false);
    assert_eq!(sorted_entries(&mapping), vec![pair("k.png", "e f k g h")]);
    assert_eq!(mapping.len(), 1);
}

#[test]
fn last_of_many_writes_wins() {
    let mapping = parse_data_from_line(
        lines(&["1,1,k,1,1", "x,x,other,x,x", "2,2,k,2,2", "k,k", "3,3,k,3,3", "y,y,last,y,y"]),
        false,
    );
    assert_eq!(mapping.get("k.png"), Some(&"3 3 k 3 3".to_string()));
    assert_eq!(mapping.get("other.png"), Some(&"x x other x x".to_string()));
    assert_eq!(mapping.get("last.png"), Some(&"y y last y y".to_string()));
    assert_eq!(mapping.len(), 3);
}

#[test]
fn flag_changes_payload_not_key() {
    let spaced = parse_data_from_line(lines(&["a,b,k,c,d"]), false);
    let tabbed = parse_data_from_line(lines(&["a,b,k,c,d"]), true);
    assert_eq!(spaced.get("k.png"), Some(&"a b k c d".to_string()));
    assert_eq!(tabbed.get("k.png"), Some(&"a\tb\tk\tc\td".to_string()));
}

#[test]
fn every_key_ends_in_png_and_no_payload_is_empty() {
    let mapping = parse_data_from_line(
        lines(&["a,b,c,d,e", " 1,2,3,4,5 ", ",,,,", "x", "é,é,é,é,é", "..,..,.png,..,.."]),
        false,
    );
    assert_eq!(mapping.len(), 4);
    for (key, payload) in mapping.entries() {
        assert!(key.ends_with(".png"));
        assert!(key.len() > ".png".len());
        assert!(!payload.is_empty());
    }
    assert!(mapping.contains_key(".png.png"));
}

#[test]
fn lines_are_trimmed_but_fields_are_not() {
    let mapping = parse_data_from_line(lines(&["\t a , b , key , c , d \r"]), false);
    assert_eq!(sorted_entries(&mapping), vec![pair(" key .png", "a   b   key   c   d")]);
}

#[test]
fn commas_inside_values_always_separate() {
    let mapping = parse_data_from_line(lines(&["\"a,b\",c,d,e"]), false);
    assert_eq!(sorted_entries(&mapping), vec![pair("c.png", "\"a b\" c d e")]);
}
