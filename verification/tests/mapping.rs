use invoice_qr::mapping::OutputMapping;

fn pair(key: &str, value: &str) -> (String, String) {
    (key.to_string(), value.to_string())
}

#[test]
fn new_mapping_is_empty() {
    let mapping = OutputMapping::new();
    assert_eq!(mapping.len(), 0);
    assert!(mapping.is_empty());
    assert!(mapping.entries().is_empty());
    assert_eq!(mapping.get("a.png"), None);
}

#[test]
fn insert_then_get() {
    let mut mapping = OutputMapping::new();
    mapping.insert("a.png".to_string(), "one".to_string());
    assert_eq!(mapping.get("a.png"), Some(&"one".to_string()));
    assert_eq!(mapping.get("b.png"), None);
    assert!(mapping.contains_key("a.png"));
    assert!(!mapping.contains_key("a"));
    assert_eq!(mapping.len(), 1);
    assert!(!mapping.is_empty());
}

#[test]
fn insert_under_present_key_replaces() {
    let mut mapping = OutputMapping::new();
    mapping.insert("a.png".to_string(), "one".to_string());
    mapping.insert("b.png".to_string(), "two".to_string());
    mapping.insert("a.png".to_string(), "three".to_string());
    assert_eq!(mapping.len(), 2);
    assert_eq!(mapping.get("a.png"), Some(&"three".to_string()));
    assert_eq!(mapping.get("b.png"), Some(&"two".to_string()));
}

#[test]
fn entries_list_each_key_once() {
    let mut mapping = OutputMapping::new();
    mapping.insert("a.png".to_string(), "one".to_string());
    mapping.insert("b.png".to_string(), "two".to_string());
    mapping.insert("a.png".to_string(), "three".to_string());
    mapping.insert("c.png".to_string(), "four".to_string());
    let mut entries = mapping.entries().clone();
    entries.sort();
    assert_eq!(entries, vec![pair("a.png", "three"), pair("b.png", "two"), pair("c.png", "four")]);
    assert_eq!(mapping.entries().len(), mapping.len());
}

#[test]
fn keys_differ_by_case_and_length() {
    let mut mapping = OutputMapping::new();
    mapping.insert("a.png".to_string(), "1".to_string());
    mapping.insert("A.png".to_string(), "2".to_string());
    mapping.insert("a.pn".to_string(), "3".to_string());
    assert_eq!(mapping.len(), 3);
    assert_eq!(mapping.get("A.png"), Some(&"2".to_string()));
}
