use rask::codec::decode;

#[test]
fn decode_empty_is_empty() {
    let m = decode("");
    assert!(m.is_empty());
    assert_eq!(m.len(), 0);
}

#[test]
fn decode_single_pair() {
    let m = decode("key=value");
    assert_eq!(m.len(), 1);
    assert_eq!(m["key"], "value".to_string());
}

#[test]
fn decode_multiple_pairs() {
    let m = decode("key=value&key2=value2&key3=value3");
    assert_eq!(m.len(), 3);
    assert_eq!(m["key"], "value".to_string());
    assert_eq!(m["key2"], "value2".to_string());
    assert_eq!(m["key3"], "value3".to_string());
}

#[test]
fn decode_repeated_key_accumulates_in_order() {
    let m = decode("a=1&a=2");
    assert_eq!(m.len(), 1);
    assert_eq!(
        m.get_vec("a"),
        Some(&vec!["1".to_string(), "2".to_string()])
    );
}

#[test]
fn decode_drops_empty_key_keeps_empty_value() {
    let m = decode("=x&k=");
    assert_eq!(m.len(), 1);
    assert_eq!(m.get("k"), Some(&"".to_string()));
    assert_eq!(m.get(""), None);
}

#[test]
fn decode_pair_without_equals_gets_empty_value() {
    let m = decode("flag");
    assert_eq!(m.len(), 1);
    assert_eq!(m.get("flag"), Some(&"".to_string()));
}

#[test]
fn decode_value_keeps_later_equals() {
    let m = decode("k=a=b");
    assert_eq!(m.get("k"), Some(&"a=b".to_string()));
}
