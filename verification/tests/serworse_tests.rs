use lumin::serworse::{hash_map_to_csv, parse_csv, KvMap, ParseError};

#[test]
fn can_parse_csv() {
    let raw_string = "one,1\ntwo,2\nten,10";
    let map: KvMap<u32> = parse_csv::<u32>(raw_string).expect("Can parse_csv");
    assert_eq!(map.len(), 3);
    assert_eq!(map.get("one"), Some(&1));
    assert_eq!(map.get("two"), Some(&2));
    assert_eq!(map.get("ten"), Some(&10));
    assert_eq!(map.get("four"), None);
}

#[test]
fn csv_round_trips_in_order() {
    let raw_string = "one,1\ntwo,2\nten,10";
    let map: KvMap<u32> = parse_csv::<u32>(raw_string).unwrap();
    assert_eq!(hash_map_to_csv(&map), "one,1\ntwo,2\nten,10\n");
}

#[test]
fn csv_of_strings_round_trips() {
    let raw = "icon-a,/usr/share/icons/a.png\nicon-b,/usr/share/icons/b.png";
    let map: KvMap<String> = parse_csv::<String>(raw).unwrap();
    assert_eq!(
        map.get("icon-a").map(|s| s.as_str()),
        Some("/usr/share/icons/a.png")
    );
    assert_eq!(
        hash_map_to_csv(&map),
        "icon-a,/usr/share/icons/a.png\nicon-b,/usr/share/icons/b.png\n"
    );
}

#[test]
fn missing_separator_is_reported() {
    let err = parse_csv::<u32>("one,1\nbroken").unwrap_err();
    assert!(matches!(err, ParseError::MissingSeperator));
}

#[test]
fn bad_value_is_reported() {
    let err = parse_csv::<u32>("one,nope").unwrap_err();
    assert!(matches!(err, ParseError::IntoFailure));
    let err = parse_csv::<u32>("one,4294967296").unwrap_err();
    assert!(matches!(err, ParseError::IntoFailure));
}

#[test]
fn later_entries_overwrite_earlier_keys() {
    let map: KvMap<u32> = parse_csv::<u32>("a,1\na,2").unwrap();
    assert_eq!(map.len(), 1);
    assert_eq!(map.get("a"), Some(&2));
}

#[test]
fn insert_overwrites_and_keeps_order() {
    let mut map: KvMap<u32> = KvMap::new();
    map.insert("x".to_string(), 1);
    map.insert("y".to_string(), 2);
    map.insert("x".to_string(), 7);
    assert_eq!(map.len(), 2);
    assert_eq!(map.get("x"), Some(&7));
    assert_eq!(hash_map_to_csv(&map), "x,7\ny,2\n");
}
