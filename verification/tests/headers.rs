use rsimple_http::http::headers::Headers;

#[test]
fn new_headers_are_empty() {
    let headers = Headers::new();
    assert_eq!(headers.len(), 0);
    assert!(headers.is_empty());
    assert_eq!(headers.get("Host"), None);
    assert_eq!(headers.names(), Vec::<String>::new());
}

#[test]
fn insert_then_get() {
    let mut headers = Headers::new();
    headers.insert("Host".to_string(), "a".to_string());
    headers.insert("Accept".to_string(), "b".to_string());
    assert_eq!(headers.len(), 2);
    assert!(!headers.is_empty());
    assert_eq!(headers.get("Host"), Some(&"a".to_string()));
    assert_eq!(headers.get("Accept"), Some(&"b".to_string()));
    assert_eq!(headers.get("host"), None);
    assert_eq!(headers.get(""), None);
    assert_eq!(headers.name_at(0), "Host");
    assert_eq!(headers.value_at(0), "a");
    assert_eq!(headers.name_at(1), "Accept");
    assert_eq!(headers.value_at(1), "b");
}

#[test]
fn insert_overwrites_in_place() {
    let mut headers = Headers::new();
    headers.insert("A".to_string(), "1".to_string());
    headers.insert("B".to_string(), "2".to_string());
    headers.insert("C".to_string(), "3".to_string());
    headers.insert("B".to_string(), "4".to_string());
    assert_eq!(headers.len(), 3);
    assert_eq!(headers.names(), vec!["A".to_string(), "B".to_string(), "C".to_string()]);
    assert_eq!(headers.get("A"), Some(&"1".to_string()));
    assert_eq!(headers.get("B"), Some(&"4".to_string()));
    assert_eq!(headers.get("C"), Some(&"3".to_string()));
    headers.insert("A".to_string(), "5".to_string());
    headers.insert("A".to_string(), "6".to_string());
    assert_eq!(headers.len(), 3);
    assert_eq!(headers.get("A"), Some(&"6".to_string()));
}

#[test]
fn empty_name_is_a_name() {
    let mut headers = Headers::new();
    headers.insert(String::new(), "x".to_string());
    headers.insert(String::new(), "y".to_string());
    assert_eq!(headers.len(), 1);
    assert_eq!(headers.get(""), Some(&"y".to_string()));
}
