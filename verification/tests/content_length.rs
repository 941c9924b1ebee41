use rsimple_http::http::headers::Headers;
use rsimple_http::http::request::{find_content_length_header, get_content_length};

#[test]
fn test_find_content_length_header_exact_match() {
    let headers = vec!["Content-Length".to_string(), "Host".to_string()];
    let result = find_content_length_header(headers);
    assert_eq!(result, Some("Content-Length".to_string()));
}

#[test]
fn test_find_content_length_header_case_insensitive() {
    let headers = vec!["content-length".to_string(), "Host".to_string()];
    let result = find_content_length_header(headers);
    assert_eq!(result, Some("content-length".to_string()));
}

#[test]
fn test_find_content_length_header_mixed_case() {
    let headers = vec!["Content-LENGTH".to_string(), "Host".to_string()];
    let result = find_content_length_header(headers);
    assert_eq!(result, Some("Content-LENGTH".to_string()));
}

#[test]
fn test_find_content_length_header_not_found() {
    let headers = vec!["Host".to_string(), "User-Agent".to_string()];
    let result = find_content_length_header(headers);
    assert_eq!(result, None);
}

#[test]
fn test_find_content_length_header_empty() {
    let headers = vec![];
    let result = find_content_length_header(headers);
    assert_eq!(result, None);
}

#[test]
fn test_get_content_length_valid() {
    let mut headers = Headers::new();
    headers.insert("Content-Length".to_string(), "42".to_string());
    let result = get_content_length(&headers);
    assert_eq!(result, Some(42));
}

#[test]
fn test_get_content_length_case_insensitive() {
    let mut headers = Headers::new();
    headers.insert("content-length".to_string(), "123".to_string());
    let result = get_content_length(&headers);
    assert_eq!(result, Some(123));
}

#[test]
fn test_get_content_length_zero() {
    let mut headers = Headers::new();
    headers.insert("Content-Length".to_string(), "0".to_string());
    let result = get_content_length(&headers);
    assert_eq!(result, Some(0));
}

#[test]
fn test_get_content_length_invalid_number() {
    let mut headers = Headers::new();
    headers.insert("Content-Length".to_string(), "not_a_number".to_string());
    let result = get_content_length(&headers);
    assert_eq!(result, None);
}

#[test]
fn test_get_content_length_negative_number() {
    let mut headers = Headers::new();
    headers.insert("Content-Length".to_string(), "-1".to_string());
    let result = get_content_length(&headers);
    assert_eq!(result, None);
}

#[test]
fn test_get_content_length_header_not_present() {
    let headers = Headers::new();
    let result = get_content_length(&headers);
    assert_eq!(result, None);
}

#[test]
fn test_get_content_length_empty_value() {
    let mut headers = Headers::new();
    headers.insert("Content-Length".to_string(), "".to_string());
    let result = get_content_length(&headers);
    assert_eq!(result, None);
}

#[test]
fn find_content_length_header_takes_the_first_match() {
    let headers = vec![
        "Host".to_string(),
        "CONTENT-LENGTH".to_string(),
        "Content-Length".to_string(),
    ];
    assert_eq!(find_content_length_header(headers), Some("CONTENT-LENGTH".to_string()));
}

#[test]
fn find_content_length_header_wants_the_whole_name() {
    let headers = vec![
        "Content-Length ".to_string(),
        "Content-Lengths".to_string(),
        "Content_Length".to_string(),
        "ontent-Length".to_string(),
    ];
    assert_eq!(find_content_length_header(headers), None);
}

#[test]
fn get_content_length_among_other_fields() {
    let mut headers = Headers::new();
    headers.insert("Host".to_string(), "example.org".to_string());
    headers.insert("Content-Length".to_string(), "7".to_string());
    headers.insert("Accept".to_string(), "*/*".to_string());
    assert_eq!(get_content_length(&headers), Some(7));
}

#[test]
fn get_content_length_reads_the_numeral_as_the_standard_library_does() {
    for value in ["5", "+5", "007", "0", "+0", "+", "", "5 ", " 5", "5a", "0x10", "1.5", "-0", "１２"] {
        let mut headers = Headers::new();
        headers.insert("Content-Length".to_string(), value.to_string());
        assert_eq!(get_content_length(&headers), value.parse::<usize>().ok(), "{value:?}");
    }
}

#[test]
fn get_content_length_at_the_edge_of_the_machine_word() {
    let most = usize::MAX.to_string();
    let mut headers = Headers::new();
    headers.insert("Content-Length".to_string(), most.clone());
    assert_eq!(get_content_length(&headers), Some(usize::MAX));

    let mut too_much = most.clone();
    too_much.push('0');
    let mut headers = Headers::new();
    headers.insert("Content-Length".to_string(), too_much);
    assert_eq!(get_content_length(&headers), None);

    let mut one_more: Vec<u8> = most.into_bytes();
    let last = one_more.len() - 1;
    one_more[last] += 1;
    let mut headers = Headers::new();
    headers.insert("Content-Length".to_string(), String::from_utf8(one_more).unwrap());
    assert_eq!(get_content_length(&headers), None);
}

#[test]
fn length_names_are_those_that_lowercase_to_the_plain_name() {
    let names = [
        "Content-Length",
        "content-length",
        "CONTENT-LENGTH",
        "cONTENT-lENGTH",
        "Content-Length:",
        " Content-Length",
        "Content\u{2010}Length",
        "Content-Lengt\u{212A}",
        "\u{FF23}ontent-Length",
        "Content-Le\u{0274}gth",
        "Content-Length\u{0307}",
        "CONTENT_LENGTH",
        "",
    ];
    for name in names {
        let found = find_content_length_header(vec![name.to_string()]);
        let expected = if name.to_lowercase() == "content-length" {
            Some(name.to_string())
        } else {
            None
        };
        assert_eq!(found, expected, "{name:?}");
    }
}
