use http_core::Headers;

fn listed(headers: &Headers) -> Vec<(Vec<u8>, Vec<u8>)> {
    let mut out = Vec::new();
    for i in 0..headers.len() {
        out.push((headers.name_at(i).clone(), headers.value_at(i).clone()));
    }
    out
}

fn pair(name: &str, value: &str) -> (Vec<u8>, Vec<u8>) {
    (name.as_bytes().to_vec(), value.as_bytes().to_vec())
}

#[test]
fn a_new_list_is_empty() {
    let headers = Headers::new();
    assert_eq!(headers.len(), 0);
    assert_eq!(headers.get(b"host"), None);
    assert!(!headers.contains(b"host"));
}

#[test]
fn set_lets_the_last_write_win() {
    let mut headers = Headers::new();
    headers.set(b"a".to_vec(), b"1".to_vec());
    headers.set(b"b".to_vec(), b"2".to_vec());
    headers.set(b"a".to_vec(), b"3".to_vec());
    assert_eq!(headers.get(b"a"), Some(&b"3".to_vec()));
    assert_eq!(headers.get(b"b"), Some(&b"2".to_vec()));
    assert_eq!(listed(&headers), vec![pair("a", "3"), pair("b", "2")]);
}

#[test]
fn add_lets_the_first_write_win() {
    let mut headers = Headers::new();
    assert!(headers.add(b"a".to_vec(), b"1".to_vec()));
    assert!(headers.add(b"b".to_vec(), b"2".to_vec()));
    assert!(!headers.add(b"a".to_vec(), b"3".to_vec()));
    assert_eq!(headers.get(b"a"), Some(&b"1".to_vec()));
    assert_eq!(listed(&headers), vec![pair("a", "1"), pair("b", "2")]);
}

#[test]
fn names_are_compared_byte_for_byte() {
    let mut headers = Headers::new();
    headers.set(b"Host".to_vec(), b"x".to_vec());
    assert!(headers.contains(b"Host"));
    assert!(!headers.contains(b"host"));
    assert!(!headers.contains(b"Hos"));
    assert!(!headers.contains(b"Hosts"));
    headers.set(b"host".to_vec(), b"y".to_vec());
    assert_eq!(headers.len(), 2);
}

#[test]
fn the_empty_name_is_a_name() {
    let mut headers = Headers::new();
    headers.set(Vec::new(), b"v".to_vec());
    assert_eq!(headers.get(b""), Some(&b"v".to_vec()));
    assert_eq!(headers.len(), 1);
}
