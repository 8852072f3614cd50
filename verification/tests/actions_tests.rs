use rproc::processes::actions::{search_url, url_encode};

#[test]
fn processes_url_encode_passes_through_unreserved() {
    assert_eq!(url_encode("Hello-World_1.2~3"), "Hello-World_1.2~3");
}

#[test]
fn processes_url_encode_spaces_become_plus() {
    assert_eq!(url_encode("linux process firefox"), "linux+process+firefox");
}

#[test]
fn processes_url_encode_special_chars_become_percent_hex() {
    assert_eq!(url_encode("a&b=c"), "a%26b%3Dc");
    assert_eq!(url_encode("?#/"), "%3F%23%2F");
}

#[test]
fn processes_url_encode_non_ascii_byte_wise() {
    assert_eq!(url_encode("é"), "%C3%A9");
}

#[test]
fn actions_tests_url_encode_passes_through_unreserved() {
    assert_eq!(url_encode("Hello-World_1.2~3"), "Hello-World_1.2~3");
}

#[test]
fn actions_tests_url_encode_spaces_become_plus() {
    assert_eq!(url_encode("linux process firefox"), "linux+process+firefox");
}

#[test]
fn actions_tests_url_encode_special_chars_become_percent_hex() {
    assert_eq!(url_encode("a&b=c"), "a%26b%3Dc");
    assert_eq!(url_encode("?#/"), "%3F%23%2F");
}

#[test]
fn actions_tests_url_encode_non_ascii_byte_wise() {
    assert_eq!(url_encode("é"), "%C3%A9");
}

#[test]
fn processes_tests_url_encode_passes_through_unreserved() {
    assert_eq!(url_encode("Hello-World_1.2~3"), "Hello-World_1.2~3");
}

#[test]
fn processes_tests_url_encode_spaces_become_plus() {
    assert_eq!(url_encode("linux process firefox"), "linux+process+firefox");
}

#[test]
fn processes_tests_url_encode_special_chars_become_percent_hex() {
    assert_eq!(url_encode("a&b=c"), "a%26b%3Dc");
    assert_eq!(url_encode("?#/"), "%3F%23%2F");
}

#[test]
fn processes_tests_url_encode_non_ascii_byte_wise() {
    assert_eq!(url_encode("é"), "%C3%A9");
}

#[test]
fn search_url_encodes_the_query() {
    assert_eq!(
        search_url("gnome-shell"),
        "https://www.google.com/search?q=linux+process+gnome-shell"
    );
    assert_eq!(
        search_url("a&b"),
        "https://www.google.com/search?q=linux+process+a%26b"
    );
}

fn form_decode(s: &str) -> Vec<u8> {
    let b = s.as_bytes();
    let mut out = Vec::new();
    let mut i = 0;
    while i < b.len() {
        if b[i] == b'+' {
            out.push(b' ');
            i += 1;
        } else if b[i] == b'%' && i + 2 < b.len() {
            let hex = std::str::from_utf8(&b[i + 1..i + 3]).unwrap();
            out.push(u8::from_str_radix(hex, 16).unwrap());
            i += 3;
        } else {
            out.push(b[i]);
            i += 1;
        }
    }
    out
}

#[test]
fn url_encoding_decodes_back_to_the_bytes() {
    for s in ["a+b c", "100% sure?", "é ü/\u{1F600}", "Hello-World_1.2~3", ""] {
        let enc = url_encode(s);
        assert!(enc.is_ascii());
        assert_eq!(form_decode(&enc), s.as_bytes());
    }
    assert_eq!(url_encode("a+b"), "a%2Bb");
}
