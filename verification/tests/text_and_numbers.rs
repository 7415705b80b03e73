use cytt::auth::{extract_token, is_success_status};
use cytt::header_map::{extract_cookies, Header};
use cytt::num::{i32_u32, i32_usize, u32_i32, u64_u32};
use cytt::string::{join_all, join_strings};
use cytt::text::{chars_of, split_chars, string_of, trim};

#[test]
fn conversions() {
    assert_eq!(u32_i32(5).unwrap(), 5);
    assert!(u32_i32(u32::MAX).is_err());
    assert_eq!(u32_i32(i32::MAX as u32).unwrap(), i32::MAX);
    assert_eq!(u64_u32(7).unwrap(), 7);
    assert!(u64_u32(u64::from(u32::MAX) + 1).is_err());
    assert!(i32_u32(-1).is_err());
    assert_eq!(i32_u32(3).unwrap(), 3);
    assert!(i32_usize(-3).is_err());
    assert_eq!(i32_usize(3).unwrap(), 3);
}

#[test]
fn joining() {
    assert_eq!(join_strings("a".to_string(), "b", "; "), "a; b");
    assert_eq!(join_strings(String::new(), "b", "; "), "b");
    assert_eq!(join_strings("a".to_string(), "", "; "), "a");
    assert_eq!(join_strings(String::new(), "", "; "), "");
    let left = join_strings(join_strings("a".to_string(), "b", "-"), "c", "-");
    let right = join_strings("a".to_string(), &join_strings("b".to_string(), "c", "-"), "-");
    assert_eq!(left, right);
    assert_eq!(join_all(&vec!["x".to_string(), "y".to_string(), "z".to_string()], ", "), "x, y, z");
    assert_eq!(join_all(&vec![], ", "), "");
}

#[test]
fn trimming_and_splitting() {
    assert_eq!(string_of(&trim(&chars_of(" \t a b \u{3000}\n"))), "a b");
    assert_eq!(string_of(&trim(&chars_of("   "))), "");
    let pieces: Vec<String> = split_chars(&chars_of("a<>b<><>c"), &chars_of("<>")).iter().map(string_of).collect();
    assert_eq!(pieces, vec!["a", "b", "", "c"]);
    let pieces: Vec<String> = split_chars(&chars_of(""), &chars_of(";")).iter().map(string_of).collect();
    assert_eq!(pieces, vec![""]);
}

#[test]
fn statuses() {
    assert!(is_success_status(200));
    assert!(is_success_status(302));
    assert!(is_success_status(399));
    assert!(!is_success_status(400));
    assert!(!is_success_status(199));
}

#[test]
fn login_token() {
    let page = "<form><input name=\"__RequestVerificationToken\" type=\"hidden\" value=\"abc123\" /></form>";
    assert_eq!(extract_token(page), Some("abc123".to_string()));
    assert_eq!(extract_token("<html></html>"), None);
}

#[test]
fn cookies() {
    let header = |name: &str, value: Option<&str>| Header { name: name.to_string(), value: value.map(|v| v.to_string()) };
    let headers = vec![
        header("set-cookie", Some("a=1; Path=/")),
        header("content-type", Some("text/html")),
        header("set-cookie", None),
        header("set-cookie", Some("b=2; HttpOnly")),
        header("set-cookie", Some("no_semicolon")),
    ];
    assert_eq!(extract_cookies(&headers), "a=1; b=2");
    assert_eq!(extract_cookies(&vec![]), "");
}
