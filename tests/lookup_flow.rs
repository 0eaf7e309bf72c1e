use short_iron::{short_url, KnownUrls, CODE_LEN};

fn is_safe_char(c: char) -> bool {
    c == '_' || c == '-' || c.is_ascii_digit() || c.is_ascii_lowercase() || c.is_ascii_uppercase()
}

#[test]
fn scenario_with_fixed_code() {
    let mut known = KnownUrls::new();
    let first = known.get_or_create_with("https://google.com", "AbCdEfGhIj");
    assert_eq!(first, Some("short.fe/AbCdEfGhIj".to_string()));
    let again = known.get_or_create_with("https://google.com", "QQQQQQQQQQ");
    assert_eq!(again, Some("short.fe/AbCdEfGhIj".to_string()));
    assert_eq!(known.resolve("AbCdEfGhIj"), Some("https://google.com".to_string()));
    assert_eq!(known.resolve("zzzzzzzzzz"), None);
    assert_eq!(
        known.snapshot(),
        vec![("https://google.com".to_string(), "short.fe/AbCdEfGhIj".to_string())]
    );
}

#[test]
fn get_or_create_twice_gives_same_code() {
    let mut known = KnownUrls::new();
    let a = known.get_or_create("https://example.com/").unwrap();
    let b = known.get_or_create("https://example.com/").unwrap();
    assert_eq!(a, b);
    assert_eq!(known.snapshot().len(), 1);
}

#[test]
fn generated_code_has_fixed_length_and_safe_alphabet() {
    let mut known = KnownUrls::new();
    let s = known.get_or_create("https://example.com/").unwrap();
    assert!(s.starts_with("short.fe/"));
    let code = &s["short.fe/".len()..];
    assert_eq!(code.chars().count(), CODE_LEN);
    assert_eq!(CODE_LEN, 10);
    assert!(code.chars().all(is_safe_char));
}

#[test]
fn distinct_urls_get_distinct_codes() {
    let mut known = KnownUrls::new();
    let a = known.get_or_create("https://a.example/").unwrap();
    let b = known.get_or_create("https://b.example/").unwrap();
    assert_ne!(a, b);
    assert_eq!(known.snapshot().len(), 2);
}

#[test]
fn forced_collision_is_refused() {
    let mut known = KnownUrls::new();
    assert_eq!(
        known.get_or_create_with("https://a.example/", "AAAAAAAAAA"),
        Some("short.fe/AAAAAAAAAA".to_string())
    );
    assert_eq!(known.get_or_create_with("https://b.example/", "AAAAAAAAAA"), None);
    assert_eq!(known.resolve("AAAAAAAAAA"), Some("https://a.example/".to_string()));
    assert_eq!(known.snapshot().len(), 1);
    assert_eq!(
        known.get_or_create_with("https://b.example/", "BBBBBBBBBB"),
        Some("short.fe/BBBBBBBBBB".to_string())
    );
    assert_eq!(known.resolve("BBBBBBBBBB"), Some("https://b.example/".to_string()));
}

#[test]
fn resolve_round_trip() {
    let mut known = KnownUrls::new();
    let s = known.get_or_create("https://rust-lang.org/").unwrap();
    let code = &s["short.fe/".len()..];
    assert_eq!(known.resolve(code), Some("https://rust-lang.org/".to_string()));
}

#[test]
fn resolve_on_empty_registry_is_not_found() {
    let known = KnownUrls::new();
    assert_eq!(known.resolve("AbCdEfGhIj"), None);
    assert_eq!(known.resolve(""), None);
    assert!(known.snapshot().is_empty());
}

#[test]
fn many_requests_for_one_url_leave_one_entry() {
    let mut known = KnownUrls::new();
    let first = known.get_or_create("https://example.com/").unwrap();
    for _ in 0..50 {
        assert_eq!(known.get_or_create("https://example.com/").unwrap(), first);
    }
    let snap = known.snapshot();
    assert_eq!(snap, vec![("https://example.com/".to_string(), first)]);
}

#[test]
fn short_url_prefixes_host() {
    assert_eq!(short_url("AbCdEfGhIj"), "short.fe/AbCdEfGhIj");
    assert_eq!(short_url(""), "short.fe/");
}

#[test]
fn code_kept_across_other_requests() {
    let mut known = KnownUrls::new();
    let first = known.get_or_create("https://a.example/").unwrap();
    for i in 0..20 {
        let other = format!("https://b.example/{}", i);
        assert!(known.get_or_create(&other).is_some());
    }
    assert_eq!(known.get_or_create("https://a.example/").unwrap(), first);
    let code = &first["short.fe/".len()..];
    assert_eq!(known.resolve(code), Some("https://a.example/".to_string()));
    assert_eq!(known.snapshot().len(), 21);
}
