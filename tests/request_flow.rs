use short_iron::{debugger, redirect, shorten, validate, KnownUrls, ShortenError, UrlRequest};

#[test]
fn validate_rejects_text_that_is_not_a_url() {
    let r = validate("not a url");
    assert!(r.is_err());
    assert_eq!(r.err().unwrap().reason, url::ParseError::RelativeUrlWithoutBase);
}

#[test]
fn validate_rejects_empty_input() {
    assert!(validate("").is_err());
}

#[test]
fn validate_accepts_absolute_url() {
    assert!(validate("https://example.com").is_ok());
}

#[test]
fn validate_returns_canonical_form() {
    assert_eq!(validate("https://example.com").ok().unwrap(), "https://example.com/");
    assert_eq!(validate("HTTPS://Example.COM/a").ok().unwrap(), "https://example.com/a");
}

#[test]
fn shorten_then_redirect() {
    let mut known = KnownUrls::new();
    let req = UrlRequest { url: "https://google.com".to_string() };
    let short = match shorten(&req, &mut known) {
        Ok(s) => s,
        Err(_) => panic!("shortening a valid URL failed"),
    };
    assert!(short.starts_with("short.fe/"));
    let again = match shorten(&req, &mut known) {
        Ok(s) => s,
        Err(_) => panic!("shortening a valid URL failed"),
    };
    assert_eq!(short, again);
    let code = &short["short.fe/".len()..];
    assert_eq!(redirect(code, &known), Some("https://google.com/".to_string()));
    assert_eq!(redirect("zzzzzzzzzz", &known), None);
    assert_eq!(debugger(&known), vec![("https://google.com/".to_string(), short)]);
}

#[test]
fn shorten_on_fresh_registry_gives_nineteen_char_short_url() {
    let mut known = KnownUrls::new();
    let req = UrlRequest { url: "https://example.com".to_string() };
    match shorten(&req, &mut known) {
        Ok(s) => {
            assert!(s.starts_with("short.fe/"));
            assert_eq!(s.chars().count(), 19);
        }
        Err(_) => panic!("a valid URL on a fresh registry must be shortened"),
    }
}

#[test]
fn shorten_reports_invalid_url() {
    let mut known = KnownUrls::new();
    let req = UrlRequest { url: "not a url".to_string() };
    match shorten(&req, &mut known) {
        Err(ShortenError::InvalidUrl(e)) => {
            assert_eq!(e.reason, url::ParseError::RelativeUrlWithoutBase)
        }
        _ => panic!("expected an invalid URL error"),
    }
    assert!(debugger(&known).is_empty());
}

#[test]
fn debugger_lists_every_pair() {
    let mut known = KnownUrls::new();
    known.get_or_create_with("https://a.example/", "AAAAAAAAAA");
    known.get_or_create_with("https://b.example/", "BBBBBBBBBB");
    assert_eq!(
        debugger(&known),
        vec![
            ("https://a.example/".to_string(), "short.fe/AAAAAAAAAA".to_string()),
            ("https://b.example/".to_string(), "short.fe/BBBBBBBBBB".to_string()),
        ]
    );
}
