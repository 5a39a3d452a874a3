use besynx::extension::{
    authorize_extension, broadcast_targets, has_parameter, local_visit, normalize_url,
    origin_allowed, record_visit, trim, extension_token, is_whitespace, EventLogEntry, ExtensionEvent, RawVisit, Rejection,
};

const TOKEN: &str = "0190e0c4-7a1b-7c3d-9e2f-123456789abc";

#[test]
fn chrome_and_firefox_extensions_are_allowed_origins() {
    assert!(origin_allowed(b"chrome-extension://abcdef"));
    assert!(origin_allowed(b"moz-extension://1234-5678"));
}

#[test]
fn web_pages_are_not_allowed_origins() {
    assert!(!origin_allowed(b"https://evil.example"));
    assert!(!origin_allowed(b"chrome-extension:/x"));
    assert!(!origin_allowed(b""));
}

#[test]
fn unreadable_origin_is_not_allowed() {
    assert!(!origin_allowed(b"chrome-extension://ab\x7fcd"));
    assert!(!origin_allowed("chrome-extension://é".as_bytes()));
    assert!(origin_allowed(b"chrome-extension://ab\tcd"));
}

#[test]
fn connection_with_token_is_admitted() {
    let q = format!("v=2&token={}", TOKEN);
    assert_eq!(authorize_extension(Some(b"chrome-extension://x"), Some(&q), TOKEN), Ok(()));
}

#[test]
fn missing_origin_is_forbidden() {
    let q = format!("token={}", TOKEN);
    let r = authorize_extension(None, Some(&q), TOKEN);
    assert_eq!(r, Err(Rejection::Forbidden));
    assert_eq!(r.unwrap_err().status_code(), 403);
}

#[test]
fn foreign_origin_is_forbidden_even_with_token() {
    let q = format!("token={}", TOKEN);
    assert_eq!(authorize_extension(Some(b"https://a.example"), Some(&q), TOKEN), Err(Rejection::Forbidden));
}

#[test]
fn wrong_or_missing_token_is_unauthorized() {
    let origin: Option<&[u8]> = Some(b"moz-extension://x");
    let r = authorize_extension(origin, Some("token=nope"), TOKEN);
    assert_eq!(r, Err(Rejection::Unauthorized));
    assert_eq!(r.unwrap_err().status_code(), 401);
    assert_eq!(authorize_extension(origin, None, TOKEN), Err(Rejection::Unauthorized));
    assert_eq!(authorize_extension(origin, Some(""), TOKEN), Err(Rejection::Unauthorized));
    let prefixed = format!("token={}x", TOKEN);
    assert_eq!(authorize_extension(origin, Some(&prefixed), TOKEN), Err(Rejection::Unauthorized));
    let renamed = format!("tok={}", TOKEN);
    assert_eq!(authorize_extension(origin, Some(&renamed), TOKEN), Err(Rejection::Unauthorized));
}

#[test]
fn query_parameters_split_on_ampersand() {
    assert!(has_parameter(b"a=1&token=t&b", b"token=t"));
    assert!(has_parameter(b"token=t", b"token=t"));
    assert!(has_parameter(b"&&token=t&", b"token=t"));
    assert!(!has_parameter(b"xtoken=t", b"token=t"));
    assert!(has_parameter(b"a&", b""));
    assert!(!has_parameter(b"token=t=u", b"token=t"));
    assert!(has_parameter(b"token=t=u", b"token=t=u"));
}

#[test]
fn token_with_equals_sign_matches_whole_value() {
    let origin: Option<&[u8]> = Some(b"chrome-extension://x");
    assert_eq!(authorize_extension(origin, Some("token=a=b"), "a=b"), Ok(()));
}

#[test]
fn trim_removes_unicode_whitespace() {
    assert_eq!(trim("  a b \n\t"), "a b");
    assert_eq!(trim("\u{3000}x\u{a0}"), "x");
    assert_eq!(trim(" \t "), "");
    assert_eq!(trim(""), "");
}

#[test]
fn url_is_trimmed_and_lowercased() {
    assert_eq!(normalize_url("  HTTPS://Example.COM/Path \n"), "https://example.com/path");
    assert_eq!(normalize_url("Straße"), "straße");
}

fn raw(id: Option<&str>, url: Option<&str>, title: Option<&str>, ts: Option<i64>) -> RawVisit {
    RawVisit {
        id: id.map(|s| s.to_string()),
        url: url.map(|s| s.to_string()),
        title: title.map(|s| s.to_string()),
        timestamp: ts,
    }
}

#[test]
fn visit_row_takes_message_fields() {
    let (item, entry) = local_visit(raw(Some("id-1"), Some(" HTTP://A.example "), Some("A"), Some(99)), "fresh".to_string(), 5);
    assert_eq!(item.uuid, "id-1");
    assert_eq!(item.url, " HTTP://A.example ");
    assert_eq!(item.normalized_url, "http://a.example");
    assert_eq!(item.title, "A");
    assert_eq!(item.timestamp, 99);
    assert_eq!(item.browser, "extension");
    assert_eq!(item.device, "local");
    assert_eq!(item.hash, "");
    assert_eq!(item.visit_type, "visited");
    assert_eq!(entry.uuid, "id-1");
    assert_eq!(entry.operation, "VisitedAdded");
    assert_eq!(entry.timestamp, 99);
    assert_eq!(entry.vector_clock, "{}");
    assert_eq!(entry.device, "local");
}

#[test]
fn visit_row_fills_missing_fields() {
    let (item, entry) = local_visit(raw(None, None, None, None), "fresh".to_string(), 5);
    assert_eq!(item.uuid, "fresh");
    assert_eq!(item.url, "");
    assert_eq!(item.normalized_url, "");
    assert_eq!(item.title, "");
    assert_eq!(item.timestamp, 5);
    assert_eq!(entry.uuid, "fresh");
    assert_eq!(entry.timestamp, 5);
}

#[test]
fn recorded_visit_gets_uuid_and_clock() {
    let (item, _) = record_visit(raw(None, Some("x"), None, None));
    assert_eq!(item.uuid.len(), 36);
    assert_eq!(item.uuid.matches('-').count(), 4);
    assert!(item.timestamp > 1_600_000_000_000);
    let (kept, _) = record_visit(raw(Some("mine"), None, None, Some(3)));
    assert_eq!(kept.uuid, "mine");
    assert_eq!(kept.timestamp, 3);
}

#[test]
fn event_log_entry_copies_device() {
    let (mut item, _) = local_visit(raw(Some("u"), None, None, Some(1)), String::new(), 0);
    item.device = "phone".to_string();
    let entry = EventLogEntry::for_visit(&item);
    assert_eq!(entry.device, "phone");
    assert_eq!(entry.uuid, "u");
}

#[test]
fn events_are_classified_by_name() {
    assert_eq!(ExtensionEvent::classify("hello"), ExtensionEvent::Hello);
    assert_eq!(ExtensionEvent::classify("visited"), ExtensionEvent::Visited);
    assert_eq!(ExtensionEvent::classify("cookie_changed"), ExtensionEvent::CookieChanged);
    assert_eq!(ExtensionEvent::classify("cookie_deleted"), ExtensionEvent::CookieDeleted);
    assert_eq!(ExtensionEvent::classify(""), ExtensionEvent::Other);
    assert_eq!(ExtensionEvent::classify("Visited"), ExtensionEvent::Other);
}

#[test]
fn broadcast_skips_origin_connection() {
    let conns: Vec<String> = vec!["a".to_string(), "b".to_string(), "c".to_string()];
    assert_eq!(broadcast_targets(&conns, &"b".to_string()), vec!["a".to_string(), "c".to_string()]);
    assert_eq!(broadcast_targets(&conns, &"z".to_string()), conns);
    assert!(broadcast_targets(&vec!["a".to_string()], &"a".to_string()).is_empty());
}

#[test]
fn stored_token_is_trimmed() {
    assert_eq!(extension_token(Some("  abc-123\n")), ("abc-123".to_string(), false));
    assert_eq!(extension_token(Some("")), (String::new(), false));
}

#[test]
fn missing_token_is_generated() {
    let (token, fresh) = extension_token(None);
    assert!(fresh);
    assert_eq!(token.len(), 36);
}

fn assert_uuid_v7_shape(s: &str) {
    let chars: Vec<char> = s.chars().collect();
    assert_eq!(chars.len(), 36);
    for (i, c) in chars.iter().enumerate() {
        if [8, 13, 18, 23].contains(&i) {
            assert_eq!(*c, '-');
        } else {
            assert!(c.is_ascii_digit() || ('a'..='f').contains(c));
        }
    }
    assert_eq!(chars[14], '7');
    assert!(['8', '9', 'a', 'b'].contains(&chars[19]));
}

#[test]
fn generated_ids_are_uuid_v7_text() {
    let (item, _) = record_visit(raw(None, None, None, Some(1)));
    assert_uuid_v7_shape(&item.uuid);
    let (token, _) = extension_token(None);
    assert_uuid_v7_shape(&token);
}

#[test]
fn whitespace_is_the_unicode_white_space_list() {
    for c in ['\t', '\n', '\u{b}', '\u{c}', '\r', ' ', '\u{85}', '\u{a0}', '\u{1680}', '\u{2000}', '\u{200a}', '\u{2028}', '\u{2029}', '\u{202f}', '\u{205f}', '\u{3000}'] {
        assert!(is_whitespace(c), "{:?}", c);
        assert_eq!(is_whitespace(c), c.is_whitespace());
    }
    for c in ['a', '\u{8}', '\u{e}', '\u{200b}', '\u{feff}', '\u{180e}', '越'] {
        assert!(!is_whitespace(c), "{:?}", c);
        assert_eq!(is_whitespace(c), c.is_whitespace());
    }
}

#[test]
fn trim_agrees_with_std() {
    for s in [" a ", "\u{2003}x y\u{205f}", "\u{200b}x", "", "\n\n"] {
        assert_eq!(trim(s), s.trim());
    }
}
