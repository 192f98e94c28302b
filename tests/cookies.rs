use token_lifecycle::cookies::{header_cookie, CookieService};

#[test]
fn finds_the_named_cookie_among_several() {
    let headers = vec!["a=1; refresh_token=xyz; b=2".to_string()];
    assert_eq!(CookieService::extract_token(&headers, "refresh_token"), Some("xyz".to_string()));
    assert_eq!(CookieService::extract_token(&headers, "b"), Some("2".to_string()));
}

#[test]
fn missing_cookie_gives_none() {
    let headers = vec!["a=1; b=2".to_string()];
    assert_eq!(CookieService::extract_token(&headers, "access_token"), None);
    assert_eq!(CookieService::extract_token(&Vec::new(), "access_token"), None);
}

#[test]
fn first_header_that_holds_the_cookie_wins() {
    let headers = vec![
        "theme=dark".to_string(),
        "access_token=first".to_string(),
        "access_token=second".to_string(),
    ];
    assert_eq!(CookieService::extract_token(&headers, "access_token"), Some("first".to_string()));
}

#[test]
fn name_and_value_are_trimmed() {
    assert_eq!(header_cookie(" x=1 ;  access_token =  tok  ", "access_token"), Some("tok".to_string()));
}

#[test]
fn pieces_without_a_pair_are_passed_over() {
    assert_eq!(header_cookie("garbage; =novalue; k=v", "k"), Some("v".to_string()));
    assert_eq!(header_cookie("", "k"), None);
    assert_eq!(header_cookie("k=", "k"), Some(String::new()));
}

#[test]
fn name_must_match_exactly() {
    assert_eq!(header_cookie("refresh_token_old=1", "refresh_token"), None);
}
