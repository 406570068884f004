use banqline::callback::{callback_result, parse_query_param};

#[test]
fn query_params_are_read() {
    assert_eq!(parse_query_param("/callback?code=abc&state=x", "code").as_deref(), Some("abc"));
    assert_eq!(parse_query_param("/callback?state=x&code=a=b", "code").as_deref(), Some("a=b"));
    assert_eq!(parse_query_param("/callback?code=abc#frag&error=no", "error"), None);
    assert_eq!(parse_query_param("/callback?code", "code"), None);
    assert_eq!(parse_query_param("/callback?code=&code=2", "code").as_deref(), Some(""));
    assert_eq!(parse_query_param("/callback", "code"), None);
    assert_eq!(parse_query_param("/callback?x=1&&code=7", "code").as_deref(), Some("7"));
}

#[test]
fn callback_carries_code_or_error() {
    let r = callback_result("/callback?error=access_denied");
    assert_eq!(r.code, None);
    assert_eq!(r.error.as_deref(), Some("access_denied"));
    let ok = callback_result("/callback?code=xyz");
    assert_eq!(ok.code.as_deref(), Some("xyz"));
}
