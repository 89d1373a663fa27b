use ytamp::cookie_paste::{cookies_from_paste, shell_arguments};

const FULL: &str = "SID=a; SAPISID=b; __Secure-3PAPISID=c; __Secure-3PSID=d";

#[test]
fn a_raw_header_value_passes() {
    assert_eq!(
        cookies_from_paste(&format!(" {FULL} ")),
        Ok(FULL.to_string())
    );
}

#[test]
fn a_truncated_paste_names_the_cause() {
    let error = cookies_from_paste("SID=a…more").unwrap_err();
    assert!(error.contains("truncation mark"));
}

#[test]
fn missing_cookies_are_named() {
    let error = cookies_from_paste("SAPISID=b; YSC=x").unwrap_err();
    assert!(error.contains("SID"));
    assert!(error.contains("__Secure-3PSID"));
}

#[test]
fn a_safari_curl_paste_yields_the_header() {
    let curl = format!("curl 'https://music.youtube.com/' -H 'Cookie: {FULL}' --compressed");
    assert_eq!(cookies_from_paste(&curl), Ok(FULL.to_string()));
}

#[test]
fn a_chrome_curl_paste_yields_the_cookie_option() {
    let curl = format!("curl 'https://music.youtube.com/' -b '{FULL}' -H 'accept: */*'");
    assert_eq!(cookies_from_paste(&curl), Ok(FULL.to_string()));
}

#[test]
fn a_curl_paste_without_cookies_names_the_cause() {
    let error = cookies_from_paste("curl 'https://x' -H 'accept: */*'").unwrap_err();
    assert!(error.contains("no Cookie header"));
}

#[test]
fn the_cookie_header_name_matches_any_case() {
    let curl = format!("curl 'https://x' -H 'cookie: {FULL}'");
    assert_eq!(cookies_from_paste(&curl), Ok(FULL.to_string()));
}

#[test]
fn missing_cookies_are_listed_in_order_with_commas() {
    let error = cookies_from_paste("SAPISID=b; YSC=x").unwrap_err();
    assert_eq!(
        error,
        "The paste misses the SID, __Secure-3PAPISID, __Secure-3PSID cookies. Right-click a signed-in music.youtube.com request and use Copy as cURL."
    );
}

#[test]
fn quotes_group_words_and_whitespace_separates_them() {
    let words = shell_arguments("curl  'a b'\"c\" d'' \t e");
    assert_eq!(words, vec!["curl", "a bc", "d", "e"]);
}

#[test]
fn a_cookie_option_needs_the_exact_flag() {
    let curl = format!("curl 'https://x' -bb '{FULL}'");
    assert!(cookies_from_paste(&curl).unwrap_err().contains("no Cookie header"));
}
