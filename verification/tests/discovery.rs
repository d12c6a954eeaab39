use speed::discovery::{
    extract_token, find_script, find_token, script_path, script_url, targets_url, FALLBACK_TOKEN,
    PAGE_URL,
};
use speed::speedtest::Fault;

/// The same search, over the functions of the standard library.
fn token_by_std(script: &str) -> Option<String> {
    ["token:\"", "token: \"", "token='", "token = '"]
        .iter()
        .find_map(|marker| {
            let rest = script.split_once(marker)?.1;
            let quote = if marker.ends_with('\'') { '\'' } else { '"' };
            let token = rest.split(quote).next()?;
            if token.len() >= 20
                && token
                    .chars()
                    .all(|c| c.is_ascii_alphanumeric() || "-_".contains(c))
            {
                Some(token.to_owned())
            } else {
                None
            }
        })
}

fn path_by_std(html: &str) -> Option<String> {
    html.split("src=\"")
        .filter_map(|part| part.split_once('"').map(|(path, _)| path))
        .find(|path| path.starts_with("/app-") && path.ends_with(".js"))
        .map(|path| path.to_owned())
}

#[test]
fn token_follows_its_marker() {
    assert_eq!(
        extract_token("a,token:\"YXNkZmFzZGxmbnNkYWZo\",b"),
        Some("YXNkZmFzZGxmbnNkYWZo".to_string())
    );
    assert_eq!(
        extract_token("{token = 'abc-def_ghi-jkl_mno-p'}"),
        Some("abc-def_ghi-jkl_mno-p".to_string())
    );
}

#[test]
fn token_search_tries_the_markers_in_order() {
    let scripts = [
        "",
        "token:",
        "token:\"",
        "token:\"short\" token='aaaaaaaaaaaaaaaaaaaaa'",
        "token='bbbbbbbbbbbbbbbbbbbb' token:\"aaaaaaaaaaaaaaaaaaaa\"",
        "token: \"aaaaaaaaaaaaaaaaaaaa",
        "token: \"aaaaaaaaaaaaaaaaaaa\"",
        "token:\"aaaaaaaaaa aaaaaaaaaa\"",
        "token:\"ääääääääääääääääääääää\"",
        "token:\"x\" token:\"aaaaaaaaaaaaaaaaaaaaaaaa\"",
        "é token='ABCDEFGHIJKLMNOPQRST0-_' é",
        "token='ABCDEFGHIJKLMNOPQRST\"U'",
        "token = 'ABCDEFGHIJKLMNOPQRSTU",
    ];
    for script in scripts {
        assert_eq!(extract_token(script), token_by_std(script), "{script}");
    }
    assert_eq!(
        extract_token("token: \"aaaaaaaaaaaaaaaaaaaa").as_deref(),
        Some("aaaaaaaaaaaaaaaaaaaa")
    );
    assert_eq!(extract_token("token:\"x\" token:\"aaaaaaaaaaaaaaaaaaaaaaaa\""), None);
}

#[test]
fn script_path_is_the_first_application_script() {
    let pages = [
        "",
        "<script src=\"/app-1f2e.js\"></script>",
        "<img src=\"/logo.png\"><script src=\"/app-1.js\"></script><script src=\"/app-2.js\">",
        "<script src=\"/app-1.js",
        "<script src=\"/app-1.css\"><script src='/app-2.js'>",
        "/app-top.js\" src=\"/app-1.js\"",
        "<a title=\"src=\"/app-3.js\">",
        "src=\"src=\"/app-é.js\"",
        "src=\"/app-.js\"",
        "src=\"/app.js\" src=\"x/app-1.js\" src=\"/app-1.jsx\"",
    ];
    for page in pages {
        assert_eq!(script_path(page), path_by_std(page), "{page}");
    }
    assert_eq!(script_path(pages[2]).as_deref(), Some("/app-1.js"));
    assert_eq!(script_path(pages[5]).as_deref(), Some("/app-top.js"));
    assert_eq!(script_path(pages[3]), None);
}

#[test]
fn what_is_not_found_has_a_reason() {
    let page = "<script src=\"/app-7.js\"></script>";
    assert_eq!(find_script(page), Ok("https://fast.com/app-7.js".to_string()));
    assert_eq!(find_script("<html></html>"), Err(Fault::NoScript));
    assert_eq!(
        find_token("token:\"abcdefghijklmnopqrst\""),
        Ok("abcdefghijklmnopqrst".to_string())
    );
    assert_eq!(find_token("no token"), Err(Fault::NoToken));
    assert_eq!(Fault::NoScript.message(), "could not find the Fast.com application script");
    assert_eq!(Fault::NoToken.message(), "could not find the Fast.com API token");
}

#[test]
fn addresses() {
    assert_eq!(PAGE_URL, "https://fast.com/");
    assert_eq!(script_url("/app-1.js"), "https://fast.com/app-1.js");
    assert_eq!(
        targets_url("abc"),
        "https://api.fast.com/netflix/speedtest/v2?https=true&token=abc&urlCount=5"
    );
    assert_eq!(
        extract_token(&format!("token:\"{FALLBACK_TOKEN}\"")).as_deref(),
        Some(FALLBACK_TOKEN)
    );
}
