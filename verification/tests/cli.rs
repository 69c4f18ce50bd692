use pr0dl::api::ClientError;
use pr0dl::cli::{build_arg, fetch_urls};

fn some(text: &str) -> Option<String> {
    Some(text.to_string())
}

#[test]
fn posts_of_a_user() {
    assert_eq!(build_arg(some("Ryodari"), None, false), "&user=Ryodari");
    assert_eq!(build_arg(some(""), None, false), "&user=");
}

#[test]
fn favourites_of_a_user() {
    assert_eq!(
        build_arg(some("Ryodari"), None, true),
        "&user=Ryodari&collection=favoriten&self=true"
    );
}

#[test]
fn posts_with_tags() {
    assert_eq!(
        build_arg(None, some("landscape photography"), false),
        "&tags=landscape+photography"
    );
    assert_eq!(build_arg(None, some(" a  b"), true), "&tags=+a++b");
}

#[test]
fn a_user_goes_before_tags() {
    assert_eq!(build_arg(some("u"), some("t"), false), "&user=u");
}

#[test]
fn all_posts() {
    assert_eq!(build_arg(None, None, false), "");
    assert_eq!(build_arg(None, None, true), "");
}

#[test]
fn the_client_of_a_command() {
    let client = fetch_urls(some("u"), None, true, 31, some("p"), None).unwrap();
    assert_eq!(
        client.page_url(None),
        "https://pr0gramm.com/api/items/get?flags=31&user=u&collection=favoriten&self=true"
    );
    assert_eq!(client.headers.get("cookie").unwrap(), "pp=p; me=");
}

#[test]
fn a_command_with_a_broken_cookie() {
    let client = fetch_urls(None, None, false, 1, None, some("a\r\nb"));
    assert_eq!(client.err(), Some(ClientError::InvalidCookie));
}
