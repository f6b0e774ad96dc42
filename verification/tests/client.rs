use oxidarr::client::{after_response, next_hop, Body, Hop, HttpRequest, Method, MAX_REDIRECT_HOPS};

fn loc(url: &str) -> Vec<(String, String)> {
    vec![("Location".to_string(), url.to_string())]
}

fn u(s: &str) -> String {
    url::Url::parse(s).unwrap().to_string()
}

#[test]
fn a_302_with_a_relative_location_resolves_against_the_current_url() {
    let hop = next_hop(302, &loc("/next"), &u("https://t.example/a/b"), Method::Get).unwrap();
    assert_eq!(hop.0.as_str(), "https://t.example/next");
    assert_eq!(hop.1, Method::Get);
    assert!(!hop.2, "GET->GET keeps whatever body it had (none)");
}

#[test]
fn a_302_with_an_absolute_location_uses_it_directly() {
    let hop = next_hop(
        302,
        &loc("https://other.example/target"),
        &u("https://t.example/a"),
        Method::Get,
    )
    .unwrap();
    assert_eq!(hop.0.as_str(), "https://other.example/target");
}

#[test]
fn a_303_always_switches_to_get_and_drops_the_body_even_from_get() {
    let hop = next_hop(303, &loc("/next"), &u("https://t.example/"), Method::Get).unwrap();
    assert_eq!(hop.1, Method::Get);
    assert!(hop.2);
}

#[test]
fn a_303_from_post_switches_to_get_and_drops_the_body() {
    let hop = next_hop(303, &loc("/next"), &u("https://t.example/"), Method::Post).unwrap();
    assert_eq!(hop.1, Method::Get);
    assert!(hop.2);
}

#[test]
fn a_302_after_post_downgrades_to_get_and_drops_the_body() {
    let hop = next_hop(302, &loc("/next"), &u("https://t.example/"), Method::Post).unwrap();
    assert_eq!(hop.1, Method::Get);
    assert!(hop.2);
}

#[test]
fn a_301_after_post_downgrades_to_get_and_drops_the_body() {
    let hop = next_hop(301, &loc("/next"), &u("https://t.example/"), Method::Post).unwrap();
    assert_eq!(hop.1, Method::Get);
    assert!(hop.2);
}

#[test]
fn a_301_after_get_stays_get_and_keeps_the_body_flag_false() {
    let hop = next_hop(301, &loc("/next"), &u("https://t.example/"), Method::Get).unwrap();
    assert_eq!(hop.1, Method::Get);
    assert!(!hop.2);
}

#[test]
fn a_307_preserves_a_post_method_and_does_not_drop_the_body() {
    let hop = next_hop(307, &loc("/next"), &u("https://t.example/"), Method::Post).unwrap();
    assert_eq!(hop.1, Method::Post);
    assert!(!hop.2);
}

#[test]
fn a_308_preserves_a_post_method_and_does_not_drop_the_body() {
    let hop = next_hop(308, &loc("/next"), &u("https://t.example/"), Method::Post).unwrap();
    assert_eq!(hop.1, Method::Post);
    assert!(!hop.2);
}

#[test]
fn a_missing_location_header_is_none() {
    assert!(next_hop(302, &[], &u("https://t.example/"), Method::Get).is_none());
}

#[test]
fn a_non_redirect_status_is_none_even_with_a_location_header() {
    assert!(next_hop(200, &loc("/next"), &u("https://t.example/"), Method::Get).is_none());
    assert!(next_hop(404, &loc("/next"), &u("https://t.example/"), Method::Get).is_none());
    assert!(next_hop(500, &loc("/next"), &u("https://t.example/"), Method::Get).is_none());
}

#[test]
fn an_unresolvable_location_is_none() {
    // Neither an absolute URL nor a valid relative reference against
    // the current URL (a bare, unescaped space is invalid in either
    // position).
    assert!(
        next_hop(
            302,
            &loc("http://\0"),
            &u("https://t.example/"),
            Method::Get
        )
        .is_none()
    );
}

#[test]
fn the_location_header_name_is_matched_case_insensitively() {
    let headers = vec![("location".to_string(), "/next".to_string())];
    let hop = next_hop(302, &headers, &u("https://t.example/a"), Method::Get).unwrap();
    assert_eq!(hop.0.as_str(), "https://t.example/next");
}

fn post(url: &str, follow: bool) -> HttpRequest {
    HttpRequest {
        method: Method::Post,
        url: u(url),
        headers: vec![("X-A".to_string(), "1".to_string())],
        body: Some(Body::Form(vec![("k".to_string(), "v".to_string())])),
        follow_redirects: follow,
    }
}

#[test]
fn a_followed_redirect_becomes_the_next_request() {
    match after_response(post("https://t.example/login", true), 1, 302, &loc("/home")) {
        Hop::Follow(next) => {
            assert_eq!(next.url, "https://t.example/home");
            assert_eq!(next.method, Method::Get);
            assert_eq!(next.body, None);
            assert_eq!(next.headers, vec![("X-A".to_string(), "1".to_string())]);
            assert!(next.follow_redirects);
        }
        other => panic!("expected a hop, got {other:?}"),
    }
    match after_response(post("https://t.example/login", true), 1, 307, &loc("/home")) {
        Hop::Follow(next) => assert!(next.body.is_some()),
        other => panic!("expected a hop, got {other:?}"),
    }
}

#[test]
fn a_request_that_declines_redirects_gets_the_redirect_itself() {
    match after_response(post("https://t.example/start", false), 1, 302, &loc("/landed")) {
        Hop::Done(url) => assert_eq!(url, "https://t.example/start"),
        other => panic!("expected the answer, got {other:?}"),
    }
}

#[test]
fn too_many_redirects_are_refused() {
    assert!(matches!(
        after_response(post("https://t.example/a", true), MAX_REDIRECT_HOPS + 1, 302, &loc("/a")),
        Hop::TooManyRedirects
    ));
    assert!(matches!(
        after_response(post("https://t.example/a", true), MAX_REDIRECT_HOPS, 302, &loc("/a")),
        Hop::Follow(_)
    ));
}
