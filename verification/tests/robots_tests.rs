use nur_blog::http::{Header, PluginError, Request};
use nur_blog::robots::{render, response};

fn request_with(headers: Vec<Header>) -> Request {
    Request {
        route_id: "robots".into(),
        method: "GET".into(),
        path: "/robots.txt".into(),
        path_params: Vec::new(),
        query: None,
        headers,
        body: Vec::new(),
        identity: None,
    }
}

#[test]
fn excludes_internal_routes_and_keeps_public_assets_available() {
    let robots = render("https://blog.example.org");

    for path in ["/admin", "/api", "/auth", "/files", "/sse"] {
        assert!(robots.contains(&format!("Disallow: {path}\n")));
    }
    assert!(!robots.contains("Disallow: /uploads"));
    assert!(!robots.contains("Disallow: /p"));
    assert!(robots.contains("Sitemap: https://blog.example.org/sitemap.xml\n"));
}

#[test]
fn robots_text_is_complete() {
    assert_eq!(
        render("https://example.org"),
        "User-agent: *\nAllow: /\nDisallow: /admin\nDisallow: /api\nDisallow: /auth\nDisallow: /files\nDisallow: /sse\nSitemap: https://example.org/sitemap.xml\n"
    );
}

#[test]
fn robots_response_uses_the_public_origin() {
    let request = request_with(vec![Header {
        name: "Host".into(),
        value: "blog.example.org".into(),
    }]);
    let r = response(None, &request).unwrap();
    assert_eq!(r.status, 200);
    assert_eq!(r.headers[0].value, "text/plain; charset=utf-8");
    assert_eq!(r.headers[1].value, "public, max-age=3600");
    let body = String::from_utf8(r.body).unwrap();
    assert!(body.ends_with("Sitemap: http://blog.example.org/sitemap.xml\n"));

    let r = response(Some("https://public.example".into()), &request).unwrap();
    let body = String::from_utf8(r.body).unwrap();
    assert!(body.ends_with("Sitemap: https://public.example/sitemap.xml\n"));

    let missing = response(None, &request_with(Vec::new()));
    assert!(matches!(missing, Err(PluginError::Failed(m)) if m == "request host is unavailable"));
}
