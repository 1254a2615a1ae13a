use nur_blog::config::{BlogConfig, SiteLocalization};
use nur_blog::content::SitemapEntry;
use nur_blog::http::{Header, PluginError, Request};
use nur_blog::sitemap::{
    exclude_index_pages, preferred_origin, render, request_origin, response, sitemap_locales,
};

fn header(name: &str, value: &str) -> Header {
    Header {
        name: name.into(),
        value: value.into(),
    }
}

fn entry(slug: &str, article: bool, locale: &str) -> SitemapEntry {
    SitemapEntry {
        slug: slug.into(),
        updated_at: None,
        article,
        locale: locale.into(),
    }
}

fn test_config() -> BlogConfig {
    BlogConfig {
        site_name: "Notes".into(),
        site_description: String::new(),
        default_locale: "en".into(),
        multilingual_enabled: true,
        favicon_url: None,
        article_type: "article".into(),
        page_type: "page".into(),
        index_page_slug: Some("index".into()),
        posts_per_page: 6,
        localizations: vec![
            SiteLocalization {
                locale: "en".into(),
                site_name: "Notes".into(),
                site_description: String::new(),
                index_page_slug: Some("index".into()),
                navigation: Vec::new(),
            },
            SiteLocalization {
                locale: "de".into(),
                site_name: "Notizen".into(),
                site_description: String::new(),
                index_page_slug: Some("start".into()),
                navigation: Vec::new(),
            },
        ],
        navigation: Vec::new(),
        active_category: None,
        current_url: "/".into(),
        site_default_locale: "en".into(),
        language_paths: Vec::new(),
    }
}

fn failed_message(result: Result<String, PluginError>) -> String {
    match result {
        Err(PluginError::Failed(message)) => message,
        _ => panic!("expected a failure"),
    }
}

#[test]
fn uses_forwarded_public_origin() {
    let headers = vec![
        header("host", "127.0.0.1:8777"),
        header("forwarded", "for=192.0.2.1;proto=https;host=blog.example.org"),
    ];

    assert_eq!(request_origin(&headers).unwrap(), "https://blog.example.org");
}

#[test]
fn configured_public_url_has_priority_over_request_headers() {
    let headers = vec![header("host", "internal.example.org:8777")];

    assert_eq!(
        preferred_origin(Some("https://blog.example.org".into()), &headers).unwrap(),
        "https://blog.example.org"
    );
}

#[test]
fn renders_home_pages_articles_and_last_modified_dates() {
    let config = test_config();
    let mut article = entry("rust-and-wasm", true, "de");
    article.updated_at = Some("2026-09-22T10:00:00Z".into());
    let entries = vec![entry("about", false, "en"), article];

    let xml = render("https://example.org", &config, &["en".into(), "de".into()], &entries);
    assert!(xml.starts_with("<?xml version=\"1.0\" encoding=\"UTF-8\"?>"));
    assert!(xml.contains("<loc>https://example.org/</loc>"));
    assert!(xml.contains("<loc>https://example.org/de/</loc>"));
    assert!(xml.contains("<loc>https://example.org/about</loc>"));
    assert!(xml.contains("<loc>https://example.org/de/article/rust-and-wasm</loc>"));
    assert!(xml.contains("<lastmod>2026-09-22T10:00:00Z</lastmod>"));
    assert!(xml.contains("sitemap.xsl?v=0.1.0"));
}

#[test]
fn sitemap_locales_start_with_the_configured_default() {
    let mut config = test_config();
    config.site_default_locale = "de".into();
    let locales = sitemap_locales(&config);
    assert_eq!(locales.first().map(String::as_str), Some("de"));
    assert!(locales.iter().any(|locale| locale == "en"));
    assert!(locales.iter().any(|locale| locale == "de"));
}

#[test]
fn sitemap_uses_only_the_default_locale_when_multilingual_support_is_disabled() {
    let mut config = test_config();
    config.multilingual_enabled = false;

    assert_eq!(sitemap_locales(&config), ["en"]);
}

#[test]
fn excludes_only_the_index_page() {
    let mut entries = vec![
        entry("index", false, "en"),
        entry("index", true, "en"),
        entry("about", false, "en"),
    ];

    exclude_index_pages(&mut entries, &test_config());

    assert_eq!(entries.len(), 2);
    assert!(entries.iter().any(|entry| entry.article && entry.slug == "index"));
    assert!(entries.iter().any(|entry| !entry.article && entry.slug == "about"));
}

#[test]
fn rejects_an_unsafe_host_header() {
    let headers = vec![header("host", "example.org/path")];
    assert!(request_origin(&headers).is_err());
}

#[test]
fn index_pages_are_excluded_per_locale() {
    let mut entries = vec![
        entry("start", false, "DE"),
        entry("index", false, "de"),
        entry("start", false, "en"),
        entry("start", false, "fr"),
    ];
    exclude_index_pages(&mut entries, &test_config());
    let kept: Vec<_> = entries.iter().map(|e| format!("{}:{}", e.locale, e.slug)).collect();
    assert_eq!(kept, ["de:index", "en:start", "fr:start"]);
}

#[test]
fn request_origins_fall_back_through_the_headers() {
    assert_eq!(
        request_origin(&[header("X-Forwarded-Proto", "https, http"), header("x-forwarded-host", " a.example , b")]).unwrap(),
        "https://a.example"
    );
    assert_eq!(request_origin(&[header("HOST", " example.org:80 ")]).unwrap(), "http://example.org:80");
    assert_eq!(
        request_origin(&[header("forwarded", "proto=\"HTTPS\";host=\"[::1]:8080\", proto=http")]).unwrap(),
        "https://[::1]:8080"
    );
    assert_eq!(failed_message(request_origin(&[])), "request host is unavailable");
    assert_eq!(failed_message(request_origin(&[header("host", "  ")])), "request host is unavailable");
    assert_eq!(
        failed_message(request_origin(&[header("host", "example.org"), header("x-forwarded-proto", "ftp")])),
        "request origin is invalid"
    );
    assert_eq!(
        failed_message(request_origin(&[header("host", &"a".repeat(256))])),
        "request origin is invalid"
    );
}

#[test]
fn sitemap_markup_is_escaped_and_complete() {
    let config = test_config();
    let xml = render("https://example.org", &config, &["en".into()], &[entry("a&b", false, "en")]);
    assert_eq!(
        xml,
        "<?xml version=\"1.0\" encoding=\"UTF-8\"?>\n<?xml-stylesheet type=\"text/xsl\" href=\"/p/blog/assets/sitemap.xsl?v=0.1.0\"?>\n<urlset xmlns=\"http://www.sitemaps.org/schemas/sitemap/0.9\"><url><loc>https://example.org/</loc></url><url><loc>https://example.org/a&amp;b</loc></url></urlset>"
    );
}

#[test]
fn sitemap_response_lists_published_entries() {
    let request = Request {
        route_id: "sitemap".into(),
        method: "GET".into(),
        path: "/sitemap.xml".into(),
        path_params: Vec::new(),
        query: None,
        headers: vec![header("host", "example.org")],
        body: Vec::new(),
        identity: None,
    };
    let r = response(None, &request, &test_config(), vec![entry("index", false, "en"), entry("about", false, "en")])
        .unwrap();
    assert_eq!(r.status, 200);
    assert_eq!(r.headers[0].value, "application/xml; charset=utf-8");
    assert_eq!(r.headers[1].value, "public, max-age=3600");
    let body = String::from_utf8(r.body).unwrap();
    assert!(body.contains("<loc>http://example.org/about</loc>"));
    assert!(!body.contains("<loc>http://example.org/index</loc>"));
    assert!(body.contains("<loc>http://example.org/de/</loc>"));
}
