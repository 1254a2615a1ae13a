use nur_blog::config::{BlogConfig, SiteLocalization};
use nur_blog::content::TranslatedEntry;
use nur_blog::http::{PathParam, PluginError, Request};
use nur_blog::request::{parse_page_number, path_param, query_parameter, request_url};
use nur_blog::routes::{
    article_allowed, available_locale, content_language_paths, default_favicon_response,
    handler_for, html_response, no_content_response, one_segment_route, page_position,
    pagination_offset, prepare_public_config, redirect, search_request, settings_response,
    fragment_requested,
    three_segment_route, two_segment_route, Handler, Route,
};

fn locale_config() -> BlogConfig {
    BlogConfig {
        default_locale: "en".into(),
        multilingual_enabled: true,
        favicon_url: None,
        article_type: "article".into(),
        page_type: "page".into(),
        posts_per_page: 6,
        localizations: vec![
            SiteLocalization {
                locale: "en".into(),
                site_name: "Notes".into(),
                site_description: String::new(),
                index_page_slug: None,
                navigation: Vec::new(),
            },
            SiteLocalization {
                locale: "de".into(),
                site_name: "Notizen".into(),
                site_description: String::new(),
                index_page_slug: None,
                navigation: Vec::new(),
            },
        ],
        site_name: "Notes".into(),
        site_description: String::new(),
        index_page_slug: None,
        navigation: Vec::new(),
        active_category: None,
        current_url: "/".into(),
        site_default_locale: "en".into(),
        language_paths: Vec::new(),
    }
}

fn request(path: &str, query: Option<&str>, params: &[(&str, &str)]) -> Request {
    Request {
        route_id: "two-segments".into(),
        method: "GET".into(),
        path: path.into(),
        path_params: params
            .iter()
            .map(|(name, value)| PathParam {
                name: (*name).into(),
                value: (*value).into(),
            })
            .collect(),
        query: query.map(str::to_owned),
        headers: Vec::new(),
        body: Vec::new(),
        identity: None,
    }
}

fn is_not_found<T>(result: Result<T, PluginError>) -> bool {
    matches!(result, Err(PluginError::NotFound))
}

fn bad_request_message<T>(result: Result<T, PluginError>) -> String {
    match result {
        Err(PluginError::BadRequest(message)) => message,
        _ => panic!("expected a bad request"),
    }
}

#[test]
fn decodes_search_query_parameter() {
    assert_eq!(
        query_parameter(Some("q=rust+und+wasm%3F&fragment=1"), "q").unwrap(),
        Some("rust und wasm?".into())
    );
}

#[test]
fn query_parameters_take_the_first_match() {
    assert_eq!(query_parameter(Some("a=1&a=2"), "a").unwrap().as_deref(), Some("1"));
    assert_eq!(query_parameter(Some("flag&x=1"), "flag").unwrap().as_deref(), Some(""));
    assert_eq!(query_parameter(Some("x=1"), "q").unwrap(), None);
    assert_eq!(query_parameter(None, "q").unwrap(), None);
    assert_eq!(query_parameter(Some("q=%C3%BC%2B"), "q").unwrap().as_deref(), Some("ü+"));
    assert_eq!(
        bad_request_message(query_parameter(Some("q=%FF"), "q")),
        "query string is not valid UTF-8"
    );
}

#[test]
fn recognizes_compiled_and_configured_locales() {
    let config = locale_config();
    assert_eq!(available_locale("de", &config).as_deref(), Some("de"));
    assert_eq!(available_locale("en", &config).as_deref(), Some("en"));
    assert!(available_locale("fr", &config).is_none());
}

#[test]
fn ignores_locale_routes_when_multilingual_support_is_disabled() {
    let mut config = locale_config();
    config.multilingual_enabled = false;

    assert!(available_locale("de", &config).is_none());
}

#[test]
fn canonical_redirect_keeps_query_without_legacy_locale() {
    let request = request("/en/search", Some("q=rust&locale=en"), &[]);
    let response = redirect(&request, "/search");

    assert_eq!(response.status, 308);
    assert_eq!(response.headers[0].value, "/search?q=rust");
}

#[test]
fn redirect_without_kept_parameters_has_no_query() {
    let response = redirect(&request("/de/", Some("locale=de&&"), &[]), "/");
    assert_eq!(response.headers[0].name, "location");
    assert_eq!(response.headers[0].value, "/");
    assert!(response.body.is_empty());
    let response = redirect(&request("/de/", None, &[]), "/x");
    assert_eq!(response.headers[0].value, "/x");
}

#[test]
fn available_locale_keeps_the_configured_spelling() {
    let config = locale_config();
    assert_eq!(available_locale("DE", &config).as_deref(), Some("de"));
}

#[test]
fn page_numbers_are_positive_and_bounded() {
    assert_eq!(parse_page_number("1").unwrap(), 1);
    assert_eq!(parse_page_number("166667").unwrap(), 166667);
    assert_eq!(parse_page_number("+2").unwrap(), 2);
    assert!(is_not_found(parse_page_number("0")));
    assert!(is_not_found(parse_page_number("166668")));
    assert!(is_not_found(parse_page_number("")));
    assert!(is_not_found(parse_page_number("2a")));
    assert!(is_not_found(parse_page_number("-1")));
    assert!(is_not_found(parse_page_number("99999999999999999999999")));
}

#[test]
fn path_params_and_request_urls() {
    let req = request("/de/search", Some("q=rust"), &[("first", "de"), ("second", "search")]);
    assert_eq!(path_param(&req, "second").unwrap(), "search");
    assert!(is_not_found(path_param(&req, "third")));
    assert_eq!(request_url(&req), "/de/search?q=rust");
    assert_eq!(request_url(&request("/a", Some(""), &[])), "/a");
    assert_eq!(request_url(&request("/a", None, &[])), "/a");
}

#[test]
fn public_config_activates_the_locale_and_category() {
    let req = request("/de/", Some("category=rust&x=1"), &[]);
    let config = prepare_public_config(locale_config(), &req, Some("de")).unwrap();
    assert_eq!(config.default_locale, "de");
    assert_eq!(config.site_name, "Notizen");
    assert_eq!(config.active_category.as_deref(), Some("rust"));
    assert_eq!(config.current_url, "/de/?category=rust&x=1");

    let config = prepare_public_config(locale_config(), &request("/", None, &[]), None).unwrap();
    assert_eq!(config.default_locale, "en");
    assert_eq!(config.active_category, None);

    let bad = prepare_public_config(locale_config(), &request("/", Some("category=Rust"), &[]), None);
    assert_eq!(bad_request_message(bad), "category is invalid");

    let mut empty = locale_config();
    empty.localizations.clear();
    assert!(is_not_found(prepare_public_config(empty, &request("/", None, &[]), None)));
}

#[test]
fn language_paths_follow_translations_or_lead_home() {
    let config = locale_config();
    let translations = vec![TranslatedEntry {
        locale: "de".into(),
        slug: "beispiel".into(),
    }];
    let paths = content_language_paths(&config, &translations, true);
    assert_eq!(paths.len(), 1);
    assert_eq!(paths[0].locale, "de");
    assert_eq!(paths[0].path, "/article/beispiel");
    let paths = content_language_paths(&config, &translations, false);
    assert_eq!(paths[0].path, "/beispiel");
    let paths = content_language_paths(&config, &Vec::new(), false);
    assert_eq!(paths[0].path, "/");
    let mut single = locale_config();
    single.multilingual_enabled = false;
    assert!(content_language_paths(&single, &translations, true).is_empty());
}

#[test]
fn search_requests_trim_and_limit_the_term() {
    let s = search_request(Some("q=++rust+&fragment=%FF")).unwrap();
    assert_eq!(s.term, "rust");
    assert!(s.search);
    let s = search_request(Some("q=r")).unwrap();
    assert!(!s.search);
    assert!(fragment_requested(Some("q=rust&fragment=1")).unwrap());
    assert!(!fragment_requested(Some("q=rust&fragment=11")).unwrap());
    assert!(!fragment_requested(None).unwrap());
    assert_eq!(
        bad_request_message(fragment_requested(Some("fragment=%FF"))),
        "query string is not valid UTF-8"
    );
    let s = search_request(None).unwrap();
    assert_eq!(s.term, "");
    let long = format!("q={}", "a".repeat(121));
    assert_eq!(
        bad_request_message(search_request(Some(&long))),
        "search query must contain at most 120 characters"
    );
}

#[test]
fn segment_routes_follow_the_locale_rules() {
    let config = locale_config();
    let r = one_segment_route(&request("/en", None, &[("first", "en")]), &config).unwrap();
    assert!(matches!(r, Route::Redirect(p) if p == "/"));
    let r = one_segment_route(&request("/de", None, &[("first", "de")]), &config).unwrap();
    assert!(matches!(r, Route::Redirect(p) if p == "/de/"));
    let r = one_segment_route(&request("/de/", None, &[("first", "de")]), &config).unwrap();
    assert!(matches!(r, Route::Home(Some(l)) if l == "de"));
    let r = one_segment_route(&request("/about", None, &[("first", "about")]), &config).unwrap();
    assert!(matches!(r, Route::ContentPage(None, s) if s == "about"));
    assert!(is_not_found(one_segment_route(&request("/", None, &[]), &config)));

    let two = |first: &str, second: &str| {
        two_segment_route(&request("/x/y", None, &[("first", first), ("second", second)]), &config).unwrap()
    };
    assert!(matches!(two("en", "about"), Route::Redirect(p) if p == "/about"));
    assert!(matches!(two("de", "search"), Route::Search(Some(l)) if l == "de"));
    assert!(matches!(two("de", "ueber"), Route::ContentPage(Some(l), s) if l == "de" && s == "ueber"));
    assert!(matches!(two("article", "x"), Route::Article(None, t, s) if t == "article" && s == "x"));

    let three = |first: &str, second: &str, third: &str| {
        three_segment_route(
            &request("/x/y/z", None, &[("first", first), ("second", second), ("third", third)]),
            &config,
        )
    };
    assert!(matches!(three("en", "page", "2").unwrap(), Route::Redirect(p) if p == "/page/2"));
    assert!(matches!(three("de", "page", "3").unwrap(), Route::Pagination(Some(l), 3) if l == "de"));
    assert!(is_not_found(three("de", "page", "0")));
    assert!(matches!(
        three("de", "article", "x").unwrap(),
        Route::Article(Some(l), t, s) if l == "de" && t == "article" && s == "x"
    ));
    assert!(is_not_found(three("fr", "article", "x")));
}

#[test]
fn articles_need_the_article_type_and_a_valid_slug() {
    let config = locale_config();
    assert!(article_allowed(&config, "article", "rust-and-wasm"));
    assert!(!article_allowed(&config, "page", "rust-and-wasm"));
    assert!(!article_allowed(&config, "article", "Rust"));
}

#[test]
fn pagination_arithmetic() {
    assert_eq!(pagination_offset(1, 6), 0);
    assert_eq!(pagination_offset(3, 6), 12);
    assert_eq!(page_position(12, 6, 13), (3, 3));
    assert_eq!(page_position(0, 6, 12), (1, 2));
    assert_eq!(page_position(0, 6, 0), (1, 0));
}

#[test]
fn fixed_responses() {
    let r = default_favicon_response(vec![1, 2]);
    assert_eq!(r.status, 200);
    assert_eq!(r.headers[0].value, "image/svg+xml");
    assert_eq!(r.headers[1].value, "public, max-age=86400");
    assert_eq!(r.body, vec![1, 2]);
    let r = settings_response(b"{}".to_vec());
    assert_eq!(r.headers[0].value, "application/json; charset=utf-8");
    let r = no_content_response();
    assert_eq!(r.status, 204);
    let r = html_response("de", b"<p>".to_vec());
    assert_eq!(r.headers[0].value, "text/html; charset=utf-8");
    assert_eq!(r.headers[1].name, "content-language");
    assert_eq!(r.headers[1].value, "de");
}

#[test]
fn route_identifiers_select_handlers() {
    assert_eq!(handler_for("settings").unwrap(), Handler::Settings);
    assert_eq!(handler_for("settings-update").unwrap(), Handler::SettingsUpdate);
    assert_eq!(handler_for("localized-home").unwrap(), Handler::OneSegment);
    assert_eq!(handler_for("one-segment").unwrap(), Handler::OneSegment);
    assert_eq!(handler_for("three-segments").unwrap(), Handler::ThreeSegments);
    assert_eq!(handler_for("robots").unwrap(), Handler::Robots);
    assert!(is_not_found(handler_for("admin")));
}
