use nur_blog::config::{BlogConfig, LanguagePath, SiteLocalization};
use nur_blog::pages::{document_html, language_switcher, DocumentLabels, SearchLabels};
use nur_blog::view::{
    asset_url, category_url, document_title, favicon_href, language_url, localized_url, page_url,
    pagination_items, search_state, shows_language_switcher, strip_locale_prefix, PaginationItem,
    SearchState,
};

fn test_config() -> BlogConfig {
    BlogConfig {
        site_name: "Notes".into(),
        site_description: String::new(),
        default_locale: "en".into(),
        multilingual_enabled: true,
        favicon_url: None,
        article_type: "article".into(),
        page_type: "page".into(),
        index_page_slug: None,
        posts_per_page: 6,
        localizations: vec![
            SiteLocalization {
                locale: "en".into(),
                site_name: "Notes".into(),
                site_description: String::new(),
                index_page_slug: None,
                navigation: Vec::new(),
            },
            SiteLocalization {
                locale: "de".into(),
                site_name: "Notizen".into(),
                site_description: String::new(),
                index_page_slug: None,
                navigation: Vec::new(),
            },
        ],
        navigation: Vec::new(),
        active_category: None,
        current_url: "/".into(),
        site_default_locale: "en".into(),
        language_paths: Vec::new(),
    }
}

fn strip(path: &str, config: &BlogConfig) -> String {
    let chars: Vec<char> = path.chars().collect();
    strip_locale_prefix(&chars, config).into_iter().collect()
}

#[test]
fn pagination_keeps_edges_and_current_neighbors() {
    assert_eq!(
        pagination_items(6, 12),
        vec![
            PaginationItem::Page(1),
            PaginationItem::Ellipsis,
            PaginationItem::Page(4),
            PaginationItem::Page(5),
            PaginationItem::Page(6),
            PaginationItem::Page(7),
            PaginationItem::Page(8),
            PaginationItem::Ellipsis,
            PaginationItem::Page(12),
        ]
    );
}

#[test]
fn pagination_fills_single_gaps_and_handles_small_totals() {
    let page = PaginationItem::Page;
    let gap = PaginationItem::Ellipsis;
    assert_eq!(pagination_items(1, 0), Vec::new());
    assert_eq!(pagination_items(1, 1), vec![page(1)]);
    assert_eq!(pagination_items(1, 2), vec![page(1), page(2)]);
    assert_eq!(pagination_items(4, 7), (1..=7).map(page).collect::<Vec<_>>());
    assert_eq!(pagination_items(1, 9), vec![page(1), page(2), page(3), gap, page(9)]);
    assert_eq!(pagination_items(5, 9), vec![page(1), page(2), page(3), page(4), page(5), page(6), page(7), page(8), page(9)]);
    assert_eq!(pagination_items(20, 9), vec![page(1), gap, page(9)]);
}

#[test]
fn locale_is_added_to_internal_urls() {
    let config = test_config();
    assert_eq!(localized_url("/", "de", &config), "/de/");
    assert_eq!(localized_url("/about", "de", &config), "/de/about");
    assert_eq!(
        localized_url("/en/search?q=rust&locale=en#results", "de", &config),
        "/de/search?q=rust#results"
    );
    assert_eq!(localized_url("https://example.com", "de", &config), "https://example.com");
    assert_eq!(localized_url("/de/about", "en", &config), "/about");
}

#[test]
fn pagination_preserves_category_and_locale() {
    let mut config = test_config();
    config.default_locale = "de".into();
    assert_eq!(page_url(3, &config, Some("entwicklung")), "/de/page/3?category=entwicklung");
}

#[test]
fn language_switch_preserves_the_current_page_and_query() {
    assert_eq!(
        language_url("/article/example?q=rust", "de", &test_config()),
        "/de/article/example?q=rust"
    );
    assert_eq!(
        language_url("/de/article/beispiel?q=rust", "en", &test_config()),
        "/article/beispiel?q=rust"
    );
}

#[test]
fn language_switch_uses_the_translated_content_slug() {
    let mut config = test_config();
    config.site_default_locale = "de".into();
    config.default_locale = "en".into();
    config.language_paths.push(LanguagePath {
        locale: "de".into(),
        path: "/ueber-uns".into(),
    });

    assert_eq!(language_url("/en/about", "de", &config), "/ueber-uns");
}

#[test]
fn language_selector_is_hidden_when_multilingual_support_is_disabled() {
    let mut config = test_config();
    assert!(shows_language_switcher(&config));
    assert!(!language_switcher(&config, "test", &document_labels()).is_empty());
    config.multilingual_enabled = false;

    assert!(language_switcher(&config, "test", &document_labels()).is_empty());
    assert!(!shows_language_switcher(&config));
    let mut single = test_config();
    single.localizations.truncate(1);
    assert!(!shows_language_switcher(&single));
}

#[test]
fn document_title_does_not_repeat_the_site_name() {
    let config = test_config();

    let home = document_html(&config, "Notes", "", &[], &document_labels());
    assert!(home.contains("<title>Notes</title>"));
    assert!(!home.contains("Notes · Notes"));

    let article = document_html(&config, "An article", "", &[], &document_labels());
    assert!(article.contains("<title>An article · Notes</title>"));
    assert_eq!(document_title("An article", &config.site_name), "An article · Notes");
}

#[test]
fn external_and_protocol_relative_links_stay() {
    let config = test_config();
    assert_eq!(localized_url("//cdn.example.org/x", "de", &config), "//cdn.example.org/x");
    assert_eq!(localized_url("mailto:a@b.c", "de", &config), "mailto:a@b.c");
    assert_eq!(localized_url("", "de", &config), "");
}

#[test]
fn locale_prefixes_are_recognised_case_insensitively() {
    let config = test_config();
    assert_eq!(strip("/DE/about", &config), "/about");
    assert_eq!(strip("/de", &config), "/");
    assert_eq!(strip("/de/", &config), "/");
    assert_eq!(strip("/design", &config), "/design");
    assert_eq!(strip("de/x", &config), "x");
    let mut single = test_config();
    single.multilingual_enabled = false;
    assert_eq!(strip("/de/about", &single), "/de/about");
}

#[test]
fn relocalizing_a_link_changes_only_its_locale() {
    let config = test_config();
    for href in ["/", "/about?q=1&&locale=de#top", "/de/page/2?category=rust", "/article/x#a#b"] {
        for a in ["en", "de"] {
            let once = localized_url(href, a, &config);
            for b in ["en", "de"] {
                assert_eq!(localized_url(&once, b, &config), localized_url(href, b, &config), "{href} {a} {b}");
            }
        }
    }
}

#[test]
fn default_locale_links_have_no_prefix() {
    let config = test_config();
    assert_eq!(localized_url("/search?q=a", "EN", &config), "/search?q=a");
    assert!(localized_url("/search?q=a", "de", &config).starts_with("/de/"));
}

#[test]
fn category_and_asset_urls() {
    let mut config = test_config();
    assert_eq!(category_url("rust", &config), "/?category=rust");
    config.default_locale = "de".into();
    assert_eq!(category_url("rust", &config), "/de/?category=rust");
    assert_eq!(asset_url("blog.min.css"), "/p/blog/assets/blog.min.css?v=0.1.0");
    assert_eq!(page_url(1, &config, None), "/de/");
    assert_eq!(favicon_href(&config), "/p/blog/assets/favicon.svg?v=0.1.0");
    config.favicon_url = Some("/uploads/icon.svg".into());
    assert_eq!(favicon_href(&config), "/uploads/icon.svg");
}

#[test]
fn search_state_follows_term_length_and_hits() {
    use_state("r", 5, SearchState::TooShort);
    use_state("rust", 0, SearchState::NoResults);
    use_state("rust", 1, SearchState::One);
    use_state("rust", 7, SearchState::Many);
    use_state("üb", 0, SearchState::NoResults);
}

fn use_state(query: &str, results: usize, expected: SearchState) {
    assert_eq!(search_state(query, results), expected, "{query} {results}");
}

fn search_labels() -> SearchLabels {
    SearchLabels {
        label: "Search".into(),
        title: "Search the blog".into(),
        description: "Search articles and pages".into(),
        minimum: "Enter at least two characters".into(),
        searching: "Searching".into(),
        unavailable: "Search is unavailable".into(),
        close: "Close".into(),
        none_before: "Nothing found for ".into(),
        none_after: ".".into(),
        one: "One result".into(),
        many_before: String::new(),
        many_after: " results".into(),
        article: "Article".into(),
        page: "Page".into(),
    }
}

fn document_labels() -> DocumentLabels {
    DocumentLabels {
        navigation: "Main navigation".into(),
        menu: "Menu".into(),
        language: "Language".into(),
        categories: "Categories".into(),
        all_categories: "All articles".into(),
        active_language: "English".into(),
        language_names: vec!["English".into(), "Deutsch".into()],
        search: search_labels(),
    }
}
