use nur_blog::config::{BlogConfig, LanguagePath, NavigationItem, SiteLocalization};
use nur_blog::content::{ArticleList, Author, Category, ContentNode, Entry, EntryCategory, Media, SearchResult, Tag};
use nur_blog::pages::{
    article_page, content_page, document_html, home_page, language_switcher, pagination_html, response,
    search_page, search_results, ArticleLabels, DocumentLabels, PaginationLabels, SearchLabels,
};

fn config() -> BlogConfig {
    BlogConfig {
        site_name: "Notes".into(),
        site_description: "Ideas & <code>".into(),
        default_locale: "en".into(),
        multilingual_enabled: true,
        favicon_url: None,
        article_type: "article".into(),
        page_type: "page".into(),
        index_page_slug: None,
        posts_per_page: 6,
        localizations: vec![
            SiteLocalization {
                locale: "en".into(),
                site_name: "Notes".into(),
                site_description: String::new(),
                index_page_slug: None,
                navigation: Vec::new(),
            },
            SiteLocalization {
                locale: "de".into(),
                site_name: "Notizen".into(),
                site_description: String::new(),
                index_page_slug: None,
                navigation: Vec::new(),
            },
        ],
        navigation: vec![NavigationItem {
            label: "About".into(),
            href: "/about".into(),
        }],
        active_category: None,
        current_url: "/article/x?q=1".into(),
        site_default_locale: "en".into(),
        language_paths: Vec::new(),
    }
}

fn pagination_labels() -> PaginationLabels {
    PaginationLabels {
        label: "Pages".into(),
        newer: "Newer".into(),
        older: "Older".into(),
        current_before: "Page ".into(),
        current_after: ", current".into(),
        go_to_before: "Go to page ".into(),
        go_to_after: String::new(),
    }
}

fn search_labels() -> SearchLabels {
    SearchLabels {
        label: "Search".into(),
        title: "Search the blog".into(),
        description: "Search articles and pages".into(),
        minimum: "Enter at least two characters".into(),
        searching: "Searching".into(),
        unavailable: "Search is unavailable".into(),
        close: "Close".into(),
        none_before: "Nothing found for ".into(),
        none_after: ".".into(),
        one: "One result".into(),
        many_before: String::new(),
        many_after: " results".into(),
        article: "Article".into(),
        page: "Page".into(),
    }
}

fn article_labels() -> ArticleLabels {
    ArticleLabels {
        latest: "Latest articles".into(),
        empty: "No articles yet".into(),
        untitled: "Untitled".into(),
        read: "Read".into(),
        read_named_before: "Read ".into(),
        read_named_after: String::new(),
        tags: "Tags".into(),
        page_untitled: "Page".into(),
    }
}

fn document_labels() -> DocumentLabels {
    DocumentLabels {
        navigation: "Main navigation".into(),
        menu: "Menu".into(),
        language: "Language".into(),
        categories: "Categories".into(),
        all_categories: "All articles".into(),
        active_language: "English".into(),
        language_names: vec!["English".into(), "Deutsch".into()],
        search: search_labels(),
    }
}

fn entry() -> Entry {
    Entry {
        title: Some("Rust & Wasm".into()),
        slug: Some("rust-and-wasm".into()),
        created_at: Some("2026-09-22".into()),
        media: Some(Media {
            path: "/uploads".into(),
            filename: "cover.png".into(),
        }),
        category: Some(EntryCategory { name: "Dev".into() }),
        authors: vec![Author {
            first_name: Some("Ada".into()),
            last_name: Some("Lovelace".into()),
        }],
        tags: vec![Tag { name: "rust".into() }],
        nodes: vec![ContentNode {
            html: Some("<p>Body</p>".into()),
            blocks: Vec::new(),
        }],
        group_id: None,
    }
}

#[test]
fn pagination_bar_links_newer_pages_and_older_pages() {
    let html = pagination_html(2, 3, &config(), Some("dev"), &pagination_labels());
    assert_eq!(
        html,
        "<nav class=\"pagination\" aria-label=\"Pages\"><a class=\"pagination-newer\" href=\"/?category=dev\">Newer</a><ol class=\"pagination-pages\"><li><a href=\"/?category=dev\" aria-label=\"Go to page 1\">1</a></li><li><span class=\"pagination-current\" aria-current=\"page\" aria-label=\"Page 2, current\">2</span></li><li><a href=\"/page/3?category=dev\" aria-label=\"Go to page 3\">3</a></li></ol><a class=\"pagination-older\" href=\"/page/3?category=dev\">Older</a></nav>"
    );
    assert_eq!(pagination_html(1, 1, &config(), None, &pagination_labels()), "");
    assert_eq!(pagination_html(1, 0, &config(), None, &pagination_labels()), "");
    let first = pagination_html(1, 9, &config(), None, &pagination_labels());
    assert!(!first.contains("pagination-newer"));
    assert!(first.contains("<li class=\"pagination-ellipsis\" aria-hidden=\"true\">…</li>"));
    let last = pagination_html(9, 9, &config(), None, &pagination_labels());
    assert!(!last.contains("pagination-older"));
}

#[test]
fn search_results_show_state_count_and_hits() {
    let config = config();
    let labels = search_labels();
    assert_eq!(
        search_results("r", &[], &config, &labels),
        "<div class=\"search-results\"><p class=\"search-state\">Enter at least two characters</p></div>"
    );
    assert_eq!(
        search_results("<b>", &[], &config, &labels),
        "<div class=\"search-results\"><p class=\"search-state\">Nothing found for &lt;b&gt;.</p></div>"
    );
    let hits = [
        SearchResult {
            title: "A & B".into(),
            href: "/article/a".into(),
            article: true,
        },
        SearchResult {
            title: "About".into(),
            href: "/about".into(),
            article: false,
        },
    ];
    assert_eq!(
        search_results("rust", &hits, &config, &labels),
        "<div class=\"search-results\"><p class=\"search-count\">2 results</p><ul><li><a href=\"/article/a\"><span>A &amp; B</span><small>Article</small></a></li><li><a href=\"/about\"><span>About</span><small>Page</small></a></li></ul></div>"
    );
    assert!(search_results("rust", &hits[..1], &config, &labels).contains("<p class=\"search-count\">One result</p>"));
    let page = search_page("a\"b", &hits, &config, &labels);
    assert!(page.starts_with("<section class=\"search-page\"><p class=\"eyebrow\">Search</p><h1>Search the blog</h1><form class=\"search-page-form\" action=\"/search\" method=\"get\">"));
    assert!(page.contains("value=\"a&quot;b\""));
}

#[test]
fn articles_and_pages_escape_text_and_keep_cms_html() {
    let html = article_page(&entry(), &article_labels());
    assert_eq!(
        html,
        "<article class=\"article prose\"><p class=\"metadata\"><span class=\"category\">Dev</span><time datetime=\"2026-09-22\" data-local-datetime=\"\">2026-09-22</time><span>Ada Lovelace</span></p><h1>Rust &amp; Wasm</h1><img class=\"article-cover\" src=\"/uploads/cover.png\" alt=\"\"><div class=\"article-content\"><p>Body</p></div><ul class=\"tag-list\" aria-label=\"Tags\"><li>rust</li></ul></article>"
    );
    let mut bare = entry();
    bare.title = None;
    bare.created_at = None;
    bare.category = None;
    bare.authors = Vec::new();
    bare.tags = Vec::new();
    assert_eq!(
        content_page(&bare, &article_labels()),
        "<article class=\"content-page prose\"><h1>Page</h1><p>Body</p></article>"
    );
}

#[test]
fn overview_pages_list_previews_or_a_note() {
    let mut config = config();
    config.multilingual_enabled = false;
    let list = ArticleList {
        entries: Vec::new(),
        total: 0,
    };
    let empty = home_page(&config, None, &list, 0, &article_labels(), &pagination_labels());
    assert_eq!(
        empty,
        "<section class=\"hero\"><div class=\"hero-body\"><p class=\"eyebrow\">Notes</p><h1>Ideas &amp; &lt;code&gt;</h1></div></section><section class=\"blog-list\" aria-label=\"Latest articles\"><p class=\"empty-state\">No articles yet</p></section>"
    );
    let list = ArticleList {
        entries: vec![entry()],
        total: 13,
    };
    let hero = entry();
    let page = home_page(&config, Some(&hero), &list, 6, &article_labels(), &pagination_labels());
    assert!(page.starts_with("<section class=\"hero\"><img class=\"hero-image\" src=\"/uploads/cover.png\" alt=\"\">"));
    assert!(page.contains("<article class=\"article-card\"><a class=\"article-card-image\" href=\"/article/rust-and-wasm\" aria-label=\"Read Rust &amp; Wasm\"><img src=\"/uploads/cover.png\" alt=\"\" loading=\"lazy\"></a>"));
    assert!(page.contains("<h2><a href=\"/article/rust-and-wasm\">Rust &amp; Wasm</a></h2><div class=\"article-summary\"><p>Body</p></div><a class=\"read-more\" href=\"/article/rust-and-wasm\">Read<span aria-hidden=\"true\"> →</span></a>"));
    assert!(page.contains("aria-label=\"Page 2, current\">2</span>"));
    assert!(page.ends_with("<a class=\"pagination-older\" href=\"/page/3\">Older</a></nav>"));
}

#[test]
fn documents_hold_the_layout_and_the_content() {
    let mut config = config();
    config.active_category = Some("dev".into());
    let categories = [Category {
        name: "Dev".into(),
        slug: "dev".into(),
        count: 3,
    }];
    let html = document_html(&config, "Hello", "<p>raw</p>", &categories, &document_labels());
    assert!(html.starts_with("<!DOCTYPE html><html lang=\"en\"><head><meta charset=\"utf-8\">"));
    assert!(html.contains("<link rel=\"icon\" href=\"/p/blog/assets/favicon.svg?v=0.1.0\">"));
    assert!(html.contains("<main><p>raw</p></main>"));
    assert!(html.contains("<nav class=\"site-navigation\" aria-label=\"Main navigation\"><a href=\"/about\">About</a></nav>"));
    assert!(html.contains("<ul class=\"category-list\"><li><a href=\"/\"><span>All articles</span></a></li><li><a href=\"/?category=dev\" aria-current=\"page\"><span>Dev</span><small>3</small></a></li></ul>"));
    assert!(html.contains("<footer class=\"site-footer\"><p>© Notes</p></footer>"));
    assert!(html.ends_with("<script src=\"/p/blog/assets/blog.min.js?v=0.1.0\" defer></script></body></html>"));
    assert_eq!(html.matches("class=\"language-switcher ").count(), 2);

    let r = response(&config, "Hello", "<p>raw</p>", &categories, &document_labels());
    assert_eq!(r.headers[1].value, "en");
    assert_eq!(String::from_utf8(r.body).unwrap(), html);
}

#[test]
fn language_switcher_lists_locales_and_marks_the_active_one() {
    let mut config = config();
    config.language_paths = vec![LanguagePath {
        locale: "de".into(),
        path: "/artikel/beispiel".into(),
    }];
    assert_eq!(
        language_switcher(&config, "sidebar-language-switcher", &document_labels()),
        "<details class=\"language-switcher sidebar-language-switcher\" aria-label=\"Language\"><summary><svg class=\"language-icon\" aria-hidden=\"true\" viewBox=\"0 0 24 24\"><circle cx=\"12\" cy=\"12\" r=\"9\"></circle><path d=\"M3 12h18M12 3c2.4 2.5 3.7 5.5 3.7 9S14.4 18.5 12 21M12 3c-2.4 2.5-3.7 5.5-3.7 9s1.3 6.5 3.7 9\"></path></svg><span>English</span></summary><ul class=\"language-list\"><li><a href=\"/article/x?q=1\" lang=\"en\" hreflang=\"en\" aria-current=\"page\">English</a></li><li><a href=\"/de/artikel/beispiel\" lang=\"de\" hreflang=\"de\">Deutsch</a></li></ul></details>"
    );
}
