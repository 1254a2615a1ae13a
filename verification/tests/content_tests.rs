use nur_blog::content::{
    article_list, article_list_query, author_line, categories, entry, entry_query, facets_query, index_page,
    index_page_query, search, search_query, search_results_of, Author, Category, ContentNode, Entry,
    EntryResponse, FacetResponse, Media, SearchResult,
};

fn blank_entry() -> Entry {
    Entry {
        title: None,
        slug: None,
        created_at: None,
        media: None,
        category: None,
        authors: Vec::new(),
        tags: Vec::new(),
        nodes: Vec::new(),
        group_id: None,
    }
}

fn leaf(html: &str) -> ContentNode {
    ContentNode {
        html: Some(html.into()),
        blocks: Vec::new(),
    }
}

fn hit(title: &str, article: bool) -> SearchResult {
    SearchResult {
        title: title.into(),
        href: format!("/{title}"),
        article,
    }
}

#[test]
fn ignores_unrequested_cms_fields_and_renders_nested_html_directly() {
    let mut typed = blank_entry();
    typed.title = Some("Typed".into());
    typed.slug = Some("typed".into());
    typed.nodes = vec![ContentNode {
        html: None,
        blocks: vec![leaf("<p>One</p>"), leaf("<p>Two</p>")],
    }];
    let response = EntryResponse {
        count: 1,
        results: vec![typed],
    };
    let entry = &response.results[0];
    let mut rendered = String::from("<div>");
    entry.html().render_to(&mut rendered);
    rendered.push_str("</div>");

    assert_eq!(rendered, "<div><p>One</p><p>Two</p></div>");
    assert!(entry.has_html());
}

#[test]
fn missing_optional_fields_are_supported() {
    let mut entry = blank_entry();
    entry.slug = Some("minimal".into());

    assert_eq!(entry.title("Fallback"), "Fallback");
    assert!(!entry.has_html());
    assert!(entry.media_url().is_none());
}

#[test]
fn blank_html_is_left_out() {
    let mut entry = blank_entry();
    entry.nodes = vec![
        leaf("  \n"),
        ContentNode {
            html: Some("<p>ignored, it has blocks</p>".into()),
            blocks: vec![leaf("<b>kept</b>"), leaf(" ")],
        },
        ContentNode {
            html: None,
            blocks: Vec::new(),
        },
    ];
    assert_eq!(entry.html().into_string(), "<b>kept</b>");
    assert!(entry.has_html());

    let mut empty = blank_entry();
    empty.nodes = vec![leaf(" "), ContentNode {
        html: None,
        blocks: vec![leaf("\t")],
    }];
    assert_eq!(empty.html().into_string(), "");
    assert!(!empty.has_html());
}

#[test]
fn titles_fall_back_when_empty() {
    let mut entry = blank_entry();
    entry.title = Some(String::new());
    assert_eq!(entry.title("Untitled"), "Untitled");
    entry.title = Some("Hello".into());
    assert_eq!(entry.title("Untitled"), "Hello");
}

#[test]
fn media_urls_join_path_and_file_name() {
    let mut entry = blank_entry();
    entry.media = Some(Media {
        path: "/uploads/2024///".into(),
        filename: "cover.png".into(),
    });
    assert_eq!(entry.media_url().as_deref(), Some("/uploads/2024/cover.png"));
    entry.media = Some(Media {
        path: "//".into(),
        filename: "cover.png".into(),
    });
    assert_eq!(entry.media_url().as_deref(), Some("/cover.png"));
    entry.media = Some(Media {
        path: "/uploads".into(),
        filename: String::new(),
    });
    assert_eq!(entry.media_url(), None);
}

#[test]
fn authors_without_names_are_empty() {
    let none = Author {
        first_name: None,
        last_name: Some(String::new()),
    };
    assert!(none.is_empty());
    let named = Author {
        first_name: None,
        last_name: Some("Lovelace".into()),
    };
    assert!(!named.is_empty());
}

#[test]
fn content_queries_name_type_locale_and_fields() {
    let fields = "title,slug,created_at,media,author.first_name,author.last_name,category.name,tags,node.html";
    assert_eq!(
        article_list_query("article", "de", Some("rust"), 6, 12),
        format!("type=article&locale=de&category=rust&fields={fields}&node_limit=1&character_limit=360&ordering=created_at+DESC&limit=6&offset=12")
    );
    assert_eq!(
        article_list_query("article", "en", None, 24, 0),
        format!("type=article&locale=en&fields={fields}&node_limit=1&character_limit=360&ordering=created_at+DESC&limit=24&offset=0")
    );
    assert_eq!(
        entry_query("page", "en", "about"),
        format!("type=page&locale=en&slug=about&fields={fields}&ordering=created_at+DESC&limit=1")
    );
    assert_eq!(
        index_page_query("page", "de", "start"),
        "type=page&locale=de&slug=start&fields=media,node.html&limit=1"
    );
    assert_eq!(facets_query("article", "en"), "type=article&locale=en");
}

#[test]
fn search_terms_are_percent_encoded() {
    assert_eq!(
        search_query("article", "en", "rust & wasm?"),
        "type=article&locale=en&fields=title,slug&search=rust%20%26%20wasm%3F&limit=6"
    );
    assert_eq!(
        search_query("page", "de", "Übung"),
        "type=page&locale=de&fields=title,slug&search=%C3%9Cbung&limit=6"
    );
}

#[test]
fn article_lists_count_at_least_their_entries() {
    let list = article_list(EntryResponse {
        count: 0,
        results: vec![blank_entry(), blank_entry()],
    });
    assert_eq!(list.total, 2);
    assert_eq!(list.entries.len(), 2);
    let list = article_list(EntryResponse {
        count: 40,
        results: vec![blank_entry()],
    });
    assert_eq!(list.total, 40);
}

#[test]
fn entry_lookups_take_the_first_result() {
    let mut first = blank_entry();
    first.slug = Some("first".into());
    let mut second = blank_entry();
    second.slug = Some("second".into());
    let found = entry(EntryResponse {
        count: 2,
        results: vec![first, second],
    })
    .unwrap();
    assert_eq!(found.slug.as_deref(), Some("first"));
    assert!(entry(EntryResponse {
        count: 0,
        results: Vec::new(),
    })
    .is_none());
    let mut start = blank_entry();
    start.slug = Some("start".into());
    assert_eq!(
        index_page(EntryResponse {
            count: 1,
            results: vec![start],
        })
        .unwrap()
        .slug
        .as_deref(),
        Some("start")
    );
    let facets = categories(FacetResponse {
        categories: vec![Category {
            name: "Rust".into(),
            slug: "rust".into(),
            count: 3,
        }],
    });
    assert_eq!(facets.len(), 1);
    assert_eq!(facets[0].slug, "rust");
}

#[test]
fn search_hits_link_articles_and_pages() {
    let mut with_title = blank_entry();
    with_title.slug = Some("rust".into());
    with_title.title = Some("Rust".into());
    let mut untitled = blank_entry();
    untitled.slug = Some("draft".into());
    untitled.title = Some(String::new());
    let mut without_slug = blank_entry();
    without_slug.title = Some("Lost".into());
    let entries = vec![with_title, without_slug, untitled];

    let articles = search_results_of("article", &entries, true, "Untitled");
    assert_eq!(articles.len(), 2);
    assert_eq!(articles[0].title, "Rust");
    assert_eq!(articles[0].href, "/article/rust");
    assert!(articles[0].article);
    assert_eq!(articles[1].title, "Untitled");
    assert_eq!(articles[1].href, "/article/draft");

    let pages = search_results_of("page", &entries, false, "Untitled");
    assert_eq!(pages[0].href, "/rust");
    assert!(!pages[0].article);
}

#[test]
fn search_interleaves_articles_and_pages_up_to_ten() {
    let articles: Vec<_> = (0..6).map(|i| hit(&format!("a{i}"), true)).collect();
    let pages: Vec<_> = (0..6).map(|i| hit(&format!("p{i}"), false)).collect();
    let results = search("article", "page", &articles, &pages);
    let titles: Vec<_> = results.iter().map(|r| r.title.as_str()).collect();
    assert_eq!(titles, ["a0", "p0", "a1", "p1", "a2", "p2", "a3", "p3", "a4", "p4"]);

    let few_pages: Vec<_> = (0..1).map(|i| hit(&format!("p{i}"), false)).collect();
    let results = search("article", "page", &articles[..3].to_vec(), &few_pages);
    let titles: Vec<_> = results.iter().map(|r| r.title.as_str()).collect();
    assert_eq!(titles, ["a0", "p0", "a1", "a2"]);

    let results = search("post", "post", &articles[..2].to_vec(), &pages);
    let titles: Vec<_> = results.iter().map(|r| r.title.as_str()).collect();
    assert_eq!(titles, ["a0", "a1"]);
}

#[test]
fn author_lines_join_named_authors() {
    let authors = vec![
        Author { first_name: Some("Ada".into()), last_name: Some("Lovelace".into()) },
        Author { first_name: Some(String::new()), last_name: None },
        Author { first_name: None, last_name: Some("Hopper".into()) },
        Author { first_name: Some("Alan".into()), last_name: Some(String::new()) },
    ];
    assert_eq!(author_line(&authors), "Ada Lovelace, Hopper, Alan");
    assert_eq!(author_line(&Vec::new()), "");
}
