use nur_blog::config::{BlogConfig, NavigationItem, SiteLocalization};
use nur_blog::configuration::{
    append_localization, append_value_groups, load_config, localization_insert, navigation_insert, nullable_text,
    optional_text, update, DatabaseValue, NullType,
};
use nur_blog::http::PluginError;

fn text(s: &str) -> DatabaseValue {
    DatabaseValue::Text(s.into())
}

fn null() -> DatabaseValue {
    DatabaseValue::Null(NullType::Text)
}

fn row(locale: &str, site_name: &str, index: Option<&str>, link: Option<(&str, &str)>) -> Vec<DatabaseValue> {
    vec![
        text("en"),
        DatabaseValue::Boolean(true),
        null(),
        text("article"),
        text("page"),
        DatabaseValue::Integer(6),
        text(locale),
        text(site_name),
        text(""),
        index.map_or(null(), text),
        link.map_or(null(), |(label, _)| text(label)),
        link.map_or(null(), |(_, href)| text(href)),
    ]
}

fn failed_message(result: Result<BlogConfig, PluginError>) -> String {
    match result {
        Err(PluginError::Failed(message)) => message,
        _ => panic!("expected a failure"),
    }
}

fn valid_config() -> BlogConfig {
    BlogConfig {
        default_locale: "EN".into(),
        multilingual_enabled: true,
        favicon_url: Some("/uploads/icon.svg".into()),
        article_type: "article".into(),
        page_type: "page".into(),
        posts_per_page: 6,
        localizations: vec![
            SiteLocalization {
                locale: "en".into(),
                site_name: "Notes".into(),
                site_description: "Ideas".into(),
                index_page_slug: Some("index".into()),
                navigation: vec![
                    NavigationItem {
                        label: "Home".into(),
                        href: "/".into(),
                    },
                    NavigationItem {
                        label: "About".into(),
                        href: "/about".into(),
                    },
                ],
            },
            SiteLocalization {
                locale: "de".into(),
                site_name: "Notizen".into(),
                site_description: String::new(),
                index_page_slug: None,
                navigation: vec![NavigationItem {
                    label: "Über".into(),
                    href: "/ueber".into(),
                }],
            },
        ],
        site_name: String::new(),
        site_description: String::new(),
        index_page_slug: None,
        navigation: Vec::new(),
        active_category: None,
        current_url: "/".into(),
        site_default_locale: String::new(),
        language_paths: Vec::new(),
    }
}

#[test]
fn bulk_navigation_insert_has_one_parameter_per_column() {
    let first = NavigationItem {
        label: "Home".into(),
        href: "/".into(),
    };
    let second = NavigationItem {
        label: "About".into(),
        href: "/about".into(),
    };
    let statement = navigation_insert(&[("en", 0, &first), ("en", 1, &second)]);

    assert_eq!(statement.params.len(), 8);
    assert!(statement.sql.ends_with("($5, $6, $7, $8)"));
}

#[test]
fn value_groups_number_placeholders_consecutively() {
    let mut sql = String::from("VALUES ");
    append_value_groups(&mut sql, 2, 3);
    assert_eq!(sql, "VALUES ($1, $2, $3), ($4, $5, $6)");
    let mut empty = String::new();
    append_value_groups(&mut empty, 0, 4);
    assert_eq!(empty, "");
}

#[test]
fn localization_insert_lists_four_values_per_locale() {
    let config = valid_config();
    let statement = localization_insert(&config.localizations);
    assert_eq!(
        statement.sql,
        "INSERT INTO site_localization (locale, site_name, site_description, index_page_slug) VALUES ($1, $2, $3, $4), ($5, $6, $7, $8)"
    );
    assert_eq!(statement.params.len(), 8);
    assert!(matches!(&statement.params[3], DatabaseValue::Text(s) if s == "index"));
    assert!(matches!(&statement.params[7], DatabaseValue::Null(NullType::Text)));
}

#[test]
fn nullable_text_reads_text_or_null() {
    assert_eq!(nullable_text(&text("x")).unwrap().as_deref(), Some("x"));
    assert_eq!(nullable_text(&null()).unwrap(), None);
    assert!(matches!(
        nullable_text(&DatabaseValue::Integer(1)),
        Err(PluginError::Failed(m)) if m == "blog settings are unavailable"
    ));
    assert!(matches!(optional_text(&None), DatabaseValue::Null(NullType::Text)));
    assert!(matches!(optional_text(&Some("y".into())), DatabaseValue::Text(s) if s == "y"));
}

#[test]
fn loads_settings_localizations_and_navigation() {
    let rows = vec![
        row("de", "Notizen", None, None),
        row("en", "Notes", Some("index"), Some(("Home", "/"))),
        row("en", "Notes", Some("index"), Some(("About", "/about"))),
    ];
    let config = load_config(&rows).unwrap();
    assert_eq!(config.default_locale, "en");
    assert_eq!(config.site_default_locale, "en");
    assert_eq!(config.site_name, "Notes");
    assert_eq!(config.index_page_slug.as_deref(), Some("index"));
    assert_eq!(config.localizations.len(), 2);
    assert_eq!(config.localizations[0].locale, "de");
    assert!(config.localizations[0].navigation.is_empty());
    assert_eq!(config.navigation.len(), 2);
    assert_eq!(config.navigation[1].href, "/about");
    assert_eq!(config.posts_per_page, 6);
    assert!(config.validate().is_ok());
}

#[test]
fn unreadable_or_invalid_settings_fail() {
    assert_eq!(failed_message(load_config(&[])), "blog settings are unavailable");

    let mut short = row("en", "Notes", None, None);
    short.pop();
    assert_eq!(failed_message(load_config(&[short])), "blog settings are unavailable");

    let mut negative = row("en", "Notes", None, None);
    negative[5] = DatabaseValue::Integer(-1);
    assert_eq!(failed_message(load_config(&[negative])), "blog settings are unavailable");

    let mut half_link = row("en", "Notes", None, None);
    half_link[10] = text("Home");
    assert_eq!(failed_message(load_config(&[half_link])), "blog settings are unavailable");

    let mut too_many = row("en", "Notes", None, None);
    too_many[5] = DatabaseValue::Integer(30);
    assert_eq!(failed_message(load_config(&[too_many])), "blog settings are invalid");

    assert_eq!(
        failed_message(load_config(&[row("de", "Notizen", None, None)])),
        "blog settings are invalid"
    );
}

#[test]
fn update_stores_settings_localizations_and_ordered_navigation() {
    let statements = update(valid_config()).unwrap();
    assert_eq!(statements.len(), 4);
    assert!(statements[0].sql.starts_with("UPDATE settings SET default_locale = $1"));
    assert_eq!(statements[0].params.len(), 6);
    assert!(matches!(&statements[0].params[0], DatabaseValue::Text(s) if s == "en"));
    assert!(matches!(&statements[0].params[1], DatabaseValue::Boolean(true)));
    assert!(matches!(&statements[0].params[2], DatabaseValue::Text(s) if s == "/uploads/icon.svg"));
    assert!(matches!(&statements[0].params[5], DatabaseValue::Integer(6)));
    assert_eq!(statements[1].sql, "DELETE FROM site_localization");
    assert!(statements[1].params.is_empty());
    assert!(statements[2].sql.starts_with("INSERT INTO site_localization"));
    assert_eq!(
        statements[3].sql,
        "INSERT INTO navigation (locale, label, href, position) VALUES ($1, $2, $3, $4), ($5, $6, $7, $8), ($9, $10, $11, $12)"
    );
    assert!(matches!(&statements[3].params[4], DatabaseValue::Text(s) if s == "en"));
    assert!(matches!(&statements[3].params[7], DatabaseValue::Integer(1)));
    assert!(matches!(&statements[3].params[8], DatabaseValue::Text(s) if s == "de"));
    assert!(matches!(&statements[3].params[11], DatabaseValue::Integer(0)));
}

#[test]
fn navigation_is_inserted_in_chunks_of_thirty_two() {
    let mut config = valid_config();
    config.localizations = (0..2)
        .map(|i| SiteLocalization {
            locale: ["en", "de"][i].into(),
            site_name: "Site".into(),
            site_description: String::new(),
            index_page_slug: None,
            navigation: (0..20)
                .map(|k| NavigationItem {
                    label: format!("Link {k}"),
                    href: format!("/{k}"),
                })
                .collect(),
        })
        .collect();
    let statements = update(config).unwrap();
    assert_eq!(statements.len(), 5);
    assert_eq!(statements[3].params.len(), 32 * 4);
    assert_eq!(statements[4].params.len(), 8 * 4);
    assert!(statements[4].sql.ends_with("($29, $30, $31, $32)"));
}

#[test]
fn update_refuses_invalid_settings() {
    let mut config = valid_config();
    config.posts_per_page = 0;
    assert!(matches!(
        update(config),
        Err(PluginError::BadRequest(m)) if m == "posts per page must be between 1 and 24"
    ));
}

#[test]
fn a_malformed_link_leaves_the_started_localization() {
    let mut localizations = Vec::new();
    let mut half_link = row("en", "Notes", None, None);
    half_link[11] = text("/about");
    assert!(append_localization(&mut localizations, &half_link).is_err());
    assert_eq!(localizations.len(), 1);
    assert_eq!(localizations[0].locale, "en");
    assert!(localizations[0].navigation.is_empty());

    let mut bad_slug = row("de", "Notizen", None, None);
    bad_slug[9] = DatabaseValue::Integer(3);
    assert!(append_localization(&mut localizations, &bad_slug).is_err());
    assert_eq!(localizations.len(), 1);
}
