use nur_blog::config::{valid_locale, valid_slug, BlogConfig, NavigationItem, SiteLocalization};

fn localization(locale: &str, site_name: &str) -> SiteLocalization {
    SiteLocalization {
        locale: locale.into(),
        site_name: site_name.into(),
        site_description: String::new(),
        index_page_slug: None,
        navigation: Vec::new(),
    }
}

fn settings(localizations: Vec<SiteLocalization>) -> BlogConfig {
    BlogConfig {
        default_locale: "en".into(),
        multilingual_enabled: true,
        favicon_url: None,
        article_type: "article".into(),
        page_type: "page".into(),
        posts_per_page: 6,
        localizations,
        site_name: String::new(),
        site_description: String::new(),
        index_page_slug: None,
        navigation: Vec::new(),
        active_category: None,
        current_url: "/".into(),
        site_default_locale: String::new(),
        language_paths: Vec::new(),
    }
}

#[test]
fn validates_localized_settings() {
    let mut en = localization("en", "Notes");
    en.site_description = "Ideas".into();
    en.index_page_slug = Some("index".into());
    en.navigation = vec![NavigationItem {
        label: "About".into(),
        href: "/about".into(),
    }];
    let mut de = localization("de", "Notizen");
    de.site_description = "Ideen".into();
    let config = settings(vec![en, de]);
    assert!(config.validate().is_ok());
}

#[test]
fn requires_a_unique_default_localization() {
    let missing = settings(vec![localization("de", "Notizen")]);
    assert!(missing.validate().is_err());
    let duplicate = settings(vec![localization("en", "Notes"), localization("EN", "Notes")]);
    assert!(duplicate.validate().is_err());
}

#[test]
fn rejects_unsafe_navigation_urls() {
    let mut en = localization("en", "Notes");
    en.navigation = vec![NavigationItem {
        label: "Bad".into(),
        href: "javascript:alert(1)".into(),
    }];
    let config = settings(vec![en]);
    assert!(config.validate().is_err());
}

#[test]
fn resolves_exact_base_and_default_localizations() {
    let mut config = settings(vec![localization("en", "Notes"), localization("de", "Notizen")]);
    config.site_default_locale = "en".into();
    config.activate_locale("de-DE").unwrap();
    assert_eq!(config.site_name, "Notizen");
    config.activate_locale("fr").unwrap();
    assert_eq!(config.site_name, "Notes");
}

#[test]
fn language_options_come_from_site_localizations() {
    let config = settings(vec![localization("en", "Notes"), localization("de", "Notizen")]);
    assert_eq!(config.locale_codes(), ["en", "de"]);
}

#[test]
fn validation_names_the_first_failed_check() {
    let mut config = settings(vec![localization("en", "Notes")]);
    config.default_locale = "e".into();
    assert_eq!(config.validate(), Err("default locale is invalid"));

    let config = settings(Vec::new());
    assert_eq!(config.validate(), Err("one to twenty localizations are required"));

    let many = (0..21).map(|i| localization(&format!("l{}", (b'a' + i as u8) as char), "Site")).collect();
    let mut config = settings(many);
    config.default_locale = "la".into();
    assert_eq!(config.validate(), Err("one to twenty localizations are required"));

    let config = settings(vec![localization("de", "Notizen")]);
    assert_eq!(config.validate(), Err("default locale requires a localization"));

    let config = settings(vec![localization("en", "Notes"), localization("En", "Notes")]);
    assert_eq!(config.validate(), Err("localizations contain an invalid or duplicate locale"));

    let config = settings(vec![localization("en", "   ")]);
    assert_eq!(config.validate(), Err("site name must contain at most 120 characters"));

    let config = settings(vec![localization("en", &"n".repeat(121))]);
    assert_eq!(config.validate(), Err("site name must contain at most 120 characters"));

    let mut en = localization("en", "Notes");
    en.site_description = "d".repeat(301);
    assert_eq!(settings(vec![en]).validate(), Err("site description must contain at most 300 characters"));

    let mut en = localization("en", "Notes");
    en.index_page_slug = Some("Index".into());
    assert_eq!(settings(vec![en]).validate(), Err("index page slug is invalid"));

    let mut en = localization("en", "Notes");
    en.navigation = (0..21)
        .map(|_| NavigationItem {
            label: "Link".into(),
            href: "/".into(),
        })
        .collect();
    assert_eq!(settings(vec![en]).validate(), Err("navigation may contain at most 20 links per locale"));

    let mut en = localization("en", "Notes");
    en.navigation = vec![NavigationItem {
        label: " ".into(),
        href: "/".into(),
    }];
    assert_eq!(settings(vec![en]).validate(), Err("navigation contains an invalid link"));

    let mut config = settings(vec![localization("en", "Notes")]);
    config.favicon_url = Some("favicon.svg".into());
    assert_eq!(config.validate(), Err("favicon URL is invalid"));

    let mut config = settings(vec![localization("en", "Notes")]);
    config.article_type = "Article".into();
    assert_eq!(config.validate(), Err("content type slugs are invalid"));

    let mut config = settings(vec![localization("en", "Notes")]);
    config.posts_per_page = 25;
    assert_eq!(config.validate(), Err("posts per page must be between 1 and 24"));
    config.posts_per_page = 0;
    assert_eq!(config.validate(), Err("posts per page must be between 1 and 24"));
    config.posts_per_page = 24;
    assert_eq!(config.validate(), Ok(()));
}

#[test]
fn accepts_the_documented_link_forms() {
    for href in ["/about", "https://example.org", "http://example.org/a"] {
        let mut en = localization("en", "Notes");
        en.navigation = vec![NavigationItem {
            label: "Link".into(),
            href: href.into(),
        }];
        assert_eq!(settings(vec![en]).validate(), Ok(()), "{href}");
    }
    for href in ["", "ftp://example.org", "/a b", "about", "//evil.example"] {
        let mut en = localization("en", "Notes");
        en.navigation = vec![NavigationItem {
            label: "Link".into(),
            href: href.into(),
        }];
        assert!(settings(vec![en]).validate().is_err(), "{href}");
    }
}

#[test]
fn locale_codes_follow_bcp47_shape() {
    assert!(valid_locale("en"));
    assert!(valid_locale("de-DE"));
    assert!(valid_locale("zh-Hant-TW"));
    assert!(!valid_locale("e"));
    assert!(!valid_locale("en-"));
    assert!(!valid_locale("e1"));
    assert!(valid_locale("english-language"));
    assert!(!valid_locale("languages-x"));
    assert!(!valid_locale("de-DEUTSCHLAND"));
    assert!(!valid_locale("de_DE"));
    assert!(!valid_locale(&format!("ab-{}", ["abcdefgh"; 4].join("-"))));
}

#[test]
fn slugs_are_lowercase_words() {
    assert!(valid_slug("rust-and-wasm"));
    assert!(valid_slug("2024"));
    assert!(!valid_slug(""));
    assert!(!valid_slug("Rust"));
    assert!(!valid_slug("a_b"));
    assert!(!valid_slug(&"a".repeat(161)));
    assert!(valid_slug(&"a".repeat(160)));
}

#[test]
fn localization_falls_back_to_base_default_and_first() {
    let mut config = settings(vec![localization("de", "Notizen"), localization("en-GB", "Notes")]);
    config.site_default_locale = "en-GB".into();
    assert_eq!(config.localization("DE").unwrap().site_name, "Notizen");
    assert_eq!(config.localization("de-AT").unwrap().site_name, "Notizen");
    assert_eq!(config.localization("fr").unwrap().site_name, "Notes");
    config.site_default_locale = "it".into();
    assert_eq!(config.localization("fr").unwrap().site_name, "Notizen");
    let empty = settings(Vec::new());
    assert!(empty.localization("en").is_none());
}

#[test]
fn activating_an_unknown_locale_without_localizations_fails() {
    let mut config = settings(Vec::new());
    assert_eq!(config.activate_locale("en"), Err("locale has no site localization"));
    assert_eq!(config.default_locale, "en");
}

#[test]
fn activating_a_locale_takes_its_identity() {
    let mut de = localization("de", "Notizen");
    de.site_description = "Ideen".into();
    de.index_page_slug = Some("start".into());
    de.navigation = vec![NavigationItem {
        label: "Über".into(),
        href: "/ueber".into(),
    }];
    let mut config = settings(vec![localization("en", "Notes"), de]);
    config.activate_locale("de").unwrap();
    assert_eq!(config.default_locale, "de");
    assert_eq!(config.site_name, "Notizen");
    assert_eq!(config.site_description, "Ideen");
    assert_eq!(config.index_page_slug.as_deref(), Some("start"));
    assert_eq!(config.navigation.len(), 1);
    assert_eq!(config.navigation[0].href, "/ueber");
}

#[test]
fn rejects_protocol_relative_links_and_favicons() {
    let mut en = localization("en", "Notes");
    en.navigation = vec![NavigationItem {
        label: "Elsewhere".into(),
        href: "//evil.example/path".into(),
    }];
    assert_eq!(settings(vec![en]).validate(), Err("navigation contains an invalid link"));

    let mut config = settings(vec![localization("en", "Notes")]);
    config.favicon_url = Some("//evil".into());
    assert_eq!(config.validate(), Err("favicon URL is invalid"));
    config.favicon_url = Some("/uploads/favicon.svg".into());
    assert_eq!(config.validate(), Ok(()));
}
