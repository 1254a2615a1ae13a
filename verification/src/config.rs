//! Blog settings: validation and locale resolution.
use crate::http::clone_opt_string;
use crate::text::{
    chars_of, contains_whitespace, lemma_split_nonempty, eq_ic, eq_ignore_case, has_ws, is_alnum, is_alpha, is_ascii_alnum,
    is_ascii_alpha, is_ascii_digit, is_ascii_lower, is_digit, is_lower, split, split_chars, split_once,
    split_once_chars, starts_with, starts_with_chars, string_of, trim, trim_str,
};
use vstd::prelude::*;
use vstd::utf8::encode_utf8;

verus! {

/// A link of the site navigation.
#[derive(Clone, Debug)]
pub struct NavigationItem {
    pub label: String,
    pub href: String,
}

/// The localized identity of the site for one website locale.
#[derive(Clone, Debug)]
pub struct SiteLocalization {
    pub locale: String,
    pub site_name: String,
    pub site_description: String,
    pub index_page_slug: Option<String>,
    pub navigation: Vec<NavigationItem>,
}

/// The path of the current content in another locale.
#[derive(Clone, Debug)]
pub struct LanguagePath {
    pub locale: String,
    pub path: String,
}

/// The blog settings, together with the state of the current request
/// (the active locale's identity, category filter and URL).
#[derive(Clone, Debug)]
pub struct BlogConfig {
    pub default_locale: String,
    pub multilingual_enabled: bool,
    pub favicon_url: Option<String>,
    pub article_type: String,
    pub page_type: String,
    pub posts_per_page: usize,
    pub localizations: Vec<SiteLocalization>,
    pub site_name: String,
    pub site_description: String,
    pub index_page_slug: Option<String>,
    pub navigation: Vec<NavigationItem>,
    pub active_category: Option<String>,
    pub current_url: String,
    pub site_default_locale: String,
    pub language_paths: Vec<LanguagePath>,
}

/// The content of a navigation link.
pub struct NavigationView {
    pub label: Seq<char>,
    pub href: Seq<char>,
}

/// The content of a site localization.
pub struct LocalizationView {
    pub locale: Seq<char>,
    pub site_name: Seq<char>,
    pub site_description: Seq<char>,
    pub index_page_slug: Option<Seq<char>>,
    pub navigation: Seq<NavigationView>,
}

/// The content of a language path.
pub struct LanguagePathView {
    pub locale: Seq<char>,
    pub path: Seq<char>,
}

/// The content of the blog settings.
pub struct BlogConfigView {
    pub default_locale: Seq<char>,
    pub multilingual_enabled: bool,
    pub favicon_url: Option<Seq<char>>,
    pub article_type: Seq<char>,
    pub page_type: Seq<char>,
    pub posts_per_page: usize,
    pub localizations: Seq<LocalizationView>,
    pub site_name: Seq<char>,
    pub site_description: Seq<char>,
    pub index_page_slug: Option<Seq<char>>,
    pub navigation: Seq<NavigationView>,
    pub active_category: Option<Seq<char>>,
    pub current_url: Seq<char>,
    pub site_default_locale: Seq<char>,
    pub language_paths: Seq<LanguagePathView>,
}

pub open spec fn opt_view(o: Option<String>) -> Option<Seq<char>> {
    match o {
        Some(s) => Some(s@),
        None => None,
    }
}

pub open spec fn nav_views(v: Seq<NavigationItem>) -> Seq<NavigationView> {
    v.map_values(|n: NavigationItem| n@)
}

pub open spec fn loc_views(v: Seq<SiteLocalization>) -> Seq<LocalizationView> {
    v.map_values(|l: SiteLocalization| l@)
}

pub open spec fn path_views(v: Seq<LanguagePath>) -> Seq<LanguagePathView> {
    v.map_values(|p: LanguagePath| p@)
}

impl View for NavigationItem {
    type V = NavigationView;

    open spec fn view(&self) -> NavigationView {
        NavigationView { label: self.label@, href: self.href@ }
    }
}

impl View for SiteLocalization {
    type V = LocalizationView;

    open spec fn view(&self) -> LocalizationView {
        LocalizationView {
            locale: self.locale@,
            site_name: self.site_name@,
            site_description: self.site_description@,
            index_page_slug: opt_view(self.index_page_slug),
            navigation: nav_views(self.navigation@),
        }
    }
}

impl View for LanguagePath {
    type V = LanguagePathView;

    open spec fn view(&self) -> LanguagePathView {
        LanguagePathView { locale: self.locale@, path: self.path@ }
    }
}

impl View for BlogConfig {
    type V = BlogConfigView;

    open spec fn view(&self) -> BlogConfigView {
        BlogConfigView {
            default_locale: self.default_locale@,
            multilingual_enabled: self.multilingual_enabled,
            favicon_url: opt_view(self.favicon_url),
            article_type: self.article_type@,
            page_type: self.page_type@,
            posts_per_page: self.posts_per_page,
            localizations: loc_views(self.localizations@),
            site_name: self.site_name@,
            site_description: self.site_description@,
            index_page_slug: opt_view(self.index_page_slug),
            navigation: nav_views(self.navigation@),
            active_category: opt_view(self.active_category),
            current_url: self.current_url@,
            site_default_locale: self.site_default_locale@,
            language_paths: path_views(self.language_paths@),
        }
    }
}

// ---------------------------------------------------------------------------
// Specifications
// ---------------------------------------------------------------------------

pub open spec fn all_alpha(s: Seq<char>) -> bool {
    forall|j: int| 0 <= j < s.len() ==> is_ascii_alpha(#[trigger] s[j])
}

pub open spec fn all_alnum(s: Seq<char>) -> bool {
    forall|j: int| 0 <= j < s.len() ==> is_ascii_alnum(#[trigger] s[j])
}

/// A subtag after the language: one to eight ASCII letters or digits.
pub open spec fn valid_subtag(s: Seq<char>) -> bool {
    1 <= s.len() <= 8 && all_alnum(s)
}

/// A BCP 47 style locale code: 2 to 35 bytes; a language of 2 to 8 ASCII
/// letters, then `-`-separated subtags of 1 to 8 ASCII letters or digits.
/// (The segments are checked to be ASCII, so their byte and character
/// lengths agree.)
pub open spec fn is_valid_locale(s: Seq<char>) -> bool {
    let parts = split(s, '-');
    &&& 2 <= encode_utf8(s).len() <= 35
    &&& 2 <= parts[0].len() <= 8
    &&& all_alpha(parts[0])
    &&& forall|k: int| 1 <= k < parts.len() ==> valid_subtag(#[trigger] parts[k])
}

pub open spec fn is_slug_char(c: char) -> bool {
    is_ascii_lower(c) || is_ascii_digit(c) || c == '-'
}

/// A content slug: 1 to 160 bytes of lowercase ASCII letters, digits and `-`.
pub open spec fn is_valid_slug(s: Seq<char>) -> bool {
    &&& s.len() > 0
    &&& encode_utf8(s).len() <= 160
    &&& forall|j: int| 0 <= j < s.len() ==> is_slug_char(#[trigger] s[j])
}

pub open spec fn slash() -> Seq<char> {
    seq!['/']
}

pub open spec fn https_prefix() -> Seq<char> {
    seq!['h', 't', 't', 'p', 's', ':', '/', '/']
}

pub open spec fn http_prefix() -> Seq<char> {
    seq!['h', 't', 't', 'p', ':', '/', '/']
}

/// A link target: a root-relative path (one `/`, not the `//` of a
/// protocol-relative URL) or an http(s) URL, 1 to 500 bytes without
/// whitespace.
pub open spec fn is_valid_href(s: Seq<char>) -> bool {
    &&& s.len() > 0
    &&& encode_utf8(s).len() <= 500
    &&& !has_ws(s)
    &&& ((starts_with(s, slash()) && !starts_with(s, seq!['/', '/'])) || starts_with(s, https_prefix())
        || starts_with(s, http_prefix()))
}

/// Index of the first localization whose locale equals `code` up to ASCII
/// case, or -1.
pub open spec fn find_locale(locs: Seq<LocalizationView>, code: Seq<char>) -> int
    decreases locs.len(),
{
    if locs.len() == 0 {
        -1
    } else {
        let r = find_locale(locs.drop_last(), code);
        if r >= 0 {
            r
        } else if eq_ic(locs.last().locale, code) {
            locs.len() - 1
        } else {
            -1
        }
    }
}

pub open spec fn has_locale(locs: Seq<LocalizationView>, code: Seq<char>) -> bool {
    exists|i: int| 0 <= i < locs.len() && eq_ic(#[trigger] locs[i].locale, code)
}

/// The localization that `localization(requested)` picks: the exact locale,
/// then the base language of a regional locale, then the site's default
/// locale, then the first localization; -1 when there is none.
pub open spec fn localization_index(c: BlogConfigView, requested: Seq<char>) -> int {
    let locs = c.localizations;
    let exact = find_locale(locs, requested);
    let base = match split_once(requested, '-') {
        Some((language, _)) => find_locale(locs, language),
        None => -1,
    };
    let fallback = find_locale(locs, c.site_default_locale);
    if exact >= 0 {
        exact
    } else if base >= 0 {
        base
    } else if fallback >= 0 {
        fallback
    } else if locs.len() > 0 {
        0
    } else {
        -1
    }
}

pub open spec fn is_valid_nav_item(item: NavigationView) -> bool {
    &&& trim(item.label).len() > 0
    &&& item.label.len() <= 80
    &&& is_valid_href(item.href)
}

pub open spec fn msg_default_locale() -> Seq<char> {
    "default locale is invalid"@
}

pub open spec fn msg_localization_count() -> Seq<char> {
    "one to twenty localizations are required"@
}

pub open spec fn msg_default_localization() -> Seq<char> {
    "default locale requires a localization"@
}

pub open spec fn msg_locale() -> Seq<char> {
    "localizations contain an invalid or duplicate locale"@
}

pub open spec fn msg_site_name() -> Seq<char> {
    "site name must contain at most 120 characters"@
}

pub open spec fn msg_site_description() -> Seq<char> {
    "site description must contain at most 300 characters"@
}

pub open spec fn msg_index_page_slug() -> Seq<char> {
    "index page slug is invalid"@
}

pub open spec fn msg_navigation_count() -> Seq<char> {
    "navigation may contain at most 20 links per locale"@
}

pub open spec fn msg_navigation_link() -> Seq<char> {
    "navigation contains an invalid link"@
}

pub open spec fn msg_favicon() -> Seq<char> {
    "favicon URL is invalid"@
}

pub open spec fn msg_content_types() -> Seq<char> {
    "content type slugs are invalid"@
}

pub open spec fn msg_posts_per_page() -> Seq<char> {
    "posts per page must be between 1 and 24"@
}

/// The first problem of the localization at index `i`, if any.
pub open spec fn localization_problem(locs: Seq<LocalizationView>, i: int) -> Option<Seq<char>> {
    let l = locs[i];
    if !is_valid_locale(l.locale) || has_locale(locs.take(i), l.locale) {
        Some(msg_locale())
    } else if trim(l.site_name).len() == 0 || l.site_name.len() > 120 {
        Some(msg_site_name())
    } else if l.site_description.len() > 300 {
        Some(msg_site_description())
    } else if l.index_page_slug matches Some(slug) && !is_valid_slug(slug) {
        Some(msg_index_page_slug())
    } else if l.navigation.len() > 20 {
        Some(msg_navigation_count())
    } else if exists|k: int|
        0 <= k < l.navigation.len() && !is_valid_nav_item(#[trigger] l.navigation[k]) {
        Some(msg_navigation_link())
    } else {
        None
    }
}

/// The first problem among the localizations from index `i` on.
pub open spec fn localizations_problem(locs: Seq<LocalizationView>, i: int) -> Option<Seq<char>>
    decreases locs.len() - i,
{
    if i < 0 || i >= locs.len() {
        None
    } else {
        match localization_problem(locs, i) {
            Some(m) => Some(m),
            None => localizations_problem(locs, i + 1),
        }
    }
}

/// The message of the first check that the settings fail, in the order in
/// which `validate` makes them; `None` when the settings are valid.
pub open spec fn settings_problem(c: BlogConfigView) -> Option<Seq<char>> {
    let locs = c.localizations;
    if !is_valid_locale(c.default_locale) {
        Some(msg_default_locale())
    } else if locs.len() == 0 || locs.len() > 20 {
        Some(msg_localization_count())
    } else if !has_locale(locs, c.default_locale) {
        Some(msg_default_localization())
    } else if localizations_problem(locs, 0) is Some {
        localizations_problem(locs, 0)
    } else if c.favicon_url matches Some(url) && !is_valid_href(url) {
        Some(msg_favicon())
    } else if !is_valid_slug(c.article_type) || !is_valid_slug(c.page_type) {
        Some(msg_content_types())
    } else if !(1 <= c.posts_per_page <= 24) {
        Some(msg_posts_per_page())
    } else {
        None
    }
}

// ---------------------------------------------------------------------------
// Lemmas
// ---------------------------------------------------------------------------

pub proof fn lemma_find_locale(locs: Seq<LocalizationView>, code: Seq<char>)
    ensures
        -1 <= find_locale(locs, code) < locs.len(),
        find_locale(locs, code) >= 0 ==> eq_ic(locs[find_locale(locs, code)].locale, code),
        find_locale(locs, code) == -1 <==> !has_locale(locs, code),
        forall|j: int| 0 <= j < find_locale(locs, code) ==> !eq_ic(#[trigger] locs[j].locale, code),
    decreases locs.len(),
{
    if locs.len() > 0 {
        let p = locs.drop_last();
        lemma_find_locale(p, code);
        assert(forall|j: int| 0 <= j < p.len() ==> p[j] == locs[j]);
        if find_locale(locs, code) == -1 {
            assert forall|i: int| 0 <= i < locs.len() implies !eq_ic(#[trigger] locs[i].locale, code) by {
                if i < p.len() {
                    assert(p[i] == locs[i]);
                    if eq_ic(locs[i].locale, code) {
                        assert(has_locale(p, code));
                    }
                }
            }
        } else {
            let k = find_locale(locs, code);
            assert(eq_ic(locs[k].locale, code));
        }
        assert forall|j: int| 0 <= j < find_locale(locs, code) implies !eq_ic(#[trigger] locs[j].locale, code) by {
            assert(p[j] == locs[j]);
            if find_locale(p, code) < 0 {
                if eq_ic(locs[j].locale, code) {
                    assert(has_locale(p, code));
                }
            }
        }
    }
}

/// When no localization from index `i` on has a problem, neither has the one
/// at index `j`.
pub proof fn lemma_no_localization_problem(locs: Seq<LocalizationView>, i: int, j: int)
    requires
        0 <= i <= j < locs.len(),
        localizations_problem(locs, i) is None,
    ensures
        localization_problem(locs, j) is None,
    decreases j - i,
{
    if i < j {
        lemma_no_localization_problem(locs, i + 1, j);
    }
}

/// Valid settings keep the documented limits: one to twenty localizations
/// with distinct locales (up to ASCII case), one of them for the default
/// locale; each with a valid locale code, a non-blank site name of at most
/// 120 characters, a description of at most 300 characters, a valid index
/// page slug when it names one, and at most twenty valid navigation links; a
/// valid favicon URL when one is set; valid content-type slugs; one to
/// twenty-four articles per overview page.
pub proof fn lemma_valid_settings(c: BlogConfigView)
    requires
        settings_problem(c) is None,
    ensures
        1 <= c.localizations.len() <= 20,
        has_locale(c.localizations, c.default_locale),
        is_valid_locale(c.default_locale),
        forall|i: int, j: int|
            0 <= i < j < c.localizations.len() ==> !eq_ic(
                #[trigger] c.localizations[i].locale,
                #[trigger] c.localizations[j].locale,
            ),
        forall|i: int|
            0 <= i < c.localizations.len() ==> {
                let l = #[trigger] c.localizations[i];
                &&& is_valid_locale(l.locale)
                &&& trim(l.site_name).len() > 0
                &&& l.site_name.len() <= 120
                &&& l.site_description.len() <= 300
                &&& (l.index_page_slug matches Some(slug) ==> is_valid_slug(slug))
                &&& l.navigation.len() <= 20
                &&& forall|k: int| 0 <= k < l.navigation.len() ==> is_valid_nav_item(#[trigger] l.navigation[k])
            },
        c.favicon_url matches Some(url) ==> is_valid_href(url),
        is_valid_slug(c.article_type),
        is_valid_slug(c.page_type),
        1 <= c.posts_per_page <= 24,
{
    let locs = c.localizations;
    assert forall|j: int| 0 <= j < locs.len() implies localization_problem(locs, j) is None by {
        lemma_no_localization_problem(locs, 0, j);
    }
    assert forall|i: int, j: int| 0 <= i < j < locs.len() implies !eq_ic(
        #[trigger] locs[i].locale,
        #[trigger] locs[j].locale,
    ) by {
        assert(localization_problem(locs, j) is None);
        assert(locs.take(j)[i] == locs[i]);
        if eq_ic(locs[i].locale, locs[j].locale) {
            assert(has_locale(locs.take(j), locs[j].locale));
        }
    }
    assert forall|i: int| 0 <= i < locs.len() implies {
        let l = #[trigger] locs[i];
        &&& is_valid_locale(l.locale)
        &&& trim(l.site_name).len() > 0
        &&& l.site_name.len() <= 120
        &&& l.site_description.len() <= 300
        &&& (l.index_page_slug matches Some(slug) ==> is_valid_slug(slug))
        &&& l.navigation.len() <= 20
        &&& forall|k: int| 0 <= k < l.navigation.len() ==> is_valid_nav_item(#[trigger] l.navigation[k])
    } by {
        assert(localization_problem(locs, i) is None);
    }
}

/// A locale is always found for settings with a localization: the exact
/// locale, else its base language, else the site default, else the first.
pub proof fn lemma_localization_found(c: BlogConfigView, requested: Seq<char>)
    ensures
        c.localizations.len() > 0 <==> 0 <= localization_index(c, requested) < c.localizations.len(),
        has_locale(c.localizations, requested) ==> eq_ic(
            c.localizations[localization_index(c, requested)].locale,
            requested,
        ),
{
    lemma_find_locale(c.localizations, requested);
    lemma_find_locale(c.localizations, c.site_default_locale);
    match split_once(requested, '-') {
        Some((language, _)) => {
            lemma_find_locale(c.localizations, language);
        },
        None => {},
    }
}

pub proof fn lemma_find_locale_first(locs: Seq<LocalizationView>, code: Seq<char>, k: int)
    requires
        0 <= k <= locs.len(),
        forall|j: int| 0 <= j < k ==> !eq_ic(#[trigger] locs[j].locale, code),
        k < locs.len() ==> eq_ic(locs[k].locale, code),
    ensures
        find_locale(locs, code) == if k < locs.len() { k } else { -1 },
{
    lemma_find_locale(locs, code);
    if k < locs.len() {
        assert(has_locale(locs, code));
    } else {
        assert(!has_locale(locs, code));
    }
}

// ---------------------------------------------------------------------------
// Exec
// ---------------------------------------------------------------------------

fn slash_chars() -> (r: Vec<char>)
    ensures
        r@ == slash(),
{
    let mut r: Vec<char> = Vec::new();
    r.push('/');
    assert(r@ =~= slash());
    r
}

fn http_chars(secure: bool) -> (r: Vec<char>)
    ensures
        r@ == if secure { https_prefix() } else { http_prefix() },
{
    let mut r: Vec<char> = Vec::new();
    r.push('h');
    r.push('t');
    r.push('t');
    r.push('p');
    if secure {
        r.push('s');
    }
    r.push(':');
    r.push('/');
    r.push('/');
    if secure {
        assert(r@ =~= https_prefix());
    } else {
        assert(r@ =~= http_prefix());
    }
    r
}

fn all_alpha_chars(v: &[char]) -> (r: bool)
    ensures
        r == all_alpha(v@),
{
    let mut i: usize = 0;
    while i < v.len()
        invariant
            i <= v.len(),
            forall|j: int| 0 <= j < i ==> is_ascii_alpha(#[trigger] v@[j]),
        decreases v.len() - i,
    {
        if !is_alpha(v[i]) {
            return false;
        }
        i = i + 1;
    }
    true
}

fn all_alnum_chars(v: &[char]) -> (r: bool)
    ensures
        r == all_alnum(v@),
{
    let mut i: usize = 0;
    while i < v.len()
        invariant
            i <= v.len(),
            forall|j: int| 0 <= j < i ==> is_ascii_alnum(#[trigger] v@[j]),
        decreases v.len() - i,
    {
        if !is_alnum(v[i]) {
            return false;
        }
        i = i + 1;
    }
    true
}

/// Whether `locale` is an acceptable website locale code.
#[verifier::loop_isolation(false)]
pub fn valid_locale(locale: &str) -> (r: bool)
    ensures
        r == is_valid_locale(locale@),
{
    let n = locale.as_bytes().len();
    if n < 2 || n > 35 {
        return false;
    }
    let v = chars_of(locale);
    let parts = split_chars(v.as_slice(), '-');
    proof {
        lemma_split_nonempty(locale@, '-');
    }
    let language = &parts[0];
    if language.len() < 2 || language.len() > 8 || !all_alpha_chars(language.as_slice()) {
        return false;
    }
    let mut k: usize = 1;
    while k < parts.len()
        invariant
            1 <= k <= parts@.len(),
            parts@.len() == split(locale@, '-').len(),
            forall|m: int| 0 <= m < parts@.len() ==> #[trigger] parts@[m]@ == split(locale@, '-')[m],
            forall|m: int| 1 <= m < k ==> valid_subtag(#[trigger] split(locale@, '-')[m]),
        decreases parts.len() - k,
    {
        let part = &parts[k];
        assert(part@ == split(locale@, '-')[k as int]);
        if part.len() < 1 || part.len() > 8 || !all_alnum_chars(part.as_slice()) {
            return false;
        }
        k = k + 1;
    }
    assert(v@ == locale@);
    true
}

/// Whether `slug` is an acceptable content slug.
#[verifier::loop_isolation(false)]
pub fn valid_slug(slug: &str) -> (r: bool)
    ensures
        r == is_valid_slug(slug@),
{
    if slug.as_bytes().len() > 160 {
        return false;
    }
    let v = chars_of(slug);
    if v.len() == 0 {
        return false;
    }
    let mut i: usize = 0;
    while i < v.len()
        invariant
            i <= v.len(),
            forall|j: int| 0 <= j < i ==> is_slug_char(#[trigger] v@[j]),
        decreases v.len() - i,
    {
        let c = v[i];
        if !(is_lower(c) || is_digit(c) || c == '-') {
            assert(!is_slug_char(slug@[i as int]));
            return false;
        }
        i = i + 1;
    }
    true
}

/// Whether `href` is an acceptable link target.
pub fn valid_href(href: &str) -> (r: bool)
    ensures
        r == is_valid_href(href@),
{
    if href.as_bytes().len() > 500 {
        return false;
    }
    let v = chars_of(href);
    if v.len() == 0 || contains_whitespace(v.as_slice()) {
        return false;
    }
    let s = slash_chars();
    let mut d = slash_chars();
    d.push('/');
    assert(d@ =~= seq!['/', '/']);
    let a = http_chars(true);
    let b = http_chars(false);
    (starts_with_chars(v.as_slice(), s.as_slice()) && !starts_with_chars(v.as_slice(), d.as_slice()))
        || starts_with_chars(v.as_slice(), a.as_slice()) || starts_with_chars(v.as_slice(), b.as_slice())
}

/// Index of the first localization whose locale matches `code`.
pub fn position_of_locale(locs: &Vec<SiteLocalization>, code: &str) -> (r: Option<usize>)
    ensures
        match r {
            Some(i) => find_locale(loc_views(locs@), code@) == i,
            None => find_locale(loc_views(locs@), code@) == -1,
        },
{
    let ghost vs = loc_views(locs@);
    let mut i: usize = 0;
    while i < locs.len()
        invariant
            i <= locs.len(),
            vs == loc_views(locs@),
            forall|j: int| 0 <= j < i ==> !eq_ic(#[trigger] vs[j].locale, code@),
        decreases locs.len() - i,
    {
        if eq_ignore_case(locs[i].locale.as_str(), code) {
            proof {
                lemma_find_locale_first(vs, code@, i as int);
            }
            return Some(i);
        }
        i = i + 1;
    }
    proof {
        lemma_find_locale_first(vs, code@, locs.len() as int);
    }
    None
}

fn valid_nav_item(item: &NavigationItem) -> (r: bool)
    ensures
        r == is_valid_nav_item(item@),
{
    let label = trim_str(item.label.as_str());
    label.len() > 0 && item.label.unicode_len() <= 80 && valid_href(item.href.as_str())
}

#[verifier::loop_isolation(false)]
fn check_localization(locs: &Vec<SiteLocalization>, i: usize) -> (r: Result<(), &'static str>)
    requires
        i < locs.len(),
    ensures
        match r {
            Ok(()) => localization_problem(loc_views(locs@), i as int) is None,
            Err(m) => localization_problem(loc_views(locs@), i as int) == Some(m@),
        },
{
    let ghost vs = loc_views(locs@);
    let l = &locs[i];
    if !valid_locale(l.locale.as_str()) {
        return Err("localizations contain an invalid or duplicate locale");
    }
    let mut j: usize = 0;
    while j < i
        invariant
            i < locs.len(),
            vs == loc_views(locs@),
            l == locs@[i as int],
            j <= i,
            forall|k: int| 0 <= k < j ==> !eq_ic(#[trigger] vs[k].locale, l.locale@),
        decreases i - j,
    {
        if eq_ignore_case(locs[j].locale.as_str(), l.locale.as_str()) {
            assert(vs.take(i as int)[j as int] == vs[j as int]);
            assert(vs[j as int].locale == locs@[j as int].locale@);
            assert(eq_ic(vs.take(i as int)[j as int].locale, l.locale@));
            assert(has_locale(vs.take(i as int), l.locale@));
            return Err("localizations contain an invalid or duplicate locale");
        }
        j = j + 1;
    }
    assert(!has_locale(vs.take(i as int), l.locale@)) by {
        assert forall|k: int| 0 <= k < i implies !eq_ic(#[trigger] vs.take(i as int)[k].locale, l.locale@) by {
            assert(vs.take(i as int)[k] == vs[k]);
        }
    }
    let name = trim_str(l.site_name.as_str());
    if name.len() == 0 || l.site_name.unicode_len() > 120 {
        return Err("site name must contain at most 120 characters");
    }
    if l.site_description.unicode_len() > 300 {
        return Err("site description must contain at most 300 characters");
    }
    match &l.index_page_slug {
        Some(slug) => {
            if !valid_slug(slug.as_str()) {
                return Err("index page slug is invalid");
            }
        },
        None => {},
    }
    if l.navigation.len() > 20 {
        return Err("navigation may contain at most 20 links per locale");
    }
    let mut k: usize = 0;
    while k < l.navigation.len()
        invariant
            k <= l.navigation@.len(),
            forall|m: int| 0 <= m < k ==> is_valid_nav_item(#[trigger] nav_views(l.navigation@)[m]),
        decreases l.navigation.len() - k,
    {
        if !valid_nav_item(&l.navigation[k]) {
            assert(!is_valid_nav_item(nav_views(l.navigation@)[k as int]));
            return Err("navigation contains an invalid link");
        }
        k = k + 1;
    }
    Ok(())
}

/// The settings after `requested` became the active locale: the site
/// identity comes from the localization that `localization_index` picks.
pub open spec fn activated(c: BlogConfigView, requested: Seq<char>) -> BlogConfigView {
    let l = c.localizations[localization_index(c, requested)];
    BlogConfigView {
        default_locale: requested,
        site_name: l.site_name,
        site_description: l.site_description,
        index_page_slug: l.index_page_slug,
        navigation: l.navigation,
        ..c
    }
}

impl BlogConfig {
    /// Checks the settings before they are used or stored; the error names
    /// the first check that fails.
    #[verifier::loop_isolation(false)]
    pub fn validate(&self) -> (r: Result<(), &'static str>)
        ensures
            match r {
                Ok(()) => settings_problem(self@) is None,
                Err(m) => settings_problem(self@) == Some(m@),
            },
    {
        if !valid_locale(self.default_locale.as_str()) {
            return Err("default locale is invalid");
        }
        if self.localizations.len() == 0 || self.localizations.len() > 20 {
            return Err("one to twenty localizations are required");
        }
        if position_of_locale(&self.localizations, self.default_locale.as_str()).is_none() {
            proof {
                lemma_find_locale(self@.localizations, self.default_locale@);
            }
            return Err("default locale requires a localization");
        }
        proof {
            lemma_find_locale(self@.localizations, self.default_locale@);
        }
        let mut i: usize = 0;
        while i < self.localizations.len()
            invariant
                i <= self.localizations@.len(),
                localizations_problem(self@.localizations, 0) == localizations_problem(
                    self@.localizations,
                    i as int,
                ),
            decreases self.localizations.len() - i,
        {
            match check_localization(&self.localizations, i) {
                Err(m) => {
                    assert(localizations_problem(self@.localizations, i as int) == Some(m@));
                    return Err(m);
                },
                Ok(()) => {},
            }
            i = i + 1;
        }
        match &self.favicon_url {
            Some(url) => {
                if !valid_href(url.as_str()) {
                    return Err("favicon URL is invalid");
                }
            },
            None => {},
        }
        if !valid_slug(self.article_type.as_str()) || !valid_slug(self.page_type.as_str()) {
            return Err("content type slugs are invalid");
        }
        if self.posts_per_page < 1 || self.posts_per_page > 24 {
            return Err("posts per page must be between 1 and 24");
        }
        Ok(())
    }

    /// The localization used for `requested_locale`: the exact locale, the
    /// base language of a regional locale, the site's default locale, or the
    /// first one.
    pub fn localization(&self, requested_locale: &str) -> (r: Option<&SiteLocalization>)
        ensures
            match r {
                Some(l) => {
                    &&& 0 <= localization_index(self@, requested_locale@) < self.localizations@.len()
                    &&& *l == self.localizations@[localization_index(self@, requested_locale@)]
                },
                None => localization_index(self@, requested_locale@) == -1,
            },
    {
        proof {
            lemma_find_locale(self@.localizations, requested_locale@);
            lemma_find_locale(self@.localizations, self.site_default_locale@);
        }
        match position_of_locale(&self.localizations, requested_locale) {
            Some(i) => {
                return Some(&self.localizations[i]);
            },
            None => {},
        }
        let requested = chars_of(requested_locale);
        match split_once_chars(requested.as_slice(), '-') {
            Some((language, _)) => {
                let language = string_of(language.as_slice());
                proof {
                    lemma_find_locale(self@.localizations, language@);
                }
                match position_of_locale(&self.localizations, language.as_str()) {
                    Some(i) => {
                        return Some(&self.localizations[i]);
                    },
                    None => {},
                }
            },
            None => {},
        }
        match position_of_locale(&self.localizations, self.site_default_locale.as_str()) {
            Some(i) => {
                return Some(&self.localizations[i]);
            },
            None => {},
        }
        if self.localizations.len() > 0 {
            Some(&self.localizations[0])
        } else {
            None
        }
    }

    /// Makes `requested_locale` the active locale and takes the site identity
    /// from its localization (see `localization`).
    pub fn activate_locale(&mut self, requested_locale: &str) -> (r: Result<(), &'static str>)
        ensures
            ({
                let i = localization_index(old(self)@, requested_locale@);
                if i == -1 {
                    &&& r matches Err(m) && m@ == "locale has no site localization"@
                    &&& final(self)@ == old(self)@
                } else {
                    &&& r is Ok
                    &&& final(self)@ == activated(old(self)@, requested_locale@)
                }
            }),
    {
        let (site_name, site_description, index_page_slug, navigation) = match self.localization(
            requested_locale,
        ) {
            Some(l) => (
                l.site_name.clone(),
                l.site_description.clone(),
                clone_opt_string(&l.index_page_slug),
                clone_navigation(&l.navigation),
            ),
            None => {
                return Err("locale has no site localization");
            },
        };
        self.default_locale = requested_locale.to_owned();
        self.site_name = site_name;
        self.site_description = site_description;
        self.index_page_slug = index_page_slug;
        self.navigation = navigation;
        Ok(())
    }

    /// The website locale codes, in the order of the localizations.
    pub fn locale_codes(&self) -> (r: Vec<String>)
        ensures
            r@.len() == self.localizations@.len(),
            forall|i: int| 0 <= i < r@.len() ==> #[trigger] r@[i] == self.localizations@[i].locale,
    {
        let mut r: Vec<String> = Vec::new();
        let mut i: usize = 0;
        while i < self.localizations.len()
            invariant
                i <= self.localizations@.len(),
                r@.len() == i,
                forall|k: int| 0 <= k < i ==> #[trigger] r@[k] == self.localizations@[k].locale,
            decreases self.localizations.len() - i,
        {
            r.push(self.localizations[i].locale.clone());
            i = i + 1;
        }
        r
    }
}

/// A copy of a navigation item.
pub fn clone_navigation_item(item: &NavigationItem) -> (r: NavigationItem)
    ensures
        r == *item,
{
    NavigationItem { label: item.label.clone(), href: item.href.clone() }
}

/// A copy of a navigation list.
pub fn clone_navigation(v: &Vec<NavigationItem>) -> (r: Vec<NavigationItem>)
    ensures
        r@ == v@,
{
    let mut r: Vec<NavigationItem> = Vec::new();
    let mut i: usize = 0;
    while i < v.len()
        invariant
            i <= v@.len(),
            r@ == v@.take(i as int),
        decreases v.len() - i,
    {
        r.push(clone_navigation_item(&v[i]));
        i = i + 1;
        assert(r@ =~= v@.take(i as int));
    }
    assert(v@.take(v@.len() as int) =~= v@);
    r
}

/// The default website locale of new settings.
pub fn default_locale() -> (r: String)
    ensures
        r@ == "en"@,
{
    "en".to_owned()
}

/// Multilingual routes are enabled in new settings.
pub fn enabled() -> (r: bool)
    ensures
        r,
{
    true
}

} // verus!
