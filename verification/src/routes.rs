//! Routing decisions of the public blog and the responses that need no
//! rendering.
use crate::config::{
    activated, find_locale, is_valid_slug, lemma_find_locale, localization_index,
    position_of_locale, valid_slug, BlogConfig, BlogConfigView, LanguagePath, LocalizationView,
};
use crate::content::TranslatedEntry;
use crate::http::{bad_request, header_of, Header, PluginError, Request, Response};
use crate::request::{
    opt_view, path_param, path_param_value, query_param, query_param_invalid, query_parameter,
    request_url, request_url_of,
};
use crate::text::{eq_chars, eq_ic, eq_ignore_case, split, trim, trim_str};
use crate::view::{clean_query, kept_params, push_clean_query};
use vstd::prelude::*;

verus! {

/// The website locale that a first path segment names, on multilingual
/// sites: the configured spelling of the matching locale.
pub open spec fn available_locale_of(candidate: Seq<char>, c: BlogConfigView) -> Option<Seq<char>> {
    let i = find_locale(c.localizations, candidate);
    if !c.multilingual_enabled || i < 0 || i >= c.localizations.len() {
        None
    } else {
        Some(c.localizations[i].locale)
    }
}

/// The website locale that `candidate` names, if multilingual routes are on.
pub fn available_locale(candidate: &str, config: &BlogConfig) -> (r: Option<String>)
    ensures
        match available_locale_of(candidate@, config@) {
            Some(l) => r matches Some(s) && s@ == l,
            None => r is None,
        },
{
    if !config.multilingual_enabled {
        return None;
    }
    proof {
        lemma_find_locale(config@.localizations, candidate@);
    }
    match position_of_locale(&config.localizations, candidate) {
        Some(i) => Some(config.localizations[i].locale.clone()),
        None => None,
    }
}

pub open spec fn opt_string_view(o: Option<String>) -> Option<Seq<char>> {
    match o {
        Some(s) => Some(s@),
        None => None,
    }
}

/// Where a canonical redirect leads: `path`, with the request's query
/// parameters except empty ones and the legacy `locale=`.
pub open spec fn redirect_location(query: Option<Seq<char>>, path: Seq<char>) -> Seq<char> {
    match query {
        Some(q) => if kept_params(split(q, '&')).len() > 0 {
            path.push('?') + clean_query(q)
        } else {
            path
        },
        None => path,
    }
}

/// A permanent redirect (308) to the canonical form of the requested URL.
pub fn redirect(request: &Request, path: &str) -> (r: Response)
    ensures
        r.status == 308,
        r.headers@.len() == 1,
        r.headers@[0].name@ == "location"@,
        r.headers@[0].value@ == redirect_location(opt_string_view(request.query), path@),
        r.body@.len() == 0,
{
    let mut location = path.to_owned();
    match &request.query {
        Some(q) => {
            let v = crate::text::chars_of(q.as_str());
            push_clean_query(&mut location, v.as_slice());
        },
        None => {},
    }
    let mut headers: Vec<Header> = Vec::new();
    let name = "location".to_owned();
    headers.push(Header { name, value: location });
    Response { status: 308, headers, body: Vec::new() }
}

/// The settings for one public request: the request URL, the active locale's
/// site identity and the category filter of the query.
pub fn prepare_public_config(config: BlogConfig, request: &Request, locale: Option<&str>) -> (r: Result<
    BlogConfig,
    PluginError,
>)
    ensures
        ({
            let active = match locale {
                Some(l) => l@,
                None => config.site_default_locale@,
            };
            let i = localization_index(config@, active);
            let q = opt_string_view(request.query);
            if i == -1 {
                r matches Err(e) && e is NotFound
            } else if query_param_invalid(q, "category"@) {
                r matches Err(PluginError::BadRequest(m)) && m@ == "query string is not valid UTF-8"@
            } else if query_param(q, "category"@) matches Some(cat) && !is_valid_slug(cat) {
                r matches Err(PluginError::BadRequest(m)) && m@ == "category is invalid"@
            } else {
                r matches Ok(c) && c@ == BlogConfigView {
                    active_category: match query_param(q, "category"@) {
                        Some(cat) => Some(cat),
                        None => config@.active_category,
                    },
                    ..activated(
                        BlogConfigView { current_url: request_url_of(*request), ..config@ },
                        active,
                    )
                }
            }
        }),
{
    let mut config = config;
    config.current_url = request_url(request);
    let active = match locale {
        Some(l) => l.to_owned(),
        None => config.site_default_locale.clone(),
    };
    match config.activate_locale(active.as_str()) {
        Ok(()) => {},
        Err(_) => {
            return Err(PluginError::NotFound);
        },
    }
    let query = match &request.query {
        Some(q) => Some(q.as_str()),
        None => None,
    };
    assert(opt_view(query) == opt_string_view(request.query));
    match query_parameter(query, "category")? {
        Some(category) => {
            if !valid_slug(category.as_str()) {
                return Err(bad_request("category is invalid"));
            }
            config.active_category = Some(category);
        },
        None => {},
    }
    Ok(config)
}

// ---------------------------------------------------------------------------
// Language switch targets
// ---------------------------------------------------------------------------

/// The slug of the first translation in `locale`.
pub open spec fn translated_slug(ts: Seq<TranslatedEntry>, locale: Seq<char>) -> Option<Seq<char>>
    decreases ts.len(),
{
    if ts.len() == 0 {
        None
    } else {
        match translated_slug(ts.drop_last(), locale) {
            Some(s) => Some(s),
            None => if eq_ic(ts.last().locale@, locale) {
                Some(ts.last().slug@)
            } else {
                None
            },
        }
    }
}

/// The path of the current content in `locale`: the translated article or
/// page, or the home page when there is no published translation.
pub open spec fn translated_path(
    c: BlogConfigView,
    ts: Seq<TranslatedEntry>,
    article: bool,
    locale: Seq<char>,
) -> Seq<char> {
    match translated_slug(ts, locale) {
        Some(slug) => if article {
            seq!['/'] + c.article_type + seq!['/'] + slug
        } else {
            seq!['/'] + slug
        },
        None => seq!['/'],
    }
}

/// (locale, path) for every website locale but the active one, in order.
pub open spec fn language_paths_of(
    c: BlogConfigView,
    locs: Seq<LocalizationView>,
    ts: Seq<TranslatedEntry>,
    article: bool,
) -> Seq<(Seq<char>, Seq<char>)>
    decreases locs.len(),
{
    if locs.len() == 0 {
        Seq::empty()
    } else {
        let rest = language_paths_of(c, locs.drop_last(), ts, article);
        let l = locs.last().locale;
        if eq_ic(l, c.default_locale) {
            rest
        } else {
            rest.push((l, translated_path(c, ts, article, l)))
        }
    }
}

proof fn lemma_translated_slug(ts: Seq<TranslatedEntry>, locale: Seq<char>)
    ensures
        translated_slug(ts, locale) matches Some(slug) ==> exists|j: int|
            0 <= j < ts.len() && eq_ic(#[trigger] ts[j].locale@, locale) && ts[j].slug@ == slug,
        translated_slug(ts, locale) is None ==> forall|j: int|
            0 <= j < ts.len() ==> !eq_ic(#[trigger] ts[j].locale@, locale),
    decreases ts.len(),
{
    if ts.len() > 0 {
        let p = ts.drop_last();
        lemma_translated_slug(p, locale);
        assert(forall|j: int| 0 <= j < p.len() ==> p[j] == ts[j]);
        if let Some(slug) = translated_slug(p, locale) {
            let j = choose|j: int| 0 <= j < p.len() && eq_ic(#[trigger] p[j].locale@, locale) && p[j].slug@ == slug;
            assert(ts[j] == p[j]);
        } else {
            assert(ts[ts.len() - 1] == ts.last());
        }
    }
}

proof fn lemma_language_paths_of(
    c: BlogConfigView,
    locs: Seq<LocalizationView>,
    ts: Seq<TranslatedEntry>,
    article: bool,
)
    ensures
        ({
            let ps = language_paths_of(c, locs, ts, article);
            &&& forall|k: int|
                0 <= k < ps.len() ==> !eq_ic(#[trigger] ps[k].0, c.default_locale) && exists|i: int|
                    0 <= i < locs.len() && ps[k].0 == #[trigger] locs[i].locale
            &&& forall|i: int|
                0 <= i < locs.len() && !eq_ic(locs[i].locale, c.default_locale) ==> exists|k: int|
                    0 <= k < ps.len() && #[trigger] ps[k].0 == #[trigger] locs[i].locale
            &&& forall|k: int|
                0 <= k < ps.len() ==> #[trigger] ps[k].1 == translated_path(c, ts, article, ps[k].0)
        }),
    decreases locs.len(),
{
    if locs.len() > 0 {
        let q = locs.drop_last();
        lemma_language_paths_of(c, q, ts, article);
        let ps = language_paths_of(c, locs, ts, article);
        let pq = language_paths_of(c, q, ts, article);
        let l = locs.last().locale;
        assert(forall|i: int| 0 <= i < q.len() ==> q[i] == locs[i]);
        assert(locs[locs.len() - 1] == locs.last());
        assert forall|k: int| 0 <= k < ps.len() implies !eq_ic(#[trigger] ps[k].0, c.default_locale) && exists|i: int|
            0 <= i < locs.len() && ps[k].0 == #[trigger] locs[i].locale by {
            if k < pq.len() {
                assert(ps[k] == pq[k]);
                let i = choose|i: int| 0 <= i < q.len() && pq[k].0 == #[trigger] q[i].locale;
                assert(locs[i] == q[i]);
            } else {
                assert(ps[k].0 == locs[locs.len() - 1].locale);
            }
        }
        assert forall|i: int| 0 <= i < locs.len() && !eq_ic(locs[i].locale, c.default_locale) implies exists|k: int|
            0 <= k < ps.len() && #[trigger] ps[k].0 == #[trigger] locs[i].locale by {
            if i < q.len() {
                assert(q[i] == locs[i]);
                let k = choose|k: int| 0 <= k < pq.len() && #[trigger] pq[k].0 == #[trigger] q[i].locale;
                assert(ps[k] == pq[k]);
            } else {
                assert(ps[ps.len() - 1].0 == l);
            }
        }
        assert forall|k: int| 0 <= k < ps.len() implies #[trigger] ps[k].1 == translated_path(c, ts, article, ps[k].0) by {
            if k < pq.len() {
                assert(ps[k] == pq[k]);
            }
        }
    }
}

/// The language switch of an article or page: one target for every website
/// locale except the active one (up to ASCII case), none for the active
/// locale; a target leads to the translation in its locale (the article
/// type and the translated slug for articles, the slug for pages), or to the
/// home page when the entry has no translation in that locale.
pub proof fn lemma_language_paths(c: BlogConfigView, ts: Seq<TranslatedEntry>, article: bool)
    ensures
        ({
            let ps = language_paths_of(c, c.localizations, ts, article);
            &&& forall|k: int| 0 <= k < ps.len() ==> !eq_ic(#[trigger] ps[k].0, c.default_locale)
            &&& forall|k: int|
                0 <= k < ps.len() ==> exists|i: int|
                    0 <= i < c.localizations.len() && #[trigger] ps[k].0 == c.localizations[i].locale
            &&& forall|i: int|
                0 <= i < c.localizations.len() && !eq_ic(c.localizations[i].locale, c.default_locale)
                    ==> exists|k: int| 0 <= k < ps.len() && #[trigger] ps[k].0 == c.localizations[i].locale
            &&& forall|k: int|
                0 <= k < ps.len() ==> {
                    ||| (#[trigger] ps[k].1 == seq!['/'] && forall|j: int|
                        0 <= j < ts.len() ==> !eq_ic(#[trigger] ts[j].locale@, ps[k].0))
                    ||| exists|j: int|
                        0 <= j < ts.len() && eq_ic(#[trigger] ts[j].locale@, ps[k].0) && ps[k].1 == if article {
                            seq!['/'] + c.article_type + seq!['/'] + ts[j].slug@
                        } else {
                            seq!['/'] + ts[j].slug@
                        }
                }
        }),
{
    lemma_language_paths_of(c, c.localizations, ts, article);
    let ps = language_paths_of(c, c.localizations, ts, article);
    assert forall|k: int| 0 <= k < ps.len() implies {
        ||| (#[trigger] ps[k].1 == seq!['/'] && forall|j: int|
            0 <= j < ts.len() ==> !eq_ic(#[trigger] ts[j].locale@, ps[k].0))
        ||| exists|j: int|
            0 <= j < ts.len() && eq_ic(#[trigger] ts[j].locale@, ps[k].0) && ps[k].1 == if article {
                seq!['/'] + c.article_type + seq!['/'] + ts[j].slug@
            } else {
                seq!['/'] + ts[j].slug@
            }
    } by {
        lemma_translated_slug(ts, ps[k].0);
    }
}

fn translated_slug_exec(ts: &Vec<TranslatedEntry>, locale: &str) -> (r: Option<String>)
    ensures
        match translated_slug(ts@, locale@) {
            Some(s) => r matches Some(x) && x@ == s,
            None => r is None,
        },
{
    let mut i: usize = 0;
    assert(ts@.take(0) =~= Seq::<TranslatedEntry>::empty());
    while i < ts.len()
        invariant
            i <= ts@.len(),
            translated_slug(ts@.take(i as int), locale@) is None,
        decreases ts.len() - i,
    {
        assert(ts@.take(i + 1).drop_last() =~= ts@.take(i as int));
        assert(ts@.take(i + 1).last() == ts@[i as int]);
        if eq_ignore_case(ts[i].locale.as_str(), locale) {
            proof {
                lemma_translated_slug_prefix(ts@, locale@, i + 1);
            }
            return Some(ts[i].slug.clone());
        }
        i = i + 1;
    }
    assert(ts@.take(ts@.len() as int) =~= ts@);
    None
}

proof fn lemma_translated_slug_prefix(ts: Seq<TranslatedEntry>, locale: Seq<char>, k: int)
    requires
        0 <= k <= ts.len(),
        translated_slug(ts.take(k), locale) is Some,
    ensures
        translated_slug(ts, locale) == translated_slug(ts.take(k), locale),
    decreases ts.len() - k,
{
    if k < ts.len() {
        assert(ts.take(k + 1).drop_last() =~= ts.take(k));
        lemma_translated_slug_prefix(ts, locale, k + 1);
    } else {
        assert(ts.take(k) =~= ts);
    }
}

/// Where the language switch of an article or page leads in each other
/// website locale, given the published translations of the entry.
pub fn content_language_paths(config: &BlogConfig, translations: &Vec<TranslatedEntry>, article: bool) -> (r:
    Vec<LanguagePath>)
    ensures
        !config.multilingual_enabled ==> r@.len() == 0,
        config.multilingual_enabled ==> {
            let spec_paths = language_paths_of(config@, config@.localizations, translations@, article);
            &&& r@.len() == spec_paths.len()
            &&& forall|i: int|
                0 <= i < r@.len() ==> (#[trigger] r@[i]).locale@ == spec_paths[i].0
                    && r@[i].path@ == spec_paths[i].1
        },
{
    let mut paths: Vec<LanguagePath> = Vec::new();
    if !config.multilingual_enabled {
        return paths;
    }
    let locs = &config.localizations;
    let ghost vs = config@.localizations;
    let mut i: usize = 0;
    assert(vs.take(0) =~= Seq::<LocalizationView>::empty());
    while i < locs.len()
        invariant
            i <= locs@.len(),
            locs == &config.localizations,
            vs == config@.localizations,
            paths@.len() == language_paths_of(config@, vs.take(i as int), translations@, article).len(),
            forall|k: int|
                0 <= k < paths@.len() ==> {
                    let sp = language_paths_of(config@, vs.take(i as int), translations@, article);
                    (#[trigger] paths@[k]).locale@ == sp[k].0 && paths@[k].path@ == sp[k].1
                },
        decreases locs.len() - i,
    {
        assert(vs.take(i + 1).drop_last() =~= vs.take(i as int));
        assert(vs.take(i + 1).last() == vs[i as int]);
        let locale = locs[i].locale.clone();
        if !eq_ignore_case(locale.as_str(), config.default_locale.as_str()) {
            let path = match translated_slug_exec(translations, locale.as_str()) {
                Some(slug) => {
                    let mut p = String::new();
                    crate::text::push_char(&mut p, '/');
                    if article {
                        p.append(config.article_type.as_str());
                        crate::text::push_char(&mut p, '/');
                    }
                    p.append(slug.as_str());
                    proof {
                        if article {
                            assert(p@ =~= seq!['/'] + config.article_type@ + seq!['/'] + slug@);
                        } else {
                            assert(p@ =~= seq!['/'] + slug@);
                        }
                    }
                    p
                },
                None => {
                    let mut p = String::new();
                    crate::text::push_char(&mut p, '/');
                    assert(p@ =~= seq!['/']);
                    p
                },
            };
            paths.push(LanguagePath { locale, path });
        }
        i = i + 1;
    }
    assert(vs.take(vs.len() as int) =~= vs);
    paths
}

// ---------------------------------------------------------------------------
// Search requests
// ---------------------------------------------------------------------------

/// What a search request asks for.
#[derive(Clone, Debug)]
pub struct SearchRequest {
    /// The trimmed search term.
    pub term: String,
    /// Whether the term is long enough to search for.
    pub search: bool,
}

/// The search term of a query: the trimmed `q` parameter, or empty.
pub open spec fn search_term(q: Option<Seq<char>>) -> Seq<char> {
    match query_param(q, "q"@) {
        Some(v) => trim(v),
        None => Seq::<char>::empty(),
    }
}

/// Reads the search term of a search request; terms of more than 120
/// characters are refused, and fewer than 2 are not searched.
pub fn search_request(query: Option<&str>) -> (r: Result<SearchRequest, PluginError>)
    ensures
        ({
            let q = opt_view(query);
            if query_param_invalid(q, "q"@) {
                r matches Err(PluginError::BadRequest(m)) && m@ == "query string is not valid UTF-8"@
            } else if search_term(q).len() > 120 {
                r matches Err(PluginError::BadRequest(m)) && m@
                    == "search query must contain at most 120 characters"@
            } else {
                r matches Ok(s) && {
                    &&& s.term@ == search_term(q)
                    &&& s.search == (search_term(q).len() >= 2)
                }
            }
        }),
{
    let raw = query_parameter(query, "q")?;
    let term: Vec<char> = match raw {
        Some(v) => trim_str(v.as_str()),
        None => Vec::new(),
    };
    assert(term@ =~= search_term(opt_view(query)));
    if term.len() > 120 {
        return Err(bad_request("search query must contain at most 120 characters"));
    }
    let search = term.len() >= 2;
    Ok(SearchRequest { term: crate::text::string_of(term.as_slice()), search })
}

/// Whether only the search results are requested (`fragment=1`); this is
/// read after the search has run.
pub fn fragment_requested(query: Option<&str>) -> (r: Result<bool, PluginError>)
    ensures
        ({
            let q = opt_view(query);
            if query_param_invalid(q, "fragment"@) {
                r matches Err(PluginError::BadRequest(m)) && m@ == "query string is not valid UTF-8"@
            } else {
                r == Ok::<bool, PluginError>(query_param(q, "fragment"@) == Some(seq!['1']))
            }
        }),
{
    match query_parameter(query, "fragment")? {
        Some(f) => {
            let v = crate::text::chars_of(f.as_str());
            let one = v.len() == 1 && v[0] == '1';
            assert(one == (f@ == seq!['1'])) by {
                if v@.len() == 1 && v@[0] == '1' {
                    assert(v@ =~= seq!['1']);
                }
            }
            Ok(one)
        },
        None => Ok(false),
    }
}

// ---------------------------------------------------------------------------
// Routes with path segments
// ---------------------------------------------------------------------------

/// What a request with path segments is answered with.
#[derive(Clone, Debug)]
pub enum Route {
    /// A canonical redirect to this path (the query is added by `redirect`).
    Redirect(String),
    /// The home page in a locale (`None`: the default locale).
    Home(Option<String>),
    /// An overview page in a locale.
    Pagination(Option<String>, usize),
    /// The search page in a locale.
    Search(Option<String>),
    /// A CMS page by slug.
    ContentPage(Option<String>, String),
    /// A CMS article by content type and slug.
    Article(Option<String>, String, String),
}

/// The route of `/{first}`: a locale's home page (redirecting the default
/// locale to `/` and adding the trailing slash), else a CMS page.
pub fn one_segment_route(request: &Request, config: &BlogConfig) -> (r: Result<Route, PluginError>)
    ensures
        match path_param_value(request.path_params@, "first"@) {
            None => r matches Err(e) && e is NotFound,
            Some(first) => match available_locale_of(first, config@) {
                Some(locale) => if eq_ic(locale, config.default_locale@) {
                    r matches Ok(Route::Redirect(p)) && p@ == seq!['/']
                } else if !(request.path@.len() > 0 && request.path@.last() == '/') {
                    r matches Ok(Route::Redirect(p)) && p@ == seq!['/'] + locale + seq!['/']
                } else {
                    r matches Ok(Route::Home(Some(l))) && l@ == locale
                },
                None => r matches Ok(Route::ContentPage(None, slug)) && slug@ == first,
            },
        },
{
    let first = path_param(request, "first")?;
    match available_locale(first, config) {
        Some(locale) => {
            if eq_ignore_case(locale.as_str(), config.default_locale.as_str()) {
                let mut p = String::new();
                crate::text::push_char(&mut p, '/');
                assert(p@ =~= seq!['/']);
                return Ok(Route::Redirect(p));
            }
            let path = crate::text::chars_of(request.path.as_str());
            if !(path.len() > 0 && path[path.len() - 1] == '/') {
                let mut p = String::new();
                crate::text::push_char(&mut p, '/');
                p.append(locale.as_str());
                crate::text::push_char(&mut p, '/');
                assert(p@ =~= seq!['/'] + locale@ + seq!['/']);
                return Ok(Route::Redirect(p));
            }
            Ok(Route::Home(Some(locale)))
        },
        None => Ok(Route::ContentPage(None, first.to_owned())),
    }
}

/// The route of `/{first}/{second}`: in a locale, its search page or a CMS
/// page (redirecting the default locale to `/{second}`); else an article.
pub fn two_segment_route(request: &Request, config: &BlogConfig) -> (r: Result<Route, PluginError>)
    ensures
        match (
            path_param_value(request.path_params@, "first"@),
            path_param_value(request.path_params@, "second"@),
        ) {
            (Some(first), Some(second)) => match available_locale_of(first, config@) {
                Some(locale) => if eq_ic(locale, config.default_locale@) {
                    r matches Ok(Route::Redirect(p)) && p@ == seq!['/'] + second
                } else if second == "search"@ {
                    r matches Ok(Route::Search(Some(l))) && l@ == locale
                } else {
                    r matches Ok(Route::ContentPage(Some(l), slug)) && l@ == locale && slug@ == second
                },
                None => r matches Ok(Route::Article(None, t, slug)) && t@ == first && slug@ == second,
            },
            _ => r matches Err(e) && e is NotFound,
        },
{
    let first = path_param(request, "first")?;
    let second = path_param(request, "second")?;
    match available_locale(first, config) {
        Some(locale) => {
            if eq_ignore_case(locale.as_str(), config.default_locale.as_str()) {
                let mut p = String::new();
                crate::text::push_char(&mut p, '/');
                p.append(second);
                assert(p@ =~= seq!['/'] + second@);
                return Ok(Route::Redirect(p));
            }
            if crate::text::eq_chars(second, "search") {
                Ok(Route::Search(Some(locale)))
            } else {
                Ok(Route::ContentPage(Some(locale), second.to_owned()))
            }
        },
        None => Ok(Route::Article(None, first.to_owned(), second.to_owned())),
    }
}

/// The route of `/{locale}/{second}/{third}`: an overview page
/// (`/{locale}/page/{n}`) or an article in that locale; the default locale
/// is redirected to `/{second}/{third}`.
pub fn three_segment_route(request: &Request, config: &BlogConfig) -> (r: Result<Route, PluginError>)
    ensures
        match (
            path_param_value(request.path_params@, "first"@),
            path_param_value(request.path_params@, "second"@),
            path_param_value(request.path_params@, "third"@),
        ) {
            (Some(first), Some(second), Some(third)) => match available_locale_of(first, config@) {
                Some(locale) => if eq_ic(locale, config.default_locale@) {
                    r matches Ok(Route::Redirect(p)) && p@ == seq!['/'] + second + seq!['/'] + third
                } else if second == "page"@ {
                    if crate::request::is_page_number(third) {
                        r matches Ok(Route::Pagination(Some(l), n)) && l@ == locale && n
                            == crate::request::digits_value(crate::request::page_digits(third))
                    } else {
                        r matches Err(e) && e is NotFound
                    }
                } else {
                    r matches Ok(Route::Article(Some(l), t, slug)) && l@ == locale && t@ == second
                        && slug@ == third
                },
                None => r matches Err(e) && e is NotFound,
            },
            _ => r matches Err(e) && e is NotFound,
        },
{
    let first = path_param(request, "first")?;
    let second = path_param(request, "second")?;
    let third = path_param(request, "third")?;
    let locale = match available_locale(first, config) {
        Some(l) => l,
        None => {
            return Err(PluginError::NotFound);
        },
    };
    if eq_ignore_case(locale.as_str(), config.default_locale.as_str()) {
        let mut p = String::new();
        crate::text::push_char(&mut p, '/');
        p.append(second);
        crate::text::push_char(&mut p, '/');
        p.append(third);
        assert(p@ =~= seq!['/'] + second@ + seq!['/'] + third@);
        return Ok(Route::Redirect(p));
    }
    if crate::text::eq_chars(second, "page") {
        let page = crate::request::parse_page_number(third)?;
        Ok(Route::Pagination(Some(locale), page))
    } else {
        Ok(Route::Article(Some(locale), second.to_owned(), third.to_owned()))
    }
}

/// Whether an article request names the configured article content type and
/// a valid slug; anything else is not found.
pub fn article_allowed(config: &BlogConfig, article_type: &str, slug: &str) -> (r: bool)
    ensures
        r == (article_type@ == config.article_type@ && is_valid_slug(slug@)),
{
    crate::text::eq_chars(article_type, config.article_type.as_str()) && valid_slug(slug)
}

/// The offset of the first article on overview page `page`.
pub fn pagination_offset(page: usize, posts_per_page: usize) -> (r: usize)
    requires
        1 <= page <= 166667,
        posts_per_page <= 24,
    ensures
        r == (page - 1) * posts_per_page,
{
    assert((page - 1) * posts_per_page <= 166666 * 24) by (nonlinear_arith)
        requires
            1 <= page <= 166667,
            posts_per_page <= 24,
    ;
    (page - 1) * posts_per_page
}

/// The current page number and the number of pages of an overview that
/// starts at `offset` and lists `total` articles.
pub fn page_position(offset: usize, posts_per_page: usize, total: usize) -> (r: (usize, usize))
    requires
        posts_per_page > 0,
        offset / posts_per_page < usize::MAX,
    ensures
        r.0 == offset / posts_per_page + 1,
        r.1 == total / posts_per_page + if total % posts_per_page != 0 {
            1int
        } else {
            0int
        },
{
    let page = offset / posts_per_page + 1;
    let rem = total % posts_per_page;
    let pages = if rem != 0 {
        assert(posts_per_page >= 2);
        assert(total / posts_per_page <= total / 2) by (nonlinear_arith)
            requires
                posts_per_page >= 2,
        ;
        total / posts_per_page + 1
    } else {
        total / posts_per_page
    };
    (page, pages)
}

/// The response with the bundled default favicon.
pub fn default_favicon_response(svg: Vec<u8>) -> (r: Response)
    ensures
        r.status == 200,
        r.headers@.len() == 2,
        r.headers@[0].name@ == "content-type"@,
        r.headers@[0].value@ == "image/svg+xml"@,
        r.headers@[1].name@ == "cache-control"@,
        r.headers@[1].value@ == "public, max-age=86400"@,
        r.body == svg,
{
    let mut headers: Vec<Header> = Vec::new();
    headers.push(header_of("content-type", "image/svg+xml"));
    headers.push(header_of("cache-control", "public, max-age=86400"));
    Response { status: 200, headers, body: svg }
}

/// The response that carries the encoded settings to the admin component.
pub fn settings_response(body: Vec<u8>) -> (r: Response)
    ensures
        r.status == 200,
        r.headers@.len() == 1,
        r.headers@[0].name@ == "content-type"@,
        r.headers@[0].value@ == "application/json; charset=utf-8"@,
        r.body == body,
{
    let mut headers: Vec<Header> = Vec::new();
    headers.push(header_of("content-type", "application/json; charset=utf-8"));
    Response { status: 200, headers, body }
}

/// An HTML response in `locale`: a rendered page or a search fragment.
pub fn html_response(locale: &str, body: Vec<u8>) -> (r: Response)
    ensures
        r.status == 200,
        r.headers@.len() == 2,
        r.headers@[0].name@ == "content-type"@,
        r.headers@[0].value@ == "text/html; charset=utf-8"@,
        r.headers@[1].name@ == "content-language"@,
        r.headers@[1].value@ == locale@,
        r.body == body,
{
    let mut headers: Vec<Header> = Vec::new();
    headers.push(header_of("content-type", "text/html; charset=utf-8"));
    headers.push(header_of("content-language", locale));
    Response { status: 200, headers, body }
}

/// The handlers of the plugin's routes.
#[derive(Clone, Copy, Debug, PartialEq, Eq, Structural)]
pub enum Handler {
    Settings,
    SettingsUpdate,
    Home,
    Pagination,
    Search,
    Favicon,
    Sitemap,
    Robots,
    OneSegment,
    TwoSegments,
    ThreeSegments,
}

/// The handler of each route identifier; unknown routes have none.
pub open spec fn handler_of(route_id: Seq<char>) -> Option<Handler> {
    if route_id == "settings"@ {
        Some(Handler::Settings)
    } else if route_id == "settings-update"@ {
        Some(Handler::SettingsUpdate)
    } else if route_id == "home"@ {
        Some(Handler::Home)
    } else if route_id == "pagination"@ {
        Some(Handler::Pagination)
    } else if route_id == "search"@ {
        Some(Handler::Search)
    } else if route_id == "favicon"@ {
        Some(Handler::Favicon)
    } else if route_id == "sitemap"@ {
        Some(Handler::Sitemap)
    } else if route_id == "robots"@ {
        Some(Handler::Robots)
    } else if route_id == "localized-home"@ || route_id == "one-segment"@ {
        Some(Handler::OneSegment)
    } else if route_id == "two-segments"@ {
        Some(Handler::TwoSegments)
    } else if route_id == "three-segments"@ {
        Some(Handler::ThreeSegments)
    } else {
        None
    }
}

/// The handler of a request's route; unknown routes are not found.
pub fn handler_for(route_id: &str) -> (r: Result<Handler, PluginError>)
    ensures
        match handler_of(route_id@) {
            Some(h) => r == Ok::<Handler, PluginError>(h),
            None => r matches Err(e) && e is NotFound,
        },
{
    if eq_chars(route_id, "settings") {
        Ok(Handler::Settings)
    } else if eq_chars(route_id, "settings-update") {
        Ok(Handler::SettingsUpdate)
    } else if eq_chars(route_id, "home") {
        Ok(Handler::Home)
    } else if eq_chars(route_id, "pagination") {
        Ok(Handler::Pagination)
    } else if eq_chars(route_id, "search") {
        Ok(Handler::Search)
    } else if eq_chars(route_id, "favicon") {
        Ok(Handler::Favicon)
    } else if eq_chars(route_id, "sitemap") {
        Ok(Handler::Sitemap)
    } else if eq_chars(route_id, "robots") {
        Ok(Handler::Robots)
    } else if eq_chars(route_id, "localized-home") || eq_chars(route_id, "one-segment") {
        Ok(Handler::OneSegment)
    } else if eq_chars(route_id, "two-segments") {
        Ok(Handler::TwoSegments)
    } else if eq_chars(route_id, "three-segments") {
        Ok(Handler::ThreeSegments)
    } else {
        Err(PluginError::NotFound)
    }
}

/// The answer to a stored settings update.
pub fn no_content_response() -> (r: Response)
    ensures
        r.status == 204,
        r.headers@.len() == 0,
        r.body@.len() == 0,
{
    Response { status: 204, headers: Vec::new(), body: Vec::new() }
}

} // verus!
