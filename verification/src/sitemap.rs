//! The public origin of the site and the dynamic sitemap.
use crate::config::{
    find_locale, lemma_find_locale, position_of_locale, BlogConfig, BlogConfigView, LocalizationView,
};
use crate::content::SitemapEntry;
use crate::http::{failed, header_of, Header, PluginError, Request, Response};
use crate::markup::{escape, push_escaped};
use crate::text::{
    chars_of, contains_seq, lemma_contains_seq, starts_with, eq_ic, eq_ignore_case, eq_ignore_case_chars, first_piece, is_alnum, is_ascii_alnum,
    split, split_chars, split_once, split_once_chars, string_of, trim, trim_char, trim_char_chars,
    trim_chars,
};
use crate::view::{asset_version, push_asset_version};
use vstd::prelude::*;
use vstd::utf8::encode_utf8;

verus! {

// ---------------------------------------------------------------------------
// Request origin
// ---------------------------------------------------------------------------

/// Index of the first header named `name` (ASCII case-insensitive), or -1.
pub open spec fn header_index(hs: Seq<Header>, name: Seq<char>) -> int
    decreases hs.len(),
{
    if hs.len() == 0 {
        -1
    } else {
        let r = header_index(hs.drop_last(), name);
        if r >= 0 {
            r
        } else if eq_ic(hs.last().name@, name) {
            hs.len() - 1
        } else {
            -1
        }
    }
}

/// The trimmed value of the first header named `name`, unless it is blank.
pub open spec fn header_value(hs: Seq<Header>, name: Seq<char>) -> Option<Seq<char>> {
    let i = header_index(hs, name);
    if i < 0 || i >= hs.len() {
        None
    } else {
        let v = trim(hs[i].value@);
        if v.len() > 0 {
            Some(v)
        } else {
            None
        }
    }
}

/// The first comma-separated item of a header value, trimmed, unless blank.
pub open spec fn first_header_value(hs: Seq<Header>, name: Seq<char>) -> Option<Seq<char>> {
    match header_value(hs, name) {
        Some(v) => {
            let f = trim(split(v, ',')[0]);
            if f.len() > 0 {
                Some(f)
            } else {
                None
            }
        },
        None => None,
    }
}

/// The value of one `key=value` parameter of a `Forwarded` element when its
/// key is `name`: trimmed, without surrounding quotes, and not empty.
pub open spec fn forwarded_param(p: Seq<char>, name: Seq<char>) -> Option<Seq<char>> {
    match split_once(trim(p), '=') {
        Some((key, value)) => if eq_ic(key, name) {
            let v = trim_char(trim(value), '"');
            if v.len() > 0 {
                Some(v)
            } else {
                None
            }
        } else {
            None
        },
        None => None,
    }
}

/// The first parameter value for `name` among `;`-separated parameters.
pub open spec fn first_param(ps: Seq<Seq<char>>, name: Seq<char>) -> Option<Seq<char>>
    decreases ps.len(),
{
    if ps.len() == 0 {
        None
    } else {
        match first_param(ps.drop_last(), name) {
            Some(v) => Some(v),
            None => forwarded_param(ps.last(), name),
        }
    }
}

pub open spec fn forwarded_value(element: Seq<char>, name: Seq<char>) -> Option<Seq<char>> {
    first_param(split(element, ';'), name)
}

/// The first element of the `Forwarded` header.
pub open spec fn forwarded_element(hs: Seq<Header>) -> Option<Seq<char>> {
    match header_value(hs, "forwarded"@) {
        Some(v) => Some(split(v, ',')[0]),
        None => None,
    }
}

pub open spec fn or_else(a: Option<Seq<char>>, b: Option<Seq<char>>) -> Option<Seq<char>> {
    match a {
        Some(v) => Some(v),
        None => b,
    }
}

pub open spec fn forwarded_part(hs: Seq<Header>, name: Seq<char>) -> Option<Seq<char>> {
    match forwarded_element(hs) {
        Some(f) => forwarded_value(f, name),
        None => None,
    }
}

/// The scheme that the client used: `Forwarded: proto=`, `X-Forwarded-Proto`,
/// else `http`.
pub open spec fn request_scheme(hs: Seq<Header>) -> Seq<char> {
    match or_else(forwarded_part(hs, "proto"@), first_header_value(hs, "x-forwarded-proto"@)) {
        Some(s) => s,
        None => "http"@,
    }
}

/// The host that the client used: `Forwarded: host=`, `X-Forwarded-Host`,
/// then `Host`.
pub open spec fn request_host(hs: Seq<Header>) -> Option<Seq<char>> {
    or_else(
        or_else(forwarded_part(hs, "host"@), first_header_value(hs, "x-forwarded-host"@)),
        header_value(hs, "host"@),
    )
}

pub open spec fn is_host_char(c: char) -> bool {
    is_ascii_alnum(c) || c == '.' || c == '-' || c == ':' || c == '[' || c == ']'
}

/// A host name or address: 1 to 255 bytes of ASCII letters, digits and
/// `.-:[]`.
pub open spec fn is_valid_host(h: Seq<char>) -> bool {
    &&& h.len() > 0
    &&& encode_utf8(h).len() <= 255
    &&& forall|j: int| 0 <= j < h.len() ==> is_host_char(#[trigger] h[j])
}

/// The origin of the request, or the message of the failure.
pub open spec fn request_origin_of(hs: Seq<Header>) -> Result<Seq<char>, Seq<char>> {
    match request_host(hs) {
        None => Err("request host is unavailable"@),
        Some(host) => {
            let scheme = request_scheme(hs);
            if !eq_ic(scheme, "https"@) && !eq_ic(scheme, "http"@) {
                Err("request origin is invalid"@)
            } else if !is_valid_host(host) {
                Err("request origin is invalid"@)
            } else if eq_ic(scheme, "https"@) {
                Ok("https"@ + "://"@ + host)
            } else {
                Ok("http"@ + "://"@ + host)
            }
        },
    }
}

/// The origin uses the host that the nearest proxy reports: the `host` of
/// the first `Forwarded` element, else the first `X-Forwarded-Host` value,
/// else `Host`; without any of them there is no origin. The origin is that
/// host behind `http://` or `https://`.
pub proof fn lemma_origin_host(hs: Seq<Header>)
    ensures
        ({
            let fwd = forwarded_part(hs, "host"@);
            let xfh = first_header_value(hs, "x-forwarded-host"@);
            let host = header_value(hs, "host"@);
            let chosen = if fwd is Some {
                fwd
            } else if xfh is Some {
                xfh
            } else {
                host
            };
            &&& chosen is None ==> request_origin_of(hs) == Err::<Seq<char>, Seq<char>>(
                "request host is unavailable"@,
            )
            &&& match (request_origin_of(hs), chosen) {
                (Ok(o), Some(h)) => o == "http"@ + "://"@ + h || o == "https"@ + "://"@ + h,
                (Ok(_), None) => false,
                _ => true,
            }
            &&& match chosen {
                Some(h) => (is_valid_host(h) && (eq_ic(request_scheme(hs), "http"@) || eq_ic(
                    request_scheme(hs),
                    "https"@,
                ))) ==> request_origin_of(hs) is Ok,
                None => true,
            }
        }),
{
}

pub proof fn lemma_header_index(hs: Seq<Header>, name: Seq<char>)
    ensures
        -1 <= header_index(hs, name) < hs.len(),
        header_index(hs, name) >= 0 ==> eq_ic(hs[header_index(hs, name)].name@, name),
        forall|j: int|
            0 <= j < header_index(hs, name) || (header_index(hs, name) == -1 && 0 <= j < hs.len())
                ==> !eq_ic(#[trigger] hs[j].name@, name),
    decreases hs.len(),
{
    if hs.len() > 0 {
        let p = hs.drop_last();
        lemma_header_index(p, name);
        assert(forall|j: int| 0 <= j < p.len() ==> p[j] == hs[j]);
        let k = header_index(hs, name);
        assert forall|j: int|
            0 <= j < k || (k == -1 && 0 <= j < hs.len()) implies !eq_ic(
            #[trigger] hs[j].name@,
            name,
        ) by {
            let kp = header_index(p, name);
            if j < p.len() {
                assert(p[j] == hs[j]);
                if kp >= 0 {
                    assert(k == kp);
                    assert(!eq_ic(p[j].name@, name));
                } else {
                    assert(!eq_ic(p[j].name@, name));
                }
            } else {
                assert(j == hs.len() - 1);
                assert(kp == -1);
                assert(k == -1);
                assert(!eq_ic(hs.last().name@, name));
            }
        }
    }
}

/// The trimmed value of the first header called `name`, unless blank.
pub fn header(headers: &[Header], name: &str) -> (r: Option<Vec<char>>)
    ensures
        match r {
            Some(v) => header_value(headers@, name@) == Some(v@),
            None => header_value(headers@, name@) is None,
        },
{
    proof {
        lemma_header_index(headers@, name@);
    }
    let mut i: usize = 0;
    while i < headers.len()
        invariant
            i <= headers@.len(),
            forall|j: int| 0 <= j < i ==> !eq_ic(#[trigger] headers@[j].name@, name@),
        decreases headers.len() - i,
    {
        if eq_ignore_case(headers[i].name.as_str(), name) {
            proof {
                lemma_header_index(headers@, name@);
                let k = header_index(headers@, name@);
                if k < 0 || k > i {
                    assert(!eq_ic(headers@[i as int].name@, name@));
                }
                if k < i {
                    assert(!eq_ic(headers@[k].name@, name@));
                }
            }
            let v = crate::text::trim_str(headers[i].value.as_str());
            if v.len() > 0 {
                return Some(v);
            } else {
                return None;
            }
        }
        i = i + 1;
    }
    proof {
        lemma_header_index(headers@, name@);
        let k = header_index(headers@, name@);
        if k >= 0 {
            assert(!eq_ic(headers@[k].name@, name@));
        }
    }
    None
}

/// The first comma-separated item of a header, trimmed, unless blank.
pub fn first_header_item(headers: &[Header], name: &str) -> (r: Option<Vec<char>>)
    ensures
        match r {
            Some(v) => first_header_value(headers@, name@) == Some(v@),
            None => first_header_value(headers@, name@) is None,
        },
{
    match header(headers, name) {
        Some(v) => {
            let f = first_piece(v.as_slice(), ',');
            let t = trim_chars(f.as_slice());
            if t.len() > 0 {
                Some(t)
            } else {
                None
            }
        },
        None => None,
    }
}

/// The value of the `name` parameter of a `Forwarded` element.
pub fn forwarded_parameter(element: &[char], name: &str) -> (r: Option<Vec<char>>)
    ensures
        match r {
            Some(v) => forwarded_value(element@, name@) == Some(v@),
            None => forwarded_value(element@, name@) is None,
        },
{
    let ps = split_chars(element, ';');
    let ghost sp = split(element@, ';');
    let n = chars_of(name);
    let mut i: usize = 0;
    assert(sp.take(0) =~= Seq::<Seq<char>>::empty());
    while i < ps.len()
        invariant
            i <= ps@.len(),
            ps@.len() == sp.len(),
            sp == split(element@, ';'),
            n@ == name@,
            forall|k: int| 0 <= k < ps@.len() ==> #[trigger] ps@[k]@ == sp[k],
            first_param(sp.take(i as int), name@) is None,
        decreases ps.len() - i,
    {
        let p = &ps[i];
        assert(p@ == sp[i as int]);
        assert(sp.take(i + 1).drop_last() =~= sp.take(i as int));
        assert(sp.take(i + 1).last() == sp[i as int]);
        let t = trim_chars(p.as_slice());
        match split_once_chars(t.as_slice(), '=') {
            Some((key, value)) => {
                if eq_ignore_case_chars(key.as_slice(), n.as_slice()) {
                    let tv = trim_chars(value.as_slice());
                    let v = trim_char_chars(tv.as_slice(), '"');
                    if v.len() > 0 {
                        proof {
                            assert(t@ == trim(sp[i as int]));
                            assert(forwarded_param(sp[i as int], name@) == Some(v@));
                            assert(first_param(sp.take(i + 1), name@) == Some(v@));
                            lemma_first_param_prefix(sp, name@, i + 1);
                        }
                        return Some(v);
                    }
                }
            },
            None => {},
        }
        i = i + 1;
    }
    assert(sp.take(sp.len() as int) =~= sp);
    None
}

/// The first parameter found in a prefix is the first parameter overall.
proof fn lemma_first_param_prefix(ps: Seq<Seq<char>>, name: Seq<char>, k: int)
    requires
        0 <= k <= ps.len(),
        first_param(ps.take(k), name) is Some,
    ensures
        first_param(ps, name) == first_param(ps.take(k), name),
    decreases ps.len() - k,
{
    if k < ps.len() {
        assert(ps.take(k + 1).drop_last() =~= ps.take(k));
        lemma_first_param_prefix(ps, name, k + 1);
    } else {
        assert(ps.take(k) =~= ps);
    }
}

fn forwarded_first(headers: &[Header]) -> (r: Option<Vec<char>>)
    ensures
        match r {
            Some(v) => forwarded_element(headers@) == Some(v@),
            None => forwarded_element(headers@) is None,
        },
{
    match header(headers, "forwarded") {
        Some(v) => Some(first_piece(v.as_slice(), ',')),
        None => None,
    }
}

fn forwarded_lookup(element: &Option<Vec<char>>, headers: &[Header], name: &str) -> (r: Option<Vec<char>>)
    requires
        match element {
            Some(v) => forwarded_element(headers@) == Some(v@),
            None => forwarded_element(headers@) is None,
        },
    ensures
        match r {
            Some(v) => forwarded_part(headers@, name@) == Some(v@),
            None => forwarded_part(headers@, name@) is None,
        },
{
    match element {
        Some(f) => forwarded_parameter(f.as_slice(), name),
        None => None,
    }
}

/// Whether `host` is a plausible host name or address.
pub fn valid_host(host: &[char]) -> (r: bool)
    ensures
        r == is_valid_host(host@),
{
    if host.len() == 0 {
        return false;
    }
    let mut i: usize = 0;
    while i < host.len()
        invariant
            i <= host.len(),
            forall|j: int| 0 <= j < i ==> is_host_char(#[trigger] host@[j]),
        decreases host.len() - i,
    {
        let c = host[i];
        if !(is_alnum(c) || c == '.' || c == '-' || c == ':' || c == '[' || c == ']') {
            assert(!is_host_char(host@[i as int]));
            return false;
        }
        i = i + 1;
    }
    let s = string_of(host);
    s.as_str().as_bytes().len() <= 255
}

/// The origin (`scheme://host`) that the client used, from the forwarding
/// headers or `Host`.
pub fn request_origin(headers: &[Header]) -> (r: Result<String, PluginError>)
    ensures
        match request_origin_of(headers@) {
            Ok(o) => r matches Ok(s) && s@ == o,
            Err(m) => r matches Err(PluginError::Failed(e)) && e@ == m,
        },
{
    let forwarded = forwarded_first(headers);
    let scheme_fwd = forwarded_lookup(&forwarded, headers, "proto");
    let scheme: Vec<char> = match scheme_fwd {
        Some(s) => s,
        None => match first_header_item(headers, "x-forwarded-proto") {
            Some(s) => s,
            None => chars_of("http"),
        },
    };
    assert(scheme@ == request_scheme(headers@));
    let host_fwd = forwarded_lookup(&forwarded, headers, "host");
    let host: Vec<char> = match host_fwd {
        Some(h) => h,
        None => match first_header_item(headers, "x-forwarded-host") {
            Some(h) => h,
            None => match header(headers, "host") {
                Some(h) => h,
                None => {
                    return Err(failed("request host is unavailable"));
                },
            },
        },
    };
    assert(request_host(headers@) == Some(host@));
    let https = chars_of("https");
    let http = chars_of("http");
    let secure = eq_ignore_case_chars(scheme.as_slice(), https.as_slice());
    if !secure && !eq_ignore_case_chars(scheme.as_slice(), http.as_slice()) {
        return Err(failed("request origin is invalid"));
    }
    if !valid_host(host.as_slice()) {
        return Err(failed("request origin is invalid"));
    }
    let mut origin = String::new();
    if secure {
        origin.append("https");
    } else {
        origin.append("http");
    }
    origin.append("://");
    crate::text::push_chars(&mut origin, host.as_slice());
    Ok(origin)
}

/// The public origin: the configured public URL, else the request's origin.
pub fn preferred_origin(configured_public_url: Option<String>, headers: &[Header]) -> (r: Result<
    String,
    PluginError,
>)
    ensures
        match configured_public_url {
            Some(u) => r == Ok::<String, PluginError>(u),
            None => match request_origin_of(headers@) {
                Ok(o) => r matches Ok(s) && s@ == o,
                Err(m) => r matches Err(PluginError::Failed(e)) && e@ == m,
            },
        },
{
    match configured_public_url {
        Some(u) => Ok(u),
        None => request_origin(headers),
    }
}


// ---------------------------------------------------------------------------
// Sitemap
// ---------------------------------------------------------------------------

/// The locales of the sitemap: the site's default locale first, then, on
/// multilingual sites, the other website locales in their order.
pub open spec fn sitemap_locales_of(c: BlogConfigView) -> Seq<Seq<char>> {
    seq![c.site_default_locale] + if c.multilingual_enabled {
        other_locales(c.localizations, c.site_default_locale)
    } else {
        Seq::<Seq<char>>::empty()
    }
}

/// The locale codes of the localizations that differ from `default`.
pub open spec fn other_locales(locs: Seq<LocalizationView>, default: Seq<char>) -> Seq<Seq<char>>
    decreases locs.len(),
{
    if locs.len() == 0 {
        Seq::<Seq<char>>::empty()
    } else {
        let rest = other_locales(locs.drop_last(), default);
        if eq_ic(locs.last().locale, default) {
            rest
        } else {
            rest.push(locs.last().locale)
        }
    }
}

/// The sitemap's locales start with the default locale; on multilingual
/// sites every other website locale follows once, in its configured order,
/// and on other sites the default locale is the only one.
pub proof fn lemma_sitemap_locales(c: BlogConfigView)
    ensures
        sitemap_locales_of(c)[0] == c.site_default_locale,
        !c.multilingual_enabled ==> sitemap_locales_of(c) == seq![c.site_default_locale],
        forall|k: int|
            1 <= k < sitemap_locales_of(c).len() ==> !eq_ic(
                #[trigger] sitemap_locales_of(c)[k],
                c.site_default_locale,
            ),
        c.multilingual_enabled ==> forall|i: int|
            0 <= i < c.localizations.len() && !eq_ic(c.localizations[i].locale, c.site_default_locale)
                ==> sitemap_locales_of(c).contains(#[trigger] c.localizations[i].locale),
{
    lemma_other_locales(c.localizations, c.site_default_locale);
    let ls = sitemap_locales_of(c);
    let o = other_locales(c.localizations, c.site_default_locale);
    if c.multilingual_enabled {
        assert forall|i: int|
            0 <= i < c.localizations.len() && !eq_ic(c.localizations[i].locale, c.site_default_locale)
            implies ls.contains(#[trigger] c.localizations[i].locale) by {
            let k = choose|k: int| 0 <= k < o.len() && o[k] == c.localizations[i].locale;
            assert(ls[k + 1] == o[k]);
        }
    } else {
        assert(ls =~= seq![c.site_default_locale]);
    }
}

proof fn lemma_other_locales(locs: Seq<LocalizationView>, default: Seq<char>)
    ensures
        forall|k: int|
            0 <= k < other_locales(locs, default).len() ==> !eq_ic(
                #[trigger] other_locales(locs, default)[k],
                default,
            ),
        forall|i: int|
            0 <= i < locs.len() && !eq_ic(locs[i].locale, default) ==> other_locales(
                locs,
                default,
            ).contains(#[trigger] locs[i].locale),
    decreases locs.len(),
{
    if locs.len() > 0 {
        let p = locs.drop_last();
        lemma_other_locales(p, default);
        let o = other_locales(locs, default);
        let op = other_locales(p, default);
        assert forall|i: int|
            0 <= i < locs.len() && !eq_ic(locs[i].locale, default) implies o.contains(
                #[trigger] locs[i].locale,
            ) by {
            if i < p.len() {
                assert(p[i] == locs[i]);
                let k = choose|k: int| 0 <= k < op.len() && op[k] == p[i].locale;
                assert(o[k] == op[k]);
            } else {
                assert(o[o.len() - 1] == locs.last().locale);
            }
        }
    }
}

/// Leaving out index pages keeps every other entry, in order, and nothing
/// else.
pub proof fn lemma_without_index_pages(es: Seq<SitemapEntry>, c: BlogConfigView)
    ensures
        forall|k: int|
            0 <= k < without_index_pages(es, c).len() ==> {
                let e = #[trigger] without_index_pages(es, c)[k];
                es.contains(e) && !is_index_entry(e, c)
            },
        forall|i: int|
            0 <= i < es.len() && !is_index_entry(es[i], c) ==> without_index_pages(es, c).contains(
                #[trigger] es[i],
            ),
        without_index_pages(es, c).len() <= es.len(),
    decreases es.len(),
{
    if es.len() > 0 {
        let p = es.drop_last();
        lemma_without_index_pages(p, c);
        let w = without_index_pages(es, c);
        let wp = without_index_pages(p, c);
        assert forall|k: int| 0 <= k < w.len() implies {
            let e = #[trigger] w[k];
            es.contains(e) && !is_index_entry(e, c)
        } by {
            if k < wp.len() {
                assert(w[k] == wp[k]);
                let j = choose|j: int| 0 <= j < p.len() && p[j] == wp[k];
                assert(es[j] == p[j]);
            } else {
                assert(w[k] == es.last());
                assert(es[es.len() - 1] == es.last());
            }
        }
        assert forall|i: int| 0 <= i < es.len() && !is_index_entry(es[i], c) implies w.contains(
            #[trigger] es[i],
        ) by {
            if i < p.len() {
                assert(p[i] == es[i]);
                let k = choose|k: int| 0 <= k < wp.len() && wp[k] == p[i];
                assert(w[k] == wp[k]);
            } else {
                assert(w[w.len() - 1] == es.last());
            }
        }
    }
}

/// The locales of the sitemap (see `sitemap_locales_of`).
pub fn sitemap_locales(config: &BlogConfig) -> (r: Vec<String>)
    ensures
        r@.len() == sitemap_locales_of(config@).len(),
        forall|i: int| 0 <= i < r@.len() ==> #[trigger] r@[i]@ == sitemap_locales_of(config@)[i],
{
    let ghost vs = config@.localizations;
    let mut r: Vec<String> = Vec::new();
    r.push(config.site_default_locale.clone());
    let ghost first = seq![config.site_default_locale@];
    if config.multilingual_enabled {
        let locs = &config.localizations;
        let mut i: usize = 0;
        assert(vs.take(0) =~= Seq::<LocalizationView>::empty());
        while i < locs.len()
            invariant
                i <= locs@.len(),
                locs == &config.localizations,
                vs == config@.localizations,
                r@.len() == 1 + other_locales(vs.take(i as int), config.site_default_locale@).len(),
                r@[0]@ == config.site_default_locale@,
                forall|k: int|
                    1 <= k < r@.len() ==> #[trigger] r@[k]@ == other_locales(
                        vs.take(i as int),
                        config.site_default_locale@,
                    )[k - 1],
            decreases locs.len() - i,
        {
            assert(vs.take(i + 1).drop_last() =~= vs.take(i as int));
            assert(vs.take(i + 1).last() == vs[i as int]);
            if !eq_ignore_case(locs[i].locale.as_str(), config.site_default_locale.as_str()) {
                r.push(locs[i].locale.clone());
            }
            i = i + 1;
        }
        assert(vs.take(vs.len() as int) =~= vs);
    }
    r
}

/// An index page of its locale: such pages are shown as the home-page hero
/// and are left out of the sitemap.
pub open spec fn is_index_entry(e: SitemapEntry, c: BlogConfigView) -> bool {
    let i = find_locale(c.localizations, e.locale@);
    &&& !e.article
    &&& 0 <= i < c.localizations.len()
    &&& c.localizations[i].index_page_slug == Some(e.slug@)
}

/// The entries that are not index pages, in order.
pub open spec fn without_index_pages(es: Seq<SitemapEntry>, c: BlogConfigView) -> Seq<SitemapEntry>
    decreases es.len(),
{
    if es.len() == 0 {
        Seq::<SitemapEntry>::empty()
    } else {
        let rest = without_index_pages(es.drop_last(), c);
        if is_index_entry(es.last(), c) {
            rest
        } else {
            rest.push(es.last())
        }
    }
}

fn clone_sitemap_entry(e: &SitemapEntry) -> (r: SitemapEntry)
    ensures
        r == *e,
{
    SitemapEntry {
        slug: e.slug.clone(),
        updated_at: crate::http::clone_opt_string(&e.updated_at),
        article: e.article,
        locale: e.locale.clone(),
    }
}

fn index_entry(e: &SitemapEntry, config: &BlogConfig) -> (r: bool)
    ensures
        r == is_index_entry(*e, config@),
{
    if e.article {
        return false;
    }
    proof {
        lemma_find_locale(config@.localizations, e.locale@);
    }
    match position_of_locale(&config.localizations, e.locale.as_str()) {
        Some(i) => match &config.localizations[i].index_page_slug {
            Some(slug) => crate::text::eq_chars(slug.as_str(), e.slug.as_str()),
            None => false,
        },
        None => false,
    }
}

/// Removes the index pages of the configured locales (articles stay, whatever
/// their slug).
pub fn exclude_index_pages(entries: &mut Vec<SitemapEntry>, config: &BlogConfig)
    ensures
        final(entries)@ == without_index_pages(old(entries)@, config@),
{
    let mut kept: Vec<SitemapEntry> = Vec::new();
    let mut i: usize = 0;
    let ghost es = entries@;
    while i < entries.len()
        invariant
            i <= entries@.len(),
            es == entries@,
            kept@ == without_index_pages(es.take(i as int), config@),
        decreases entries.len() - i,
    {
        assert(es.take(i + 1).drop_last() =~= es.take(i as int));
        assert(es.take(i + 1).last() == es[i as int]);
        if !index_entry(&entries[i], config) {
            kept.push(clone_sitemap_entry(&entries[i]));
        }
        i = i + 1;
    }
    assert(es.take(es.len() as int) =~= es);
    *entries = kept;
}

/// The `<url>` element of a localized home page.
pub open spec fn home_url_xml(origin: Seq<char>, c: BlogConfigView, locale: Seq<char>) -> Seq<char> {
    "<url><loc>"@ + escape(origin) + "/"@ + (if !eq_ic(locale, c.site_default_locale) {
        escape(locale) + "/"@
    } else {
        Seq::<char>::empty()
    }) + "</loc></url>"@
}

/// The `<url>` element of a published page or article.
pub open spec fn entry_url_xml(origin: Seq<char>, c: BlogConfigView, e: SitemapEntry) -> Seq<char> {
    "<url><loc>"@ + escape(origin) + "/"@ + (if !eq_ic(e.locale@, c.site_default_locale) {
        escape(e.locale@) + "/"@
    } else {
        Seq::<char>::empty()
    }) + (if e.article {
        escape(c.article_type) + "/"@
    } else {
        Seq::<char>::empty()
    }) + escape(e.slug@) + "</loc>"@ + (match e.updated_at {
        Some(u) => "<lastmod>"@ + escape(u@) + "</lastmod>"@,
        None => Seq::<char>::empty(),
    }) + "</url>"@
}

pub open spec fn homes_xml(origin: Seq<char>, c: BlogConfigView, ls: Seq<Seq<char>>) -> Seq<char>
    decreases ls.len(),
{
    if ls.len() == 0 {
        Seq::<char>::empty()
    } else {
        homes_xml(origin, c, ls.drop_last()) + home_url_xml(origin, c, ls.last())
    }
}

pub open spec fn entries_xml(origin: Seq<char>, c: BlogConfigView, es: Seq<SitemapEntry>) -> Seq<char>
    decreases es.len(),
{
    if es.len() == 0 {
        Seq::<char>::empty()
    } else {
        entries_xml(origin, c, es.drop_last()) + entry_url_xml(origin, c, es.last())
    }
}

/// The `<url><loc>` of a published page or article: the origin, the
/// entry's locale unless it is the site's default locale, the article type
/// for articles, then the slug.
pub open spec fn entry_location(origin: Seq<char>, c: BlogConfigView, e: SitemapEntry) -> Seq<char> {
    let locale_part = if eq_ic(e.locale@, c.site_default_locale) {
        Seq::<char>::empty()
    } else {
        escape(e.locale@) + "/"@
    };
    let type_part = if e.article {
        escape(c.article_type) + "/"@
    } else {
        Seq::<char>::empty()
    };
    "<url><loc>"@ + escape(origin) + "/"@ + locale_part + type_part + escape(e.slug@) + "</loc>"@
}

proof fn lemma_entries_xml(origin: Seq<char>, c: BlogConfigView, es: Seq<SitemapEntry>)
    ensures
        forall|i: int|
            0 <= i < es.len() ==> contains_seq(entries_xml(origin, c, es), #[trigger] entry_location(origin, c, es[i])),
    decreases es.len(),
{
    if es.len() > 0 {
        let p = es.drop_last();
        lemma_entries_xml(origin, c, p);
        let ep = entries_xml(origin, c, p);
        let last = entry_url_xml(origin, c, es.last());
        let loc = entry_location(origin, c, es.last());
        assert(starts_with(last, loc)) by {
            assert(last.take(loc.len() as int) =~= loc);
        }
        lemma_contains_seq(ep, last, Seq::<char>::empty(), loc);
        assert(ep + last + Seq::<char>::empty() =~= entries_xml(origin, c, es));
        assert forall|i: int| 0 <= i < es.len() implies contains_seq(
            entries_xml(origin, c, es),
            #[trigger] entry_location(origin, c, es[i]),
        ) by {
            if i < p.len() {
                assert(p[i] == es[i]);
                lemma_contains_seq(Seq::<char>::empty(), ep, last, entry_location(origin, c, p[i]));
                assert(Seq::<char>::empty() + ep + last =~= entries_xml(origin, c, es));
            } else {
                assert(es[i] == es.last());
            }
        }
    }
}

/// The sitemap lists every entry that it is given at its full location:
/// pages and articles in another locale than the site's default one keep
/// that locale's path segment, articles their article type.
pub proof fn lemma_sitemap_entry_locations(
    origin: Seq<char>,
    c: BlogConfigView,
    ls: Seq<Seq<char>>,
    es: Seq<SitemapEntry>,
)
    ensures
        forall|i: int|
            0 <= i < es.len() ==> contains_seq(sitemap_xml(origin, c, ls, es), #[trigger] entry_location(origin, c, es[i])),
        forall|i: int|
            0 <= i < es.len() && !eq_ic(es[i].locale@, c.site_default_locale) ==> starts_with(
                #[trigger] entry_location(origin, c, es[i]),
                "<url><loc>"@ + escape(origin) + "/"@ + escape(es[i].locale@) + "/"@,
            ),
{
    lemma_entries_xml(origin, c, es);
    let pre = sitemap_prolog() + "<urlset xmlns=\"http://www.sitemaps.org/schemas/sitemap/0.9\">"@ + homes_xml(
        origin,
        c,
        ls,
    );
    let body = entries_xml(origin, c, es);
    assert(pre + body + "</urlset>"@ =~= sitemap_xml(origin, c, ls, es));
    assert forall|i: int| 0 <= i < es.len() implies contains_seq(
        sitemap_xml(origin, c, ls, es),
        #[trigger] entry_location(origin, c, es[i]),
    ) by {
        lemma_contains_seq(pre, body, "</urlset>"@, entry_location(origin, c, es[i]));
    }
    assert forall|i: int| 0 <= i < es.len() && !eq_ic(es[i].locale@, c.site_default_locale) implies starts_with(
        #[trigger] entry_location(origin, c, es[i]),
        "<url><loc>"@ + escape(origin) + "/"@ + escape(es[i].locale@) + "/"@,
    ) by {
        let l = entry_location(origin, c, es[i]);
        let t = "<url><loc>"@ + escape(origin) + "/"@ + escape(es[i].locale@) + "/"@;
        assert(l.take(t.len() as int) =~= t);
    }
}

/// The XML declaration and the stylesheet instruction.
pub open spec fn sitemap_prolog() -> Seq<char> {
    "<?xml version=\"1.0\" encoding=\"UTF-8\"?>\n<?xml-stylesheet type=\"text/xsl\" href=\"/p/blog/assets/sitemap.xsl?v="@
        + asset_version() + "\"?>\n"@
}

/// The sitemap document: a home page per locale, then every entry.
pub open spec fn sitemap_xml(
    origin: Seq<char>,
    c: BlogConfigView,
    ls: Seq<Seq<char>>,
    es: Seq<SitemapEntry>,
) -> Seq<char> {
    sitemap_prolog() + "<urlset xmlns=\"http://www.sitemaps.org/schemas/sitemap/0.9\">"@ + homes_xml(
        origin,
        c,
        ls,
    ) + entries_xml(origin, c, es) + "</urlset>"@
}

fn push_home_url(out: &mut String, origin: &str, config: &BlogConfig, locale: &str)
    ensures
        final(out)@ == old(out)@ + home_url_xml(origin@, config@, locale@),
{
    let ghost start = out@;
    out.append("<url><loc>");
    push_escaped(out, origin);
    out.append("/");
    let ghost mid = out@;
    if !eq_ignore_case(locale, config.site_default_locale.as_str()) {
        push_escaped(out, locale);
        out.append("/");
        assert(out@ =~= mid + (escape(locale@) + "/"@));
    } else {
        assert(out@ =~= mid + Seq::<char>::empty());
    }
    out.append("</loc></url>");
    assert(out@ =~= start + home_url_xml(origin@, config@, locale@));
}

#[verifier::rlimit(60)]
fn push_entry_url(out: &mut String, origin: &str, config: &BlogConfig, e: &SitemapEntry)
    ensures
        final(out)@ == old(out)@ + entry_url_xml(origin@, config@, *e),
{
    let ghost start = out@;
    out.append("<url><loc>");
    push_escaped(out, origin);
    out.append("/");
    let ghost a = out@;
    let ghost part1 = if !eq_ic(e.locale@, config.site_default_locale@) {
        escape(e.locale@) + "/"@
    } else {
        Seq::<char>::empty()
    };
    if !eq_ignore_case(e.locale.as_str(), config.site_default_locale.as_str()) {
        push_escaped(out, e.locale.as_str());
        out.append("/");
    }
    assert(out@ =~= a + part1);
    let ghost b = out@;
    let ghost part2 = if e.article {
        escape(config.article_type@) + "/"@
    } else {
        Seq::<char>::empty()
    };
    if e.article {
        push_escaped(out, config.article_type.as_str());
        out.append("/");
    }
    assert(out@ =~= b + part2);
    push_escaped(out, e.slug.as_str());
    out.append("</loc>");
    let ghost d = out@;
    let ghost part3 = match &e.updated_at {
        Some(u) => "<lastmod>"@ + escape(u@) + "</lastmod>"@,
        None => Seq::<char>::empty(),
    };
    match &e.updated_at {
        Some(u) => {
            out.append("<lastmod>");
            push_escaped(out, u.as_str());
            out.append("</lastmod>");
        },
        None => {},
    }
    assert(out@ =~= d + part3);
    out.append("</url>");
    assert(out@ =~= start + entry_url_xml(origin@, config@, *e));
}

/// The sitemap document (see `sitemap_xml`).
pub fn render(origin: &str, config: &BlogConfig, locales: &[String], entries: &[SitemapEntry]) -> (r:
    String)
    ensures
        r@ == sitemap_xml(
            origin@,
            config@,
            Seq::new(locales@.len(), |i: int| locales@[i]@),
            entries@,
        ),
{
    let ghost ls = Seq::new(locales@.len(), |i: int| locales@[i]@);
    let mut out = String::new();
    out.append("<?xml version=\"1.0\" encoding=\"UTF-8\"?>\n<?xml-stylesheet type=\"text/xsl\" href=\"/p/blog/assets/sitemap.xsl?v=");
    push_asset_version(&mut out);
    out.append("\"?>\n");
    out.append("<urlset xmlns=\"http://www.sitemaps.org/schemas/sitemap/0.9\">");
    let ghost head = out@;
    let mut i: usize = 0;
    assert(ls.take(0) =~= Seq::<Seq<char>>::empty());
    while i < locales.len()
        invariant
            i <= locales@.len(),
            ls == Seq::new(locales@.len(), |i: int| locales@[i]@),
            out@ == head + homes_xml(origin@, config@, ls.take(i as int)),
        decreases locales.len() - i,
    {
        assert(ls.take(i + 1).drop_last() =~= ls.take(i as int));
        assert(ls.take(i + 1).last() == locales@[i as int]@);
        push_home_url(&mut out, origin, config, locales[i].as_str());
        i = i + 1;
        assert(out@ =~= head + homes_xml(origin@, config@, ls.take(i as int)));
    }
    assert(ls.take(ls.len() as int) =~= ls);
    let ghost mid = out@;
    let mut j: usize = 0;
    assert(entries@.take(0) =~= Seq::<SitemapEntry>::empty());
    while j < entries.len()
        invariant
            j <= entries@.len(),
            out@ == mid + entries_xml(origin@, config@, entries@.take(j as int)),
        decreases entries.len() - j,
    {
        assert(entries@.take(j + 1).drop_last() =~= entries@.take(j as int));
        assert(entries@.take(j + 1).last() == entries@[j as int]);
        push_entry_url(&mut out, origin, config, &entries[j]);
        j = j + 1;
        assert(out@ =~= mid + entries_xml(origin@, config@, entries@.take(j as int)));
    }
    assert(entries@.take(entries@.len() as int) =~= entries@);
    out.append("</urlset>");
    assert(out@ =~= sitemap_xml(origin@, config@, ls, entries@));
    out
}

/// The sitemap response: `entries` are the published pages and articles in
/// the sitemap locales; index pages are left out.
pub fn response(
    configured_public_url: Option<String>,
    request: &Request,
    config: &BlogConfig,
    entries: Vec<SitemapEntry>,
) -> (r: Result<Response, PluginError>)
    ensures
        configured_public_url is None && request_origin_of(request.headers@) is Err ==> (r matches Err(
            PluginError::Failed(e),
        ) && request_origin_of(request.headers@) == Err::<Seq<char>, Seq<char>>(e@)),
        r is Ok <==> (configured_public_url is Some || request_origin_of(request.headers@) is Ok),
        r matches Ok(resp) ==> {
            let origin = match configured_public_url {
                Some(u) => u@,
                None => request_origin_of(request.headers@)->Ok_0,
            };
            &&& resp.status == 200
            &&& resp.headers@.len() == 2
            &&& resp.headers@[0].name@ == "content-type"@
            &&& resp.headers@[0].value@ == "application/xml; charset=utf-8"@
            &&& resp.headers@[1].name@ == "cache-control"@
            &&& resp.headers@[1].value@ == "public, max-age=3600"@
            &&& resp.body@ == encode_utf8(
                sitemap_xml(
                    origin,
                    config@,
                    sitemap_locales_of(config@),
                    without_index_pages(entries@, config@),
                ),
            )
        },
{
    let origin = preferred_origin(configured_public_url, request.headers.as_slice())?;
    let locales = sitemap_locales(config);
    let mut entries = entries;
    exclude_index_pages(&mut entries, config);
    let body = render(origin.as_str(), config, locales.as_slice(), entries.as_slice());
    assert(Seq::new(locales@.len(), |i: int| locales@[i]@) =~= sitemap_locales_of(config@));
    let mut headers: Vec<Header> = Vec::new();
    headers.push(header_of("content-type", "application/xml; charset=utf-8"));
    headers.push(header_of("cache-control", "public, max-age=3600"));
    Ok(Response { status: 200, headers, body: body.as_str().as_bytes_vec() })
}

} // verus!
