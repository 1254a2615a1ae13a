//! URL building for the public pages and the pagination model.
use crate::config::{has_locale, slash, BlogConfig, BlogConfigView, LanguagePathView};
use crate::text::{
    chars_of, decimal, eq_ic, join, eq_ignore_case, eq_ignore_case_chars, push_chars, push_decimal,
    lemma_find, lemma_join_chars, lemma_split_join, lemma_split_once, lemma_split_once_concat,
    lemma_split_pieces, split, split_chars, split_once, split_once_chars, starts_with, starts_with_chars,
    string_of,
};
use vstd::prelude::*;

verus! {

pub open spec fn double_slash() -> Seq<char> {
    seq!['/', '/']
}

pub open spec fn locale_key() -> Seq<char> {
    seq!['l', 'o', 'c', 'a', 'l', 'e', '=']
}

/// Whether a query parameter survives a locale change: non-empty and not the
/// legacy `locale=` parameter.
pub open spec fn kept_param(p: Seq<char>) -> bool {
    p.len() > 0 && !starts_with(p, locale_key())
}

/// The parameters that `kept_param` keeps, in order.
pub open spec fn kept_params(ps: Seq<Seq<char>>) -> Seq<Seq<char>>
    decreases ps.len(),
{
    if ps.len() == 0 {
        Seq::<Seq<char>>::empty()
    } else if kept_param(ps.last()) {
        kept_params(ps.drop_last()).push(ps.last())
    } else {
        kept_params(ps.drop_last())
    }
}

/// Cleaning a query keeps exactly its non-empty parameters other than the
/// legacy `locale=`, in their order.
pub proof fn lemma_kept_params(ps: Seq<Seq<char>>)
    ensures
        forall|k: int|
            0 <= k < kept_params(ps).len() ==> {
                let p = #[trigger] kept_params(ps)[k];
                ps.contains(p) && kept_param(p)
            },
        forall|i: int| 0 <= i < ps.len() && kept_param(ps[i]) ==> kept_params(ps).contains(#[trigger] ps[i]),
        kept_params(ps).len() <= ps.len(),
        (forall|i: int| 0 <= i < ps.len() ==> kept_param(#[trigger] ps[i])) ==> kept_params(ps) == ps,
    decreases ps.len(),
{
    if ps.len() > 0 {
        let q = ps.drop_last();
        lemma_kept_params(q);
        let w = kept_params(ps);
        let wq = kept_params(q);
        assert forall|k: int| 0 <= k < w.len() implies {
            let p = #[trigger] w[k];
            ps.contains(p) && kept_param(p)
        } by {
            if k < wq.len() {
                assert(w[k] == wq[k]);
                let j = choose|j: int| 0 <= j < q.len() && q[j] == wq[k];
                assert(ps[j] == q[j]);
            } else {
                assert(w[k] == ps.last());
                assert(ps[ps.len() - 1] == ps.last());
            }
        }
        assert forall|i: int| 0 <= i < ps.len() && kept_param(ps[i]) implies w.contains(#[trigger] ps[i]) by {
            if i < q.len() {
                assert(q[i] == ps[i]);
                let k = choose|k: int| 0 <= k < wq.len() && wq[k] == q[i];
                assert(w[k] == wq[k]);
            } else {
                assert(w[w.len() - 1] == ps.last());
            }
        }
        if forall|i: int| 0 <= i < ps.len() ==> kept_param(#[trigger] ps[i]) {
            assert(forall|i: int| 0 <= i < q.len() ==> q[i] == ps[i]);
            assert(kept_param(ps[ps.len() - 1]));
            assert(w =~= ps);
        }
    }
}

/// The kept parameters of a query string, joined again with `&`.
pub open spec fn clean_query(query: Seq<char>) -> Seq<char> {
    join(kept_params(split(query, '&')), '&')
}

/// A path without its leading website-locale segment (multilingual sites only).
pub open spec fn strip_locale(path: Seq<char>, c: BlogConfigView) -> Seq<char> {
    if !c.multilingual_enabled {
        path
    } else {
        let remainder = if starts_with(path, slash()) {
            path.drop_first()
        } else {
            path
        };
        let first = match split_once(remainder, '/') {
            Some((a, _)) => a,
            None => remainder,
        };
        let tail = match split_once(remainder, '/') {
            Some((_, b)) => b,
            None => Seq::<char>::empty(),
        };
        if has_locale(c.localizations, first) {
            if tail.len() == 0 {
                slash()
            } else {
                path.skip(first.len() as int + 1)
            }
        } else {
            path
        }
    }
}

/// A link without its fragment.
pub open spec fn href_without_fragment(href: Seq<char>) -> Seq<char> {
    match split_once(href, '#') {
        Some((a, _)) => a,
        None => href,
    }
}

/// The fragment of a link, after the first `#`.
pub open spec fn href_fragment(href: Seq<char>) -> Option<Seq<char>> {
    match split_once(href, '#') {
        Some((_, f)) => Some(f),
        None => None,
    }
}

/// The path of a link: before the query and the fragment.
pub open spec fn href_path(href: Seq<char>) -> Seq<char> {
    let w = href_without_fragment(href);
    match split_once(w, '?') {
        Some((a, _)) => a,
        None => w,
    }
}

/// The query string of a link, or empty.
pub open spec fn href_query(href: Seq<char>) -> Seq<char> {
    match split_once(href_without_fragment(href), '?') {
        Some((_, b)) => b,
        None => Seq::<char>::empty(),
    }
}

/// Whether a link points into the site: a root-relative path.
pub open spec fn is_internal(href: Seq<char>) -> bool {
    starts_with(href, slash()) && !starts_with(href, double_slash())
}

/// The canonical form of an internal link for `locale`: the default locale
/// has no prefix, others get `/{locale}`; a previous locale prefix and the
/// legacy `locale=` parameter are dropped, the other parameters and the
/// fragment are kept. External links are left unchanged.
pub open spec fn localize(href: Seq<char>, locale: Seq<char>, c: BlogConfigView) -> Seq<char> {
    if !is_internal(href) {
        href
    } else {
        let p = strip_locale(href_path(href), c);
        let base = if eq_ic(locale, c.site_default_locale) {
            p
        } else {
            slash() + locale + p
        };
        let params = kept_params(split(href_query(href), '&'));
        let with_query = if params.len() > 0 {
            base.push('?') + join(params, '&')
        } else {
            base
        };
        match href_fragment(href) {
            Some(f) => with_query.push('#') + f,
            None => with_query,
        }
    }
}

/// A locale code that can stand as one path segment of a URL.
pub open spec fn is_url_segment(s: Seq<char>) -> bool {
    s.len() > 0 && !s.contains('/') && !s.contains('?') && !s.contains('#')
}

/// The path of an internal link starts with `/` and holds no `?` or `#`;
/// its query holds no `#`.
proof fn lemma_href_parts(href: Seq<char>)
    requires
        starts_with(href, slash()),
    ensures
        href_path(href).len() > 0,
        href_path(href)[0] == '/',
        !href_path(href).contains('?'),
        !href_path(href).contains('#'),
        !href_query(href).contains('#'),
        !href_without_fragment(href).contains('#'),
{
    assert(href[0] == slash()[0]);
    lemma_split_once(href, '#');
    let w = href_without_fragment(href);
    lemma_find(href, '#');
    assert(w.len() > 0 && w[0] == '/');
    lemma_split_once(w, '?');
    lemma_find(w, '?');
    let path = href_path(href);
    let q = href_query(href);
    assert(path.len() > 0 && path[0] == '/');
    if path.contains('#') {
        let k = choose|k: int| 0 <= k < path.len() && path[k] == '#';
        assert(w[k] == '#');
    }
    if q.contains('#') {
        let k = choose|k: int| 0 <= k < q.len() && q[k] == '#';
        assert(w[path.len() + 1 + k] == '#');
    }
}

/// Stripping the locale keeps a path starting with `/` and free of `?` and
/// `#`.
proof fn lemma_strip_locale_shape(path: Seq<char>, c: BlogConfigView)
    requires
        path.len() > 0,
        path[0] == '/',
        !path.contains('?'),
        !path.contains('#'),
    ensures
        strip_locale(path, c).len() > 0,
        strip_locale(path, c)[0] == '/',
        !strip_locale(path, c).contains('?'),
        !strip_locale(path, c).contains('#'),
{
    if c.multilingual_enabled {
        assert(starts_with(path, slash())) by {
            assert(path.take(1) =~= slash());
        }
        let rem = path.drop_first();
        lemma_split_once(rem, '/');
        let p = strip_locale(path, c);
        if let Some((first, tail)) = split_once(rem, '/') {
            if has_locale(c.localizations, first) && tail.len() > 0 {
                assert(p =~= path.skip(first.len() as int + 1));
                assert(p[0] == rem[first.len() as int]);
                assert forall|x: char| p.contains(x) implies path.contains(x) by {
                    let k = choose|k: int| 0 <= k < p.len() && p[k] == x;
                    assert(path[first.len() + 1 + k] == x);
                }
            }
        }
    }
}

/// A path with a configured locale segment in front loses exactly that
/// segment.
proof fn lemma_strip_prefixed(locale: Seq<char>, p: Seq<char>, c: BlogConfigView)
    requires
        c.multilingual_enabled,
        has_locale(c.localizations, locale),
        is_url_segment(locale),
        p.len() > 0,
        p[0] == '/',
    ensures
        strip_locale(slash() + locale + p, c) == p,
{
    let path = slash() + locale + p;
    assert(starts_with(path, slash())) by {
        assert(path.take(1) =~= slash());
    }
    let rem = path.drop_first();
    assert(rem =~= locale + seq!['/'] + p.drop_first());
    lemma_split_once_concat(locale, '/', p.drop_first());
    if p.drop_first().len() == 0 {
        assert(p =~= slash());
    } else {
        assert(path.skip(locale.len() as int + 1) =~= p);
    }
}

/// Internal links of a locale other than the default one start with that
/// locale's path segment; links of the default locale start with the page's
/// path itself, without a locale segment.
pub proof fn lemma_locale_prefix(href: Seq<char>, locale: Seq<char>, c: BlogConfigView)
    requires
        is_internal(href),
    ensures
        !eq_ic(locale, c.site_default_locale) ==> starts_with(
            localize(href, locale, c),
            slash() + locale + slash(),
        ),
        eq_ic(locale, c.site_default_locale) ==> starts_with(
            localize(href, locale, c),
            strip_locale(href_path(href), c),
        ),
{
    lemma_href_parts(href);
    let p = strip_locale(href_path(href), c);
    lemma_strip_locale_shape(href_path(href), c);
    let o = localize(href, locale, c);
    if !eq_ic(locale, c.site_default_locale) {
        let pre = slash() + locale + slash();
        assert(o.len() >= pre.len());
        assert forall|k: int| 0 <= k < pre.len() implies o[k] == pre[k] by {
            if k <= locale.len() {
            } else {
                assert(p[0] == '/');
            }
        }
        assert(o.take(pre.len() as int) =~= pre);
    } else {
        assert(o.take(p.len() as int) =~= p);
    }
}

/// Localizing a link again gives the same link as localizing the first one
/// for that locale: a localized internal link keeps its page, its kept query
/// parameters and its fragment, and only its locale prefix changes. So a
/// language switch reaches the same page from every locale, and localizing
/// twice for one locale changes nothing.
pub proof fn lemma_relocalize(href: Seq<char>, a: Seq<char>, b: Seq<char>, c: BlogConfigView)
    requires
        is_internal(href),
        eq_ic(a, c.site_default_locale) ==> {
            let p = strip_locale(href_path(href), c);
            strip_locale(p, c) == p && !starts_with(p, double_slash())
        },
        !eq_ic(a, c.site_default_locale) ==> c.multilingual_enabled && has_locale(c.localizations, a)
            && is_url_segment(a),
    ensures
        localize(localize(href, a, c), b, c) == localize(href, b, c),
{
    let o = localize(href, a, c);
    lemma_href_parts(href);
    let path = href_path(href);
    let query = href_query(href);
    let p = strip_locale(path, c);
    lemma_strip_locale_shape(path, c);
    let default = eq_ic(a, c.site_default_locale);
    let base = if default {
        p
    } else {
        slash() + a + p
    };
    assert(base.len() > 0 && base[0] == '/');
    assert(!base.contains('?') && !base.contains('#')) by {
        if !default {
            if base.contains('?') || base.contains('#') {
                let k = choose|k: int| 0 <= k < base.len() && (base[k] == '?' || base[k] == '#');
                if 1 <= k < 1 + a.len() {
                    assert(a[k - 1] == base[k]);
                } else if k >= 1 + a.len() {
                    assert(p[k - 1 - a.len()] == base[k]);
                }
            }
        }
    }
    let pieces = split(query, '&');
    let params = kept_params(pieces);
    lemma_split_pieces(query, '&');
    lemma_kept_params(pieces);
    assert forall|k: int| 0 <= k < params.len() implies !(#[trigger] params[k]).contains('&')
        && !params[k].contains('#') && kept_param(params[k]) by {
        let j = choose|j: int| 0 <= j < pieces.len() && pieces[j] == params[k];
        if params[k].contains('&') || params[k].contains('#') {
            let m = choose|m: int|
                0 <= m < params[k].len() && (params[k][m] == '&' || params[k][m] == '#');
            assert(pieces[j][m] == params[k][m]);
        }
    }
    let jq = join(params, '&');
    assert(!jq.contains('#')) by {
        if jq.contains('#') {
            lemma_join_chars(params, '&', '#');
        }
    }
    let wq = if params.len() > 0 {
        base.push('?') + jq
    } else {
        base
    };
    assert(!wq.contains('#')) by {
        if wq.contains('#') {
            let k = choose|k: int| 0 <= k < wq.len() && wq[k] == '#';
            if k < base.len() {
                assert(base[k] == '#');
            } else if k > base.len() {
                assert(jq[k - base.len() - 1] == '#');
            }
        }
    }
    // The fragment and the part before it.
    match href_fragment(href) {
        Some(f) => {
            assert(o =~= wq + seq!['#'] + f);
            lemma_split_once_concat(wq, '#', f);
        },
        None => {
            assert(o == wq);
            lemma_split_once(wq, '#');
        },
    }
    assert(href_without_fragment(o) == wq);
    assert(href_fragment(o) == href_fragment(href));
    // The path and the query.
    if params.len() > 0 {
        assert(wq =~= base + seq!['?'] + jq);
        lemma_split_once_concat(base, '?', jq);
        assert(forall|k: int| 0 <= k < params.len() ==> !(#[trigger] params[k]).contains('&'));
        lemma_split_join(params, '&');
        lemma_kept_params(params);
    } else {
        lemma_split_once(base, '?');
        assert(kept_params(split(Seq::<char>::empty(), '&')) =~= Seq::<Seq<char>>::empty()) by {
            assert(split(Seq::<char>::empty(), '&') == seq![Seq::<char>::empty()]);
            let one = seq![Seq::<char>::empty()];
            assert(one.len() == 1);
            assert(one.last() == Seq::<char>::empty());
            assert(!kept_param(one.last()));
            assert(one.drop_last() =~= Seq::<Seq<char>>::empty());
            assert(kept_params(one.drop_last()) == Seq::<Seq<char>>::empty());
            assert(kept_params(one) =~= Seq::<Seq<char>>::empty());
        }
    }
    assert(href_path(o) == base);
    assert(kept_params(split(href_query(o), '&')) == params);
    // The stripped path.
    if default {
        assert(strip_locale(href_path(o), c) == p);
    } else {
        lemma_strip_prefixed(a, p, c);
    }
    // The localized link is internal again.
    assert(o.len() > 0 && o[0] == '/') by {
        assert(o[0] == wq[0]);
        assert(wq[0] == base[0]);
    }
    assert(starts_with(o, slash())) by {
        assert(o.take(1) =~= slash());
    }
    assert(!starts_with(o, double_slash())) by {
        if o.len() >= 2 && o[1] == '/' {
            assert(o[1] == wq[1]);
            if base.len() >= 2 {
                assert(wq[1] == base[1]);
                if default {
                    assert(p.take(2) =~= double_slash());
                } else {
                    assert(base[1] == a[0]);
                    assert(a.contains('/'));
                }
            } else if params.len() > 0 {
                assert(wq[1] == '?');
            }
        }
    }
}

pub open spec fn page_path(page: nat) -> Seq<char> {
    if page == 1 {
        slash()
    } else {
        seq!['/', 'p', 'a', 'g', 'e', '/'] + decimal(page)
    }
}

pub open spec fn category_param() -> Seq<char> {
    seq!['?', 'c', 'a', 't', 'e', 'g', 'o', 'r', 'y', '=']
}

/// Index of the first language path for `locale`, or -1.
pub open spec fn find_language_path(paths: Seq<LanguagePathView>, locale: Seq<char>) -> int
    decreases paths.len(),
{
    if paths.len() == 0 {
        -1
    } else {
        let r = find_language_path(paths.drop_last(), locale);
        if r >= 0 {
            r
        } else if eq_ic(paths.last().locale, locale) {
            paths.len() - 1
        } else {
            -1
        }
    }
}

pub proof fn lemma_find_language_path(paths: Seq<LanguagePathView>, locale: Seq<char>)
    ensures
        -1 <= find_language_path(paths, locale) < paths.len(),
        find_language_path(paths, locale) >= 0 ==> eq_ic(
            paths[find_language_path(paths, locale)].locale,
            locale,
        ),
        forall|j: int|
            0 <= j < find_language_path(paths, locale) || (find_language_path(paths, locale)
                == -1 && 0 <= j < paths.len()) ==> !eq_ic(#[trigger] paths[j].locale, locale),
    decreases paths.len(),
{
    if paths.len() > 0 {
        let p = paths.drop_last();
        lemma_find_language_path(p, locale);
        assert(forall|j: int| 0 <= j < p.len() ==> p[j] == paths[j]);
    }
}

// ---------------------------------------------------------------------------
// Exec
// ---------------------------------------------------------------------------

fn locale_key_chars() -> (r: Vec<char>)
    ensures
        r@ == locale_key(),
{
    let mut r: Vec<char> = Vec::new();
    r.push('l');
    r.push('o');
    r.push('c');
    r.push('a');
    r.push('l');
    r.push('e');
    r.push('=');
    assert(r@ =~= locale_key());
    r
}

fn is_kept_param(p: &[char]) -> (r: bool)
    ensures
        r == kept_param(p@),
{
    let key = locale_key_chars();
    p.len() > 0 && !starts_with_chars(p, key.as_slice())
}

/// Appends the kept parameters of `query`, introduced by `?` and joined by `&`.
pub fn push_clean_query(out: &mut String, query: &[char])
    ensures
        final(out)@ == if kept_params(split(query@, '&')).len() > 0 {
            old(out)@.push('?') + clean_query(query@)
        } else {
            old(out)@
        },
{
    let pieces = split_chars(query, '&');
    let ghost ps = split(query@, '&');
    let ghost start = out@;
    let mut i: usize = 0;
    let mut any = false;
    while i < pieces.len()
        invariant
            i <= pieces@.len(),
            pieces@.len() == ps.len(),
            forall|k: int| 0 <= k < pieces@.len() ==> #[trigger] pieces@[k]@ == ps[k],
            any == (kept_params(ps.take(i as int)).len() > 0),
            out@ == if any {
                start.push('?') + join(kept_params(ps.take(i as int)), '&')
            } else {
                start
            },
        decreases pieces.len() - i,
    {
        let ghost before = kept_params(ps.take(i as int));
        assert(ps.take(i + 1).drop_last() =~= ps.take(i as int));
        assert(ps.take(i + 1).last() == ps[i as int]);
        let piece = &pieces[i];
        assert(piece@ == ps[i as int]);
        if is_kept_param(piece.as_slice()) {
            if any {
                crate::text::push_char(out, '&');
            } else {
                crate::text::push_char(out, '?');
            }
            push_chars(out, piece.as_slice());
            proof {
                let after = kept_params(ps.take(i + 1));
                assert(after == before.push(piece@));
                if before.len() > 0 {
                    assert(after.drop_last() == before);
                    assert(join(after, '&') == join(before, '&').push('&') + piece@);
                    assert(out@ =~= start.push('?') + join(after, '&'));
                } else {
                    assert(after =~= seq![piece@]);
                    assert(join(after, '&') == piece@);
                    assert(out@ =~= start.push('?') + join(after, '&'));
                }
            }
            any = true;
        }
        i = i + 1;
    }
    assert(ps.take(pieces@.len() as int) =~= ps);
}

/// A path without its leading website-locale segment.
pub fn strip_locale_prefix(path: &[char], config: &BlogConfig) -> (r: Vec<char>)
    ensures
        r@ == strip_locale(path@, config@),
{
    if !config.multilingual_enabled {
        return slice_all(path);
    }
    let sl = slash_vec();
    let remainder = if starts_with_chars(path, sl.as_slice()) {
        crate::text::slice_chars(path, 1, path.len())
    } else {
        slice_all(path)
    };
    assert(starts_with(path@, slash()) ==> remainder@ =~= path@.drop_first());
    let (first, tail) = match split_once_chars(remainder.as_slice(), '/') {
        Some((a, b)) => (a, b),
        None => (slice_all(remainder.as_slice()), Vec::new()),
    };
    let first_str = string_of(first.as_slice());
    if crate::config::position_of_locale(&config.localizations, first_str.as_str()).is_some() {
        proof {
            crate::config::lemma_find_locale(config@.localizations, first@);
        }
        if tail.len() == 0 {
            sl
        } else {
            proof {
                crate::text::lemma_find(remainder@, '/');
            }
            assert(first@.len() < remainder@.len());
            assert(remainder@.len() <= path@.len());
            crate::text::slice_chars(path, first.len() + 1, path.len())
        }
    } else {
        proof {
            crate::config::lemma_find_locale(config@.localizations, first@);
        }
        slice_all(path)
    }
}

fn slice_all(v: &[char]) -> (r: Vec<char>)
    ensures
        r@ == v@,
{
    let r = crate::text::slice_chars(v, 0, v.len());
    assert(r@ =~= v@);
    r
}

fn slash_vec() -> (r: Vec<char>)
    ensures
        r@ == slash(),
{
    let mut r: Vec<char> = Vec::new();
    r.push('/');
    assert(r@ =~= slash());
    r
}

/// The canonical URL of an internal link for `locale` (see `localize`).
pub fn localized_url(href: &str, locale: &str, config: &BlogConfig) -> (r: String)
    ensures
        r@ == localize(href@, locale@, config@),
{
    let h = chars_of(href);
    let sl = slash_vec();
    let mut dsl = slash_vec();
    dsl.push('/');
    assert(dsl@ =~= double_slash());
    if !starts_with_chars(h.as_slice(), sl.as_slice()) || starts_with_chars(
        h.as_slice(),
        dsl.as_slice(),
    ) {
        return href.to_owned();
    }
    let (without_fragment, fragment) = match split_once_chars(h.as_slice(), '#') {
        Some((a, b)) => (a, Some(b)),
        None => (slice_all(h.as_slice()), None),
    };
    let (path, query) = match split_once_chars(without_fragment.as_slice(), '?') {
        Some((a, b)) => (a, b),
        None => (slice_all(without_fragment.as_slice()), Vec::new()),
    };
    let p = strip_locale_prefix(path.as_slice(), config);
    let mut localized = String::new();
    if eq_ignore_case(locale, config.site_default_locale.as_str()) {
        push_chars(&mut localized, p.as_slice());
    } else {
        crate::text::push_char(&mut localized, '/');
        localized.append(locale);
        push_chars(&mut localized, p.as_slice());
    }
    let ghost base = localized@;
    push_clean_query(&mut localized, query.as_slice());
    match fragment {
        Some(f) => {
            crate::text::push_char(&mut localized, '#');
            push_chars(&mut localized, f.as_slice());
        },
        None => {},
    }
    assert(localized@ =~= localize(href@, locale@, config@)) by {
        if eq_ic(locale@, config.site_default_locale@) {
        } else {
            assert(base =~= slash() + locale@ + p@);
        }
    }
    localized
}

/// The overview URL of page `page`, keeping the category filter.
pub fn page_url(page: usize, config: &BlogConfig, category: Option<&str>) -> (r: String)
    ensures
        r@ == localize(
            page_path(page as nat) + match category {
                Some(c) => category_param() + c@,
                None => Seq::<char>::empty(),
            },
            config.default_locale@,
            config@,
        ),
{
    let mut path = String::new();
    if page == 1 {
        crate::text::push_char(&mut path, '/');
    } else {
        crate::text::push_char(&mut path, '/');
        crate::text::push_char(&mut path, 'p');
        crate::text::push_char(&mut path, 'a');
        crate::text::push_char(&mut path, 'g');
        crate::text::push_char(&mut path, 'e');
        crate::text::push_char(&mut path, '/');
        push_decimal(&mut path, page);
    }
    assert(path@ =~= page_path(page as nat));
    let ghost base = path@;
    match category {
        Some(c) => {
            push_category_param(&mut path);
            path.append(c);
            assert(path@ =~= base + (category_param() + c@));
        },
        None => {
            assert(path@ =~= base + Seq::<char>::empty());
        },
    }
    localized_url(path.as_str(), config.default_locale.as_str(), config)
}

fn push_category_param(s: &mut String)
    ensures
        final(s)@ == old(s)@ + category_param(),
{
    crate::text::push_char(s, '?');
    crate::text::push_char(s, 'c');
    crate::text::push_char(s, 'a');
    crate::text::push_char(s, 't');
    crate::text::push_char(s, 'e');
    crate::text::push_char(s, 'g');
    crate::text::push_char(s, 'o');
    crate::text::push_char(s, 'r');
    crate::text::push_char(s, 'y');
    crate::text::push_char(s, '=');
    assert(final(s)@ =~= old(s)@ + category_param());
}

/// The URL that switches the current page to `locale`: the translated
/// content path when one is known, else the current URL.
pub fn language_url(current_url: &str, locale: &str, config: &BlogConfig) -> (r: String)
    ensures
        ({
            let i = find_language_path(config@.language_paths, locale@);
            let path = if i >= 0 {
                config@.language_paths[i].path
            } else {
                current_url@
            };
            r@ == localize(path, locale@, config@)
        }),
{
    let ghost ps = config@.language_paths;
    proof {
        lemma_find_language_path(ps, locale@);
    }
    let mut i: usize = 0;
    while i < config.language_paths.len()
        invariant
            i <= config.language_paths@.len(),
            ps == config@.language_paths,
            forall|j: int| 0 <= j < i ==> !eq_ic(#[trigger] ps[j].locale, locale@),
        decreases config.language_paths.len() - i,
    {
        if eq_ignore_case(config.language_paths[i].locale.as_str(), locale) {
            proof {
                lemma_find_language_path(ps, locale@);
                let k = find_language_path(ps, locale@);
                if k < 0 || k > i {
                    assert(!eq_ic(ps[i as int].locale, locale@));
                }
                if k < i {
                    assert(!eq_ic(ps[k].locale, locale@));
                }
            }
            return localized_url(config.language_paths[i].path.as_str(), locale, config);
        }
        i = i + 1;
    }
    proof {
        lemma_find_language_path(ps, locale@);
        let k = find_language_path(ps, locale@);
        if k >= 0 {
            assert(!eq_ic(ps[k].locale, locale@));
        }
    }
    localized_url(current_url, locale, config)
}

/// The overview URL filtered by `category`.
pub fn category_url(category: &str, config: &BlogConfig) -> (r: String)
    ensures
        r@ == localize(slash() + category_param() + category@, config.default_locale@, config@),
{
    let mut path = String::new();
    crate::text::push_char(&mut path, '/');
    push_category_param(&mut path);
    path.append(category);
    assert(path@ =~= slash() + category_param() + category@);
    localized_url(path.as_str(), config.default_locale.as_str(), config)
}

/// The version that public asset URLs carry.
pub open spec fn asset_version() -> Seq<char> {
    seq!['0', '.', '1', '.', '0']
}

pub open spec fn assets_dir() -> Seq<char> {
    seq!['/', 'p', '/', 'b', 'l', 'o', 'g', '/', 'a', 's', 's', 'e', 't', 's', '/']
}

/// Appends the asset version (the package version).
pub fn push_asset_version(s: &mut String)
    ensures
        final(s)@ == old(s)@ + asset_version(),
{
    crate::text::push_char(s, '0');
    crate::text::push_char(s, '.');
    crate::text::push_char(s, '1');
    crate::text::push_char(s, '.');
    crate::text::push_char(s, '0');
    assert(final(s)@ =~= old(s)@ + asset_version());
}

/// The versioned URL of a bundled asset.
pub fn asset_url(filename: &str) -> (r: String)
    ensures
        r@ == assets_dir() + filename@ + seq!['?', 'v', '='] + asset_version(),
{
    let mut r = String::new();
    let dir = chars_of("/p/blog/assets/");
    proof {
        reveal_strlit("/p/blog/assets/");
    }
    assert(dir@ =~= assets_dir());
    push_chars(&mut r, dir.as_slice());
    r.append(filename);
    crate::text::push_char(&mut r, '?');
    crate::text::push_char(&mut r, 'v');
    crate::text::push_char(&mut r, '=');
    push_asset_version(&mut r);
    assert(r@ =~= assets_dir() + filename@ + seq!['?', 'v', '='] + asset_version());
    r
}

/// The document title: the page title, followed by the site name unless
/// the page title is the site name.
pub open spec fn document_title_of(title: Seq<char>, site_name: Seq<char>) -> Seq<char> {
    if title == site_name {
        title
    } else {
        title + " · "@ + site_name
    }
}

/// The text of a page's `<title>` (see `document_title_of`).
pub fn document_title(title: &str, site_name: &str) -> (r: String)
    ensures
        r@ == document_title_of(title@, site_name@),
{
    let mut r = title.to_owned();
    if !crate::text::eq_chars(title, site_name) {
        r.append(" · ");
        r.append(site_name);
    }
    r
}

/// The favicon of the pages: the configured one, else the bundled icon.
pub fn favicon_href(config: &BlogConfig) -> (r: String)
    ensures
        r@ == match config.favicon_url {
            Some(u) => u@,
            None => assets_dir() + "favicon.svg"@ + seq!['?', 'v', '='] + asset_version(),
        },
{
    match &config.favicon_url {
        Some(u) => u.clone(),
        None => asset_url("favicon.svg"),
    }
}

/// Whether pages offer a language switcher: on multilingual sites with at
/// least two localizations.
pub fn shows_language_switcher(config: &BlogConfig) -> (r: bool)
    ensures
        r == (config.multilingual_enabled && config.localizations@.len() >= 2),
{
    config.multilingual_enabled && config.localizations.len() >= 2
}

/// What the search results area shows.
#[derive(Clone, Copy, Debug, PartialEq, Eq, Structural)]
pub enum SearchState {
    /// The term is shorter than two characters.
    TooShort,
    /// Nothing was found.
    NoResults,
    /// Exactly one hit.
    One,
    /// More than one hit.
    Many,
}

/// The state of the search results for a term and its number of hits.
pub fn search_state(query: &str, results: usize) -> (r: SearchState)
    ensures
        r == if query@.len() < 2 {
            SearchState::TooShort
        } else if results == 0 {
            SearchState::NoResults
        } else if results == 1 {
            SearchState::One
        } else {
            SearchState::Many
        },
{
    if query.unicode_len() < 2 {
        SearchState::TooShort
    } else if results == 0 {
        SearchState::NoResults
    } else if results == 1 {
        SearchState::One
    } else {
        SearchState::Many
    }
}

/// An entry of the pagination bar.
#[derive(Clone, Copy, Debug, PartialEq, Eq, Structural)]
pub enum PaginationItem {
    Page(usize),
    Ellipsis,
}

/// The page numbers that the pagination bar shows: the sorted distinct
/// numbers among 1, `total` and `current - 2 ..= current + 2`, clipped to
/// `1 ..= total`.
pub open spec fn shown_pages(current: int, total: int) -> Seq<int> {
    if total <= 0 {
        Seq::<int>::empty()
    } else {
        let start = if current - 2 > 1 { current - 2 } else { 1 };
        let end = if current + 2 < total { current + 2 } else { total };
        let lo = if start > 2 { start } else { 2 };
        let hi = if end < total - 1 { end } else { total - 1 };
        let middle = if lo <= hi {
            Seq::new((hi - lo + 1) as nat, |i: int| lo + i)
        } else {
            Seq::<int>::empty()
        };
        let last = if total > 1 { seq![total] } else { Seq::<int>::empty() };
        seq![1int] + middle + last
    }
}

/// What stands between two shown pages: the single missing page, or an
/// ellipsis for a longer gap.
pub open spec fn gap_items(prev: int, page: int) -> Seq<PaginationItem> {
    if page - prev == 2 {
        seq![PaginationItem::Page((prev + 1) as usize)]
    } else if page - prev > 2 {
        seq![PaginationItem::Ellipsis]
    } else {
        Seq::<PaginationItem>::empty()
    }
}

/// The pagination bar for an ascending list of shown pages.
pub open spec fn items_for(ps: Seq<int>) -> Seq<PaginationItem>
    decreases ps.len(),
{
    if ps.len() == 0 {
        Seq::<PaginationItem>::empty()
    } else if ps.len() == 1 {
        seq![PaginationItem::Page(ps[0] as usize)]
    } else {
        items_for(ps.drop_last()) + gap_items(ps[ps.len() - 2], ps.last()) + seq![
            PaginationItem::Page(ps.last() as usize),
        ]
    }
}

/// Every shown page has its entry in the bar, which starts with the first
/// and ends with the last shown page; a page entry is a shown page or the
/// single page between two shown ones.
proof fn lemma_items_for(ps: Seq<int>)
    requires
        forall|j: int| 0 <= j < ps.len() ==> 0 <= #[trigger] ps[j] <= usize::MAX,
        forall|a: int, b: int| 0 <= a < b < ps.len() ==> ps[a] < ps[b],
    ensures
        forall|j: int| 0 <= j < ps.len() ==> items_for(ps).contains(PaginationItem::Page(#[trigger] ps[j] as usize)),
        ps.len() > 0 ==> items_for(ps).len() > 0 && items_for(ps)[0] == PaginationItem::Page(ps[0] as usize)
            && items_for(ps).last() == PaginationItem::Page(ps.last() as usize),
        forall|k: int|
            0 <= k < items_for(ps).len() && #[trigger] items_for(ps)[k] is Page ==> ps.len() > 0 && ps[0]
                <= items_for(ps)[k]->Page_0 <= ps.last(),
    decreases ps.len(),
{
    if ps.len() > 1 {
        let q = ps.drop_last();
        lemma_items_for(q);
        let r = items_for(ps);
        let rq = items_for(q);
        let g = gap_items(ps[ps.len() - 2], ps.last());
        assert(r == rq + g + seq![PaginationItem::Page(ps.last() as usize)]);
        assert forall|j: int| 0 <= j < ps.len() implies r.contains(PaginationItem::Page(#[trigger] ps[j] as usize)) by {
            if j < q.len() {
                assert(q[j] == ps[j]);
                let k = choose|k: int| 0 <= k < rq.len() && rq[k] == PaginationItem::Page(q[j] as usize);
                assert(r[k] == rq[k]);
            } else {
                assert(r[r.len() - 1] == PaginationItem::Page(ps.last() as usize));
            }
        }
        assert(r[0] == rq[0]);
        assert forall|k: int| 0 <= k < r.len() && #[trigger] r[k] is Page implies ps.len() > 0 && ps[0]
            <= r[k]->Page_0 <= ps.last() by {
            assert(q[0] == ps[0]);
            assert(q.last() == ps[ps.len() - 2]);
            if k < rq.len() {
                assert(r[k] == rq[k]);
            } else if k < rq.len() + g.len() {
                assert(r[k] == g[k - rq.len()]);
            }
        }
    }
}

/// The pagination bar of an overview with pages: it starts with page 1,
/// ends with the last page, lists the current page and its two neighbours
/// on each side that exist, and names no page outside `1 ..= total`.
pub proof fn lemma_pagination_items(current: usize, total: usize)
    requires
        total > 0,
    ensures
        ({
            let r = items_for(shown_pages(current as int, total as int));
            &&& r.len() > 0
            &&& r[0] == PaginationItem::Page(1)
            &&& r.last() == PaginationItem::Page(total)
            &&& forall|p: usize|
                1 <= p <= total && current - 2 <= p <= current + 2 ==> #[trigger] r.contains(
                    PaginationItem::Page(p),
                )
            &&& forall|k: int| 0 <= k < r.len() && #[trigger] r[k] is Page ==> 1 <= r[k]->Page_0 <= total
        }),
{
    let ps = shown_pages(current as int, total as int);
    let start = if current - 2 > 1 { current - 2 } else { 1 };
    let end = if current + 2 < total { current + 2 } else { total as int };
    let lo = if start > 2 { start } else { 2 };
    let hi = if end < total - 1 { end } else { total - 1 };
    assert(forall|j: int| 0 <= j < ps.len() ==> 0 <= #[trigger] ps[j] <= usize::MAX);
    assert forall|a: int, b: int| 0 <= a < b < ps.len() implies ps[a] < ps[b] by {
    }
    lemma_items_for(ps);
    let r = items_for(ps);
    assert(ps[0] == 1);
    assert(ps.last() == total);
    assert forall|p: usize| 1 <= p <= total && current - 2 <= p <= current + 2 implies #[trigger] r.contains(
        PaginationItem::Page(p),
    ) by {
        if p == 1 {
            assert(ps[0] as usize == p);
        } else if p == total {
            assert(ps[ps.len() - 1] as usize == p);
        } else {
            assert(lo <= p <= hi);
            assert(ps[1 + (p - lo)] as usize == p);
        }
    }
}

/// The pagination bar: the first and last page, the current page with two
/// neighbours on each side, and an ellipsis for each longer gap.
pub fn pagination_items(current: usize, total: usize) -> (r: Vec<PaginationItem>)
    ensures
        r@ == items_for(shown_pages(current as int, total as int)),
{
    if total == 0 {
        let r: Vec<PaginationItem> = Vec::new();
        assert(r@ =~= items_for(shown_pages(current as int, total as int)));
        return r;
    }
    let start: usize = if current >= 3 { current - 2 } else { 1 };
    let end: usize = if current < total && total - current > 2 { current + 2 } else { total };
    let lo: usize = if start > 2 { start } else { 2 };
    let hi: usize = if end < total - 1 { end } else { total - 1 };
    let ghost spec_pages = shown_pages(current as int, total as int);
    let mut pages: Vec<usize> = Vec::new();
    pages.push(1);
    let mut k: usize = lo;
    while k <= hi
        invariant
            2 <= lo <= k,
            hi < total,
            k <= hi + 1 || k == lo,
            pages@.len() == 1 + (k - lo),
            pages@[0] == 1,
            forall|j: int| 1 <= j < pages@.len() ==> #[trigger] pages@[j] == lo + j - 1,
        decreases hi + 1 - k,
    {
        pages.push(k);
        k = k + 1;
    }
    if total > 1 {
        pages.push(total);
    }
    assert(pages@.len() == spec_pages.len());
    assert forall|j: int| 0 <= j < pages@.len() implies pages@[j] as int == spec_pages[j] by {
    }
    let mut items: Vec<PaginationItem> = Vec::new();
    items.push(PaginationItem::Page(pages[0]));
    let mut i: usize = 1;
    let ghost ps = spec_pages;
    assert(ps.take(1) =~= seq![ps[0]]);
    while i < pages.len()
        invariant
            1 <= i <= pages@.len(),
            pages@.len() == ps.len(),
            forall|j: int| 0 <= j < pages@.len() ==> pages@[j] as int == ps[j],
            forall|a: int, b: int| 0 <= a < b < pages@.len() ==> pages@[a] < pages@[b],
            items@ == items_for(ps.take(i as int)),
        decreases pages.len() - i,
    {
        let prev = pages[i - 1];
        let page = pages[i];
        assert(prev < page);
        assert(ps.take(i + 1).drop_last() =~= ps.take(i as int));
        if page - prev == 2 {
            items.push(PaginationItem::Page(prev + 1));
        } else if page - prev > 2 {
            items.push(PaginationItem::Ellipsis);
        }
        items.push(PaginationItem::Page(page));
        i = i + 1;
        assert(items@ =~= items_for(ps.take(i as int)));
    }
    assert(ps.take(ps.len() as int) =~= ps);
    items
}

} // verus!
