//! The HTML of the public pages, as maud writes it: every spliced text is
//! escaped, and only the CMS's own HTML (entry content) is inserted as it is.
//!
//! The fixed interface texts come in as plain strings (label structs) in the
//! active locale; a text with a number, title or query in it comes as the
//! parts before and after that value.
use crate::config::{opt_view as opt_string, is_slug_char, is_valid_slug, slash, BlogConfig, BlogConfigView, NavigationItem, NavigationView};
use crate::content::{
    author_line, author_line_of, media_url_of, name_part, nodes_have_html, nodes_html, ArticleList,
    Category, Entry, SearchResult, Tag,
};
use crate::http::Response;
use crate::markup::{escape, push_escaped};
use crate::request::opt_view;
use crate::routes::{html_response, page_position};
use crate::text::{contains_seq, lemma_contains_extend, lemma_contains_seq, starts_with, decimal, eq_chars, eq_ic, eq_ignore_case, push_char, push_decimal};
use crate::view::{
    asset_url, asset_version, assets_dir, category_param, category_url, document_title,
    document_title_of, favicon_href, find_language_path, items_for, language_url, lemma_locale_prefix, localize,
    localized_url, page_path, page_url, pagination_items, search_state, shown_pages,
    PaginationItem, SearchState,
};
use vstd::prelude::*;
use vstd::seq_lib::lemma_concat_associative;

verus! {

/// The interface texts of the pagination bar.
pub struct PaginationLabels {
    /// Its accessible name.
    pub label: String,
    /// The link to newer articles.
    pub newer: String,
    /// The link to older articles.
    pub older: String,
    /// The accessible name of the current page, before and after its number.
    pub current_before: String,
    pub current_after: String,
    /// The accessible name of a page link, before and after its number.
    pub go_to_before: String,
    pub go_to_after: String,
}

/// The interface texts of the search.
pub struct SearchLabels {
    pub label: String,
    pub title: String,
    pub description: String,
    /// The hint for a term shorter than two characters.
    pub minimum: String,
    pub searching: String,
    pub unavailable: String,
    pub close: String,
    /// The note that nothing was found, before and after the term.
    pub none_before: String,
    pub none_after: String,
    /// The count of a single hit.
    pub one: String,
    /// The count of several hits, before and after the number.
    pub many_before: String,
    pub many_after: String,
    /// The kinds of hits.
    pub article: String,
    pub page: String,
}

/// The interface texts of articles and pages.
pub struct ArticleLabels {
    /// The accessible name of the article list.
    pub latest: String,
    /// The note that there are no articles.
    pub empty: String,
    /// The title of an article without one.
    pub untitled: String,
    pub read: String,
    /// The accessible name of a preview image, before and after the title.
    pub read_named_before: String,
    pub read_named_after: String,
    /// The accessible name of the tag list.
    pub tags: String,
    /// The title of a page without one.
    pub page_untitled: String,
}

/// The interface texts of the page frame.
pub struct DocumentLabels {
    pub navigation: String,
    pub menu: String,
    pub language: String,
    pub categories: String,
    pub all_categories: String,
    /// The name of the active locale's language.
    pub active_language: String,
    /// The name of each website locale's language, in the order of the
    /// localizations (a missing name shows the locale code).
    pub language_names: Vec<String>,
    pub search: SearchLabels,
}

/// An optional element: `before`, the escaped value and `after`, or nothing.
pub open spec fn opt_markup(before: Seq<char>, value: Option<Seq<char>>, after: Seq<char>) -> Seq<char> {
    match value {
        Some(v) => before + escape(v) + after,
        None => Seq::<char>::empty(),
    }
}

fn push_opt(out: &mut String, before: &str, value: &Option<String>, after: &str)
    ensures
        final(out)@ == old(out)@ + opt_markup(before@, opt_string(*value), after@),
{
    match value {
        Some(v) => {
            let ghost start = out@;
            out.append(before);
            push_escaped(out, v.as_str());
            out.append(after);
            assert(out@ =~= start + opt_markup(before@, opt_string(*value), after@));
        },
        None => {
            assert(out@ =~= old(out)@ + opt_markup(before@, opt_string(*value), after@));
        },
    }
}

/// The publication date of an entry, for the browser to show in local time.
pub open spec fn time_markup(date: Option<Seq<char>>) -> Seq<char> {
    match date {
        Some(d) => "<time datetime=\""@ + escape(d) + "\" data-local-datetime=\"\">"@ + escape(d) + "</time>"@,
        None => Seq::<char>::empty(),
    }
}

fn push_time(out: &mut String, date: &Option<String>)
    ensures
        final(out)@ == old(out)@ + time_markup(opt_string(*date)),
{
    match date {
        Some(d) => {
            let ghost start = out@;
            out.append("<time datetime=\"");
            push_escaped(out, d.as_str());
            out.append("\" data-local-datetime=\"\">");
            push_escaped(out, d.as_str());
            out.append("</time>");
            assert(out@ =~= start + time_markup(opt_string(*date)));
        },
        None => {
            assert(out@ =~= old(out)@ + time_markup(opt_string(*date)));
        },
    }
}

/// The category name of an entry.
pub open spec fn category_name(e: Entry) -> Option<Seq<char>> {
    match e.category {
        Some(c) => Some(c.name@),
        None => None,
    }
}

/// The URL of an entry's media file.
pub open spec fn entry_media_url(e: Entry) -> Option<Seq<char>> {
    match e.media {
        Some(m) => media_url_of(m),
        None => None,
    }
}

/// The title of an entry, or `fallback` when it has none.
pub open spec fn entry_title(e: Entry, fallback: Seq<char>) -> Seq<char> {
    match e.title {
        Some(t) => if t@.len() > 0 {
            t@
        } else {
            fallback
        },
        None => fallback,
    }
}

/// The localized URL of overview page `n`, keeping the category filter.
pub open spec fn page_url_of(n: nat, c: BlogConfigView, category: Option<Seq<char>>) -> Seq<char> {
    localize(
        page_path(n) + match category {
            Some(k) => category_param() + k,
            None => Seq::<char>::empty(),
        },
        c.default_locale,
        c,
    )
}

/// The favicon URL of the pages.
pub open spec fn favicon_of(c: BlogConfigView) -> Seq<char> {
    match c.favicon_url {
        Some(u) => u,
        None => assets_dir() + "favicon.svg"@ + seq!['?', 'v', '='] + asset_version(),
    }
}

/// Where the language switcher leads for `locale`: the content's translation
/// path, else the current URL, localized.
pub open spec fn language_url_of(current: Seq<char>, locale: Seq<char>, c: BlogConfigView) -> Seq<char> {
    let i = find_language_path(c.language_paths, locale);
    localize(
        if i >= 0 {
            c.language_paths[i].path
        } else {
            current
        },
        locale,
        c,
    )
}

/// The localized URL of the home page.
fn home_url(config: &BlogConfig) -> (r: String)
    ensures
        r@ == localize(slash(), config@.default_locale, config@),
{
    let r = localized_url("/", config.default_locale.as_str(), config);
    proof {
        reveal_strlit("/");
        assert("/"@ =~= slash());
    }
    r
}

/// The search icon.
pub open spec fn search_icon_markup() -> Seq<char> {
    "<svg aria-hidden=\"true\" viewBox=\"0 0 24 24\"><circle cx=\"11\" cy=\"11\" r=\"7\"></circle><path d=\"m16 16 5 5\"></path></svg>"@
}

/// Appends `search_icon_markup`.
fn push_search_icon_markup(out: &mut String)
    ensures
        final(out)@ == old(out)@ + search_icon_markup(),
{
    let ghost start = out@;
    let ghost mut written = Seq::<char>::empty();
    let ghost step_1 = out@;
    out.append("<svg aria-hidden=\"true\" viewBox=\"0 0 24 24\"><circle cx=\"11\" cy=\"11\" r=\"7\"></circle><path d=\"m16 16 5 5\"></path></svg>");
    proof { written = "<svg aria-hidden=\"true\" viewBox=\"0 0 24 24\"><circle cx=\"11\" cy=\"11\" r=\"7\"></circle><path d=\"m16 16 5 5\"></path></svg>"@; }
    assert(out@ == start + written);
    assert(written == "<svg aria-hidden=\"true\" viewBox=\"0 0 24 24\"><circle cx=\"11\" cy=\"11\" r=\"7\"></circle><path d=\"m16 16 5 5\"></path></svg>"@);
    assert(out@ == start + search_icon_markup());
}

/// The language icon.
pub open spec fn language_icon_markup() -> Seq<char> {
    "<svg class=\"language-icon\" aria-hidden=\"true\" viewBox=\"0 0 24 24\"><circle cx=\"12\" cy=\"12\" r=\"9\"></circle><path d=\"M3 12h18M12 3c2.4 2.5 3.7 5.5 3.7 9S14.4 18.5 12 21M12 3c-2.4 2.5-3.7 5.5-3.7 9s1.3 6.5 3.7 9\"></path></svg>"@
}

/// Appends `language_icon_markup`.
fn push_language_icon_markup(out: &mut String)
    ensures
        final(out)@ == old(out)@ + language_icon_markup(),
{
    let ghost start = out@;
    let ghost mut written = Seq::<char>::empty();
    let ghost step_1 = out@;
    out.append("<svg class=\"language-icon\" aria-hidden=\"true\" viewBox=\"0 0 24 24\"><circle cx=\"12\" cy=\"12\" r=\"9\"></circle><path d=\"M3 12h18M12 3c2.4 2.5 3.7 5.5 3.7 9S14.4 18.5 12 21M12 3c-2.4 2.5-3.7 5.5-3.7 9s1.3 6.5 3.7 9\"></path></svg>");
    proof { written = "<svg class=\"language-icon\" aria-hidden=\"true\" viewBox=\"0 0 24 24\"><circle cx=\"12\" cy=\"12\" r=\"9\"></circle><path d=\"M3 12h18M12 3c2.4 2.5 3.7 5.5 3.7 9S14.4 18.5 12 21M12 3c-2.4 2.5-3.7 5.5-3.7 9s1.3 6.5 3.7 9\"></path></svg>"@; }
    assert(out@ == start + written);
    assert(written == "<svg class=\"language-icon\" aria-hidden=\"true\" viewBox=\"0 0 24 24\"><circle cx=\"12\" cy=\"12\" r=\"9\"></circle><path d=\"M3 12h18M12 3c2.4 2.5 3.7 5.5 3.7 9S14.4 18.5 12 21M12 3c-2.4 2.5-3.7 5.5-3.7 9s1.3 6.5 3.7 9\"></path></svg>"@);
    assert(out@ == start + language_icon_markup());
}

/// The category icon.
pub open spec fn category_icon_markup() -> Seq<char> {
    "<svg class=\"category-icon\" aria-hidden=\"true\" viewBox=\"0 0 24 24\"><path d=\"M4 5.5h6l2 2h8v11H4z\"></path></svg>"@
}

/// Appends `category_icon_markup`.
fn push_category_icon_markup(out: &mut String)
    ensures
        final(out)@ == old(out)@ + category_icon_markup(),
{
    let ghost start = out@;
    let ghost mut written = Seq::<char>::empty();
    let ghost step_1 = out@;
    out.append("<svg class=\"category-icon\" aria-hidden=\"true\" viewBox=\"0 0 24 24\"><path d=\"M4 5.5h6l2 2h8v11H4z\"></path></svg>");
    proof { written = "<svg class=\"category-icon\" aria-hidden=\"true\" viewBox=\"0 0 24 24\"><path d=\"M4 5.5h6l2 2h8v11H4z\"></path></svg>"@; }
    assert(out@ == start + written);
    assert(written == "<svg class=\"category-icon\" aria-hidden=\"true\" viewBox=\"0 0 24 24\"><path d=\"M4 5.5h6l2 2h8v11H4z\"></path></svg>"@);
    assert(out@ == start + category_icon_markup());
}

/// The menu icon.
pub open spec fn menu_icon_markup() -> Seq<char> {
    "<svg aria-hidden=\"true\" viewBox=\"0 0 24 24\"><path d=\"M4 7h16M4 12h16M4 17h16\"></path></svg>"@
}

/// Appends `menu_icon_markup`.
fn push_menu_icon_markup(out: &mut String)
    ensures
        final(out)@ == old(out)@ + menu_icon_markup(),
{
    let ghost start = out@;
    let ghost mut written = Seq::<char>::empty();
    let ghost step_1 = out@;
    out.append("<svg aria-hidden=\"true\" viewBox=\"0 0 24 24\"><path d=\"M4 7h16M4 12h16M4 17h16\"></path></svg>");
    proof { written = "<svg aria-hidden=\"true\" viewBox=\"0 0 24 24\"><path d=\"M4 7h16M4 12h16M4 17h16\"></path></svg>"@; }
    assert(out@ == start + written);
    assert(written == "<svg aria-hidden=\"true\" viewBox=\"0 0 24 24\"><path d=\"M4 7h16M4 12h16M4 17h16\"></path></svg>"@);
    assert(out@ == start + menu_icon_markup());
}

/// The hero without an index page: the site name and description.
pub open spec fn default_hero_markup(c: BlogConfigView) -> Seq<char> {
    "<section class=\"hero\"><div class=\"hero-body\"><p class=\"eyebrow\">"@ + escape(c.site_name) + "</p><h1>"@ + escape(c.site_description) + "</h1></div></section>"@
}

/// Appends `default_hero_markup`.
fn push_default_hero_markup(out: &mut String, config: &BlogConfig)
    ensures
        final(out)@ == old(out)@ + default_hero_markup(config@),
{
    let ghost c = config@;
    let ghost start = out@;
    let ghost mut written = Seq::<char>::empty();
    let ghost step_1 = out@;
    out.append("<section class=\"hero\"><div class=\"hero-body\"><p class=\"eyebrow\">");
    proof { written = "<section class=\"hero\"><div class=\"hero-body\"><p class=\"eyebrow\">"@; }
    assert(out@ == start + written);
    let ghost step_2 = out@;
    push_escaped(out, config.site_name.as_str());
    proof { lemma_concat_associative(start, written, escape(c.site_name)); written = written + escape(c.site_name); }
    assert(out@ == start + written);
    let ghost step_3 = out@;
    out.append("</p><h1>");
    proof { lemma_concat_associative(start, written, "</p><h1>"@); written = written + "</p><h1>"@; }
    assert(out@ == start + written);
    let ghost step_4 = out@;
    push_escaped(out, config.site_description.as_str());
    proof { lemma_concat_associative(start, written, escape(c.site_description)); written = written + escape(c.site_description); }
    assert(out@ == start + written);
    let ghost step_5 = out@;
    out.append("</h1></div></section>");
    proof { lemma_concat_associative(start, written, "</h1></div></section>"@); written = written + "</h1></div></section>"@; }
    assert(out@ == start + written);
    assert(written == "<section class=\"hero\"><div class=\"hero-body\"><p class=\"eyebrow\">"@ + escape(c.site_name) + "</p><h1>"@ + escape(c.site_description) + "</h1></div></section>"@);
    assert(out@ == start + default_hero_markup(config@));
}

/// The hero with the locale's index page: its media and its HTML.
pub open spec fn index_hero_markup(c: BlogConfigView, e: Entry) -> Seq<char> {
    "<section class=\"hero\">"@ + (opt_markup("<img class=\"hero-image\" src=\""@, entry_media_url(e), "\" alt=\"\">"@)) + "<div class=\"hero-body\"><p class=\"eyebrow\">"@ + escape(c.site_name) + "</p><h1>"@ + escape(c.site_description) + "</h1><div class=\"hero-copy\">"@ + (nodes_html(e.nodes@)) + "</div></div></section>"@
}

/// Appends `index_hero_markup`.
fn push_index_hero_markup(out: &mut String, config: &BlogConfig, entry: &Entry)
    ensures
        final(out)@ == old(out)@ + index_hero_markup(config@, *entry),
{
    let ghost c = config@;
    let ghost e = *entry;
    let media = entry.media_url();
    assert(opt_string(media) == entry_media_url(*entry));
    let ghost start = out@;
    let ghost mut written = Seq::<char>::empty();
    let ghost step_1 = out@;
    out.append("<section class=\"hero\">");
    proof { written = "<section class=\"hero\">"@; }
    assert(out@ == start + written);
    let ghost step_2 = out@;
    push_opt(out, "<img class=\"hero-image\" src=\"", &media, "\" alt=\"\">");
    proof { lemma_concat_associative(start, written, (opt_markup("<img class=\"hero-image\" src=\""@, entry_media_url(e), "\" alt=\"\">"@))); written = written + (opt_markup("<img class=\"hero-image\" src=\""@, entry_media_url(e), "\" alt=\"\">"@)); }
    assert(out@ == start + written);
    let ghost step_3 = out@;
    out.append("<div class=\"hero-body\"><p class=\"eyebrow\">");
    proof { lemma_concat_associative(start, written, "<div class=\"hero-body\"><p class=\"eyebrow\">"@); written = written + "<div class=\"hero-body\"><p class=\"eyebrow\">"@; }
    assert(out@ == start + written);
    let ghost step_4 = out@;
    push_escaped(out, config.site_name.as_str());
    proof { lemma_concat_associative(start, written, escape(c.site_name)); written = written + escape(c.site_name); }
    assert(out@ == start + written);
    let ghost step_5 = out@;
    out.append("</p><h1>");
    proof { lemma_concat_associative(start, written, "</p><h1>"@); written = written + "</p><h1>"@; }
    assert(out@ == start + written);
    let ghost step_6 = out@;
    push_escaped(out, config.site_description.as_str());
    proof { lemma_concat_associative(start, written, escape(c.site_description)); written = written + escape(c.site_description); }
    assert(out@ == start + written);
    let ghost step_7 = out@;
    out.append("</h1><div class=\"hero-copy\">");
    proof { lemma_concat_associative(start, written, "</h1><div class=\"hero-copy\">"@); written = written + "</h1><div class=\"hero-copy\">"@; }
    assert(out@ == start + written);
    let ghost step_8 = out@;
    entry.html().render_to(out);
    proof { lemma_concat_associative(start, written, (nodes_html(e.nodes@))); written = written + (nodes_html(e.nodes@)); }
    assert(out@ == start + written);
    let ghost step_9 = out@;
    out.append("</div></div></section>");
    proof { lemma_concat_associative(start, written, "</div></div></section>"@); written = written + "</div></div></section>"@; }
    assert(out@ == start + written);
    assert(written == "<section class=\"hero\">"@ + (opt_markup("<img class=\"hero-image\" src=\""@, entry_media_url(e), "\" alt=\"\">"@)) + "<div class=\"hero-body\"><p class=\"eyebrow\">"@ + escape(c.site_name) + "</p><h1>"@ + escape(c.site_description) + "</h1><div class=\"hero-copy\">"@ + (nodes_html(e.nodes@)) + "</div></div></section>"@);
    assert(out@ == start + index_hero_markup(config@, *entry));
}

/// An entry's metadata line: category, date and authors, when it has any.
pub open spec fn metadata_markup(e: Entry) -> Seq<char> {
    (if e.created_at is Some || e.category is Some || author_line_of(e.authors@).len() > 0 { "<p class=\"metadata\">"@ + (opt_markup("<span class=\"category\">"@, category_name(e), "</span>"@)) + (time_markup(opt_string(e.created_at))) + (if author_line_of(e.authors@).len() > 0 { "<span>"@ + escape(author_line_of(e.authors@)) + "</span>"@ } else { Seq::<char>::empty() }) + "</p>"@ } else { Seq::<char>::empty() })
}

/// Appends `metadata_markup`.
fn push_metadata_markup(out: &mut String, entry: &Entry)
    ensures
        final(out)@ == old(out)@ + metadata_markup(*entry),
{
    let ghost e = *entry;
    let authors = author_line(&entry.authors);
    let category: Option<String> = match &entry.category { Some(c) => Some(c.name.clone()), None => None };
    assert(opt_string(category) == category_name(*entry));
    let ghost start = out@;
    let ghost mut written = Seq::<char>::empty();
    let ghost step_1 = out@;
    if entry.created_at.is_some() || entry.category.is_some() || authors.unicode_len() > 0 {
        let ghost mut written_1 = Seq::<char>::empty();
        let ghost step_2 = out@;
        out.append("<p class=\"metadata\">");
        proof { written_1 = "<p class=\"metadata\">"@; }
        assert(out@ == step_1 + written_1);
        let ghost step_3 = out@;
        push_opt(out, "<span class=\"category\">", &category, "</span>");
        proof { lemma_concat_associative(step_1, written_1, (opt_markup("<span class=\"category\">"@, category_name(e), "</span>"@))); written_1 = written_1 + (opt_markup("<span class=\"category\">"@, category_name(e), "</span>"@)); }
        assert(out@ == step_1 + written_1);
        let ghost step_4 = out@;
        push_time(out, &entry.created_at);
        proof { lemma_concat_associative(step_1, written_1, (time_markup(opt_string(e.created_at)))); written_1 = written_1 + (time_markup(opt_string(e.created_at))); }
        assert(out@ == step_1 + written_1);
        let ghost step_5 = out@;
        if authors.unicode_len() > 0 {
            let ghost mut written_2 = Seq::<char>::empty();
            let ghost step_6 = out@;
            out.append("<span>");
            proof { written_2 = "<span>"@; }
            assert(out@ == step_5 + written_2);
            let ghost step_7 = out@;
            push_escaped(out, authors.as_str());
            proof { lemma_concat_associative(step_5, written_2, escape(author_line_of(e.authors@))); written_2 = written_2 + escape(author_line_of(e.authors@)); }
            assert(out@ == step_5 + written_2);
            let ghost step_8 = out@;
            out.append("</span>");
            proof { lemma_concat_associative(step_5, written_2, "</span>"@); written_2 = written_2 + "</span>"@; }
            assert(out@ == step_5 + written_2);
            assert(written_2 == "<span>"@ + escape(author_line_of(e.authors@)) + "</span>"@);
        } else {
            let ghost mut written_3 = Seq::<char>::empty();
            assert(out@ =~= step_5 + written_3);
            assert(written_3 == Seq::<char>::empty());
        }
        proof { lemma_concat_associative(step_1, written_1, (if author_line_of(e.authors@).len() > 0 { "<span>"@ + escape(author_line_of(e.authors@)) + "</span>"@ } else { Seq::<char>::empty() })); written_1 = written_1 + (if author_line_of(e.authors@).len() > 0 { "<span>"@ + escape(author_line_of(e.authors@)) + "</span>"@ } else { Seq::<char>::empty() }); }
        assert(out@ == step_1 + written_1);
        let ghost step_9 = out@;
        out.append("</p>");
        proof { lemma_concat_associative(step_1, written_1, "</p>"@); written_1 = written_1 + "</p>"@; }
        assert(out@ == step_1 + written_1);
        assert(written_1 == "<p class=\"metadata\">"@ + (opt_markup("<span class=\"category\">"@, category_name(e), "</span>"@)) + (time_markup(opt_string(e.created_at))) + (if author_line_of(e.authors@).len() > 0 { "<span>"@ + escape(author_line_of(e.authors@)) + "</span>"@ } else { Seq::<char>::empty() }) + "</p>"@);
    } else {
        let ghost mut written_4 = Seq::<char>::empty();
        assert(out@ =~= step_1 + written_4);
        assert(written_4 == Seq::<char>::empty());
    }
    proof { written = (if e.created_at is Some || e.category is Some || author_line_of(e.authors@).len() > 0 { "<p class=\"metadata\">"@ + (opt_markup("<span class=\"category\">"@, category_name(e), "</span>"@)) + (time_markup(opt_string(e.created_at))) + (if author_line_of(e.authors@).len() > 0 { "<span>"@ + escape(author_line_of(e.authors@)) + "</span>"@ } else { Seq::<char>::empty() }) + "</p>"@ } else { Seq::<char>::empty() }); }
    assert(out@ == start + written);
    assert(written == (if e.created_at is Some || e.category is Some || author_line_of(e.authors@).len() > 0 { "<p class=\"metadata\">"@ + (opt_markup("<span class=\"category\">"@, category_name(e), "</span>"@)) + (time_markup(opt_string(e.created_at))) + (if author_line_of(e.authors@).len() > 0 { "<span>"@ + escape(author_line_of(e.authors@)) + "</span>"@ } else { Seq::<char>::empty() }) + "</p>"@ } else { Seq::<char>::empty() }));
    assert(out@ == start + metadata_markup(*entry));
}

/// One tag.
pub open spec fn tag_item_markup(t: Tag) -> Seq<char> {
    "<li>"@ + escape(t.name@) + "</li>"@
}

/// Appends `tag_item_markup`.
fn push_tag_item_markup(out: &mut String, tag: &Tag)
    ensures
        final(out)@ == old(out)@ + tag_item_markup(*tag),
{
    let ghost t = *tag;
    let ghost start = out@;
    let ghost mut written = Seq::<char>::empty();
    let ghost step_1 = out@;
    out.append("<li>");
    proof { written = "<li>"@; }
    assert(out@ == start + written);
    let ghost step_2 = out@;
    push_escaped(out, tag.name.as_str());
    proof { lemma_concat_associative(start, written, escape(t.name@)); written = written + escape(t.name@); }
    assert(out@ == start + written);
    let ghost step_3 = out@;
    out.append("</li>");
    proof { lemma_concat_associative(start, written, "</li>"@); written = written + "</li>"@; }
    assert(out@ == start + written);
    assert(written == "<li>"@ + escape(t.name@) + "</li>"@);
    assert(out@ == start + tag_item_markup(*tag));
}

/// The tags, one list item each.
pub open spec fn tag_items_markup(s: Seq<Tag>) -> Seq<char>
    decreases s.len(),
{
    if s.len() == 0 {
        Seq::<char>::empty()
    } else {
        tag_items_markup(s.drop_last()) + tag_item_markup(s.last())
    }
}

fn push_tag_items_markup(out: &mut String, tags: &Vec<Tag>)
    ensures
        final(out)@ == old(out)@ + tag_items_markup(tags@),
{
    let ghost start = out@;
    let ghost s = tags@;
    let mut i: usize = 0;
    assert(s.take(0) =~= Seq::<Tag>::empty());
    while i < tags.len()
        invariant
            i <= s.len(),
            s == tags@,
            out@ == start + tag_items_markup(s.take(i as int)),
        decreases tags.len() - i,
    {
        assert(s.take(i + 1).drop_last() =~= s.take(i as int));
        assert(s.take(i + 1).last() == s[i as int]);
        push_tag_item_markup(out, &tags[i]);
        i = i + 1;
    }
    assert(s.take(s.len() as int) =~= s);
}

/// An entry's tag list, when it has tags.
pub open spec fn tags_markup(e: Entry, label_: Seq<char>) -> Seq<char> {
    (if e.tags@.len() > 0 { "<ul class=\"tag-list\" aria-label=\""@ + escape(label_) + "\">"@ + (tag_items_markup(e.tags@)) + "</ul>"@ } else { Seq::<char>::empty() })
}

/// Appends `tags_markup`.
fn push_tags_markup(out: &mut String, entry: &Entry, label: &str)
    ensures
        final(out)@ == old(out)@ + tags_markup(*entry, label@),
{
    let ghost e = *entry;
    let ghost label_ = label@;
    let ghost start = out@;
    let ghost mut written = Seq::<char>::empty();
    let ghost step_1 = out@;
    if entry.tags.len() > 0 {
        let ghost mut written_1 = Seq::<char>::empty();
        let ghost step_2 = out@;
        out.append("<ul class=\"tag-list\" aria-label=\"");
        proof { written_1 = "<ul class=\"tag-list\" aria-label=\""@; }
        assert(out@ == step_1 + written_1);
        let ghost step_3 = out@;
        push_escaped(out, label);
        proof { lemma_concat_associative(step_1, written_1, escape(label_)); written_1 = written_1 + escape(label_); }
        assert(out@ == step_1 + written_1);
        let ghost step_4 = out@;
        out.append("\">");
        proof { lemma_concat_associative(step_1, written_1, "\">"@); written_1 = written_1 + "\">"@; }
        assert(out@ == step_1 + written_1);
        let ghost step_5 = out@;
        push_tag_items_markup(out, &entry.tags);
        proof { lemma_concat_associative(step_1, written_1, (tag_items_markup(e.tags@))); written_1 = written_1 + (tag_items_markup(e.tags@)); }
        assert(out@ == step_1 + written_1);
        let ghost step_6 = out@;
        out.append("</ul>");
        proof { lemma_concat_associative(step_1, written_1, "</ul>"@); written_1 = written_1 + "</ul>"@; }
        assert(out@ == step_1 + written_1);
        assert(written_1 == "<ul class=\"tag-list\" aria-label=\""@ + escape(label_) + "\">"@ + (tag_items_markup(e.tags@)) + "</ul>"@);
    } else {
        let ghost mut written_2 = Seq::<char>::empty();
        assert(out@ =~= step_1 + written_2);
        assert(written_2 == Seq::<char>::empty());
    }
    proof { written = (if e.tags@.len() > 0 { "<ul class=\"tag-list\" aria-label=\""@ + escape(label_) + "\">"@ + (tag_items_markup(e.tags@)) + "</ul>"@ } else { Seq::<char>::empty() }); }
    assert(out@ == start + written);
    assert(written == (if e.tags@.len() > 0 { "<ul class=\"tag-list\" aria-label=\""@ + escape(label_) + "\">"@ + (tag_items_markup(e.tags@)) + "</ul>"@ } else { Seq::<char>::empty() }));
    assert(out@ == start + tags_markup(*entry, label@));
}

/// The entries of the pagination bar.
pub open spec fn pagination_items_markup(s: Seq<PaginationItem>, page: nat, c: BlogConfigView, category: Option<Seq<char>>, l: PaginationLabels) -> Seq<char>
    decreases s.len(),
{
    if s.len() == 0 {
        Seq::<char>::empty()
    } else {
        pagination_items_markup(s.drop_last(), page, c, category, l) + pagination_item_markup(s.last(), page, c, category, l)
    }
}

fn push_pagination_items_markup(out: &mut String, items: &Vec<PaginationItem>, page: usize, config: &BlogConfig, category: Option<&str>, labels: &PaginationLabels)
    ensures
        final(out)@ == old(out)@ + pagination_items_markup(items@, page as nat, config@, opt_view(category), *labels),
{
    let ghost start = out@;
    let ghost s = items@;
    let mut i: usize = 0;
    assert(s.take(0) =~= Seq::<PaginationItem>::empty());
    while i < items.len()
        invariant
            i <= s.len(),
            s == items@,
            out@ == start + pagination_items_markup(s.take(i as int), page as nat, config@, opt_view(category), *labels),
        decreases items.len() - i,
    {
        assert(s.take(i + 1).drop_last() =~= s.take(i as int));
        assert(s.take(i + 1).last() == s[i as int]);
        push_pagination_item_markup(out, &items[i], page, config, category, labels);
        i = i + 1;
    }
    assert(s.take(s.len() as int) =~= s);
}

/// The pagination bar of an overview: nothing for a single page; otherwise a navigation with a link to the newer page (from page 2 on), the entries of `pagination_items` and a link to the older page (before the last page).
pub open spec fn pagination_markup(page_: nat, total: nat, c: BlogConfigView, category_: Option<Seq<char>>, l: PaginationLabels) -> Seq<char> {
    (if total > 1 { "<nav class=\"pagination\" aria-label=\""@ + escape(l.label@) + "\">"@ + (if page_ > 1 { "<a class=\"pagination-newer\" href=\""@ + escape(page_url_of((page_ - 1) as nat, c, category_)) + "\">"@ + escape(l.newer@) + "</a>"@ } else { Seq::<char>::empty() }) + "<ol class=\"pagination-pages\">"@ + (pagination_items_markup(items_for(shown_pages(page_ as int, total as int)), page_, c, category_, l)) + "</ol>"@ + (if page_ < total { "<a class=\"pagination-older\" href=\""@ + escape(page_url_of((page_ + 1) as nat, c, category_)) + "\">"@ + escape(l.older@) + "</a>"@ } else { Seq::<char>::empty() }) + "</nav>"@ } else { Seq::<char>::empty() })
}

/// Appends `pagination_markup`.
fn push_pagination_markup(out: &mut String, page: usize, total_pages: usize, config: &BlogConfig, category: Option<&str>, labels: &PaginationLabels)
    ensures
        final(out)@ == old(out)@ + pagination_markup(page as nat, total_pages as nat, config@, opt_view(category), *labels),
{
    let ghost page_ = page as nat;
    let ghost total = total_pages as nat;
    let ghost c = config@;
    let ghost category_ = opt_view(category);
    let ghost l = *labels;
    let items = pagination_items(page, total_pages);
    let newer = if page > 1 { page_url(page - 1, config, category) } else { String::new() };
    let older = if page < total_pages { page_url(page + 1, config, category) } else { String::new() };
    let ghost start = out@;
    let ghost mut written = Seq::<char>::empty();
    let ghost step_1 = out@;
    if total_pages > 1 {
        let ghost mut written_1 = Seq::<char>::empty();
        let ghost step_2 = out@;
        out.append("<nav class=\"pagination\" aria-label=\"");
        proof { written_1 = "<nav class=\"pagination\" aria-label=\""@; }
        assert(out@ == step_1 + written_1);
        let ghost step_3 = out@;
        push_escaped(out, labels.label.as_str());
        proof { lemma_concat_associative(step_1, written_1, escape(l.label@)); written_1 = written_1 + escape(l.label@); }
        assert(out@ == step_1 + written_1);
        let ghost step_4 = out@;
        out.append("\">");
        proof { lemma_concat_associative(step_1, written_1, "\">"@); written_1 = written_1 + "\">"@; }
        assert(out@ == step_1 + written_1);
        let ghost step_5 = out@;
        if page > 1 {
            let ghost mut written_2 = Seq::<char>::empty();
            let ghost step_6 = out@;
            out.append("<a class=\"pagination-newer\" href=\"");
            proof { written_2 = "<a class=\"pagination-newer\" href=\""@; }
            assert(out@ == step_5 + written_2);
            let ghost step_7 = out@;
            push_escaped(out, newer.as_str());
            proof { lemma_concat_associative(step_5, written_2, escape(page_url_of((page_ - 1) as nat, c, category_))); written_2 = written_2 + escape(page_url_of((page_ - 1) as nat, c, category_)); }
            assert(out@ == step_5 + written_2);
            let ghost step_8 = out@;
            out.append("\">");
            proof { lemma_concat_associative(step_5, written_2, "\">"@); written_2 = written_2 + "\">"@; }
            assert(out@ == step_5 + written_2);
            let ghost step_9 = out@;
            push_escaped(out, labels.newer.as_str());
            proof { lemma_concat_associative(step_5, written_2, escape(l.newer@)); written_2 = written_2 + escape(l.newer@); }
            assert(out@ == step_5 + written_2);
            let ghost step_10 = out@;
            out.append("</a>");
            proof { lemma_concat_associative(step_5, written_2, "</a>"@); written_2 = written_2 + "</a>"@; }
            assert(out@ == step_5 + written_2);
            assert(written_2 == "<a class=\"pagination-newer\" href=\""@ + escape(page_url_of((page_ - 1) as nat, c, category_)) + "\">"@ + escape(l.newer@) + "</a>"@);
        } else {
            let ghost mut written_3 = Seq::<char>::empty();
            assert(out@ =~= step_5 + written_3);
            assert(written_3 == Seq::<char>::empty());
        }
        proof { lemma_concat_associative(step_1, written_1, (if page_ > 1 { "<a class=\"pagination-newer\" href=\""@ + escape(page_url_of((page_ - 1) as nat, c, category_)) + "\">"@ + escape(l.newer@) + "</a>"@ } else { Seq::<char>::empty() })); written_1 = written_1 + (if page_ > 1 { "<a class=\"pagination-newer\" href=\""@ + escape(page_url_of((page_ - 1) as nat, c, category_)) + "\">"@ + escape(l.newer@) + "</a>"@ } else { Seq::<char>::empty() }); }
        assert(out@ == step_1 + written_1);
        let ghost step_11 = out@;
        out.append("<ol class=\"pagination-pages\">");
        proof { lemma_concat_associative(step_1, written_1, "<ol class=\"pagination-pages\">"@); written_1 = written_1 + "<ol class=\"pagination-pages\">"@; }
        assert(out@ == step_1 + written_1);
        let ghost step_12 = out@;
        push_pagination_items_markup(out, &items, page, config, category, labels);
        proof { lemma_concat_associative(step_1, written_1, (pagination_items_markup(items_for(shown_pages(page_ as int, total as int)), page_, c, category_, l))); written_1 = written_1 + (pagination_items_markup(items_for(shown_pages(page_ as int, total as int)), page_, c, category_, l)); }
        assert(out@ == step_1 + written_1);
        let ghost step_13 = out@;
        out.append("</ol>");
        proof { lemma_concat_associative(step_1, written_1, "</ol>"@); written_1 = written_1 + "</ol>"@; }
        assert(out@ == step_1 + written_1);
        let ghost step_14 = out@;
        if page < total_pages {
            let ghost mut written_4 = Seq::<char>::empty();
            let ghost step_15 = out@;
            out.append("<a class=\"pagination-older\" href=\"");
            proof { written_4 = "<a class=\"pagination-older\" href=\""@; }
            assert(out@ == step_14 + written_4);
            let ghost step_16 = out@;
            push_escaped(out, older.as_str());
            proof { lemma_concat_associative(step_14, written_4, escape(page_url_of((page_ + 1) as nat, c, category_))); written_4 = written_4 + escape(page_url_of((page_ + 1) as nat, c, category_)); }
            assert(out@ == step_14 + written_4);
            let ghost step_17 = out@;
            out.append("\">");
            proof { lemma_concat_associative(step_14, written_4, "\">"@); written_4 = written_4 + "\">"@; }
            assert(out@ == step_14 + written_4);
            let ghost step_18 = out@;
            push_escaped(out, labels.older.as_str());
            proof { lemma_concat_associative(step_14, written_4, escape(l.older@)); written_4 = written_4 + escape(l.older@); }
            assert(out@ == step_14 + written_4);
            let ghost step_19 = out@;
            out.append("</a>");
            proof { lemma_concat_associative(step_14, written_4, "</a>"@); written_4 = written_4 + "</a>"@; }
            assert(out@ == step_14 + written_4);
            assert(written_4 == "<a class=\"pagination-older\" href=\""@ + escape(page_url_of((page_ + 1) as nat, c, category_)) + "\">"@ + escape(l.older@) + "</a>"@);
        } else {
            let ghost mut written_5 = Seq::<char>::empty();
            assert(out@ =~= step_14 + written_5);
            assert(written_5 == Seq::<char>::empty());
        }
        proof { lemma_concat_associative(step_1, written_1, (if page_ < total { "<a class=\"pagination-older\" href=\""@ + escape(page_url_of((page_ + 1) as nat, c, category_)) + "\">"@ + escape(l.older@) + "</a>"@ } else { Seq::<char>::empty() })); written_1 = written_1 + (if page_ < total { "<a class=\"pagination-older\" href=\""@ + escape(page_url_of((page_ + 1) as nat, c, category_)) + "\">"@ + escape(l.older@) + "</a>"@ } else { Seq::<char>::empty() }); }
        assert(out@ == step_1 + written_1);
        let ghost step_20 = out@;
        out.append("</nav>");
        proof { lemma_concat_associative(step_1, written_1, "</nav>"@); written_1 = written_1 + "</nav>"@; }
        assert(out@ == step_1 + written_1);
        assert(written_1 == "<nav class=\"pagination\" aria-label=\""@ + escape(l.label@) + "\">"@ + (if page_ > 1 { "<a class=\"pagination-newer\" href=\""@ + escape(page_url_of((page_ - 1) as nat, c, category_)) + "\">"@ + escape(l.newer@) + "</a>"@ } else { Seq::<char>::empty() }) + "<ol class=\"pagination-pages\">"@ + (pagination_items_markup(items_for(shown_pages(page_ as int, total as int)), page_, c, category_, l)) + "</ol>"@ + (if page_ < total { "<a class=\"pagination-older\" href=\""@ + escape(page_url_of((page_ + 1) as nat, c, category_)) + "\">"@ + escape(l.older@) + "</a>"@ } else { Seq::<char>::empty() }) + "</nav>"@);
    } else {
        let ghost mut written_6 = Seq::<char>::empty();
        assert(out@ =~= step_1 + written_6);
        assert(written_6 == Seq::<char>::empty());
    }
    proof { written = (if total > 1 { "<nav class=\"pagination\" aria-label=\""@ + escape(l.label@) + "\">"@ + (if page_ > 1 { "<a class=\"pagination-newer\" href=\""@ + escape(page_url_of((page_ - 1) as nat, c, category_)) + "\">"@ + escape(l.newer@) + "</a>"@ } else { Seq::<char>::empty() }) + "<ol class=\"pagination-pages\">"@ + (pagination_items_markup(items_for(shown_pages(page_ as int, total as int)), page_, c, category_, l)) + "</ol>"@ + (if page_ < total { "<a class=\"pagination-older\" href=\""@ + escape(page_url_of((page_ + 1) as nat, c, category_)) + "\">"@ + escape(l.older@) + "</a>"@ } else { Seq::<char>::empty() }) + "</nav>"@ } else { Seq::<char>::empty() }); }
    assert(out@ == start + written);
    assert(written == (if total > 1 { "<nav class=\"pagination\" aria-label=\""@ + escape(l.label@) + "\">"@ + (if page_ > 1 { "<a class=\"pagination-newer\" href=\""@ + escape(page_url_of((page_ - 1) as nat, c, category_)) + "\">"@ + escape(l.newer@) + "</a>"@ } else { Seq::<char>::empty() }) + "<ol class=\"pagination-pages\">"@ + (pagination_items_markup(items_for(shown_pages(page_ as int, total as int)), page_, c, category_, l)) + "</ol>"@ + (if page_ < total { "<a class=\"pagination-older\" href=\""@ + escape(page_url_of((page_ + 1) as nat, c, category_)) + "\">"@ + escape(l.older@) + "</a>"@ } else { Seq::<char>::empty() }) + "</nav>"@ } else { Seq::<char>::empty() }));
    assert(out@ == start + pagination_markup(page as nat, total_pages as nat, config@, opt_view(category), *labels));
}

/// One search hit: its localized link, its title and its kind.
pub open spec fn search_hit_markup(r: SearchResult, c: BlogConfigView, l: SearchLabels) -> Seq<char> {
    "<li><a href=\""@ + escape(localize(r.href@, c.default_locale, c)) + "\"><span>"@ + escape(r.title@) + "</span><small>"@ + (if r.article { escape(l.article@) } else { escape(l.page@) }) + "</small></a></li>"@
}

/// Appends `search_hit_markup`.
fn push_search_hit_markup(out: &mut String, result: &SearchResult, config: &BlogConfig, labels: &SearchLabels)
    ensures
        final(out)@ == old(out)@ + search_hit_markup(*result, config@, *labels),
{
    let ghost r = *result;
    let ghost c = config@;
    let ghost l = *labels;
    let href = localized_url(result.href.as_str(), config.default_locale.as_str(), config);
    let ghost start = out@;
    let ghost mut written = Seq::<char>::empty();
    let ghost step_1 = out@;
    out.append("<li><a href=\"");
    proof { written = "<li><a href=\""@; }
    assert(out@ == start + written);
    let ghost step_2 = out@;
    push_escaped(out, href.as_str());
    proof { lemma_concat_associative(start, written, escape(localize(r.href@, c.default_locale, c))); written = written + escape(localize(r.href@, c.default_locale, c)); }
    assert(out@ == start + written);
    let ghost step_3 = out@;
    out.append("\"><span>");
    proof { lemma_concat_associative(start, written, "\"><span>"@); written = written + "\"><span>"@; }
    assert(out@ == start + written);
    let ghost step_4 = out@;
    push_escaped(out, result.title.as_str());
    proof { lemma_concat_associative(start, written, escape(r.title@)); written = written + escape(r.title@); }
    assert(out@ == start + written);
    let ghost step_5 = out@;
    out.append("</span><small>");
    proof { lemma_concat_associative(start, written, "</span><small>"@); written = written + "</span><small>"@; }
    assert(out@ == start + written);
    let ghost step_6 = out@;
    if result.article {
        let ghost mut written_1 = Seq::<char>::empty();
        let ghost step_7 = out@;
        push_escaped(out, labels.article.as_str());
        proof { written_1 = escape(l.article@); }
        assert(out@ == step_6 + written_1);
        assert(written_1 == escape(l.article@));
    } else {
        let ghost mut written_2 = Seq::<char>::empty();
        let ghost step_8 = out@;
        push_escaped(out, labels.page.as_str());
        proof { written_2 = escape(l.page@); }
        assert(out@ == step_6 + written_2);
        assert(written_2 == escape(l.page@));
    }
    proof { lemma_concat_associative(start, written, (if r.article { escape(l.article@) } else { escape(l.page@) })); written = written + (if r.article { escape(l.article@) } else { escape(l.page@) }); }
    assert(out@ == start + written);
    let ghost step_9 = out@;
    out.append("</small></a></li>");
    proof { lemma_concat_associative(start, written, "</small></a></li>"@); written = written + "</small></a></li>"@; }
    assert(out@ == start + written);
    assert(written == "<li><a href=\""@ + escape(localize(r.href@, c.default_locale, c)) + "\"><span>"@ + escape(r.title@) + "</span><small>"@ + (if r.article { escape(l.article@) } else { escape(l.page@) }) + "</small></a></li>"@);
    assert(out@ == start + search_hit_markup(*result, config@, *labels));
}

/// The search hits, one list item each.
pub open spec fn search_hits_markup(s: Seq<SearchResult>, c: BlogConfigView, l: SearchLabels) -> Seq<char>
    decreases s.len(),
{
    if s.len() == 0 {
        Seq::<char>::empty()
    } else {
        search_hits_markup(s.drop_last(), c, l) + search_hit_markup(s.last(), c, l)
    }
}

fn push_search_hits_markup(out: &mut String, results: &[SearchResult], config: &BlogConfig, labels: &SearchLabels)
    ensures
        final(out)@ == old(out)@ + search_hits_markup(results@, config@, *labels),
{
    let ghost start = out@;
    let ghost s = results@;
    let mut i: usize = 0;
    assert(s.take(0) =~= Seq::<SearchResult>::empty());
    while i < results.len()
        invariant
            i <= s.len(),
            s == results@,
            out@ == start + search_hits_markup(s.take(i as int), config@, *labels),
        decreases results.len() - i,
    {
        assert(s.take(i + 1).drop_last() =~= s.take(i as int));
        assert(s.take(i + 1).last() == s[i as int]);
        push_search_hit_markup(out, &results[i], config, labels);
        i = i + 1;
    }
    assert(s.take(s.len() as int) =~= s);
}

/// The search results area: a hint for a term shorter than two characters, a note when nothing was found, else the number of hits and their list.
pub open spec fn search_results_markup(query_: Seq<char>, rs: Seq<SearchResult>, c: BlogConfigView, l: SearchLabels) -> Seq<char> {
    "<div class=\"search-results\">"@ + (if query_.len() < 2 { "<p class=\"search-state\">"@ + escape(l.minimum@) + "</p>"@ } else { (if rs.len() == 0 { "<p class=\"search-state\">"@ + escape(l.none_before@) + escape(query_) + escape(l.none_after@) + "</p>"@ } else { "<p class=\"search-count\">"@ + (if rs.len() == 1 { escape(l.one@) } else { escape(l.many_before@) + decimal((rs.len()) as nat) + escape(l.many_after@) }) + "</p><ul>"@ + (search_hits_markup(rs, c, l)) + "</ul>"@ }) }) + "</div>"@
}

/// Appends `search_results_markup`.
fn push_search_results_markup(out: &mut String, query: &str, results: &[SearchResult], config: &BlogConfig, labels: &SearchLabels)
    ensures
        final(out)@ == old(out)@ + search_results_markup(query@, results@, config@, *labels),
{
    let ghost query_ = query@;
    let ghost rs = results@;
    let ghost c = config@;
    let ghost l = *labels;
    let state = search_state(query, results.len());
    let ghost start = out@;
    let ghost mut written = Seq::<char>::empty();
    let ghost step_1 = out@;
    out.append("<div class=\"search-results\">");
    proof { written = "<div class=\"search-results\">"@; }
    assert(out@ == start + written);
    let ghost step_2 = out@;
    if state == SearchState::TooShort {
        let ghost mut written_1 = Seq::<char>::empty();
        let ghost step_3 = out@;
        out.append("<p class=\"search-state\">");
        proof { written_1 = "<p class=\"search-state\">"@; }
        assert(out@ == step_2 + written_1);
        let ghost step_4 = out@;
        push_escaped(out, labels.minimum.as_str());
        proof { lemma_concat_associative(step_2, written_1, escape(l.minimum@)); written_1 = written_1 + escape(l.minimum@); }
        assert(out@ == step_2 + written_1);
        let ghost step_5 = out@;
        out.append("</p>");
        proof { lemma_concat_associative(step_2, written_1, "</p>"@); written_1 = written_1 + "</p>"@; }
        assert(out@ == step_2 + written_1);
        assert(written_1 == "<p class=\"search-state\">"@ + escape(l.minimum@) + "</p>"@);
    } else {
        let ghost mut written_2 = Seq::<char>::empty();
        let ghost step_6 = out@;
        if results.len() == 0 {
            let ghost mut written_3 = Seq::<char>::empty();
            let ghost step_7 = out@;
            out.append("<p class=\"search-state\">");
            proof { written_3 = "<p class=\"search-state\">"@; }
            assert(out@ == step_6 + written_3);
            let ghost step_8 = out@;
            push_escaped(out, labels.none_before.as_str());
            proof { lemma_concat_associative(step_6, written_3, escape(l.none_before@)); written_3 = written_3 + escape(l.none_before@); }
            assert(out@ == step_6 + written_3);
            let ghost step_9 = out@;
            push_escaped(out, query);
            proof { lemma_concat_associative(step_6, written_3, escape(query_)); written_3 = written_3 + escape(query_); }
            assert(out@ == step_6 + written_3);
            let ghost step_10 = out@;
            push_escaped(out, labels.none_after.as_str());
            proof { lemma_concat_associative(step_6, written_3, escape(l.none_after@)); written_3 = written_3 + escape(l.none_after@); }
            assert(out@ == step_6 + written_3);
            let ghost step_11 = out@;
            out.append("</p>");
            proof { lemma_concat_associative(step_6, written_3, "</p>"@); written_3 = written_3 + "</p>"@; }
            assert(out@ == step_6 + written_3);
            assert(written_3 == "<p class=\"search-state\">"@ + escape(l.none_before@) + escape(query_) + escape(l.none_after@) + "</p>"@);
        } else {
            let ghost mut written_4 = Seq::<char>::empty();
            let ghost step_12 = out@;
            out.append("<p class=\"search-count\">");
            proof { written_4 = "<p class=\"search-count\">"@; }
            assert(out@ == step_6 + written_4);
            let ghost step_13 = out@;
            if results.len() == 1 {
                let ghost mut written_5 = Seq::<char>::empty();
                let ghost step_14 = out@;
                push_escaped(out, labels.one.as_str());
                proof { written_5 = escape(l.one@); }
                assert(out@ == step_13 + written_5);
                assert(written_5 == escape(l.one@));
            } else {
                let ghost mut written_6 = Seq::<char>::empty();
                let ghost step_15 = out@;
                push_escaped(out, labels.many_before.as_str());
                proof { written_6 = escape(l.many_before@); }
                assert(out@ == step_13 + written_6);
                let ghost step_16 = out@;
                push_decimal(out, results.len());
                proof { lemma_concat_associative(step_13, written_6, decimal((rs.len()) as nat)); written_6 = written_6 + decimal((rs.len()) as nat); }
                assert(out@ == step_13 + written_6);
                let ghost step_17 = out@;
                push_escaped(out, labels.many_after.as_str());
                proof { lemma_concat_associative(step_13, written_6, escape(l.many_after@)); written_6 = written_6 + escape(l.many_after@); }
                assert(out@ == step_13 + written_6);
                assert(written_6 == escape(l.many_before@) + decimal((rs.len()) as nat) + escape(l.many_after@));
            }
            proof { lemma_concat_associative(step_6, written_4, (if rs.len() == 1 { escape(l.one@) } else { escape(l.many_before@) + decimal((rs.len()) as nat) + escape(l.many_after@) })); written_4 = written_4 + (if rs.len() == 1 { escape(l.one@) } else { escape(l.many_before@) + decimal((rs.len()) as nat) + escape(l.many_after@) }); }
            assert(out@ == step_6 + written_4);
            let ghost step_18 = out@;
            out.append("</p><ul>");
            proof { lemma_concat_associative(step_6, written_4, "</p><ul>"@); written_4 = written_4 + "</p><ul>"@; }
            assert(out@ == step_6 + written_4);
            let ghost step_19 = out@;
            push_search_hits_markup(out, results, config, labels);
            proof { lemma_concat_associative(step_6, written_4, (search_hits_markup(rs, c, l))); written_4 = written_4 + (search_hits_markup(rs, c, l)); }
            assert(out@ == step_6 + written_4);
            let ghost step_20 = out@;
            out.append("</ul>");
            proof { lemma_concat_associative(step_6, written_4, "</ul>"@); written_4 = written_4 + "</ul>"@; }
            assert(out@ == step_6 + written_4);
            assert(written_4 == "<p class=\"search-count\">"@ + (if rs.len() == 1 { escape(l.one@) } else { escape(l.many_before@) + decimal((rs.len()) as nat) + escape(l.many_after@) }) + "</p><ul>"@ + (search_hits_markup(rs, c, l)) + "</ul>"@);
        }
        proof { written_2 = (if rs.len() == 0 { "<p class=\"search-state\">"@ + escape(l.none_before@) + escape(query_) + escape(l.none_after@) + "</p>"@ } else { "<p class=\"search-count\">"@ + (if rs.len() == 1 { escape(l.one@) } else { escape(l.many_before@) + decimal((rs.len()) as nat) + escape(l.many_after@) }) + "</p><ul>"@ + (search_hits_markup(rs, c, l)) + "</ul>"@ }); }
        assert(out@ == step_2 + written_2);
        assert(written_2 == (if rs.len() == 0 { "<p class=\"search-state\">"@ + escape(l.none_before@) + escape(query_) + escape(l.none_after@) + "</p>"@ } else { "<p class=\"search-count\">"@ + (if rs.len() == 1 { escape(l.one@) } else { escape(l.many_before@) + decimal((rs.len()) as nat) + escape(l.many_after@) }) + "</p><ul>"@ + (search_hits_markup(rs, c, l)) + "</ul>"@ }));
    }
    proof { lemma_concat_associative(start, written, (if query_.len() < 2 { "<p class=\"search-state\">"@ + escape(l.minimum@) + "</p>"@ } else { (if rs.len() == 0 { "<p class=\"search-state\">"@ + escape(l.none_before@) + escape(query_) + escape(l.none_after@) + "</p>"@ } else { "<p class=\"search-count\">"@ + (if rs.len() == 1 { escape(l.one@) } else { escape(l.many_before@) + decimal((rs.len()) as nat) + escape(l.many_after@) }) + "</p><ul>"@ + (search_hits_markup(rs, c, l)) + "</ul>"@ }) })); written = written + (if query_.len() < 2 { "<p class=\"search-state\">"@ + escape(l.minimum@) + "</p>"@ } else { (if rs.len() == 0 { "<p class=\"search-state\">"@ + escape(l.none_before@) + escape(query_) + escape(l.none_after@) + "</p>"@ } else { "<p class=\"search-count\">"@ + (if rs.len() == 1 { escape(l.one@) } else { escape(l.many_before@) + decimal((rs.len()) as nat) + escape(l.many_after@) }) + "</p><ul>"@ + (search_hits_markup(rs, c, l)) + "</ul>"@ }) }); }
    assert(out@ == start + written);
    let ghost step_21 = out@;
    out.append("</div>");
    proof { lemma_concat_associative(start, written, "</div>"@); written = written + "</div>"@; }
    assert(out@ == start + written);
    assert(written == "<div class=\"search-results\">"@ + (if query_.len() < 2 { "<p class=\"search-state\">"@ + escape(l.minimum@) + "</p>"@ } else { (if rs.len() == 0 { "<p class=\"search-state\">"@ + escape(l.none_before@) + escape(query_) + escape(l.none_after@) + "</p>"@ } else { "<p class=\"search-count\">"@ + (if rs.len() == 1 { escape(l.one@) } else { escape(l.many_before@) + decimal((rs.len()) as nat) + escape(l.many_after@) }) + "</p><ul>"@ + (search_hits_markup(rs, c, l)) + "</ul>"@ }) }) + "</div>"@);
    assert(out@ == start + search_results_markup(query@, results@, config@, *labels));
}

/// The search page: its form, which works without JavaScript, and the results.
pub open spec fn search_page_markup(query_: Seq<char>, rs: Seq<SearchResult>, c: BlogConfigView, l: SearchLabels) -> Seq<char> {
    "<section class=\"search-page\"><p class=\"eyebrow\">"@ + escape(l.label@) + "</p><h1>"@ + escape(l.title@) + "</h1><form class=\"search-page-form\" action=\""@ + escape(localize("/search"@, c.default_locale, c)) + "\" method=\"get\"><label class=\"visually-hidden\" for=\"search-page-input\">"@ + escape(l.description@) + "</label><input id=\"search-page-input\" type=\"search\" name=\"q\" value=\""@ + escape(query_) + "\" placeholder=\""@ + escape(l.description@) + "\" minlength=\"2\" maxlength=\"120\" required><button type=\"submit\">"@ + escape(l.label@) + "</button></form>"@ + (search_results_markup(query_, rs, c, l)) + "</section>"@
}

/// Appends `search_page_markup`.
fn push_search_page_markup(out: &mut String, query: &str, results: &[SearchResult], config: &BlogConfig, labels: &SearchLabels)
    ensures
        final(out)@ == old(out)@ + search_page_markup(query@, results@, config@, *labels),
{
    let ghost query_ = query@;
    let ghost rs = results@;
    let ghost c = config@;
    let ghost l = *labels;
    let action = localized_url("/search", config.default_locale.as_str(), config);
    let ghost start = out@;
    let ghost mut written = Seq::<char>::empty();
    let ghost step_1 = out@;
    out.append("<section class=\"search-page\"><p class=\"eyebrow\">");
    proof { written = "<section class=\"search-page\"><p class=\"eyebrow\">"@; }
    assert(out@ == start + written);
    let ghost step_2 = out@;
    push_escaped(out, labels.label.as_str());
    proof { lemma_concat_associative(start, written, escape(l.label@)); written = written + escape(l.label@); }
    assert(out@ == start + written);
    let ghost step_3 = out@;
    out.append("</p><h1>");
    proof { lemma_concat_associative(start, written, "</p><h1>"@); written = written + "</p><h1>"@; }
    assert(out@ == start + written);
    let ghost step_4 = out@;
    push_escaped(out, labels.title.as_str());
    proof { lemma_concat_associative(start, written, escape(l.title@)); written = written + escape(l.title@); }
    assert(out@ == start + written);
    let ghost step_5 = out@;
    out.append("</h1><form class=\"search-page-form\" action=\"");
    proof { lemma_concat_associative(start, written, "</h1><form class=\"search-page-form\" action=\""@); written = written + "</h1><form class=\"search-page-form\" action=\""@; }
    assert(out@ == start + written);
    let ghost step_6 = out@;
    push_escaped(out, action.as_str());
    proof { lemma_concat_associative(start, written, escape(localize("/search"@, c.default_locale, c))); written = written + escape(localize("/search"@, c.default_locale, c)); }
    assert(out@ == start + written);
    let ghost step_7 = out@;
    out.append("\" method=\"get\"><label class=\"visually-hidden\" for=\"search-page-input\">");
    proof { lemma_concat_associative(start, written, "\" method=\"get\"><label class=\"visually-hidden\" for=\"search-page-input\">"@); written = written + "\" method=\"get\"><label class=\"visually-hidden\" for=\"search-page-input\">"@; }
    assert(out@ == start + written);
    let ghost step_8 = out@;
    push_escaped(out, labels.description.as_str());
    proof { lemma_concat_associative(start, written, escape(l.description@)); written = written + escape(l.description@); }
    assert(out@ == start + written);
    let ghost step_9 = out@;
    out.append("</label><input id=\"search-page-input\" type=\"search\" name=\"q\" value=\"");
    proof { lemma_concat_associative(start, written, "</label><input id=\"search-page-input\" type=\"search\" name=\"q\" value=\""@); written = written + "</label><input id=\"search-page-input\" type=\"search\" name=\"q\" value=\""@; }
    assert(out@ == start + written);
    let ghost step_10 = out@;
    push_escaped(out, query);
    proof { lemma_concat_associative(start, written, escape(query_)); written = written + escape(query_); }
    assert(out@ == start + written);
    let ghost step_11 = out@;
    out.append("\" placeholder=\"");
    proof { lemma_concat_associative(start, written, "\" placeholder=\""@); written = written + "\" placeholder=\""@; }
    assert(out@ == start + written);
    let ghost step_12 = out@;
    push_escaped(out, labels.description.as_str());
    proof { lemma_concat_associative(start, written, escape(l.description@)); written = written + escape(l.description@); }
    assert(out@ == start + written);
    let ghost step_13 = out@;
    out.append("\" minlength=\"2\" maxlength=\"120\" required><button type=\"submit\">");
    proof { lemma_concat_associative(start, written, "\" minlength=\"2\" maxlength=\"120\" required><button type=\"submit\">"@); written = written + "\" minlength=\"2\" maxlength=\"120\" required><button type=\"submit\">"@; }
    assert(out@ == start + written);
    let ghost step_14 = out@;
    push_escaped(out, labels.label.as_str());
    proof { lemma_concat_associative(start, written, escape(l.label@)); written = written + escape(l.label@); }
    assert(out@ == start + written);
    let ghost step_15 = out@;
    out.append("</button></form>");
    proof { lemma_concat_associative(start, written, "</button></form>"@); written = written + "</button></form>"@; }
    assert(out@ == start + written);
    let ghost step_16 = out@;
    push_search_results_markup(out, query, results, config, labels);
    proof { lemma_concat_associative(start, written, (search_results_markup(query_, rs, c, l))); written = written + (search_results_markup(query_, rs, c, l)); }
    assert(out@ == start + written);
    let ghost step_17 = out@;
    out.append("</section>");
    proof { lemma_concat_associative(start, written, "</section>"@); written = written + "</section>"@; }
    assert(out@ == start + written);
    assert(written == "<section class=\"search-page\"><p class=\"eyebrow\">"@ + escape(l.label@) + "</p><h1>"@ + escape(l.title@) + "</h1><form class=\"search-page-form\" action=\""@ + escape(localize("/search"@, c.default_locale, c)) + "\" method=\"get\"><label class=\"visually-hidden\" for=\"search-page-input\">"@ + escape(l.description@) + "</label><input id=\"search-page-input\" type=\"search\" name=\"q\" value=\""@ + escape(query_) + "\" placeholder=\""@ + escape(l.description@) + "\" minlength=\"2\" maxlength=\"120\" required><button type=\"submit\">"@ + escape(l.label@) + "</button></form>"@ + (search_results_markup(query_, rs, c, l)) + "</section>"@);
    assert(out@ == start + search_page_markup(query@, results@, config@, *labels));
}

/// The link that opens the search dialog (and the search page without JavaScript).
pub open spec fn search_trigger_markup(c: BlogConfigView, l: SearchLabels) -> Seq<char> {
    "<a class=\"search-trigger\" href=\""@ + escape(localize("/search"@, c.default_locale, c)) + "\" data-search-open aria-haspopup=\"dialog\" aria-label=\""@ + escape(l.label@) + "\">"@ + (search_icon_markup()) + "<span>"@ + escape(l.label@) + "</span><kbd>⌘K</kbd></a>"@
}

/// Appends `search_trigger_markup`.
fn push_search_trigger_markup(out: &mut String, config: &BlogConfig, labels: &SearchLabels)
    ensures
        final(out)@ == old(out)@ + search_trigger_markup(config@, *labels),
{
    let ghost c = config@;
    let ghost l = *labels;
    let action = localized_url("/search", config.default_locale.as_str(), config);
    let ghost start = out@;
    let ghost mut written = Seq::<char>::empty();
    let ghost step_1 = out@;
    out.append("<a class=\"search-trigger\" href=\"");
    proof { written = "<a class=\"search-trigger\" href=\""@; }
    assert(out@ == start + written);
    let ghost step_2 = out@;
    push_escaped(out, action.as_str());
    proof { lemma_concat_associative(start, written, escape(localize("/search"@, c.default_locale, c))); written = written + escape(localize("/search"@, c.default_locale, c)); }
    assert(out@ == start + written);
    let ghost step_3 = out@;
    out.append("\" data-search-open aria-haspopup=\"dialog\" aria-label=\"");
    proof { lemma_concat_associative(start, written, "\" data-search-open aria-haspopup=\"dialog\" aria-label=\""@); written = written + "\" data-search-open aria-haspopup=\"dialog\" aria-label=\""@; }
    assert(out@ == start + written);
    let ghost step_4 = out@;
    push_escaped(out, labels.label.as_str());
    proof { lemma_concat_associative(start, written, escape(l.label@)); written = written + escape(l.label@); }
    assert(out@ == start + written);
    let ghost step_5 = out@;
    out.append("\">");
    proof { lemma_concat_associative(start, written, "\">"@); written = written + "\">"@; }
    assert(out@ == start + written);
    let ghost step_6 = out@;
    push_search_icon_markup(out);
    proof { lemma_concat_associative(start, written, (search_icon_markup())); written = written + (search_icon_markup()); }
    assert(out@ == start + written);
    let ghost step_7 = out@;
    out.append("<span>");
    proof { lemma_concat_associative(start, written, "<span>"@); written = written + "<span>"@; }
    assert(out@ == start + written);
    let ghost step_8 = out@;
    push_escaped(out, labels.label.as_str());
    proof { lemma_concat_associative(start, written, escape(l.label@)); written = written + escape(l.label@); }
    assert(out@ == start + written);
    let ghost step_9 = out@;
    out.append("</span><kbd>⌘K</kbd></a>");
    proof { lemma_concat_associative(start, written, "</span><kbd>⌘K</kbd></a>"@); written = written + "</span><kbd>⌘K</kbd></a>"@; }
    assert(out@ == start + written);
    assert(written == "<a class=\"search-trigger\" href=\""@ + escape(localize("/search"@, c.default_locale, c)) + "\" data-search-open aria-haspopup=\"dialog\" aria-label=\""@ + escape(l.label@) + "\">"@ + (search_icon_markup()) + "<span>"@ + escape(l.label@) + "</span><kbd>⌘K</kbd></a>"@);
    assert(out@ == start + search_trigger_markup(config@, *labels));
}

/// The keyboard-accessible search dialog.
pub open spec fn search_dialog_markup(c: BlogConfigView, l: SearchLabels) -> Seq<char> {
    "<dialog class=\"search-dialog\" id=\"search-dialog\" aria-label=\""@ + escape(l.label@) + "\" data-search-minimum=\""@ + escape(l.minimum@) + "\" data-search-searching=\""@ + escape(l.searching@) + "\" data-search-unavailable=\""@ + escape(l.unavailable@) + "\"><div class=\"search-panel\"><form class=\"search-modal-form\" action=\""@ + escape(localize("/search"@, c.default_locale, c)) + "\" method=\"get\">"@ + (search_icon_markup()) + "<label class=\"visually-hidden\" for=\"search-modal-input\">"@ + escape(l.description@) + "</label><input id=\"search-modal-input\" type=\"search\" name=\"q\" placeholder=\""@ + escape(l.description@) + "\" autocomplete=\"off\" minlength=\"2\" maxlength=\"120\" required><button class=\"search-close\" type=\"button\" data-search-close aria-label=\""@ + escape(l.close@) + "\">×</button></form><div class=\"search-modal-results\" aria-live=\"polite\"><p class=\"search-state\">"@ + escape(l.minimum@) + "</p></div><footer><span>"@ + escape(l.description@) + "</span><kbd>esc</kbd></footer></div></dialog>"@
}

/// Appends `search_dialog_markup`.
fn push_search_dialog_markup(out: &mut String, config: &BlogConfig, labels: &SearchLabels)
    ensures
        final(out)@ == old(out)@ + search_dialog_markup(config@, *labels),
{
    let ghost c = config@;
    let ghost l = *labels;
    let action = localized_url("/search", config.default_locale.as_str(), config);
    let ghost start = out@;
    let ghost mut written = Seq::<char>::empty();
    let ghost step_1 = out@;
    out.append("<dialog class=\"search-dialog\" id=\"search-dialog\" aria-label=\"");
    proof { written = "<dialog class=\"search-dialog\" id=\"search-dialog\" aria-label=\""@; }
    assert(out@ == start + written);
    let ghost step_2 = out@;
    push_escaped(out, labels.label.as_str());
    proof { lemma_concat_associative(start, written, escape(l.label@)); written = written + escape(l.label@); }
    assert(out@ == start + written);
    let ghost step_3 = out@;
    out.append("\" data-search-minimum=\"");
    proof { lemma_concat_associative(start, written, "\" data-search-minimum=\""@); written = written + "\" data-search-minimum=\""@; }
    assert(out@ == start + written);
    let ghost step_4 = out@;
    push_escaped(out, labels.minimum.as_str());
    proof { lemma_concat_associative(start, written, escape(l.minimum@)); written = written + escape(l.minimum@); }
    assert(out@ == start + written);
    let ghost step_5 = out@;
    out.append("\" data-search-searching=\"");
    proof { lemma_concat_associative(start, written, "\" data-search-searching=\""@); written = written + "\" data-search-searching=\""@; }
    assert(out@ == start + written);
    let ghost step_6 = out@;
    push_escaped(out, labels.searching.as_str());
    proof { lemma_concat_associative(start, written, escape(l.searching@)); written = written + escape(l.searching@); }
    assert(out@ == start + written);
    let ghost step_7 = out@;
    out.append("\" data-search-unavailable=\"");
    proof { lemma_concat_associative(start, written, "\" data-search-unavailable=\""@); written = written + "\" data-search-unavailable=\""@; }
    assert(out@ == start + written);
    let ghost step_8 = out@;
    push_escaped(out, labels.unavailable.as_str());
    proof { lemma_concat_associative(start, written, escape(l.unavailable@)); written = written + escape(l.unavailable@); }
    assert(out@ == start + written);
    let ghost step_9 = out@;
    out.append("\"><div class=\"search-panel\"><form class=\"search-modal-form\" action=\"");
    proof { lemma_concat_associative(start, written, "\"><div class=\"search-panel\"><form class=\"search-modal-form\" action=\""@); written = written + "\"><div class=\"search-panel\"><form class=\"search-modal-form\" action=\""@; }
    assert(out@ == start + written);
    let ghost step_10 = out@;
    push_escaped(out, action.as_str());
    proof { lemma_concat_associative(start, written, escape(localize("/search"@, c.default_locale, c))); written = written + escape(localize("/search"@, c.default_locale, c)); }
    assert(out@ == start + written);
    let ghost step_11 = out@;
    out.append("\" method=\"get\">");
    proof { lemma_concat_associative(start, written, "\" method=\"get\">"@); written = written + "\" method=\"get\">"@; }
    assert(out@ == start + written);
    let ghost step_12 = out@;
    push_search_icon_markup(out);
    proof { lemma_concat_associative(start, written, (search_icon_markup())); written = written + (search_icon_markup()); }
    assert(out@ == start + written);
    let ghost step_13 = out@;
    out.append("<label class=\"visually-hidden\" for=\"search-modal-input\">");
    proof { lemma_concat_associative(start, written, "<label class=\"visually-hidden\" for=\"search-modal-input\">"@); written = written + "<label class=\"visually-hidden\" for=\"search-modal-input\">"@; }
    assert(out@ == start + written);
    let ghost step_14 = out@;
    push_escaped(out, labels.description.as_str());
    proof { lemma_concat_associative(start, written, escape(l.description@)); written = written + escape(l.description@); }
    assert(out@ == start + written);
    let ghost step_15 = out@;
    out.append("</label><input id=\"search-modal-input\" type=\"search\" name=\"q\" placeholder=\"");
    proof { lemma_concat_associative(start, written, "</label><input id=\"search-modal-input\" type=\"search\" name=\"q\" placeholder=\""@); written = written + "</label><input id=\"search-modal-input\" type=\"search\" name=\"q\" placeholder=\""@; }
    assert(out@ == start + written);
    let ghost step_16 = out@;
    push_escaped(out, labels.description.as_str());
    proof { lemma_concat_associative(start, written, escape(l.description@)); written = written + escape(l.description@); }
    assert(out@ == start + written);
    let ghost step_17 = out@;
    out.append("\" autocomplete=\"off\" minlength=\"2\" maxlength=\"120\" required><button class=\"search-close\" type=\"button\" data-search-close aria-label=\"");
    proof { lemma_concat_associative(start, written, "\" autocomplete=\"off\" minlength=\"2\" maxlength=\"120\" required><button class=\"search-close\" type=\"button\" data-search-close aria-label=\""@); written = written + "\" autocomplete=\"off\" minlength=\"2\" maxlength=\"120\" required><button class=\"search-close\" type=\"button\" data-search-close aria-label=\""@; }
    assert(out@ == start + written);
    let ghost step_18 = out@;
    push_escaped(out, labels.close.as_str());
    proof { lemma_concat_associative(start, written, escape(l.close@)); written = written + escape(l.close@); }
    assert(out@ == start + written);
    let ghost step_19 = out@;
    out.append("\">×</button></form><div class=\"search-modal-results\" aria-live=\"polite\"><p class=\"search-state\">");
    proof { lemma_concat_associative(start, written, "\">×</button></form><div class=\"search-modal-results\" aria-live=\"polite\"><p class=\"search-state\">"@); written = written + "\">×</button></form><div class=\"search-modal-results\" aria-live=\"polite\"><p class=\"search-state\">"@; }
    assert(out@ == start + written);
    let ghost step_20 = out@;
    push_escaped(out, labels.minimum.as_str());
    proof { lemma_concat_associative(start, written, escape(l.minimum@)); written = written + escape(l.minimum@); }
    assert(out@ == start + written);
    let ghost step_21 = out@;
    out.append("</p></div><footer><span>");
    proof { lemma_concat_associative(start, written, "</p></div><footer><span>"@); written = written + "</p></div><footer><span>"@; }
    assert(out@ == start + written);
    let ghost step_22 = out@;
    push_escaped(out, labels.description.as_str());
    proof { lemma_concat_associative(start, written, escape(l.description@)); written = written + escape(l.description@); }
    assert(out@ == start + written);
    let ghost step_23 = out@;
    out.append("</span><kbd>esc</kbd></footer></div></dialog>");
    proof { lemma_concat_associative(start, written, "</span><kbd>esc</kbd></footer></div></dialog>"@); written = written + "</span><kbd>esc</kbd></footer></div></dialog>"@; }
    assert(out@ == start + written);
    assert(written == "<dialog class=\"search-dialog\" id=\"search-dialog\" aria-label=\""@ + escape(l.label@) + "\" data-search-minimum=\""@ + escape(l.minimum@) + "\" data-search-searching=\""@ + escape(l.searching@) + "\" data-search-unavailable=\""@ + escape(l.unavailable@) + "\"><div class=\"search-panel\"><form class=\"search-modal-form\" action=\""@ + escape(localize("/search"@, c.default_locale, c)) + "\" method=\"get\">"@ + (search_icon_markup()) + "<label class=\"visually-hidden\" for=\"search-modal-input\">"@ + escape(l.description@) + "</label><input id=\"search-modal-input\" type=\"search\" name=\"q\" placeholder=\""@ + escape(l.description@) + "\" autocomplete=\"off\" minlength=\"2\" maxlength=\"120\" required><button class=\"search-close\" type=\"button\" data-search-close aria-label=\""@ + escape(l.close@) + "\">×</button></form><div class=\"search-modal-results\" aria-live=\"polite\"><p class=\"search-state\">"@ + escape(l.minimum@) + "</p></div><footer><span>"@ + escape(l.description@) + "</span><kbd>esc</kbd></footer></div></dialog>"@);
    assert(out@ == start + search_dialog_markup(config@, *labels));
}

/// One category link with its article count; the active category is marked current.
pub open spec fn category_item_markup(k: Category, c: BlogConfigView) -> Seq<char> {
    "<li>"@ + (if c.active_category == Some(k.slug@) { "<a href=\""@ + escape(localize(slash() + category_param() + k.slug@, c.default_locale, c)) + "\" aria-current=\"page\">"@ } else { "<a href=\""@ + escape(localize(slash() + category_param() + k.slug@, c.default_locale, c)) + "\">"@ }) + "<span>"@ + escape(k.name@) + "</span><small>"@ + decimal((k.count) as nat) + "</small></a></li>"@
}

/// Appends `category_item_markup`.
fn push_category_item_markup(out: &mut String, category: &Category, config: &BlogConfig)
    ensures
        final(out)@ == old(out)@ + category_item_markup(*category, config@),
{
    let ghost k = *category;
    let ghost c = config@;
    let href = category_url(category.slug.as_str(), config);
    let active = match &config.active_category { Some(a) => eq_chars(a.as_str(), category.slug.as_str()), None => false };
    let ghost start = out@;
    let ghost mut written = Seq::<char>::empty();
    let ghost step_1 = out@;
    out.append("<li>");
    proof { written = "<li>"@; }
    assert(out@ == start + written);
    let ghost step_2 = out@;
    if active {
        let ghost mut written_1 = Seq::<char>::empty();
        let ghost step_3 = out@;
        out.append("<a href=\"");
        proof { written_1 = "<a href=\""@; }
        assert(out@ == step_2 + written_1);
        let ghost step_4 = out@;
        push_escaped(out, href.as_str());
        proof { lemma_concat_associative(step_2, written_1, escape(localize(slash() + category_param() + k.slug@, c.default_locale, c))); written_1 = written_1 + escape(localize(slash() + category_param() + k.slug@, c.default_locale, c)); }
        assert(out@ == step_2 + written_1);
        let ghost step_5 = out@;
        out.append("\" aria-current=\"page\">");
        proof { lemma_concat_associative(step_2, written_1, "\" aria-current=\"page\">"@); written_1 = written_1 + "\" aria-current=\"page\">"@; }
        assert(out@ == step_2 + written_1);
        assert(written_1 == "<a href=\""@ + escape(localize(slash() + category_param() + k.slug@, c.default_locale, c)) + "\" aria-current=\"page\">"@);
    } else {
        let ghost mut written_2 = Seq::<char>::empty();
        let ghost step_6 = out@;
        out.append("<a href=\"");
        proof { written_2 = "<a href=\""@; }
        assert(out@ == step_2 + written_2);
        let ghost step_7 = out@;
        push_escaped(out, href.as_str());
        proof { lemma_concat_associative(step_2, written_2, escape(localize(slash() + category_param() + k.slug@, c.default_locale, c))); written_2 = written_2 + escape(localize(slash() + category_param() + k.slug@, c.default_locale, c)); }
        assert(out@ == step_2 + written_2);
        let ghost step_8 = out@;
        out.append("\">");
        proof { lemma_concat_associative(step_2, written_2, "\">"@); written_2 = written_2 + "\">"@; }
        assert(out@ == step_2 + written_2);
        assert(written_2 == "<a href=\""@ + escape(localize(slash() + category_param() + k.slug@, c.default_locale, c)) + "\">"@);
    }
    proof { lemma_concat_associative(start, written, (if c.active_category == Some(k.slug@) { "<a href=\""@ + escape(localize(slash() + category_param() + k.slug@, c.default_locale, c)) + "\" aria-current=\"page\">"@ } else { "<a href=\""@ + escape(localize(slash() + category_param() + k.slug@, c.default_locale, c)) + "\">"@ })); written = written + (if c.active_category == Some(k.slug@) { "<a href=\""@ + escape(localize(slash() + category_param() + k.slug@, c.default_locale, c)) + "\" aria-current=\"page\">"@ } else { "<a href=\""@ + escape(localize(slash() + category_param() + k.slug@, c.default_locale, c)) + "\">"@ }); }
    assert(out@ == start + written);
    let ghost step_9 = out@;
    out.append("<span>");
    proof { lemma_concat_associative(start, written, "<span>"@); written = written + "<span>"@; }
    assert(out@ == start + written);
    let ghost step_10 = out@;
    push_escaped(out, category.name.as_str());
    proof { lemma_concat_associative(start, written, escape(k.name@)); written = written + escape(k.name@); }
    assert(out@ == start + written);
    let ghost step_11 = out@;
    out.append("</span><small>");
    proof { lemma_concat_associative(start, written, "</span><small>"@); written = written + "</span><small>"@; }
    assert(out@ == start + written);
    let ghost step_12 = out@;
    push_decimal(out, category.count);
    proof { lemma_concat_associative(start, written, decimal((k.count) as nat)); written = written + decimal((k.count) as nat); }
    assert(out@ == start + written);
    let ghost step_13 = out@;
    out.append("</small></a></li>");
    proof { lemma_concat_associative(start, written, "</small></a></li>"@); written = written + "</small></a></li>"@; }
    assert(out@ == start + written);
    assert(written == "<li>"@ + (if c.active_category == Some(k.slug@) { "<a href=\""@ + escape(localize(slash() + category_param() + k.slug@, c.default_locale, c)) + "\" aria-current=\"page\">"@ } else { "<a href=\""@ + escape(localize(slash() + category_param() + k.slug@, c.default_locale, c)) + "\">"@ }) + "<span>"@ + escape(k.name@) + "</span><small>"@ + decimal((k.count) as nat) + "</small></a></li>"@);
    assert(out@ == start + category_item_markup(*category, config@));
}

/// The category links.
pub open spec fn category_items_markup(s: Seq<Category>, c: BlogConfigView) -> Seq<char>
    decreases s.len(),
{
    if s.len() == 0 {
        Seq::<char>::empty()
    } else {
        category_items_markup(s.drop_last(), c) + category_item_markup(s.last(), c)
    }
}

fn push_category_items_markup(out: &mut String, categories: &[Category], config: &BlogConfig)
    ensures
        final(out)@ == old(out)@ + category_items_markup(categories@, config@),
{
    let ghost start = out@;
    let ghost s = categories@;
    let mut i: usize = 0;
    assert(s.take(0) =~= Seq::<Category>::empty());
    while i < categories.len()
        invariant
            i <= s.len(),
            s == categories@,
            out@ == start + category_items_markup(s.take(i as int), config@),
        decreases categories.len() - i,
    {
        assert(s.take(i + 1).drop_last() =~= s.take(i as int));
        assert(s.take(i + 1).last() == s[i as int]);
        push_category_item_markup(out, &categories[i], config);
        i = i + 1;
    }
    assert(s.take(s.len() as int) =~= s);
}

/// The category list: all articles (current without a filter), then each category.
pub open spec fn category_links_markup(ks: Seq<Category>, c: BlogConfigView, l: DocumentLabels) -> Seq<char> {
    "<ul class=\"category-list\"><li>"@ + (if c.active_category is None { "<a href=\""@ + escape(localize(slash(), c.default_locale, c)) + "\" aria-current=\"page\">"@ } else { "<a href=\""@ + escape(localize(slash(), c.default_locale, c)) + "\">"@ }) + "<span>"@ + escape(l.all_categories@) + "</span></a></li>"@ + (category_items_markup(ks, c)) + "</ul>"@
}

/// Appends `category_links_markup`.
fn push_category_links_markup(out: &mut String, categories: &[Category], config: &BlogConfig, labels: &DocumentLabels)
    ensures
        final(out)@ == old(out)@ + category_links_markup(categories@, config@, *labels),
{
    let ghost ks = categories@;
    let ghost c = config@;
    let ghost l = *labels;
    let home = home_url(config);
    let ghost start = out@;
    let ghost mut written = Seq::<char>::empty();
    let ghost step_1 = out@;
    out.append("<ul class=\"category-list\"><li>");
    proof { written = "<ul class=\"category-list\"><li>"@; }
    assert(out@ == start + written);
    let ghost step_2 = out@;
    if config.active_category.is_none() {
        let ghost mut written_1 = Seq::<char>::empty();
        let ghost step_3 = out@;
        out.append("<a href=\"");
        proof { written_1 = "<a href=\""@; }
        assert(out@ == step_2 + written_1);
        let ghost step_4 = out@;
        push_escaped(out, home.as_str());
        proof { lemma_concat_associative(step_2, written_1, escape(localize(slash(), c.default_locale, c))); written_1 = written_1 + escape(localize(slash(), c.default_locale, c)); }
        assert(out@ == step_2 + written_1);
        let ghost step_5 = out@;
        out.append("\" aria-current=\"page\">");
        proof { lemma_concat_associative(step_2, written_1, "\" aria-current=\"page\">"@); written_1 = written_1 + "\" aria-current=\"page\">"@; }
        assert(out@ == step_2 + written_1);
        assert(written_1 == "<a href=\""@ + escape(localize(slash(), c.default_locale, c)) + "\" aria-current=\"page\">"@);
    } else {
        let ghost mut written_2 = Seq::<char>::empty();
        let ghost step_6 = out@;
        out.append("<a href=\"");
        proof { written_2 = "<a href=\""@; }
        assert(out@ == step_2 + written_2);
        let ghost step_7 = out@;
        push_escaped(out, home.as_str());
        proof { lemma_concat_associative(step_2, written_2, escape(localize(slash(), c.default_locale, c))); written_2 = written_2 + escape(localize(slash(), c.default_locale, c)); }
        assert(out@ == step_2 + written_2);
        let ghost step_8 = out@;
        out.append("\">");
        proof { lemma_concat_associative(step_2, written_2, "\">"@); written_2 = written_2 + "\">"@; }
        assert(out@ == step_2 + written_2);
        assert(written_2 == "<a href=\""@ + escape(localize(slash(), c.default_locale, c)) + "\">"@);
    }
    proof { lemma_concat_associative(start, written, (if c.active_category is None { "<a href=\""@ + escape(localize(slash(), c.default_locale, c)) + "\" aria-current=\"page\">"@ } else { "<a href=\""@ + escape(localize(slash(), c.default_locale, c)) + "\">"@ })); written = written + (if c.active_category is None { "<a href=\""@ + escape(localize(slash(), c.default_locale, c)) + "\" aria-current=\"page\">"@ } else { "<a href=\""@ + escape(localize(slash(), c.default_locale, c)) + "\">"@ }); }
    assert(out@ == start + written);
    let ghost step_9 = out@;
    out.append("<span>");
    proof { lemma_concat_associative(start, written, "<span>"@); written = written + "<span>"@; }
    assert(out@ == start + written);
    let ghost step_10 = out@;
    push_escaped(out, labels.all_categories.as_str());
    proof { lemma_concat_associative(start, written, escape(l.all_categories@)); written = written + escape(l.all_categories@); }
    assert(out@ == start + written);
    let ghost step_11 = out@;
    out.append("</span></a></li>");
    proof { lemma_concat_associative(start, written, "</span></a></li>"@); written = written + "</span></a></li>"@; }
    assert(out@ == start + written);
    let ghost step_12 = out@;
    push_category_items_markup(out, categories, config);
    proof { lemma_concat_associative(start, written, (category_items_markup(ks, c))); written = written + (category_items_markup(ks, c)); }
    assert(out@ == start + written);
    let ghost step_13 = out@;
    out.append("</ul>");
    proof { lemma_concat_associative(start, written, "</ul>"@); written = written + "</ul>"@; }
    assert(out@ == start + written);
    assert(written == "<ul class=\"category-list\"><li>"@ + (if c.active_category is None { "<a href=\""@ + escape(localize(slash(), c.default_locale, c)) + "\" aria-current=\"page\">"@ } else { "<a href=\""@ + escape(localize(slash(), c.default_locale, c)) + "\">"@ }) + "<span>"@ + escape(l.all_categories@) + "</span></a></li>"@ + (category_items_markup(ks, c)) + "</ul>"@);
    assert(out@ == start + category_links_markup(categories@, config@, *labels));
}

/// The category navigation of the sidebar, when there are categories.
pub open spec fn sidebar_categories_markup(ks: Seq<Category>, c: BlogConfigView, l: DocumentLabels) -> Seq<char> {
    (if ks.len() > 0 { "<section class=\"sidebar-categories\"><h2>"@ + escape(l.categories@) + "</h2>"@ + (category_links_markup(ks, c, l)) + "</section>"@ } else { Seq::<char>::empty() })
}

/// Appends `sidebar_categories_markup`.
fn push_sidebar_categories_markup(out: &mut String, categories: &[Category], config: &BlogConfig, labels: &DocumentLabels)
    ensures
        final(out)@ == old(out)@ + sidebar_categories_markup(categories@, config@, *labels),
{
    let ghost ks = categories@;
    let ghost c = config@;
    let ghost l = *labels;
    let ghost start = out@;
    let ghost mut written = Seq::<char>::empty();
    let ghost step_1 = out@;
    if categories.len() > 0 {
        let ghost mut written_1 = Seq::<char>::empty();
        let ghost step_2 = out@;
        out.append("<section class=\"sidebar-categories\"><h2>");
        proof { written_1 = "<section class=\"sidebar-categories\"><h2>"@; }
        assert(out@ == step_1 + written_1);
        let ghost step_3 = out@;
        push_escaped(out, labels.categories.as_str());
        proof { lemma_concat_associative(step_1, written_1, escape(l.categories@)); written_1 = written_1 + escape(l.categories@); }
        assert(out@ == step_1 + written_1);
        let ghost step_4 = out@;
        out.append("</h2>");
        proof { lemma_concat_associative(step_1, written_1, "</h2>"@); written_1 = written_1 + "</h2>"@; }
        assert(out@ == step_1 + written_1);
        let ghost step_5 = out@;
        push_category_links_markup(out, categories, config, labels);
        proof { lemma_concat_associative(step_1, written_1, (category_links_markup(ks, c, l))); written_1 = written_1 + (category_links_markup(ks, c, l)); }
        assert(out@ == step_1 + written_1);
        let ghost step_6 = out@;
        out.append("</section>");
        proof { lemma_concat_associative(step_1, written_1, "</section>"@); written_1 = written_1 + "</section>"@; }
        assert(out@ == step_1 + written_1);
        assert(written_1 == "<section class=\"sidebar-categories\"><h2>"@ + escape(l.categories@) + "</h2>"@ + (category_links_markup(ks, c, l)) + "</section>"@);
    } else {
        let ghost mut written_2 = Seq::<char>::empty();
        assert(out@ =~= step_1 + written_2);
        assert(written_2 == Seq::<char>::empty());
    }
    proof { written = (if ks.len() > 0 { "<section class=\"sidebar-categories\"><h2>"@ + escape(l.categories@) + "</h2>"@ + (category_links_markup(ks, c, l)) + "</section>"@ } else { Seq::<char>::empty() }); }
    assert(out@ == start + written);
    assert(written == (if ks.len() > 0 { "<section class=\"sidebar-categories\"><h2>"@ + escape(l.categories@) + "</h2>"@ + (category_links_markup(ks, c, l)) + "</section>"@ } else { Seq::<char>::empty() }));
    assert(out@ == start + sidebar_categories_markup(categories@, config@, *labels));
}

/// The category dropdown of the mobile menu, when there are categories.
pub open spec fn mobile_categories_markup(ks: Seq<Category>, c: BlogConfigView, l: DocumentLabels) -> Seq<char> {
    (if ks.len() > 0 { "<details class=\"mobile-categories\"><summary>"@ + (category_icon_markup()) + escape(l.categories@) + "</summary>"@ + (category_links_markup(ks, c, l)) + "</details>"@ } else { Seq::<char>::empty() })
}

/// Appends `mobile_categories_markup`.
fn push_mobile_categories_markup(out: &mut String, categories: &[Category], config: &BlogConfig, labels: &DocumentLabels)
    ensures
        final(out)@ == old(out)@ + mobile_categories_markup(categories@, config@, *labels),
{
    let ghost ks = categories@;
    let ghost c = config@;
    let ghost l = *labels;
    let ghost start = out@;
    let ghost mut written = Seq::<char>::empty();
    let ghost step_1 = out@;
    if categories.len() > 0 {
        let ghost mut written_1 = Seq::<char>::empty();
        let ghost step_2 = out@;
        out.append("<details class=\"mobile-categories\"><summary>");
        proof { written_1 = "<details class=\"mobile-categories\"><summary>"@; }
        assert(out@ == step_1 + written_1);
        let ghost step_3 = out@;
        push_category_icon_markup(out);
        proof { lemma_concat_associative(step_1, written_1, (category_icon_markup())); written_1 = written_1 + (category_icon_markup()); }
        assert(out@ == step_1 + written_1);
        let ghost step_4 = out@;
        push_escaped(out, labels.categories.as_str());
        proof { lemma_concat_associative(step_1, written_1, escape(l.categories@)); written_1 = written_1 + escape(l.categories@); }
        assert(out@ == step_1 + written_1);
        let ghost step_5 = out@;
        out.append("</summary>");
        proof { lemma_concat_associative(step_1, written_1, "</summary>"@); written_1 = written_1 + "</summary>"@; }
        assert(out@ == step_1 + written_1);
        let ghost step_6 = out@;
        push_category_links_markup(out, categories, config, labels);
        proof { lemma_concat_associative(step_1, written_1, (category_links_markup(ks, c, l))); written_1 = written_1 + (category_links_markup(ks, c, l)); }
        assert(out@ == step_1 + written_1);
        let ghost step_7 = out@;
        out.append("</details>");
        proof { lemma_concat_associative(step_1, written_1, "</details>"@); written_1 = written_1 + "</details>"@; }
        assert(out@ == step_1 + written_1);
        assert(written_1 == "<details class=\"mobile-categories\"><summary>"@ + (category_icon_markup()) + escape(l.categories@) + "</summary>"@ + (category_links_markup(ks, c, l)) + "</details>"@);
    } else {
        let ghost mut written_2 = Seq::<char>::empty();
        assert(out@ =~= step_1 + written_2);
        assert(written_2 == Seq::<char>::empty());
    }
    proof { written = (if ks.len() > 0 { "<details class=\"mobile-categories\"><summary>"@ + (category_icon_markup()) + escape(l.categories@) + "</summary>"@ + (category_links_markup(ks, c, l)) + "</details>"@ } else { Seq::<char>::empty() }); }
    assert(out@ == start + written);
    assert(written == (if ks.len() > 0 { "<details class=\"mobile-categories\"><summary>"@ + (category_icon_markup()) + escape(l.categories@) + "</summary>"@ + (category_links_markup(ks, c, l)) + "</details>"@ } else { Seq::<char>::empty() }));
    assert(out@ == start + mobile_categories_markup(categories@, config@, *labels));
}

/// One navigation link, localized.
pub open spec fn nav_link_markup(n: NavigationView, c: BlogConfigView) -> Seq<char> {
    "<a href=\""@ + escape(localize(n.href, c.default_locale, c)) + "\">"@ + escape(n.label) + "</a>"@
}

/// Appends `nav_link_markup`.
fn push_nav_link_markup(out: &mut String, item: &NavigationItem, config: &BlogConfig)
    ensures
        final(out)@ == old(out)@ + nav_link_markup(item@, config@),
{
    let ghost n = item@;
    let ghost c = config@;
    let href = localized_url(item.href.as_str(), config.default_locale.as_str(), config);
    let ghost start = out@;
    let ghost mut written = Seq::<char>::empty();
    let ghost step_1 = out@;
    out.append("<a href=\"");
    proof { written = "<a href=\""@; }
    assert(out@ == start + written);
    let ghost step_2 = out@;
    push_escaped(out, href.as_str());
    proof { lemma_concat_associative(start, written, escape(localize(n.href, c.default_locale, c))); written = written + escape(localize(n.href, c.default_locale, c)); }
    assert(out@ == start + written);
    let ghost step_3 = out@;
    out.append("\">");
    proof { lemma_concat_associative(start, written, "\">"@); written = written + "\">"@; }
    assert(out@ == start + written);
    let ghost step_4 = out@;
    push_escaped(out, item.label.as_str());
    proof { lemma_concat_associative(start, written, escape(n.label)); written = written + escape(n.label); }
    assert(out@ == start + written);
    let ghost step_5 = out@;
    out.append("</a>");
    proof { lemma_concat_associative(start, written, "</a>"@); written = written + "</a>"@; }
    assert(out@ == start + written);
    assert(written == "<a href=\""@ + escape(localize(n.href, c.default_locale, c)) + "\">"@ + escape(n.label) + "</a>"@);
    assert(out@ == start + nav_link_markup(item@, config@));
}

/// The preview of an article on an overview page.
pub open spec fn article_card_markup(e: Entry, c: BlogConfigView, l: ArticleLabels) -> Seq<char> {
    let t = entry_title(e, l.untitled@);
    let h = localize(slash() + c.article_type + slash() + name_part(e.slug), c.default_locale, c);
    "<article class=\"article-card\">"@ + (if entry_media_url(e) is Some { "<a class=\"article-card-image\" href=\""@ + escape(h) + "\" aria-label=\""@ + escape(l.read_named_before@) + escape(t) + escape(l.read_named_after@) + "\">"@ + (opt_markup("<img src=\""@, entry_media_url(e), "\" alt=\"\" loading=\"lazy\">"@)) + "</a>"@ } else { Seq::<char>::empty() }) + "<div class=\"article-card-body\">"@ + (metadata_markup(e)) + "<h2><a href=\""@ + escape(h) + "\">"@ + escape(t) + "</a></h2>"@ + (if nodes_have_html(e.nodes@) { "<div class=\"article-summary\">"@ + (nodes_html(e.nodes@)) + "</div>"@ } else { Seq::<char>::empty() }) + "<a class=\"read-more\" href=\""@ + escape(h) + "\">"@ + escape(l.read@) + "<span aria-hidden=\"true\"> →</span></a></div></article>"@
}

/// Appends `article_card_markup`.
fn push_article_card_markup(out: &mut String, entry: &Entry, config: &BlogConfig, labels: &ArticleLabels)
    ensures
        final(out)@ == old(out)@ + article_card_markup(*entry, config@, *labels),
{
    let ghost e = *entry;
    let ghost c = config@;
    let ghost l = *labels;
    let ghost t = entry_title(e, l.untitled@);
    let ghost h = localize(slash() + c.article_type + slash() + name_part(e.slug), c.default_locale, c);
    let media = entry.media_url();
    assert(opt_string(media) == entry_media_url(*entry));
    let title = entry.title(labels.untitled.as_str());
    let mut path = String::new();
    push_char(&mut path, '/');
    path.append(config.article_type.as_str());
    push_char(&mut path, '/');
    match &entry.slug { Some(s) => { path.append(s.as_str()); }, None => {} }
    assert(path@ =~= slash() + config@.article_type + slash() + name_part(entry.slug));
    let href = localized_url(path.as_str(), config.default_locale.as_str(), config);
    let ghost start = out@;
    let ghost mut written = Seq::<char>::empty();
    let ghost step_1 = out@;
    out.append("<article class=\"article-card\">");
    proof { written = "<article class=\"article-card\">"@; }
    assert(out@ == start + written);
    let ghost step_2 = out@;
    if media.is_some() {
        let ghost mut written_1 = Seq::<char>::empty();
        let ghost step_3 = out@;
        out.append("<a class=\"article-card-image\" href=\"");
        proof { written_1 = "<a class=\"article-card-image\" href=\""@; }
        assert(out@ == step_2 + written_1);
        let ghost step_4 = out@;
        push_escaped(out, href.as_str());
        proof { lemma_concat_associative(step_2, written_1, escape(h)); written_1 = written_1 + escape(h); }
        assert(out@ == step_2 + written_1);
        let ghost step_5 = out@;
        out.append("\" aria-label=\"");
        proof { lemma_concat_associative(step_2, written_1, "\" aria-label=\""@); written_1 = written_1 + "\" aria-label=\""@; }
        assert(out@ == step_2 + written_1);
        let ghost step_6 = out@;
        push_escaped(out, labels.read_named_before.as_str());
        proof { lemma_concat_associative(step_2, written_1, escape(l.read_named_before@)); written_1 = written_1 + escape(l.read_named_before@); }
        assert(out@ == step_2 + written_1);
        let ghost step_7 = out@;
        push_escaped(out, title);
        proof { lemma_concat_associative(step_2, written_1, escape(t)); written_1 = written_1 + escape(t); }
        assert(out@ == step_2 + written_1);
        let ghost step_8 = out@;
        push_escaped(out, labels.read_named_after.as_str());
        proof { lemma_concat_associative(step_2, written_1, escape(l.read_named_after@)); written_1 = written_1 + escape(l.read_named_after@); }
        assert(out@ == step_2 + written_1);
        let ghost step_9 = out@;
        out.append("\">");
        proof { lemma_concat_associative(step_2, written_1, "\">"@); written_1 = written_1 + "\">"@; }
        assert(out@ == step_2 + written_1);
        let ghost step_10 = out@;
        push_opt(out, "<img src=\"", &media, "\" alt=\"\" loading=\"lazy\">");
        proof { lemma_concat_associative(step_2, written_1, (opt_markup("<img src=\""@, entry_media_url(e), "\" alt=\"\" loading=\"lazy\">"@))); written_1 = written_1 + (opt_markup("<img src=\""@, entry_media_url(e), "\" alt=\"\" loading=\"lazy\">"@)); }
        assert(out@ == step_2 + written_1);
        let ghost step_11 = out@;
        out.append("</a>");
        proof { lemma_concat_associative(step_2, written_1, "</a>"@); written_1 = written_1 + "</a>"@; }
        assert(out@ == step_2 + written_1);
        assert(written_1 == "<a class=\"article-card-image\" href=\""@ + escape(h) + "\" aria-label=\""@ + escape(l.read_named_before@) + escape(t) + escape(l.read_named_after@) + "\">"@ + (opt_markup("<img src=\""@, entry_media_url(e), "\" alt=\"\" loading=\"lazy\">"@)) + "</a>"@);
    } else {
        let ghost mut written_2 = Seq::<char>::empty();
        assert(out@ =~= step_2 + written_2);
        assert(written_2 == Seq::<char>::empty());
    }
    proof { lemma_concat_associative(start, written, (if entry_media_url(e) is Some { "<a class=\"article-card-image\" href=\""@ + escape(h) + "\" aria-label=\""@ + escape(l.read_named_before@) + escape(t) + escape(l.read_named_after@) + "\">"@ + (opt_markup("<img src=\""@, entry_media_url(e), "\" alt=\"\" loading=\"lazy\">"@)) + "</a>"@ } else { Seq::<char>::empty() })); written = written + (if entry_media_url(e) is Some { "<a class=\"article-card-image\" href=\""@ + escape(h) + "\" aria-label=\""@ + escape(l.read_named_before@) + escape(t) + escape(l.read_named_after@) + "\">"@ + (opt_markup("<img src=\""@, entry_media_url(e), "\" alt=\"\" loading=\"lazy\">"@)) + "</a>"@ } else { Seq::<char>::empty() }); }
    assert(out@ == start + written);
    let ghost step_12 = out@;
    out.append("<div class=\"article-card-body\">");
    proof { lemma_concat_associative(start, written, "<div class=\"article-card-body\">"@); written = written + "<div class=\"article-card-body\">"@; }
    assert(out@ == start + written);
    let ghost step_13 = out@;
    push_metadata_markup(out, entry);
    proof { lemma_concat_associative(start, written, (metadata_markup(e))); written = written + (metadata_markup(e)); }
    assert(out@ == start + written);
    let ghost step_14 = out@;
    out.append("<h2><a href=\"");
    proof { lemma_concat_associative(start, written, "<h2><a href=\""@); written = written + "<h2><a href=\""@; }
    assert(out@ == start + written);
    let ghost step_15 = out@;
    push_escaped(out, href.as_str());
    proof { lemma_concat_associative(start, written, escape(h)); written = written + escape(h); }
    assert(out@ == start + written);
    let ghost step_16 = out@;
    out.append("\">");
    proof { lemma_concat_associative(start, written, "\">"@); written = written + "\">"@; }
    assert(out@ == start + written);
    let ghost step_17 = out@;
    push_escaped(out, title);
    proof { lemma_concat_associative(start, written, escape(t)); written = written + escape(t); }
    assert(out@ == start + written);
    let ghost step_18 = out@;
    out.append("</a></h2>");
    proof { lemma_concat_associative(start, written, "</a></h2>"@); written = written + "</a></h2>"@; }
    assert(out@ == start + written);
    let ghost step_19 = out@;
    if entry.has_html() {
        let ghost mut written_3 = Seq::<char>::empty();
        let ghost step_20 = out@;
        out.append("<div class=\"article-summary\">");
        proof { written_3 = "<div class=\"article-summary\">"@; }
        assert(out@ == step_19 + written_3);
        let ghost step_21 = out@;
        entry.html().render_to(out);
        proof { lemma_concat_associative(step_19, written_3, (nodes_html(e.nodes@))); written_3 = written_3 + (nodes_html(e.nodes@)); }
        assert(out@ == step_19 + written_3);
        let ghost step_22 = out@;
        out.append("</div>");
        proof { lemma_concat_associative(step_19, written_3, "</div>"@); written_3 = written_3 + "</div>"@; }
        assert(out@ == step_19 + written_3);
        assert(written_3 == "<div class=\"article-summary\">"@ + (nodes_html(e.nodes@)) + "</div>"@);
    } else {
        let ghost mut written_4 = Seq::<char>::empty();
        assert(out@ =~= step_19 + written_4);
        assert(written_4 == Seq::<char>::empty());
    }
    proof { lemma_concat_associative(start, written, (if nodes_have_html(e.nodes@) { "<div class=\"article-summary\">"@ + (nodes_html(e.nodes@)) + "</div>"@ } else { Seq::<char>::empty() })); written = written + (if nodes_have_html(e.nodes@) { "<div class=\"article-summary\">"@ + (nodes_html(e.nodes@)) + "</div>"@ } else { Seq::<char>::empty() }); }
    assert(out@ == start + written);
    let ghost step_23 = out@;
    out.append("<a class=\"read-more\" href=\"");
    proof { lemma_concat_associative(start, written, "<a class=\"read-more\" href=\""@); written = written + "<a class=\"read-more\" href=\""@; }
    assert(out@ == start + written);
    let ghost step_24 = out@;
    push_escaped(out, href.as_str());
    proof { lemma_concat_associative(start, written, escape(h)); written = written + escape(h); }
    assert(out@ == start + written);
    let ghost step_25 = out@;
    out.append("\">");
    proof { lemma_concat_associative(start, written, "\">"@); written = written + "\">"@; }
    assert(out@ == start + written);
    let ghost step_26 = out@;
    push_escaped(out, labels.read.as_str());
    proof { lemma_concat_associative(start, written, escape(l.read@)); written = written + escape(l.read@); }
    assert(out@ == start + written);
    let ghost step_27 = out@;
    out.append("<span aria-hidden=\"true\"> →</span></a></div></article>");
    proof { lemma_concat_associative(start, written, "<span aria-hidden=\"true\"> →</span></a></div></article>"@); written = written + "<span aria-hidden=\"true\"> →</span></a></div></article>"@; }
    assert(out@ == start + written);
    assert(written == "<article class=\"article-card\">"@ + (if entry_media_url(e) is Some { "<a class=\"article-card-image\" href=\""@ + escape(h) + "\" aria-label=\""@ + escape(l.read_named_before@) + escape(t) + escape(l.read_named_after@) + "\">"@ + (opt_markup("<img src=\""@, entry_media_url(e), "\" alt=\"\" loading=\"lazy\">"@)) + "</a>"@ } else { Seq::<char>::empty() }) + "<div class=\"article-card-body\">"@ + (metadata_markup(e)) + "<h2><a href=\""@ + escape(h) + "\">"@ + escape(t) + "</a></h2>"@ + (if nodes_have_html(e.nodes@) { "<div class=\"article-summary\">"@ + (nodes_html(e.nodes@)) + "</div>"@ } else { Seq::<char>::empty() }) + "<a class=\"read-more\" href=\""@ + escape(h) + "\">"@ + escape(l.read@) + "<span aria-hidden=\"true\"> →</span></a></div></article>"@);
    assert(out@ == start + article_card_markup(*entry, config@, *labels));
}

/// The article previews.
pub open spec fn article_cards_markup(s: Seq<Entry>, c: BlogConfigView, l: ArticleLabels) -> Seq<char>
    decreases s.len(),
{
    if s.len() == 0 {
        Seq::<char>::empty()
    } else {
        article_cards_markup(s.drop_last(), c, l) + article_card_markup(s.last(), c, l)
    }
}

fn push_article_cards_markup(out: &mut String, entries: &Vec<Entry>, config: &BlogConfig, labels: &ArticleLabels)
    ensures
        final(out)@ == old(out)@ + article_cards_markup(entries@, config@, *labels),
{
    let ghost start = out@;
    let ghost s = entries@;
    let mut i: usize = 0;
    assert(s.take(0) =~= Seq::<Entry>::empty());
    while i < entries.len()
        invariant
            i <= s.len(),
            s == entries@,
            out@ == start + article_cards_markup(s.take(i as int), config@, *labels),
        decreases entries.len() - i,
    {
        assert(s.take(i + 1).drop_last() =~= s.take(i as int));
        assert(s.take(i + 1).last() == s[i as int]);
        push_article_card_markup(out, &entries[i], config, labels);
        i = i + 1;
    }
    assert(s.take(s.len() as int) =~= s);
}

/// A full article: metadata, title, cover, content and tags.
pub open spec fn article_page_markup(e: Entry, l: ArticleLabels) -> Seq<char> {
    "<article class=\"article prose\">"@ + (metadata_markup(e)) + "<h1>"@ + escape(entry_title(e, l.untitled@)) + "</h1>"@ + (opt_markup("<img class=\"article-cover\" src=\""@, entry_media_url(e), "\" alt=\"\">"@)) + "<div class=\"article-content\">"@ + (nodes_html(e.nodes@)) + "</div>"@ + (tags_markup(e, l.tags@)) + "</article>"@
}

/// Appends `article_page_markup`.
fn push_article_page_markup(out: &mut String, entry: &Entry, labels: &ArticleLabels)
    ensures
        final(out)@ == old(out)@ + article_page_markup(*entry, *labels),
{
    let ghost e = *entry;
    let ghost l = *labels;
    let media = entry.media_url();
    assert(opt_string(media) == entry_media_url(*entry));
    let title = entry.title(labels.untitled.as_str());
    let ghost start = out@;
    let ghost mut written = Seq::<char>::empty();
    let ghost step_1 = out@;
    out.append("<article class=\"article prose\">");
    proof { written = "<article class=\"article prose\">"@; }
    assert(out@ == start + written);
    let ghost step_2 = out@;
    push_metadata_markup(out, entry);
    proof { lemma_concat_associative(start, written, (metadata_markup(e))); written = written + (metadata_markup(e)); }
    assert(out@ == start + written);
    let ghost step_3 = out@;
    out.append("<h1>");
    proof { lemma_concat_associative(start, written, "<h1>"@); written = written + "<h1>"@; }
    assert(out@ == start + written);
    let ghost step_4 = out@;
    push_escaped(out, title);
    proof { lemma_concat_associative(start, written, escape(entry_title(e, l.untitled@))); written = written + escape(entry_title(e, l.untitled@)); }
    assert(out@ == start + written);
    let ghost step_5 = out@;
    out.append("</h1>");
    proof { lemma_concat_associative(start, written, "</h1>"@); written = written + "</h1>"@; }
    assert(out@ == start + written);
    let ghost step_6 = out@;
    push_opt(out, "<img class=\"article-cover\" src=\"", &media, "\" alt=\"\">");
    proof { lemma_concat_associative(start, written, (opt_markup("<img class=\"article-cover\" src=\""@, entry_media_url(e), "\" alt=\"\">"@))); written = written + (opt_markup("<img class=\"article-cover\" src=\""@, entry_media_url(e), "\" alt=\"\">"@)); }
    assert(out@ == start + written);
    let ghost step_7 = out@;
    out.append("<div class=\"article-content\">");
    proof { lemma_concat_associative(start, written, "<div class=\"article-content\">"@); written = written + "<div class=\"article-content\">"@; }
    assert(out@ == start + written);
    let ghost step_8 = out@;
    entry.html().render_to(out);
    proof { lemma_concat_associative(start, written, (nodes_html(e.nodes@))); written = written + (nodes_html(e.nodes@)); }
    assert(out@ == start + written);
    let ghost step_9 = out@;
    out.append("</div>");
    proof { lemma_concat_associative(start, written, "</div>"@); written = written + "</div>"@; }
    assert(out@ == start + written);
    let ghost step_10 = out@;
    push_tags_markup(out, entry, labels.tags.as_str());
    proof { lemma_concat_associative(start, written, (tags_markup(e, l.tags@))); written = written + (tags_markup(e, l.tags@)); }
    assert(out@ == start + written);
    let ghost step_11 = out@;
    out.append("</article>");
    proof { lemma_concat_associative(start, written, "</article>"@); written = written + "</article>"@; }
    assert(out@ == start + written);
    assert(written == "<article class=\"article prose\">"@ + (metadata_markup(e)) + "<h1>"@ + escape(entry_title(e, l.untitled@)) + "</h1>"@ + (opt_markup("<img class=\"article-cover\" src=\""@, entry_media_url(e), "\" alt=\"\">"@)) + "<div class=\"article-content\">"@ + (nodes_html(e.nodes@)) + "</div>"@ + (tags_markup(e, l.tags@)) + "</article>"@);
    assert(out@ == start + article_page_markup(*entry, *labels));
}

/// A CMS page: its title and its content.
pub open spec fn content_page_markup(e: Entry, l: ArticleLabels) -> Seq<char> {
    "<article class=\"content-page prose\"><h1>"@ + escape(entry_title(e, l.page_untitled@)) + "</h1>"@ + (nodes_html(e.nodes@)) + "</article>"@
}

/// Appends `content_page_markup`.
fn push_content_page_markup(out: &mut String, entry: &Entry, labels: &ArticleLabels)
    ensures
        final(out)@ == old(out)@ + content_page_markup(*entry, *labels),
{
    let ghost e = *entry;
    let ghost l = *labels;
    let title = entry.title(labels.page_untitled.as_str());
    let ghost start = out@;
    let ghost mut written = Seq::<char>::empty();
    let ghost step_1 = out@;
    out.append("<article class=\"content-page prose\"><h1>");
    proof { written = "<article class=\"content-page prose\"><h1>"@; }
    assert(out@ == start + written);
    let ghost step_2 = out@;
    push_escaped(out, title);
    proof { lemma_concat_associative(start, written, escape(entry_title(e, l.page_untitled@))); written = written + escape(entry_title(e, l.page_untitled@)); }
    assert(out@ == start + written);
    let ghost step_3 = out@;
    out.append("</h1>");
    proof { lemma_concat_associative(start, written, "</h1>"@); written = written + "</h1>"@; }
    assert(out@ == start + written);
    let ghost step_4 = out@;
    entry.html().render_to(out);
    proof { lemma_concat_associative(start, written, (nodes_html(e.nodes@))); written = written + (nodes_html(e.nodes@)); }
    assert(out@ == start + written);
    let ghost step_5 = out@;
    out.append("</article>");
    proof { lemma_concat_associative(start, written, "</article>"@); written = written + "</article>"@; }
    assert(out@ == start + written);
    assert(written == "<article class=\"content-page prose\"><h1>"@ + escape(entry_title(e, l.page_untitled@)) + "</h1>"@ + (nodes_html(e.nodes@)) + "</article>"@);
    assert(out@ == start + content_page_markup(*entry, *labels));
}

/// The document's head: language, description, title, icon and stylesheets.
pub open spec fn document_head_markup(c: BlogConfigView, title_: Seq<char>) -> Seq<char> {
    "<!DOCTYPE html><html lang=\""@ + escape(c.default_locale) + "\"><head><meta charset=\"utf-8\"><meta name=\"viewport\" content=\"width=device-width, initial-scale=1\"><meta name=\"description\" content=\""@ + escape(c.site_description) + "\"><title>"@ + escape(document_title_of(title_, c.site_name)) + "</title><link rel=\"icon\" href=\""@ + escape(favicon_of(c)) + "\"><link rel=\"stylesheet\" href=\""@ + escape(assets_dir() + "blog.min.css"@ + seq!['?', 'v', '='] + asset_version()) + "\"><link rel=\"stylesheet\" href=\""@ + escape(assets_dir() + "theme-overrides.css"@ + seq!['?', 'v', '='] + asset_version()) + "\"></head>"@
}

/// Appends `document_head_markup`.
fn push_document_head_markup(out: &mut String, config: &BlogConfig, title: &str)
    ensures
        final(out)@ == old(out)@ + document_head_markup(config@, title@),
{
    let ghost c = config@;
    let ghost title_ = title@;
    let doc_title = document_title(title, config.site_name.as_str());
    let favicon = favicon_href(config);
    let css = asset_url("blog.min.css");
    let theme = asset_url("theme-overrides.css");
    let ghost start = out@;
    let ghost mut written = Seq::<char>::empty();
    let ghost step_1 = out@;
    out.append("<!DOCTYPE html><html lang=\"");
    proof { written = "<!DOCTYPE html><html lang=\""@; }
    assert(out@ == start + written);
    let ghost step_2 = out@;
    push_escaped(out, config.default_locale.as_str());
    proof { lemma_concat_associative(start, written, escape(c.default_locale)); written = written + escape(c.default_locale); }
    assert(out@ == start + written);
    let ghost step_3 = out@;
    out.append("\"><head><meta charset=\"utf-8\"><meta name=\"viewport\" content=\"width=device-width, initial-scale=1\"><meta name=\"description\" content=\"");
    proof { lemma_concat_associative(start, written, "\"><head><meta charset=\"utf-8\"><meta name=\"viewport\" content=\"width=device-width, initial-scale=1\"><meta name=\"description\" content=\""@); written = written + "\"><head><meta charset=\"utf-8\"><meta name=\"viewport\" content=\"width=device-width, initial-scale=1\"><meta name=\"description\" content=\""@; }
    assert(out@ == start + written);
    let ghost step_4 = out@;
    push_escaped(out, config.site_description.as_str());
    proof { lemma_concat_associative(start, written, escape(c.site_description)); written = written + escape(c.site_description); }
    assert(out@ == start + written);
    let ghost step_5 = out@;
    out.append("\"><title>");
    proof { lemma_concat_associative(start, written, "\"><title>"@); written = written + "\"><title>"@; }
    assert(out@ == start + written);
    let ghost step_6 = out@;
    push_escaped(out, doc_title.as_str());
    proof { lemma_concat_associative(start, written, escape(document_title_of(title_, c.site_name))); written = written + escape(document_title_of(title_, c.site_name)); }
    assert(out@ == start + written);
    let ghost step_7 = out@;
    out.append("</title><link rel=\"icon\" href=\"");
    proof { lemma_concat_associative(start, written, "</title><link rel=\"icon\" href=\""@); written = written + "</title><link rel=\"icon\" href=\""@; }
    assert(out@ == start + written);
    let ghost step_8 = out@;
    push_escaped(out, favicon.as_str());
    proof { lemma_concat_associative(start, written, escape(favicon_of(c))); written = written + escape(favicon_of(c)); }
    assert(out@ == start + written);
    let ghost step_9 = out@;
    out.append("\"><link rel=\"stylesheet\" href=\"");
    proof { lemma_concat_associative(start, written, "\"><link rel=\"stylesheet\" href=\""@); written = written + "\"><link rel=\"stylesheet\" href=\""@; }
    assert(out@ == start + written);
    let ghost step_10 = out@;
    push_escaped(out, css.as_str());
    proof { lemma_concat_associative(start, written, escape(assets_dir() + "blog.min.css"@ + seq!['?', 'v', '='] + asset_version())); written = written + escape(assets_dir() + "blog.min.css"@ + seq!['?', 'v', '='] + asset_version()); }
    assert(out@ == start + written);
    let ghost step_11 = out@;
    out.append("\"><link rel=\"stylesheet\" href=\"");
    proof { lemma_concat_associative(start, written, "\"><link rel=\"stylesheet\" href=\""@); written = written + "\"><link rel=\"stylesheet\" href=\""@; }
    assert(out@ == start + written);
    let ghost step_12 = out@;
    push_escaped(out, theme.as_str());
    proof { lemma_concat_associative(start, written, escape(assets_dir() + "theme-overrides.css"@ + seq!['?', 'v', '='] + asset_version())); written = written + escape(assets_dir() + "theme-overrides.css"@ + seq!['?', 'v', '='] + asset_version()); }
    assert(out@ == start + written);
    let ghost step_13 = out@;
    out.append("\"></head>");
    proof { lemma_concat_associative(start, written, "\"></head>"@); written = written + "\"></head>"@; }
    assert(out@ == start + written);
    assert(written == "<!DOCTYPE html><html lang=\""@ + escape(c.default_locale) + "\"><head><meta charset=\"utf-8\"><meta name=\"viewport\" content=\"width=device-width, initial-scale=1\"><meta name=\"description\" content=\""@ + escape(c.site_description) + "\"><title>"@ + escape(document_title_of(title_, c.site_name)) + "</title><link rel=\"icon\" href=\""@ + escape(favicon_of(c)) + "\"><link rel=\"stylesheet\" href=\""@ + escape(assets_dir() + "blog.min.css"@ + seq!['?', 'v', '='] + asset_version()) + "\"><link rel=\"stylesheet\" href=\""@ + escape(assets_dir() + "theme-overrides.css"@ + seq!['?', 'v', '='] + asset_version()) + "\"></head>"@);
    assert(out@ == start + document_head_markup(config@, title@));
}

/// The persistent left-side navigation: site brand, description, navigation, categories, search and language switcher.
pub open spec fn sidebar_markup(ks: Seq<Category>, c: BlogConfigView, l: DocumentLabels) -> Seq<char> {
    "<aside class=\"site-sidebar\"><a class=\"site-brand\" href=\""@ + escape(localize(slash(), c.default_locale, c)) + "\">"@ + escape(c.site_name) + "</a><p class=\"site-sidebar-description\">"@ + escape(c.site_description) + "</p><nav class=\"site-navigation\" aria-label=\""@ + escape(l.navigation@) + "\">"@ + (nav_links_markup(c.navigation, c)) + "</nav>"@ + (sidebar_categories_markup(ks, c, l)) + (search_trigger_markup(c, l.search)) + (language_switcher_markup(c, "sidebar-language-switcher"@, l)) + "</aside>"@
}

/// Appends `sidebar_markup`.
fn push_sidebar_markup(out: &mut String, categories: &[Category], config: &BlogConfig, labels: &DocumentLabels)
    ensures
        final(out)@ == old(out)@ + sidebar_markup(categories@, config@, *labels),
{
    let ghost ks = categories@;
    let ghost c = config@;
    let ghost l = *labels;
    let home = home_url(config);
    let ghost start = out@;
    let ghost mut written = Seq::<char>::empty();
    let ghost step_1 = out@;
    out.append("<aside class=\"site-sidebar\"><a class=\"site-brand\" href=\"");
    proof { written = "<aside class=\"site-sidebar\"><a class=\"site-brand\" href=\""@; }
    assert(out@ == start + written);
    let ghost step_2 = out@;
    push_escaped(out, home.as_str());
    proof { lemma_concat_associative(start, written, escape(localize(slash(), c.default_locale, c))); written = written + escape(localize(slash(), c.default_locale, c)); }
    assert(out@ == start + written);
    let ghost step_3 = out@;
    out.append("\">");
    proof { lemma_concat_associative(start, written, "\">"@); written = written + "\">"@; }
    assert(out@ == start + written);
    let ghost step_4 = out@;
    push_escaped(out, config.site_name.as_str());
    proof { lemma_concat_associative(start, written, escape(c.site_name)); written = written + escape(c.site_name); }
    assert(out@ == start + written);
    let ghost step_5 = out@;
    out.append("</a><p class=\"site-sidebar-description\">");
    proof { lemma_concat_associative(start, written, "</a><p class=\"site-sidebar-description\">"@); written = written + "</a><p class=\"site-sidebar-description\">"@; }
    assert(out@ == start + written);
    let ghost step_6 = out@;
    push_escaped(out, config.site_description.as_str());
    proof { lemma_concat_associative(start, written, escape(c.site_description)); written = written + escape(c.site_description); }
    assert(out@ == start + written);
    let ghost step_7 = out@;
    out.append("</p><nav class=\"site-navigation\" aria-label=\"");
    proof { lemma_concat_associative(start, written, "</p><nav class=\"site-navigation\" aria-label=\""@); written = written + "</p><nav class=\"site-navigation\" aria-label=\""@; }
    assert(out@ == start + written);
    let ghost step_8 = out@;
    push_escaped(out, labels.navigation.as_str());
    proof { lemma_concat_associative(start, written, escape(l.navigation@)); written = written + escape(l.navigation@); }
    assert(out@ == start + written);
    let ghost step_9 = out@;
    out.append("\">");
    proof { lemma_concat_associative(start, written, "\">"@); written = written + "\">"@; }
    assert(out@ == start + written);
    let ghost step_10 = out@;
    push_nav_links_markup(out, config);
    proof { lemma_concat_associative(start, written, (nav_links_markup(c.navigation, c))); written = written + (nav_links_markup(c.navigation, c)); }
    assert(out@ == start + written);
    let ghost step_11 = out@;
    out.append("</nav>");
    proof { lemma_concat_associative(start, written, "</nav>"@); written = written + "</nav>"@; }
    assert(out@ == start + written);
    let ghost step_12 = out@;
    push_sidebar_categories_markup(out, categories, config, labels);
    proof { lemma_concat_associative(start, written, (sidebar_categories_markup(ks, c, l))); written = written + (sidebar_categories_markup(ks, c, l)); }
    assert(out@ == start + written);
    let ghost step_13 = out@;
    push_search_trigger_markup(out, config, &labels.search);
    proof { lemma_concat_associative(start, written, (search_trigger_markup(c, l.search))); written = written + (search_trigger_markup(c, l.search)); }
    assert(out@ == start + written);
    let ghost step_14 = out@;
    push_language_switcher_markup(out, config, "sidebar-language-switcher", labels);
    proof { lemma_concat_associative(start, written, (language_switcher_markup(c, "sidebar-language-switcher"@, l))); written = written + (language_switcher_markup(c, "sidebar-language-switcher"@, l)); }
    assert(out@ == start + written);
    let ghost step_15 = out@;
    out.append("</aside>");
    proof { lemma_concat_associative(start, written, "</aside>"@); written = written + "</aside>"@; }
    assert(out@ == start + written);
    assert(written == "<aside class=\"site-sidebar\"><a class=\"site-brand\" href=\""@ + escape(localize(slash(), c.default_locale, c)) + "\">"@ + escape(c.site_name) + "</a><p class=\"site-sidebar-description\">"@ + escape(c.site_description) + "</p><nav class=\"site-navigation\" aria-label=\""@ + escape(l.navigation@) + "\">"@ + (nav_links_markup(c.navigation, c)) + "</nav>"@ + (sidebar_categories_markup(ks, c, l)) + (search_trigger_markup(c, l.search)) + (language_switcher_markup(c, "sidebar-language-switcher"@, l)) + "</aside>"@);
    assert(out@ == start + sidebar_markup(categories@, config@, *labels));
}

/// The header with the mobile menu.
pub open spec fn site_header_markup(ks: Seq<Category>, c: BlogConfigView, l: DocumentLabels) -> Seq<char> {
    "<header class=\"site-header\"><a class=\"site-header-brand\" href=\""@ + escape(localize(slash(), c.default_locale, c)) + "\">"@ + escape(c.site_name) + "</a><p>"@ + escape(c.site_description) + "</p>"@ + (search_trigger_markup(c, l.search)) + "<button class=\"menu-toggle\" type=\"button\" data-menu-toggle aria-controls=\"mobile-menu\" aria-expanded=\"false\" aria-label=\""@ + escape(l.menu@) + "\">"@ + (menu_icon_markup()) + "</button><div class=\"mobile-menu\" id=\"mobile-menu\" data-mobile-menu hidden><nav class=\"site-header-navigation\" aria-label=\""@ + escape(l.navigation@) + "\">"@ + (nav_links_markup(c.navigation, c)) + "</nav>"@ + (mobile_categories_markup(ks, c, l)) + (language_switcher_markup(c, "mobile-language-switcher"@, l)) + "</div></header>"@
}

/// Appends `site_header_markup`.
fn push_site_header_markup(out: &mut String, categories: &[Category], config: &BlogConfig, labels: &DocumentLabels)
    ensures
        final(out)@ == old(out)@ + site_header_markup(categories@, config@, *labels),
{
    let ghost ks = categories@;
    let ghost c = config@;
    let ghost l = *labels;
    let home = home_url(config);
    let ghost start = out@;
    let ghost mut written = Seq::<char>::empty();
    let ghost step_1 = out@;
    out.append("<header class=\"site-header\"><a class=\"site-header-brand\" href=\"");
    proof { written = "<header class=\"site-header\"><a class=\"site-header-brand\" href=\""@; }
    assert(out@ == start + written);
    let ghost step_2 = out@;
    push_escaped(out, home.as_str());
    proof { lemma_concat_associative(start, written, escape(localize(slash(), c.default_locale, c))); written = written + escape(localize(slash(), c.default_locale, c)); }
    assert(out@ == start + written);
    let ghost step_3 = out@;
    out.append("\">");
    proof { lemma_concat_associative(start, written, "\">"@); written = written + "\">"@; }
    assert(out@ == start + written);
    let ghost step_4 = out@;
    push_escaped(out, config.site_name.as_str());
    proof { lemma_concat_associative(start, written, escape(c.site_name)); written = written + escape(c.site_name); }
    assert(out@ == start + written);
    let ghost step_5 = out@;
    out.append("</a><p>");
    proof { lemma_concat_associative(start, written, "</a><p>"@); written = written + "</a><p>"@; }
    assert(out@ == start + written);
    let ghost step_6 = out@;
    push_escaped(out, config.site_description.as_str());
    proof { lemma_concat_associative(start, written, escape(c.site_description)); written = written + escape(c.site_description); }
    assert(out@ == start + written);
    let ghost step_7 = out@;
    out.append("</p>");
    proof { lemma_concat_associative(start, written, "</p>"@); written = written + "</p>"@; }
    assert(out@ == start + written);
    let ghost step_8 = out@;
    push_search_trigger_markup(out, config, &labels.search);
    proof { lemma_concat_associative(start, written, (search_trigger_markup(c, l.search))); written = written + (search_trigger_markup(c, l.search)); }
    assert(out@ == start + written);
    let ghost step_9 = out@;
    out.append("<button class=\"menu-toggle\" type=\"button\" data-menu-toggle aria-controls=\"mobile-menu\" aria-expanded=\"false\" aria-label=\"");
    proof { lemma_concat_associative(start, written, "<button class=\"menu-toggle\" type=\"button\" data-menu-toggle aria-controls=\"mobile-menu\" aria-expanded=\"false\" aria-label=\""@); written = written + "<button class=\"menu-toggle\" type=\"button\" data-menu-toggle aria-controls=\"mobile-menu\" aria-expanded=\"false\" aria-label=\""@; }
    assert(out@ == start + written);
    let ghost step_10 = out@;
    push_escaped(out, labels.menu.as_str());
    proof { lemma_concat_associative(start, written, escape(l.menu@)); written = written + escape(l.menu@); }
    assert(out@ == start + written);
    let ghost step_11 = out@;
    out.append("\">");
    proof { lemma_concat_associative(start, written, "\">"@); written = written + "\">"@; }
    assert(out@ == start + written);
    let ghost step_12 = out@;
    push_menu_icon_markup(out);
    proof { lemma_concat_associative(start, written, (menu_icon_markup())); written = written + (menu_icon_markup()); }
    assert(out@ == start + written);
    let ghost step_13 = out@;
    out.append("</button><div class=\"mobile-menu\" id=\"mobile-menu\" data-mobile-menu hidden><nav class=\"site-header-navigation\" aria-label=\"");
    proof { lemma_concat_associative(start, written, "</button><div class=\"mobile-menu\" id=\"mobile-menu\" data-mobile-menu hidden><nav class=\"site-header-navigation\" aria-label=\""@); written = written + "</button><div class=\"mobile-menu\" id=\"mobile-menu\" data-mobile-menu hidden><nav class=\"site-header-navigation\" aria-label=\""@; }
    assert(out@ == start + written);
    let ghost step_14 = out@;
    push_escaped(out, labels.navigation.as_str());
    proof { lemma_concat_associative(start, written, escape(l.navigation@)); written = written + escape(l.navigation@); }
    assert(out@ == start + written);
    let ghost step_15 = out@;
    out.append("\">");
    proof { lemma_concat_associative(start, written, "\">"@); written = written + "\">"@; }
    assert(out@ == start + written);
    let ghost step_16 = out@;
    push_nav_links_markup(out, config);
    proof { lemma_concat_associative(start, written, (nav_links_markup(c.navigation, c))); written = written + (nav_links_markup(c.navigation, c)); }
    assert(out@ == start + written);
    let ghost step_17 = out@;
    out.append("</nav>");
    proof { lemma_concat_associative(start, written, "</nav>"@); written = written + "</nav>"@; }
    assert(out@ == start + written);
    let ghost step_18 = out@;
    push_mobile_categories_markup(out, categories, config, labels);
    proof { lemma_concat_associative(start, written, (mobile_categories_markup(ks, c, l))); written = written + (mobile_categories_markup(ks, c, l)); }
    assert(out@ == start + written);
    let ghost step_19 = out@;
    push_language_switcher_markup(out, config, "mobile-language-switcher", labels);
    proof { lemma_concat_associative(start, written, (language_switcher_markup(c, "mobile-language-switcher"@, l))); written = written + (language_switcher_markup(c, "mobile-language-switcher"@, l)); }
    assert(out@ == start + written);
    let ghost step_20 = out@;
    out.append("</div></header>");
    proof { lemma_concat_associative(start, written, "</div></header>"@); written = written + "</div></header>"@; }
    assert(out@ == start + written);
    assert(written == "<header class=\"site-header\"><a class=\"site-header-brand\" href=\""@ + escape(localize(slash(), c.default_locale, c)) + "\">"@ + escape(c.site_name) + "</a><p>"@ + escape(c.site_description) + "</p>"@ + (search_trigger_markup(c, l.search)) + "<button class=\"menu-toggle\" type=\"button\" data-menu-toggle aria-controls=\"mobile-menu\" aria-expanded=\"false\" aria-label=\""@ + escape(l.menu@) + "\">"@ + (menu_icon_markup()) + "</button><div class=\"mobile-menu\" id=\"mobile-menu\" data-mobile-menu hidden><nav class=\"site-header-navigation\" aria-label=\""@ + escape(l.navigation@) + "\">"@ + (nav_links_markup(c.navigation, c)) + "</nav>"@ + (mobile_categories_markup(ks, c, l)) + (language_switcher_markup(c, "mobile-language-switcher"@, l)) + "</div></header>"@);
    assert(out@ == start + site_header_markup(categories@, config@, *labels));
}

/// A whole page: the head, the sidebar, the header, the content (inserted as it is), the footer and the search dialog.
pub open spec fn document_markup(c: BlogConfigView, title_: Seq<char>, content_: Seq<char>, ks: Seq<Category>, l: DocumentLabels) -> Seq<char> {
    (document_head_markup(c, title_)) + "<body><div class=\"site-shell\">"@ + (sidebar_markup(ks, c, l)) + "<div class=\"site-main\">"@ + (site_header_markup(ks, c, l)) + "<main>"@ + (content_) + "</main><footer class=\"site-footer\"><p>© "@ + escape(c.site_name) + "</p></footer></div></div>"@ + (search_dialog_markup(c, l.search)) + "<script src=\""@ + escape(assets_dir() + "blog.min.js"@ + seq!['?', 'v', '='] + asset_version()) + "\" defer></script></body></html>"@
}

/// Appends `document_markup`.
fn push_document_markup(out: &mut String, config: &BlogConfig, title: &str, content: &str, categories: &[Category], labels: &DocumentLabels)
    ensures
        final(out)@ == old(out)@ + document_markup(config@, title@, content@, categories@, *labels),
{
    let ghost c = config@;
    let ghost title_ = title@;
    let ghost content_ = content@;
    let ghost ks = categories@;
    let ghost l = *labels;
    let js = asset_url("blog.min.js");
    let ghost start = out@;
    let ghost mut written = Seq::<char>::empty();
    let ghost step_1 = out@;
    push_document_head_markup(out, config, title);
    proof { written = (document_head_markup(c, title_)); }
    assert(out@ == start + written);
    let ghost step_2 = out@;
    out.append("<body><div class=\"site-shell\">");
    proof { lemma_concat_associative(start, written, "<body><div class=\"site-shell\">"@); written = written + "<body><div class=\"site-shell\">"@; }
    assert(out@ == start + written);
    let ghost step_3 = out@;
    push_sidebar_markup(out, categories, config, labels);
    proof { lemma_concat_associative(start, written, (sidebar_markup(ks, c, l))); written = written + (sidebar_markup(ks, c, l)); }
    assert(out@ == start + written);
    let ghost step_4 = out@;
    out.append("<div class=\"site-main\">");
    proof { lemma_concat_associative(start, written, "<div class=\"site-main\">"@); written = written + "<div class=\"site-main\">"@; }
    assert(out@ == start + written);
    let ghost step_5 = out@;
    push_site_header_markup(out, categories, config, labels);
    proof { lemma_concat_associative(start, written, (site_header_markup(ks, c, l))); written = written + (site_header_markup(ks, c, l)); }
    assert(out@ == start + written);
    let ghost step_6 = out@;
    out.append("<main>");
    proof { lemma_concat_associative(start, written, "<main>"@); written = written + "<main>"@; }
    assert(out@ == start + written);
    let ghost step_7 = out@;
    out.append(content);
    proof { lemma_concat_associative(start, written, (content_)); written = written + (content_); }
    assert(out@ == start + written);
    let ghost step_8 = out@;
    out.append("</main><footer class=\"site-footer\"><p>© ");
    proof { lemma_concat_associative(start, written, "</main><footer class=\"site-footer\"><p>© "@); written = written + "</main><footer class=\"site-footer\"><p>© "@; }
    assert(out@ == start + written);
    let ghost step_9 = out@;
    push_escaped(out, config.site_name.as_str());
    proof { lemma_concat_associative(start, written, escape(c.site_name)); written = written + escape(c.site_name); }
    assert(out@ == start + written);
    let ghost step_10 = out@;
    out.append("</p></footer></div></div>");
    proof { lemma_concat_associative(start, written, "</p></footer></div></div>"@); written = written + "</p></footer></div></div>"@; }
    assert(out@ == start + written);
    let ghost step_11 = out@;
    push_search_dialog_markup(out, config, &labels.search);
    proof { lemma_concat_associative(start, written, (search_dialog_markup(c, l.search))); written = written + (search_dialog_markup(c, l.search)); }
    assert(out@ == start + written);
    let ghost step_12 = out@;
    out.append("<script src=\"");
    proof { lemma_concat_associative(start, written, "<script src=\""@); written = written + "<script src=\""@; }
    assert(out@ == start + written);
    let ghost step_13 = out@;
    push_escaped(out, js.as_str());
    proof { lemma_concat_associative(start, written, escape(assets_dir() + "blog.min.js"@ + seq!['?', 'v', '='] + asset_version())); written = written + escape(assets_dir() + "blog.min.js"@ + seq!['?', 'v', '='] + asset_version()); }
    assert(out@ == start + written);
    let ghost step_14 = out@;
    out.append("\" defer></script></body></html>");
    proof { lemma_concat_associative(start, written, "\" defer></script></body></html>"@); written = written + "\" defer></script></body></html>"@; }
    assert(out@ == start + written);
    assert(written == (document_head_markup(c, title_)) + "<body><div class=\"site-shell\">"@ + (sidebar_markup(ks, c, l)) + "<div class=\"site-main\">"@ + (site_header_markup(ks, c, l)) + "<main>"@ + (content_) + "</main><footer class=\"site-footer\"><p>© "@ + escape(c.site_name) + "</p></footer></div></div>"@ + (search_dialog_markup(c, l.search)) + "<script src=\""@ + escape(assets_dir() + "blog.min.js"@ + seq!['?', 'v', '='] + asset_version()) + "\" defer></script></body></html>"@);
    assert(out@ == start + document_markup(config@, title@, content@, categories@, *labels));
}

/// An overview page: the hero, the article previews (or a note that there are none) and the pagination bar, filtered by the active category.
pub open spec fn home_page_markup(c: BlogConfigView, hero_: Option<Entry>, entries_: Seq<Entry>, page_: nat, total: nat, l: ArticleLabels, pl: PaginationLabels) -> Seq<char> {
    (hero_markup(c, hero_)) + "<section class=\"blog-list\" aria-label=\""@ + escape(l.latest@) + "\">"@ + (if entries_.len() == 0 { "<p class=\"empty-state\">"@ + escape(l.empty@) + "</p>"@ } else { (article_cards_markup(entries_, c, l)) }) + "</section>"@ + (pagination_markup(page_, total, c, c.active_category, pl))
}

/// Appends `home_page_markup`.
fn push_home_page_markup(out: &mut String, config: &BlogConfig, hero: Option<&Entry>, entries: &Vec<Entry>, page: usize, total_pages: usize, labels: &ArticleLabels, pagination_labels: &PaginationLabels)
    ensures
        final(out)@ == old(out)@ + home_page_markup(config@, match hero { Some(e) => Some(*e), None => None }, entries@, page as nat, total_pages as nat, *labels, *pagination_labels),
{
    let ghost c = config@;
    let ghost hero_ = match hero { Some(e) => Some(*e), None => None };
    let ghost entries_ = entries@;
    let ghost page_ = page as nat;
    let ghost total = total_pages as nat;
    let ghost l = *labels;
    let ghost pl = *pagination_labels;
    let category: Option<&str> = match &config.active_category { Some(s) => Some(s.as_str()), None => None };
    assert(opt_view(category) == config@.active_category);
    let ghost start = out@;
    let ghost mut written = Seq::<char>::empty();
    let ghost step_1 = out@;
    push_hero_markup(out, config, hero);
    proof { written = (hero_markup(c, hero_)); }
    assert(out@ == start + written);
    let ghost step_2 = out@;
    out.append("<section class=\"blog-list\" aria-label=\"");
    proof { lemma_concat_associative(start, written, "<section class=\"blog-list\" aria-label=\""@); written = written + "<section class=\"blog-list\" aria-label=\""@; }
    assert(out@ == start + written);
    let ghost step_3 = out@;
    push_escaped(out, labels.latest.as_str());
    proof { lemma_concat_associative(start, written, escape(l.latest@)); written = written + escape(l.latest@); }
    assert(out@ == start + written);
    let ghost step_4 = out@;
    out.append("\">");
    proof { lemma_concat_associative(start, written, "\">"@); written = written + "\">"@; }
    assert(out@ == start + written);
    let ghost step_5 = out@;
    if entries.len() == 0 {
        let ghost mut written_1 = Seq::<char>::empty();
        let ghost step_6 = out@;
        out.append("<p class=\"empty-state\">");
        proof { written_1 = "<p class=\"empty-state\">"@; }
        assert(out@ == step_5 + written_1);
        let ghost step_7 = out@;
        push_escaped(out, labels.empty.as_str());
        proof { lemma_concat_associative(step_5, written_1, escape(l.empty@)); written_1 = written_1 + escape(l.empty@); }
        assert(out@ == step_5 + written_1);
        let ghost step_8 = out@;
        out.append("</p>");
        proof { lemma_concat_associative(step_5, written_1, "</p>"@); written_1 = written_1 + "</p>"@; }
        assert(out@ == step_5 + written_1);
        assert(written_1 == "<p class=\"empty-state\">"@ + escape(l.empty@) + "</p>"@);
    } else {
        let ghost mut written_2 = Seq::<char>::empty();
        let ghost step_9 = out@;
        push_article_cards_markup(out, entries, config, labels);
        proof { written_2 = (article_cards_markup(entries_, c, l)); }
        assert(out@ == step_5 + written_2);
        assert(written_2 == (article_cards_markup(entries_, c, l)));
    }
    proof { lemma_concat_associative(start, written, (if entries_.len() == 0 { "<p class=\"empty-state\">"@ + escape(l.empty@) + "</p>"@ } else { (article_cards_markup(entries_, c, l)) })); written = written + (if entries_.len() == 0 { "<p class=\"empty-state\">"@ + escape(l.empty@) + "</p>"@ } else { (article_cards_markup(entries_, c, l)) }); }
    assert(out@ == start + written);
    let ghost step_10 = out@;
    out.append("</section>");
    proof { lemma_concat_associative(start, written, "</section>"@); written = written + "</section>"@; }
    assert(out@ == start + written);
    let ghost step_11 = out@;
    push_pagination_markup(out, page, total_pages, config, category, pagination_labels);
    proof { lemma_concat_associative(start, written, (pagination_markup(page_, total, c, c.active_category, pl))); written = written + (pagination_markup(page_, total, c, c.active_category, pl)); }
    assert(out@ == start + written);
    assert(written == (hero_markup(c, hero_)) + "<section class=\"blog-list\" aria-label=\""@ + escape(l.latest@) + "\">"@ + (if entries_.len() == 0 { "<p class=\"empty-state\">"@ + escape(l.empty@) + "</p>"@ } else { (article_cards_markup(entries_, c, l)) }) + "</section>"@ + (pagination_markup(page_, total, c, c.active_category, pl)));
    assert(out@ == start + home_page_markup(config@, match hero { Some(e) => Some(*e), None => None }, entries@, page as nat, total_pages as nat, *labels, *pagination_labels));
}

/// The language switcher entry of localization `i`; the active locale is marked current.
pub open spec fn language_item_markup(c: BlogConfigView, names: Seq<String>, i_: int) -> Seq<char> {
    let lc = c.localizations[i_].locale;
    let ln = if i_ < names.len() { names[i_]@ } else { lc };
    let lh = language_url_of(c.current_url, lc, c);
    "<li>"@ + (if eq_ic(lc, c.default_locale) { "<a href=\""@ + escape(lh) + "\" lang=\""@ + escape(lc) + "\" hreflang=\""@ + escape(lc) + "\" aria-current=\"page\">"@ } else { "<a href=\""@ + escape(lh) + "\" lang=\""@ + escape(lc) + "\" hreflang=\""@ + escape(lc) + "\">"@ }) + escape(ln) + "</a></li>"@
}

/// Appends `language_item_markup`.
fn push_language_item_markup(out: &mut String, config: &BlogConfig, labels: &DocumentLabels, i: usize)
    requires
        i < config.localizations@.len(),
    ensures
        final(out)@ == old(out)@ + language_item_markup(config@, labels.language_names@, i as int),
{
    let ghost c = config@;
    let ghost names = labels.language_names@;
    let ghost i_ = i as int;
    let ghost lc = c.localizations[i_].locale;
    let ghost ln = if i_ < names.len() { names[i_]@ } else { lc };
    let ghost lh = language_url_of(c.current_url, lc, c);
    let code = config.localizations[i].locale.as_str();
    assert(code@ == config@.localizations[i as int].locale);
    let href = language_url(config.current_url.as_str(), code, config);
    let current = eq_ignore_case(code, config.default_locale.as_str());
    let name = if i < labels.language_names.len() { labels.language_names[i].as_str() } else { code };
    let ghost start = out@;
    let ghost mut written = Seq::<char>::empty();
    let ghost step_1 = out@;
    out.append("<li>");
    proof { written = "<li>"@; }
    assert(out@ == start + written);
    let ghost step_2 = out@;
    if current {
        let ghost mut written_1 = Seq::<char>::empty();
        let ghost step_3 = out@;
        out.append("<a href=\"");
        proof { written_1 = "<a href=\""@; }
        assert(out@ == step_2 + written_1);
        let ghost step_4 = out@;
        push_escaped(out, href.as_str());
        proof { lemma_concat_associative(step_2, written_1, escape(lh)); written_1 = written_1 + escape(lh); }
        assert(out@ == step_2 + written_1);
        let ghost step_5 = out@;
        out.append("\" lang=\"");
        proof { lemma_concat_associative(step_2, written_1, "\" lang=\""@); written_1 = written_1 + "\" lang=\""@; }
        assert(out@ == step_2 + written_1);
        let ghost step_6 = out@;
        push_escaped(out, code);
        proof { lemma_concat_associative(step_2, written_1, escape(lc)); written_1 = written_1 + escape(lc); }
        assert(out@ == step_2 + written_1);
        let ghost step_7 = out@;
        out.append("\" hreflang=\"");
        proof { lemma_concat_associative(step_2, written_1, "\" hreflang=\""@); written_1 = written_1 + "\" hreflang=\""@; }
        assert(out@ == step_2 + written_1);
        let ghost step_8 = out@;
        push_escaped(out, code);
        proof { lemma_concat_associative(step_2, written_1, escape(lc)); written_1 = written_1 + escape(lc); }
        assert(out@ == step_2 + written_1);
        let ghost step_9 = out@;
        out.append("\" aria-current=\"page\">");
        proof { lemma_concat_associative(step_2, written_1, "\" aria-current=\"page\">"@); written_1 = written_1 + "\" aria-current=\"page\">"@; }
        assert(out@ == step_2 + written_1);
        assert(written_1 == "<a href=\""@ + escape(lh) + "\" lang=\""@ + escape(lc) + "\" hreflang=\""@ + escape(lc) + "\" aria-current=\"page\">"@);
    } else {
        let ghost mut written_2 = Seq::<char>::empty();
        let ghost step_10 = out@;
        out.append("<a href=\"");
        proof { written_2 = "<a href=\""@; }
        assert(out@ == step_2 + written_2);
        let ghost step_11 = out@;
        push_escaped(out, href.as_str());
        proof { lemma_concat_associative(step_2, written_2, escape(lh)); written_2 = written_2 + escape(lh); }
        assert(out@ == step_2 + written_2);
        let ghost step_12 = out@;
        out.append("\" lang=\"");
        proof { lemma_concat_associative(step_2, written_2, "\" lang=\""@); written_2 = written_2 + "\" lang=\""@; }
        assert(out@ == step_2 + written_2);
        let ghost step_13 = out@;
        push_escaped(out, code);
        proof { lemma_concat_associative(step_2, written_2, escape(lc)); written_2 = written_2 + escape(lc); }
        assert(out@ == step_2 + written_2);
        let ghost step_14 = out@;
        out.append("\" hreflang=\"");
        proof { lemma_concat_associative(step_2, written_2, "\" hreflang=\""@); written_2 = written_2 + "\" hreflang=\""@; }
        assert(out@ == step_2 + written_2);
        let ghost step_15 = out@;
        push_escaped(out, code);
        proof { lemma_concat_associative(step_2, written_2, escape(lc)); written_2 = written_2 + escape(lc); }
        assert(out@ == step_2 + written_2);
        let ghost step_16 = out@;
        out.append("\">");
        proof { lemma_concat_associative(step_2, written_2, "\">"@); written_2 = written_2 + "\">"@; }
        assert(out@ == step_2 + written_2);
        assert(written_2 == "<a href=\""@ + escape(lh) + "\" lang=\""@ + escape(lc) + "\" hreflang=\""@ + escape(lc) + "\">"@);
    }
    proof { lemma_concat_associative(start, written, (if eq_ic(lc, c.default_locale) { "<a href=\""@ + escape(lh) + "\" lang=\""@ + escape(lc) + "\" hreflang=\""@ + escape(lc) + "\" aria-current=\"page\">"@ } else { "<a href=\""@ + escape(lh) + "\" lang=\""@ + escape(lc) + "\" hreflang=\""@ + escape(lc) + "\">"@ })); written = written + (if eq_ic(lc, c.default_locale) { "<a href=\""@ + escape(lh) + "\" lang=\""@ + escape(lc) + "\" hreflang=\""@ + escape(lc) + "\" aria-current=\"page\">"@ } else { "<a href=\""@ + escape(lh) + "\" lang=\""@ + escape(lc) + "\" hreflang=\""@ + escape(lc) + "\">"@ }); }
    assert(out@ == start + written);
    let ghost step_17 = out@;
    push_escaped(out, name);
    proof { lemma_concat_associative(start, written, escape(ln)); written = written + escape(ln); }
    assert(out@ == start + written);
    let ghost step_18 = out@;
    out.append("</a></li>");
    proof { lemma_concat_associative(start, written, "</a></li>"@); written = written + "</a></li>"@; }
    assert(out@ == start + written);
    assert(written == "<li>"@ + (if eq_ic(lc, c.default_locale) { "<a href=\""@ + escape(lh) + "\" lang=\""@ + escape(lc) + "\" hreflang=\""@ + escape(lc) + "\" aria-current=\"page\">"@ } else { "<a href=\""@ + escape(lh) + "\" lang=\""@ + escape(lc) + "\" hreflang=\""@ + escape(lc) + "\">"@ }) + escape(ln) + "</a></li>"@);
    assert(out@ == start + language_item_markup(config@, labels.language_names@, i as int));
}

/// One entry of the pagination bar: the current page, a link to another
/// page, or an ellipsis.
pub open spec fn pagination_item_markup(
    item: PaginationItem,
    page: nat,
    c: BlogConfigView,
    category: Option<Seq<char>>,
    l: PaginationLabels,
) -> Seq<char> {
    match item {
        PaginationItem::Page(n) => if n == page {
            "<li><span class=\"pagination-current\" aria-current=\"page\" aria-label=\""@ + escape(
                l.current_before@,
            ) + decimal(n as nat) + escape(l.current_after@) + "\">"@ + decimal(n as nat)
                + "</span></li>"@
        } else {
            "<li><a href=\""@ + escape(page_url_of(n as nat, c, category)) + "\" aria-label=\""@
                + escape(l.go_to_before@) + decimal(n as nat) + escape(l.go_to_after@) + "\">"@
                + decimal(n as nat) + "</a></li>"@
        },
        PaginationItem::Ellipsis => "<li class=\"pagination-ellipsis\" aria-hidden=\"true\">…</li>"@,
    }
}

fn push_pagination_item_markup(
    out: &mut String,
    item: &PaginationItem,
    page: usize,
    config: &BlogConfig,
    category: Option<&str>,
    labels: &PaginationLabels,
)
    ensures
        final(out)@ == old(out)@ + pagination_item_markup(
            *item,
            page as nat,
            config@,
            opt_view(category),
            *labels,
        ),
{
    let ghost start = out@;
    match item {
        PaginationItem::Page(n) => {
            let n = *n;
            if n == page {
                out.append("<li><span class=\"pagination-current\" aria-current=\"page\" aria-label=\"");
                push_escaped(out, labels.current_before.as_str());
                push_decimal(out, n);
                push_escaped(out, labels.current_after.as_str());
                out.append("\">");
                push_decimal(out, n);
                out.append("</span></li>");
            } else {
                let href = page_url(n, config, category);
                out.append("<li><a href=\"");
                push_escaped(out, href.as_str());
                out.append("\" aria-label=\"");
                push_escaped(out, labels.go_to_before.as_str());
                push_decimal(out, n);
                push_escaped(out, labels.go_to_after.as_str());
                out.append("\">");
                push_decimal(out, n);
                out.append("</a></li>");
            }
        },
        PaginationItem::Ellipsis => {
            out.append("<li class=\"pagination-ellipsis\" aria-hidden=\"true\">…</li>");
        },
    }
    assert(out@ =~= start + pagination_item_markup(
        *item,
        page as nat,
        config@,
        opt_view(category),
        *labels,
    ));
}

/// The navigation links of the active locale.
pub open spec fn nav_links_markup(s: Seq<NavigationView>, c: BlogConfigView) -> Seq<char>
    decreases s.len(),
{
    if s.len() == 0 {
        Seq::<char>::empty()
    } else {
        nav_links_markup(s.drop_last(), c) + nav_link_markup(s.last(), c)
    }
}

fn push_nav_links_markup(out: &mut String, config: &BlogConfig)
    ensures
        final(out)@ == old(out)@ + nav_links_markup(config@.navigation, config@),
{
    let ghost start = out@;
    let ghost s = config@.navigation;
    let items = &config.navigation;
    let mut i: usize = 0;
    assert(s.take(0) =~= Seq::<NavigationView>::empty());
    while i < items.len()
        invariant
            i <= s.len(),
            s.len() == items@.len(),
            items == &config.navigation,
            s == config@.navigation,
            out@ == start + nav_links_markup(s.take(i as int), config@),
        decreases items.len() - i,
    {
        assert(s.take(i + 1).drop_last() =~= s.take(i as int));
        assert(s.take(i + 1).last() == items@[i as int]@);
        push_nav_link_markup(out, &items[i], config);
        i = i + 1;
    }
    assert(s.take(s.len() as int) =~= s);
}

/// The hero of an overview page: the index page's, or the default one.
pub open spec fn hero_markup(c: BlogConfigView, hero: Option<Entry>) -> Seq<char> {
    match hero {
        Some(e) => index_hero_markup(c, e),
        None => default_hero_markup(c),
    }
}

fn push_hero_markup(out: &mut String, config: &BlogConfig, hero: Option<&Entry>)
    ensures
        final(out)@ == old(out)@ + hero_markup(
            config@,
            match hero {
                Some(e) => Some(*e),
                None => None,
            },
        ),
{
    match hero {
        Some(e) => push_index_hero_markup(out, config, e),
        None => push_default_hero_markup(out, config),
    }
}

/// The entries of the first `n` localizations.
pub open spec fn language_items_markup(c: BlogConfigView, names: Seq<String>, n: int) -> Seq<char>
    decreases n,
{
    if n <= 0 {
        Seq::<char>::empty()
    } else {
        language_items_markup(c, names, n - 1) + language_item_markup(c, names, n - 1)
    }
}

/// The language switcher: shown on multilingual sites with at least two
/// localizations, it lists each website locale and leads to the current
/// content in it.
pub open spec fn language_switcher_markup(c: BlogConfigView, class: Seq<char>, l: DocumentLabels) -> Seq<
    char,
> {
    if !(c.multilingual_enabled && c.localizations.len() >= 2) {
        Seq::<char>::empty()
    } else {
        "<details class=\"language-switcher "@ + escape(class) + "\" aria-label=\""@ + escape(
            l.language@,
        ) + "\"><summary>"@ + language_icon_markup() + "<span>"@ + escape(l.active_language@)
            + "</span></summary><ul class=\"language-list\">"@ + language_items_markup(
            c,
            l.language_names@,
            c.localizations.len() as int,
        ) + "</ul></details>"@
    }
}

fn push_language_switcher_markup(out: &mut String, config: &BlogConfig, class: &str, labels: &DocumentLabels)
    ensures
        final(out)@ == old(out)@ + language_switcher_markup(config@, class@, *labels),
{
    let ghost start = out@;
    if !(config.multilingual_enabled && config.localizations.len() >= 2) {
        assert(out@ =~= start + language_switcher_markup(config@, class@, *labels));
        return;
    }
    out.append("<details class=\"language-switcher ");
    push_escaped(out, class);
    out.append("\" aria-label=\"");
    push_escaped(out, labels.language.as_str());
    out.append("\"><summary>");
    push_language_icon_markup(out);
    out.append("<span>");
    push_escaped(out, labels.active_language.as_str());
    out.append("</span></summary><ul class=\"language-list\">");
    let ghost list_start = out@;
    let mut i: usize = 0;
    while i < config.localizations.len()
        invariant
            i <= config.localizations@.len(),
            out@ == list_start + language_items_markup(config@, labels.language_names@, i as int),
        decreases config.localizations.len() - i,
    {
        push_language_item_markup(out, config, labels, i);
        i = i + 1;
    }
    out.append("</ul></details>");
    assert(out@ =~= start + language_switcher_markup(config@, class@, *labels));
}

// ---------------------------------------------------------------------------
// The pages
// ---------------------------------------------------------------------------

/// The pagination bar (see `pagination_markup`).
pub fn pagination_html(
    page: usize,
    total_pages: usize,
    config: &BlogConfig,
    category: Option<&str>,
    labels: &PaginationLabels,
) -> (r: String)
    ensures
        r@ == pagination_markup(page as nat, total_pages as nat, config@, opt_view(category), *labels),
{
    let mut out = String::new();
    push_pagination_markup(&mut out, page, total_pages, config, category, labels);
    out
}

/// The search results area (see `search_results_markup`).
pub fn search_results(query: &str, results: &[SearchResult], config: &BlogConfig, labels: &SearchLabels) -> (r:
    String)
    ensures
        r@ == search_results_markup(query@, results@, config@, *labels),
{
    let mut out = String::new();
    push_search_results_markup(&mut out, query, results, config, labels);
    out
}

/// The search page (see `search_page_markup`).
pub fn search_page(query: &str, results: &[SearchResult], config: &BlogConfig, labels: &SearchLabels) -> (r:
    String)
    ensures
        r@ == search_page_markup(query@, results@, config@, *labels),
{
    let mut out = String::new();
    push_search_page_markup(&mut out, query, results, config, labels);
    out
}

/// A full article (see `article_page_markup`).
pub fn article_page(article: &Entry, labels: &ArticleLabels) -> (r: String)
    ensures
        r@ == article_page_markup(*article, *labels),
{
    let mut out = String::new();
    push_article_page_markup(&mut out, article, labels);
    out
}

/// A CMS page (see `content_page_markup`).
pub fn content_page(page: &Entry, labels: &ArticleLabels) -> (r: String)
    ensures
        r@ == content_page_markup(*page, *labels),
{
    let mut out = String::new();
    push_content_page_markup(&mut out, page, labels);
    out
}

/// An overview page that starts at article `offset`: `hero` is the locale's
/// index page when there is one, `list` the page of articles that the
/// content query found.
pub fn home_page(
    config: &BlogConfig,
    hero: Option<&Entry>,
    list: &ArticleList,
    offset: usize,
    labels: &ArticleLabels,
    pagination_labels: &PaginationLabels,
) -> (r: String)
    requires
        config.posts_per_page > 0,
        offset / config.posts_per_page < usize::MAX,
    ensures
        ({
            let ppp = config.posts_per_page as int;
            let page = offset as int / ppp + 1;
            let total = list.total as int / ppp + if list.total as int % ppp != 0 {
                1int
            } else {
                0int
            };
            r@ == home_page_markup(
                config@,
                match hero {
                    Some(e) => Some(*e),
                    None => None,
                },
                list.entries@,
                page as nat,
                total as nat,
                *labels,
                *pagination_labels,
            )
        }),
{
    let (page, total_pages) = page_position(offset, config.posts_per_page, list.total);
    let mut out = String::new();
    push_home_page_markup(&mut out, config, hero, &list.entries, page, total_pages, labels, pagination_labels);
    out
}

/// A whole page around `content` (see `document_markup`).
pub fn document_html(
    config: &BlogConfig,
    title: &str,
    content: &str,
    categories: &[Category],
    labels: &DocumentLabels,
) -> (r: String)
    ensures
        r@ == document_markup(config@, title@, content@, categories@, *labels),
{
    let mut out = String::new();
    push_document_markup(&mut out, config, title, content, categories, labels);
    out
}

/// The language switcher on its own (see `language_switcher_markup`).
pub fn language_switcher(config: &BlogConfig, class: &str, labels: &DocumentLabels) -> (r: String)
    ensures
        r@ == language_switcher_markup(config@, class@, *labels),
{
    let mut out = String::new();
    push_language_switcher_markup(&mut out, config, class, labels);
    out
}

/// The HTML response of a page: the document around `content`, in the
/// active locale.
pub fn response(
    config: &BlogConfig,
    title: &str,
    content: &str,
    categories: &[Category],
    labels: &DocumentLabels,
) -> (r: Response)
    ensures
        r.status == 200,
        r.headers@.len() == 2,
        r.headers@[0].name@ == "content-type"@,
        r.headers@[0].value@ == "text/html; charset=utf-8"@,
        r.headers@[1].name@ == "content-language"@,
        r.headers@[1].value@ == config.default_locale@,
        r.body@ == vstd::utf8::encode_utf8(document_markup(config@, title@, content@, categories@, *labels)),
{
    let body = document_html(config, title, content, categories, labels);
    html_response(config.default_locale.as_str(), body.as_str().as_bytes_vec())
}

// ---------------------------------------------------------------------------
// Laws
// ---------------------------------------------------------------------------

/// The link of an article preview: the article's path under the article
/// type, localized for the locale of the page being shown.
pub open spec fn article_link(e: Entry, c: BlogConfigView) -> Seq<char> {
    localize(slash() + c.article_type + slash() + name_part(e.slug), c.default_locale, c)
}

/// The heading link of an article preview.
pub open spec fn article_heading_link(e: Entry, c: BlogConfigView) -> Seq<char> {
    "<h2><a href=\""@ + escape(article_link(e, c)) + "\">"@
}

proof fn lemma_article_card_link(e: Entry, c: BlogConfigView, l: ArticleLabels)
    ensures
        contains_seq(article_card_markup(e, c, l), article_heading_link(e, c)),
        contains_seq(
            article_card_markup(e, c, l),
            "<a class=\"read-more\" href=\""@ + escape(article_link(e, c)) + "\">"@,
        ),
{
    let t = entry_title(e, l.untitled@);
    let h = article_link(e, c);
    let x2 = if entry_media_url(e) is Some {
        "<a class=\"article-card-image\" href=\""@ + escape(h) + "\" aria-label=\""@ + escape(
            l.read_named_before@,
        ) + escape(t) + escape(l.read_named_after@) + "\">"@ + (opt_markup(
            "<img src=\""@,
            entry_media_url(e),
            "\" alt=\"\" loading=\"lazy\">"@,
        )) + "</a>"@
    } else {
        Seq::<char>::empty()
    };
    let x10 = if nodes_have_html(e.nodes@) {
        "<div class=\"article-summary\">"@ + (nodes_html(e.nodes@)) + "</div>"@
    } else {
        Seq::<char>::empty()
    };
    let before = "<article class=\"article-card\">"@ + x2 + "<div class=\"article-card-body\">"@ + (
    metadata_markup(e));
    let x5 = "<h2><a href=\""@;
    let x6 = escape(h);
    let x7 = "\">"@;
    let s7 = before + x5 + x6 + x7;
    let s10 = s7 + escape(t) + "</a></h2>"@ + x10;
    let x11 = "<a class=\"read-more\" href=\""@;
    let s13 = s10 + x11 + x6 + x7;
    let card = s13 + escape(l.read@) + "<span aria-hidden=\"true\"> →</span></a></div></article>"@;
    assert(article_card_markup(e, c, l) == card);
    let heading = article_heading_link(e, c);
    let read = x11 + x6 + x7;
    lemma_concat_associative(before, x5, x6);
    lemma_concat_associative(before, x5 + x6, x7);
    assert(s7 == before + heading);
    lemma_contains_extend(heading, before, heading);
    lemma_contains_extend(s7, escape(t), heading);
    lemma_contains_extend(s7 + escape(t), "</a></h2>"@, heading);
    lemma_contains_extend(s7 + escape(t) + "</a></h2>"@, x10, heading);
    lemma_contains_extend(s10, x11, heading);
    lemma_contains_extend(s10 + x11, x6, heading);
    lemma_contains_extend(s10 + x11 + x6, x7, heading);
    lemma_contains_extend(s13, escape(l.read@), heading);
    lemma_contains_extend(s13 + escape(l.read@), "<span aria-hidden=\"true\"> →</span></a></div></article>"@, heading);
    lemma_concat_associative(s10, x11, x6);
    lemma_concat_associative(s10, x11 + x6, x7);
    assert(s13 == s10 + read);
    lemma_contains_extend(read, s10, read);
    lemma_contains_extend(s13, escape(l.read@), read);
    lemma_contains_extend(s13 + escape(l.read@), "<span aria-hidden=\"true\"> →</span></a></div></article>"@, read);
}

proof fn lemma_article_cards_links(es: Seq<Entry>, c: BlogConfigView, l: ArticleLabels)
    ensures
        forall|i: int|
            0 <= i < es.len() ==> contains_seq(article_cards_markup(es, c, l), #[trigger] article_heading_link(es[i], c)),
    decreases es.len(),
{
    if es.len() > 0 {
        let p = es.drop_last();
        lemma_article_cards_links(p, c, l);
        let ep = article_cards_markup(p, c, l);
        let last = article_card_markup(es.last(), c, l);
        assert(article_cards_markup(es, c, l) == ep + last);
        assert forall|i: int| 0 <= i < es.len() implies contains_seq(
            article_cards_markup(es, c, l),
            #[trigger] article_heading_link(es[i], c),
        ) by {
            if i < p.len() {
                assert(p[i] == es[i]);
                lemma_contains_seq(Seq::<char>::empty(), ep, last, article_heading_link(p[i], c));
                assert(Seq::<char>::empty() + ep + last =~= ep + last);
            } else {
                assert(es[i] == es.last());
                lemma_article_card_link(es.last(), c, l);
                lemma_contains_seq(ep, last, Seq::<char>::empty(), article_heading_link(es[i], c));
                assert(ep + last + Seq::<char>::empty() =~= ep + last);
            }
        }
    }
}

/// Every article preview of an overview page links to the article at its
/// path under the article type, in the locale of the page being shown: on
/// an overview in another locale than the site's default one, the link
/// starts with that locale's path segment.
pub proof fn lemma_overview_article_links(
    c: BlogConfigView,
    hero: Option<Entry>,
    es: Seq<Entry>,
    page: nat,
    total: nat,
    l: ArticleLabels,
    pl: PaginationLabels,
)
    ensures
        forall|i: int|
            0 <= i < es.len() ==> contains_seq(
                home_page_markup(c, hero, es, page, total, l, pl),
                #[trigger] article_heading_link(es[i], c),
            ),
        forall|i: int|
            0 <= i < es.len() && !eq_ic(c.default_locale, c.site_default_locale) && is_valid_slug(
                c.article_type,
            ) ==> starts_with(#[trigger] article_link(es[i], c), slash() + c.default_locale + slash()),
{
    lemma_article_cards_links(es, c, l);
    let pre = hero_markup(c, hero) + "<section class=\"blog-list\" aria-label=\""@ + escape(l.latest@)
        + "\">"@;
    let cards = article_cards_markup(es, c, l);
    let post = "</section>"@ + pagination_markup(page, total, c, c.active_category, pl);
    assert forall|i: int| 0 <= i < es.len() implies contains_seq(
        home_page_markup(c, hero, es, page, total, l, pl),
        #[trigger] article_heading_link(es[i], c),
    ) by {
        assert(home_page_markup(c, hero, es, page, total, l, pl) =~= pre + cards + post);
        lemma_contains_seq(pre, cards, post, article_heading_link(es[i], c));
    }
    assert forall|i: int|
        0 <= i < es.len() && !eq_ic(c.default_locale, c.site_default_locale) && is_valid_slug(c.article_type)
        implies starts_with(#[trigger] article_link(es[i], c), slash() + c.default_locale + slash()) by {
        let path = slash() + c.article_type + slash() + name_part(es[i].slug);
        assert(starts_with(path, slash())) by {
            assert(path.take(1) =~= slash());
        }
        assert(path[1] == c.article_type[0]);
        assert(is_slug_char(c.article_type[0]));
        assert(!starts_with(path, seq!['/', '/'])) by {
            if starts_with(path, seq!['/', '/']) {
                assert(path.take(2)[1] == '/');
            }
        }
        lemma_locale_prefix(path, c.default_locale, c);
    }
}

} // verus!
