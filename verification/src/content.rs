//! Published CMS content: the entry model, its HTML and the content queries.
use crate::text::{decimal, push_chars, push_decimal, trim, trim_str};
use vstd::prelude::*;

verus! {

/// A search hit that links to an article or a page.
#[derive(Clone, Debug)]
pub struct SearchResult {
    pub title: String,
    pub href: String,
    pub article: bool,
}

/// A page of article previews and the number of matching articles.
#[derive(Debug)]
pub struct ArticleList {
    pub entries: Vec<Entry>,
    pub total: usize,
}

/// A published CMS entry (article or page).
#[derive(Debug)]
pub struct Entry {
    pub title: Option<String>,
    pub slug: Option<String>,
    pub created_at: Option<String>,
    pub media: Option<Media>,
    pub category: Option<EntryCategory>,
    pub authors: Vec<Author>,
    pub tags: Vec<Tag>,
    pub nodes: Vec<ContentNode>,
    pub group_id: Option<i64>,
}

/// An uploaded media file.
#[derive(Clone, Debug)]
pub struct Media {
    pub path: String,
    pub filename: String,
}

/// The category of an entry.
#[derive(Clone, Debug)]
pub struct EntryCategory {
    pub name: String,
}

/// An author of an entry.
#[derive(Clone, Debug)]
pub struct Author {
    pub first_name: Option<String>,
    pub last_name: Option<String>,
}

/// A tag of an entry.
#[derive(Clone, Debug)]
pub struct Tag {
    pub name: String,
}

/// A node of an entry's content tree: HTML, or nested blocks.
#[derive(Debug)]
pub struct ContentNode {
    pub html: Option<String>,
    pub blocks: Vec<ContentNode>,
}

/// The CMS answer to a content query.
#[derive(Debug)]
pub struct EntryResponse {
    pub count: usize,
    pub results: Vec<Entry>,
}

/// A category with the number of its published articles.
#[derive(Clone, Debug)]
pub struct Category {
    pub name: String,
    pub slug: String,
    pub count: usize,
}

/// The categories of published articles, as the CMS reports them.
#[derive(Debug)]
pub struct FacetResponse {
    pub categories: Vec<Category>,
}

/// The HTML content of an entry: the non-blank HTML of its leaf nodes, in
/// order, inserted without escaping.
pub struct EntryHtml<'a>(pub &'a Entry);

/// A published entry listed in the sitemap.
#[derive(Clone, Debug)]
pub struct SitemapEntry {
    pub slug: String,
    pub updated_at: Option<String>,
    pub article: bool,
    pub locale: String,
}

/// A published translation of an entry.
#[derive(Clone, Debug)]
pub struct TranslatedEntry {
    pub locale: String,
    pub slug: String,
}

// ---------------------------------------------------------------------------
// Specifications
// ---------------------------------------------------------------------------

/// The HTML of a leaf node, when it holds more than whitespace.
pub open spec fn leaf_html(n: ContentNode) -> Seq<char> {
    match n.html {
        Some(h) => if trim(h@).len() > 0 {
            h@
        } else {
            Seq::<char>::empty()
        },
        None => Seq::<char>::empty(),
    }
}

/// The concatenated HTML of a node list: leaves contribute their HTML,
/// nodes with blocks contribute the HTML of their blocks.
pub open spec fn nodes_html(ns: Seq<ContentNode>) -> Seq<char>
    decreases ns,
{
    if ns.len() == 0 {
        Seq::<char>::empty()
    } else {
        let n = ns.last();
        let rest = ns.subrange(0, ns.len() - 1);
        nodes_html(rest) + if n.blocks@.len() == 0 {
            leaf_html(n)
        } else {
            nodes_html(n.blocks@)
        }
    }
}

/// Whether some node of the list, at any depth, holds non-blank HTML.
pub open spec fn nodes_have_html(ns: Seq<ContentNode>) -> bool
    decreases ns,
{
    if ns.len() == 0 {
        false
    } else {
        let n = ns.last();
        let rest = ns.subrange(0, ns.len() - 1);
        ||| nodes_have_html(rest)
        ||| (n.html matches Some(h) && trim(h@).len() > 0)
        ||| nodes_have_html(n.blocks@)
    }
}

/// `s` without its trailing `c` characters.
pub open spec fn trim_end_char(s: Seq<char>, c: char) -> Seq<char>
    decreases s.len(),
{
    if s.len() > 0 && s.last() == c {
        trim_end_char(s.drop_last(), c)
    } else {
        s
    }
}

/// The URL of a media file: its path without trailing slashes, `/`, and the
/// file name; none without a file name.
pub open spec fn media_url_of(m: Media) -> Option<Seq<char>> {
    let path = trim_end_char(m.path@, '/');
    if m.filename@.len() == 0 {
        None
    } else if path.len() == 0 {
        Some(seq!['/'] + m.filename@)
    } else {
        Some(path.push('/') + m.filename@)
    }
}

pub open spec fn blank(o: Option<String>) -> bool {
    match o {
        Some(s) => s@.len() == 0,
        None => true,
    }
}

// ---------------------------------------------------------------------------
// Exec
// ---------------------------------------------------------------------------

fn push_nodes_html(ns: &Vec<ContentNode>, out: &mut String)
    ensures
        final(out)@ == old(out)@ + nodes_html(ns@),
    decreases ns@,
{
    let ghost start = out@;
    let mut i: usize = 0;
    assert(ns@.subrange(0, 0) =~= Seq::<ContentNode>::empty());
    while i < ns.len()
        invariant
            i <= ns@.len(),
            out@ == start + nodes_html(ns@.subrange(0, i as int)),
        decreases ns.len() - i,
    {
        let n = &ns[i];
        let ghost before = out@;
        assert(ns@.subrange(0, i + 1).subrange(0, i as int) =~= ns@.subrange(0, i as int));
        assert(ns@.subrange(0, i + 1).last() == ns@[i as int]);
        if n.blocks.len() == 0 {
            match &n.html {
                Some(h) => {
                    let t = trim_str(h.as_str());
                    if t.len() > 0 {
                        out.append(h.as_str());
                    }
                },
                None => {},
            }
        } else {
            assert(decreases_to!(ns@ => ns@[i as int]));
            push_nodes_html(&n.blocks, out);
        }
        i = i + 1;
        assert(out@ =~= start + nodes_html(ns@.subrange(0, i as int)));
    }
    assert(ns@.subrange(0, ns@.len() as int) =~= ns@);
}

fn any_node_html(ns: &Vec<ContentNode>) -> (r: bool)
    ensures
        r == nodes_have_html(ns@),
    decreases ns@,
{
    let mut i: usize = 0;
    assert(ns@.subrange(0, 0) =~= Seq::<ContentNode>::empty());
    while i < ns.len()
        invariant
            i <= ns@.len(),
            !nodes_have_html(ns@.subrange(0, i as int)),
        decreases ns.len() - i,
    {
        let n = &ns[i];
        assert(ns@.subrange(0, i + 1).subrange(0, i as int) =~= ns@.subrange(0, i as int));
        assert(ns@.subrange(0, i + 1).last() == ns@[i as int]);
        let own = match &n.html {
            Some(h) => trim_str(h.as_str()).len() > 0,
            None => false,
        };
        if own {
            assert(nodes_have_html(ns@.subrange(0, i + 1)));
            proof {
                lemma_have_html_prefix(ns@, i + 1);
            }
            return true;
        }
        assert(decreases_to!(ns@ => ns@[i as int]));
        if any_node_html(&n.blocks) {
            assert(nodes_have_html(ns@.subrange(0, i + 1)));
            proof {
                lemma_have_html_prefix(ns@, i + 1);
            }
            return true;
        }
        i = i + 1;
    }
    assert(ns@.subrange(0, ns@.len() as int) =~= ns@);
    false
}

/// A prefix with HTML makes the whole list have HTML.
proof fn lemma_have_html_prefix(ns: Seq<ContentNode>, k: int)
    requires
        0 <= k <= ns.len(),
        nodes_have_html(ns.subrange(0, k)),
    ensures
        nodes_have_html(ns),
    decreases ns.len() - k,
{
    if k < ns.len() {
        assert(ns.subrange(0, k + 1).subrange(0, k) =~= ns.subrange(0, k));
        assert(nodes_have_html(ns.subrange(0, k + 1)));
        lemma_have_html_prefix(ns, k + 1);
    } else {
        assert(ns.subrange(0, k) =~= ns);
    }
}

impl Entry {
    /// The title, or `fallback` when it is missing or empty.
    pub fn title<'a>(&'a self, fallback: &'a str) -> (r: &'a str)
        ensures
            r@ == match self.title {
                Some(t) => if t@.len() > 0 {
                    t@
                } else {
                    fallback@
                },
                None => fallback@,
            },
    {
        match &self.title {
            Some(t) => {
                if t.as_str().is_empty() {
                    fallback
                } else {
                    t.as_str()
                }
            },
            None => fallback,
        }
    }

    /// The entry's HTML, to be rendered into a page as it is.
    pub fn html(&self) -> (r: EntryHtml<'_>)
        ensures
            r.0 == self,
    {
        EntryHtml(self)
    }

    /// Whether some content node holds non-blank HTML.
    pub fn has_html(&self) -> (r: bool)
        ensures
            r == nodes_have_html(self.nodes@),
    {
        any_node_html(&self.nodes)
    }

    /// The URL of the entry's media file.
    pub fn media_url(&self) -> (r: Option<String>)
        ensures
            match self.media {
                Some(m) => match r {
                    Some(u) => media_url_of(m) == Some(u@),
                    None => media_url_of(m) is None,
                },
                None => r is None,
            },
    {
        let media = match &self.media {
            Some(m) => m,
            None => {
                return None;
            },
        };
        let p = crate::text::chars_of(media.path.as_str());
        let mut end: usize = p.len();
        assert(p@.take(end as int) =~= p@);
        while end > 0 && p[end - 1] == '/'
            invariant
                end <= p@.len(),
                trim_end_char(p@.take(end as int), '/') == trim_end_char(p@, '/'),
            decreases end,
        {
            assert(p@.take(end as int).drop_last() =~= p@.take(end - 1));
            end = end - 1;
        }
        let path = crate::text::slice_chars(p.as_slice(), 0, end);
        assert(path@ =~= p@.take(end as int));
        assert(trim_end_char(path@, '/') == path@);
        if media.filename.as_str().is_empty() {
            return None;
        }
        let mut url = String::new();
        if path.len() == 0 {
            crate::text::push_char(&mut url, '/');
            url.append(media.filename.as_str());
        } else {
            push_chars(&mut url, path.as_slice());
            crate::text::push_char(&mut url, '/');
            url.append(media.filename.as_str());
        }
        assert(p@.take(p@.len() as int) =~= p@);
        Some(url)
    }
}

impl<'a> EntryHtml<'a> {
    /// Appends the entry's HTML to `output`.
    pub fn render_to(&self, output: &mut String)
        ensures
            final(output)@ == old(output)@ + nodes_html(self.0.nodes@),
    {
        push_nodes_html(&self.0.nodes, output);
    }

    /// The entry's HTML.
    pub fn into_string(&self) -> (r: String)
        ensures
            r@ == nodes_html(self.0.nodes@),
    {
        let mut out = String::new();
        self.render_to(&mut out);
        out
    }
}

impl Author {
    /// Whether the author has neither a first nor a last name.
    pub fn is_empty(&self) -> (r: bool)
        ensures
            r == (blank(self.first_name) && blank(self.last_name)),
    {
        let first = match &self.first_name {
            Some(s) => s.as_str().is_empty(),
            None => true,
        };
        let last = match &self.last_name {
            Some(s) => s.as_str().is_empty(),
            None => true,
        };
        first && last
    }
}

/// A name part, or nothing when it is missing or empty.
pub open spec fn name_part(o: Option<String>) -> Seq<char> {
    match o {
        Some(s) => s@,
        None => Seq::<char>::empty(),
    }
}

/// How an author is named: the first and the last name, separated by a
/// space when both are given.
pub open spec fn author_name(a: Author) -> Seq<char> {
    let first = name_part(a.first_name);
    let last = name_part(a.last_name);
    if first.len() > 0 && last.len() > 0 {
        first + seq![' '] + last
    } else {
        first + last
    }
}

/// The names of the authors with a name, separated by `, `.
pub open spec fn author_line_of(authors: Seq<Author>) -> Seq<char>
    decreases authors.len(),
{
    if authors.len() == 0 {
        Seq::<char>::empty()
    } else {
        let rest = author_line_of(authors.drop_last());
        let a = authors.last();
        if blank(a.first_name) && blank(a.last_name) {
            rest
        } else if rest.len() == 0 {
            author_name(a)
        } else {
            rest + ", "@ + author_name(a)
        }
    }
}

fn push_name_part(out: &mut String, o: &Option<String>)
    ensures
        final(out)@ == old(out)@ + name_part(*o),
{
    match o {
        Some(s) => {
            out.append(s.as_str());
        },
        None => {},
    }
}

/// The author line of an entry's metadata (see `author_line_of`).
pub fn author_line(authors: &Vec<Author>) -> (r: String)
    ensures
        r@ == author_line_of(authors@),
{
    let mut out = String::new();
    let mut i: usize = 0;
    assert(authors@.take(0) =~= Seq::<Author>::empty());
    while i < authors.len()
        invariant
            i <= authors@.len(),
            out@ == author_line_of(authors@.take(i as int)),
        decreases authors.len() - i,
    {
        let a = &authors[i];
        assert(authors@.take(i + 1).drop_last() =~= authors@.take(i as int));
        assert(authors@.take(i + 1).last() == authors@[i as int]);
        if !a.is_empty() {
            let ghost before = out@;
            if out.unicode_len() > 0 {
                out.append(", ");
            }
            let ghost mid = out@;
            push_name_part(&mut out, &a.first_name);
            let first_given = match &a.first_name {
                Some(f) => !f.as_str().is_empty(),
                None => false,
            };
            let last_given = match &a.last_name {
                Some(l) => !l.as_str().is_empty(),
                None => false,
            };
            if first_given && last_given {
                crate::text::push_char(&mut out, ' ');
            }
            push_name_part(&mut out, &a.last_name);
            proof {
                if first_given && last_given {
                    assert(out@ =~= mid + author_name(*a));
                } else {
                    assert(out@ =~= mid + author_name(*a));
                }
                if before.len() > 0 {
                    assert(mid =~= before + ", "@);
                } else {
                    assert(mid =~= before);
                }
            }
        }
        i = i + 1;
    }
    assert(authors@.take(authors@.len() as int) =~= authors@);
    out
}


// ---------------------------------------------------------------------------
// Content queries
// ---------------------------------------------------------------------------

/// The fields that article queries request.
pub open spec fn article_fields() -> Seq<char> {
    "title,slug,created_at,media,author.first_name,author.last_name,category.name,tags,node.html"@
}

/// The query for one page of article previews, newest first.
pub open spec fn article_list_query_of(
    article_type: Seq<char>,
    locale: Seq<char>,
    category: Option<Seq<char>>,
    page_size: nat,
    offset: nat,
) -> Seq<char> {
    let category_part = match category {
        Some(c) => "&category="@ + c,
        None => Seq::<char>::empty(),
    };
    "type="@ + article_type + "&locale="@ + locale + category_part + "&fields="@ + article_fields()
        + "&node_limit=1&character_limit=360&ordering=created_at+DESC&limit="@ + decimal(page_size)
        + "&offset="@ + decimal(offset)
}

/// The query for the newest published entry with the given slug.
pub open spec fn entry_query_of(content_type: Seq<char>, locale: Seq<char>, slug: Seq<char>) -> Seq<
    char,
> {
    "type="@ + content_type + "&locale="@ + locale + "&slug="@ + slug + "&fields="@
        + article_fields() + "&ordering=created_at+DESC&limit=1"@
}

/// The query for the media and HTML of an index page.
pub open spec fn index_page_query_of(content_type: Seq<char>, locale: Seq<char>, slug: Seq<char>) -> Seq<
    char,
> {
    "type="@ + content_type + "&locale="@ + locale + "&slug="@ + slug
        + "&fields=media,node.html&limit=1"@
}

/// The query for the category facets of the articles.
pub open spec fn facets_query_of(article_type: Seq<char>, locale: Seq<char>) -> Seq<char> {
    "type="@ + article_type + "&locale="@ + locale
}

/// The upper-case hexadecimal digit `d`.
pub open spec fn hex_digit(d: u8) -> char {
    seq!['0', '1', '2', '3', '4', '5', '6', '7', '8', '9', 'A', 'B', 'C', 'D', 'E', 'F'][d as int]
}

pub open spec fn is_alnum_byte(b: u8) -> bool {
    (48 <= b <= 57) || (65 <= b <= 90) || (97 <= b <= 122)
}

/// Percent-encoding with the `NON_ALPHANUMERIC` set: ASCII letters and digits
/// stay, every other byte becomes `%` and two upper-case hex digits.
pub open spec fn percent_encode_bytes(bs: Seq<u8>) -> Seq<char>
    decreases bs.len(),
{
    if bs.len() == 0 {
        Seq::<char>::empty()
    } else {
        let b = bs.last();
        percent_encode_bytes(bs.drop_last()) + if is_alnum_byte(b) {
            seq![b as char]
        } else {
            seq!['%', hex_digit(b / 16), hex_digit(b % 16)]
        }
    }
}

/// The query for full-text search hits of one content type.
pub open spec fn search_query_of(content_type: Seq<char>, locale: Seq<char>, term: Seq<char>) -> Seq<
    char,
> {
    "type="@ + content_type + "&locale="@ + locale + "&fields=title,slug&search="@
        + percent_encode_bytes(vstd::utf8::encode_utf8(term)) + "&limit=6"@
}

/// Percent-encodes the UTF-8 bytes of `term` with percent_encoding's
/// `utf8_percent_encode` and the `NON_ALPHANUMERIC` set: ASCII letters and
/// digits are kept, every other byte is written as `%XX` in upper-case hex.
#[verifier::external_body]
fn percent_encode_term(term: &str) -> (r: String)
    ensures
        r@ == percent_encode_bytes(vstd::utf8::encode_utf8(term@)),
{
    percent_encoding::utf8_percent_encode(term, percent_encoding::NON_ALPHANUMERIC).to_string()
}

fn push_article_fields(s: &mut String)
    ensures
        final(s)@ == old(s)@ + article_fields(),
{
    s.append("title,slug,created_at,media,author.first_name,author.last_name,category.name,tags,node.html");
}

/// The content query for one page of article previews (see
/// `article_list_query_of`).
pub fn article_list_query(
    article_type: &str,
    locale: &str,
    category: Option<&str>,
    page_size: usize,
    offset: usize,
) -> (r: String)
    ensures
        r@ == article_list_query_of(
            article_type@,
            locale@,
            match category {
                Some(c) => Some(c@),
                None => None,
            },
            page_size as nat,
            offset as nat,
        ),
{
    let mut q = String::new();
    q.append("type=");
    q.append(article_type);
    q.append("&locale=");
    q.append(locale);
    let ghost before = q@;
    match category {
        Some(c) => {
            q.append("&category=");
            q.append(c);
            assert(q@ =~= before + ("&category="@ + c@));
        },
        None => {
            assert(q@ =~= before + Seq::<char>::empty());
        },
    }
    q.append("&fields=");
    push_article_fields(&mut q);
    q.append("&node_limit=1&character_limit=360&ordering=created_at+DESC&limit=");
    push_decimal(&mut q, page_size);
    q.append("&offset=");
    push_decimal(&mut q, offset);
    assert(q@ =~= article_list_query_of(
        article_type@,
        locale@,
        match category {
            Some(c) => Some(c@),
            None => None,
        },
        page_size as nat,
        offset as nat,
    ));
    q
}

/// Article previews from the CMS answer; the total is never below the
/// number of returned entries.
pub fn article_list(response: EntryResponse) -> (r: ArticleList)
    ensures
        r.entries@ == response.results@,
        r.total == if response.count >= response.results@.len() {
            response.count as int
        } else {
            response.results@.len() as int
        },
{
    let n = response.results.len();
    let total = if response.count >= n {
        response.count
    } else {
        n
    };
    ArticleList { entries: response.results, total }
}

/// The content query for a published entry by slug (see `entry_query_of`).
pub fn entry_query(content_type: &str, locale: &str, slug: &str) -> (r: String)
    ensures
        r@ == entry_query_of(content_type@, locale@, slug@),
{
    let mut q = String::new();
    q.append("type=");
    q.append(content_type);
    q.append("&locale=");
    q.append(locale);
    q.append("&slug=");
    q.append(slug);
    q.append("&fields=");
    push_article_fields(&mut q);
    q.append("&ordering=created_at+DESC&limit=1");
    assert(q@ =~= entry_query_of(content_type@, locale@, slug@));
    q
}

/// The content query for an index page (see `index_page_query_of`).
pub fn index_page_query(content_type: &str, locale: &str, slug: &str) -> (r: String)
    ensures
        r@ == index_page_query_of(content_type@, locale@, slug@),
{
    let mut q = String::new();
    q.append("type=");
    q.append(content_type);
    q.append("&locale=");
    q.append(locale);
    q.append("&slug=");
    q.append(slug);
    q.append("&fields=media,node.html&limit=1");
    assert(q@ =~= index_page_query_of(content_type@, locale@, slug@));
    q
}

/// The facet query for the article categories.
pub fn facets_query(article_type: &str, locale: &str) -> (r: String)
    ensures
        r@ == facets_query_of(article_type@, locale@),
{
    let mut q = String::new();
    q.append("type=");
    q.append(article_type);
    q.append("&locale=");
    q.append(locale);
    assert(q@ =~= facets_query_of(article_type@, locale@));
    q
}

/// The search query for one content type (see `search_query_of`).
pub fn search_query(content_type: &str, locale: &str, term: &str) -> (r: String)
    ensures
        r@ == search_query_of(content_type@, locale@, term@),
{
    let encoded = percent_encode_term(term);
    let mut q = String::new();
    q.append("type=");
    q.append(content_type);
    q.append("&locale=");
    q.append(locale);
    q.append("&fields=title,slug&search=");
    q.append(encoded.as_str());
    q.append("&limit=6");
    assert(q@ =~= search_query_of(content_type@, locale@, term@));
    q
}

/// The first entry of a CMS answer: the entry that a slug query found.
pub fn entry(response: EntryResponse) -> (r: Option<Entry>)
    ensures
        response.results@.len() == 0 ==> r is None,
        response.results@.len() > 0 ==> r == Some(response.results@[0]),
{
    let mut results = response.results;
    if results.len() == 0 {
        None
    } else {
        Some(results.swap_remove(0))
    }
}

/// The index page that a content query (see `index_page_query`) found: its
/// first result.
pub fn index_page(response: EntryResponse) -> (r: Option<Entry>)
    ensures
        response.results@.len() == 0 ==> r is None,
        response.results@.len() > 0 ==> r == Some(response.results@[0]),
{
    entry(response)
}

/// The article categories of a facet query (see `facets_query`).
pub fn categories(response: FacetResponse) -> (r: Vec<Category>)
    ensures
        r@ == response.categories@,
{
    response.categories
}

// ---------------------------------------------------------------------------
// Search
// ---------------------------------------------------------------------------

/// The search hit for an entry; entries without a slug give none.
pub open spec fn search_hit(content_type: Seq<char>, e: Entry, article: bool, untitled: Seq<char>) -> Option<
    (Seq<char>, Seq<char>),
> {
    match e.slug {
        Some(slug) => {
            let title = match e.title {
                Some(t) => if t@.len() > 0 {
                    t@
                } else {
                    untitled
                },
                None => untitled,
            };
            let href = if article {
                seq!['/'] + content_type + seq!['/'] + slug@
            } else {
                seq!['/'] + slug@
            };
            Some((title, href))
        },
        None => None,
    }
}

/// The (title, href) pairs of the search hits of a list of entries.
pub open spec fn search_hits(
    content_type: Seq<char>,
    es: Seq<Entry>,
    article: bool,
    untitled: Seq<char>,
) -> Seq<(Seq<char>, Seq<char>)>
    decreases es.len(),
{
    if es.len() == 0 {
        Seq::empty()
    } else {
        let rest = search_hits(content_type, es.drop_last(), article, untitled);
        match search_hit(content_type, es.last(), article, untitled) {
            Some(h) => rest.push(h),
            None => rest,
        }
    }
}

/// Search hits for the entries of one content type, linking to
/// `/{content_type}/{slug}` for articles and `/{slug}` for pages; an entry
/// without a title is listed under `untitled`.
pub fn search_results_of(content_type: &str, entries: &Vec<Entry>, article: bool, untitled: &str) -> (r:
    Vec<SearchResult>)
    ensures
        r@.len() == search_hits(content_type@, entries@, article, untitled@).len(),
        forall|i: int|
            0 <= i < r@.len() ==> {
                let h = search_hits(content_type@, entries@, article, untitled@)[i];
                &&& (#[trigger] r@[i]).title@ == h.0
                &&& r@[i].href@ == h.1
                &&& r@[i].article == article
            },
{
    let mut r: Vec<SearchResult> = Vec::new();
    let mut i: usize = 0;
    while i < entries.len()
        invariant
            i <= entries@.len(),
            r@.len() == search_hits(content_type@, entries@.take(i as int), article, untitled@).len(),
            forall|k: int|
                0 <= k < r@.len() ==> {
                    let h = search_hits(content_type@, entries@.take(i as int), article, untitled@)[k];
                    &&& (#[trigger] r@[k]).title@ == h.0
                    &&& r@[k].href@ == h.1
                    &&& r@[k].article == article
                },
        decreases entries.len() - i,
    {
        let e = &entries[i];
        assert(entries@.take(i + 1).drop_last() =~= entries@.take(i as int));
        assert(entries@.take(i + 1).last() == entries@[i as int]);
        match &e.slug {
            Some(slug) => {
                let title = match &e.title {
                    Some(t) => {
                        if t.as_str().is_empty() {
                            untitled.to_owned()
                        } else {
                            t.clone()
                        }
                    },
                    None => untitled.to_owned(),
                };
                let mut href = String::new();
                crate::text::push_char(&mut href, '/');
                if article {
                    href.append(content_type);
                    crate::text::push_char(&mut href, '/');
                }
                href.append(slug.as_str());
                proof {
                    if article {
                        assert(href@ =~= seq!['/'] + content_type@ + seq!['/'] + slug@);
                    } else {
                        assert(href@ =~= seq!['/'] + slug@);
                    }
                }
                r.push(SearchResult { title, href, article });
            },
            None => {},
        }
        i = i + 1;
    }
    assert(entries@.take(entries@.len() as int) =~= entries@);
    r
}

/// Articles and pages taken in turn: article, page, article, page, ...;
/// when one list runs out, the rest of the other follows.
pub open spec fn interleave<T>(a: Seq<T>, p: Seq<T>) -> Seq<T>
    decreases a.len() + p.len(),
{
    if a.len() == 0 {
        p
    } else if p.len() == 0 {
        a
    } else {
        seq![a[0], p[0]] + interleave(a.drop_first(), p.drop_first())
    }
}

/// Interleaving takes articles and pages in turn: the `k`-th article and
/// the `k`-th page stand side by side while both last, then the rest of the
/// longer list follows; nothing is lost or added.
pub proof fn lemma_interleave<T>(a: Seq<T>, p: Seq<T>)
    ensures
        interleave(a, p).len() == a.len() + p.len(),
        forall|k: int|
            0 <= k < a.len() && k < p.len() ==> interleave(a, p)[2 * k] == a[k] && interleave(a, p)[2
                * k + 1] == p[k],
        a.len() >= p.len() ==> forall|j: int|
            p.len() <= j < a.len() ==> interleave(a, p)[p.len() + j] == #[trigger] a[j],
        p.len() >= a.len() ==> forall|j: int|
            a.len() <= j < p.len() ==> interleave(a, p)[a.len() + j] == #[trigger] p[j],
    decreases a.len() + p.len(),
{
    if a.len() > 0 && p.len() > 0 {
        let a1 = a.drop_first();
        let p1 = p.drop_first();
        lemma_interleave(a1, p1);
        let r = interleave(a, p);
        let r1 = interleave(a1, p1);
        assert(r == seq![a[0], p[0]] + r1);
        assert forall|k: int| 0 <= k < a.len() && k < p.len() implies r[2 * k] == a[k] && r[2 * k + 1]
            == p[k] by {
            if k > 0 {
                assert(r[2 * k] == r1[2 * (k - 1)]);
                assert(r[2 * k + 1] == r1[2 * (k - 1) + 1]);
                assert(a1[k - 1] == a[k]);
                assert(p1[k - 1] == p[k]);
            }
        }
        if a.len() >= p.len() {
            assert forall|j: int| p.len() <= j < a.len() implies r[p.len() + j] == #[trigger] a[j] by {
                assert(r[p.len() + j] == r1[p1.len() + (j - 1)]);
                assert(a1[j - 1] == a[j]);
            }
        }
        if p.len() >= a.len() {
            assert forall|j: int| a.len() <= j < p.len() implies r[a.len() + j] == #[trigger] p[j] by {
                assert(r[a.len() + j] == r1[a1.len() + (j - 1)]);
                assert(p1[j - 1] == p[j]);
            }
        }
    }
}

/// The elements of `s` from index `i` on.
pub open spec fn rest<T>(s: Seq<T>, i: int) -> Seq<T> {
    if i < s.len() {
        s.skip(i)
    } else {
        Seq::<T>::empty()
    }
}

/// The first ten elements.
pub open spec fn first_ten<T>(s: Seq<T>) -> Seq<T> {
    if s.len() > 10 {
        s.take(10)
    } else {
        s
    }
}

fn clone_search_result(x: &SearchResult) -> (r: SearchResult)
    ensures
        r == *x,
{
    SearchResult { title: x.title.clone(), href: x.href.clone(), article: x.article }
}

/// The combined search results: article and page hits in turn, at most ten.
/// Pages are left out when pages and articles share one content type.
pub fn search(article_type: &str, page_type: &str, articles: &Vec<SearchResult>, pages: &Vec<SearchResult>) -> (r:
    Vec<SearchResult>)
    ensures
        r@ == first_ten(
            interleave(
                articles@,
                if page_type@ == article_type@ {
                    Seq::<SearchResult>::empty()
                } else {
                    pages@
                },
            ),
        ),
{
    let empty: Vec<SearchResult> = Vec::new();
    let same = crate::text::eq_chars(page_type, article_type);
    let pages = if same {
        &empty
    } else {
        pages
    };
    let ghost a = articles@;
    let ghost p = pages@;
    let ghost all = interleave(a, p);
    let mut out: Vec<SearchResult> = Vec::new();
    let mut i: usize = 0;
    assert(rest(a, 0) =~= a);
    assert(rest(p, 0) =~= p);
    while (i < articles.len() || i < pages.len()) && out.len() < 10
        invariant
            a == articles@,
            p == pages@,
            all == interleave(a, p),
            out@ + interleave(rest(a, i as int), rest(p, i as int)) == all,
            i <= articles.len() || i <= pages.len(),
        decreases (if articles.len() > pages.len() {
            articles.len()
        } else {
            pages.len()
        }) - i,
    {
        let ghost ra = rest(a, i as int);
        let ghost rp = rest(p, i as int);
        if i < articles.len() {
            out.push(clone_search_result(&articles[i]));
        }
        if i < pages.len() {
            out.push(clone_search_result(&pages[i]));
        }
        proof {
            let ra2 = rest(a, i + 1);
            let rp2 = rest(p, i + 1);
            if i < a.len() {
                assert(ra.drop_first() =~= ra2);
            }
            if i < p.len() {
                assert(rp.drop_first() =~= rp2);
            }
            if i < a.len() && i < p.len() {
                assert(interleave(ra, rp) == seq![a[i as int], p[i as int]] + interleave(ra2, rp2));
            } else if i < a.len() {
                assert(rp.len() == 0);
                assert(rp2.len() == 0);
                assert(interleave(ra, rp) == ra);
                assert(ra =~= seq![a[i as int]] + ra2);
                assert(interleave(ra2, rp2) == ra2);
            } else {
                assert(ra.len() == 0);
                assert(ra2.len() == 0);
                assert(interleave(ra, rp) == rp);
                assert(rp =~= seq![p[i as int]] + rp2);
                assert(interleave(ra2, rp2) == rp2);
            }
        }
        i = i + 1;
        proof {
            assert(out@ + interleave(rest(a, i as int), rest(p, i as int)) =~= all);
        }
    }
    proof {
        if out@.len() < 10 {
            assert(rest(a, i as int).len() == 0);
            assert(rest(p, i as int).len() == 0);
            assert(out@ =~= all);
        } else {
            assert(all.take(10) =~= out@.take(10));
        }
    }
    out.truncate(10);
    proof {
        if out@.len() < 10 {
        }
    }
    out
}

} // verus!
