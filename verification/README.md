# nur_blog

The public blog frontend of nur-cms as a verified library. The logic of the
blog plugin is written in Verus and proved against its contracts; the plugin
shell around it is ordinary Rust.

## Layout

- `src/` — the verified library.
  - `text.rs`: the string operations the blog relies on (`split`,
    `split_once`, `trim`, ASCII case folding, decimal numbers), as spec
    functions with executable counterparts.
  - `config.rs`: the blog settings, their validation and the choice of a
    localization for a requested locale.
  - `configuration.rs`: reading the settings from database rows and the SQL
    statements that store them.
  - `request.rs`: query and path parameters, page numbers, request URLs.
  - `routes.rs`: routing decisions, canonical redirects, the per-request
    settings, language-switch targets and the fixed responses.
  - `view.rs`: URL building for the pages (locale prefixes, pagination,
    categories, assets), the pagination bar and small page decisions.
  - `content.rs`: the CMS entry model, its HTML, content queries and search.
  - `sitemap.rs`, `robots.rs`: the two generated text documents and the
    public origin they use.
  - `pages.rs`: the HTML of the public pages (layout, overview with hero
    and pagination, articles, pages, search page and results, language
    switcher, category navigation); every spliced text is escaped, and the
    interface texts come in as plain strings.
  - `markup.rs`: HTML/XML escaping, done by maud.
- `tests/` — tests of the library.
- `app/` — the plugin shell: host calls, JSON (serde), the interface texts
  (rust-i18n) and the dispatch of the plugin's routes.

The laws of the library are public proof functions next to the code they
speak of, for example `view::lemma_relocalize` (a localized link keeps its
page, query and fragment; only its locale prefix changes) and
`view::lemma_pagination_items`.
