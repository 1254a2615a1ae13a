//! Loading the blog settings from the rows of the settings query, and the SQL
//! statements that store new settings.
use crate::config::{
    activated, clone_navigation_item, find_locale, lemma_find_locale, lemma_localization_found,
    lemma_no_localization_problem, lemma_valid_settings,
    loc_views,
    localization_index, nav_views, position_of_locale, settings_problem, BlogConfig,
    BlogConfigView, LocalizationView, NavigationItem, NavigationView, SiteLocalization,
};
use crate::http::{bad_request, clone_opt_string, failed, PluginError};
use crate::text::{decimal, push_decimal};
use vstd::prelude::*;

verus! {

/// The type of a SQL `NULL`.
#[derive(Clone, Copy, Debug, PartialEq, Eq, Structural)]
pub enum NullType {
    Text,
    Boolean,
    Integer,
}

/// A value passed to or read from the plugin database.
#[derive(Clone, Debug)]
pub enum DatabaseValue {
    Text(String),
    Boolean(bool),
    Integer(i64),
    Null(NullType),
}

/// A SQL statement with its positional parameters.
#[derive(Clone, Debug)]
pub struct Statement {
    pub sql: String,
    pub params: Vec<DatabaseValue>,
}

/// The content of a database value.
pub enum ValueView {
    Text(Seq<char>),
    Boolean(bool),
    Integer(i64),
    Null(NullType),
}

/// The content of a statement.
pub struct StatementView {
    pub sql: Seq<char>,
    pub params: Seq<ValueView>,
}

impl View for DatabaseValue {
    type V = ValueView;

    open spec fn view(&self) -> ValueView {
        match self {
            DatabaseValue::Text(s) => ValueView::Text(s@),
            DatabaseValue::Boolean(b) => ValueView::Boolean(*b),
            DatabaseValue::Integer(n) => ValueView::Integer(*n),
            DatabaseValue::Null(t) => ValueView::Null(*t),
        }
    }
}

pub open spec fn value_views(v: Seq<DatabaseValue>) -> Seq<ValueView> {
    v.map_values(|x: DatabaseValue| x@)
}

impl View for Statement {
    type V = StatementView;

    open spec fn view(&self) -> StatementView {
        StatementView { sql: self.sql@, params: value_views(self.params@) }
    }
}

pub open spec fn statement_views(v: Seq<Statement>) -> Seq<StatementView> {
    v.map_values(|s: Statement| s@)
}

// ---------------------------------------------------------------------------
// Reading the settings rows
// ---------------------------------------------------------------------------

/// A nullable text column: `Some(text)`, `Some(None)` for a text `NULL`, and
/// `None` for a value of another type.
pub open spec fn nullable_view(v: DatabaseValue) -> Option<Option<Seq<char>>> {
    match v {
        DatabaseValue::Text(s) => Some(Some(s@)),
        DatabaseValue::Null(NullType::Text) => Some(None),
        _ => None,
    }
}

/// The global settings columns of the first row.
pub struct SettingsRow {
    pub default_locale: Seq<char>,
    pub multilingual_enabled: bool,
    pub favicon_url: Option<Seq<char>>,
    pub article_type: Seq<char>,
    pub page_type: Seq<char>,
    pub posts_per_page: usize,
}

/// The global settings, when the first row holds them with the expected
/// types (and a number of posts that fits `usize`).
pub open spec fn settings_row(rows: Seq<Vec<DatabaseValue>>) -> Option<SettingsRow> {
    if rows.len() == 0 || rows[0]@.len() < 6 {
        None
    } else {
        let r = rows[0]@;
        match (r[0], r[1], r[3], r[4], r[5], nullable_view(r[2])) {
            (
                DatabaseValue::Text(d),
                DatabaseValue::Boolean(m),
                DatabaseValue::Text(a),
                DatabaseValue::Text(p),
                DatabaseValue::Integer(n),
                Some(f),
            ) => if 0 <= n <= usize::MAX {
                Some(
                    SettingsRow {
                        default_locale: d@,
                        multilingual_enabled: m,
                        favicon_url: f,
                        article_type: a@,
                        page_type: p@,
                        posts_per_page: n as usize,
                    },
                )
            } else {
                None
            },
            _ => None,
        }
    }
}

/// The localizations after the localization columns of one more joined row
/// are read: a new locale starts a localization; `None` when those columns
/// are malformed.
pub open spec fn started_localizations(locs: Seq<LocalizationView>, row: Seq<DatabaseValue>) -> Option<
    Seq<LocalizationView>,
> {
    if row.len() != 12 {
        None
    } else {
        match (row[6], row[7], row[8]) {
            (DatabaseValue::Text(locale), DatabaseValue::Text(name), DatabaseValue::Text(description)) => {
                if locs.len() > 0 && locs.last().locale == locale@ {
                    Some(locs)
                } else {
                    match nullable_view(row[9]) {
                        Some(slug) => Some(
                            locs.push(
                                LocalizationView {
                                    locale: locale@,
                                    site_name: name@,
                                    site_description: description@,
                                    index_page_slug: slug,
                                    navigation: Seq::empty(),
                                },
                            ),
                        ),
                        None => None,
                    }
                }
            },
            _ => None,
        }
    }
}

/// The localizations after reading one more joined row: its localization
/// columns (see `started_localizations`), then a navigation link (label and
/// href both text) added to the current localization; `None` when the row is
/// malformed.
pub open spec fn append_row(locs: Seq<LocalizationView>, row: Seq<DatabaseValue>) -> Option<
    Seq<LocalizationView>,
> {
    match started_localizations(locs, row) {
        None => None,
        Some(b) => match (row[10], row[11]) {
            (DatabaseValue::Text(label), DatabaseValue::Text(href)) => {
                let l = b.last();
                Some(
                    b.update(
                        b.len() - 1,
                        LocalizationView {
                            navigation: l.navigation.push(NavigationView { label: label@, href: href@ }),
                            ..l
                        },
                    ),
                )
            },
            (DatabaseValue::Null(NullType::Text), DatabaseValue::Null(NullType::Text)) => Some(b),
            _ => None,
        },
    }
}

/// The localizations that the rows describe, in row order.
pub open spec fn rows_localizations(rows: Seq<Vec<DatabaseValue>>) -> Option<Seq<LocalizationView>>
    decreases rows.len(),
{
    if rows.len() == 0 {
        Some(Seq::empty())
    } else {
        match rows_localizations(rows.drop_last()) {
            Some(ls) => append_row(ls, rows.last()@),
            None => None,
        }
    }
}

/// The settings that the rows describe, before validation and activation.
pub open spec fn loaded_settings(rows: Seq<Vec<DatabaseValue>>) -> Option<BlogConfigView> {
    match (settings_row(rows), rows_localizations(rows)) {
        (Some(s), Some(ls)) => Some(
            BlogConfigView {
                default_locale: s.default_locale,
                multilingual_enabled: s.multilingual_enabled,
                favicon_url: s.favicon_url,
                article_type: s.article_type,
                page_type: s.page_type,
                posts_per_page: s.posts_per_page,
                localizations: ls,
                site_name: Seq::empty(),
                site_description: Seq::empty(),
                index_page_slug: None,
                navigation: Seq::empty(),
                active_category: None,
                current_url: seq!['/'],
                site_default_locale: s.default_locale,
                language_paths: Seq::empty(),
            },
        ),
        _ => None,
    }
}

/// The error for unreadable settings rows.
pub fn settings_unavailable() -> (e: PluginError)
    ensures
        e matches PluginError::Failed(m) && m@ == "blog settings are unavailable"@,
{
    failed("blog settings are unavailable")
}

/// A nullable text column.
pub fn nullable_text(value: &DatabaseValue) -> (r: Result<Option<String>, PluginError>)
    ensures
        match nullable_view(*value) {
            Some(o) => r matches Ok(x) && crate::config::opt_view(x) == o,
            None => r matches Err(PluginError::Failed(m)) && m@ == "blog settings are unavailable"@,
        },
{
    match value {
        DatabaseValue::Text(v) => Ok(Some(v.clone())),
        DatabaseValue::Null(NullType::Text) => Ok(None),
        _ => Err(settings_unavailable()),
    }
}

/// The database value of an optional text.
pub fn optional_text(value: &Option<String>) -> (r: DatabaseValue)
    ensures
        r@ == match crate::config::opt_view(*value) {
            Some(s) => ValueView::Text(s),
            None => ValueView::Null(NullType::Text),
        },
{
    match value {
        Some(v) => DatabaseValue::Text(v.clone()),
        None => DatabaseValue::Null(NullType::Text),
    }
}

/// The global settings of the first row; the localizations are read
/// separately.
pub fn settings(rows: &[Vec<DatabaseValue>]) -> (r: Result<BlogConfig, PluginError>)
    ensures
        match settings_row(rows@) {
            None => r matches Err(PluginError::Failed(m)) && m@ == "blog settings are unavailable"@,
            Some(s) => r matches Ok(c) && c@ == BlogConfigView {
                default_locale: s.default_locale,
                multilingual_enabled: s.multilingual_enabled,
                favicon_url: s.favicon_url,
                article_type: s.article_type,
                page_type: s.page_type,
                posts_per_page: s.posts_per_page,
                localizations: Seq::empty(),
                site_name: Seq::empty(),
                site_description: Seq::empty(),
                index_page_slug: None,
                navigation: Seq::empty(),
                active_category: None,
                current_url: seq!['/'],
                site_default_locale: s.default_locale,
                language_paths: Seq::empty(),
            },
        },
{
    if rows.len() == 0 {
        return Err(settings_unavailable());
    }
    let row = &rows[0];
    if row.len() < 6 {
        return Err(settings_unavailable());
    }
    let default_locale = match &row[0] {
        DatabaseValue::Text(s) => s,
        _ => {
            return Err(settings_unavailable());
        },
    };
    let multilingual_enabled = match &row[1] {
        DatabaseValue::Boolean(b) => *b,
        _ => {
            return Err(settings_unavailable());
        },
    };
    let article_type = match &row[3] {
        DatabaseValue::Text(s) => s,
        _ => {
            return Err(settings_unavailable());
        },
    };
    let page_type = match &row[4] {
        DatabaseValue::Text(s) => s,
        _ => {
            return Err(settings_unavailable());
        },
    };
    let posts = match &row[5] {
        DatabaseValue::Integer(n) => *n,
        _ => {
            return Err(settings_unavailable());
        },
    };
    let favicon_url = nullable_text(&row[2])?;
    if posts < 0 || posts as u64 > usize::MAX as u64 {
        return Err(settings_unavailable());
    }
    let mut current_url = String::new();
    crate::text::push_char(&mut current_url, '/');
    assert(current_url@ =~= seq!['/']);
    let r = BlogConfig {
        default_locale: default_locale.clone(),
        multilingual_enabled,
        favicon_url,
        article_type: article_type.clone(),
        page_type: page_type.clone(),
        posts_per_page: posts as usize,
        localizations: Vec::new(),
        site_name: String::new(),
        site_description: String::new(),
        index_page_slug: None,
        navigation: Vec::new(),
        active_category: None,
        current_url,
        site_default_locale: default_locale.clone(),
        language_paths: Vec::new(),
    };
    assert(r@.localizations =~= Seq::<LocalizationView>::empty());
    assert(r@.navigation =~= Seq::<NavigationView>::empty());
    assert(r@.language_paths =~= Seq::<crate::config::LanguagePathView>::empty());
    Ok(r)
}

/// Reads one joined row of localization and navigation columns into the
/// localizations (see `append_row`).
pub fn append_localization(localizations: &mut Vec<SiteLocalization>, row: &[DatabaseValue]) -> (r:
    Result<(), PluginError>)
    ensures
        match append_row(loc_views(old(localizations)@), row@) {
            Some(ls) => r is Ok && loc_views(final(localizations)@) == ls,
            None => r matches Err(PluginError::Failed(m)) && m@ == "blog settings are unavailable"@
                && loc_views(final(localizations)@) == match started_localizations(
                loc_views(old(localizations)@),
                row@,
            ) {
                Some(b) => b,
                None => loc_views(old(localizations)@),
            },
        },
{
    if row.len() != 12 {
        return Err(settings_unavailable());
    }
    let locale = match &row[6] {
        DatabaseValue::Text(s) => s,
        _ => {
            return Err(settings_unavailable());
        },
    };
    let site_name = match &row[7] {
        DatabaseValue::Text(s) => s,
        _ => {
            return Err(settings_unavailable());
        },
    };
    let site_description = match &row[8] {
        DatabaseValue::Text(s) => s,
        _ => {
            return Err(settings_unavailable());
        },
    };
    let ghost old_views = loc_views(localizations@);
    let n = localizations.len();
    let same = n > 0 && crate::text::eq_chars(
        localizations[n - 1].locale.as_str(),
        locale.as_str(),
    );
    if !same {
        let index_page_slug = nullable_text(&row[9])?;
        localizations.push(
            SiteLocalization {
                locale: locale.clone(),
                site_name: site_name.clone(),
                site_description: site_description.clone(),
                index_page_slug,
                navigation: Vec::new(),
            },
        );
        assert(loc_views(localizations@) =~= old_views.push(
            LocalizationView {
                locale: locale@,
                site_name: site_name@,
                site_description: site_description@,
                index_page_slug: nullable_view(row@[9])->Some_0,
                navigation: Seq::empty(),
            },
        )) by {
            assert(localizations@.last().navigation@ =~= Seq::<NavigationItem>::empty());
            assert(nav_views(localizations@.last().navigation@) =~= Seq::<NavigationView>::empty());
        }
    }
    let ghost base = loc_views(localizations@);
    assert(localizations@.len() > 0);
    match (&row[10], &row[11]) {
        (DatabaseValue::Text(label), DatabaseValue::Text(href)) => {
            let mut last = localizations.pop().unwrap();
            last.navigation.push(NavigationItem { label: label.clone(), href: href.clone() });
            localizations.push(last);
            assert(loc_views(localizations@) =~= base.update(
                base.len() - 1,
                LocalizationView {
                    navigation: base.last().navigation.push(
                        NavigationView { label: label@, href: href@ },
                    ),
                    ..base.last()
                },
            )) by {
                assert(nav_views(last.navigation@) =~= base.last().navigation.push(
                    NavigationView { label: label@, href: href@ },
                ));
            }
            Ok(())
        },
        (DatabaseValue::Null(NullType::Text), DatabaseValue::Null(NullType::Text)) => Ok(()),
        _ => Err(settings_unavailable()),
    }
}

/// The query that reads the settings: one row per localization and
/// navigation link, ordered by locale and position.
pub fn settings_query() -> (r: Statement)
    ensures
        r@.sql == "SELECT default_locale, multilingual_enabled, favicon_url, article_type, page_type, posts_per_page, locale, site_name, site_description, index_page_slug, label, href FROM settings CROSS JOIN site_localization LEFT JOIN navigation USING (locale) ORDER BY locale ASC, position ASC"@,
        r@.params.len() == 0,
{
    let mut sql = String::new();
    sql.append("SELECT default_locale, multilingual_enabled, favicon_url, article_type, page_type, posts_per_page, locale, site_name, site_description, index_page_slug, label, href FROM settings CROSS JOIN site_localization LEFT JOIN navigation USING (locale) ORDER BY locale ASC, position ASC");
    let r = Statement { sql, params: Vec::new() };
    assert(r@.sql =~= "SELECT default_locale, multilingual_enabled, favicon_url, article_type, page_type, posts_per_page, locale, site_name, site_description, index_page_slug, label, href FROM settings CROSS JOIN site_localization LEFT JOIN navigation USING (locale) ORDER BY locale ASC, position ASC"@);
    r
}

/// The blog settings from the rows of the settings query: read, validated,
/// and with the default locale active.
pub fn load_config(rows: &[Vec<DatabaseValue>]) -> (r: Result<BlogConfig, PluginError>)
    ensures
        match loaded_settings(rows@) {
            None => r matches Err(PluginError::Failed(m)) && m@ == "blog settings are unavailable"@,
            Some(c) => if settings_problem(c) is Some {
                r matches Err(PluginError::Failed(m)) && m@ == "blog settings are invalid"@
            } else if localization_index(c, c.default_locale) == -1 {
                r matches Err(PluginError::Failed(m)) && m@ == "blog localization is unavailable"@
            } else {
                r matches Ok(x) && x@ == activated(c, c.default_locale)
            },
        },
{
    let mut config = settings(rows)?;
    let mut i: usize = 0;
    assert(rows@.take(0) =~= Seq::<Vec<DatabaseValue>>::empty());
    assert(loc_views(config.localizations@) =~= Seq::<LocalizationView>::empty());
    while i < rows.len()
        invariant
            i <= rows@.len(),
            settings_row(rows@) is Some,
            rows_localizations(rows@.take(i as int)) == Some(loc_views(config.localizations@)),
            ({
                let s = settings_row(rows@)->Some_0;
                &&& config@.default_locale == s.default_locale
                &&& config@.multilingual_enabled == s.multilingual_enabled
                &&& config@.favicon_url == s.favicon_url
                &&& config@.article_type == s.article_type
                &&& config@.page_type == s.page_type
                &&& config@.posts_per_page == s.posts_per_page
                &&& config@.site_name == Seq::<char>::empty()
                &&& config@.site_description == Seq::<char>::empty()
                &&& config@.index_page_slug is None
                &&& config@.navigation == Seq::<NavigationView>::empty()
                &&& config@.active_category is None
                &&& config@.current_url == seq!['/']
                &&& config@.site_default_locale == s.default_locale
                &&& config@.language_paths == Seq::<crate::config::LanguagePathView>::empty()
            }),
        decreases rows.len() - i,
    {
        assert(rows@.take(i + 1).drop_last() =~= rows@.take(i as int));
        assert(rows@.take(i + 1).last() == rows@[i as int]);
        match append_localization(&mut config.localizations, rows[i].as_slice()) {
            Ok(()) => {},
            Err(e) => {
                proof {
                    lemma_rows_prefix_none(rows@, i + 1);
                }
                return Err(e);
            },
        }
        i = i + 1;
    }
    assert(rows@.take(rows@.len() as int) =~= rows@);
    config.site_default_locale = config.default_locale.clone();
    assert(config@ == loaded_settings(rows@)->Some_0);
    match config.validate() {
        Ok(()) => {},
        Err(_) => {
            return Err(failed("blog settings are invalid"));
        },
    }
    let default_locale = config.default_locale.clone();
    match config.activate_locale(default_locale.as_str()) {
        Ok(()) => {},
        Err(_) => {
            return Err(failed("blog localization is unavailable"));
        },
    }
    Ok(config)
}

/// Settings that `load_config` returns pass `validate`: activating the
/// default locale of valid settings never fails and keeps them valid.
pub proof fn lemma_loaded_settings_valid(rows: Seq<Vec<DatabaseValue>>, c: BlogConfigView)
    requires
        loaded_settings(rows) == Some(c),
        settings_problem(c) is None,
    ensures
        localization_index(c, c.default_locale) >= 0,
        settings_problem(activated(c, c.default_locale)) is None,
        activated(c, c.default_locale).localizations == c.localizations,
{
    lemma_valid_settings(c);
    lemma_localization_found(c, c.default_locale);
    let a = activated(c, c.default_locale);
    assert(a.localizations == c.localizations);
    assert(a.default_locale == c.default_locale);
    assert(settings_problem(a) == settings_problem(c));
}

proof fn lemma_rows_prefix_none(rows: Seq<Vec<DatabaseValue>>, k: int)
    requires
        0 <= k <= rows.len(),
        rows_localizations(rows.take(k)) is None,
    ensures
        rows_localizations(rows) is None,
    decreases rows.len() - k,
{
    if k < rows.len() {
        assert(rows.take(k + 1).drop_last() =~= rows.take(k));
        lemma_rows_prefix_none(rows, k + 1);
    } else {
        assert(rows.take(k) =~= rows);
    }
}


// ---------------------------------------------------------------------------
// Storing the settings
// ---------------------------------------------------------------------------

/// `$n` placeholders for the first `k` columns of row `row`, comma separated.
pub open spec fn placeholders(row: nat, k: nat, columns: nat) -> Seq<char>
    decreases k,
{
    if k == 0 {
        Seq::<char>::empty()
    } else {
        placeholders(row, (k - 1) as nat, columns) + (if k > 1 {
            ", "@
        } else {
            Seq::<char>::empty()
        }) + seq!['$'] + decimal(row * columns + k)
    }
}

/// `($1, $2, ...), (...)`: one parenthesised group of placeholders per row,
/// numbered consecutively.
pub open spec fn value_groups(rows: nat, columns: nat) -> Seq<char>
    decreases rows,
{
    if rows == 0 {
        Seq::<char>::empty()
    } else {
        value_groups((rows - 1) as nat, columns) + (if rows > 1 {
            ", "@
        } else {
            Seq::<char>::empty()
        }) + seq!['('] + placeholders((rows - 1) as nat, columns, columns) + seq![')']
    }
}

/// Appends the placeholder groups for a multi-row `VALUES` clause.
pub fn append_value_groups(sql: &mut String, rows: usize, columns: usize)
    requires
        rows * columns <= usize::MAX,
    ensures
        final(sql)@ == old(sql)@ + value_groups(rows as nat, columns as nat),
{
    let ghost start = sql@;
    let mut row: usize = 0;
    while row < rows
        invariant
            row <= rows,
            rows * columns <= usize::MAX,
            sql@ == start + value_groups(row as nat, columns as nat),
        decreases rows - row,
    {
        let ghost before = sql@;
        if row > 0 {
            sql.append(", ");
        }
        crate::text::push_char(sql, '(');
        let ghost open = sql@;
        let mut column: usize = 0;
        while column < columns
            invariant
                row < rows,
                column <= columns,
                rows * columns <= usize::MAX,
                sql@ == open + placeholders(row as nat, column as nat, columns as nat),
            decreases columns - column,
        {
            if column > 0 {
                sql.append(", ");
            }
            crate::text::push_char(sql, '$');
            assert(row * columns + column + 1 <= rows * columns) by (nonlinear_arith)
                requires
                    row < rows,
                    column < columns,
            ;
            push_decimal(sql, row * columns + column + 1);
            column = column + 1;
            assert(sql@ =~= open + placeholders(row as nat, column as nat, columns as nat));
        }
        crate::text::push_char(sql, ')');
        row = row + 1;
        assert(sql@ =~= start + value_groups(row as nat, columns as nat));
    }
}

pub open spec fn opt_value(o: Option<Seq<char>>) -> ValueView {
    match o {
        Some(s) => ValueView::Text(s),
        None => ValueView::Null(NullType::Text),
    }
}

/// The parameters of the localization rows, four per localization.
pub open spec fn localization_params(locs: Seq<LocalizationView>) -> Seq<ValueView>
    decreases locs.len(),
{
    if locs.len() == 0 {
        Seq::empty()
    } else {
        let l = locs.last();
        localization_params(locs.drop_last()) + seq![
            ValueView::Text(l.locale),
            ValueView::Text(l.site_name),
            ValueView::Text(l.site_description),
            opt_value(l.index_page_slug),
        ]
    }
}

pub open spec fn localization_insert_view(locs: Seq<LocalizationView>) -> StatementView {
    StatementView {
        sql: "INSERT INTO site_localization (locale, site_name, site_description, index_page_slug) VALUES "@
            + value_groups(locs.len(), 4),
        params: localization_params(locs),
    }
}

/// One bulk insert of all localizations.
pub fn localization_insert(localizations: &[SiteLocalization]) -> (r: Statement)
    requires
        localizations@.len() * 4 <= usize::MAX,
    ensures
        r@ == localization_insert_view(loc_views(localizations@)),
{
    let mut sql = String::new();
    sql.append("INSERT INTO site_localization (locale, site_name, site_description, index_page_slug) VALUES ");
    append_value_groups(&mut sql, localizations.len(), 4);
    let mut params: Vec<DatabaseValue> = Vec::new();
    let ghost vs = loc_views(localizations@);
    let mut i: usize = 0;
    assert(vs.take(0) =~= Seq::<LocalizationView>::empty());
    while i < localizations.len()
        invariant
            i <= localizations@.len(),
            vs == loc_views(localizations@),
            value_views(params@) == localization_params(vs.take(i as int)),
        decreases localizations.len() - i,
    {
        let l = &localizations[i];
        assert(vs.take(i + 1).drop_last() =~= vs.take(i as int));
        assert(vs.take(i + 1).last() == vs[i as int]);
        params.push(DatabaseValue::Text(l.locale.clone()));
        params.push(DatabaseValue::Text(l.site_name.clone()));
        params.push(DatabaseValue::Text(l.site_description.clone()));
        params.push(optional_text(&l.index_page_slug));
        i = i + 1;
        assert(value_views(params@) =~= localization_params(vs.take(i as int)));
    }
    assert(vs.take(vs.len() as int) =~= vs);
    Statement { sql, params }
}

/// A navigation link with its locale and its position in that locale.
pub struct NavigationRowView {
    pub locale: Seq<char>,
    pub position: usize,
    pub item: NavigationView,
}

pub open spec fn nav_row_views(rows: Seq<(&str, usize, &NavigationItem)>) -> Seq<NavigationRowView> {
    rows.map_values(
        |r: (&str, usize, &NavigationItem)|
            NavigationRowView { locale: r.0@, position: r.1, item: r.2@ },
    )
}

/// The parameters of navigation rows, four per link.
pub open spec fn navigation_params(rows: Seq<NavigationRowView>) -> Seq<ValueView>
    decreases rows.len(),
{
    if rows.len() == 0 {
        Seq::empty()
    } else {
        let r = rows.last();
        navigation_params(rows.drop_last()) + seq![
            ValueView::Text(r.locale),
            ValueView::Text(r.item.label),
            ValueView::Text(r.item.href),
            ValueView::Integer(r.position as i64),
        ]
    }
}

pub open spec fn navigation_insert_view(rows: Seq<NavigationRowView>) -> StatementView {
    StatementView {
        sql: "INSERT INTO navigation (locale, label, href, position) VALUES "@ + value_groups(
            rows.len(),
            4,
        ),
        params: navigation_params(rows),
    }
}

/// One bulk insert of navigation links.
pub fn navigation_insert(rows: &[(&str, usize, &NavigationItem)]) -> (r: Statement)
    requires
        rows@.len() * 4 <= usize::MAX,
    ensures
        r@ == navigation_insert_view(nav_row_views(rows@)),
{
    let mut sql = String::new();
    sql.append("INSERT INTO navigation (locale, label, href, position) VALUES ");
    append_value_groups(&mut sql, rows.len(), 4);
    let mut params: Vec<DatabaseValue> = Vec::new();
    let ghost vs = nav_row_views(rows@);
    let mut i: usize = 0;
    assert(vs.take(0) =~= Seq::<NavigationRowView>::empty());
    while i < rows.len()
        invariant
            i <= rows@.len(),
            vs == nav_row_views(rows@),
            value_views(params@) == navigation_params(vs.take(i as int)),
        decreases rows.len() - i,
    {
        let (locale, position, item) = rows[i];
        assert(vs.take(i + 1).drop_last() =~= vs.take(i as int));
        assert(vs.take(i + 1).last() == vs[i as int]);
        params.push(DatabaseValue::Text(locale.to_owned()));
        params.push(DatabaseValue::Text(item.label.clone()));
        params.push(DatabaseValue::Text(item.href.clone()));
        params.push(DatabaseValue::Integer(position as i64));
        i = i + 1;
        assert(value_views(params@) =~= navigation_params(vs.take(i as int)));
    }
    assert(vs.take(vs.len() as int) =~= vs);
    Statement { sql, params }
}

/// The navigation links of all localizations, with their locale and their
/// position within it.
pub open spec fn navigation_rows(locs: Seq<LocalizationView>) -> Seq<NavigationRowView>
    decreases locs.len(),
{
    if locs.len() == 0 {
        Seq::empty()
    } else {
        let l = locs.last();
        navigation_rows(locs.drop_last()) + Seq::new(
            l.navigation.len(),
            |k: int| NavigationRowView { locale: l.locale, position: k as usize, item: l.navigation[k] },
        )
    }
}

/// The row of link `k` of localization `i`.
pub open spec fn link_row(locs: Seq<LocalizationView>, i: int, k: int) -> NavigationRowView {
    NavigationRowView { locale: locs[i].locale, position: k as usize, item: locs[i].navigation[k] }
}

/// Whether `row` is the row of some navigation link of the localizations.
pub open spec fn is_link_row(locs: Seq<LocalizationView>, row: NavigationRowView) -> bool {
    exists|i: int, k: int|
        0 <= i < locs.len() && 0 <= k < locs[i].navigation.len() && #[trigger] link_row(locs, i, k) == row
}

/// The rows to store hold every navigation link of every localization, with
/// that localization's locale and the link's position in its navigation,
/// and nothing else.
pub proof fn lemma_navigation_rows(locs: Seq<LocalizationView>)
    ensures
        forall|i: int, k: int|
            0 <= i < locs.len() && 0 <= k < locs[i].navigation.len() ==> navigation_rows(locs).contains(
                #[trigger] link_row(locs, i, k),
            ),
        forall|j: int| 0 <= j < navigation_rows(locs).len() ==> is_link_row(locs, #[trigger] navigation_rows(locs)[j]),
    decreases locs.len(),
{
    if locs.len() > 0 {
        let p = locs.drop_last();
        lemma_navigation_rows(p);
        let l = locs.last();
        let last = locs.len() - 1;
        assert(locs[last] == l);
        let rp = navigation_rows(p);
        let new_rows = Seq::new(
            l.navigation.len(),
            |k: int| NavigationRowView { locale: l.locale, position: k as usize, item: l.navigation[k] },
        );
        let r = navigation_rows(locs);
        assert(r == rp + new_rows);
        assert forall|i: int, k: int| 0 <= i < locs.len() && 0 <= k < locs[i].navigation.len() implies r.contains(
            #[trigger] link_row(locs, i, k),
        ) by {
            if i < p.len() {
                assert(p[i] == locs[i]);
                assert(link_row(p, i, k) == link_row(locs, i, k));
                assert(rp.contains(link_row(p, i, k)));
                let j = choose|j: int| 0 <= j < rp.len() && rp[j] == link_row(p, i, k);
                assert(r[j] == rp[j]);
            } else {
                assert(r[rp.len() + k] == new_rows[k]);
            }
        }
        assert forall|j: int| 0 <= j < r.len() implies is_link_row(locs, #[trigger] r[j]) by {
            if j < rp.len() {
                assert(r[j] == rp[j]);
                assert(is_link_row(p, rp[j]));
                let (i, k) = choose|i: int, k: int|
                    0 <= i < p.len() && 0 <= k < p[i].navigation.len() && #[trigger] link_row(p, i, k) == rp[j];
                assert(p[i] == locs[i]);
                assert(link_row(locs, i, k) == r[j]);
            } else {
                let k = j - rp.len();
                assert(r[j] == new_rows[k]);
                assert(link_row(locs, last, k) == r[j]);
            }
        }
    }
}

/// Bulk inserts of at most 32 navigation links each.
pub open spec fn navigation_statements(rows: Seq<NavigationRowView>) -> Seq<StatementView>
    decreases rows.len(),
{
    if rows.len() == 0 {
        Seq::empty()
    } else if rows.len() <= 32 {
        seq![navigation_insert_view(rows)]
    } else {
        seq![navigation_insert_view(rows.take(32))] + navigation_statements(rows.skip(32))
    }
}

/// The parameters of statements, one after the other.
pub open spec fn all_params(stmts: Seq<StatementView>) -> Seq<ValueView>
    decreases stmts.len(),
{
    if stmts.len() == 0 {
        Seq::empty()
    } else {
        stmts[0].params + all_params(stmts.drop_first())
    }
}

proof fn lemma_navigation_params(a: Seq<NavigationRowView>, b: Seq<NavigationRowView>)
    ensures
        navigation_params(a + b) == navigation_params(a) + navigation_params(b),
        navigation_params(a).len() == 4 * a.len(),
    decreases b.len(), a.len(),
{
    if b.len() == 0 {
        assert(a + b =~= a);
        if a.len() > 0 {
            lemma_navigation_params(a.drop_last(), b);
        }
    } else {
        lemma_navigation_params(a, b.drop_last());
        assert((a + b).drop_last() =~= a + b.drop_last());
        assert((a + b).last() == b.last());
        assert(navigation_params(a + b) =~= navigation_params(a) + navigation_params(b));
    }
}

/// Storing the navigation in chunks loses nothing: the chunks' parameters,
/// one after the other, are those of all links in order, with their locale
/// and position; and no chunk holds more than 32 links.
pub proof fn lemma_navigation_statements(rows: Seq<NavigationRowView>)
    ensures
        all_params(navigation_statements(rows)) == navigation_params(rows),
        forall|i: int|
            0 <= i < navigation_statements(rows).len() ==> (#[trigger] navigation_statements(rows)[i]).params.len()
                <= 4 * 32,
    decreases rows.len(),
{
    let st = navigation_statements(rows);
    if rows.len() == 0 {
    } else if rows.len() <= 32 {
        lemma_navigation_params(rows, Seq::empty());
        assert(st.drop_first() =~= Seq::<StatementView>::empty());
        assert(all_params(st.drop_first()) == Seq::<ValueView>::empty());
        assert(st[0].params == navigation_params(rows));
        assert(all_params(st) =~= navigation_params(rows));
    } else {
        let head = rows.take(32);
        let tail = rows.skip(32);
        lemma_navigation_statements(tail);
        lemma_navigation_params(head, tail);
        assert(head + tail =~= rows);
        let rest = navigation_statements(tail);
        assert(st == seq![navigation_insert_view(head)] + rest);
        assert(st.drop_first() =~= rest);
        assert(all_params(st) =~= navigation_params(rows));
        assert forall|i: int| 0 <= i < st.len() implies (#[trigger] st[i]).params.len() <= 4 * 32 by {
            if i > 0 {
                assert(st[i] == rest[i - 1]);
            }
        }
    }
}

pub open spec fn settings_update_view(c: BlogConfigView, default_locale: Seq<char>) -> StatementView {
    StatementView {
        sql: "UPDATE settings SET default_locale = $1, multilingual_enabled = $2, favicon_url = $3, article_type = $4, page_type = $5, posts_per_page = $6 WHERE id = 1"@,
        params: seq![
            ValueView::Text(default_locale),
            ValueView::Boolean(c.multilingual_enabled),
            opt_value(c.favicon_url),
            ValueView::Text(c.article_type),
            ValueView::Text(c.page_type),
            ValueView::Integer(c.posts_per_page as i64),
        ],
    }
}

pub open spec fn delete_localizations_view() -> StatementView {
    StatementView { sql: "DELETE FROM site_localization"@, params: Seq::empty() }
}

/// The statements, run in one transaction, that store valid settings: the
/// global settings row (with the default locale spelled as its
/// localization), then the localizations and navigation replaced as a whole.
pub open spec fn update_statements(c: BlogConfigView, default_locale: Seq<char>) -> Seq<StatementView> {
    seq![
        settings_update_view(c, default_locale),
        delete_localizations_view(),
        localization_insert_view(c.localizations),
    ] + navigation_statements(navigation_rows(c.localizations))
}

/// The statements that store new settings, after validating them; invalid
/// settings are refused with the validation message.
pub fn update(config: BlogConfig) -> (r: Result<Vec<Statement>, PluginError>)
    ensures
        match settings_problem(config@) {
            Some(m) => r matches Err(PluginError::BadRequest(e)) && e@ == m,
            None => {
                let i = find_locale(config@.localizations, config@.default_locale);
                if i < 0 {
                    r matches Err(PluginError::BadRequest(e)) && e@
                        == "default locale requires a localization"@
                } else {
                    r matches Ok(stmts) && statement_views(stmts@) == update_statements(
                        config@,
                        config@.localizations[i].locale,
                    )
                }
            },
        },
{
    match config.validate() {
        Ok(()) => {},
        Err(message) => {
            return Err(bad_request(message));
        },
    }
    proof {
        lemma_find_locale(config@.localizations, config@.default_locale);
        assert forall|j: int| 0 <= j < config.localizations@.len() implies
            (#[trigger] config.localizations@[j]).navigation@.len() <= 20 by {
            lemma_no_localization_problem(config@.localizations, 0, j);
            assert(config@.localizations[j] == config.localizations@[j]@);
        }
    }
    let position = position_of_locale(&config.localizations, config.default_locale.as_str());
    let default_locale = match position {
        Some(i) => config.localizations[i].locale.clone(),
        None => {
            return Err(bad_request("default locale requires a localization"));
        },
    };
    let ghost chosen = config@.localizations[find_locale(config@.localizations, config@.default_locale)].locale;
    assert(default_locale@ == chosen);
    let mut statements: Vec<Statement> = Vec::new();
    let mut sql = String::new();
    let ghost settings_sql = "UPDATE settings SET default_locale = $1, multilingual_enabled = $2, favicon_url = $3, article_type = $4, page_type = $5, posts_per_page = $6 WHERE id = 1"@;
    sql.append("UPDATE settings SET default_locale = $1, multilingual_enabled = $2, favicon_url = $3, article_type = $4, page_type = $5, posts_per_page = $6 WHERE id = 1");
    let mut params: Vec<DatabaseValue> = Vec::new();
    params.push(DatabaseValue::Text(default_locale));
    params.push(DatabaseValue::Boolean(config.multilingual_enabled));
    params.push(optional_text(&config.favicon_url));
    params.push(DatabaseValue::Text(config.article_type.clone()));
    params.push(DatabaseValue::Text(config.page_type.clone()));
    params.push(DatabaseValue::Integer(config.posts_per_page as i64));
    let update_settings = Statement { sql, params };
    assert(update_settings@.sql =~= settings_sql);
    assert(update_settings@.params =~= settings_update_view(config@, chosen).params);
    statements.push(update_settings);
    let mut delete = String::new();
    delete.append("DELETE FROM site_localization");
    let delete_all = Statement { sql: delete, params: Vec::new() };
    assert(delete_all@.sql =~= delete_localizations_view().sql);
    assert(delete_all@.params =~= delete_localizations_view().params);
    statements.push(delete_all);
    statements.push(localization_insert(config.localizations.as_slice()));
    let ghost head = statements@;
    assert(statement_views(head) =~= seq![
        settings_update_view(config@, chosen),
        delete_localizations_view(),
        localization_insert_view(config@.localizations),
    ]);
    let rows = navigation_rows_of(&config.localizations);
    let ghost all = nav_row_views(rows@);
    let mut start: usize = 0;
    assert(all.skip(0) =~= all);
    while start < rows.len()
        invariant
            start <= rows@.len(),
            all == nav_row_views(rows@),
            all == navigation_rows(config@.localizations),
            rows@.len() <= 400,
            statement_views(statements@) + navigation_statements(all.skip(start as int))
                == statement_views(head) + navigation_statements(all),
        decreases rows.len() - start,
    {
        let end: usize = if rows.len() - start > 32 {
            start + 32
        } else {
            rows.len()
        };
        let mut chunk: Vec<(&str, usize, &NavigationItem)> = Vec::new();
        let mut k: usize = start;
        while k < end
            invariant
                start <= k <= end,
                end <= rows@.len(),
                chunk@ == rows@.subrange(start as int, k as int),
            decreases end - k,
        {
            chunk.push(rows[k]);
            k = k + 1;
            assert(chunk@ =~= rows@.subrange(start as int, k as int));
        }
        let ghost before = statements@;
        statements.push(navigation_insert(chunk.as_slice()));
        proof {
            let rest = all.skip(start as int);
            assert(nav_row_views(chunk@) =~= if rest.len() <= 32 {
                rest
            } else {
                rest.take(32)
            });
            if rest.len() > 32 {
                assert(rest.skip(32) =~= all.skip(end as int));
            } else {
                assert(all.skip(end as int) =~= Seq::<NavigationRowView>::empty());
            }
            assert(statement_views(statements@) =~= statement_views(before).push(
                navigation_insert_view(nav_row_views(chunk@)),
            ));
            assert(statement_views(statements@) + navigation_statements(all.skip(end as int))
                =~= statement_views(before) + navigation_statements(rest));
        }
        start = end;
    }
    assert(all.skip(start as int) =~= Seq::<NavigationRowView>::empty());
    assert(statement_views(statements@) =~= statement_views(head) + navigation_statements(all));
    Ok(statements)
}

/// The navigation rows of the localizations (see `navigation_rows`).
fn navigation_rows_of<'a>(locs: &'a Vec<SiteLocalization>) -> (r: Vec<(&'a str, usize, &'a NavigationItem)>)
    requires
        locs@.len() <= 20,
        forall|i: int| 0 <= i < locs@.len() ==> (#[trigger] locs@[i]).navigation@.len() <= 20,
    ensures
        nav_row_views(r@) == navigation_rows(loc_views(locs@)),
        r@.len() <= 400,
{
    let mut rows: Vec<(&'a str, usize, &'a NavigationItem)> = Vec::new();
    let ghost vs = loc_views(locs@);
    let mut i: usize = 0;
    assert(vs.take(0) =~= Seq::<LocalizationView>::empty());
    while i < locs.len()
        invariant
            i <= locs@.len(),
            locs@.len() <= 20,
            forall|j: int| 0 <= j < locs@.len() ==> (#[trigger] locs@[j]).navigation@.len() <= 20,
            vs == loc_views(locs@),
            nav_row_views(rows@) == navigation_rows(vs.take(i as int)),
            rows@.len() <= 20 * i,
        decreases locs.len() - i,
    {
        let l = &locs[i];
        assert(vs.take(i + 1).drop_last() =~= vs.take(i as int));
        assert(vs.take(i + 1).last() == vs[i as int]);
        let ghost before = rows@;
        let mut k: usize = 0;
        while k < l.navigation.len()
            invariant
                k <= l.navigation@.len(),
                l.navigation@.len() <= 20,
                rows@.len() == before.len() + k,
                nav_row_views(rows@) == nav_row_views(before) + Seq::new(
                    k as nat,
                    |m: int|
                        NavigationRowView {
                            locale: l.locale@,
                            position: m as usize,
                            item: l.navigation@[m]@,
                        },
                ),
            decreases l.navigation.len() - k,
        {
            let ghost prev = rows@;
            let entry = (l.locale.as_str(), k, &l.navigation[k]);
            let ghost entry_view = NavigationRowView {
                locale: l.locale@,
                position: k,
                item: l.navigation@[k as int]@,
            };
            assert(entry.0@ == l.locale@);
            rows.push(entry);
            assert(nav_row_views(rows@) =~= nav_row_views(prev).push(entry_view));
            k = k + 1;
            assert(nav_row_views(rows@) =~= nav_row_views(before) + Seq::new(
                k as nat,
                |m: int|
                    NavigationRowView {
                        locale: l.locale@,
                        position: m as usize,
                        item: l.navigation@[m]@,
                    },
            ));
        }
        i = i + 1;
        assert(nav_row_views(rows@) =~= navigation_rows(vs.take(i as int)));
    }
    assert(vs.take(vs.len() as int) =~= vs);
    rows
}

} // verus!
