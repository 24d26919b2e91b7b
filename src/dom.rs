//! Reading a result page's markup into the texts that extraction works on.

use vstd::prelude::*;
use scraper::{Html, Selector};
use crate::offer::RawFragment;
use crate::page::RawPage;

verus! {

/// What scraper selects from `markup`, parsed as a document: the markup of
/// each element that `selector` matches.
pub uninterp spec fn selected_markup(markup: Seq<char>, selector: Seq<char>) -> Seq<Seq<char>>;

/// What scraper selects from `markup`, parsed as a document: for each element
/// that `selector` matches, its text nodes joined by `joiner`.
pub uninterp spec fn selected_texts(markup: Seq<char>, selector: Seq<char>, joiner: Seq<char>) -> Seq<
    Seq<char>,
>;

/// What scraper selects from `markup`, parsed as a document: for each element
/// that `selector` matches, the value of its attribute `name`, if any.
pub uninterp spec fn selected_attrs(markup: Seq<char>, selector: Seq<char>, name: Seq<char>) -> Seq<
    Option<Seq<char>>,
>;

/// What scraper selects from `markup`, parsed as a document: inside the first
/// element that `outer` matches, the markup of each element that `inner`
/// matches; empty where nothing matches `outer`.
pub uninterp spec fn markup_within(markup: Seq<char>, outer: Seq<char>, inner: Seq<char>) -> Seq<
    Seq<char>,
>;

/// What scraper selects from `markup`, parsed as a document: inside the first
/// element that `outer` matches, for each element that `inner` matches, its
/// text nodes joined by `joiner`; empty where nothing matches `outer`.
pub uninterp spec fn texts_within(
    markup: Seq<char>,
    outer: Seq<char>,
    inner: Seq<char>,
    joiner: Seq<char>,
) -> Seq<Seq<char>>;

pub const ROOT_SELECTOR: &'static str = "#__next";

pub const ARTICLE_SELECTOR: &'static str = "article[data-cy=\"listing-item\"]";

pub const TITLE_SELECTOR: &'static str = "p[data-cy=\"listing-item-title\"]";

pub const PRICE_SELECTOR: &'static str = "div[data-testid=\"listing-item-header\"] span";

pub const LINK_SELECTOR: &'static str = "a[data-testid=\"listing-item-link\"]";

pub const HREF_ATTRIBUTE: &'static str = "href";

pub const LOCATION_SELECTOR: &'static str = "p[data-testid=\"advert-card-address\"]";

pub const SPECS_SELECTOR: &'static str = "div[data-testid=\"advert-card-specs-list\"] > dl";

pub const SPEC_ENTRY_SELECTOR: &'static str = "dd";

/// The pagination control inside the root container.
pub const PAGINATION_SELECTOR: &'static str =
    "#__next ul[data-testid=\"frontend.search.base-pagination.nexus-pagination\"]";

pub const PAGINATION_ENTRY_SELECTOR: &'static str = "li";

/// Separator put between the text nodes of one element.
pub const TEXT_JOINER: &'static str = " ";

pub open spec fn strings_view(s: Seq<String>) -> Seq<Seq<char>> {
    s.map_values(|t: String| t@)
}

pub open spec fn options_view(s: Seq<Option<String>>) -> Seq<Option<Seq<char>>> {
    s.map_values(|t: Option<String>| opt_view(t))
}

pub open spec fn opt_view(t: Option<String>) -> Option<Seq<char>> {
    match t {
        Some(v) => Some(v@),
        None => None,
    }
}

pub open spec fn first_of<A>(s: Seq<A>) -> Option<A> {
    if s.len() > 0 {
        Some(s[0])
    } else {
        None
    }
}

/// Relies on scraper's Html::parse_document, Selector::parse, Html::select and
/// ElementRef::html: the markup of each match, in the order select yields them;
/// empty for an invalid selector.
#[verifier::external_body]
fn select_markup(markup: &str, selector: &str) -> (r: Vec<String>)
    ensures
        strings_view(r@) == selected_markup(markup@, selector@),
{
    let doc = Html::parse_document(markup);
    match Selector::parse(selector) {
        Ok(sel) => doc.select(&sel).map(|e| e.html()).collect(),
        Err(_) => Vec::new(),
    }
}

/// Relies on scraper's Html::parse_document, Selector::parse, Html::select and
/// ElementRef::text: the joined text of each match, in the order select yields
/// them; empty for an invalid selector.
#[verifier::external_body]
fn select_texts(markup: &str, selector: &str, joiner: &str) -> (r: Vec<String>)
    ensures
        strings_view(r@) == selected_texts(markup@, selector@, joiner@),
{
    let doc = Html::parse_document(markup);
    match Selector::parse(selector) {
        Ok(sel) => doc.select(&sel).map(|e| e.text().collect::<Vec<_>>().join(joiner)).collect(),
        Err(_) => Vec::new(),
    }
}

/// Relies on scraper's Html::parse_document, Selector::parse, Html::select and
/// Element::attr: the attribute of each match, in the order select yields
/// them; empty for an invalid selector.
#[verifier::external_body]
fn select_attrs(markup: &str, selector: &str, name: &str) -> (r: Vec<Option<String>>)
    ensures
        options_view(r@) == selected_attrs(markup@, selector@, name@),
{
    let doc = Html::parse_document(markup);
    match Selector::parse(selector) {
        Ok(sel) => doc.select(&sel).map(|e| e.value().attr(name).map(|a| a.to_string())).collect(),
        Err(_) => Vec::new(),
    }
}

/// Relies on scraper's Html::parse_document, Selector::parse, Html::select,
/// ElementRef::select and ElementRef::html: inside the first match of `outer`,
/// the markup of each match of `inner`, in the order select yields them.
#[verifier::external_body]
fn select_markup_within(markup: &str, outer: &str, inner: &str) -> (r: Vec<String>)
    ensures
        strings_view(r@) == markup_within(markup@, outer@, inner@),
{
    let doc = Html::parse_document(markup);
    match (Selector::parse(outer), Selector::parse(inner)) {
        (Ok(o), Ok(i)) => match doc.select(&o).next() {
            Some(e) => e.select(&i).map(|x| x.html()).collect(),
            None => Vec::new(),
        },
        _ => Vec::new(),
    }
}

/// Relies on scraper's Html::parse_document, Selector::parse, Html::select,
/// ElementRef::select and ElementRef::text: inside the first match of `outer`,
/// the joined text of each match of `inner`, in the order select yields them.
#[verifier::external_body]
fn select_texts_within(markup: &str, outer: &str, inner: &str, joiner: &str) -> (r: Vec<String>)
    ensures
        strings_view(r@) == texts_within(markup@, outer@, inner@, joiner@),
{
    let doc = Html::parse_document(markup);
    match (Selector::parse(outer), Selector::parse(inner)) {
        (Ok(o), Ok(i)) => match doc.select(&o).next() {
            Some(e) => e.select(&i).map(|x| x.text().collect::<Vec<_>>().join(joiner)).collect(),
            None => Vec::new(),
        },
        _ => Vec::new(),
    }
}

/// `f` holds what the listing fragment `m` shows: the first title, price and
/// address texts, the first link's `href`, and the entries of the first
/// specification list, or none where that list is absent.
pub open spec fn read_from(m: Seq<char>, f: RawFragment) -> bool {
    &&& opt_view(f.title) == first_of(selected_texts(m, TITLE_SELECTOR@, TEXT_JOINER@))
    &&& opt_view(f.price_text) == first_of(selected_texts(m, PRICE_SELECTOR@, TEXT_JOINER@))
    &&& opt_view(f.location) == first_of(selected_texts(m, LOCATION_SELECTOR@, TEXT_JOINER@))
    &&& opt_view(f.href) == (match first_of(selected_attrs(m, LINK_SELECTOR@, HREF_ATTRIBUTE@)) {
        Some(a) => a,
        None => None,
    })
    &&& (f.specs is None <==> selected_markup(m, SPECS_SELECTOR@).len() == 0)
    &&& (f.specs matches Some(v) ==> strings_view(v@) == texts_within(
        m,
        SPECS_SELECTOR@,
        SPEC_ENTRY_SELECTOR@,
        TEXT_JOINER@,
    ))
}

fn first_text(markup: &str, selector: &str) -> (r: Option<String>)
    ensures
        opt_view(r) == first_of(selected_texts(markup@, selector@, TEXT_JOINER@)),
{
    let texts = select_texts(markup, selector, TEXT_JOINER);
    if texts.len() == 0 {
        None
    } else {
        assert(strings_view(texts@)[0] == texts@[0]@);
        Some(texts[0].clone())
    }
}

/// Locates the fields of one listing fragment in its markup.
pub fn read_fragment(markup: &str) -> (r: RawFragment)
    ensures
        read_from(markup@, r),
{
    let attrs = select_attrs(markup, LINK_SELECTOR, HREF_ATTRIBUTE);
    let href = if attrs.len() == 0 {
        None
    } else {
        assert(options_view(attrs@)[0] == opt_view(attrs@[0]));
        attrs[0].clone()
    };
    let specs = if select_markup(markup, SPECS_SELECTOR).len() == 0 {
        None
    } else {
        Some(select_texts_within(markup, SPECS_SELECTOR, SPEC_ENTRY_SELECTOR, TEXT_JOINER))
    };
    RawFragment {
        title: first_text(markup, TITLE_SELECTOR),
        price_text: first_text(markup, PRICE_SELECTOR),
        href,
        location: first_text(markup, LOCATION_SELECTOR),
        specs,
    }
}

/// Locates the root container of a result page, reads each listing fragment
/// inside it, and the entries of its pagination control.
pub fn read_page(markup: &str) -> (r: RawPage)
    ensures
        r.has_root == (selected_markup(markup@, ROOT_SELECTOR@).len() > 0),
        !r.has_root ==> r.fragments@.len() == 0 && r.pagination is None,
        r.has_root ==> r.fragments@.len() == markup_within(
            markup@,
            ROOT_SELECTOR@,
            ARTICLE_SELECTOR@,
        ).len(),
        r.has_root ==> forall|i: int|
            0 <= i < r.fragments@.len() ==> read_from(
                #[trigger] markup_within(markup@, ROOT_SELECTOR@, ARTICLE_SELECTOR@)[i],
                r.fragments@[i],
            ),
        r.has_root ==> (r.pagination is None <==> selected_markup(
            markup@,
            PAGINATION_SELECTOR@,
        ).len() == 0),
        r.pagination matches Some(v) ==> strings_view(v@) == texts_within(
            markup@,
            PAGINATION_SELECTOR@,
            PAGINATION_ENTRY_SELECTOR@,
            TEXT_JOINER@,
        ),
{
    if select_markup(markup, ROOT_SELECTOR).len() == 0 {
        return RawPage { has_root: false, fragments: Vec::new(), pagination: None };
    }
    let articles = select_markup_within(markup, ROOT_SELECTOR, ARTICLE_SELECTOR);
    let ghost found = markup_within(markup@, ROOT_SELECTOR@, ARTICLE_SELECTOR@);
    let mut fragments: Vec<RawFragment> = Vec::new();
    let mut i: usize = 0;
    while i < articles.len()
        invariant
            i <= articles.len(),
            strings_view(articles@) == found,
            fragments@.len() == i,
            forall|j: int| 0 <= j < i ==> read_from(#[trigger] found[j], fragments@[j]),
        decreases articles.len() - i,
    {
        assert(found[i as int] == articles@[i as int]@);
        let f = read_fragment(articles[i].as_str());
        fragments.push(f);
        i += 1;
    }
    let pagination = if select_markup(markup, PAGINATION_SELECTOR).len() == 0 {
        None
    } else {
        Some(
            select_texts_within(
                markup,
                PAGINATION_SELECTOR,
                PAGINATION_ENTRY_SELECTOR,
                TEXT_JOINER,
            ),
        )
    };
    RawPage { has_root: true, fragments, pagination }
}

} // verus!
