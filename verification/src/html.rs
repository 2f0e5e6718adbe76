//! HTML documents, parsed and queried through the `scraper` crate.
use vstd::prelude::*;

verus! {

#[verifier::external_type_specification]
#[verifier::external_body]
pub struct ExHtml(scraper::Html);

/// What the logic reads of one element: the values of the attributes it asked
/// for (in the order asked), and the element's descendant text nodes in order.
pub struct ElementView {
    pub attrs: Seq<Option<Seq<char>>>,
    pub text: Seq<Seq<char>>,
}

/// The elements of the document `doc` that the CSS selector `selector` matches,
/// in the order `scraper::Html::select` yields them (the order the parser
/// created the nodes in), read as `ElementView`s with the attributes `attrs`
/// (`None` where `scraper::Selector::parse` refuses the selector).
pub uninterp spec fn html_select(doc: Seq<char>, selector: Seq<char>, attrs: Seq<Seq<char>>) -> Option<Seq<ElementView>>;

/// For each element of `doc` that `outer` matches, in the order
/// `scraper::Html::select` yields them, the first of its descendants that `inner` matches, read with the attributes `attrs`
/// (`None` where either selector is refused).
pub uninterp spec fn html_select_within(
    doc: Seq<char>,
    outer: Seq<char>,
    inner: Seq<char>,
    attrs: Seq<Seq<char>>,
) -> Option<Seq<Option<ElementView>>>;

/// A parsed HTML document and the text it was parsed from.
pub struct Document {
    dom: scraper::Html,
    source: Ghost<Seq<char>>,
}

impl View for Document {
    type V = Seq<char>;

    closed spec fn view(&self) -> Seq<char> {
        self.source@
    }
}

/// One selected element: the asked attributes' values and its text nodes.
pub struct HtmlElement {
    pub attrs: Vec<Option<String>>,
    pub text: Vec<String>,
}

/// Views of optional strings.
pub open spec fn opt_views(v: Seq<Option<String>>) -> Seq<Option<Seq<char>>> {
    v.map_values(
        |o: Option<String>|
            match o {
                Some(s) => Some(s@),
                None => None,
            },
    )
}

/// Views of strings.
pub open spec fn str_views(v: Seq<String>) -> Seq<Seq<char>> {
    v.map_values(|s: String| s@)
}

impl View for HtmlElement {
    type V = ElementView;

    open spec fn view(&self) -> ElementView {
        ElementView { attrs: opt_views(self.attrs@), text: str_views(self.text@) }
    }
}

/// Views of elements.
pub open spec fn element_views(v: Seq<HtmlElement>) -> Seq<ElementView> {
    v.map_values(|e: HtmlElement| e@)
}

/// Views of optional elements.
pub open spec fn opt_element_views(v: Seq<Option<HtmlElement>>) -> Seq<Option<ElementView>> {
    v.map_values(
        |o: Option<HtmlElement>|
            match o {
                Some(e) => Some(e@),
                None => None,
            },
    )
}

/// Views of attribute names.
pub open spec fn name_views(v: Seq<&str>) -> Seq<Seq<char>> {
    v.map_values(|s: &str| s@)
}

impl Document {
    /// `scraper::Html::parse_document`.
    #[verifier::external_body]
    pub(crate) fn parse(html: &str) -> (d: Document)
        ensures
            d@ == html@,
    {
        Document { dom: scraper::Html::parse_document(html), source: Ghost(html@) }
    }

    /// `scraper::Selector::parse` and `scraper::Html::select`, each element read
    /// with `Element::attr` for the names in `attrs` and `ElementRef::text`. The
    /// result is what `html_select` names.
    #[verifier::external_body]
    pub(crate) fn select(&self, selector: &str, attrs: &[&str]) -> (r: Option<Vec<HtmlElement>>)
        ensures
            match r {
                Some(v) => html_select(self@, selector@, name_views(attrs@)) == Some(
                    element_views(v@),
                ),
                None => html_select(self@, selector@, name_views(attrs@)) is None,
            },
            r matches Some(v) ==> forall|i: int|
                0 <= i < v@.len() ==> (#[trigger] v@[i]).attrs@.len() == attrs@.len(),
    {
        let sel = scraper::Selector::parse(selector).ok()?;
        Some(self.dom.select(&sel).map(|el| HtmlElement {
            attrs: attrs.iter().map(|a| el.value().attr(a).map(|v| v.to_string())).collect(),
            text: el.text().map(|t| t.to_string()).collect(),
        }).collect())
    }

    /// `scraper::Html::select` with `outer`, and in each element found the first
    /// descendant `ElementRef::select` finds with `inner`, read as in `select`.
    /// The result is what `html_select_within` names.
    #[verifier::external_body]
    pub(crate) fn select_within(&self, outer: &str, inner: &str, attrs: &[&str]) -> (r: Option<Vec<Option<HtmlElement>>>)
        ensures
            match r {
                Some(v) => html_select_within(self@, outer@, inner@, name_views(attrs@)) == Some(
                    opt_element_views(v@),
                ),
                None => html_select_within(self@, outer@, inner@, name_views(attrs@)) is None,
            },
            r matches Some(v) ==> forall|i: int|
                0 <= i < v@.len() ==> ((#[trigger] v@[i]) matches Some(e) ==> e.attrs@.len()
                    == attrs@.len()),
    {
        let o = scraper::Selector::parse(outer).ok()?;
        let i = scraper::Selector::parse(inner).ok()?;
        Some(self.dom.select(&o).map(|block| block.select(&i).next().map(|el| HtmlElement {
            attrs: attrs.iter().map(|a| el.value().attr(a).map(|v| v.to_string())).collect(),
            text: el.text().map(|t| t.to_string()).collect(),
        })).collect())
    }
}

} // verus!
