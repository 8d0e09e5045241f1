//! Crowd-signal extraction from heterogeneous web payloads.
//!
//! Markup mode searches an HTML document for the indicator element whose
//! inline `margin-left` percentage encodes occupancy, applying a fixed
//! cascade of strategies and returning the first success: precise element
//! selectors, a precise markup regex, a relaxed variant, generic fallback
//! selectors (style or `data-position`), regex search near "pointer",
//! JavaScript assignment patterns, and finally any `margin-left` inside a
//! `style` attribute. Structured mode reads a top-level numeric `level`
//! field from a JSON payload.

use vstd::prelude::*;
use crate::percent::{Percentage, parse_percentage, percentage_of_text, is_decimal_text, is_decimal};

verus! {

/// A typed extraction failure.
#[derive(Clone, Copy, PartialEq, Eq, Structural, Debug)]
pub enum ExtractionError {
    /// No strategy found an indicator value in the markup.
    NotFound,
    /// The structured payload has no top-level numeric `level` field.
    MissingField,
}

/// How a site's payload is retrieved and read.
#[derive(Clone, Copy, PartialEq, Eq, Structural, Debug)]
pub enum FetchMode {
    /// The page itself; occupancy is encoded in indicator markup.
    Markup,
    /// A JSON endpoint; occupancy is the `level` field.
    Structured,
}

/// The first capture group of the leftmost match of a regex pattern in a
/// haystack, if any.
pub uninterp spec fn first_capture(pattern: Seq<char>, haystack: Seq<char>) -> Option<Seq<char>>;

/// Relies on regex::Regex::new and regex::Regex::captures: the leftmost
/// match of a pattern in a haystack, and its first capture group, depend on
/// the pattern and the haystack alone. A pattern that does not compile
/// matches nothing.
#[verifier::external_body]
fn regex_first_capture(pattern: &str, haystack: &str) -> (r: Option<String>)
    ensures
        r is Some <==> first_capture(pattern@, haystack@) is Some,
        r is Some ==> r->Some_0@ == first_capture(pattern@, haystack@)->Some_0,
{
    match regex::Regex::new(pattern) {
        Ok(re) => re
            .captures(haystack)
            .and_then(|c| c.get(1))
            .map(|m| m.as_str().to_string()),
        Err(_) => None,
    }
}

/// The attributes the cascade reads from one selector-matched element.
pub struct ElemAttrs {
    pub style: Option<String>,
    pub data_position: Option<String>,
}

impl View for ElemAttrs {
    type V = (Option<Seq<char>>, Option<Seq<char>>);

    open spec fn view(&self) -> Self::V {
        (
            match self.style {
                Some(s) => Some(s@),
                None => None,
            },
            match self.data_position {
                Some(s) => Some(s@),
                None => None,
            },
        )
    }
}

/// The `style` and `data-position` attributes of the elements of a document
/// matching a CSS selector, in document order.
pub uninterp spec fn css_matches(html: Seq<char>, selector: Seq<char>) -> Seq<
    (Option<Seq<char>>, Option<Seq<char>>),
>;

/// Relies on scraper::Html::parse_document, scraper::Selector::parse and
/// scraper::Html::select: the elements of a document matching a CSS
/// selector, in document order, and their attributes, depend on the document
/// text and the selector alone. A selector that does not parse matches
/// nothing.
#[verifier::external_body]
fn css_select_attrs(html: &str, selector: &str) -> (r: Vec<ElemAttrs>)
    ensures
        r@.map_values(|e: ElemAttrs| e@) == css_matches(html@, selector@),
{
    let doc = scraper::Html::parse_document(html);
    match scraper::Selector::parse(selector) {
        Ok(sel) => doc
            .select(&sel)
            .map(|el| ElemAttrs {
                style: el.value().attr("style").map(|a| a.to_string()),
                data_position: el.value().attr("data-position").map(|a| a.to_string()),
            })
            .collect(),
        Err(_) => Vec::new(),
    }
}

/// The decimal text of the top-level numeric `level` field of a JSON
/// payload, if the payload parses and has one.
pub uninterp spec fn json_level_text(payload: Seq<char>) -> Option<Seq<char>>;

/// Relies on serde_json::from_str and serde_json::Value::get: whether a
/// payload is a JSON document with a top-level numeric field named "level",
/// and that number's decimal text, depend on the payload alone.
#[verifier::external_body]
fn json_level(payload: &str) -> (r: Option<String>)
    ensures
        r is Some <==> json_level_text(payload@) is Some,
        r is Some ==> r->Some_0@ == json_level_text(payload@)->Some_0,
{
    match serde_json::from_str::<serde_json::Value>(payload) {
        Ok(v) => match v.get("level") {
            Some(serde_json::Value::Number(n)) => Some(n.to_string()),
            _ => None,
        },
        _ => None,
    }
}

/// The pattern that reads a `margin-left` percentage out of a style text.
pub open spec fn margin_pattern() -> Seq<char> {
    "margin-left:\\s*(\\d+(?:\\.\\d+)?)%"@
}

/// Precise selectors for the known indicator image.
pub open spec fn exact_selectors() -> Seq<Seq<char>> {
    seq![
        "img[src*='wp-content/plugins/cxo-crowd-level//resources/img/pointer.png']"@,
        "img[width='21'][height='15'][src*='pointer.png']"@,
        "img.entered.lazyloaded[src*='pointer.png']"@,
        "img[data-ll-status='loaded'][src*='pointer.png']"@,
    ]
}

/// The precise indicator-markup pattern and its relaxed variant.
pub open spec fn precise_patterns() -> Seq<Seq<char>> {
    seq![
        "<img[^>]*src=\"[^\"]*pointer\\.png\"[^>]*style=\"[^\"]*margin-left:\\s*(\\d+(?:\\.\\d+)?)%[^\"]*\"[^>]*>"@,
        "<img width=\"21\" height=\"15\" src=\"[^\"]*pointer\\.png\" style=\"margin-left:\\s*(\\d+(?:\\.\\d+)?)%;\"[^>]*>"@,
    ]
}

/// Generic fallback selectors: pointer images, pointer classes and ids, and
/// slider or indicator elements that may carry the value.
pub open spec fn generic_selectors() -> Seq<Seq<char>> {
    seq![
        "img[src*='pointer.png']"@,
        "img[src*='pointer']"@,
        ".pointer"@,
        "#pointer"@,
        "[class*='pointer']"@,
        "[id*='pointer']"@,
        ".slider-pointer"@,
        ".carousel-pointer"@,
        ".indicator"@,
        ".slider-indicator"@,
        ".nav-pointer"@,
        ".navigation-indicator"@,
    ]
}

/// Raw-markup patterns looking for "pointer" near a `margin-left`
/// percentage, in both attribute-then-value and value-then-attribute order.
pub open spec fn pointer_patterns() -> Seq<Seq<char>> {
    seq![
        "pointer\\.png[^>]*style=\"[^\"]*margin-left:\\s*(\\d+(?:\\.\\d+)?)%"@,
        "pointer[^>]*style=\"[^\"]*margin-left:\\s*(\\d+(?:\\.\\d+)?)%"@,
        "style=\"[^\"]*margin-left:\\s*(\\d+(?:\\.\\d+)?)%[^\"]*pointer"@,
    ]
}

/// JavaScript assignment patterns that set a pointer position.
pub open spec fn js_patterns() -> Seq<Seq<char>> {
    seq![
        "pointerPosition\\s*=\\s*(\\d+(?:\\.\\d+)?)"@,
        "setPointerPosition\\s*\\(\\s*(\\d+(?:\\.\\d+)?)"@,
        "margin-left['\"]\\s*:\\s*['\"]([\\d.]+)%"@,
    ]
}

/// Fully generic patterns: any `margin-left` percentage inside a
/// double-quoted or single-quoted `style` attribute.
pub open spec fn generic_margin_patterns() -> Seq<Seq<char>> {
    seq![
        "style=\".*?margin-left:\\s*(\\d+(?:\\.\\d+)?)%.*?\""@,
        "style='.*?margin-left:\\s*(\\d+(?:\\.\\d+)?)%.*?'"@,
    ]
}

/// The value found on the first element whose `style` yields a
/// `margin-left` capture or, when `use_data` is set, whose `data-position`
/// is well-shaped decimal text.
pub open spec fn first_style_margin(
    elems: Seq<(Option<Seq<char>>, Option<Seq<char>>)>,
    use_data: bool,
) -> Option<Seq<char>>
    decreases elems.len(),
{
    if elems.len() == 0 {
        None
    } else {
        let from_style = match elems[0].0 {
            Some(st) => first_capture(margin_pattern(), st),
            None => None,
        };
        match from_style {
            Some(v) => Some(v),
            None => {
                let from_data = if use_data {
                    match elems[0].1 {
                        Some(dp) => if is_decimal_text(dp) {
                            Some(dp)
                        } else {
                            None
                        },
                        None => None,
                    }
                } else {
                    None
                };
                match from_data {
                    Some(v) => Some(v),
                    None => first_style_margin(elems.drop_first(), use_data),
                }
            },
        }
    }
}

/// The value found by the first selector in `sels` that succeeds.
pub open spec fn selectors_result(html: Seq<char>, sels: Seq<Seq<char>>, use_data: bool) -> Option<
    Seq<char>,
>
    decreases sels.len(),
{
    if sels.len() == 0 {
        None
    } else {
        match first_style_margin(css_matches(html, sels[0]), use_data) {
            Some(v) => Some(v),
            None => selectors_result(html, sels.drop_first(), use_data),
        }
    }
}

/// The capture of the first pattern in `pats` that matches.
pub open spec fn patterns_result(html: Seq<char>, pats: Seq<Seq<char>>) -> Option<Seq<char>>
    decreases pats.len(),
{
    if pats.len() == 0 {
        None
    } else {
        match first_capture(pats[0], html) {
            Some(v) => Some(v),
            None => patterns_result(html, pats.drop_first()),
        }
    }
}

/// The whole markup cascade, strategies in fixed priority order.
pub open spec fn markup_extraction(html: Seq<char>) -> Option<Seq<char>> {
    match selectors_result(html, exact_selectors(), false) {
        Some(v) => Some(v),
        None => match patterns_result(html, precise_patterns()) {
            Some(v) => Some(v),
            None => match selectors_result(html, generic_selectors(), true) {
                Some(v) => Some(v),
                None => match patterns_result(html, pointer_patterns()) {
                    Some(v) => Some(v),
                    None => match patterns_result(html, js_patterns()) {
                        Some(v) => Some(v),
                        None => patterns_result(html, generic_margin_patterns()),
                    },
                },
            },
        },
    }
}

/// What `extract` returns, as a value in hundredths or a typed failure.
pub open spec fn extraction_spec(payload: Seq<char>, mode: FetchMode) -> Result<
    int,
    ExtractionError,
> {
    match mode {
        FetchMode::Markup => match markup_extraction(payload) {
            Some(t) => Ok(percentage_of_text(t)),
            None => Err(ExtractionError::NotFound),
        },
        FetchMode::Structured => match json_level_text(payload) {
            Some(t) => Ok(percentage_of_text(t)),
            None => Err(ExtractionError::MissingField),
        },
    }
}

/// Extracts the `margin-left` percentage text from one style attribute.
pub fn extract_margin_left(style: &str) -> (r: Option<String>)
    ensures
        r is Some <==> first_capture(margin_pattern(), style@) is Some,
        r is Some ==> r->Some_0@ == first_capture(margin_pattern(), style@)->Some_0,
{
    regex_first_capture("margin-left:\\s*(\\d+(?:\\.\\d+)?)%", style)
}

fn first_margin_in_elems(elems: &Vec<ElemAttrs>, use_data: bool) -> (r: Option<String>)
    ensures
        ({
            let ev = elems@.map_values(|e: ElemAttrs| e@);
            &&& (r is Some <==> first_style_margin(ev, use_data) is Some)
            &&& (r is Some ==> r->Some_0@ == first_style_margin(ev, use_data)->Some_0)
        }),
{
    let ghost ev = elems@.map_values(|e: ElemAttrs| e@);
    proof {
        assert(ev.skip(0) =~= ev);
    }
    let mut i: usize = 0;
    while i < elems.len()
        invariant
            i <= elems@.len(),
            ev == elems@.map_values(|e: ElemAttrs| e@),
            ev.len() == elems@.len(),
            first_style_margin(ev.skip(i as int), use_data) == first_style_margin(ev, use_data),
        decreases elems@.len() - i,
    {
        proof {
            assert(ev.skip(i as int).drop_first() =~= ev.skip(i + 1));
            assert(ev.skip(i as int)[0] == ev[i as int]);
            assert(ev[i as int] == elems@[i as int]@);
        }
        let e = &elems[i];
        match &e.style {
            Some(st) => {
                let m = extract_margin_left(st.as_str());
                if m.is_some() {
                    return m;
                }
            },
            None => {},
        }
        if use_data {
            match &e.data_position {
                Some(dp) => {
                    if is_decimal(dp.as_str()) {
                        return Some(dp.clone());
                    }
                },
                None => {},
            }
        }
        i = i + 1;
    }
    proof {
        assert(ev.skip(ev.len() as int) =~= Seq::<(Option<Seq<char>>, Option<Seq<char>>)>::empty());
    }
    None
}

fn run_selector_strategy(html: &str, sels: &Vec<&str>, use_data: bool) -> (r: Option<String>)
    ensures
        ({
            let sv = sels@.map_values(|s: &str| s@);
            &&& (r is Some <==> selectors_result(html@, sv, use_data) is Some)
            &&& (r is Some ==> r->Some_0@ == selectors_result(html@, sv, use_data)->Some_0)
        }),
{
    let ghost sv = sels@.map_values(|s: &str| s@);
    proof {
        assert(sv.skip(0) =~= sv);
    }
    let mut i: usize = 0;
    while i < sels.len()
        invariant
            i <= sels@.len(),
            sv == sels@.map_values(|s: &str| s@),
            sv.len() == sels@.len(),
            selectors_result(html@, sv.skip(i as int), use_data) == selectors_result(
                html@,
                sv,
                use_data,
            ),
        decreases sels@.len() - i,
    {
        proof {
            assert(sv.skip(i as int).drop_first() =~= sv.skip(i + 1));
            assert(sv.skip(i as int)[0] == sv[i as int]);
            assert(sv[i as int] == sels@[i as int]@);
        }
        let elems = css_select_attrs(html, sels[i]);
        let m = first_margin_in_elems(&elems, use_data);
        if m.is_some() {
            return m;
        }
        i = i + 1;
    }
    proof {
        assert(sv.skip(sv.len() as int) =~= Seq::<Seq<char>>::empty());
    }
    None
}

fn run_pattern_strategy(html: &str, pats: &Vec<&str>) -> (r: Option<String>)
    ensures
        ({
            let pv = pats@.map_values(|p: &str| p@);
            &&& (r is Some <==> patterns_result(html@, pv) is Some)
            &&& (r is Some ==> r->Some_0@ == patterns_result(html@, pv)->Some_0)
        }),
{
    let ghost pv = pats@.map_values(|p: &str| p@);
    proof {
        assert(pv.skip(0) =~= pv);
    }
    let mut i: usize = 0;
    while i < pats.len()
        invariant
            i <= pats@.len(),
            pv == pats@.map_values(|p: &str| p@),
            pv.len() == pats@.len(),
            patterns_result(html@, pv.skip(i as int)) == patterns_result(html@, pv),
        decreases pats@.len() - i,
    {
        proof {
            assert(pv.skip(i as int).drop_first() =~= pv.skip(i + 1));
            assert(pv.skip(i as int)[0] == pv[i as int]);
            assert(pv[i as int] == pats@[i as int]@);
        }
        let m = regex_first_capture(pats[i], html);
        if m.is_some() {
            return m;
        }
        i = i + 1;
    }
    proof {
        assert(pv.skip(pv.len() as int) =~= Seq::<Seq<char>>::empty());
    }
    None
}

/// Finds the indicator's `margin-left` percentage text in an HTML document,
/// trying the cascade's strategies in fixed priority order.
pub fn find_pointer_margin_left(html: &str) -> (r: Option<String>)
    ensures
        r is Some <==> markup_extraction(html@) is Some,
        r is Some ==> r->Some_0@ == markup_extraction(html@)->Some_0,
{
    let sels: Vec<&str> = vec![
        "img[src*='wp-content/plugins/cxo-crowd-level//resources/img/pointer.png']",
        "img[width='21'][height='15'][src*='pointer.png']",
        "img.entered.lazyloaded[src*='pointer.png']",
        "img[data-ll-status='loaded'][src*='pointer.png']",
    ];
    proof {
        assert(sels@.map_values(|s: &str| s@) =~= exact_selectors());
    }
    let r = run_selector_strategy(html, &sels, false);
    if r.is_some() {
        return r;
    }
    let pats: Vec<&str> = vec![
        "<img[^>]*src=\"[^\"]*pointer\\.png\"[^>]*style=\"[^\"]*margin-left:\\s*(\\d+(?:\\.\\d+)?)%[^\"]*\"[^>]*>",
        "<img width=\"21\" height=\"15\" src=\"[^\"]*pointer\\.png\" style=\"margin-left:\\s*(\\d+(?:\\.\\d+)?)%;\"[^>]*>",
    ];
    proof {
        assert(pats@.map_values(|p: &str| p@) =~= precise_patterns());
    }
    let r = run_pattern_strategy(html, &pats);
    if r.is_some() {
        return r;
    }
    let sels: Vec<&str> = vec![
        "img[src*='pointer.png']",
        "img[src*='pointer']",
        ".pointer",
        "#pointer",
        "[class*='pointer']",
        "[id*='pointer']",
        ".slider-pointer",
        ".carousel-pointer",
        ".indicator",
        ".slider-indicator",
        ".nav-pointer",
        ".navigation-indicator",
    ];
    proof {
        assert(sels@.map_values(|s: &str| s@) =~= generic_selectors());
    }
    let r = run_selector_strategy(html, &sels, true);
    if r.is_some() {
        return r;
    }
    let pats: Vec<&str> = vec![
        "pointer\\.png[^>]*style=\"[^\"]*margin-left:\\s*(\\d+(?:\\.\\d+)?)%",
        "pointer[^>]*style=\"[^\"]*margin-left:\\s*(\\d+(?:\\.\\d+)?)%",
        "style=\"[^\"]*margin-left:\\s*(\\d+(?:\\.\\d+)?)%[^\"]*pointer",
    ];
    proof {
        assert(pats@.map_values(|p: &str| p@) =~= pointer_patterns());
    }
    let r = run_pattern_strategy(html, &pats);
    if r.is_some() {
        return r;
    }
    let pats: Vec<&str> = vec![
        "pointerPosition\\s*=\\s*(\\d+(?:\\.\\d+)?)",
        "setPointerPosition\\s*\\(\\s*(\\d+(?:\\.\\d+)?)",
        "margin-left['\"]\\s*:\\s*['\"]([\\d.]+)%",
    ];
    proof {
        assert(pats@.map_values(|p: &str| p@) =~= js_patterns());
    }
    let r = run_pattern_strategy(html, &pats);
    if r.is_some() {
        return r;
    }
    let pats: Vec<&str> = vec![
        "style=\".*?margin-left:\\s*(\\d+(?:\\.\\d+)?)%.*?\"",
        "style='.*?margin-left:\\s*(\\d+(?:\\.\\d+)?)%.*?'",
    ];
    proof {
        assert(pats@.map_values(|p: &str| p@) =~= generic_margin_patterns());
    }
    run_pattern_strategy(html, &pats)
}

/// Derives the occupancy percentage from one payload, read per the fetch
/// mode: in markup mode the cascade's first success parsed under the
/// permissive policy, or `NotFound`; in structured mode the JSON `level`
/// field, or `MissingField`.
pub fn extract(payload: &str, mode: FetchMode) -> (r: Result<Percentage, ExtractionError>)
    ensures
        r is Ok <==> extraction_spec(payload@, mode) is Ok,
        r is Ok ==> r->Ok_0.hundredths == extraction_spec(payload@, mode)->Ok_0
            && r->Ok_0.is_valid(),
        r is Err ==> r->Err_0 == extraction_spec(payload@, mode)->Err_0,
{
    match mode {
        FetchMode::Markup => match find_pointer_margin_left(payload) {
            Some(t) => Ok(parse_percentage(t.as_str())),
            None => Err(ExtractionError::NotFound),
        },
        FetchMode::Structured => match json_level(payload) {
            Some(t) => Ok(parse_percentage(t.as_str())),
            None => Err(ExtractionError::MissingField),
        },
    }
}

/// The cascade's ordering is deterministic: when the precise selectors and
/// the two precise patterns all fail but the generic-selector strategy
/// succeeds, extraction returns that strategy's value, never a later one's.
pub proof fn lemma_strategy_order(html: Seq<char>)
    requires
        selectors_result(html, exact_selectors(), false) is None,
        patterns_result(html, precise_patterns()) is None,
        selectors_result(html, generic_selectors(), true) is Some,
    ensures
        markup_extraction(html) == selectors_result(html, generic_selectors(), true),
{
}

} // verus!
