use crowd_levels::classify::{classify, Descriptor};
use crowd_levels::extract::{extract, ExtractionError, FetchMode};
use crowd_levels::percent::{parse_percentage, Percentage};

fn markup(payload: &str) -> Result<Percentage, ExtractionError> {
    extract(payload, FetchMode::Markup)
}

fn structured(payload: &str) -> Result<Percentage, ExtractionError> {
    extract(payload, FetchMode::Structured)
}

#[test]
fn precise_selector_finds_indicator_image() {
    let html = r#"<html><body>
        <img width="21" height="15" src="/x/pointer.png" style="margin-left: 42%">
    </body></html>"#;
    assert_eq!(markup(html), Ok(Percentage { hundredths: 4200 }));
}

#[test]
fn precise_regex_finds_reordered_indicator() {
    let html = r#"<img class="foo" src="/a/pointer.png" style="background;margin-left: 61%;">"#;
    assert_eq!(markup(html), Ok(Percentage { hundredths: 6100 }));
}

#[test]
fn generic_selector_wins_over_later_strategies() {
    // Matches strategy four (a generic `.indicator` selector) but none of
    // the first three; the fully generic margin search would find 55 first,
    // so 37 proves the cascade stopped at strategy four.
    let html = r#"<div style="margin-left: 55%"></div>
        <div class="indicator" style="margin-left: 37%"></div>"#;
    assert_eq!(markup(html), Ok(Percentage { hundredths: 3700 }));
}

#[test]
fn pointer_class_with_decimal_value() {
    let html = r#"<div class="pointer" style="margin-left: 42.75%"></div>"#;
    assert_eq!(markup(html), Ok(Percentage { hundredths: 4275 }));
}

#[test]
fn data_position_attribute_is_read() {
    let html = r#"<div id="pointer" data-position="55"></div>"#;
    assert_eq!(markup(html), Ok(Percentage { hundredths: 5500 }));
}

#[test]
fn data_position_that_is_not_numeric_is_skipped() {
    let html = r#"<div id="pointer" data-position="high"></div>"#;
    assert_eq!(markup(html), Err(ExtractionError::NotFound));
}

#[test]
fn javascript_assignment_is_found() {
    let html = "<script>var pointerPosition = 63;</script>";
    assert_eq!(markup(html), Ok(Percentage { hundredths: 6300 }));
}

#[test]
fn single_quoted_style_is_found_by_generic_search() {
    let html = "<div style='margin-left: 12.5%'></div>";
    assert_eq!(markup(html), Ok(Percentage { hundredths: 1250 }));
}

#[test]
fn markup_without_indicator_is_not_found() {
    assert_eq!(markup("<p>quiet in here</p>"), Err(ExtractionError::NotFound));
}

#[test]
fn structured_level_field_is_the_percentage() {
    assert_eq!(structured(r#"{"level": 42}"#), Ok(Percentage { hundredths: 4200 }));
    assert_eq!(structured(r#"{"level": 42.5}"#), Ok(Percentage { hundredths: 4250 }));
}

#[test]
fn structured_without_level_is_missing_field() {
    assert_eq!(structured(r#"{}"#), Err(ExtractionError::MissingField));
    assert_eq!(structured(r#"{"other": 3}"#), Err(ExtractionError::MissingField));
}

#[test]
fn structured_non_numeric_level_is_missing_field() {
    assert_eq!(structured(r#"{"level": "42"}"#), Err(ExtractionError::MissingField));
    assert_eq!(structured(r#"{"level": null}"#), Err(ExtractionError::MissingField));
}

#[test]
fn malformed_json_is_missing_field_not_a_crash() {
    assert_eq!(structured("{oops"), Err(ExtractionError::MissingField));
    assert_eq!(structured(""), Err(ExtractionError::MissingField));
    assert_eq!(structured("<html></html>"), Err(ExtractionError::MissingField));
}

#[test]
fn unparsable_structured_level_is_coerced_to_zero() {
    // A numeric but negative level is outside the captured shape; the
    // permissive policy reads it as zero rather than failing.
    assert_eq!(structured(r#"{"level": -5}"#), Ok(Percentage { hundredths: 0 }));
}

#[test]
fn parse_reads_integers_and_decimals() {
    assert_eq!(parse_percentage("42").hundredths, 4200);
    assert_eq!(parse_percentage("42.5").hundredths, 4250);
    assert_eq!(parse_percentage("0").hundredths, 0);
    assert_eq!(parse_percentage("007").hundredths, 700);
    assert_eq!(parse_percentage("100").hundredths, 10000);
}

#[test]
fn parse_truncates_beyond_two_decimals() {
    assert_eq!(parse_percentage("42.567").hundredths, 4256);
    assert_eq!(parse_percentage("99.999").hundredths, 9999);
}

#[test]
fn parse_caps_at_the_top_of_the_scale() {
    assert_eq!(parse_percentage("150").hundredths, 10000);
    assert_eq!(parse_percentage("100.01").hundredths, 10000);
    assert_eq!(parse_percentage("99999999999999999999999").hundredths, 10000);
}

#[test]
fn parse_reads_malformed_text_as_zero() {
    assert_eq!(parse_percentage("").hundredths, 0);
    assert_eq!(parse_percentage("abc").hundredths, 0);
    assert_eq!(parse_percentage(".5").hundredths, 0);
    assert_eq!(parse_percentage("5.").hundredths, 0);
    assert_eq!(parse_percentage("1e3").hundredths, 0);
    assert_eq!(parse_percentage("-5").hundredths, 0);
    assert_eq!(parse_percentage("4.2.1").hundredths, 0);
}

#[test]
fn pointer_text_near_margin_is_found() {
    // No indicator image and no pointer class or id, but "pointer.png"
    // stands just before a styled margin.
    let html = r#"<span data-x="pointer.png" style="margin-left: 41%"></span>"#;
    assert_eq!(markup(html), Ok(Percentage { hundredths: 4100 }));
}

#[test]
fn margin_without_spaces_is_found() {
    let html = r#"<img width="21" height="15" src="/pointer.png" style="margin-left:7%">"#;
    assert_eq!(markup(html), Ok(Percentage { hundredths: 700 }));
}

#[test]
fn percentage_text_is_canonical() {
    let text = |h: u64| Percentage { hundredths: h }.to_text();
    assert_eq!(text(0), "0");
    assert_eq!(text(4200), "42");
    assert_eq!(text(4250), "42.5");
    assert_eq!(text(4256), "42.56");
    assert_eq!(text(405), "4.05");
    assert_eq!(text(10000), "100");
}

#[test]
fn classify_thresholds_are_left_inclusive() {
    let classify_h = |h: u64| classify(&Percentage { hundredths: h });
    assert_eq!(classify_h(0), Descriptor::VeryLow);
    assert_eq!(classify_h(1999), Descriptor::VeryLow);
    assert_eq!(classify_h(2000), Descriptor::Low);
    assert_eq!(classify_h(3999), Descriptor::Low);
    assert_eq!(classify_h(4000), Descriptor::Moderate);
    assert_eq!(classify_h(5999), Descriptor::Moderate);
    assert_eq!(classify_h(6000), Descriptor::High);
    assert_eq!(classify_h(7999), Descriptor::High);
    assert_eq!(classify_h(8000), Descriptor::VeryHigh);
    assert_eq!(classify_h(10000), Descriptor::VeryHigh);
}

#[test]
fn descriptor_display_text() {
    assert_eq!(Descriptor::VeryLow.text(), "Very low");
    assert_eq!(Descriptor::Low.text(), "Low");
    assert_eq!(Descriptor::Moderate.text(), "Moderate");
    assert_eq!(Descriptor::High.text(), "High");
    assert_eq!(Descriptor::VeryHigh.text(), "Very high");
}
