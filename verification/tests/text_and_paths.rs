//! Tests for text-span escaping and rendering, placeholder resolution, and
//! lexical asset path resolution.

use fractyl_renderer::placeholders::{
    PlaceholderValues, TextPlaceholderValue, TextSpan, UsedPlaceholders,
};
use fractyl_renderer::render::{PlaceholderWarning, Renderer};
use fractyl_renderer::schema::v1::{
    ContentBox, DynamicFragments, Position, RasterSize, Schema, StaticBase,
};

fn plain_span(value: &str) -> TextSpan {
    TextSpan {
        value: value.to_string(),
        fill: None,
        font_size: None,
        font_weight: None,
        font_family: None,
    }
}

fn empty_schema_at(schema_file: &str) -> Schema {
    Schema {
        schema_file: schema_file.to_string(),
        schema_version: 1,
        id: "s1".to_string(),
        name: "test".to_string(),
        content_box: ContentBox { width: 8, height: 8, raster_x: 0, raster_y: 0 },
        raster_size: RasterSize { width: 8, height: 8 },
        static_base: StaticBase {
            opaque: "opaque.png".to_string(),
            translucent: "translucent.png".to_string(),
            mask: "mask.png".to_string(),
        },
        fragments: DynamicFragments { images: vec![], text: vec![], shapes: vec![] },
    }
}

#[test]
fn escaping_replaces_special_characters_once() {
    let span = plain_span("A & B < C");
    assert_eq!(span.escaped_value(), "A &amp; B &lt; C");
}

#[test]
fn escaping_is_identity_on_safe_text() {
    let span = plain_span("hello world");
    assert_eq!(span.escaped_value(), "hello world");
    let twice = plain_span(&span.escaped_value());
    assert_eq!(twice.escaped_value(), "hello world");
}

#[test]
fn escaping_handles_greater_than() {
    let span = plain_span("a > b");
    assert_eq!(span.escaped_value(), "a &gt; b");
}

#[test]
fn tspan_with_no_attributes() {
    let span = plain_span("x");
    assert_eq!(span.to_tspan(), "<tspan  xml:space=\"preserve\">x</tspan>");
}

#[test]
fn tspan_with_styles_in_fixed_order() {
    let span = TextSpan {
        value: "hi".to_string(),
        fill: Some("#00AA00".to_string()),
        font_size: Some("12.5".to_string()),
        font_weight: Some(700),
        font_family: Some("Minecraft".to_string()),
    };
    assert_eq!(
        span.to_tspan(),
        "<tspan fill=\"#00AA00\" font-size=\"12.5\" font-weight=\"700\" \
         font-family=\"Minecraft\" xml:space=\"preserve\">hi</tspan>"
    );
}

#[test]
fn tspan_escapes_its_content() {
    let span = TextSpan {
        value: "a<b".to_string(),
        fill: Some("#fff".to_string()),
        font_size: None,
        font_weight: None,
        font_family: None,
    };
    assert_eq!(span.to_tspan(), "<tspan fill=\"#fff\" xml:space=\"preserve\">a&lt;b</tspan>");
}

#[test]
fn text_values_resolve_plain_strings_verbatim() {
    let values = PlaceholderValues {
        text: vec![(
            "title".to_string(),
            TextPlaceholderValue::String("raw & unescaped".to_string()),
        )],
        images: vec![],
        shapes: vec![],
    };
    let map = values.text();
    assert_eq!(map.len(), 1);
    assert_eq!(map[0].0, "title");
    assert_eq!(map[0].1, "raw & unescaped");
}

#[test]
fn text_values_concatenate_spans_in_order() {
    let values = PlaceholderValues {
        text: vec![
            (
                "multi".to_string(),
                TextPlaceholderValue::MultiTSpan(vec![plain_span("a"), plain_span("b")]),
            ),
            ("single".to_string(), TextPlaceholderValue::SingleTSpan(plain_span("c"))),
        ],
        images: vec![],
        shapes: vec![],
    };
    let map = values.text();
    assert_eq!(
        map[0].1,
        "<tspan  xml:space=\"preserve\">a</tspan><tspan  xml:space=\"preserve\">b</tspan>"
    );
    assert_eq!(map[1].1, "<tspan  xml:space=\"preserve\">c</tspan>");
}

#[test]
fn image_and_shape_values_pass_through() {
    let values = PlaceholderValues {
        text: vec![],
        images: vec![("skin".to_string(), "data:image/png;base64,xyz".to_string())],
        shapes: vec![("bar".to_string(), "500".to_string())],
    };
    assert_eq!(values.images(), vec![("skin".to_string(), "data:image/png;base64,xyz".to_string())]);
    assert_eq!(values.shapes(), vec![("bar".to_string(), "500".to_string())]);
}

#[test]
fn substitution_replaces_every_occurrence_globally() {
    let mut used: Vec<String> = vec![];
    let (code, warnings) = Renderer::replace_placeholders(
        &vec!["name".to_string()],
        &vec![("name".to_string(), "V".to_string())],
        "{name} and {name} and {other}".to_string(),
        &mut used,
        vec!["name".to_string()],
    );
    assert_eq!(code, "V and V and {other}");
    assert_eq!(used, vec!["name".to_string()]);
    assert!(warnings.is_empty());
}

#[test]
fn substitution_warns_once_per_undeclared_name() {
    let mut used: Vec<String> = vec![];
    let (code, warnings) = Renderer::replace_placeholders(
        &vec!["declared".to_string()],
        &vec![
            ("declared".to_string(), "A".to_string()),
            ("extra".to_string(), "B".to_string()),
        ],
        "{declared}/{extra}".to_string(),
        &mut used,
        vec!["declared".to_string()],
    );
    assert_eq!(code, "A/B");
    assert_eq!(used, vec!["declared".to_string(), "extra".to_string()]);
    assert_eq!(warnings.len(), 1);
    match &warnings[0] {
        PlaceholderWarning::Undeclared(name) => assert_eq!(name, "extra"),
        other => panic!("unexpected warning {:?}", other),
    }
}

#[test]
fn substitution_reports_declared_but_unused_names() {
    let mut used: Vec<String> = vec![];
    let (code, warnings) = Renderer::replace_placeholders(
        &vec!["a".to_string(), "b".to_string()],
        &vec![("a".to_string(), "1".to_string())],
        "{a}".to_string(),
        &mut used,
        vec!["a".to_string(), "b".to_string()],
    );
    assert_eq!(code, "1");
    assert_eq!(warnings.len(), 1);
    match &warnings[0] {
        PlaceholderWarning::Unused(names) => assert_eq!(names, &vec!["b".to_string()]),
        other => panic!("unexpected warning {:?}", other),
    }
}

#[test]
fn used_placeholders_start_empty() {
    let used = UsedPlaceholders::new();
    assert!(used.text.is_empty());
    assert!(used.images.is_empty());
    assert!(used.shapes.is_empty());
}

#[test]
fn position_as_tuple() {
    let p = Position { x: 3, y: 9 };
    assert_eq!(p.as_tuple(), (3, 9));
}

#[test]
fn asset_path_collapses_parent_references_lexically() {
    let schema = empty_schema_at("/tmp/proj/schema.json");
    assert_eq!(schema.absolute_asset_path("../shared/bg.png"), "/tmp/shared/bg.png");
}

#[test]
fn asset_path_resolves_relative_to_schema_directory() {
    let schema = empty_schema_at("/tmp/proj/schema.json");
    assert_eq!(schema.absolute_asset_path("base.png"), "/tmp/proj/base.png");
    assert_eq!(schema.absolute_asset_path("./sub/base.png"), "/tmp/proj/sub/base.png");
}

#[test]
fn asset_path_cannot_pop_below_the_root() {
    let schema = empty_schema_at("/top/schema.json");
    assert_eq!(schema.absolute_asset_path("../../../../etc/passwd"), "/etc/passwd");
}
