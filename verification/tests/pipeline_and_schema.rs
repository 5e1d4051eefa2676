//! End-to-end tests: schema decoding from JSON text, and the full
//! rasterize-and-composite pipeline with the real vector rasterizer.

use fractyl_renderer::placeholders::PlaceholderValues;
use fractyl_renderer::render::raster::Raster;
use fractyl_renderer::render::{FragmentTemplates, Renderer, RenderingError};
use fractyl_renderer::schema::v1::{
    ContentBox, DynamicFragments, Mode, Position, RasterSize, Schema, ShapeFragment, StaticBase,
    TextFragment,
};
use fractyl_renderer::json::JsonValue;
use fractyl_renderer::schema::v1::load_schema_v1;
use fractyl_renderer::schema::{load_schema_from_str, SchemaError};

const SCHEMA_JSON: &str = r#"{
    "schemaVersion": 1,
    "id": "bedwars",
    "name": "Bedwars Stats",
    "contentBox": {"width": 700, "height": 500, "rasterX": 20, "rasterY": 30},
    "rasterSize": {"width": 740, "height": 560},
    "staticBase": {"opaque": "base.png", "translucent": "trans.png", "mask": "mask.png"},
    "fragments": {
        "text": [
            {"src": "title.svg", "position": {"x": 1, "y": 2}, "placeholders": ["title"]}
        ],
        "images": [],
        "shapes": [
            {"src": "bar.svg", "position": {"x": 3, "y": 4}, "placeholders": [],
             "widthMode": "dynamic", "heightMode": "fixed", "colorMode": "dynamic"}
        ]
    }
}"#;

fn empty_values() -> PlaceholderValues {
    PlaceholderValues { text: vec![], images: vec![], shapes: vec![] }
}

fn solid(width: u32, height: u32, px: [u8; 4]) -> Raster {
    let n = (width * height) as usize;
    Raster::from_pixels(width, height, vec![px; n]).unwrap()
}

fn no_templates() -> FragmentTemplates {
    FragmentTemplates { text: vec![], images: vec![], shapes: vec![] }
}

#[test]
fn schema_loads_from_valid_json() {
    let schema = load_schema_from_str("/tmp/proj/schema.json", SCHEMA_JSON).unwrap();
    assert_eq!(schema.schema_file, "/tmp/proj/schema.json");
    assert_eq!(schema.schema_version, 1);
    assert_eq!(schema.id, "bedwars");
    assert_eq!(schema.name, "Bedwars Stats");
    assert_eq!(schema.content_box.width, 700);
    assert_eq!(schema.content_box.raster_x, 20);
    assert_eq!(schema.content_box.raster_y, 30);
    assert_eq!(schema.raster_size.width, 740);
    assert_eq!(schema.raster_size.height, 560);
    assert_eq!(schema.static_base.opaque, "base.png");
    assert_eq!(schema.static_base.translucent, "trans.png");
    assert_eq!(schema.static_base.mask, "mask.png");
    assert_eq!(schema.fragments.text.len(), 1);
    assert_eq!(schema.fragments.text[0].src, "title.svg");
    assert_eq!(schema.fragments.text[0].position.as_tuple(), (1, 2));
    assert_eq!(schema.fragments.text[0].placeholders, vec!["title".to_string()]);
    assert_eq!(schema.fragments.images.len(), 0);
    assert_eq!(schema.fragments.shapes.len(), 1);
    assert!(matches!(schema.fragments.shapes[0].width_mode, Mode::Dynamic));
    assert!(matches!(schema.fragments.shapes[0].height_mode, Mode::Fixed));
    assert!(matches!(schema.fragments.shapes[0].color_mode, Mode::Dynamic));
}

#[test]
fn schema_with_bad_syntax_is_a_decode_error() {
    let r = load_schema_from_str("/tmp/s.json", "{not json");
    assert!(matches!(r, Err(SchemaError::SchemaDecodeError)));
}

#[test]
fn schema_without_version_is_malformed() {
    let r = load_schema_from_str("/tmp/s.json", r#"{"name": "x"}"#);
    assert!(matches!(r, Err(SchemaError::MalformedSchema(_))));
}

#[test]
fn schema_with_unknown_version_is_rejected() {
    let r = load_schema_from_str("/tmp/s.json", r#"{"schemaVersion": 2}"#);
    assert!(matches!(r, Err(SchemaError::UnknownVersion(2))));
}

#[test]
fn schema_with_missing_field_is_malformed() {
    let without_name = SCHEMA_JSON.replace("\"name\": \"Bedwars Stats\",", "");
    let r = load_schema_from_str("/tmp/s.json", &without_name);
    assert!(matches!(r, Err(SchemaError::MalformedSchema(_))));
}

#[test]
fn schema_with_mistyped_field_is_malformed() {
    let bad = SCHEMA_JSON.replace("\"width\": 700", "\"width\": \"wide\"");
    let r = load_schema_from_str("/tmp/s.json", &bad);
    assert!(matches!(r, Err(SchemaError::MalformedSchema(_))));
}

fn pipeline_schema(text: Vec<TextFragment>, shapes: Vec<ShapeFragment>) -> Schema {
    Schema {
        schema_file: "/tmp/proj/schema.json".to_string(),
        schema_version: 1,
        id: "s1".to_string(),
        name: "test".to_string(),
        content_box: ContentBox { width: 8, height: 8, raster_x: 0, raster_y: 0 },
        raster_size: RasterSize { width: 8, height: 8 },
        static_base: StaticBase {
            opaque: "opaque.png".to_string(),
            translucent: "translucent.png".to_string(),
            mask: "mask.png".to_string(),
        },
        fragments: DynamicFragments { images: vec![], text, shapes },
    }
}

fn text_fragment(placeholders: Vec<String>) -> TextFragment {
    TextFragment {
        src: "text.svg".to_string(),
        position: Position { x: 0, y: 0 },
        placeholders,
    }
}

fn shape_fragment() -> ShapeFragment {
    ShapeFragment {
        src: "shape.svg".to_string(),
        position: Position { x: 0, y: 0 },
        placeholders: vec![],
        width_mode: Mode::Fixed,
        height_mode: Mode::Fixed,
        color_mode: Mode::Fixed,
    }
}

const RED_SVG: &str = r##"<svg xmlns="http://www.w3.org/2000/svg" width="8" height="8"><rect x="0" y="0" width="8" height="8" fill="#ff0000"/></svg>"##;

const BLUE_QUARTER_SVG: &str = r##"<svg xmlns="http://www.w3.org/2000/svg" width="8" height="8"><rect x="0" y="0" width="4" height="4" fill="#0000ff"/></svg>"##;

#[test]
fn opaque_render_keeps_the_base_dimensions() {
    let schema = pipeline_schema(vec![], vec![]);
    let options = resvg::usvg::Options::default();
    let mut renderer = Renderer::build(schema, empty_values(), &options);
    let base = solid(8, 8, [255, 255, 255, 255]);
    let out = renderer.render_opaque(base, &no_templates()).unwrap();
    assert_eq!(out.get_width(), 8);
    assert_eq!(out.get_height(), 8);
    assert_eq!(out.get_pixel(3, 3), [255, 255, 255, 255]);
}

#[test]
fn shapes_draw_over_text() {
    let schema = pipeline_schema(vec![text_fragment(vec![])], vec![shape_fragment()]);
    let options = resvg::usvg::Options::default();
    let mut renderer = Renderer::build(schema, empty_values(), &options);
    let base = solid(8, 8, [255, 255, 255, 255]);
    let templates = FragmentTemplates {
        text: vec![RED_SVG.as_bytes().to_vec()],
        images: vec![],
        shapes: vec![BLUE_QUARTER_SVG.as_bytes().to_vec()],
    };
    let out = renderer.render_opaque(base, &templates).unwrap();
    // Inside the overlap the shape, drawn after the text, is visible.
    assert_eq!(out.get_pixel(1, 1), [0, 0, 255, 255]);
    // Outside the shape the text layer shows.
    assert_eq!(out.get_pixel(6, 6), [255, 0, 0, 255]);
}

#[test]
fn fragment_position_offsets_by_the_content_box() {
    let mut schema = pipeline_schema(vec![text_fragment(vec![])], vec![]);
    schema.content_box.raster_x = 2;
    schema.content_box.raster_y = 2;
    let options = resvg::usvg::Options::default();
    let mut renderer = Renderer::build(schema, empty_values(), &options);
    let base = solid(8, 8, [255, 255, 255, 255]);
    let templates = FragmentTemplates {
        text: vec![BLUE_QUARTER_SVG.as_bytes().to_vec()],
        images: vec![],
        shapes: vec![],
    };
    let out = renderer.render_opaque(base, &templates).unwrap();
    // The 4x4 blue square now starts at (2, 2).
    assert_eq!(out.get_pixel(1, 1), [255, 255, 255, 255]);
    assert_eq!(out.get_pixel(3, 3), [0, 0, 255, 255]);
    assert_eq!(out.get_pixel(5, 5), [0, 0, 255, 255]);
    assert_eq!(out.get_pixel(6, 6), [255, 255, 255, 255]);
}

#[test]
fn placeholders_substitute_into_the_template() {
    let schema = pipeline_schema(vec![text_fragment(vec!["color".to_string()])], vec![]);
    let options = resvg::usvg::Options::default();
    let mut renderer = Renderer::build(
        schema,
        PlaceholderValues {
            text: vec![(
                "color".to_string(),
                fractyl_renderer::placeholders::TextPlaceholderValue::String(
                    "#00ff00".to_string(),
                ),
            )],
            images: vec![],
            shapes: vec![],
        },
        &options,
    );
    let template = RED_SVG.replace("#ff0000", "{color}");
    let base = solid(8, 8, [255, 255, 255, 255]);
    let templates = FragmentTemplates {
        text: vec![template.as_bytes().to_vec()],
        images: vec![],
        shapes: vec![],
    };
    let out = renderer.render_opaque(base, &templates).unwrap();
    assert_eq!(out.get_pixel(4, 4), [0, 255, 0, 255]);
    assert!(renderer.warnings.is_empty());
    assert_eq!(renderer.used_placeholders.text, vec!["color".to_string()]);
}

#[test]
fn diagnostics_fire_once_per_render_and_do_not_abort() {
    let schema = pipeline_schema(
        vec![text_fragment(vec!["declared_only".to_string()])],
        vec![],
    );
    let options = resvg::usvg::Options::default();
    let mut renderer = Renderer::build(
        schema,
        PlaceholderValues {
            text: vec![(
                "undeclared".to_string(),
                fractyl_renderer::placeholders::TextPlaceholderValue::String("x".to_string()),
            )],
            images: vec![],
            shapes: vec![],
        },
        &options,
    );
    let base = solid(8, 8, [255, 255, 255, 255]);
    let templates = FragmentTemplates {
        text: vec![RED_SVG.as_bytes().to_vec()],
        images: vec![],
        shapes: vec![],
    };
    let out = renderer.render_opaque(base, &templates);
    assert!(out.is_ok());
    assert_eq!(renderer.warnings.len(), 2);
    match &renderer.warnings[0] {
        fractyl_renderer::render::PlaceholderWarning::Undeclared(name) => {
            assert_eq!(name, "undeclared")
        },
        other => panic!("unexpected warning {:?}", other),
    }
    match &renderer.warnings[1] {
        fractyl_renderer::render::PlaceholderWarning::Unused(names) => {
            assert_eq!(names, &vec!["declared_only".to_string()])
        },
        other => panic!("unexpected warning {:?}", other),
    }
}

#[test]
fn translucent_render_takes_the_mask_dimensions() {
    let schema = pipeline_schema(vec![], vec![]);
    let options = resvg::usvg::Options::default();
    let mut renderer = Renderer::build(schema, empty_values(), &options);
    let background = solid(10, 9, [10, 10, 10, 255]);
    let translucent = solid(8, 8, [0, 0, 0, 0]);
    let mask = solid(8, 8, [255, 255, 255, 255]);
    let out = renderer
        .render_translucent(background, &translucent, &mask, &no_templates())
        .unwrap();
    assert_eq!(out.get_width(), 8);
    assert_eq!(out.get_height(), 8);
    assert_eq!(out.get_pixel(0, 0), [10, 10, 10, 255]);
}

#[test]
fn invalid_template_encoding_fails_the_render() {
    let schema = pipeline_schema(vec![text_fragment(vec![])], vec![]);
    let options = resvg::usvg::Options::default();
    let mut renderer = Renderer::build(schema, empty_values(), &options);
    let base = solid(8, 8, [255, 255, 255, 255]);
    let templates = FragmentTemplates {
        text: vec![vec![0xff, 0xfe, 0x00]],
        images: vec![],
        shapes: vec![],
    };
    let r = renderer.render_opaque(base, &templates);
    assert!(matches!(r, Err(RenderingError::UTF8EncodingError)));
}

#[test]
fn unparsable_markup_fails_the_render() {
    let schema = pipeline_schema(vec![text_fragment(vec![])], vec![]);
    let options = resvg::usvg::Options::default();
    let mut renderer = Renderer::build(schema, empty_values(), &options);
    let base = solid(8, 8, [255, 255, 255, 255]);
    let templates = FragmentTemplates {
        text: vec![b"this is not svg".to_vec()],
        images: vec![],
        shapes: vec![],
    };
    let r = renderer.render_opaque(base, &templates);
    assert!(matches!(r, Err(RenderingError::SVGParseError)));
}

#[test]
fn degenerate_raster_size_fails_allocation() {
    let mut schema = pipeline_schema(vec![], vec![]);
    schema.raster_size = RasterSize { width: 0, height: 8 };
    let options = resvg::usvg::Options::default();
    let mut renderer = Renderer::build(schema, empty_values(), &options);
    let base = solid(8, 8, [255, 255, 255, 255]);
    let r = renderer.render_opaque(base, &no_templates());
    assert!(matches!(r, Err(RenderingError::PixmapAllocationError)));
}

#[test]
fn schema_decoder_accepts_a_hand_built_document() {
    let obj = |fields: Vec<(&str, JsonValue)>| {
        JsonValue::Obj(fields.into_iter().map(|(k, v)| (k.to_string(), v)).collect())
    };
    let num = |n: u64| JsonValue::Num(Some(n));
    let s = |t: &str| JsonValue::Str(t.to_string());

    let doc = obj(vec![
        ("schemaVersion", num(1)),
        ("id", s("s1")),
        ("name", s("hand built")),
        (
            "contentBox",
            obj(vec![
                ("width", num(10)),
                ("height", num(20)),
                ("rasterX", num(1)),
                ("rasterY", num(2)),
            ]),
        ),
        ("rasterSize", obj(vec![("width", num(12)), ("height", num(24))])),
        (
            "staticBase",
            obj(vec![("opaque", s("o.png")), ("translucent", s("t.png")), ("mask", s("m.png"))]),
        ),
        (
            "fragments",
            obj(vec![
                ("text", JsonValue::Arr(vec![])),
                ("images", JsonValue::Arr(vec![])),
                ("shapes", JsonValue::Arr(vec![])),
            ]),
        ),
    ]);

    let schema = load_schema_v1("/tmp/hand/schema.json", &doc).unwrap();
    assert_eq!(schema.name, "hand built");
    assert_eq!(schema.content_box.height, 20);
    assert_eq!(schema.raster_size.width, 12);
    assert_eq!(schema.static_base.translucent, "t.png");
}

#[test]
fn schema_with_number_too_large_for_a_dimension_is_malformed() {
    let bad = SCHEMA_JSON.replace("\"width\": 700", "\"width\": 5000000000");
    let r = load_schema_from_str("/tmp/s.json", &bad);
    assert!(matches!(r, Err(SchemaError::MalformedSchema(_))));
}
