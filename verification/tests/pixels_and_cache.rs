//! Tests for alpha blending, the mask-guided base construction, and the
//! decoded-image cache.

use fractyl_renderer::placeholders::PlaceholderValues;
use fractyl_renderer::render::cache::ImageBufCache;
use fractyl_renderer::render::raster::Raster;
use fractyl_renderer::render::Renderer;
use fractyl_renderer::schema::v1::{
    ContentBox, DynamicFragments, RasterSize, Schema, StaticBase,
};

fn empty_values() -> PlaceholderValues {
    PlaceholderValues { text: vec![], images: vec![], shapes: vec![] }
}

fn test_schema() -> Schema {
    Schema {
        schema_file: "/tmp/proj/schema.json".to_string(),
        schema_version: 1,
        id: "s1".to_string(),
        name: "test".to_string(),
        content_box: ContentBox { width: 4, height: 4, raster_x: 0, raster_y: 0 },
        raster_size: RasterSize { width: 4, height: 4 },
        static_base: StaticBase {
            opaque: "opaque.png".to_string(),
            translucent: "translucent.png".to_string(),
            mask: "mask.png".to_string(),
        },
        fragments: DynamicFragments { images: vec![], text: vec![], shapes: vec![] },
    }
}

fn solid(width: u32, height: u32, px: [u8; 4]) -> Raster {
    let n = (width * height) as usize;
    Raster::from_pixels(width, height, vec![px; n]).unwrap()
}

#[test]
fn blend_with_opaque_source_replaces() {
    let out = Renderer::blend_rgba([10, 20, 30, 255], [200, 100, 50, 90]);
    assert_eq!(out, [10, 20, 30, 255]);
}

#[test]
fn blend_with_transparent_source_keeps_destination() {
    let out = Renderer::blend_rgba([99, 98, 97, 0], [200, 100, 50, 255]);
    assert_eq!(out, [200, 100, 50, 255]);
}

#[test]
fn blend_of_two_transparent_pixels_is_transparent_black() {
    let out = Renderer::blend_rgba([99, 98, 97, 0], [200, 100, 50, 0]);
    assert_eq!(out, [0, 0, 0, 0]);
}

#[test]
fn blend_half_alpha_over_opaque() {
    // src_a = 1, out_alpha = 1; red = (255 * 128/255) / 1 rounded,
    // blue = (255 * 1 * (1 - 128/255)) / 1 rounded.
    let out = Renderer::blend_rgba([255, 0, 0, 128], [0, 0, 255, 255]);
    assert_eq!(out[3], 255);
    assert_eq!(out[0], 128);
    assert_eq!(out[1], 0);
    assert_eq!(out[2], 127);
}

#[test]
fn mask_white_and_opaque_top_takes_top() {
    let schema = test_schema();
    let options = resvg::usvg::Options::default();
    let renderer = Renderer::build(schema, empty_values(), &options);
    let background = solid(1, 1, [9, 9, 9, 255]);
    let top = solid(1, 1, [1, 2, 3, 255]);
    let mask = solid(1, 1, [255, 255, 255, 255]);
    let out = renderer.create_translucent_base(background, &top, &mask);
    assert_eq!(out.get_pixel(0, 0), [1, 2, 3, 255]);
}

#[test]
fn mask_white_and_transparent_top_keeps_background() {
    let schema = test_schema();
    let options = resvg::usvg::Options::default();
    let renderer = Renderer::build(schema, empty_values(), &options);
    let background = solid(1, 1, [9, 8, 7, 42]);
    let top = solid(1, 1, [1, 2, 3, 0]);
    let mask = solid(1, 1, [255, 255, 255, 255]);
    let out = renderer.create_translucent_base(background, &top, &mask);
    assert_eq!(out.get_pixel(0, 0), [9, 8, 7, 42]);
}

#[test]
fn mask_not_white_takes_top_whatever_its_alpha() {
    let schema = test_schema();
    let options = resvg::usvg::Options::default();
    let renderer = Renderer::build(schema, empty_values(), &options);
    let background = solid(1, 1, [9, 8, 7, 255]);
    let top = solid(1, 1, [1, 2, 3, 0]);
    let mask = solid(1, 1, [0, 0, 0, 255]);
    let out = renderer.create_translucent_base(background, &top, &mask);
    assert_eq!(out.get_pixel(0, 0), [1, 2, 3, 0]);
}

#[test]
fn oversized_background_is_cropped_to_the_mask() {
    let schema = test_schema();
    let options = resvg::usvg::Options::default();
    let renderer = Renderer::build(schema, empty_values(), &options);
    // 3x2 background with a distinctive pixel at (1, 1).
    let mut pixels = vec![[10, 10, 10, 255]; 6];
    pixels[3 + 1] = [77, 0, 0, 255];
    let background = Raster::from_pixels(3, 2, pixels).unwrap();
    let top = solid(2, 2, [0, 0, 0, 0]);
    let mask = solid(2, 2, [255, 255, 255, 255]);
    let out = renderer.create_translucent_base(background, &top, &mask);
    assert_eq!(out.get_width(), 2);
    assert_eq!(out.get_height(), 2);
    // Transparent top under a white mask: the cropped background shows.
    assert_eq!(out.get_pixel(1, 1), [77, 0, 0, 255]);
    assert_eq!(out.get_pixel(0, 0), [10, 10, 10, 255]);
}

#[test]
fn raster_from_pixels_checks_the_buffer_length() {
    assert!(Raster::from_pixels(2, 2, vec![[0, 0, 0, 0]; 4]).is_some());
    assert!(Raster::from_pixels(2, 2, vec![[0, 0, 0, 0]; 3]).is_none());
}

#[test]
fn raster_crop_keeps_the_top_left_corner() {
    let mut pixels = Vec::new();
    for i in 0..12u8 {
        pixels.push([i, 0, 0, 255]);
    }
    let img = Raster::from_pixels(4, 3, pixels).unwrap();
    let cropped = img.crop_to(2, 2);
    assert_eq!(cropped.get_width(), 2);
    assert_eq!(cropped.get_height(), 2);
    assert_eq!(cropped.get_pixel(0, 0), [0, 0, 0, 255]);
    assert_eq!(cropped.get_pixel(1, 1), [5, 0, 0, 255]);
}

#[test]
fn cache_returns_inserted_buffer_for_matching_filters_twice() {
    let mut cache = ImageBufCache::new();
    cache.add_entry("schema-a", "base.png", solid(2, 1, [5, 6, 7, 255]));
    for _ in 0..2 {
        let hit = cache
            .filter_for(Some("schema-a".to_string()), Some("base.png".to_string()))
            .expect("lookup should hit");
        assert_eq!(hit.get_width(), 2);
        assert_eq!(hit.get_height(), 1);
        assert_eq!(hit.get_pixel(0, 0), [5, 6, 7, 255]);
    }
}

#[test]
fn cache_misses_when_either_filter_differs() {
    let mut cache = ImageBufCache::new();
    cache.add_entry("schema-a", "base.png", solid(1, 1, [5, 6, 7, 255]));
    assert!(cache.filter_for(Some("schema-b".to_string()), Some("base.png".to_string())).is_none());
    assert!(cache.filter_for(Some("schema-a".to_string()), Some("other.png".to_string())).is_none());
}

#[test]
fn cache_absent_filter_is_a_wildcard() {
    let mut cache = ImageBufCache::new();
    cache.add_entry("schema-a", "base.png", solid(1, 1, [1, 1, 1, 255]));
    cache.add_entry("schema-b", "base.png", solid(1, 1, [2, 2, 2, 255]));
    // The first matching entry wins.
    let hit = cache.filter_for(None, Some("base.png".to_string())).unwrap();
    assert_eq!(hit.get_pixel(0, 0), [1, 1, 1, 255]);
    let hit = cache.filter_for(Some("schema-b".to_string()), None).unwrap();
    assert_eq!(hit.get_pixel(0, 0), [2, 2, 2, 255]);
}
