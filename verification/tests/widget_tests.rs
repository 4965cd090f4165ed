//! Glyph cache, widget styles, draw passes, properties and drag handling.

use glyph_layout::cache::{CacheKey, GlyphCache};
use glyph_layout::drag::{
    drag_handle_mouse_move, drag_handle_mouse_press, drag_handle_mouse_release, DragEvent,
    DragInputEvent, DragInputHandler, ElementState, HandlerKind, MouseButton, MouseButtonKind,
    MouseMoved, WidgetBuilder, WidgetMouseButton,
};
use glyph_layout::font::{FontMetrics, GlyphMetric, VMetrics};
use glyph_layout::geom::{black, transparent, Color, Point, Rect};
use glyph_layout::property::{PropChange, PropChangeHandler, PropSet, Property};
use glyph_layout::style::Value;
use glyph_layout::text::{DrawPrimitive, TextState, TextStyle};
use glyph_layout::widget_text::{
    apply_text_style, draw_text, text_drawable, TextDrawState, TextStyle as WidgetTextStyle,
};

fn small_font() -> FontMetrics {
    let mut glyphs = Vec::new();
    let mut id = 1u32;
    for c in "abcdefghij ".chars() {
        glyphs.push(GlyphMetric {
            ch: c,
            glyph: id,
            advance: 10,
            width: if c == ' ' { 0 } else { 8 },
            height: if c == ' ' { 0 } else { 12 },
        });
        id += 1;
    }
    FontMetrics::new(3, 20, VMetrics { ascent: 16, descent: 4, line_gap: 2 }, glyphs)
}

fn key(glyph: u32) -> CacheKey {
    CacheKey { font_id: 3, glyph, size: 20 }
}

#[test]
fn queued_glyphs_become_resident() {
    let mut cache = GlyphCache::new(64, 64);
    cache.queue_glyph(key(1), 8, 12);
    cache.queue_glyph(key(2), 8, 12);
    cache.queue_glyph(key(2), 8, 12); // queueing twice is harmless
    let (uploads, outcome) = cache.cache_queued();
    assert!(outcome.is_ok());
    assert_eq!(uploads.len(), 2);
    assert!(cache.rect_for(key(1)).is_some());
    assert!(cache.rect_for(key(2)).is_some());
    // Re-querying without re-queueing still answers; nothing is evicted.
    assert!(cache.rect_for(key(1)).is_some());
    assert_eq!(cache.rect_for(key(9)), None);
}

#[test]
fn atlas_overflow_reports_and_skips() {
    let mut cache = GlyphCache::new(8, 8);
    cache.queue_glyph(key(1), 16, 16);
    let (uploads, outcome) = cache.cache_queued();
    assert!(outcome.is_err());
    assert_eq!(uploads.len(), 0);
    assert_eq!(cache.rect_for(key(1)), None);
}

#[test]
fn overflow_keeps_the_glyphs_that_fit() {
    // The batch overflows, but partial text is better than none: the
    // glyphs the shelf packing places stay resident.
    let mut cache = GlyphCache::new(10, 10);
    cache.queue_glyph(key(1), 10, 10);
    cache.queue_glyph(key(2), 20, 20);
    let (uploads, outcome) = cache.cache_queued();
    assert!(outcome.is_err());
    assert_eq!(uploads.len(), 1);
    assert!(cache.rect_for(key(1)).is_some());
    assert_eq!(cache.rect_for(key(2)), None);
}

#[test]
fn eviction_repacks_the_current_batch() {
    let mut cache = GlyphCache::new(20, 20);
    cache.queue_glyph(key(1), 20, 10);
    let (_, outcome) = cache.cache_queued();
    assert!(outcome.is_ok());
    // A second batch that cannot share the atlas evicts the first key.
    cache.queue_glyph(key(2), 20, 12);
    let (uploads, outcome) = cache.cache_queued();
    assert!(outcome.is_ok());
    assert_eq!(uploads.len(), 1);
    assert!(cache.rect_for(key(2)).is_some());
    assert_eq!(cache.rect_for(key(1)), None);
}

#[test]
fn resident_regions_do_not_overlap() {
    let mut cache = GlyphCache::new(30, 30);
    for g in 1..=6u32 {
        cache.queue_glyph(key(g), 10, 10);
    }
    let (uploads, outcome) = cache.cache_queued();
    assert!(outcome.is_ok());
    assert_eq!(uploads.len(), 6);
    for i in 0..uploads.len() {
        for j in (i + 1)..uploads.len() {
            let a = uploads[i].rect;
            let b = uploads[j].rect;
            let disjoint = a.x + a.width <= b.x || b.x + b.width <= a.x
                || a.y + a.height <= b.y || b.y + b.height <= a.y;
            assert!(disjoint, "{:?} overlaps {:?}", a, b);
        }
    }
}

#[test]
fn draw_emits_background_only_when_opaque() {
    let font = small_font();
    let bounds = Rect::new(0, 0, 200, 100);
    let style = TextStyle::from_text("abc");
    let state = TextState::new(3, &style);
    let prims = state.draw(&font, bounds);
    assert_eq!(prims.len(), 1);
    match &prims[0] {
        DrawPrimitive::Text { glyphs, color, .. } => {
            assert_eq!(glyphs.len(), 3);
            assert_eq!(*color, black());
        },
        _ => panic!("expected a text run"),
    }
    let mut style = TextStyle::from_text("abc");
    style.background_color = Some(Color { r: 9, g: 9, b: 9, a: 255 });
    let state = TextState::new(3, &style);
    let prims = state.draw(&font, bounds);
    assert_eq!(prims.len(), 2);
    match &prims[0] {
        DrawPrimitive::FillRect { bounds: b, color } => {
            assert_eq!(*b, bounds);
            assert_eq!(color.r, 9);
        },
        _ => panic!("expected a background fill"),
    }
}

#[test]
fn text_state_measures() {
    let font = small_font();
    let style = TextStyle::from_text("ab\nabcd");
    let state = TextState::new(3, &style);
    // line height = font_size(24) + line_gap(2) = 26
    assert_eq!(state.line_height(&font), 26);
    assert_eq!(state.min_height(&font), 26);
    let size = state.measure(&font);
    assert_eq!(size.width, 40);
    assert_eq!(size.height, 2 * 26);
    assert!(state.text_fits("ab", &font, Rect::new(0, 0, 100, 26)));
    assert!(!state.text_fits("ab", &font, Rect::new(0, 0, 100, 25)));
    let rects = state.get_line_rects(&font, Rect::new(0, 0, 100, 100));
    assert_eq!(rects.len(), 2);
    let glyphs = state.position_glyphs(&font, Rect::new(0, 0, 100, 100));
    assert_eq!(glyphs.len(), 6);
}

#[test]
fn full_draw_pass_caches_every_glyph() {
    let font = small_font();
    let state = TextDrawState::new_default("abc abc".to_string(), 3);
    let mut cache = GlyphCache::new(256, 256);
    let d = draw_text(&state, &font, Rect::new(0, 0, 500, 100), &mut cache);
    assert!(!d.overflow);
    assert_eq!(d.background, Rect::new(0, 0, 500, 100));
    assert_eq!(d.background_color, transparent());
    // 7 positioned glyphs, but only 3 distinct keys were uploaded.
    assert_eq!(d.uploads.len(), 4); // 'a', 'b', 'c' and the space
    assert_eq!(d.glyph_rects.len(), 7);
    // The screen rectangle of the first glyph sits at the line top.
    let (screen, uv) = d.glyph_rects[0];
    assert_eq!((screen.x, screen.y), (0, 0));
    assert_eq!((screen.width, screen.height), (uv.width as u64, uv.height as u64));
}

#[test]
fn draw_pass_overflow_skips_glyphs_without_panicking() {
    let font = small_font();
    let state = TextDrawState::new_default("abc".to_string(), 3);
    let mut cache = GlyphCache::new(4, 4);
    let d = draw_text(&state, &font, Rect::new(0, 0, 500, 100), &mut cache);
    assert!(d.overflow);
    assert_eq!(d.glyph_rects.len(), 0);
}

#[test]
fn draw_pass_overflow_still_draws_what_is_resident() {
    // Room for two of the three glyph bitmaps: the pass reports overflow
    // but still hands back rectangles for the glyphs that are resident.
    let font = small_font();
    let state = TextDrawState::new_default("abc".to_string(), 3);
    let mut cache = GlyphCache::new(16, 12);
    let d = draw_text(&state, &font, Rect::new(0, 0, 500, 100), &mut cache);
    assert!(d.overflow);
    assert_eq!(d.uploads.len(), 2);
    assert_eq!(d.glyph_rects.len(), 2);
}

#[test]
fn style_values_resolve_by_property_set() {
    let mut hover = PropSet::new();
    hover.insert(Property::Hover);
    let value: Value<u32> = Value::Selector(vec![(hover, 7u32)], 5u32);
    assert_eq!(*value.from_props(&hover), 7);
    assert_eq!(*value.from_props(&PropSet::new()), 5);
    assert_eq!(*value.default_value(), 5);
}

#[test]
fn apply_text_style_resolves_every_field() {
    let mut hover = PropSet::new();
    hover.insert(Property::Hover);
    let style = WidgetTextStyle {
        text: Value::Single("abc".to_string()),
        font_id: Value::Single(3),
        font_size: Value::Single(24),
        text_color: Value::Selector(
            vec![(hover, Color { r: 255, g: 0, b: 0, a: 255 })],
            Color { r: 0, g: 0, b: 0, a: 255 },
        ),
        background_color: Value::Single(Color { r: 0, g: 0, b: 0, a: 0 }),
    };
    let mut state = TextDrawState::new_default(String::new(), 0);
    apply_text_style(&mut state, &style, &hover);
    assert_eq!(state.text, "abc");
    assert_eq!(state.font_id, 3);
    assert_eq!(state.text_color.r, 255);
    apply_text_style(&mut state, &style, &PropSet::new());
    assert_eq!(state.text_color.r, 0);
}

#[test]
fn text_drawable_resolves_defaults() {
    let style = WidgetTextStyle {
        text: Value::Single("hi".to_string()),
        font_id: Value::Single(3),
        font_size: Value::Single(20),
        text_color: Value::Single(black()),
        background_color: Value::Single(transparent()),
    };
    let d = text_drawable(style);
    assert_eq!(d.state.text, "hi");
    assert_eq!(d.state.font_size, 20);
    assert!(d.style.is_some());
}

#[test]
fn widget_text_style_setters() {
    let mut style = WidgetTextStyle {
        text: Value::Single(String::new()),
        font_id: Value::Single(0),
        font_size: Value::Single(24),
        text_color: Value::Single(black()),
        background_color: Value::Single(transparent()),
    };
    style.with_text("cab");
    style.with_text_color(Color { r: 1, g: 2, b: 3, a: 4 });
    style.with_background_color(Color { r: 5, g: 6, b: 7, a: 8 });
    let state = TextDrawState::new_style(&style);
    assert_eq!(state.text, "cab");
    assert_eq!(state.text_color, Color { r: 1, g: 2, b: 3, a: 4 });
    assert_eq!(state.background_color, Color { r: 5, g: 6, b: 7, a: 8 });
}

#[test]
fn widget_measures_wrap_character() {
    let font = small_font();
    // font_size 24 -> line height 30.
    let state = TextDrawState::new_default("abcdef".to_string(), 3);
    assert_eq!(state.measure_height_wrapped(&font, 30), 2 * 30);
    let dims = state.measure_dims_no_wrap(&font);
    assert_eq!(dims.width, 60);
    assert_eq!(dims.height, 30);
}

#[test]
fn prop_change_handler_updates_the_set() {
    let mut props = PropSet::new();
    let mut handler = PropChangeHandler;
    handler.handle(&PropChange::Add(Property::Pressed), &mut props);
    assert!(props.contains(Property::Pressed));
    assert!(!props.contains(Property::Hover));
    handler.handle(&PropChange::Remove(Property::Pressed), &mut props);
    assert!(!props.contains(Property::Pressed));
}

#[test]
fn drag_life_cycle() {
    let mut handler = DragInputHandler::new();
    let mut queue: Vec<(u64, glyph_layout::drag::WidgetDrag)> = Vec::new();
    // A move before any press notifies nobody.
    handler.handle(&DragInputEvent::MouseMoved(Point { x: 5, y: 5 }), &mut queue);
    assert_eq!(queue.len(), 0);
    handler.handle(&DragInputEvent::WidgetPressed(42), &mut queue);
    assert_eq!(queue.len(), 1);
    assert_eq!(queue[0].0, 42);
    assert_eq!(queue[0].1.drag_type, DragEvent::DragStart);
    handler.handle(&DragInputEvent::MouseMoved(Point { x: 9, y: 11 }), &mut queue);
    assert_eq!(queue[1].1.drag_type, DragEvent::Drag);
    assert_eq!(queue[1].1.position, Point { x: 9, y: 11 });
    handler.handle(&DragInputEvent::MouseReleased, &mut queue);
    assert_eq!(queue[2].1.drag_type, DragEvent::DragEnd);
    // A second release is ignored: no drag is active.
    handler.handle(&DragInputEvent::MouseReleased, &mut queue);
    assert_eq!(queue.len(), 3);
}

#[test]
fn mouse_routing_filters_by_state() {
    let mut queue: Vec<DragInputEvent> = Vec::new();
    drag_handle_mouse_press(
        &WidgetMouseButton(ElementState::Pressed, MouseButtonKind::Left),
        42,
        &mut queue,
    );
    drag_handle_mouse_press(
        &WidgetMouseButton(ElementState::Released, MouseButtonKind::Left),
        42,
        &mut queue,
    );
    drag_handle_mouse_move(&MouseMoved(Point { x: 1, y: 2 }), &mut queue);
    drag_handle_mouse_release(&MouseButton(ElementState::Released, MouseButtonKind::Left), &mut queue);
    drag_handle_mouse_release(&MouseButton(ElementState::Pressed, MouseButtonKind::Left), &mut queue);
    assert_eq!(
        queue,
        vec![
            DragInputEvent::WidgetPressed(42),
            DragInputEvent::MouseMoved(Point { x: 1, y: 2 }),
            DragInputEvent::MouseReleased,
        ]
    );
}

#[test]
fn make_draggable_registers_the_handler() {
    let mut builder = WidgetBuilder::new();
    builder.make_draggable();
    assert_eq!(builder.handlers, vec![HandlerKind::DragMousePress]);
}
