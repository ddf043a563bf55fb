use ply_engine::align::{AlignX, AlignY};
use ply_engine::elements::{
    BorderBuilder, BorderPosition, FloatingAttachToElement, FloatingBuilder, FloatingClipToElement,
    OverflowBuilder, PointerCaptureMode, ShapeRotationBuilder, VisualRotationBuilder,
};
use ply_engine::engine::{
    child_gap_total, element_has_config, find_element_config_index, hash_string, BorderConfig,
    BorderWidth, ClipConfig, ElementConfig, ElementConfigType, FloatingConfig, PaddingConfig,
    PlyContext, ShapeRotationConfig, SizingType, VisualRotationConfig,
};
use ply_engine::render_commands;
use ply_engine::renderer::{FontAsset, GraphicAsset, ImageSource};

#[test]
fn floating_builder_sets_fields() {
    let mut b = FloatingBuilder { config: FloatingConfig::default() };
    b.z_index(7)
        .anchor((AlignX::CenterX, AlignY::Bottom), (AlignX::Right, AlignY::Top))
        .attach_id(hash_string("target", 0))
        .clip_by_parent()
        .passthrough();
    assert_eq!(b.config.z_index, 7);
    assert_eq!(b.config.attach_points.element_x, AlignX::CenterX);
    assert_eq!(b.config.attach_points.parent_y, AlignY::Top);
    assert_eq!(b.config.attach_to, FloatingAttachToElement::ElementWithId);
    assert_eq!(b.config.parent_id, hash_string("target", 0).id);
    assert_eq!(b.config.clip_to, FloatingClipToElement::AttachedParent);
    assert_eq!(b.config.pointer_capture_mode, PointerCaptureMode::Passthrough);
    b.attach_root();
    assert_eq!(b.config.attach_to, FloatingAttachToElement::Root);
    b.attach_parent();
    assert_eq!(b.config.attach_to, FloatingAttachToElement::Parent);
}

#[test]
fn overflow_builder_sets_flags() {
    let mut b = OverflowBuilder { config: ClipConfig::default() };
    b.clip_x();
    assert!(b.config.horizontal && !b.config.vertical && !b.config.scroll_x);
    b.scroll_y();
    assert!(b.config.vertical && b.config.scroll_y && !b.config.scroll_x);
    let mut c = OverflowBuilder { config: ClipConfig::default() };
    c.clip();
    assert!(c.config.horizontal && c.config.vertical && !c.config.scroll_y);
    c.clip_y().scroll_x();
    assert!(c.config.scroll_x);
    let mut d = OverflowBuilder { config: ClipConfig::default() };
    d.scroll();
    assert_eq!(d.config, ClipConfig { horizontal: true, vertical: true, scroll_x: true, scroll_y: true });
}

#[test]
fn border_builder_sets_widths() {
    let mut b = BorderBuilder { config: BorderConfig::default() };
    b.all(2).left(5).between_children(1).position(BorderPosition::Inside);
    assert_eq!(b.config.width, BorderWidth { left: 5, right: 2, top: 2, bottom: 2, between_children: 1 });
    assert_eq!(b.config.position, BorderPosition::Inside);
    b.right(3).top(4).bottom(6);
    assert_eq!(b.config.width, BorderWidth { left: 5, right: 3, top: 4, bottom: 6, between_children: 1 });
    assert!(!b.config.width.is_zero());
    assert!(BorderWidth::default().is_zero());
    assert!(!BorderWidth { between_children: 1, ..Default::default() }.is_zero());
}

#[test]
fn rotation_builders_set_flips() {
    let mut v = VisualRotationBuilder { config: VisualRotationConfig::default() };
    v.flip_x();
    assert!(v.config.flip_x && !v.config.flip_y);
    v.flip_y();
    assert!(v.config.flip_y);
    let mut s = ShapeRotationBuilder { config: ShapeRotationConfig::default() };
    s.flip_y();
    assert!(s.config.flip_y && !s.config.flip_x);
    s.flip_x();
    assert!(s.config.flip_x);
}

#[test]
fn element_config_lookup() {
    let configs = vec![
        ElementConfig { config_type: ElementConfigType::Shared, config_index: 0 },
        ElementConfig { config_type: ElementConfigType::Clip, config_index: 4 },
        ElementConfig { config_type: ElementConfigType::Border, config_index: 1 },
        ElementConfig { config_type: ElementConfigType::Clip, config_index: 9 },
    ];
    assert_eq!(find_element_config_index(&configs, 0, 4, ElementConfigType::Clip), Some(4));
    assert_eq!(find_element_config_index(&configs, 2, 2, ElementConfigType::Clip), Some(9));
    assert_eq!(find_element_config_index(&configs, 0, 2, ElementConfigType::Border), None);
    assert!(element_has_config(&configs, 1, 2, ElementConfigType::Border));
    assert!(!element_has_config(&configs, 0, 0, ElementConfigType::Shared));
    assert!(!element_has_config(&configs, 0, -1, ElementConfigType::Shared));
}

#[test]
fn child_gaps_and_padding() {
    assert_eq!(child_gap_total(0, 10), 0);
    assert_eq!(child_gap_total(1, 10), 0);
    assert_eq!(child_gap_total(4, 10), 30);
    assert_eq!(child_gap_total(u16::MAX, u16::MAX), 65534 * 65535);
    let p = PaddingConfig { left: 3, right: 4, top: 5, bottom: 6 };
    assert_eq!(p.horizontal(), 7);
    assert_eq!(p.vertical(), 11);
}

#[test]
fn debug_labels() {
    assert_eq!(PlyContext::align_x_name(AlignX::CenterX), "CENTER");
    assert_eq!(PlyContext::align_y_name(AlignY::Bottom), "BOTTOM");
    assert_eq!(PlyContext::debug_get_config_type_label(ElementConfigType::Clip), "Overflow");
    assert_eq!(PlyContext::debug_get_config_type_label(ElementConfigType::TextInput), "TextInput");
    assert_eq!(PlyContext::sizing_type_label(SizingType::Percent), "PERCENT");
}

static LOGO: GraphicAsset = GraphicAsset::Bytes { file_name: "logo.png", data: &[1, 2, 3] };
static FONT: FontAsset = FontAsset::Path("assets/fonts/lexend.ttf");

#[test]
fn asset_names() {
    assert_eq!(LOGO.get_name(), "logo.png");
    assert_eq!(GraphicAsset::Path("a/b.png").get_name(), "a/b.png");
    assert_eq!(FONT.key(), "assets/fonts/lexend.ttf");
    assert_eq!(FontAsset::Bytes { file_name: "f.ttf", data: &[] }.key(), "f.ttf");
    assert_eq!(ImageSource::Asset(&LOGO).get_name(), "logo.png");
}

#[test]
fn render_border_width_copies_engine_widths() {
    let w = BorderWidth { left: 1, right: 2, top: 3, bottom: 4, between_children: 5 };
    let r = render_commands::BorderWidth::from_engine(&w);
    assert_eq!((r.left, r.right, r.top, r.bottom, r.between_children), (1, 2, 3, 4, 5));
}

#[test]
fn settings_round_trip() {
    let mut ctx = PlyContext::new();
    assert_eq!(ctx.max_element_count(), 8192);
    assert_eq!(ctx.max_measure_text_cache_word_count(), 16384);
    ctx.set_max_element_count(100);
    ctx.set_max_measure_text_cache_word_count(50);
    assert_eq!(ctx.max_element_count(), 100);
    assert_eq!(ctx.max_measure_text_cache_word_count(), 50);
    assert!(!ctx.is_debug_mode_enabled());
    ctx.set_debug_mode_enabled(true);
    assert!(ctx.is_debug_mode_enabled());
    ctx.set_culling_enabled(false);
    assert!(ctx.is_culling_disabled());
    ctx.set_external_scroll_handling_enabled(true);
    assert!(ctx.external_scroll_handling_enabled());
    ctx.toggle_debug_selection(9);
    assert_eq!(ctx.debug_selected_element_id(), 9);
    ctx.toggle_debug_selection(9);
    assert_eq!(ctx.debug_selected_element_id(), 0);
}
