use basic_game::paint::{material_key_for_paint, MaterialKey, PaintStyle};
use basic_game::surf::{
    refine_surf_segment_count, surf_collider_segment_count, surf_render_segment_count,
    SURF_MAX_RENDER_SEGMENTS,
};

#[test]
fn render_segment_count_is_clamped_per_intensity() {
    assert_eq!(surf_render_segment_count(true, 10), 44);
    assert_eq!(surf_render_segment_count(true, 80), 80);
    assert_eq!(surf_render_segment_count(true, 500), 132);
    assert_eq!(surf_render_segment_count(false, 10), 36);
    assert_eq!(surf_render_segment_count(false, 500), 116);
}

#[test]
fn refinement_scales_by_two_to_four_up_to_the_cap() {
    assert_eq!(refine_surf_segment_count(40, 1, 0), 80);
    assert_eq!(refine_surf_segment_count(40, 3, 2), 120);
    assert_eq!(refine_surf_segment_count(40, 2, 9), 160);
    assert_eq!(refine_surf_segment_count(100, 3, 3), SURF_MAX_RENDER_SEGMENTS);
}

#[test]
fn refinement_terminates_at_the_cap() {
    let mut count = 36;
    let mut rounds = 0;
    while count < SURF_MAX_RENDER_SEGMENTS {
        count = refine_surf_segment_count(count, 0, 0);
        rounds += 1;
    }
    assert_eq!(count, SURF_MAX_RENDER_SEGMENTS);
    assert_eq!(rounds, 3);
}

#[test]
fn collider_segment_count_is_at_least_the_render_count() {
    assert_eq!(surf_collider_segment_count(10, 44), 44);
    assert_eq!(surf_collider_segment_count(300, 44), 300);
    assert_eq!(surf_collider_segment_count(900, 44), 640);
}

#[test]
fn each_paint_has_its_material() {
    assert_eq!(material_key_for_paint(PaintStyle::BhopPlatform), MaterialKey::BhopPlatform);
    assert_eq!(material_key_for_paint(PaintStyle::SurfRamp), MaterialKey::SurfRamp);
}
