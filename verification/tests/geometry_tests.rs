use ascendustry::common::geometry::direction::Direction;
use ascendustry::common::utils::updatable::Updatable;
use ascendustry::engine::application::AppEvent;
use ascendustry::engine::render::geometry;
use ascendustry::engine::render::mesh::chunk::{add_each_vec3_vec3, add_i32_vec3, mul_each_vec3_vec3, mul_i32_vec3};
use ascendustry::engine::render::mesh::face_mask::FaceMask;
use ascendustry::engine::render::mesh::texto::RenderFaceTexto;

#[test]
fn direction_numbers_round_trip() {
    let all = [
        Direction::Left,
        Direction::Below,
        Direction::Back,
        Direction::Right,
        Direction::Above,
        Direction::Front,
    ];
    for (i, d) in all.iter().enumerate() {
        assert_eq!(d.to_u8() as usize, i);
        assert_eq!(Direction::from_bits_unchecked(i as u8), *d);
        assert_eq!(d.is_positive(), i >= 3);
        assert_eq!(d.is_negative(), i < 3);
    }
}

#[test]
fn old_direction_numbers_round_trip() {
    let all = [
        geometry::Direction::Above,
        geometry::Direction::Below,
        geometry::Direction::Left,
        geometry::Direction::Right,
        geometry::Direction::Front,
        geometry::Direction::Back,
    ];
    for (i, d) in all.iter().enumerate() {
        assert_eq!(d.to_u8() as usize, i);
        assert_eq!(geometry::Direction::from_bits_unchecked(i as u8), *d);
    }
}

#[test]
fn updatable_keeps_previous_value() {
    let mut u = Updatable::new(5u32);
    assert_eq!(*u.last(), 5);
    assert_eq!(*u.current(), 5);
    u.update(7);
    assert_eq!(*u.last(), 5);
    assert_eq!(*u.current(), 7);
    u.update(9);
    assert_eq!(*u.last(), 7);
    assert_eq!(*u.current(), 9);
}

#[test]
fn face_mask_empty_is_visited() {
    let m = FaceMask::empty();
    assert_eq!(m.data, 0x8000_0000_0000_0000);
    assert!(m.get_visited());
    assert_eq!(m.get_block_id(), 0);
    assert_eq!(m.get_face(), Direction::Left);
}

#[test]
fn face_mask_packs_and_unpacks() {
    let m = FaceMask::from(false, 42, Direction::Above);
    assert_eq!(m.data, (42u64 << 31) | 4);
    assert_eq!(m.to(), (false, 42, Direction::Above));
    let m = FaceMask::from(true, u32::MAX, Direction::Front);
    assert_eq!(m.to(), (true, u32::MAX, Direction::Front));
    assert_eq!(m.data, 0x8000_0000_0000_0000 | ((u32::MAX as u64) << 31) | 5);
}

#[test]
fn face_mask_setters_touch_one_field() {
    let mut m = FaceMask::from(false, 7, Direction::Back);
    m.set_visited(true);
    assert_eq!(m.to(), (true, 7, Direction::Back));
    m.set_visited(false);
    assert_eq!(m.to(), (false, 7, Direction::Back));
    m.set_block_id(123_456);
    assert_eq!(m.to(), (false, 123_456, Direction::Back));
    m.set_face(Direction::Right);
    assert_eq!(m.to(), (false, 123_456, Direction::Right));
}

#[test]
fn old_face_mask_packs_and_unpacks() {
    let m = geometry::FaceMask::from(false, 3, geometry::Direction::Left);
    assert_eq!(m.data, (3u64 << 31) | 2);
    assert_eq!(m.to(), (false, 3, geometry::Direction::Left));
    let mut e = geometry::FaceMask::empty();
    assert!(e.get_visited());
    e.set_visited(false);
    assert_eq!(e.data, 0);
    e.set_face(geometry::Direction::Back);
    e.set_block_id(9);
    assert_eq!(e.to(), (false, 9, geometry::Direction::Back));
}

#[test]
fn render_face_texto_reads_back_fields() {
    let t = RenderFaceTexto::new(1, 2, 3, 4, 5, Direction::Front, 0xBEEF);
    assert_eq!(t.get_top_left_vertex(), [1, 2, 3]);
    // The dimensions come back as [height, width].
    assert_eq!(t.get_quad_dimensions(), [5, 4]);
    assert_eq!(t.get_direction(), Direction::Front);
    assert_eq!(t.get_texture(), 0xBEEF);
}

#[test]
fn render_face_texto_setters() {
    let mut t = RenderFaceTexto::new(31, 31, 31, 31, 31, Direction::Left, 0);
    assert_eq!(t.get_top_left_vertex(), [31, 31, 31]);
    assert_eq!(t.get_quad_dimensions(), [31, 31]);
    t.set_direction(Direction::Above);
    t.set_texture(65535);
    t.set_top_left_vertex(0, 16, 8);
    t.set_quad_dimensions(2, 9);
    assert_eq!(t.get_top_left_vertex(), [0, 16, 8]);
    assert_eq!(t.get_quad_dimensions(), [9, 2]);
    assert_eq!(t.get_direction(), Direction::Above);
    assert_eq!(t.get_texture(), 65535);
}

#[test]
fn render_face_texto_wide_width_spills_into_z() {
    // A width of 32 or more does not fit its five bits: its high bits land in z's field.
    let t = RenderFaceTexto::new(0, 0, 0, 0b0010_0001, 0, Direction::Left, 0);
    assert_eq!(t.get_quad_dimensions(), [0, 1]);
    assert_eq!(t.get_top_left_vertex(), [0, 0, 1]);
}

#[test]
fn old_render_face_texto_reads_back_fields() {
    let t = geometry::RenderFaceTexto::new(7, 0, 30, 1, 12, geometry::Direction::Below, 3);
    assert_eq!(t.get_top_left_vertex(), [7, 0, 30]);
    assert_eq!(t.get_quad_dimensions(), [12, 1]);
    assert_eq!(t.get_direction(), geometry::Direction::Below);
    assert_eq!(t.get_texture(), 3);
}

#[test]
fn vector_helpers() {
    assert_eq!(add_each_vec3_vec3([1, 2, 3], [10, 20, 30]), [11, 22, 33]);
    assert_eq!(mul_each_vec3_vec3([1, -2, 3], [10, 20, 30]), [10, -40, 90]);
    assert_eq!(mul_i32_vec3([1, -2, 3], 4), [4, -8, 12]);
    assert_eq!(add_i32_vec3([0, 0, 1], [32, 64, -32]), [32, 64, -31]);
}

#[test]
fn app_event_name() {
    assert_eq!(AppEvent::NoEvent.to_string(), "None");
}
