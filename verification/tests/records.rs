use tracer::math::Vec3;
use tracer::render::HitRecord;

fn v(x: i64, y: i64, z: i64) -> Vec3 {
    Vec3 { x, y, z }
}

#[test]
fn a_normal_that_opposes_the_ray_stays() {
    assert_eq!(HitRecord::set_face_normal(-3, v(0, 0, 7)), (true, v(0, 0, 7)));
}

#[test]
fn a_normal_along_the_ray_is_turned_round() {
    assert_eq!(HitRecord::set_face_normal(3, v(1, -2, 7)), (false, v(-1, 2, -7)));
    // A ray along the surface counts as from inside.
    assert_eq!(HitRecord::set_face_normal(0, v(1, -2, 7)), (false, v(-1, 2, -7)));
}

#[test]
fn a_record_without_surface_coordinates() {
    let record = HitRecord::from(9, v(1, 2, 3), -1, v(0, 5, 0), 4);
    assert_eq!(
        record,
        HitRecord { t: 9, p: v(1, 2, 3), normal: v(0, 5, 0), front_facing: true, material: 4, u: 0, v: 0 }
    );
}

#[test]
fn a_record_with_surface_coordinates() {
    let record = HitRecord::from_uv(9, v(1, 2, 3), 1, v(0, 5, 0), 4, 11, 12);
    assert_eq!(
        record,
        HitRecord { t: 9, p: v(1, 2, 3), normal: v(0, -5, 0), front_facing: false, material: 4, u: 11, v: 12 }
    );
}
