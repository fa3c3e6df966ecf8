use crate::math::{Scalar, Vec3, ONE};
use crate::render::{HitRecord, Ray};
use vstd::prelude::*;

verus! {

/// A texture: the colour of a surface at the coordinates `u`, `v` and the
/// point `p`.
pub type Texture = spec_fn(Scalar, Scalar, Vec3) -> Vec3;

/// The closure may be called on anything.
pub open spec fn may_sample<T: Fn(Scalar, Scalar, &Vec3) -> Vec3>(value: &T) -> bool {
    forall|u: Scalar, v: Scalar, p: &Vec3| #[trigger] call_requires(value, (u, v, p))
}

/// Whatever the closure returns is what `texture` says.
pub open spec fn samples_as<T: Fn(Scalar, Scalar, &Vec3) -> Vec3>(
    value: &T,
    texture: Texture,
) -> bool {
    forall|u: Scalar, v: Scalar, p: &Vec3, color: Vec3| #[trigger]
        call_ensures(value, (u, v, p), color) ==> color == texture(u, v, *p)
}

/// A matt surface: it scatters light to all sides and tints it with
/// `albedo`, which names a texture of the scene.
#[derive(Clone, Copy, Debug, PartialEq, Eq, Structural)]
pub struct Lambertian {
    pub albedo: usize,
}

/// A mirroring surface, the rougher the more blurred; `albedo` names a
/// texture of the scene.
#[derive(Clone, Copy, Debug, PartialEq, Eq, Structural)]
pub struct Metal {
    pub albedo: usize,
    pub roughness: Scalar,
}

/// A clear surface that bends light, with its index of refraction.
#[derive(Clone, Copy, Debug, PartialEq, Eq, Structural)]
pub struct Dielectric {
    pub ior: Scalar,
}

/// A surface that shines; `emissive` names a texture of the scene.
#[derive(Clone, Copy, Debug, PartialEq, Eq, Structural)]
pub struct DiffuseLight {
    pub emissive: usize,
}

/// How near to zero every component of a direction has to be for the
/// direction to count as none: the key of a hundred-millionth.
pub const EPSILON: Scalar = 0x3e45_798e_e230_8c3a;

/// `a` lies within `epsilon` of zero.
pub open spec fn near_zero(a: Scalar, epsilon: Scalar) -> bool {
    -epsilon < a < epsilon
}

/// Every component of `v` lies within `epsilon` of zero.
pub open spec fn is_degenerate(v: Vec3, epsilon: Scalar) -> bool {
    near_zero(v.x, epsilon) && near_zero(v.y, epsilon) && near_zero(v.z, epsilon)
}

/// Whether `a` lies within `epsilon` of zero.
pub fn epsilon_equal(a: Scalar, epsilon: Scalar) -> (near: bool)
    requires
        epsilon > i64::MIN,
    ensures
        near == near_zero(a, epsilon),
{
    -epsilon < a && a < epsilon
}

/// The ratio of the indices of refraction on the way in and out of a
/// surface: into it, the inverse of its index, out of it, the index.
pub fn refraction_ratio(front_facing: bool, ior: Scalar, inverse_ior: Scalar) -> (ratio: Scalar)
    ensures
        ratio == if front_facing {
            inverse_ior
        } else {
            ior
        },
{
    if front_facing {
        inverse_ior
    } else {
        ior
    }
}

/// The refracted direction: `bent` where the discriminant `k` of the
/// refraction is not below zero, and the zero vector where it is.
pub fn refract(k: Scalar, bent: Vec3) -> (direction: Vec3)
    ensures
        direction == if k < 0 {
            Vec3::zeros_spec()
        } else {
            bent
        },
{
    if k < 0 {
        Vec3::zeros()
    } else {
        bent
    }
}

impl Lambertian {
    /// The direction in which a matt surface scatters: `candidate`, the
    /// normal plus a random point of the unit sphere, unless that is within
    /// [`EPSILON`] of the zero vector in every component; then the normal.
    pub open spec fn direction(normal: Vec3, candidate: Vec3) -> Vec3 {
        if is_degenerate(candidate, EPSILON) {
            normal
        } else {
            candidate
        }
    }

    /// Scatters the ray at the hit `rec` towards `candidate`, or along the
    /// bare normal where `candidate` is degenerate, and tints it with the
    /// colour that `albedo` has at the hit. A matt surface scatters always.
    pub fn scatter<T>(
        ray: &Ray,
        rec: &HitRecord,
        candidate: Vec3,
        albedo: &T,
    ) -> (scattered: Option<(Ray, Vec3)>) where T: Fn(Scalar, Scalar, &Vec3) -> Vec3
        requires
            may_sample(albedo),
        ensures
            scattered is Some,
            scattered.unwrap().0 == (Ray {
                origin: rec.p,
                direction: Lambertian::direction(rec.normal, candidate),
                time: ray.time,
            }),
            rec.normal != Vec3::zeros_spec() ==> scattered.unwrap().0.direction
                != Vec3::zeros_spec(),
            call_ensures(albedo, (rec.u, rec.v, &rec.p), scattered.unwrap().1),
            forall|texture: Texture|
                samples_as(albedo, texture) ==> scattered.unwrap().1 == #[trigger] texture(
                    rec.u,
                    rec.v,
                    rec.p,
                ),
    {
        let mut scatter_direction = candidate;
        let ee_x = epsilon_equal(scatter_direction.x, EPSILON);
        let ee_y = epsilon_equal(scatter_direction.y, EPSILON);
        let ee_z = epsilon_equal(scatter_direction.z, EPSILON);
        if ee_x && ee_y && ee_z {
            scatter_direction = rec.normal;
        }
        let attenuation = albedo(rec.u, rec.v, &rec.p);
        Some((Ray { origin: rec.p, direction: scatter_direction, time: ray.time }, attenuation))
    }

    /// A matt surface never scatters along the zero vector, whatever the
    /// random point was, as long as its normal is not the zero vector.
    pub proof fn lemma_direction_is_not_zero(normal: Vec3, candidate: Vec3)
        requires
            normal != Vec3::zeros_spec(),
        ensures
            Lambertian::direction(normal, candidate) != Vec3::zeros_spec(),
    {
    }

    /// A matt surface emits nothing.
    pub fn emitted() -> (light: Vec3)
        ensures
            light == Vec3::zeros_spec(),
    {
        Vec3::zeros()
    }
}

/// The index of refraction at which a mirroring surface is held to reflect:
/// the key of two and a half.
pub const METAL_IOR: Scalar = 0x4004_0000_0000_0000;

/// The inverse of [`METAL_IOR`]: the key of four tenths.
pub const METAL_INVERSE_IOR: Scalar = 0x3fd9_9999_9999_999a;

impl Metal {
    /// The ratio of refraction at which the reflectance of a mirroring
    /// surface is worked out: that of the fixed index [`METAL_IOR`].
    pub fn refraction_ratio(front_facing: bool) -> (ratio: Scalar)
        ensures
            ratio == if front_facing {
                METAL_INVERSE_IOR
            } else {
                METAL_IOR
            },
    {
        refraction_ratio(front_facing, METAL_IOR, METAL_INVERSE_IOR)
    }


    /// Scatters the ray at the hit `rec` along `direction`, the mirrored
    /// and roughened direction, unless that points into the surface:
    /// `facing` is its inner product with the normal, and where that is not
    /// above zero the ray is absorbed.
    pub fn scatter(
        ray: &Ray,
        rec: &HitRecord,
        direction: Vec3,
        facing: Scalar,
        attenuation: Vec3,
    ) -> (scattered: Option<(Ray, Vec3)>)
        ensures
            scattered == if facing > 0 {
                Some((Ray { origin: rec.p, direction, time: ray.time }, attenuation))
            } else {
                None
            },
    {
        let scattered = Ray { origin: rec.p, direction, time: ray.time };
        if facing > 0 {
            return Some((scattered, attenuation));
        }
        None
    }

    /// A mirroring surface emits nothing.
    pub fn emitted() -> (light: Vec3)
        ensures
            light == Vec3::zeros_spec(),
    {
        Vec3::zeros()
    }
}

/// What a clear surface can do with a ray: `sine` is the sine of the angle at
/// which the ray would pass, the ratio of refraction times the sine of the
/// angle at which it arrives; `reflectance` is the share of the light that is
/// mirrored; `reflected` and `refracted` are the mirrored and the bent
/// direction.
#[derive(Clone, Copy, Debug, PartialEq, Eq, Structural)]
pub struct Bend {
    pub sine: Scalar,
    pub reflectance: Scalar,
    pub reflected: Vec3,
    pub refracted: Vec3,
}

impl Dielectric {
    /// The ray is mirrored: it cannot pass, because the sine of the angle at
    /// which it would is above one, or the random draw
    /// `probability` fell below the share that is mirrored.
    pub open spec fn reflects(bend: Bend, probability: Scalar) -> bool {
        bend.sine > ONE || bend.reflectance > probability
    }

    /// Scatters the ray at the hit `rec`: mirrors it or lets it pass, bent.
    /// A clear surface scatters always and takes nothing from the light:
    /// the attenuation is one in every channel.
    pub fn scatter(ray: &Ray, rec: &HitRecord, bend: &Bend, probability: Scalar) -> (scattered:
        Option<(Ray, Vec3)>)
        ensures
            scattered == Some(
                (
                    Ray {
                        origin: rec.p,
                        direction: if Dielectric::reflects(*bend, probability) {
                            bend.reflected
                        } else {
                            bend.refracted
                        },
                        time: ray.time,
                    },
                    Vec3 { x: ONE, y: ONE, z: ONE },
                ),
            ),
    {
        let attenuation = Vec3::new(ONE, ONE, ONE);
        let outward = {
            if bend.sine > ONE || bend.reflectance > probability {
                bend.reflected
            } else {
                bend.refracted
            }
        };
        let scattered = Ray { origin: rec.p, direction: outward, time: ray.time };
        Some((scattered, attenuation))
    }

    /// A clear surface emits nothing.
    pub fn emitted() -> (light: Vec3)
        ensures
            light == Vec3::zeros_spec(),
    {
        Vec3::zeros()
    }
}

impl DiffuseLight {
    /// A light scatters nothing.
    pub fn scatter() -> (scattered: Option<(Ray, Vec3)>)
        ensures
            scattered is None,
    {
        None
    }

    /// The light of the surface at the coordinates `u`, `v` and the point
    /// `p`: the colour that `emissive` has there.
    pub fn emitted<T>(u: Scalar, v: Scalar, p: &Vec3, emissive: &T) -> (light: Vec3) where
        T: Fn(Scalar, Scalar, &Vec3) -> Vec3,

        requires
            may_sample(emissive),
        ensures
            call_ensures(emissive, (u, v, p), light),
            forall|texture: Texture|
                samples_as(emissive, texture) ==> light == #[trigger] texture(u, v, *p),
    {
        emissive(u, v, p)
    }
}

} // verus!
