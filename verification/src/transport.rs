use crate::math::{Scalar, Vec3, INFINITY};
use crate::render::{HitRecord, Ray};
use vstd::prelude::*;

verus! {

/// How far from its origin a ray is first looked at: the key of a
/// hundredth. Nearer, a scattered ray would meet the surface it left.
pub const T_MIN: Scalar = 0x3f84_7ae1_47ae_147b;

/// What a scene does to light, as four functions: where a ray meets the
/// scene between two distances, what a surface emits at a hit, how it
/// scatters a ray that hits it (the new ray and how much of each colour
/// channel it keeps, or nothing where the ray is absorbed), and what is seen
/// of a surface that emits `emitted` and passes on the colour `incoming`
/// attenuated by `attenuation`: the emitted light and, added to it, the
/// incoming colour times the attenuation, channel by channel.
pub struct Transport {
    pub meets: spec_fn(Ray, Scalar, Scalar) -> Option<HitRecord>,
    pub emitted: spec_fn(HitRecord) -> Vec3,
    pub scatter: spec_fn(Ray, HitRecord) -> Option<(Ray, Vec3)>,
    pub blend: spec_fn(Vec3, Vec3, Vec3) -> Vec3,
}

/// The colour seen along `ray` with `depth` bounces left. With none left it
/// is black. A ray that meets nothing shows the background. One that meets a
/// surface shows what the surface emits, and, where the surface scatters
/// it, what is seen along the scattered ray with one bounce less, blended in.
pub open spec fn radiance(
    model: Transport,
    ray: Ray,
    background: Vec3,
    t_min: Scalar,
    t_max: Scalar,
    depth: nat,
) -> Vec3
    decreases depth,
{
    if depth == 0 {
        Vec3::zeros_spec()
    } else {
        match (model.meets)(ray, t_min, t_max) {
            Some(hit) => match (model.scatter)(ray, hit) {
                Some((outgoing_ray, attenuation)) => (model.blend)(
                    (model.emitted)(hit),
                    radiance(model, outgoing_ray, background, t_min, t_max, (depth - 1) as nat),
                    attenuation,
                ),
                None => (model.emitted)(hit),
            },
            None => background,
        }
    }
}

/// Whatever the four closures return is what `model` says.
pub open spec fn follows<H, E, S, B>(
    hittable: &H,
    emitted: &E,
    scatter: &S,
    blend: &B,
    model: Transport,
) -> bool where
    H: Fn(&Ray, Scalar, Scalar) -> Option<HitRecord>,
    E: Fn(&HitRecord) -> Vec3,
    S: Fn(&Ray, &HitRecord) -> Option<(Ray, Vec3)>,
    B: Fn(Vec3, Vec3, Vec3) -> Vec3,
 {
    &&& forall|ray: &Ray, lo: Scalar, hi: Scalar, found: Option<HitRecord>| #[trigger]
        call_ensures(hittable, (ray, lo, hi), found) ==> found == (model.meets)(*ray, lo, hi)
    &&& forall|hit: &HitRecord, light: Vec3| #[trigger]
        call_ensures(emitted, (hit,), light) ==> light == (model.emitted)(*hit)
    &&& forall|ray: &Ray, hit: &HitRecord, out: Option<(Ray, Vec3)>| #[trigger]
        call_ensures(scatter, (ray, hit), out) ==> out == (model.scatter)(*ray, *hit)
    &&& forall|own: Vec3, incoming: Vec3, attenuation: Vec3, seen: Vec3| #[trigger]
        call_ensures(blend, (own, incoming, attenuation), seen) ==> seen == (model.blend)(
            own,
            incoming,
            attenuation,
        )
}

/// The four closures may be called on anything.
pub open spec fn may_call<H, E, S, B>(hittable: &H, emitted: &E, scatter: &S, blend: &B) -> bool where
    H: Fn(&Ray, Scalar, Scalar) -> Option<HitRecord>,
    E: Fn(&HitRecord) -> Vec3,
    S: Fn(&Ray, &HitRecord) -> Option<(Ray, Vec3)>,
    B: Fn(Vec3, Vec3, Vec3) -> Vec3,
 {
    &&& forall|ray: &Ray, lo: Scalar, hi: Scalar| #[trigger] call_requires(hittable, (ray, lo, hi))
    &&& forall|hit: &HitRecord| #[trigger] call_requires(emitted, (hit,))
    &&& forall|ray: &Ray, hit: &HitRecord| #[trigger] call_requires(scatter, (ray, hit))
    &&& forall|own: Vec3, incoming: Vec3, attenuation: Vec3| #[trigger]
        call_requires(blend, (own, incoming, attenuation))
}

/// `color` is something that may be seen along `ray` with `depth` bounces
/// left, given what the four closures may return: black with no bounce left;
/// the background where the ray meets nothing; what the surface emits where
/// it absorbs the ray; and else the blend of what it emits, what may be seen
/// along the scattered ray with one bounce less, and the attenuation.
pub open spec fn may_see<H, E, S, B>(
    hittable: &H,
    emitted: &E,
    scatter: &S,
    blend: &B,
    ray: Ray,
    background: Vec3,
    t_min: Scalar,
    t_max: Scalar,
    depth: nat,
    color: Vec3,
) -> bool where
    H: Fn(&Ray, Scalar, Scalar) -> Option<HitRecord>,
    E: Fn(&HitRecord) -> Vec3,
    S: Fn(&Ray, &HitRecord) -> Option<(Ray, Vec3)>,
    B: Fn(Vec3, Vec3, Vec3) -> Vec3,

    decreases depth,
{
    if depth == 0 {
        color == Vec3::zeros_spec()
    } else {
        exists|found: Option<HitRecord>|
            {
                &&& #[trigger] call_ensures(hittable, (&ray, t_min, t_max), found)
                &&& match found {
                    None => color == background,
                    Some(hit) => exists|own: Vec3, scattered: Option<(Ray, Vec3)>|
                        {
                            &&& #[trigger] call_ensures(emitted, (&hit,), own)
                            &&& #[trigger] call_ensures(scatter, (&ray, &hit), scattered)
                            &&& match scattered {
                                None => color == own,
                                Some((outgoing_ray, attenuation)) => exists|incoming: Vec3|
                                    {
                                        &&& may_see(
                                            hittable,
                                            emitted,
                                            scatter,
                                            blend,
                                            outgoing_ray,
                                            background,
                                            t_min,
                                            t_max,
                                            (depth - 1) as nat,
                                            incoming,
                                        )
                                        &&& #[trigger] call_ensures(
                                            blend,
                                            (own, incoming, attenuation),
                                            color,
                                        )
                                    },
                            }
                        },
                }
            }
    }
}

/// The colour seen along `ray`, followed over at most `depth` bounces.
/// `hittable` finds where a ray meets the scene between two distances, and
/// is asked between [`T_MIN`] and the infinite; `emitted` and `scatter` are
/// the material's part at a hit; `blend` adds to the emitted light the
/// incoming colour times the attenuation.
pub fn ray_color<H, E, S, B>(
    ray: Ray,
    background: &Vec3,
    hittable: &H,
    emitted: &E,
    scatter: &S,
    blend: &B,
    depth: u16,
) -> (color: Vec3) where
    H: Fn(&Ray, Scalar, Scalar) -> Option<HitRecord>,
    E: Fn(&HitRecord) -> Vec3,
    S: Fn(&Ray, &HitRecord) -> Option<(Ray, Vec3)>,
    B: Fn(Vec3, Vec3, Vec3) -> Vec3,

    requires
        may_call(hittable, emitted, scatter, blend),
    ensures
        depth == 0 ==> color == Vec3::zeros_spec(),
        may_see(
            hittable,
            emitted,
            scatter,
            blend,
            ray,
            *background,
            T_MIN,
            INFINITY,
            depth as nat,
            color,
        ),
        forall|model: Transport|
            follows(hittable, emitted, scatter, blend, model) ==> color == #[trigger] radiance(
                model,
                ray,
                *background,
                T_MIN,
                INFINITY,
                depth as nat,
            ),
    decreases depth,
{
    if depth == 0 {
        return Vec3::zeros();
    }
    let found = hittable(&ray, T_MIN, INFINITY);
    match found {
        Some(hit) => {
            let own = emitted(&hit);
            let scattered = scatter(&ray, &hit);
            match scattered {
                Some((outgoing_ray, attenuation)) => {
                    let incoming = ray_color(
                        outgoing_ray,
                        background,
                        hittable,
                        emitted,
                        scatter,
                        blend,
                        depth - 1,
                    );
                    let seen = blend(own, incoming, attenuation);
                    proof {
                        assert forall|model: Transport|
                            follows(
                                hittable,
                                emitted,
                                scatter,
                                blend,
                                model,
                            ) implies seen == #[trigger] radiance(
                            model,
                            ray,
                            *background,
                            T_MIN,
                            INFINITY,
                            depth as nat,
                        ) by {
                            assert(incoming == radiance(
                                model,
                                outgoing_ray,
                                *background,
                                T_MIN,
                                INFINITY,
                                (depth - 1) as nat,
                            ));
                        }
                    }
                    seen
                },
                None => own,
            }
        },
        None => *background,
    }
}

/// Where the closures answer as `model` says, what may be seen is what
/// `model` gives: the two ways to say what a ray shows agree.
pub proof fn lemma_seen_is_radiance<H, E, S, B>(
    hittable: &H,
    emitted: &E,
    scatter: &S,
    blend: &B,
    model: Transport,
    ray: Ray,
    background: Vec3,
    t_min: Scalar,
    t_max: Scalar,
    depth: nat,
    color: Vec3,
) where
    H: Fn(&Ray, Scalar, Scalar) -> Option<HitRecord>,
    E: Fn(&HitRecord) -> Vec3,
    S: Fn(&Ray, &HitRecord) -> Option<(Ray, Vec3)>,
    B: Fn(Vec3, Vec3, Vec3) -> Vec3,

    requires
        follows(hittable, emitted, scatter, blend, model),
        may_see(hittable, emitted, scatter, blend, ray, background, t_min, t_max, depth, color),
    ensures
        color == radiance(model, ray, background, t_min, t_max, depth),
    decreases depth,
{
    if depth > 0 {
        let found = choose|found: Option<HitRecord>|
            {
                &&& #[trigger] call_ensures(hittable, (&ray, t_min, t_max), found)
                &&& match found {
                    None => color == background,
                    Some(hit) => exists|own: Vec3, scattered: Option<(Ray, Vec3)>|
                        {
                            &&& #[trigger] call_ensures(emitted, (&hit,), own)
                            &&& #[trigger] call_ensures(scatter, (&ray, &hit), scattered)
                            &&& match scattered {
                                None => color == own,
                                Some((outgoing_ray, attenuation)) => exists|incoming: Vec3|
                                    {
                                        &&& may_see(
                                            hittable,
                                            emitted,
                                            scatter,
                                            blend,
                                            outgoing_ray,
                                            background,
                                            t_min,
                                            t_max,
                                            (depth - 1) as nat,
                                            incoming,
                                        )
                                        &&& #[trigger] call_ensures(
                                            blend,
                                            (own, incoming, attenuation),
                                            color,
                                        )
                                    },
                            }
                        },
                }
            };
        assert(found == (model.meets)(ray, t_min, t_max));
        if let Some(hit) = found {
            let (own, scattered) = choose|own: Vec3, scattered: Option<(Ray, Vec3)>|
                {
                    &&& #[trigger] call_ensures(emitted, (&hit,), own)
                    &&& #[trigger] call_ensures(scatter, (&ray, &hit), scattered)
                    &&& match scattered {
                        None => color == own,
                        Some((outgoing_ray, attenuation)) => exists|incoming: Vec3|
                            {
                                &&& may_see(
                                    hittable,
                                    emitted,
                                    scatter,
                                    blend,
                                    outgoing_ray,
                                    background,
                                    t_min,
                                    t_max,
                                    (depth - 1) as nat,
                                    incoming,
                                )
                                &&& #[trigger] call_ensures(
                                    blend,
                                    (own, incoming, attenuation),
                                    color,
                                )
                            },
                    }
                };
            assert(own == (model.emitted)(hit));
            assert(scattered == (model.scatter)(ray, hit));
            if let Some((outgoing_ray, attenuation)) = scattered {
                let incoming = choose|incoming: Vec3|
                    {
                        &&& may_see(
                            hittable,
                            emitted,
                            scatter,
                            blend,
                            outgoing_ray,
                            background,
                            t_min,
                            t_max,
                            (depth - 1) as nat,
                            incoming,
                        )
                        &&& #[trigger] call_ensures(blend, (own, incoming, attenuation), color)
                    };
                lemma_seen_is_radiance(
                    hittable,
                    emitted,
                    scatter,
                    blend,
                    model,
                    outgoing_ray,
                    background,
                    t_min,
                    t_max,
                    (depth - 1) as nat,
                    incoming,
                );
            }
        }
    }
}

/// With one bounce a ray that meets nothing shows the background, and one
/// that meets a surface shows what the surface emits, blended with black
/// where the surface scatters the ray: no light arrives along a ray that has
/// no bounce left.
pub proof fn lemma_one_bounce(model: Transport, ray: Ray, background: Vec3, t_min: Scalar, t_max: Scalar)
    ensures
        radiance(model, ray, background, t_min, t_max, 1) == match (model.meets)(
            ray,
            t_min,
            t_max,
        ) {
            None => background,
            Some(hit) => match (model.scatter)(ray, hit) {
                None => (model.emitted)(hit),
                Some((_, attenuation)) => (model.blend)(
                    (model.emitted)(hit),
                    Vec3::zeros_spec(),
                    attenuation,
                ),
            },
        },
{
    reveal_with_fuel(radiance, 2);
}

} // verus!
