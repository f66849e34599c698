//! The camera: from a point of the image to a ray.
use crate::fixed::{fx_mul, Scalar, ONE_RAW};
use crate::vec3::{v3_add, v3_div, v3_scale, v3_sub, Vec3, V3};
use vstd::prelude::*;

verus! {

/// A camera at the origin that looks along the negative z axis at a
/// viewport one unit away.
#[derive(Clone, Copy, Debug)]
pub struct Camera {
    aspect_ratio: Scalar,
    viewport_height: Scalar,
    viewport_width: Scalar,
    focal_length: Scalar,
    origin: Vec3,
    horizontal: Vec3,
    vertical: Vec3,
    lower_left_corner: Vec3,
}

/// The mathematical model of a camera.
pub struct CameraModel {
    pub aspect_ratio: int,
    pub viewport_height: int,
    pub viewport_width: int,
    pub focal_length: int,
    pub origin: V3,
    pub horizontal: V3,
    pub vertical: V3,
    pub lower_left_corner: V3,
}

impl View for Camera {
    type V = CameraModel;

    closed spec fn view(&self) -> CameraModel {
        CameraModel {
            aspect_ratio: self.aspect_ratio@,
            viewport_height: self.viewport_height@,
            viewport_width: self.viewport_width@,
            focal_length: self.focal_length@,
            origin: self.origin@,
            horizontal: self.horizontal@,
            vertical: self.vertical@,
            lower_left_corner: self.lower_left_corner@,
        }
    }
}

/// The camera with a viewport `2 * half_height` high and `aspect_ratio`
/// times as wide, one unit before the origin.
pub open spec fn camera_model(half_height: int, aspect_ratio: int) -> CameraModel {
    let viewport_height = fx_mul(2 * ONE_RAW as int, half_height);
    let viewport_width = fx_mul(aspect_ratio, viewport_height);
    let origin = V3 { x: 0, y: 0, z: 0 };
    let horizontal = V3 { x: viewport_width, y: 0, z: 0 };
    let vertical = V3 { x: 0, y: viewport_height, z: 0 };
    CameraModel {
        aspect_ratio,
        viewport_height,
        viewport_width,
        focal_length: ONE_RAW as int,
        origin,
        horizontal,
        vertical,
        lower_left_corner: corner_of(origin, horizontal, vertical, ONE_RAW as int),
    }
}

/// The lower left corner of a viewport that is centred before the origin:
/// `origin - horizontal / 2 - vertical / 2 - (0, 0, focal_length)`.
pub open spec fn corner_of(origin: V3, horizontal: V3, vertical: V3, focal_length: int) -> V3 {
    let two = 2 * ONE_RAW as int;
    v3_sub(
        v3_sub(v3_sub(origin, v3_div(horizontal, two)), v3_div(vertical, two)),
        V3 { x: 0, y: 0, z: focal_length },
    )
}

/// The direction from the origin through the point of the viewport at the
/// fractions `u` and `v` of its width and height.
pub open spec fn direction_through(
    corner: V3,
    horizontal: V3,
    vertical: V3,
    origin: V3,
    u: int,
    v: int,
) -> V3 {
    v3_sub(v3_add(v3_add(corner, v3_scale(horizontal, u)), v3_scale(vertical, v)), origin)
}

impl Camera {
    /// The camera whose viewport is `2 * half_height` high, where
    /// `half_height` is the tangent of half the vertical field of view, and
    /// `aspect_ratio` times as wide. There is none where the aspect ratio
    /// is not positive.
    pub fn new(half_height: Scalar, aspect_ratio: Scalar) -> (camera: Option<Camera>)
        ensures
            (camera is Some) == (aspect_ratio@ > 0),
            camera matches Some(c) ==> c@ == camera_model(half_height@, aspect_ratio@),
    {
        if !aspect_ratio.gt(Scalar::zero()) {
            return None;
        }
        let two: Scalar = Scalar::from_raw(2 * ONE_RAW);
        let viewport_height: Scalar = two.mul(half_height);
        let viewport_width: Scalar = aspect_ratio.mul(viewport_height);
        let focal_length: Scalar = Scalar::one();
        let origin: Vec3 = Vec3::zero();
        let horizontal: Vec3 = Vec3::new(viewport_width, Scalar::zero(), Scalar::zero());
        let vertical: Vec3 = Vec3::new(Scalar::zero(), viewport_height, Scalar::zero());
        let depth: Vec3 = Vec3::new(Scalar::zero(), Scalar::zero(), focal_length);
        let lower_left_corner: Vec3 = origin.sub(&horizontal.div(two)).sub(&vertical.div(two)).sub(
            &depth,
        );
        Some(
            Camera {
                aspect_ratio,
                viewport_height,
                viewport_width,
                focal_length,
                origin,
                horizontal,
                vertical,
                lower_left_corner,
            },
        )
    }

    pub fn aspect_ratio(&self) -> (s: Scalar)
        ensures
            s@ == self@.aspect_ratio,
    {
        self.aspect_ratio
    }

    pub fn viewport_height(&self) -> (s: Scalar)
        ensures
            s@ == self@.viewport_height,
    {
        self.viewport_height
    }

    pub fn viewport_width(&self) -> (s: Scalar)
        ensures
            s@ == self@.viewport_width,
    {
        self.viewport_width
    }

    pub fn focal_length(&self) -> (s: Scalar)
        ensures
            s@ == self@.focal_length,
    {
        self.focal_length
    }

    pub fn origin(&self) -> (o: Vec3)
        ensures
            o@ == self@.origin,
    {
        self.origin
    }

    /// The direction of the ray through the point of the image at the
    /// fractions `u` of its width and `v` of its height.
    pub fn get_dir(&self, u: Scalar, v: Scalar) -> (dir: Vec3)
        ensures
            dir@ == direction_through(
                self@.lower_left_corner,
                self@.horizontal,
                self@.vertical,
                self@.origin,
                u@,
                v@,
            ),
    {
        self.lower_left_corner.add(&self.horizontal.scale(u)).add(&self.vertical.scale(v)).sub(
            &self.origin,
        )
    }
}

} // verus!
