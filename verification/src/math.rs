//! Fixed-point scalars, vectors, quaternions and isometries.
//!
//! Transforms cross the library boundary as plain integers: a scalar is a
//! signed 64-bit fixed-point number with 16 fractional bits.  Every operation
//! here is total — products are truncated toward zero and sums saturate — and
//! each has an exact specification, so transform composition is a function the
//! verifier can reason about.  Converting between these values and whatever
//! scalar type the simulation backend uses is the adapter's job.

use vstd::prelude::*;

verus! {

/// The fixed-point representation of 1 (16 fractional bits).
pub const FX_ONE: i64 = 65536;

/// Magnitude of an integer.
pub open spec fn fx_mag(a: int) -> int {
    if a >= 0 {
        a
    } else {
        -a
    }
}

/// Saturating fixed-point addition.
pub open spec fn fx_add_spec(a: i64, b: i64) -> i64 {
    if a + b > i64::MAX {
        i64::MAX
    } else if a + b < i64::MIN {
        i64::MIN
    } else {
        (a + b) as i64
    }
}

/// Saturating fixed-point subtraction.
pub open spec fn fx_sub_spec(a: i64, b: i64) -> i64 {
    if a - b > i64::MAX {
        i64::MAX
    } else if a - b < i64::MIN {
        i64::MIN
    } else {
        (a - b) as i64
    }
}

/// Saturating fixed-point multiplication: the exact product is scaled down by
/// `FX_ONE`, truncating toward zero.
pub open spec fn fx_mul_spec(a: i64, b: i64) -> i64 {
    let m = (fx_mag(a as int) * fx_mag(b as int)) / (FX_ONE as int);
    if (a < 0) != (b < 0) {
        if m >= 0x8000_0000_0000_0000 {
            i64::MIN
        } else {
            (-m) as i64
        }
    } else {
        if m > i64::MAX {
            i64::MAX
        } else {
            m as i64
        }
    }
}

pub fn fx_add(a: i64, b: i64) -> (r: i64)
    ensures
        r == fx_add_spec(a, b),
{
    match a.checked_add(b) {
        Some(v) => v,
        None => if b > 0 {
            i64::MAX
        } else {
            i64::MIN
        },
    }
}

pub fn fx_sub(a: i64, b: i64) -> (r: i64)
    ensures
        r == fx_sub_spec(a, b),
{
    match a.checked_sub(b) {
        Some(v) => v,
        None => if b < 0 {
            i64::MAX
        } else {
            i64::MIN
        },
    }
}

fn fx_mag_exec(a: i64) -> (m: u128)
    ensures
        m == fx_mag(a as int),
{
    if a >= 0 {
        a as u128
    } else {
        (-(a as i128)) as u128
    }
}

pub fn fx_mul(a: i64, b: i64) -> (r: i64)
    ensures
        r == fx_mul_spec(a, b),
{
    let neg = (a < 0) != (b < 0);
    let ma = fx_mag_exec(a);
    let mb = fx_mag_exec(b);
    proof {
        assert(ma * mb <= 0x8000_0000_0000_0000u128 * 0x8000_0000_0000_0000u128)
            by (nonlinear_arith)
            requires
                ma <= 0x8000_0000_0000_0000u128,
                mb <= 0x8000_0000_0000_0000u128,
        ;
    }
    let m = (ma * mb) / 65536;
    if neg {
        if m >= 0x8000_0000_0000_0000u128 {
            i64::MIN
        } else {
            -(m as i64)
        }
    } else {
        if m > i64::MAX as u128 {
            i64::MAX
        } else {
            m as i64
        }
    }
}

/// A vector of three fixed-point coordinates.
#[derive(Copy, Clone, Debug, PartialEq, Eq, Structural)]
pub struct Vec3 {
    pub x: i64,
    pub y: i64,
    pub z: i64,
}

/// A quaternion with fixed-point components; `w` is the scalar part.
#[derive(Copy, Clone, Debug, PartialEq, Eq, Structural)]
pub struct Quat {
    pub x: i64,
    pub y: i64,
    pub z: i64,
    pub w: i64,
}

/// A rigid transform: a rotation followed by a translation.
#[derive(Copy, Clone, Debug, PartialEq, Eq, Structural)]
pub struct Isometry {
    pub translation: Vec3,
    pub rotation: Quat,
}

pub open spec fn vec3_add_spec(a: Vec3, b: Vec3) -> Vec3 {
    Vec3 {
        x: fx_add_spec(a.x, b.x),
        y: fx_add_spec(a.y, b.y),
        z: fx_add_spec(a.z, b.z),
    }
}

pub open spec fn vec3_cross_spec(a: Vec3, b: Vec3) -> Vec3 {
    Vec3 {
        x: fx_sub_spec(fx_mul_spec(a.y, b.z), fx_mul_spec(a.z, b.y)),
        y: fx_sub_spec(fx_mul_spec(a.z, b.x), fx_mul_spec(a.x, b.z)),
        z: fx_sub_spec(fx_mul_spec(a.x, b.y), fx_mul_spec(a.y, b.x)),
    }
}

pub open spec fn vec3_scale_spec(s: i64, v: Vec3) -> Vec3 {
    Vec3 { x: fx_mul_spec(s, v.x), y: fx_mul_spec(s, v.y), z: fx_mul_spec(s, v.z) }
}

pub open spec fn vec3_double_spec(v: Vec3) -> Vec3 {
    vec3_add_spec(v, v)
}

pub open spec fn quat_mul_spec(p: Quat, q: Quat) -> Quat {
    Quat {
        x: fx_sub_spec(
            fx_add_spec(fx_add_spec(fx_mul_spec(p.w, q.x), fx_mul_spec(p.x, q.w)), fx_mul_spec(p.y, q.z)),
            fx_mul_spec(p.z, q.y),
        ),
        y: fx_add_spec(
            fx_add_spec(fx_sub_spec(fx_mul_spec(p.w, q.y), fx_mul_spec(p.x, q.z)), fx_mul_spec(p.y, q.w)),
            fx_mul_spec(p.z, q.x),
        ),
        z: fx_add_spec(
            fx_sub_spec(fx_add_spec(fx_mul_spec(p.w, q.z), fx_mul_spec(p.x, q.y)), fx_mul_spec(p.y, q.x)),
            fx_mul_spec(p.z, q.w),
        ),
        w: fx_sub_spec(
            fx_sub_spec(fx_sub_spec(fx_mul_spec(p.w, q.w), fx_mul_spec(p.x, q.x)), fx_mul_spec(p.y, q.y)),
            fx_mul_spec(p.z, q.z),
        ),
    }
}

/// Rotation of a vector by a quaternion, computed as
/// `v + w*t + (q.xyz × t)` with `t = 2 * (q.xyz × v)`.
pub open spec fn quat_rotate_spec(q: Quat, v: Vec3) -> Vec3 {
    let qv = Vec3 { x: q.x, y: q.y, z: q.z };
    let t = vec3_double_spec(vec3_cross_spec(qv, v));
    vec3_add_spec(vec3_add_spec(v, vec3_scale_spec(q.w, t)), vec3_cross_spec(qv, t))
}

/// Composition of isometries: `iso_compose_spec(a, b)` applies `b` first and
/// then `a`.
pub open spec fn iso_compose_spec(a: Isometry, b: Isometry) -> Isometry {
    Isometry {
        translation: vec3_add_spec(quat_rotate_spec(a.rotation, b.translation), a.translation),
        rotation: quat_mul_spec(a.rotation, b.rotation),
    }
}

pub open spec fn vec3_zero_spec() -> Vec3 {
    Vec3 { x: 0, y: 0, z: 0 }
}

pub open spec fn iso_identity_spec() -> Isometry {
    Isometry {
        translation: vec3_zero_spec(),
        rotation: Quat { x: 0, y: 0, z: 0, w: FX_ONE },
    }
}

impl Vec3 {
    pub fn zero() -> (r: Vec3)
        ensures
            r == vec3_zero_spec(),
    {
        Vec3 { x: 0, y: 0, z: 0 }
    }

    pub fn add_sat(self, other: Vec3) -> (r: Vec3)
        ensures
            r == vec3_add_spec(self, other),
    {
        Vec3 {
            x: fx_add(self.x, other.x),
            y: fx_add(self.y, other.y),
            z: fx_add(self.z, other.z),
        }
    }

    pub fn cross(self, other: Vec3) -> (r: Vec3)
        ensures
            r == vec3_cross_spec(self, other),
    {
        Vec3 {
            x: fx_sub(fx_mul(self.y, other.z), fx_mul(self.z, other.y)),
            y: fx_sub(fx_mul(self.z, other.x), fx_mul(self.x, other.z)),
            z: fx_sub(fx_mul(self.x, other.y), fx_mul(self.y, other.x)),
        }
    }

    pub fn scale(self, s: i64) -> (r: Vec3)
        ensures
            r == vec3_scale_spec(s, self),
    {
        Vec3 { x: fx_mul(s, self.x), y: fx_mul(s, self.y), z: fx_mul(s, self.z) }
    }

    pub fn double(self) -> (r: Vec3)
        ensures
            r == vec3_double_spec(self),
    {
        self.add_sat(self)
    }
}

impl Quat {
    pub fn multiply(self, other: Quat) -> (r: Quat)
        ensures
            r == quat_mul_spec(self, other),
    {
        Quat {
            x: fx_sub(
                fx_add(fx_add(fx_mul(self.w, other.x), fx_mul(self.x, other.w)), fx_mul(self.y, other.z)),
                fx_mul(self.z, other.y),
            ),
            y: fx_add(
                fx_add(fx_sub(fx_mul(self.w, other.y), fx_mul(self.x, other.z)), fx_mul(self.y, other.w)),
                fx_mul(self.z, other.x),
            ),
            z: fx_add(
                fx_sub(fx_add(fx_mul(self.w, other.z), fx_mul(self.x, other.y)), fx_mul(self.y, other.x)),
                fx_mul(self.z, other.w),
            ),
            w: fx_sub(
                fx_sub(fx_sub(fx_mul(self.w, other.w), fx_mul(self.x, other.x)), fx_mul(self.y, other.y)),
                fx_mul(self.z, other.z),
            ),
        }
    }

    pub fn rotate(self, v: Vec3) -> (r: Vec3)
        ensures
            r == quat_rotate_spec(self, v),
    {
        let qv = Vec3 { x: self.x, y: self.y, z: self.z };
        let t = qv.cross(v).double();
        v.add_sat(t.scale(self.w)).add_sat(qv.cross(t))
    }
}

impl Isometry {
    /// The identity transform.
    pub fn identity() -> (r: Isometry)
        ensures
            r == iso_identity_spec(),
    {
        Isometry {
            translation: Vec3::zero(),
            rotation: Quat { x: 0, y: 0, z: 0, w: FX_ONE },
        }
    }

    /// Apply `other` first and then `self`.
    pub fn compose(self, other: Isometry) -> (r: Isometry)
        ensures
            r == iso_compose_spec(self, other),
    {
        Isometry {
            translation: self.rotation.rotate(other.translation).add_sat(self.translation),
            rotation: self.rotation.multiply(other.rotation),
        }
    }
}

} // verus!
