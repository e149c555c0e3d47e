//! The three-component geometry value.
//!
//! Components are exact fixed-point numbers in `10^-4` units (see
//! `numtext`).  The textual form is up to three comma-separated decimal
//! fields; a fourth field is a decode error.  A field that is not decimal
//! text is silently read as zero: that fallback is a deliberate, lossy
//! policy of the format, not an accident, and it means malformed geometry
//! can pass as zero-valued geometry.

use vstd::prelude::*;
use crate::bytes::{spec_split, split_bytes, views_of, lemma_split_nonempty};
use crate::errors::DecodeError;
use crate::numtext::{spec_parse_fixed4, parse_fixed4};

verus! {

/// A position or direction: fixed-point components in `10^-4` units.
#[derive(Clone, Copy, Debug, PartialEq, Eq, Structural)]
pub struct Vector3 {
    pub x: i64,
    pub y: i64,
    pub z: i64,
}

/// The component at position `i` of a split geometry text: the field's
/// fixed-point value, zero if it does not read as a number or is absent.
pub open spec fn spec_component(fields: Seq<Seq<u8>>, i: int) -> i64 {
    if 0 <= i < fields.len() {
        match spec_parse_fixed4(fields[i]) {
            Some(v) => v,
            None => 0,
        }
    } else {
        0
    }
}

/// What geometry text denotes: up to three comma-separated components, each
/// read leniently (non-numeric becomes zero), a missing trailing component
/// defaulting to zero, and a fourth component refused.
pub open spec fn spec_vector3_from(s: Seq<u8>) -> Result<Vector3, DecodeError> {
    let fields = spec_split(s, 44u8);
    if fields.len() > 3 {
        Err(DecodeError::TooManyVectorFields)
    } else {
        Ok(Vector3 {
            x: spec_component(fields, 0),
            y: spec_component(fields, 1),
            z: spec_component(fields, 2),
        })
    }
}

impl Vector3 {
    /// The zero vector.
    pub fn zero() -> (r: Vector3)
        ensures
            r == (Vector3 { x: 0i64, y: 0i64, z: 0i64 }),
    {
        Vector3 { x: 0, y: 0, z: 0 }
    }

    /// Decodes comma-separated geometry text, exactly as `spec_vector3_from`
    /// reads it.
    pub fn from_string(s: &[u8]) -> (r: Result<Vector3, DecodeError>)
        ensures
            r == spec_vector3_from(s@),
    {
        let fields = split_bytes(s, 44);
        proof {
            lemma_split_nonempty(s@, 44u8);
            assert(views_of(fields@).len() == fields@.len());
        }
        if fields.len() > 3 {
            return Err(DecodeError::TooManyVectorFields);
        }
        let mut out = Vector3 { x: 0, y: 0, z: 0 };
        proof {
            assert(views_of(fields@)[0] == fields@[0]@);
        }
        match parse_fixed4(fields[0].as_slice()) {
            Some(v) => {
                out.x = v;
            },
            None => {},
        }
        if fields.len() > 1 {
            proof {
                assert(views_of(fields@)[1] == fields@[1]@);
            }
            match parse_fixed4(fields[1].as_slice()) {
                Some(v) => {
                    out.y = v;
                },
                None => {},
            }
        }
        if fields.len() > 2 {
            proof {
                assert(views_of(fields@)[2] == fields@[2]@);
            }
            match parse_fixed4(fields[2].as_slice()) {
                Some(v) => {
                    out.z = v;
                },
                None => {},
            }
        }
        Ok(out)
    }

    /// Component-wise addition in place; the caller must know the exact sums
    /// stay in range.
    pub fn add(&mut self, v: Vector3)
        requires
            i64::MIN <= old(self).x + v.x <= i64::MAX,
            i64::MIN <= old(self).y + v.y <= i64::MAX,
            i64::MIN <= old(self).z + v.z <= i64::MAX,
        ensures
            final(self).x == old(self).x + v.x,
            final(self).y == old(self).y + v.y,
            final(self).z == old(self).z + v.z,
    {
        self.x = self.x + v.x;
        self.y = self.y + v.y;
        self.z = self.z + v.z;
    }

    /// Component-wise addition that reports an out-of-range exact sum
    /// instead of requiring the caller to rule it out.
    pub fn try_add(&self, v: Vector3) -> (r: Option<Vector3>)
        ensures
            r == spec_vec_add(*self, v),
    {
        let x = match self.x.checked_add(v.x) {
            Some(x) => x,
            None => {
                return None;
            },
        };
        let y = match self.y.checked_add(v.y) {
            Some(y) => y,
            None => {
                return None;
            },
        };
        let z = match self.z.checked_add(v.z) {
            Some(z) => z,
            None => {
                return None;
            },
        };
        Some(Vector3 { x, y, z })
    }
}

/// Exact component-wise vector addition, `None` where a component leaves the
/// machine range.
pub open spec fn spec_vec_add(a: Vector3, b: Vector3) -> Option<Vector3> {
    if i64::MIN <= a.x + b.x <= i64::MAX && i64::MIN <= a.y + b.y <= i64::MAX
        && i64::MIN <= a.z + b.z <= i64::MAX {
        Some(Vector3 { x: (a.x + b.x) as i64, y: (a.y + b.y) as i64, z: (a.z + b.z) as i64 })
    } else {
        None
    }
}

} // verus!
