//! Triples of numbers: points, directions and colours.

use vstd::prelude::*;
use crate::dyadic::count_steps;
use crate::dyadic::dyadic;
use crate::dyadic::lemma_steps_of_dyadic;
use crate::dyadic::make_dyadic;
use crate::dyadic::steps_up_to;
use crate::scalar::Scalar;

verus! {

/// Three numbers; as a colour, red, green and blue in that order.
#[derive(Clone, Copy, Debug)]
pub struct Vec3 {
    pub x: Scalar,
    pub y: Scalar,
    pub z: Scalar,
}

impl Vec3 {
    /// The component on an axis: 0 is `x`, 1 is `y`, anything else is `z`.
    pub open spec fn spec_axis(self, axis: int) -> Scalar {
        if axis == 0 {
            self.x
        } else if axis == 1 {
            self.y
        } else {
            self.z
        }
    }

    /// Whether none of the three components is not a number.
    pub open spec fn spec_is_ordered(self) -> bool {
        !self.x.is_nan() && !self.y.is_nan() && !self.z.is_nan()
    }

    /// The triple of these three numbers.
    pub fn new(x: Scalar, y: Scalar, z: Scalar) -> (v: Vec3)
        ensures
            v == (Vec3 { x, y, z }),
    {
        Vec3 { x, y, z }
    }

    /// The triple of three ones: white.
    pub fn ones() -> (v: Vec3)
        ensures
            v == (Vec3 { x: Scalar::one(), y: Scalar::one(), z: Scalar::one() }),
    {
        Vec3 { x: Scalar::one(), y: Scalar::one(), z: Scalar::one() }
    }

    /// The triple of three zeros: black.
    pub fn zeros() -> (v: Vec3)
        ensures
            v == (Vec3 { x: Scalar::zero(), y: Scalar::zero(), z: Scalar::zero() }),
    {
        Vec3 { x: Scalar::zero(), y: Scalar::zero(), z: Scalar::zero() }
    }

    /// The three components in order.
    pub fn to_array(&self) -> (a: [Scalar; 3])
        ensures
            a@ == seq![self.x, self.y, self.z],
    {
        [self.x, self.y, self.z]
    }

    /// The component on one of the three axes.
    pub fn axis(&self, axis: usize) -> (c: Scalar)
        requires
            axis < 3,
        ensures
            c == self.spec_axis(axis as int),
    {
        if axis == 0 {
            self.x
        } else if axis == 1 {
            self.y
        } else {
            self.z
        }
    }

    /// Whether all three components are numbers.
    #[verifier::when_used_as_spec(spec_is_ordered)]
    pub fn is_ordered(self) -> (r: bool)
        ensures
            r == self.spec_is_ordered(),
    {
        !self.x.is_nan() && !self.y.is_nan() && !self.z.is_nan()
    }
}

impl Vec3 {
    /// The byte that stands for a channel: how many of `1/256` to `255/256`
    /// the channel reaches, so 0 below `1/256` and 255 from `255/256` on;
    /// 255 for what is not a number.
    pub open spec fn spec_to_u8(v: Scalar) -> u8 {
        if v.is_nan() {
            255
        } else {
            steps_up_to(v, 255) as u8
        }
    }

    /// The number that stands for a byte: the middle of the byte's step,
    /// `(2 v + 1) / 512`.
    pub open spec fn spec_from_u8(v: u8) -> Scalar {
        dyadic(2 * v + 1, 9)
    }

    /// The three bytes of the colour.
    pub open spec fn spec_to_rgb(&self) -> [u8; 3] {
        [Vec3::spec_to_u8(self.x), Vec3::spec_to_u8(self.y), Vec3::spec_to_u8(self.z)]
    }

    /// The packed pixel of the colour: red, green and blue in the three low
    /// bytes, red highest, and nothing in the top byte.
    pub open spec fn spec_to_argb(&self) -> u32 {
        (Vec3::spec_to_u8(self.x) * 65536 + Vec3::spec_to_u8(self.y) * 256 + Vec3::spec_to_u8(
            self.z,
        )) as u32
    }

    /// The colour of a packed pixel; the top byte is not looked at.
    pub open spec fn spec_from_argb(v: u32) -> Vec3 {
        Vec3 {
            x: Vec3::spec_from_u8(((v / 65536) % 256) as u8),
            y: Vec3::spec_from_u8(((v / 256) % 256) as u8),
            z: Vec3::spec_from_u8((v % 256) as u8),
        }
    }

    /// The byte that stands for a channel.
    #[verifier::when_used_as_spec(spec_to_u8)]
    pub fn to_u8(v: Scalar) -> (b: u8)
        ensures
            b == Vec3::spec_to_u8(v),
    {
        if v.is_nan() {
            return 255;
        }
        count_steps(v)
    }

    /// The number that stands for a byte.
    #[verifier::when_used_as_spec(spec_from_u8)]
    pub fn from_u8(v: u8) -> (s: Scalar)
        ensures
            s == Vec3::spec_from_u8(v),
    {
        make_dyadic(2 * (v as u32) + 1, 9)
    }

    /// The three bytes of the colour.
    #[verifier::when_used_as_spec(spec_to_rgb)]
    pub fn to_rgb(&self) -> (a: [u8; 3])
        ensures
            a == self.spec_to_rgb(),
    {
        [Vec3::to_u8(self.x), Vec3::to_u8(self.y), Vec3::to_u8(self.z)]
    }

    /// The colour of a packed pixel.
    #[verifier::when_used_as_spec(spec_from_argb)]
    pub fn from_argb(v: u32) -> (c: Vec3)
        ensures
            c == Vec3::spec_from_argb(v),
    {
        let x = Vec3::from_u8(((v / 65536) % 256) as u8);
        let y = Vec3::from_u8(((v / 256) % 256) as u8);
        let z = Vec3::from_u8((v % 256) as u8);
        Vec3 { x, y, z }
    }

    /// The packed pixel of the colour.
    #[verifier::when_used_as_spec(spec_to_argb)]
    pub fn to_argb(&self) -> (v: u32)
        ensures
            v == self.spec_to_argb(),
            v < 0x100_0000,
    {
        (Vec3::to_u8(self.x) as u32) * 65536 + (Vec3::to_u8(self.y) as u32) * 256 + (Vec3::to_u8(
            self.z,
        ) as u32)
    }

    /// A byte comes back from the number that stands for it.
    pub proof fn lemma_byte_round_trip(b: u8)
        ensures
            Vec3::to_u8(Vec3::from_u8(b)) == b,
    {
        lemma_steps_of_dyadic(b as int);
    }

    /// Unpacking a packed colour gives back its three bytes, each as the
    /// number that stands for it.
    pub proof fn lemma_unpack_packed(c: Vec3)
        ensures
            Vec3::from_argb(c.to_argb()) == (Vec3 {
                x: Vec3::from_u8(Vec3::to_u8(c.x)),
                y: Vec3::from_u8(Vec3::to_u8(c.y)),
                z: Vec3::from_u8(Vec3::to_u8(c.z)),
            }),
    {
        lemma_bytes_unpack(Vec3::to_u8(c.x), Vec3::to_u8(c.y), Vec3::to_u8(c.z));
    }
}

/// Three bytes packed into one word come out of it again.
proof fn lemma_bytes_unpack(r: u8, g: u8, b: u8)
    ensures
        ((r * 65536 + g * 256 + b) / 65536) % 256 == r,
        ((r * 65536 + g * 256 + b) / 256) % 256 == g,
        (r * 65536 + g * 256 + b) % 256 == b,
        r * 65536 + g * 256 + b < 0x100_0000,
{
}

} // verus!
