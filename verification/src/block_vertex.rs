use crate::bits::{read_u8_field, write_u32_field, write_u8_field};
use vstd::prelude::*;

verus! {

/// A block-face vertex packed into two words.
///
/// Word 0: `x` in bits 0..=4, `y` in 5..=9, `z` in 10..=14, the texture index in
/// 15..=22, the side shade in 23..=24, the ambient occlusion in 25..=26 and the
/// texture `u` coordinate in 27..=31. Word 1: the block light in bits 0..=26 and the
/// texture `v` coordinate in 27..=31.
#[derive(Clone, Copy)]
pub struct BlockVertex {
    pub data: [u32; 2],
}

/// The first word of a vertex built from these fields; each field keeps only as
/// many low bits as its slot is wide.
pub open spec fn packed_word0(
    coords: (u8, u8, u8),
    tex_index: u8,
    tex_u: u8,
    side_shade: u8,
    ao: u8,
) -> u32 {
    (coords.0 as u32 & 0x1f) | ((coords.1 as u32 & 0x1f) << 5u32) | ((coords.2 as u32 & 0x1f)
        << 10u32) | ((tex_index as u32) << 15u32) | ((side_shade as u32 & 0x3) << 23u32) | ((
    ao as u32 & 0x3) << 25u32) | ((tex_u as u32 & 0x1f) << 27u32)
}

/// The second word of a vertex built from these fields.
pub open spec fn packed_word1(tex_v: u8, light: u32) -> u32 {
    (light & 0x7ff_ffff) | ((tex_v as u32 & 0x1f) << 27u32)
}

/// The block coordinates held in a first word.
pub open spec fn unpacked_coords(word0: u32) -> (u8, u8, u8) {
    ((word0 & 0x1f) as u8, ((word0 >> 5u32) & 0x1f) as u8, ((word0 >> 10u32) & 0x1f) as u8)
}

/// The side shade held in a first word.
pub open spec fn unpacked_side_shade(word0: u32) -> u8 {
    ((word0 >> 23u32) & 0x3) as u8
}

/// The ambient occlusion held in a first word.
pub open spec fn unpacked_ao(word0: u32) -> u8 {
    ((word0 >> 25u32) & 0x3) as u8
}

/// The texture index held in a first word.
pub open spec fn unpacked_tex_index(word0: u32) -> u8 {
    ((word0 >> 15u32) & 0xff) as u8
}

/// The texture coordinates held in the two words.
pub open spec fn unpacked_tex_coords(word0: u32, word1: u32) -> (u8, u8) {
    (((word0 >> 27u32) & 0x1f) as u8, ((word1 >> 27u32) & 0x1f) as u8)
}

impl BlockVertex {
    /// Packs a vertex. `side_shade` is the shade's discriminant; every field is cut to
    /// the width of its slot.
    pub fn new(
        coords: (u8, u8, u8),
        tex_index: u8,
        tex_coords: (u8, u8),
        side_shade: u8,
        ao: u8,
        light: u32,
    ) -> (res: Self)
        ensures
            res.data[0] == packed_word0(coords, tex_index, tex_coords.0, side_shade, ao),
            res.data[1] == packed_word1(tex_coords.1, light),
    {
        let mut w0: u32 = 0;
        let mut w1: u32 = 0;
        write_u8_field(&mut w0, 4, 0, coords.0);
        let ghost a0 = w0;
        write_u8_field(&mut w0, 9, 5, coords.1);
        let ghost a1 = w0;
        write_u8_field(&mut w0, 14, 10, coords.2);
        let ghost a2 = w0;
        write_u8_field(&mut w0, 22, 15, tex_index);
        let ghost a3 = w0;
        write_u8_field(&mut w0, 31, 27, tex_coords.0);
        let ghost a4 = w0;
        write_u8_field(&mut w1, 31, 27, tex_coords.1);
        let ghost b0 = w1;
        write_u8_field(&mut w0, 24, 23, side_shade);
        let ghost a5 = w0;
        write_u8_field(&mut w0, 26, 25, ao);
        write_u32_field(&mut w1, 26, 0, light);
        proof {
            let x = coords.0 as u32;
            let y = coords.1 as u32;
            let z = coords.2 as u32;
            let t = tex_index as u32;
            let u = tex_coords.0 as u32;
            let v = tex_coords.1 as u32;
            let s = side_shade as u32;
            let o = ao as u32;
            assert(w0 == (x & 0x1f) | ((y & 0x1f) << 5u32) | ((z & 0x1f) << 10u32) | (t << 15u32)
                | ((s & 0x3) << 23u32) | ((o & 0x3) << 25u32) | ((u & 0x1f) << 27u32))
                by (bit_vector)
                requires
                    x < 256,
                    y < 256,
                    z < 256,
                    t < 256,
                    u < 256,
                    s < 256,
                    o < 256,
                    a0 == (0u32 & !crate::bits::field_mask(4, 0)) | ((x << 0u32) & crate::bits::field_mask(4, 0)),
                    a1 == (a0 & !crate::bits::field_mask(9, 5)) | ((y << 5u32) & crate::bits::field_mask(9, 5)),
                    a2 == (a1 & !crate::bits::field_mask(14, 10)) | ((z << 10u32) & crate::bits::field_mask(14, 10)),
                    a3 == (a2 & !crate::bits::field_mask(22, 15)) | ((t << 15u32) & crate::bits::field_mask(22, 15)),
                    a4 == (a3 & !crate::bits::field_mask(31, 27)) | ((u << 27u32) & crate::bits::field_mask(31, 27)),
                    a5 == (a4 & !crate::bits::field_mask(24, 23)) | ((s << 23u32) & crate::bits::field_mask(24, 23)),
                    w0 == (a5 & !crate::bits::field_mask(26, 25)) | ((o << 25u32) & crate::bits::field_mask(26, 25)),
            ;
            assert(w1 == (light & 0x7ff_ffff) | ((v & 0x1f) << 27u32)) by (bit_vector)
                requires
                    v < 256,
                    b0 == (0u32 & !crate::bits::field_mask(31, 27)) | ((v << 27u32) & crate::bits::field_mask(31, 27)),
                    w1 == (b0 & !crate::bits::field_mask(26, 0)) | ((light << 0u32) & crate::bits::field_mask(26, 0)),
            ;
        }
        Self { data: [w0, w1] }
    }

    /// The block coordinates within the chunk.
    pub fn coords(self) -> (res: (u8, u8, u8))
        ensures
            res == unpacked_coords(self.data[0]),
    {
        let w0 = self.data[0];
        let x = read_u8_field(w0, 4, 0);
        let y = read_u8_field(w0, 9, 5);
        let z = read_u8_field(w0, 14, 10);
        proof {
            assert(crate::bits::field_value(w0, 4, 0) == w0 & 0x1f) by (bit_vector);
            assert(crate::bits::field_value(w0, 9, 5) == (w0 >> 5u32) & 0x1f) by (bit_vector);
            assert(crate::bits::field_value(w0, 14, 10) == (w0 >> 10u32) & 0x1f) by (bit_vector);
        }
        (x, y, z)
    }

    /// The discriminant of the side shade.
    pub fn side_shade(self) -> (res: u8)
        ensures
            res == unpacked_side_shade(self.data[0]),
            res < 4,
    {
        let w0 = self.data[0];
        let s = read_u8_field(w0, 24, 23);
        proof {
            assert(crate::bits::field_value(w0, 24, 23) == (w0 >> 23u32) & 0x3 && (w0 >> 23u32) & 0x3 < 4)
                by (bit_vector);
        }
        s
    }

    /// The ambient occlusion level.
    pub fn ao(self) -> (res: u8)
        ensures
            res == unpacked_ao(self.data[0]),
            res < 4,
    {
        let w0 = self.data[0];
        let a = read_u8_field(w0, 26, 25);
        proof {
            assert(crate::bits::field_value(w0, 26, 25) == (w0 >> 25u32) & 0x3 && (w0 >> 25u32) & 0x3 < 4)
                by (bit_vector);
        }
        a
    }

    /// The block light word: the whole second word, as the shader reads it.
    pub fn light(self) -> (res: u32)
        ensures
            res == self.data[1],
    {
        self.data[1]
    }
}

/// Reading back a packed vertex gives each field cut to the width of its slot: the
/// coordinates modulo 32, the texture index whole, the shade and the ambient
/// occlusion modulo 4, the texture coordinates modulo 32, and the light's low 27
/// bits under the texture `v` coordinate.
pub proof fn lemma_block_vertex_round_trip(
    coords: (u8, u8, u8),
    tex_index: u8,
    tex_coords: (u8, u8),
    side_shade: u8,
    ao: u8,
    light: u32,
)
    ensures
        ({
            let w0 = packed_word0(coords, tex_index, tex_coords.0, side_shade, ao);
            let w1 = packed_word1(tex_coords.1, light);
            &&& unpacked_coords(w0) == (coords.0 % 32, coords.1 % 32, coords.2 % 32)
            &&& unpacked_tex_index(w0) == tex_index
            &&& unpacked_side_shade(w0) == side_shade % 4
            &&& unpacked_ao(w0) == ao % 4
            &&& unpacked_tex_coords(w0, w1) == (tex_coords.0 % 32, tex_coords.1 % 32)
            &&& w1 & 0x7ff_ffff == light & 0x7ff_ffff
        }),
{
    let x = coords.0 as u32;
    let y = coords.1 as u32;
    let z = coords.2 as u32;
    let t = tex_index as u32;
    let u = tex_coords.0 as u32;
    let v = tex_coords.1 as u32;
    let s = side_shade as u32;
    let o = ao as u32;
    let w0 = packed_word0(coords, tex_index, tex_coords.0, side_shade, ao);
    let w1 = packed_word1(tex_coords.1, light);
    assert(w0 & 0x1f == x % 32 && (w0 >> 5u32) & 0x1f == y % 32 && (w0 >> 10u32) & 0x1f == z
        % 32 && (w0 >> 15u32) & 0xff == t && (w0 >> 23u32) & 0x3 == s % 4 && (w0 >> 25u32) & 0x3
        == o % 4 && (w0 >> 27u32) & 0x1f == u % 32) by (bit_vector)
        requires
            x < 256,
            y < 256,
            z < 256,
            t < 256,
            u < 256,
            s < 256,
            o < 256,
            w0 == (x & 0x1f) | ((y & 0x1f) << 5u32) | ((z & 0x1f) << 10u32) | (t << 15u32) | ((s
                & 0x3) << 23u32) | ((o & 0x3) << 25u32) | ((u & 0x1f) << 27u32),
    ;
    assert((w1 >> 27u32) & 0x1f == v % 32 && w1 & 0x7ff_ffff == light & 0x7ff_ffff)
        by (bit_vector)
        requires
            v < 256,
            w1 == (light & 0x7ff_ffff) | ((v & 0x1f) << 27u32),
    ;
}

} // verus!
