//! Integer arithmetic used when dispatching work to the GPU and when
//! reading rendered textures back into memory.

use vstd::prelude::*;

verus! {

/// The graphics backends a GPU context can be created on.
#[allow(non_camel_case_types)]
pub enum GPUBackens {
    VULCAN,
    METAL,
    BRAWSER_WGPU,
    DX11,
    DX12,
    GL,
}

/// Errors of the GPU context. A failed device request carries the message
/// the graphics library gave for it.
#[derive(Debug)]
pub enum GPUError {
    ADAPTERNOTFOUND(),
    REQUESTDEVICEERROR(String),
    RENDERINGERROR(),
    SHADERSNOTCOMPILED(),
    UNCOMPATIBLEIMAGESIZE((u32, u32), (u32, u32)),
}

/// The compute shaders the renderer knows; each one has a fixed slot
/// in the list of compiled shader modules.
#[derive(Clone, Copy)]
pub enum GPUShaderType {
    Exposition,
    Saturation,
    Grayscale,
}

impl GPUShaderType {
    /// The slot of the shader, in declaration order.
    pub open spec fn slot(self) -> nat {
        match self {
            GPUShaderType::Exposition => 0,
            GPUShaderType::Saturation => 1,
            GPUShaderType::Grayscale => 2,
        }
    }

    pub fn index(&self) -> (r: usize)
        ensures
            r == self.slot(),
    {
        match self {
            GPUShaderType::Exposition => 0,
            GPUShaderType::Saturation => 1,
            GPUShaderType::Grayscale => 2,
        }
    }
}

/// Number of workgroups needed along each axis to cover an image of
/// `size` pixels with workgroups of `workgroup` pixels: the quotients
/// rounded up.
pub fn compute_work_group_count(size: (u32, u32), workgroup: (u32, u32)) -> (r: (u32, u32))
    requires
        workgroup.0 > 0,
        workgroup.1 > 0,
        size.0 + workgroup.0 <= u32::MAX,
        size.1 + workgroup.1 <= u32::MAX,
    ensures
        r.0 == (size.0 + workgroup.0 - 1) / (workgroup.0 as int),
        r.1 == (size.1 + workgroup.1 - 1) / (workgroup.1 as int),
        size.0 <= r.0 * workgroup.0 < size.0 + workgroup.0,
        size.1 <= r.1 * workgroup.1 < size.1 + workgroup.1,
{
    let width = size.0;
    let height = size.1;
    let workgroup_width = workgroup.0;
    let workgroup_height = workgroup.1;
    let x = (width + workgroup_width - 1) / workgroup_width;
    let y = (height + workgroup_height - 1) / workgroup_height;
    proof {
        lemma_ceil_div_bounds(width as int, workgroup_width as int);
        lemma_ceil_div_bounds(height as int, workgroup_height as int);
    }
    (x, y)
}

/// `(n + d - 1) / d` is the least multiple count of `d` that reaches `n`.
proof fn lemma_ceil_div_bounds(n: int, d: int)
    requires
        n >= 0,
        d > 0,
    ensures
        n <= ((n + d - 1) / d) * d < n + d,
{
    let q = (n + d - 1) / d;
    let r = (n + d - 1) % d;
    vstd::arithmetic::div_mod::lemma_fundamental_div_mod(n + d - 1, d);
    assert(q * d == n + d - 1 - r) by (nonlinear_arith)
        requires
            n + d - 1 == d * q + r,
    ;
}

/// Bytes per row of an RGBA8 texture of the given width once each row is
/// padded to the 256-byte alignment that buffer copies require.
pub fn padded_bytes_per_row(width: u32) -> (r: usize)
    requires
        width * 4 + (256 - (width * 4) % 256) % 256 <= usize::MAX,
    ensures
        r == width * 4 + (256 - (width * 4) % 256) % 256,
        r % 256 == 0,
        width * 4 <= r < width * 4 + 256,
{
    let bytes_per_row = width as usize * 4;
    let padding = (256 - bytes_per_row % 256) % 256;
    proof {
        lemma_round_up_to_256(bytes_per_row as int);
    }
    bytes_per_row + padding
}

/// Adding `(256 - n % 256) % 256` to `n` reaches the next multiple of 256.
proof fn lemma_round_up_to_256(n: int)
    requires
        n >= 0,
    ensures
        0 <= (256 - n % 256) % 256 < 256,
        (n + (256 - n % 256) % 256) % 256 == 0,
{
    let q = n / 256;
    let r = n % 256;
    vstd::arithmetic::div_mod::lemma_fundamental_div_mod(n, 256);
    if r == 0 {
        assert((256 - r) % 256 == 0);
        assert(n == 256 * q);
        vstd::arithmetic::div_mod::lemma_mod_multiples_basic(q, 256);
    } else {
        assert((256 - r) % 256 == 256 - r);
        assert(n + (256 - r) == 256 * (q + 1));
        vstd::arithmetic::div_mod::lemma_mod_multiples_basic(q + 1, 256);
    }
}

/// Bytes per padded row of an RGBA8 texture `width` pixels wide.
pub open spec fn padded_row_len(width: u32) -> int {
    width * 4 + (256 - (width * 4) % 256) % 256
}

/// The pixel buffer rebuilt from texture data read back with padded rows:
/// the first `width * 4` bytes of each padded row, one row after the
/// other, and zeros after the last row up to the padded data's length.
pub open spec fn unpadded_byte(padded_data: Seq<u8>, width: u32, height: u32, i: int) -> u8 {
    let u = width * 4;
    if i < u * height {
        padded_data[(i / u) * padded_row_len(width) + i % u]
    } else {
        0u8
    }
}

/// Copies the rows of texture data read back from the GPU, each padded to
/// the copy alignment, into consecutive rows of `width * 4` bytes. The
/// buffer keeps the length of the padded data; its tail is left zero.
pub fn unpad_rows(padded_data: &Vec<u8>, width: u32, height: u32) -> (pixels: Vec<u8>)
    requires
        width > 0,
        padded_row_len(width) <= usize::MAX,
        padded_data@.len() == padded_row_len(width) * height,
    ensures
        pixels@.len() == padded_data@.len(),
        forall|i: int| 0 <= i < pixels@.len() ==> #[trigger] pixels@[i] == unpadded_byte(
            padded_data@,
            width,
            height,
            i,
        ),
{
    proof {
        lemma_round_up_to_256(width * 4);
    }
    let total: usize = padded_data.len();
    let row_len: usize = padded_bytes_per_row(width);
    let unpadded: usize = width as usize * 4;
    let ghost p: int = padded_row_len(width);
    let mut pixels: Vec<u8> = Vec::new();
    let mut row: usize = 0;
    while row < height as usize
        invariant
            total == padded_data@.len(),
            total == p * height,
            p == padded_row_len(width),
            unpadded == width * 4,
            0 < unpadded <= p,
            row_len == p,
            row <= height,
            pixels@.len() == row * unpadded,
            forall|i: int| 0 <= i < pixels@.len() ==> #[trigger] pixels@[i] == unpadded_byte(
                padded_data@,
                width,
                height,
                i,
            ),
        decreases height - row,
    {
        proof {
            assert(row * p + p <= p * height) by (nonlinear_arith)
                requires
                    row < height,
                    p >= 0,
            ;
            assert(row * unpadded + unpadded <= unpadded * height) by (nonlinear_arith)
                requires
                    row < height,
                    unpadded >= 0,
            ;
        }
        let start: usize = row * row_len;
        let mut c: usize = 0;
        while c < unpadded
            invariant
                total == padded_data@.len(),
                total == p * height,
                p == padded_row_len(width),
                unpadded == width * 4,
                0 < unpadded <= p,
                row < height,
                start == row * p,
                row * p + p <= p * height,
                row * unpadded + unpadded <= unpadded * height,
                c <= unpadded,
                pixels@.len() == row * unpadded + c,
                forall|i: int| 0 <= i < pixels@.len() ==> #[trigger] pixels@[i] == unpadded_byte(
                    padded_data@,
                    width,
                    height,
                    i,
                ),
            decreases unpadded - c,
        {
            proof {
                let i = row * unpadded + c;
                vstd::arithmetic::div_mod::lemma_fundamental_div_mod_converse(
                    i,
                    unpadded as int,
                    row as int,
                    c as int,
                );
                assert(i < unpadded * height);
            }
            pixels.push(padded_data[start + c]);
            c = c + 1;
        }
        proof {
            assert((row + 1) * unpadded == row * unpadded + unpadded) by (nonlinear_arith);
        }
        row = row + 1;
    }
    proof {
        assert(height * unpadded == unpadded * height) by (nonlinear_arith);
        assert(unpadded * height <= total) by (nonlinear_arith)
            requires
                unpadded <= p,
                total == p * height,
                height >= 0,
        ;
    }
    while pixels.len() < total
        invariant
            total == padded_data@.len(),
            unpadded == width * 4,
            unpadded * height <= pixels@.len() <= total,
            forall|i: int| 0 <= i < pixels@.len() ==> #[trigger] pixels@[i] == unpadded_byte(
                padded_data@,
                width,
                height,
                i,
            ),
        decreases total - pixels@.len(),
    {
        pixels.push(0);
    }
    pixels
}

} // verus!
