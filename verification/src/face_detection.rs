use vstd::prelude::*;

use crate::error::AppError;

verus! {

/// The luma byte of one pixel: `floor(0.299*R + 0.587*G + 0.114*B)`,
/// computed exactly over the integers as `(299*R + 587*G + 114*B) / 1000`.
pub open spec fn luma_value(r: u8, g: u8, b: u8) -> int {
    (299 * r + 587 * g + 114 * b) / 1000
}

/// Convert a packed 4-channel (R, G, B, A) byte buffer, row-major, of
/// length exactly `width * height * 4` into the 1-channel luma buffer of
/// length `width * height`; the alpha channel is ignored. A buffer of any
/// other length is rejected with `InvalidBufferSize`.
pub fn convert_rgba_to_luma(rgba_vec: &Vec<u8>, width: u32, height: u32) -> (result: Result<
    Vec<u8>,
    AppError,
>)
    ensures
        match result {
            Ok(luma) => {
                &&& rgba_vec@.len() == width * height * 4
                &&& luma@.len() == width * height
                &&& forall|i: int|
                    0 <= i < luma@.len() ==> #[trigger] luma@[i] == luma_value(
                        rgba_vec@[4 * i],
                        rgba_vec@[4 * i + 1],
                        rgba_vec@[4 * i + 2],
                    )
            },
            Err(e) => {
                &&& rgba_vec@.len() != width * height * 4
                &&& e == (AppError::InvalidBufferSize {
                    expected: (width * height * 4) as u128,
                    actual: rgba_vec@.len() as u128,
                })
            },
        },
{
    proof {
        assert((width as int) * (height as int) <= 0xffff_ffff * 0xffff_ffff) by (nonlinear_arith)
            requires
                0 <= width <= 0xffff_ffff,
                0 <= height <= 0xffff_ffff,
        ;
    }
    let expected: u128 = (width as u128) * (height as u128) * 4;
    if (rgba_vec.len() as u128) != expected {
        return Err(
            AppError::InvalidBufferSize { expected, actual: rgba_vec.len() as u128 },
        );
    }

    let pixel_count: usize = rgba_vec.len() / 4;
    assert(4 * pixel_count == rgba_vec@.len());
    assert(pixel_count == width * height);

    let mut luma: Vec<u8> = Vec::new();
    let mut i: usize = 0;
    while i < pixel_count
        invariant
            i <= pixel_count,
            4 * pixel_count == rgba_vec@.len(),
            rgba_vec@.len() <= usize::MAX,
            luma@.len() == i,
            forall|k: int|
                0 <= k < i ==> #[trigger] luma@[k] == luma_value(
                    rgba_vec@[4 * k],
                    rgba_vec@[4 * k + 1],
                    rgba_vec@[4 * k + 2],
                ),
        decreases pixel_count - i,
    {
        proof {
            assert(4 * (i as int) + 3 < rgba_vec@.len());
        }
        let r = rgba_vec[4 * i];
        let g = rgba_vec[4 * i + 1];
        let b = rgba_vec[4 * i + 2];
        let weighted: u32 = 299 * (r as u32) + 587 * (g as u32) + 114 * (b as u32);
        let value: u32 = weighted / 1000;
        assert(value <= 255);
        luma.push(value as u8);
        i = i + 1;
    }
    Ok(luma)
}

} // verus!
