use vstd::prelude::*;

use crate::error::{RdpError, RdpErrorKind, RdpResult};

verus! {

// ---------------------------------------------------------------------------
// Bitmap transfer: copying one decompressed update into the framebuffer, a
// row at a time, only after the destination rectangle is known to lie
// inside both buffers.
// ---------------------------------------------------------------------------

/// Whether pixel index `j` of a framebuffer of row width `w` lies in the
/// rectangle `[left, right] x [top, bottom]`.
pub open spec fn in_rect(j: int, w: int, left: int, top: int, right: int, bottom: int) -> bool {
    top <= j / w <= bottom && left <= j % w <= right
}

/// The framebuffer after a blit: inside the rectangle each pixel comes from
/// the update, row by row; outside it nothing changes.
pub open spec fn blit_result(
    frame: Seq<u32>,
    data: Seq<u32>,
    w: int,
    bitmap_width: int,
    left: int,
    top: int,
    right: int,
    bottom: int,
) -> Seq<u32> {
    Seq::new(
        frame.len(),
        |j: int|
            if in_rect(j, w, left, top, right, bottom) {
                data[(j / w - top) * bitmap_width + (j % w - left)]
            } else {
                frame[j]
            },
    )
}

/// Whether a blit rectangle lies inside the framebuffer and the update
/// covers every row of it: exactly the inputs on which `bitmap_blit`
/// succeeds.
pub open spec fn blit_fits(
    frame_len: int,
    data_len: int,
    w: int,
    bitmap_width: int,
    left: int,
    top: int,
    right: int,
    bottom: int,
) -> bool {
    &&& left <= right < w
    &&& top <= bottom
    &&& (bottom + 1) * w <= frame_len
    &&& (bottom - top) * bitmap_width + (right - left) < data_len
}

/// Copies a decompressed `bitmap_width`-pixel-wide update into the
/// framebuffer at the rectangle `[dest_left, dest_right] x [dest_top,
/// dest_bottom]`. It succeeds exactly when the rectangle lies inside the
/// framebuffer and the update covers it; anything else fails with
/// `InvalidSize` and leaves the framebuffer unchanged.
pub fn bitmap_blit(
    frame: &mut Vec<u32>,
    width: usize,
    data: &Vec<u32>,
    bitmap_width: usize,
    dest_left: usize,
    dest_top: usize,
    dest_right: usize,
    dest_bottom: usize,
) -> (r: RdpResult<()>)
    requires
        1 <= width,
    ensures
        final(frame)@.len() == old(frame)@.len(),
        r is Ok <==> blit_fits(
            old(frame)@.len() as int,
            data@.len() as int,
            width as int,
            bitmap_width as int,
            dest_left as int,
            dest_top as int,
            dest_right as int,
            dest_bottom as int,
        ),
        r matches Result::Ok(u) ==> final(frame)@ == blit_result(
            old(frame)@,
            data@,
            width as int,
            bitmap_width as int,
            dest_left as int,
            dest_top as int,
            dest_right as int,
            dest_bottom as int,
        ),
        r matches Result::Err(e) ==> e.kind == RdpErrorKind::InvalidSize && *final(frame) == *old(
            frame,
        ),
{
    let flen: usize = frame.len();
    let dlen: usize = data.len();
    if dest_right < dest_left || dest_bottom < dest_top || dest_right >= width {
        return Result::Err(RdpError::new(RdpErrorKind::InvalidSize));
    }
    // The whole destination rectangle must fit the framebuffer.
    if dest_bottom >= flen / width {
        proof {
            assert((dest_bottom + 1) * width > flen) by (nonlinear_arith)
                requires
                    1 <= width,
                    dest_bottom >= flen as int / width as int,
                    flen >= 0,
            ;
        }
        return Result::Err(RdpError::new(RdpErrorKind::InvalidSize));
    }
    proof {
        assert((dest_bottom + 1) * width <= flen) by (nonlinear_arith)
            requires
                1 <= width,
                dest_bottom + 1 <= flen as int / width as int,
        ;
    }
    let rows: usize = dest_bottom - dest_top + 1;
    let count: usize = dest_right - dest_left + 1;
    // The update must hold every source row in full.
    if count > dlen {
        proof {
            assert((rows - 1) * (bitmap_width as int) >= 0) by (nonlinear_arith)
                requires
                    rows >= 1,
                    bitmap_width >= 0,
            ;
        }
        return Result::Err(RdpError::new(RdpErrorKind::InvalidSize));
    }
    let last_src: usize = rows - 1;
    if last_src > 0 && bitmap_width > (dlen - count) / last_src {
        proof {
            assert((last_src as int) * (bitmap_width as int) + count > dlen)
                by (nonlinear_arith)
                requires
                    last_src >= 1,
                    bitmap_width as int >= ((dlen - count) as int) / (last_src as int) + 1,
                    count <= dlen,
            ;
        }
        return Result::Err(RdpError::new(RdpErrorKind::InvalidSize));
    }
    proof {
        assert((last_src as int) * (bitmap_width as int) + count <= data@.len())
            by (nonlinear_arith)
            requires
                count <= data@.len(),
                last_src == 0 || (last_src >= 1 && bitmap_width <= ((data@.len()
                    - count) as int) / (last_src as int)),
                last_src >= 0,
                bitmap_width >= 0,
        ;
    }
    let ghost frame0 = frame@;
    let mut i: usize = 0;
    while i < rows
        invariant
            i <= rows,
            rows == dest_bottom - dest_top + 1,
            count == dest_right - dest_left + 1,
            dest_left <= dest_right < width,
            dest_top <= dest_bottom,
            1 <= width,
            frame@.len() == frame0.len(),
            frame@.len() == flen,
            (dest_bottom + 1) * width <= flen,
            (rows - 1) * (bitmap_width as int) + count <= data@.len(),
            data@.len() == dlen,
            forall|j: int|
                0 <= j < flen ==> #[trigger] frame@[j] == (if in_rect(
                    j,
                    width as int,
                    dest_left as int,
                    dest_top as int,
                    dest_right as int,
                    dest_bottom as int,
                ) && j / (width as int) < dest_top + i {
                    data@[(j / (width as int) - dest_top) * (bitmap_width as int) + (j % (
                    width as int) - dest_left)]
                } else {
                    frame0[j]
                }),
        decreases rows - i,
    {
        proof {
            assert((i + dest_top) * (width as int) + dest_left + count <= (dest_bottom + 1) * (
            width as int)) by (nonlinear_arith)
                requires
                    i + dest_top <= dest_bottom,
                    dest_left + count <= width,
                    1 <= width,
            ;
            assert((i as int) * (bitmap_width as int) + count <= data@.len())
                by (nonlinear_arith)
                requires
                    i <= rows - 1,
                    bitmap_width >= 0,
                    (rows - 1) * (bitmap_width as int) + count <= data@.len(),
            ;
        }
        let dest_i: usize = (i + dest_top) * width + dest_left;
        let src_i: usize = i * bitmap_width;
        let mut k: usize = 0;
        while k < count
            invariant
                k <= count,
                dest_i == (i + dest_top) * width + dest_left,
                src_i == i * bitmap_width,
                dest_i + count <= (dest_bottom + 1) * width <= flen,
                src_i + count <= data@.len(),
                data@.len() == dlen,
                i + dest_top <= dest_bottom,
                count == dest_right - dest_left + 1,
                dest_left <= dest_right < width,
                dest_top <= dest_bottom,
                1 <= width,
                frame@.len() == frame0.len(),
                frame@.len() == flen,
                forall|j: int|
                    0 <= j < flen ==> #[trigger] frame@[j] == (if in_rect(
                        j,
                        width as int,
                        dest_left as int,
                        dest_top as int,
                        dest_right as int,
                        dest_bottom as int,
                    ) && (j / (width as int) < dest_top + i || (j / (width as int) == dest_top
                        + i && j % (width as int) < dest_left + k)) {
                        data@[(j / (width as int) - dest_top) * (bitmap_width as int) + (j % (
                        width as int) - dest_left)]
                    } else {
                        frame0[j]
                    }),
            decreases count - k,
        {
            let ghost before = frame@;
            frame[dest_i + k] = data[src_i + k];
            proof {
                let w = width as int;
                let jw: int = dest_i + k;
                assert(jw == (i + dest_top) * w + (dest_left + k));
                assert(jw / w == i + dest_top && jw % w == dest_left + k) by (nonlinear_arith)
                    requires
                        jw == (i + dest_top) * w + (dest_left + k),
                        0 <= dest_left + k < w,
                        0 <= i + dest_top,
                        1 <= w,
                ;
                assert forall|j: int| 0 <= j < flen implies #[trigger] frame@[j] == (if in_rect(
                    j,
                    w,
                    dest_left as int,
                    dest_top as int,
                    dest_right as int,
                    dest_bottom as int,
                ) && (j / w < dest_top + i || (j / w == dest_top + i && j % w < dest_left + k
                    + 1)) {
                    data@[(j / w - dest_top) * (bitmap_width as int) + (j % w - dest_left)]
                } else {
                    frame0[j]
                }) by {
                    if j == jw {
                        assert(frame@[jw] == data@[src_i + k]);
                        assert((jw / w - dest_top) * (bitmap_width as int) + (jw % w
                            - dest_left) == src_i + k) by (nonlinear_arith)
                            requires
                                jw / w == dest_top + i,
                                jw % w == dest_left + k,
                                src_i == (i as int) * (bitmap_width as int),
                        ;
                    } else {
                        assert(frame@[j] == before[j]);
                        if j / w == dest_top + i && j % w == dest_left + k {
                            vstd::arithmetic::div_mod::lemma_fundamental_div_mod(j, w);
                            assert(j == w * (dest_top + i) + (dest_left + k));
                            assert(w * (dest_top + i) == (i + dest_top) * w)
                                by (nonlinear_arith);
                            assert(false);
                        }
                    }
                }
            }
            k = k + 1;
        }
        proof {
            let w = width as int;
            assert forall|j: int| 0 <= j < flen implies #[trigger] frame@[j] == (if in_rect(
                j,
                w,
                dest_left as int,
                dest_top as int,
                dest_right as int,
                dest_bottom as int,
            ) && j / w < dest_top + i + 1 {
                data@[(j / w - dest_top) * (bitmap_width as int) + (j % w - dest_left)]
            } else {
                frame0[j]
            }) by {
                if in_rect(
                    j,
                    w,
                    dest_left as int,
                    dest_top as int,
                    dest_right as int,
                    dest_bottom as int,
                ) && j / w == dest_top + i {
                    assert(j % w <= dest_right);
                }
            }
        }
        i = i + 1;
    }
    proof {
        assert(frame@ =~= blit_result(
            frame0,
            data@,
            width as int,
            bitmap_width as int,
            dest_left as int,
            dest_top as int,
            dest_right as int,
            dest_bottom as int,
        ));
    }
    Result::Ok(())
}

/// The 32-bit words of a four-byte-per-pixel buffer, each word read little
/// endian, as the framebuffer holds them.
pub open spec fn words_of_bytes(b: Seq<u8>) -> Seq<u32> {
    Seq::new(
        (b.len() / 4) as nat,
        |i: int| crate::data::u32_from_le(b[4 * i], b[4 * i + 1], b[4 * i + 2], b[4 * i + 3]),
    )
}

/// Packs a decompressed four-byte-per-pixel buffer into the 32-bit words
/// that `bitmap_blit` copies, one word per pixel, little endian.
pub fn pack_rgba_words(bytes: &Vec<u8>) -> (r: Vec<u32>)
    requires
        bytes@.len() % 4 == 0,
    ensures
        r@ == words_of_bytes(bytes@),
        r@.len() == bytes@.len() / 4,
{
    let blen: usize = bytes.len();
    let n: usize = blen / 4;
    let mut out: Vec<u32> = Vec::new();
    let mut k: usize = 0;
    while k < n
        invariant
            k <= n,
            blen == bytes@.len(),
            n == bytes@.len() / 4,
            bytes@.len() % 4 == 0,
            4 * n == blen,
            out@ == words_of_bytes(bytes@).take(k as int),
        decreases n - k,
    {
        let w: u32 = bytes[4 * k] as u32 | ((bytes[4 * k + 1] as u32) << 8) | ((bytes[4 * k
            + 2] as u32) << 16) | ((bytes[4 * k + 3] as u32) << 24);
        out.push(w);
        assert(out@ =~= words_of_bytes(bytes@).take(k + 1 as int));
        k = k + 1;
    }
    assert(out@ =~= words_of_bytes(bytes@));
    out
}

} // verus!
