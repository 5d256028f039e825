use vstd::prelude::*;

use crate::error::{RdpError, RdpErrorKind, RdpResult};

verus! {

// ---------------------------------------------------------------------------
// Bitmap codecs: the 32-bpp four-plane delta decoder, the 16-bpp
// run-length/fill-or-mix decoder, and the RGB565 to RGB32 expansion.
// Verification guarantees that the decoders never write or read outside
// the buffers they are given, whatever the compressed input holds: a
// malformed stream ends in an error, never in an overrun.
// ---------------------------------------------------------------------------

fn read_u8(input: &[u8], pos: usize) -> (r: RdpResult<(u8, usize)>)
    ensures
        r matches Result::Ok(t) ==> pos < input@.len() && t.0 == input@[pos as int] && t.1 == pos
            + 1,
        r matches Result::Err(e) ==> pos >= input@.len() && e.kind == RdpErrorKind::InvalidSize,
{
    if pos < input.len() {
        Result::Ok((input[pos], pos + 1))
    } else {
        Result::Err(RdpError::new(RdpErrorKind::InvalidSize))
    }
}

fn read_u16_le(input: &[u8], pos: usize) -> (r: RdpResult<(u16, usize)>)
    ensures
        r matches Result::Ok(t) ==> pos + 2 <= input@.len() && t.0 == crate::data::u16_from_le(
            input@[pos as int],
            input@[pos as int + 1],
        ) && t.1 == pos + 2,
        r matches Result::Err(e) ==> pos + 2 > input@.len() && e.kind
            == RdpErrorKind::InvalidSize,
{
    if input.len() >= 2 && pos <= input.len() - 2 {
        let x: u16 = input[pos] as u16 | ((input[pos + 1] as u16) << 8);
        Result::Ok((x, pos + 2))
    } else {
        Result::Err(RdpError::new(RdpErrorKind::InvalidSize))
    }
}

// ---------------------------------------------------------------------------
// The model of the 32-bpp plane decoder. Each spec function mirrors one
// loop of the decoder: a run of literals, a run of repeats, one line, and
// the stack of lines. The decoder is proved equal to this model.
// ---------------------------------------------------------------------------

/// A run of `collen` literal bytes on the lowest line: each is read and
/// written at the next column; leaving the line fails with `RleDecode`.
pub open spec fn plane_raw_collen(
    input: Seq<u8>,
    p: int,
    out: Seq<u8>,
    offset: int,
    base: int,
    w: int,
    indexw: int,
    color: u8,
    collen: u8,
) -> Result<(Seq<u8>, int, int, u8), RdpErrorKind>
    decreases collen,
{
    if collen == 0 {
        Result::Ok((out, p, indexw, color))
    } else if indexw >= w {
        Result::Err(RdpErrorKind::RleDecode)
    } else if p >= input.len() {
        Result::Err(RdpErrorKind::InvalidSize)
    } else {
        plane_raw_collen(
            input,
            p + 1,
            out.update(offset + base + 4 * indexw, input[p]),
            offset,
            base,
            w,
            indexw + 1,
            input[p],
            (collen - 1) as u8,
        )
    }
}

/// A run of `replen` repeats of the last colour on the lowest line.
pub open spec fn plane_raw_replen(
    out: Seq<u8>,
    offset: int,
    base: int,
    w: int,
    indexw: int,
    color: u8,
    replen: u8,
) -> Result<(Seq<u8>, int), RdpErrorKind>
    decreases replen,
{
    if replen == 0 {
        Result::Ok((out, indexw))
    } else if indexw >= w {
        Result::Err(RdpErrorKind::RleDecode)
    } else {
        plane_raw_replen(
            out.update(offset + base + 4 * indexw, color),
            offset,
            base,
            w,
            indexw + 1,
            color,
            (replen - 1) as u8,
        )
    }
}

/// The lowest line of a plane: opcode bytes of `collen` literals then
/// `replen` repeats, a code whose reversed nibbles fall in 16..=47 meaning
/// a long run of the last colour, until `w` bytes stand.
pub open spec fn plane_raw_line(
    input: Seq<u8>,
    p: int,
    out: Seq<u8>,
    offset: int,
    base: int,
    w: int,
    indexw: int,
    color: u8,
) -> Result<(Seq<u8>, int), RdpErrorKind>
    decreases input.len() - p,
{
    if indexw >= w {
        Result::Ok((out, p))
    } else if p >= input.len() {
        Result::Err(RdpErrorKind::InvalidSize)
    } else {
        let code = input[p];
        let replen0 = code & 0xf;
        let collen0 = (code >> 4) & 0xf;
        let revcode = (replen0 << 4) | collen0;
        let replen = if 16 <= revcode && revcode <= 47 {
            revcode
        } else {
            replen0
        };
        let collen = if 16 <= revcode && revcode <= 47 {
            0u8
        } else {
            collen0
        };
        match plane_raw_collen(input, p + 1, out, offset, base, w, indexw, color, collen) {
            Result::Err(e) => Result::Err(e),
            Result::Ok((out2, p2, iw2, color2)) => match plane_raw_replen(
                out2,
                offset,
                base,
                w,
                iw2,
                color2,
                replen,
            ) {
                Result::Err(e) => Result::Err(e),
                Result::Ok((out3, iw3)) => if p < p2 && p2 <= input.len() {
                    plane_raw_line(input, p2, out3, offset, base, w, iw3, color2)
                } else {
                    Result::Err(RdpErrorKind::RleDecode)
                },
            },
        }
    }
}

/// The wrapped delta a literal byte denotes on a line after the first: an
/// even byte is half itself, an odd byte the negation of half its
/// successor, both mod 256.
pub open spec fn plane_delta_of(x: u8) -> u8 {
    if x & 1 != 0 {
        (0x100 - ((x >> 1) as u16 + 1)) as u8
    } else {
        x >> 1
    }
}

/// A run of `collen` delta literals: each read byte gives a new delta,
/// added mod 256 to the byte of the line below at the same column.
pub open spec fn plane_delta_collen(
    input: Seq<u8>,
    p: int,
    out: Seq<u8>,
    offset: int,
    base: int,
    last: int,
    w: int,
    indexw: int,
    delta: u8,
    collen: u8,
) -> Result<(Seq<u8>, int, int, u8), RdpErrorKind>
    decreases collen,
{
    if collen == 0 {
        Result::Ok((out, p, indexw, delta))
    } else if indexw >= w {
        Result::Err(RdpErrorKind::RleDecode)
    } else if p >= input.len() {
        Result::Err(RdpErrorKind::InvalidSize)
    } else {
        let d = plane_delta_of(input[p]);
        let v = ((out[offset + last + 4 * indexw] as u16 + d as u16) % 256) as u8;
        plane_delta_collen(
            input,
            p + 1,
            out.update(offset + base + 4 * indexw, v),
            offset,
            base,
            last,
            w,
            indexw + 1,
            d,
            (collen - 1) as u8,
        )
    }
}

/// A run of `replen` repeats of the last delta against the line below.
pub open spec fn plane_delta_replen(
    out: Seq<u8>,
    offset: int,
    base: int,
    last: int,
    w: int,
    indexw: int,
    delta: u8,
    replen: u8,
) -> Result<(Seq<u8>, int), RdpErrorKind>
    decreases replen,
{
    if replen == 0 {
        Result::Ok((out, indexw))
    } else if indexw >= w {
        Result::Err(RdpErrorKind::RleDecode)
    } else {
        let v = ((out[offset + last + 4 * indexw] as u16 + delta as u16) % 256) as u8;
        plane_delta_replen(
            out.update(offset + base + 4 * indexw, v),
            offset,
            base,
            last,
            w,
            indexw + 1,
            delta,
            (replen - 1) as u8,
        )
    }
}

/// A line after the first: the same run structure, but every byte is the
/// one below it plus a signed delta.
pub open spec fn plane_delta_line(
    input: Seq<u8>,
    p: int,
    out: Seq<u8>,
    offset: int,
    base: int,
    last: int,
    w: int,
    indexw: int,
    delta: u8,
) -> Result<(Seq<u8>, int), RdpErrorKind>
    decreases input.len() - p,
{
    if indexw >= w {
        Result::Ok((out, p))
    } else if p >= input.len() {
        Result::Err(RdpErrorKind::InvalidSize)
    } else {
        let code = input[p];
        let replen0 = code & 0xf;
        let collen0 = (code >> 4) & 0xf;
        let revcode = (replen0 << 4) | collen0;
        let replen = if 16 <= revcode && revcode <= 47 {
            revcode
        } else {
            replen0
        };
        let collen = if 16 <= revcode && revcode <= 47 {
            0u8
        } else {
            collen0
        };
        match plane_delta_collen(
            input,
            p + 1,
            out,
            offset,
            base,
            last,
            w,
            indexw,
            delta,
            collen,
        ) {
            Result::Err(e) => Result::Err(e),
            Result::Ok((out2, p2, iw2, delta2)) => match plane_delta_replen(
                out2,
                offset,
                base,
                last,
                w,
                iw2,
                delta2,
                replen,
            ) {
                Result::Err(e) => Result::Err(e),
                Result::Ok((out3, iw3)) => if p < p2 && p2 <= input.len() {
                    plane_delta_line(input, p2, out3, offset, base, last, w, iw3, delta2)
                } else {
                    Result::Err(RdpErrorKind::RleDecode)
                },
            },
        }
    }
}

/// The lines of one plane, bottom-up: line `indexh` stands at byte offset
/// `(h - indexh - 1) * w * 4`; the first decoded line is plain run-length
/// and every later one applies deltas against the line decoded before it.
pub open spec fn spec_plane_lines(
    input: Seq<u8>,
    p: int,
    out: Seq<u8>,
    offset: int,
    w: int,
    h: int,
    indexh: int,
    last_line: int,
) -> Result<(Seq<u8>, int), RdpErrorKind>
    decreases h - indexh,
{
    if indexh >= h {
        Result::Ok((out, p))
    } else {
        let base = (h - indexh - 1) * w * 4;
        let step = if last_line == 0 {
            plane_raw_line(input, p, out, offset, base, w, 0, 0)
        } else {
            plane_delta_line(input, p, out, offset, base, last_line, w, 0, 0)
        };
        match step {
            Result::Err(e) => Result::Err(e),
            Result::Ok((out2, p2)) => spec_plane_lines(
                input,
                p2,
                out2,
                offset,
                w,
                h,
                indexh + 1,
                base,
            ),
        }
    }
}

/// What decoding one whole plane does to the buffer and the cursor.
pub open spec fn spec_process_plane(
    input: Seq<u8>,
    pos: int,
    out: Seq<u8>,
    offset: int,
    w: int,
    h: int,
) -> Result<(Seq<u8>, int), RdpErrorKind> {
    spec_plane_lines(input, pos, out, offset, w, h, 0, 0)
}

/// Decodes one colour plane of a 32-bpp bitmap, bottom-up: the lowest line
/// is plain run-length; every later line holds signed deltas against the
/// line below it. The plane's bytes go to `output[offset]`, `offset + 4`,
/// and so on; a run that would leave its line fails with `RleDecode`.
#[verifier::loop_isolation(false)]
pub fn process_plane(
    input: &[u8],
    pos: usize,
    width: u32,
    height: u32,
    output: &mut Vec<u8>,
    offset: usize,
) -> (r: RdpResult<usize>)
    requires
        offset < 4,
        pos <= input@.len(),
        4 * (width as int) * (height as int) <= old(output)@.len(),
    ensures
        final(output)@.len() == old(output)@.len(),
        r matches Result::Ok(p) ==> pos <= p <= input@.len() && spec_process_plane(
            input@,
            pos as int,
            old(output)@,
            offset as int,
            width as int,
            height as int,
        ) == Result::<(Seq<u8>, int), RdpErrorKind>::Ok((final(output)@, p as int)),
        r matches Result::Err(e) ==> spec_process_plane(
            input@,
            pos as int,
            old(output)@,
            offset as int,
            width as int,
            height as int,
        ) == Result::<(Seq<u8>, int), RdpErrorKind>::Err(e.kind) && (e.kind == RdpErrorKind::InvalidSize || e.kind
            == RdpErrorKind::RleDecode),
        forall|j: int|
            4 * (width as int) * (height as int) <= j < old(output)@.len() ==> final(output)@[j]
                == old(output)@[j],
{
    let w: usize = width as usize;
    let h: usize = height as usize;
    let olen: usize = output.len();
    let ghost fourwh: int = 4 * (w as int) * (h as int);
    let ghost out0 = output@;
    let ghost wi: int = w as int;
    let ghost off: int = offset as int;
    let mut p: usize = pos;
    let mut last_line: usize = 0;
    let mut indexh: usize = 0;
    while indexh < h
        invariant
            indexh <= h,
            pos <= p <= input@.len(),
            output@.len() == olen,
            last_line as int + 4 * wi <= fourwh || last_line == 0,
            forall|j: int| fourwh <= j < olen ==> output@[j] == out0[j],
            spec_plane_lines(input@, pos as int, out0, off, wi, h as int, 0, 0)
                == spec_plane_lines(
                input@,
                p as int,
                output@,
                off,
                wi,
                h as int,
                indexh as int,
                last_line as int,
            ),
        decreases h - indexh,
    {
        proof {
            assert(0 <= (h - indexh - 1) * wi && 0 <= wi * (h as int) && (h - indexh - 1) * wi
                <= wi * (h as int) && (h - indexh - 1) * wi * 4 + 4 * wi <= 4 * wi * (
            h as int)) by (nonlinear_arith)
                requires
                    0 <= indexh < h,
                    0 <= wi,
            ;
        }
        let line_base: usize = (h - indexh - 1) * w * 4;
        let ghost p_line: int = p as int;
        let ghost out_line = output@;
        let ghost ll: int = last_line as int;
        let ghost bi: int = line_base as int;
        proof {
            assert(bi + 4 * wi <= fourwh <= olen);
            assert(spec_plane_lines(input@, pos as int, out0, off, wi, h as int, 0, 0)
                == spec_plane_lines(input@, p_line, out_line, off, wi, h as int, indexh as int, ll));
        }
        let mut indexw: usize = 0;
        if last_line == 0 {
            let mut color: u8 = 0;
            while indexw < w
                invariant
                    indexw <= w,
                    pos <= p <= input@.len(),
                    output@.len() == olen,
                    forall|j: int| fourwh <= j < olen ==> output@[j] == out0[j],
                    plane_raw_line(input@, p_line, out_line, off, bi, wi, 0, 0) == plane_raw_line(
                        input@,
                        p as int,
                        output@,
                        off,
                        bi,
                        wi,
                        indexw as int,
                        color,
                    ),
                decreases input@.len() - p,
            {
                let ghost p_op: int = p as int;
                let ghost out_op = output@;
                let ghost iw_op: int = indexw as int;
                let ghost color_op: u8 = color;
                proof {
                    assert(plane_raw_line(input@, p_line, out_line, off, bi, wi, 0, 0) == plane_raw_line(input@, p_op, out_op, off, bi, wi, iw_op, color_op));
                }
                let code = match read_u8(input, p) {
                    Result::Ok(t) => {
                        p = t.1;
                        t.0
                    },
                    Result::Err(e) => {
                        proof {
                            assert(plane_raw_line(input@, p_op, out_op, off, bi, wi, iw_op, color_op) == Result::<(Seq<u8>, int), RdpErrorKind>::Err(e.kind));
                            assert(plane_raw_line(input@, p_line, out_line, off, bi, wi, 0, 0) == Result::<(Seq<u8>, int), RdpErrorKind>::Err(e.kind));
                            assert(spec_plane_lines(input@, p_line, out_line, off, wi, h as int, indexh as int, ll) == Result::<(Seq<u8>, int), RdpErrorKind>::Err(e.kind));
                            assert(spec_plane_lines(input@, pos as int, out0, off, wi, h as int, 0, 0) == Result::<(Seq<u8>, int), RdpErrorKind>::Err(e.kind));
                        }
                        return Result::Err(e);
                    },
                };
                let mut replen: u8 = code & 0xf;
                let mut collen: u8 = (code >> 4) & 0xf;
                let revcode: u8 = (replen << 4) | collen;
                if 16 <= revcode && revcode <= 47 {
                    replen = revcode;
                    collen = 0;
                }
                let ghost collen0: u8 = collen;
                let ghost replen0: u8 = replen;
                while collen > 0
                    invariant
                        indexw <= w,
                        p_op + 1 <= p <= input@.len(),
                        output@.len() == olen,
                        forall|j: int| fourwh <= j < olen ==> output@[j] == out0[j],
                        plane_raw_collen(
                            input@, p_op + 1, out_op, off, bi, wi, iw_op, color_op, collen0,
                        ) == plane_raw_collen(
                            input@,
                            p as int,
                            output@,
                            off,
                            bi,
                            wi,
                            indexw as int,
                            color,
                            collen,
                        ),
                    decreases collen,
                {
                    if indexw >= w {
                        proof {
                            assert(plane_raw_collen(input@, p_op + 1, out_op, off, bi, wi, iw_op, color_op, collen0) == Result::<(Seq<u8>, int, int, u8), RdpErrorKind>::Err(RdpErrorKind::RleDecode));
                            assert(plane_raw_line(input@, p_op, out_op, off, bi, wi, iw_op, color_op) == Result::<(Seq<u8>, int), RdpErrorKind>::Err(RdpErrorKind::RleDecode));
                            assert(plane_raw_line(input@, p_line, out_line, off, bi, wi, 0, 0) == Result::<(Seq<u8>, int), RdpErrorKind>::Err(RdpErrorKind::RleDecode));
                            assert(spec_plane_lines(input@, p_line, out_line, off, wi, h as int, indexh as int, ll) == Result::<(Seq<u8>, int), RdpErrorKind>::Err(RdpErrorKind::RleDecode));
                            assert(spec_plane_lines(input@, pos as int, out0, off, wi, h as int, 0, 0) == Result::<(Seq<u8>, int), RdpErrorKind>::Err(RdpErrorKind::RleDecode));
                        }
                        return Result::Err(RdpError::new(RdpErrorKind::RleDecode));
                    }
                    let t = match read_u8(input, p) {
                        Result::Ok(t) => t,
                        Result::Err(e) => {
                            proof {
                            assert(plane_raw_collen(input@, p_op + 1, out_op, off, bi, wi, iw_op, color_op, collen0) == Result::<(Seq<u8>, int, int, u8), RdpErrorKind>::Err(e.kind));
                            assert(plane_raw_line(input@, p_op, out_op, off, bi, wi, iw_op, color_op) == Result::<(Seq<u8>, int), RdpErrorKind>::Err(e.kind));
                            assert(plane_raw_line(input@, p_line, out_line, off, bi, wi, 0, 0) == Result::<(Seq<u8>, int), RdpErrorKind>::Err(e.kind));
                            assert(spec_plane_lines(input@, p_line, out_line, off, wi, h as int, indexh as int, ll) == Result::<(Seq<u8>, int), RdpErrorKind>::Err(e.kind));
                            assert(spec_plane_lines(input@, pos as int, out0, off, wi, h as int, 0, 0) == Result::<(Seq<u8>, int), RdpErrorKind>::Err(e.kind));
                        }
                            return Result::Err(e);
                        },
                    };
                    color = t.0;
                    p = t.1;
                    output[offset + line_base + 4 * indexw] = color;
                    indexw = indexw + 1;
                    collen = collen - 1;
                }
                let ghost p_rep: int = p as int;
                let ghost out_rep = output@;
                let ghost iw_rep: int = indexw as int;
                let ghost reg_rep: u8 = color;
                proof {
                    assert(plane_raw_collen(
                            input@, p_op + 1, out_op, off, bi, wi, iw_op, color_op, collen0,
                        ) == Result::<(Seq<u8>, int, int, u8), RdpErrorKind>::Ok((out_rep, p_rep, iw_rep, reg_rep)));
                }
                while replen > 0
                    invariant
                        indexw <= w,
                        output@.len() == olen,
                        forall|j: int| fourwh <= j < olen ==> output@[j] == out0[j],
                        plane_raw_replen(out_rep, off, bi, wi, iw_rep, reg_rep, replen0) == plane_raw_replen(
                            output@,
                            off,
                            bi,
                            wi,
                            indexw as int,
                            color,
                            replen,
                        ),
                    decreases replen,
                {
                    if indexw >= w {
                        proof {
                            assert(plane_raw_replen(out_rep, off, bi, wi, iw_rep, reg_rep, replen0) == Result::<(Seq<u8>, int), RdpErrorKind>::Err(RdpErrorKind::RleDecode));
                            assert(plane_raw_line(input@, p_op, out_op, off, bi, wi, iw_op, color_op) == Result::<(Seq<u8>, int), RdpErrorKind>::Err(RdpErrorKind::RleDecode));
                            assert(plane_raw_line(input@, p_line, out_line, off, bi, wi, 0, 0) == Result::<(Seq<u8>, int), RdpErrorKind>::Err(RdpErrorKind::RleDecode));
                            assert(spec_plane_lines(input@, p_line, out_line, off, wi, h as int, indexh as int, ll) == Result::<(Seq<u8>, int), RdpErrorKind>::Err(RdpErrorKind::RleDecode));
                            assert(spec_plane_lines(input@, pos as int, out0, off, wi, h as int, 0, 0) == Result::<(Seq<u8>, int), RdpErrorKind>::Err(RdpErrorKind::RleDecode));
                        }
                        return Result::Err(RdpError::new(RdpErrorKind::RleDecode));
                    }
                    output[offset + line_base + 4 * indexw] = color;
                    indexw = indexw + 1;
                    replen = replen - 1;
                }
                proof {
                    assert(plane_raw_replen(out_rep, off, bi, wi, iw_rep, reg_rep, replen0) == Result::<(Seq<u8>, int), RdpErrorKind>::Ok((output@, indexw as int)));
                    assert(plane_raw_line(input@, p_op, out_op, off, bi, wi, iw_op, color_op) == plane_raw_line(
                        input@,
                        p as int,
                        output@,
                        off,
                        bi,
                        wi,
                        indexw as int,
                        color,
                    ));
                }
            }
            proof {
                assert(plane_raw_line(input@, p_line, out_line, off, bi, wi, 0, 0) == Result::<(Seq<u8>, int), RdpErrorKind>::Ok((output@, p as int)));
                assert(spec_plane_lines(input@, p_line, out_line, off, wi, h as int, indexh as int, ll)
                    == spec_plane_lines(
                    input@,
                    p as int,
                    output@,
                    off,
                    wi,
                    h as int,
                    indexh as int + 1,
                    bi,
                ));
            }
        } else {
            let mut delta: u8 = 0;
            while indexw < w
                invariant
                    indexw <= w,
                    pos <= p <= input@.len(),
                    output@.len() == olen,
                    forall|j: int| fourwh <= j < olen ==> output@[j] == out0[j],
                    plane_delta_line(input@, p_line, out_line, off, bi, ll, wi, 0, 0) == plane_delta_line(
                        input@,
                        p as int,
                        output@,
                        off,
                        bi,
                        ll,
                        wi,
                        indexw as int,
                        delta,
                    ),
                decreases input@.len() - p,
            {
                let ghost p_op: int = p as int;
                let ghost out_op = output@;
                let ghost iw_op: int = indexw as int;
                let ghost delta_op: u8 = delta;
                proof {
                    assert(plane_delta_line(input@, p_line, out_line, off, bi, ll, wi, 0, 0) == plane_delta_line(input@, p_op, out_op, off, bi, ll, wi, iw_op, delta_op));
                }
                let code = match read_u8(input, p) {
                    Result::Ok(t) => {
                        p = t.1;
                        t.0
                    },
                    Result::Err(e) => {
                        proof {
                            assert(plane_delta_line(input@, p_op, out_op, off, bi, ll, wi, iw_op, delta_op) == Result::<(Seq<u8>, int), RdpErrorKind>::Err(e.kind));
                            assert(plane_delta_line(input@, p_line, out_line, off, bi, ll, wi, 0, 0) == Result::<(Seq<u8>, int), RdpErrorKind>::Err(e.kind));
                            assert(spec_plane_lines(input@, p_line, out_line, off, wi, h as int, indexh as int, ll) == Result::<(Seq<u8>, int), RdpErrorKind>::Err(e.kind));
                            assert(spec_plane_lines(input@, pos as int, out0, off, wi, h as int, 0, 0) == Result::<(Seq<u8>, int), RdpErrorKind>::Err(e.kind));
                        }
                        return Result::Err(e);
                    },
                };
                let mut replen: u8 = code & 0xf;
                let mut collen: u8 = (code >> 4) & 0xf;
                let revcode: u8 = (replen << 4) | collen;
                if 16 <= revcode && revcode <= 47 {
                    replen = revcode;
                    collen = 0;
                }
                let ghost collen0: u8 = collen;
                let ghost replen0: u8 = replen;
                while collen > 0
                    invariant
                        indexw <= w,
                        p_op + 1 <= p <= input@.len(),
                        output@.len() == olen,
                        forall|j: int| fourwh <= j < olen ==> output@[j] == out0[j],
                        plane_delta_collen(
                            input@, p_op + 1, out_op, off, bi, ll, wi, iw_op, delta_op, collen0,
                        ) == plane_delta_collen(
                            input@,
                            p as int,
                            output@,
                            off,
                            bi,
                            ll,
                            wi,
                            indexw as int,
                            delta,
                            collen,
                        ),
                    decreases collen,
                {
                    if indexw >= w {
                        proof {
                            assert(plane_delta_collen(input@, p_op + 1, out_op, off, bi, ll, wi, iw_op, delta_op, collen0) == Result::<(Seq<u8>, int, int, u8), RdpErrorKind>::Err(RdpErrorKind::RleDecode));
                            assert(plane_delta_line(input@, p_op, out_op, off, bi, ll, wi, iw_op, delta_op) == Result::<(Seq<u8>, int), RdpErrorKind>::Err(RdpErrorKind::RleDecode));
                            assert(plane_delta_line(input@, p_line, out_line, off, bi, ll, wi, 0, 0) == Result::<(Seq<u8>, int), RdpErrorKind>::Err(RdpErrorKind::RleDecode));
                            assert(spec_plane_lines(input@, p_line, out_line, off, wi, h as int, indexh as int, ll) == Result::<(Seq<u8>, int), RdpErrorKind>::Err(RdpErrorKind::RleDecode));
                            assert(spec_plane_lines(input@, pos as int, out0, off, wi, h as int, 0, 0) == Result::<(Seq<u8>, int), RdpErrorKind>::Err(RdpErrorKind::RleDecode));
                        }
                        return Result::Err(RdpError::new(RdpErrorKind::RleDecode));
                    }
                    let t = match read_u8(input, p) {
                        Result::Ok(t) => t,
                        Result::Err(e) => {
                            proof {
                            assert(plane_delta_collen(input@, p_op + 1, out_op, off, bi, ll, wi, iw_op, delta_op, collen0) == Result::<(Seq<u8>, int, int, u8), RdpErrorKind>::Err(e.kind));
                            assert(plane_delta_line(input@, p_op, out_op, off, bi, ll, wi, iw_op, delta_op) == Result::<(Seq<u8>, int), RdpErrorKind>::Err(e.kind));
                            assert(plane_delta_line(input@, p_line, out_line, off, bi, ll, wi, 0, 0) == Result::<(Seq<u8>, int), RdpErrorKind>::Err(e.kind));
                            assert(spec_plane_lines(input@, p_line, out_line, off, wi, h as int, indexh as int, ll) == Result::<(Seq<u8>, int), RdpErrorKind>::Err(e.kind));
                            assert(spec_plane_lines(input@, pos as int, out0, off, wi, h as int, 0, 0) == Result::<(Seq<u8>, int), RdpErrorKind>::Err(e.kind));
                        }
                            return Result::Err(e);
                        },
                    };
                    p = t.1;
                    let x = t.0;
                    delta = if x & 1 != 0 {
                        proof {
                            assert(x >> 1 <= 127) by (bit_vector);
                        }
                        (0x100u16 - ((x >> 1) as u16 + 1)) as u8
                    } else {
                        x >> 1
                    };
                    let prev: u8 = output[offset + last_line + 4 * indexw];
                    let v: u8 = ((prev as u16 + delta as u16) % 256) as u8;
                    output[offset + line_base + 4 * indexw] = v;
                    indexw = indexw + 1;
                    collen = collen - 1;
                }
                let ghost p_rep: int = p as int;
                let ghost out_rep = output@;
                let ghost iw_rep: int = indexw as int;
                let ghost reg_rep: u8 = delta;
                proof {
                    assert(plane_delta_collen(
                            input@, p_op + 1, out_op, off, bi, ll, wi, iw_op, delta_op, collen0,
                        ) == Result::<(Seq<u8>, int, int, u8), RdpErrorKind>::Ok((out_rep, p_rep, iw_rep, reg_rep)));
                }
                while replen > 0
                    invariant
                        indexw <= w,
                        output@.len() == olen,
                        forall|j: int| fourwh <= j < olen ==> output@[j] == out0[j],
                        plane_delta_replen(out_rep, off, bi, ll, wi, iw_rep, reg_rep, replen0) == plane_delta_replen(
                            output@,
                            off,
                            bi,
                            ll,
                            wi,
                            indexw as int,
                            delta,
                            replen,
                        ),
                    decreases replen,
                {
                    if indexw >= w {
                        proof {
                            assert(plane_delta_replen(out_rep, off, bi, ll, wi, iw_rep, reg_rep, replen0) == Result::<(Seq<u8>, int), RdpErrorKind>::Err(RdpErrorKind::RleDecode));
                            assert(plane_delta_line(input@, p_op, out_op, off, bi, ll, wi, iw_op, delta_op) == Result::<(Seq<u8>, int), RdpErrorKind>::Err(RdpErrorKind::RleDecode));
                            assert(plane_delta_line(input@, p_line, out_line, off, bi, ll, wi, 0, 0) == Result::<(Seq<u8>, int), RdpErrorKind>::Err(RdpErrorKind::RleDecode));
                            assert(spec_plane_lines(input@, p_line, out_line, off, wi, h as int, indexh as int, ll) == Result::<(Seq<u8>, int), RdpErrorKind>::Err(RdpErrorKind::RleDecode));
                            assert(spec_plane_lines(input@, pos as int, out0, off, wi, h as int, 0, 0) == Result::<(Seq<u8>, int), RdpErrorKind>::Err(RdpErrorKind::RleDecode));
                        }
                        return Result::Err(RdpError::new(RdpErrorKind::RleDecode));
                    }
                    let prev: u8 = output[offset + last_line + 4 * indexw];
                    let v: u8 = ((prev as u16 + delta as u16) % 256) as u8;
                    output[offset + line_base + 4 * indexw] = v;
                    indexw = indexw + 1;
                    replen = replen - 1;
                }
                proof {
                    assert(plane_delta_replen(out_rep, off, bi, ll, wi, iw_rep, reg_rep, replen0) == Result::<(Seq<u8>, int), RdpErrorKind>::Ok((output@, indexw as int)));
                    assert(plane_delta_line(input@, p_op, out_op, off, bi, ll, wi, iw_op, delta_op) == plane_delta_line(
                        input@,
                        p as int,
                        output@,
                        off,
                        bi,
                        ll,
                        wi,
                        indexw as int,
                        delta,
                    ));
                }
            }
            proof {
                assert(plane_delta_line(input@, p_line, out_line, off, bi, ll, wi, 0, 0) == Result::<(Seq<u8>, int), RdpErrorKind>::Ok((output@, p as int)));
                assert(spec_plane_lines(input@, p_line, out_line, off, wi, h as int, indexh as int, ll)
                    == spec_plane_lines(
                    input@,
                    p as int,
                    output@,
                    off,
                    wi,
                    h as int,
                    indexh as int + 1,
                    bi,
                ));
            }
        }
        last_line = line_base;
        indexh = indexh + 1;
    }
    Result::Ok(p)
}

/// What decompressing a whole 32-bpp bitmap does: after the `0x10` header
/// the four planes decode in turn into byte offsets 3, 2, 1 and 0 of each
/// four-byte pixel.
pub open spec fn spec_rle_32(input: Seq<u8>, out: Seq<u8>, w: int, h: int) -> Result<
    Seq<u8>,
    RdpErrorKind,
> {
    if input.len() < 1 {
        Result::Err(RdpErrorKind::InvalidSize)
    } else if input[0] != 0x10 {
        Result::Err(RdpErrorKind::RleDecode)
    } else {
        match spec_process_plane(input, 1, out, 3, w, h) {
            Result::Err(e) => Result::Err(e),
            Result::Ok((o1, p1)) => match spec_process_plane(input, p1, o1, 2, w, h) {
                Result::Err(e) => Result::Err(e),
                Result::Ok((o2, p2)) => match spec_process_plane(input, p2, o2, 1, w, h) {
                    Result::Err(e) => Result::Err(e),
                    Result::Ok((o3, p3)) => match spec_process_plane(input, p3, o3, 0, w, h) {
                        Result::Err(e) => Result::Err(e),
                        Result::Ok((o4, p4)) => Result::Ok(o4),
                    },
                },
            },
        }
    }
}

/// Decompresses a 32-bpp bitmap: a `0x10` header byte, then four planes,
/// written into byte offsets 3, 2, 1 and 0 of each four-byte pixel in
/// turn. The result is exactly what the decoding model gives; a bad header
/// fails with `RleDecode`, and no input can make it overrun.
pub fn rle_32_decompress(input: &[u8], width: u32, height: u32, output: &mut Vec<u8>) -> (r:
    RdpResult<()>)
    requires
        4 * (width as int) * (height as int) <= old(output)@.len(),
    ensures
        final(output)@.len() == old(output)@.len(),
        r matches Result::Ok(u) ==> spec_rle_32(
            input@,
            old(output)@,
            width as int,
            height as int,
        ) == Result::<Seq<u8>, RdpErrorKind>::Ok(final(output)@),
        r matches Result::Err(e) ==> spec_rle_32(
            input@,
            old(output)@,
            width as int,
            height as int,
        ) == Result::<Seq<u8>, RdpErrorKind>::Err(e.kind) && (e.kind
            == RdpErrorKind::InvalidSize || e.kind == RdpErrorKind::RleDecode),
        forall|j: int|
            4 * (width as int) * (height as int) <= j < old(output)@.len() ==> final(output)@[j]
                == old(output)@[j],
{
    let (header, mut p) = match read_u8(input, 0) {
        Result::Ok(t) => t,
        Result::Err(e) => {
            return Result::Err(e);
        },
    };
    if header != 0x10 {
        return Result::Err(RdpError::new(RdpErrorKind::RleDecode));
    }
    p = match process_plane(input, p, width, height, output, 3) {
        Result::Ok(q) => q,
        Result::Err(e) => {
            return Result::Err(e);
        },
    };
    p = match process_plane(input, p, width, height, output, 2) {
        Result::Ok(q) => q,
        Result::Err(e) => {
            return Result::Err(e);
        },
    };
    p = match process_plane(input, p, width, height, output, 1) {
        Result::Ok(q) => q,
        Result::Err(e) => {
            return Result::Err(e);
        },
    };
    match process_plane(input, p, width, height, output, 0) {
        Result::Ok(_) => Result::Ok(()),
        Result::Err(e) => Result::Err(e),
    }
}

// ---------------------------------------------------------------------------
// The model of the 16-bpp run-length/fill-or-mix decoder. The state a
// stream step threads is what the decoder keeps between opcodes; one spec
// function mirrors the pixel-producing loop, another the opcode loop.
// ---------------------------------------------------------------------------

/// The decoder state between pixels: the buffer, the cursor, the position
/// inside the current line, the lines still free, the current and previous
/// line bases, and the fill-or-mix registers that outlive one opcode.
#[verifier::ext_equal]
pub struct Rle16State {
    pub out: Seq<u16>,
    pub p: int,
    pub x: int,
    pub h: int,
    pub have_line: bool,
    pub line: int,
    pub have_prev: bool,
    pub prevline: int,
    pub mask: u8,
    pub bicolour: bool,
    pub insertmix: bool,
}

/// One run of `count` pixels under one opcode: runs wrap at the right edge
/// by moving one line up, bottom-up; asking for pixels past the last line
/// or an unknown opcode fails with `RleDecode`.
#[verifier::opaque]
pub open spec fn rle16_run(
    input: Seq<u8>,
    st: Rle16State,
    opcode: u8,
    count: int,
    colour1: u16,
    colour2: u16,
    mix: u16,
    fom_mask: u8,
    mixmask: u8,
    w: int,
) -> Result<Rle16State, RdpErrorKind>
    decreases st.h, count, w - st.x,
{
    if count <= 0 {
        Result::Ok(st)
    } else if st.x >= w {
        if st.h <= 0 {
            Result::Err(RdpErrorKind::RleDecode)
        } else {
            let st2 = Rle16State {
                x: 0,
                h: st.h - 1,
                have_prev: st.have_line,
                prevline: st.line,
                line: (st.h - 1) * w,
                have_line: true,
                ..st
            };
            rle16_run(input, st2, opcode, count, colour1, colour2, mix, fom_mask, mixmask, w)
        }
    } else if !st.have_line {
        Result::Err(RdpErrorKind::RleDecode)
    } else if opcode == 0 {
        if st.insertmix {
            let v = if st.have_prev {
                st.out[st.prevline + st.x] ^ mix
            } else {
                mix
            };
            let st2 = Rle16State {
                out: st.out.update(st.line + st.x, v),
                x: st.x + 1,
                insertmix: false,
                ..st
            };
            rle16_run(input, st2, opcode, count - 1, colour1, colour2, mix, fom_mask, mixmask, w)
        } else {
            let v = if st.have_prev {
                st.out[st.prevline + st.x]
            } else {
                0u16
            };
            let st2 = Rle16State { out: st.out.update(st.line + st.x, v), x: st.x + 1, ..st };
            rle16_run(input, st2, opcode, count - 1, colour1, colour2, mix, fom_mask, mixmask, w)
        }
    } else if opcode == 1 {
        let v = if st.have_prev {
            st.out[st.prevline + st.x] ^ mix
        } else {
            mix
        };
        let st2 = Rle16State { out: st.out.update(st.line + st.x, v), x: st.x + 1, ..st };
        rle16_run(input, st2, opcode, count - 1, colour1, colour2, mix, fom_mask, mixmask, w)
    } else if opcode == 2 {
        let shifted: u8 = if mixmask >= 0x80 {
            0u8
        } else {
            mixmask << 1
        };
        if shifted == 0 && fom_mask == 0 && st.p >= input.len() {
            Result::Err(RdpErrorKind::InvalidSize)
        } else {
            let mask2: u8 = if shifted == 0 {
                if fom_mask != 0 {
                    fom_mask
                } else {
                    input[st.p]
                }
            } else {
                st.mask
            };
            let p2 = if shifted == 0 && fom_mask == 0 {
                st.p + 1
            } else {
                st.p
            };
            let mixmask2: u8 = if shifted == 0 {
                1u8
            } else {
                shifted
            };
            let base = if st.have_prev {
                st.out[st.prevline + st.x]
            } else {
                0u16
            };
            let v = if mask2 & mixmask2 != 0 {
                base ^ mix
            } else {
                base
            };
            let st2 = Rle16State {
                out: st.out.update(st.line + st.x, v),
                p: p2,
                x: st.x + 1,
                mask: mask2,
                ..st
            };
            rle16_run(input, st2, opcode, count - 1, colour1, colour2, mix, fom_mask, mixmask2, w)
        }
    } else if opcode == 3 {
        let st2 = Rle16State { out: st.out.update(st.line + st.x, colour2), x: st.x + 1, ..st };
        rle16_run(input, st2, opcode, count - 1, colour1, colour2, mix, fom_mask, mixmask, w)
    } else if opcode == 4 {
        if st.p + 2 > input.len() {
            Result::Err(RdpErrorKind::InvalidSize)
        } else {
            let v = crate::data::u16_from_le(input[st.p], input[st.p + 1]);
            let st2 = Rle16State {
                out: st.out.update(st.line + st.x, v),
                p: st.p + 2,
                x: st.x + 1,
                ..st
            };
            rle16_run(input, st2, opcode, count - 1, colour1, colour2, mix, fom_mask, mixmask, w)
        }
    } else if opcode == 8 {
        if st.bicolour {
            let st2 = Rle16State {
                out: st.out.update(st.line + st.x, colour2),
                x: st.x + 1,
                bicolour: false,
                ..st
            };
            rle16_run(input, st2, opcode, count - 1, colour1, colour2, mix, fom_mask, mixmask, w)
        } else {
            let st2 = Rle16State {
                out: st.out.update(st.line + st.x, colour1),
                x: st.x + 1,
                bicolour: true,
                ..st
            };
            rle16_run(input, st2, opcode, count, colour1, colour2, mix, fom_mask, mixmask, w)
        }
    } else if opcode == 0xd {
        let st2 = Rle16State { out: st.out.update(st.line + st.x, 0xffffu16), x: st.x + 1, ..st };
        rle16_run(input, st2, opcode, count - 1, colour1, colour2, mix, fom_mask, mixmask, w)
    } else if opcode == 0xe {
        let st2 = Rle16State { out: st.out.update(st.line + st.x, 0u16), x: st.x + 1, ..st };
        rle16_run(input, st2, opcode, count - 1, colour1, colour2, mix, fom_mask, mixmask, w)
    } else {
        Result::Err(RdpErrorKind::RleDecode)
    }
}

/// What one opcode byte and its operands decode to: the final opcode, the
/// pixel count by the three high-nibble ranges, the updated palette, mix,
/// mask and insert-mix registers, and the cursor after the operands.
pub struct Rle16Decoded {
    pub p: int,
    pub opcode: u8,
    pub count: int,
    pub colour1: u16,
    pub colour2: u16,
    pub mix: u16,
    pub mask: u8,
    pub insertmix: bool,
    pub fom: u8,
}

/// Decodes one opcode header at `p`: the count ranges, the long-count
/// extension byte, and the register operands; a truncated operand fails
/// with `InvalidSize`. `fresh_line` says whether the cursor still stands
/// at the right edge of a not-yet-started image, which blocks the
/// background run's insert-mix rule.
#[verifier::opaque]
pub open spec fn rle16_op(
    input: Seq<u8>,
    p: int,
    lastop: u8,
    fresh_line: bool,
    insertmix0: bool,
    mask0: u8,
    c1: u16,
    c2: u16,
    mixv: u16,
) -> Result<Rle16Decoded, RdpErrorKind> {
    let code = input[p];
    let p1 = p + 1;
    let nib = code >> 4;
    let opcode0: u8 = if 0xc <= nib && nib <= 0xe {
        (nib - 6) as u8
    } else if nib == 0xf {
        code & 0xf
    } else {
        nib >> 1
    };
    let offset: int = if 0xc <= nib && nib <= 0xe {
        16
    } else if nib == 0xf {
        0
    } else {
        32
    };
    if nib == 0xf && opcode0 < 9 && p1 + 2 > input.len() {
        Result::Err(RdpErrorKind::InvalidSize)
    } else {
        let count0: int = if 0xc <= nib && nib <= 0xe {
            (code & 0xf) as int
        } else if nib == 0xf {
            if opcode0 < 9 {
                crate::data::u16_from_le(input[p1], input[p1 + 1]) as int
            } else if opcode0 < 0xb {
                8
            } else {
                1
            }
        } else {
            (code & 0x1f) as int
        };
        let p2: int = if nib == 0xf && opcode0 < 9 {
            p1 + 2
        } else {
            p1
        };
        let isfom = opcode0 == 2 || opcode0 == 7;
        if offset != 0 && count0 == 0 && p2 >= input.len() {
            Result::Err(RdpErrorKind::InvalidSize)
        } else {
            let count: int = if offset != 0 && count0 == 0 {
                input[p2] as int + if isfom {
                    1
                } else {
                    offset
                }
            } else if offset != 0 && isfom {
                count0 * 8
            } else {
                count0
            };
            let p3: int = if offset != 0 && count0 == 0 {
                p2 + 1
            } else {
                p2
            };
            if (opcode0 == 8 && p3 + 4 > input.len()) || ((opcode0 == 3 || opcode0 == 6
                || opcode0 == 7) && p3 + 2 > input.len()) {
                Result::Err(RdpErrorKind::InvalidSize)
            } else {
                let insertmix2 = if opcode0 == 0 && lastop == 0 && !fresh_line {
                    true
                } else {
                    insertmix0
                };
                let colour1b = if opcode0 == 8 {
                    crate::data::u16_from_le(input[p3], input[p3 + 1])
                } else {
                    c1
                };
                let colour2b = if opcode0 == 8 {
                    crate::data::u16_from_le(input[p3 + 2], input[p3 + 3])
                } else if opcode0 == 3 {
                    crate::data::u16_from_le(input[p3], input[p3 + 1])
                } else {
                    c2
                };
                let mix2 = if opcode0 == 6 || opcode0 == 7 {
                    crate::data::u16_from_le(input[p3], input[p3 + 1])
                } else {
                    mixv
                };
                let p4: int = if opcode0 == 8 {
                    p3 + 4
                } else if opcode0 == 3 || opcode0 == 6 || opcode0 == 7 {
                    p3 + 2
                } else {
                    p3
                };
                let opcode: u8 = if opcode0 == 6 || opcode0 == 7 {
                    (opcode0 - 5) as u8
                } else if opcode0 == 9 || opcode0 == 0xa {
                    2u8
                } else {
                    opcode0
                };
                let mask2: u8 = if opcode0 == 9 {
                    3u8
                } else if opcode0 == 0xa {
                    5u8
                } else {
                    mask0
                };
                let fom: u8 = if opcode0 == 9 {
                    3u8
                } else if opcode0 == 0xa {
                    5u8
                } else {
                    0u8
                };
                Result::Ok(
                    Rle16Decoded {
                        p: p4,
                        opcode,
                        count,
                        colour1: colour1b,
                        colour2: colour2b,
                        mix: mix2,
                        mask: mask2,
                        insertmix: insertmix2,
                        fom,
                    },
                )
            }
        }
    }
}

/// The opcode loop: each step decodes one opcode header and runs its pixel
/// rule; the stream ends when the input is exhausted.
#[verifier::opaque]
pub open spec fn rle16_stream(
    input: Seq<u8>,
    st: Rle16State,
    lastopcode: u8,
    colour1: u16,
    colour2: u16,
    mix: u16,
    w: int,
) -> Result<Seq<u16>, RdpErrorKind>
    decreases input.len() - st.p,
{
    if st.p >= input.len() {
        Result::Ok(st.out)
    } else {
        match rle16_op(
            input,
            st.p,
            lastopcode,
            st.x == w && !st.have_prev,
            st.insertmix,
            st.mask,
            colour1,
            colour2,
            mix,
        ) {
            Result::Err(e) => Result::Err(e),
            Result::Ok(d) => match rle16_run(
                input,
                Rle16State { p: d.p, mask: d.mask, insertmix: d.insertmix, ..st },
                d.opcode,
                d.count,
                d.colour1,
                d.colour2,
                d.mix,
                d.fom,
                0,
                w,
            ) {
                Result::Err(e) => Result::Err(e),
                Result::Ok(st2) => if st.p < st2.p && st2.p <= input.len() {
                    rle16_stream(input, st2, d.opcode, d.colour1, d.colour2, d.mix, w)
                } else {
                    Result::Err(RdpErrorKind::RleDecode)
                },
            },
        }
    }
}

/// What decompressing a whole 16-bpp stream does to a `w x h` buffer.
pub open spec fn spec_rle_16(input: Seq<u8>, out: Seq<u16>, w: int, h: int) -> Result<
    Seq<u16>,
    RdpErrorKind,
> {
    rle16_stream(
        input,
        Rle16State {
            out,
            p: 0,
            x: w,
            h,
            have_line: false,
            line: 0,
            have_prev: false,
            prevline: 0,
            mask: 0,
            bicolour: false,
            insertmix: false,
        },
        0xff,
        0,
        0,
        0xffff,
        w,
    )
}

/// Decompresses a 16-bpp run-length/fill-or-mix stream into a
/// `width x height` buffer of 16-bit pixels, filled bottom-up with
/// inter-line prediction. A stream that asks for more pixels than the
/// buffer holds, or an unknown opcode, fails with `RleDecode`; a truncated
/// stream fails with `InvalidSize`; no input can make it overrun.
/// The decoder's between-opcode registers, as the executable code carries
/// them.
#[derive(Clone, Copy)]
struct Rle16Cursor {
    p: usize,
    x: usize,
    h: usize,
    have_line: bool,
    line: usize,
    have_prev: bool,
    prevline: usize,
    mask: u8,
    bicolour: bool,
    insertmix: bool,
}

/// The model state a cursor and a buffer stand for.
spec fn rle16_state_of(out: Seq<u16>, c: Rle16Cursor) -> Rle16State {
    Rle16State {
        out,
        p: c.p as int,
        x: c.x as int,
        h: c.h as int,
        have_line: c.have_line,
        line: c.line as int,
        have_prev: c.have_prev,
        prevline: c.prevline as int,
        mask: c.mask,
        bicolour: c.bicolour,
        insertmix: c.insertmix,
    }
}

/// Runs one opcode's pixel rule for `count` pixels, exactly as the model's
/// run function says.
#[verifier::rlimit(100)]
fn rle16_run_exec(
    input: &[u8],
    output: &mut Vec<u16>,
    width: usize,
    height: usize,
    cur: Rle16Cursor,
    opcode: u8,
    count: usize,
    colour1: u16,
    colour2: u16,
    mix: u16,
    fom_mask: u8,
) -> (r: Result<Rle16Cursor, RdpError>)
    requires
        cur.p <= input@.len(),
        cur.x <= width,
        cur.h <= height,
        cur.have_line || cur.x >= width,
        cur.have_line ==> cur.line as int + width as int <= (width as int) * (height as int),
        cur.have_prev ==> cur.prevline as int + width as int <= (width as int) * (
        height as int),
        (width as int) * (height as int) <= old(output)@.len(),
        count <= 0x10000,
    ensures
        final(output)@.len() == old(output)@.len(),
        forall|j: int|
            (width as int) * (height as int) <= j < old(output)@.len() ==> final(output)@[j]
                == old(output)@[j],
        r matches Result::Ok(c2) ==> rle16_run(
            input@,
            rle16_state_of(old(output)@, cur),
            opcode,
            count as int,
            colour1,
            colour2,
            mix,
            fom_mask,
            0,
            width as int,
        ) == Result::<Rle16State, RdpErrorKind>::Ok(rle16_state_of(final(output)@, c2))
            && cur.p <= c2.p <= input@.len() && c2.x <= width && c2.h <= height && (c2.have_line
            || c2.x >= width) && (c2.have_line ==> c2.line as int + width as int <= (
        width as int) * (height as int)) && (c2.have_prev ==> c2.prevline as int
            + width as int <= (width as int) * (height as int)),
        r matches Result::Err(e) ==> rle16_run(
            input@,
            rle16_state_of(old(output)@, cur),
            opcode,
            count as int,
            colour1,
            colour2,
            mix,
            fom_mask,
            0,
            width as int,
        ) == Result::<Rle16State, RdpErrorKind>::Err(e.kind) && (e.kind
            == RdpErrorKind::InvalidSize || e.kind == RdpErrorKind::RleDecode),
{
    let olen: usize = output.len();
    let ghost wh: int = (width as int) * (height as int);
    let ghost out0 = output@;
    let ghost wi: int = width as int;
    let ghost st1 = rle16_state_of(out0, cur);
    let ghost countg: int = count as int;
    let mut p: usize = cur.p;
    let mut x: usize = cur.x;
    let mut h: usize = cur.h;
    let mut have_line: bool = cur.have_line;
    let mut line: usize = cur.line;
    let mut have_prev: bool = cur.have_prev;
    let mut prevline: usize = cur.prevline;
    let mut mask: u8 = cur.mask;
    let mut bicolour: bool = cur.bicolour;
    let mut insertmix: bool = cur.insertmix;
    let mut count_left = count;
    let mut mixmask: u8 = 0;
    while count_left > 0
        invariant
            wi == width as int,
            wh == (width as int) * (height as int),
            out0 == old(output)@,
            olen == old(output)@.len(),
            wh <= olen,
            st1 == rle16_state_of(out0, cur),
            countg == count as int,
            count <= 0x10000,
            cur.p <= p <= input@.len(),
            output@.len() == olen,
            x <= width,
            h <= height,
            count_left <= 0x10001,
            have_line || x >= width,
            have_line ==> line as int + wi <= wh,
            have_prev ==> prevline as int + wi <= wh,
            forall|j: int| wh <= j < olen ==> output@[j] == out0[j],
            rle16_run(input@, st1, opcode, countg, colour1, colour2, mix, fom_mask, 0, wi)
                == rle16_run(
                input@,
                Rle16State {
                    out: output@,
                    p: p as int,
                    x: x as int,
                    h: h as int,
                    have_line,
                    line: line as int,
                    have_prev,
                    prevline: prevline as int,
                    mask,
                    bicolour,
                    insertmix,
                },
                opcode,
                count_left as int,
                colour1,
                colour2,
                mix,
                fom_mask,
                mixmask,
                wi,
            ),
        decreases h, count_left, width - x,
    {
        let ghost st_a = Rle16State {
            out: output@,
            p: p as int,
            x: x as int,
            h: h as int,
            have_line,
            line: line as int,
            have_prev,
            prevline: prevline as int,
            mask,
            bicolour,
            insertmix,
        };
        let ghost mm_a: u8 = mixmask;
        let ghost count_a: int = count_left as int;
        if x >= width {
            if h == 0 {
                proof {
                    assert(rle16_run(input@, st_a, opcode, count_a, colour1, colour2, mix,
                        fom_mask, mm_a, wi) == Result::<Rle16State, RdpErrorKind>::Err(
                        RdpErrorKind::RleDecode,
                    )) by {
                        reveal_with_fuel(rle16_run, 1);
                    }
                }
                return Result::Err(RdpError::new(RdpErrorKind::RleDecode));
            }
            x = 0;
            h = h - 1;
            have_prev = have_line;
            prevline = line;
            proof {
                assert((h as int) * wi + wi <= (height as int) * wi) by (nonlinear_arith)
                    requires
                        0 <= h,
                        h < height,
                        0 <= wi,
                ;
                assert((width as int) * (height as int) == (height as int) * wi)
                    by (nonlinear_arith)
                    requires
                        wi == width as int,
                ;
            }
            line = h * width;
            have_line = true;
            proof {
                assert(rle16_run(input@, st_a, opcode, count_a, colour1, colour2, mix, fom_mask,
                    mm_a, wi) == rle16_run(
                    input@,
                    Rle16State {
                        out: output@,
                        p: p as int,
                        x: x as int,
                        h: h as int,
                        have_line,
                        line: line as int,
                        have_prev,
                        prevline: prevline as int,
                        mask,
                        bicolour,
                        insertmix,
                    },
                    opcode,
                    count_left as int,
                    colour1,
                    colour2,
                    mix,
                    fom_mask,
                    mixmask,
                    wi,
                )) by {
                    reveal_with_fuel(rle16_run, 1);
                }
            }
            if x >= width {
                continue ;
            }
        }
        let ghost st_b = Rle16State {
            out: output@,
            p: p as int,
            x: x as int,
            h: h as int,
            have_line,
            line: line as int,
            have_prev,
            prevline: prevline as int,
            mask,
            bicolour,
            insertmix,
        };
        let ghost mm_b: u8 = mixmask;
        let ghost count_b: int = count_left as int;
        if opcode == 0 {
            if insertmix {
                let v: u16 = if have_prev {
                    output[prevline + x] ^ mix
                } else {
                    mix
                };
                output[line + x] = v;
                insertmix = false;
            } else {
                let v: u16 = if have_prev {
                    output[prevline + x]
                } else {
                    0
                };
                output[line + x] = v;
            }
            x = x + 1;
            count_left = count_left - 1;
        } else if opcode == 1 {
            let v: u16 = if have_prev {
                output[prevline + x] ^ mix
            } else {
                mix
            };
            output[line + x] = v;
            x = x + 1;
            count_left = count_left - 1;
        } else if opcode == 2 {
            mixmask = if mixmask >= 0x80 {
                0
            } else {
                mixmask << 1
            };
            if mixmask == 0 {
                mask = if fom_mask != 0 {
                    fom_mask
                } else {
                    let t = match read_u8(input, p) {
                        Result::Ok(t) => t,
                        Result::Err(e) => {
                            proof {
                                assert(rle16_run(input@, st_b, opcode, count_b, colour1,
                                    colour2, mix, fom_mask, mm_b, wi) == Result::<
                                    Rle16State,
                                    RdpErrorKind,
                                >::Err(e.kind)) by {
                                    reveal_with_fuel(rle16_run, 1);
                                }
                            }
                            return Result::Err(e);
                        },
                    };
                    p = t.1;
                    t.0
                };
                mixmask = 1;
            }
            let base: u16 = if have_prev {
                output[prevline + x]
            } else {
                0
            };
            let v: u16 = if mask & mixmask != 0 {
                base ^ mix
            } else {
                base
            };
            output[line + x] = v;
            x = x + 1;
            count_left = count_left - 1;
        } else if opcode == 3 {
            output[line + x] = colour2;
            x = x + 1;
            count_left = count_left - 1;
        } else if opcode == 4 {
            let t = match read_u16_le(input, p) {
                Result::Ok(t) => t,
                Result::Err(e) => {
                    proof {
                        assert(rle16_run(input@, st_b, opcode, count_b, colour1, colour2, mix,
                            fom_mask, mm_b, wi) == Result::<Rle16State, RdpErrorKind>::Err(
                            e.kind,
                        )) by {
                            reveal_with_fuel(rle16_run, 1);
                        }
                    }
                    return Result::Err(e);
                },
            };
            p = t.1;
            output[line + x] = t.0;
            x = x + 1;
            count_left = count_left - 1;
        } else if opcode == 8 {
            if bicolour {
                output[line + x] = colour2;
                bicolour = false;
            } else {
                output[line + x] = colour1;
                bicolour = true;
                count_left = count_left + 1;
            }
            x = x + 1;
            count_left = count_left - 1;
        } else if opcode == 0xd {
            output[line + x] = 0xffff;
            x = x + 1;
            count_left = count_left - 1;
        } else if opcode == 0xe {
            output[line + x] = 0;
            x = x + 1;
            count_left = count_left - 1;
        } else {
            proof {
                assert(rle16_run(input@, st_b, opcode, count_b, colour1, colour2, mix,
                    fom_mask, mm_b, wi) == Result::<Rle16State, RdpErrorKind>::Err(
                    RdpErrorKind::RleDecode,
                )) by {
                    reveal_with_fuel(rle16_run, 1);
                }
            }
            return Result::Err(RdpError::new(RdpErrorKind::RleDecode));
        }
        proof {
            assert(rle16_run(input@, st_b, opcode, count_b, colour1, colour2, mix, fom_mask,
                mm_b, wi) == rle16_run(
                input@,
                Rle16State {
                    out: output@,
                    p: p as int,
                    x: x as int,
                    h: h as int,
                    have_line,
                    line: line as int,
                    have_prev,
                    prevline: prevline as int,
                    mask,
                    bicolour,
                    insertmix,
                },
                opcode,
                count_left as int,
                colour1,
                colour2,
                mix,
                fom_mask,
                mixmask,
                wi,
            )) by {
                reveal_with_fuel(rle16_run, 1);
            }
        }
    }
    proof {
        assert(rle16_run(input@, st1, opcode, countg, colour1, colour2, mix, fom_mask, 0, wi)
            == Result::<Rle16State, RdpErrorKind>::Ok(
            Rle16State {
                out: output@,
                p: p as int,
                x: x as int,
                h: h as int,
                have_line,
                line: line as int,
                have_prev,
                prevline: prevline as int,
                mask,
                bicolour,
                insertmix,
            },
        )) by {
            reveal_with_fuel(rle16_run, 1);
        }
    }
    Result::Ok(
        Rle16Cursor {
            p,
            x,
            h,
            have_line,
            line,
            have_prev,
            prevline,
            mask,
            bicolour,
            insertmix,
        },
    )
}

/// What the operand reader hands back: the cursor after the operands and
/// every register the opcode sets.
struct Rle16OpOut {
    p: usize,
    opcode: u8,
    count: usize,
    colour1: u16,
    colour2: u16,
    mix: u16,
    mask: u8,
    insertmix: bool,
    fom: u8,
}

/// Reads one opcode byte and whatever operands it takes, exactly as the
/// header model `rle16_op` says.
#[verifier::rlimit(100)]
fn rle16_read_op(
    input: &[u8],
    p0: usize,
    lastop: u8,
    fresh_line: bool,
    insertmix0: bool,
    mask0: u8,
    c1: u16,
    c2: u16,
    mixv: u16,
) -> (r: Result<Rle16OpOut, RdpError>)
    requires
        p0 < input@.len(),
    ensures
        r matches Result::Ok(d) ==> rle16_op(
            input@,
            p0 as int,
            lastop,
            fresh_line,
            insertmix0,
            mask0,
            c1,
            c2,
            mixv,
        ) == Result::<Rle16Decoded, RdpErrorKind>::Ok(
            Rle16Decoded {
                p: d.p as int,
                opcode: d.opcode,
                count: d.count as int,
                colour1: d.colour1,
                colour2: d.colour2,
                mix: d.mix,
                mask: d.mask,
                insertmix: d.insertmix,
                fom: d.fom,
            },
        ) && p0 < d.p <= input@.len() && d.count <= 0x10000,
        r matches Result::Err(e) ==> rle16_op(
            input@,
            p0 as int,
            lastop,
            fresh_line,
            insertmix0,
            mask0,
            c1,
            c2,
            mixv,
        ) == Result::<Rle16Decoded, RdpErrorKind>::Err(e.kind) && e.kind
            == RdpErrorKind::InvalidSize,
{
    let mut p: usize = p0;
    let mut colour1 = c1;
    let mut colour2 = c2;
    let mut mix = mixv;
    let mut mask: u8 = mask0;
    let mut insertmix: bool = insertmix0;
    let mut fom_mask: u8 = 0;
    let code = match read_u8(input, p) {
        Result::Ok(t) => {
            p = t.1;
            t.0
        },
        Result::Err(e) => {
            proof {
                assert(false);
            }
            return Result::Err(e);
        },
    };
    let mut opcode: u8 = code >> 4;
    let mut count: usize;
    let offset: usize;
    if 0xc <= opcode && opcode <= 0xe {
        opcode = opcode - 6;
        count = (code & 0xf) as usize;
        offset = 16;
    } else if opcode == 0xf {
        opcode = code & 0xf;
        if opcode < 9 {
            let t = match read_u16_le(input, p) {
                Result::Ok(t) => t,
                Result::Err(e) => {
                    proof {
                        assert(rle16_op(input@, p0 as int, lastop, fresh_line, insertmix0,
                            mask0, c1, c2, mixv) == Result::<Rle16Decoded, RdpErrorKind>::Err(
                            e.kind,
                        )) by {
                            reveal_with_fuel(rle16_op, 1);
                        }
                    }
                    return Result::Err(e);
                },
            };
            count = t.0 as usize;
            p = t.1;
        } else if opcode < 0xb {
            count = 8;
        } else {
            count = 1;
        }
        offset = 0;
    } else {
        opcode = opcode >> 1;
        count = (code & 0x1f) as usize;
        offset = 32;
    }
    if offset != 0 {
        let isfillormix = opcode == 2 || opcode == 7;
        if count == 0 {
            let t = match read_u8(input, p) {
                Result::Ok(t) => t,
                Result::Err(e) => {
                    proof {
                        assert(rle16_op(input@, p0 as int, lastop, fresh_line, insertmix0,
                            mask0, c1, c2, mixv) == Result::<Rle16Decoded, RdpErrorKind>::Err(
                            e.kind,
                        )) by {
                            reveal_with_fuel(rle16_op, 1);
                        }
                    }
                    return Result::Err(e);
                },
            };
            p = t.1;
            count = t.0 as usize + if isfillormix {
                1
            } else {
                offset
            };
        } else if isfillormix {
            count = count * 8;
        }
    }
    if opcode == 0 {
        if lastop == 0 && !fresh_line {
            insertmix = true;
        }
    } else if opcode == 8 {
        let t = match read_u16_le(input, p) {
            Result::Ok(t) => t,
            Result::Err(e) => {
                proof {
                    assert(rle16_op(input@, p0 as int, lastop, fresh_line, insertmix0, mask0,
                        c1, c2, mixv) == Result::<Rle16Decoded, RdpErrorKind>::Err(e.kind)) by {
                        reveal_with_fuel(rle16_op, 1);
                    }
                }
                return Result::Err(e);
            },
        };
        colour1 = t.0;
        p = t.1;
        let t2 = match read_u16_le(input, p) {
            Result::Ok(t2) => t2,
            Result::Err(e) => {
                proof {
                    assert(rle16_op(input@, p0 as int, lastop, fresh_line, insertmix0, mask0,
                        c1, c2, mixv) == Result::<Rle16Decoded, RdpErrorKind>::Err(e.kind)) by {
                        reveal_with_fuel(rle16_op, 1);
                    }
                }
                return Result::Err(e);
            },
        };
        colour2 = t2.0;
        p = t2.1;
    } else if opcode == 3 {
        let t = match read_u16_le(input, p) {
            Result::Ok(t) => t,
            Result::Err(e) => {
                proof {
                    assert(rle16_op(input@, p0 as int, lastop, fresh_line, insertmix0, mask0,
                        c1, c2, mixv) == Result::<Rle16Decoded, RdpErrorKind>::Err(e.kind)) by {
                        reveal_with_fuel(rle16_op, 1);
                    }
                }
                return Result::Err(e);
            },
        };
        colour2 = t.0;
        p = t.1;
    } else if opcode == 6 || opcode == 7 {
        let t = match read_u16_le(input, p) {
            Result::Ok(t) => t,
            Result::Err(e) => {
                proof {
                    assert(rle16_op(input@, p0 as int, lastop, fresh_line, insertmix0, mask0,
                        c1, c2, mixv) == Result::<Rle16Decoded, RdpErrorKind>::Err(e.kind)) by {
                        reveal_with_fuel(rle16_op, 1);
                    }
                }
                return Result::Err(e);
            },
        };
        mix = t.0;
        p = t.1;
        opcode = opcode - 5;
    } else if opcode == 9 {
        mask = 0x03;
        opcode = 0x02;
        fom_mask = 3;
    } else if opcode == 0xa {
        mask = 0x05;
        opcode = 0x02;
        fom_mask = 5;
    }
    let d = Rle16OpOut { p, opcode, count, colour1, colour2, mix, mask, insertmix, fom: fom_mask };
    proof {
        assert(rle16_op(input@, p0 as int, lastop, fresh_line, insertmix0, mask0, c1, c2, mixv)
            == Result::<Rle16Decoded, RdpErrorKind>::Ok(
            Rle16Decoded {
                p: d.p as int,
                opcode: d.opcode,
                count: d.count as int,
                colour1: d.colour1,
                colour2: d.colour2,
                mix: d.mix,
                mask: d.mask,
                insertmix: d.insertmix,
                fom: d.fom,
            },
        )) by {
            reveal_with_fuel(rle16_op, 1);
        }
    }
    Result::Ok(d)
}

/// Decodes one opcode header and relates one step of the stream model to
/// the pixel-run model, whatever the buffer holds.
fn rle16_decode_step(
    input: &[u8],
    cur: Rle16Cursor,
    lastopcode: u8,
    colour1: u16,
    colour2: u16,
    mix: u16,
    width: usize,
) -> (r: Result<(Rle16Cursor, u8, usize, u16, u16, u16, u8), RdpError>)
    requires
        cur.p < input@.len(),
    ensures
        r matches Result::Ok(t) ==> t.2 <= 0x10000 && cur.p < t.0.p <= input@.len() && t.0.x
            == cur.x && t.0.h == cur.h && t.0.have_line == cur.have_line && t.0.line == cur.line
            && t.0.have_prev == cur.have_prev && t.0.prevline == cur.prevline && t.0.bicolour
            == cur.bicolour && (forall|outq: Seq<u16>|
            rle16_stream(
                input@,
                rle16_state_of(outq, cur),
                lastopcode,
                colour1,
                colour2,
                mix,
                width as int,
            ) == (match rle16_run(
                input@,
                rle16_state_of(outq, t.0),
                t.1,
                t.2 as int,
                t.3,
                t.4,
                t.5,
                t.6,
                0,
                width as int,
            ) {
                Result::Err(e) => Result::Err(e),
                Result::Ok(st2) => if cur.p < st2.p && st2.p <= input@.len() {
                    rle16_stream(input@, st2, t.1, t.3, t.4, t.5, width as int)
                } else {
                    Result::Err(RdpErrorKind::RleDecode)
                },
            })),
        r matches Result::Err(e) ==> e.kind == RdpErrorKind::InvalidSize && (forall|
            outq: Seq<u16>,
        |
            rle16_stream(
                input@,
                rle16_state_of(outq, cur),
                lastopcode,
                colour1,
                colour2,
                mix,
                width as int,
            ) == Result::<Seq<u16>, RdpErrorKind>::Err(e.kind)),
{
    let ghost wv: int = width as int;
    let fresh_line: bool = cur.x == width && !cur.have_prev;
    let d = match rle16_read_op(
        input,
        cur.p,
        lastopcode,
        fresh_line,
        cur.insertmix,
        cur.mask,
        colour1,
        colour2,
        mix,
    ) {
        Result::Ok(d) => d,
        Result::Err(e) => {
            proof {
                assert forall|outq: Seq<u16>|
                    rle16_stream(
                        input@,
                        rle16_state_of(outq, cur),
                        lastopcode,
                        colour1,
                        colour2,
                        mix,
                        wv,
                    ) == Result::<Seq<u16>, RdpErrorKind>::Err(e.kind) by {
                    reveal_with_fuel(rle16_stream, 1);
                }
            }
            return Result::Err(e);
        },
    };
    let ncur = Rle16Cursor { p: d.p, mask: d.mask, insertmix: d.insertmix, ..cur };
    proof {
        assert forall|outq: Seq<u16>|
            rle16_stream(
                input@,
                rle16_state_of(outq, cur),
                lastopcode,
                colour1,
                colour2,
                mix,
                wv,
            ) == (match rle16_run(
                input@,
                rle16_state_of(outq, ncur),
                d.opcode,
                d.count as int,
                d.colour1,
                d.colour2,
                d.mix,
                d.fom,
                0,
                wv,
            ) {
                Result::Err(e) => Result::Err(e),
                Result::Ok(st2) => if cur.p < st2.p && st2.p <= input@.len() {
                    rle16_stream(input@, st2, d.opcode, d.colour1, d.colour2, d.mix, wv)
                } else {
                    Result::Err(RdpErrorKind::RleDecode)
                },
            }) by {
            reveal_with_fuel(rle16_stream, 1);
            assert(rle16_state_of(outq, ncur) =~= (Rle16State {
                p: d.p as int,
                mask: d.mask,
                insertmix: d.insertmix,
                ..rle16_state_of(outq, cur)
            }));
        }
    }
    Result::Ok((ncur, d.opcode, d.count, d.colour1, d.colour2, d.mix, d.fom))
}

/// Decompresses a 16-bpp run-length/fill-or-mix stream into a
/// `width x height` buffer of 16-bit pixels, filled bottom-up with
/// inter-line prediction. The result is exactly what the stream model
/// gives: a stream that asks for pixels past the last line or holds an
/// unknown opcode fails with `RleDecode`, a truncated one with
/// `InvalidSize`, and no input can make the decoder overrun.
#[verifier::rlimit(100)]
pub fn rle_16_decompress(
    input: &[u8],
    width: usize,
    height: usize,
    output: &mut Vec<u16>,
) -> (r: RdpResult<()>)
    requires
        (width as int) * (height as int) <= old(output)@.len(),
    ensures
        final(output)@.len() == old(output)@.len(),
        r matches Result::Ok(u) ==> spec_rle_16(
            input@,
            old(output)@,
            width as int,
            height as int,
        ) == Result::<Seq<u16>, RdpErrorKind>::Ok(final(output)@),
        r matches Result::Err(e) ==> spec_rle_16(
            input@,
            old(output)@,
            width as int,
            height as int,
        ) == Result::<Seq<u16>, RdpErrorKind>::Err(e.kind) && (e.kind
            == RdpErrorKind::InvalidSize || e.kind == RdpErrorKind::RleDecode),
        forall|j: int|
            (width as int) * (height as int) <= j < old(output)@.len() ==> final(output)@[j]
                == old(output)@[j],
{
    let olen: usize = output.len();
    let ghost wh: int = (width as int) * (height as int);
    let ghost out0 = output@;
    let ghost wi: int = width as int;
    let mut p: usize = 0;
    let mut lastopcode: u8 = 0xff;
    let mut insertmix: bool = false;
    let mut x: usize = width;
    let mut have_prev: bool = false;
    let mut prevline: usize = 0;
    let mut have_line: bool = false;
    let mut line: usize = 0;
    let mut h: usize = height;
    let mut colour1: u16 = 0;
    let mut colour2: u16 = 0;
    let mut mix: u16 = 0xffff;
    let mut mask: u8 = 0;
    let mut bicolour: bool = false;
    proof {
        assert(spec_rle_16(input@, out0, wi, height as int) == rle16_stream(
            input@,
            Rle16State {
                out: output@,
                p: p as int,
                x: x as int,
                h: h as int,
                have_line,
                line: line as int,
                have_prev,
                prevline: prevline as int,
                mask,
                bicolour,
                insertmix,
            },
            lastopcode,
            colour1,
            colour2,
            mix,
            wi,
        ));
    }
    while p < input.len()
        invariant
            wi == width as int,
            wh == (width as int) * (height as int),
            out0 == old(output)@,
            olen == old(output)@.len(),
            wh <= olen,
            p <= input@.len(),
            output@.len() == olen,
            x <= width,
            h <= height,
            have_line || x >= width,
            have_line ==> line as int + wi <= wh,
            have_prev ==> prevline as int + wi <= wh,
            forall|j: int| wh <= j < olen ==> output@[j] == out0[j],
            spec_rle_16(input@, out0, wi, height as int) == rle16_stream(
                input@,
                Rle16State {
                    out: output@,
                    p: p as int,
                    x: x as int,
                    h: h as int,
                    have_line,
                    line: line as int,
                    have_prev,
                    prevline: prevline as int,
                    mask,
                    bicolour,
                    insertmix,
                },
                lastopcode,
                colour1,
                colour2,
                mix,
                wi,
            ),
        decreases input@.len() - p,
    {
        let ghost st_op = Rle16State {
            out: output@,
            p: p as int,
            x: x as int,
            h: h as int,
            have_line,
            line: line as int,
            have_prev,
            prevline: prevline as int,
            mask,
            bicolour,
            insertmix,
        };
        let ghost lastop_e: u8 = lastopcode;
        let ghost c1_e: u16 = colour1;
        let ghost c2_e: u16 = colour2;
        let ghost mix_e: u16 = mix;
        proof {
            assert(spec_rle_16(input@, out0, wi, height as int) == rle16_stream(
                input@,
                st_op,
                lastop_e,
                c1_e,
                c2_e,
                mix_e,
                wi,
            ));
        }
        let cur = Rle16Cursor {
            p,
            x,
            h,
            have_line,
            line,
            have_prev,
            prevline,
            mask,
            bicolour,
            insertmix,
        };
        proof {
            assert(rle16_state_of(output@, cur) == st_op);
        }
        let (ncur, opcode, count, c1n, c2n, mixn, fomn) = match rle16_decode_step(
            input,
            cur,
            lastopcode,
            colour1,
            colour2,
            mix,
            width,
        ) {
            Result::Ok(t) => t,
            Result::Err(e) => {
                proof {
                    assert(rle16_stream(input@, st_op, lastop_e, c1_e, c2_e, mix_e, wi)
                        == Result::<Seq<u16>, RdpErrorKind>::Err(e.kind));
                }
                return Result::Err(e);
            },
        };
        colour1 = c1n;
        colour2 = c2n;
        mix = mixn;
        lastopcode = opcode;
        let c2 = match rle16_run_exec(
            input,
            output,
            width,
            height,
            ncur,
            opcode,
            count,
            colour1,
            colour2,
            mix,
            fomn,
        ) {
            Result::Ok(c2) => c2,
            Result::Err(e) => {
                proof {
                    assert(rle16_stream(input@, st_op, lastop_e, c1_e, c2_e, mix_e, wi)
                        == Result::<Seq<u16>, RdpErrorKind>::Err(e.kind));
                }
                return Result::Err(e);
            },
        };
        p = c2.p;
        x = c2.x;
        h = c2.h;
        have_line = c2.have_line;
        line = c2.line;
        have_prev = c2.have_prev;
        prevline = c2.prevline;
        mask = c2.mask;
        bicolour = c2.bicolour;
        insertmix = c2.insertmix;
        proof {
            assert(spec_rle_16(input@, out0, wi, height as int) == rle16_stream(
                input@,
                rle16_state_of(output@, c2),
                lastopcode,
                colour1,
                colour2,
                mix,
                wi,
            ));
        }
    }
    proof {
        assert(rle16_stream(
            input@,
            Rle16State {
                out: output@,
                p: p as int,
                x: x as int,
                h: h as int,
                have_line,
                line: line as int,
                have_prev,
                prevline: prevline as int,
                mask,
                bicolour,
                insertmix,
            },
            lastopcode,
            colour1,
            colour2,
            mix,
            wi,
        ) == Result::<Seq<u16>, RdpErrorKind>::Ok(output@)) by {
            reveal_with_fuel(rle16_stream, 1);
        }
    }
    Result::Ok(())
}

/// One RGB565 pixel expanded to its four BGRA bytes: blue, green, red by
/// the scale-and-round constants, and an alpha of `0xff`.
pub open spec fn rgb32_of(v: u16) -> Seq<u8> {
    seq![
        (((((v & 0x1f) * 527) + 23) as u16 >> 6) as u8),
        ((((((v >> 5) & 0x3f) * 259) + 33) as u16 >> 6) as u8),
        ((((((v >> 11) & 0x1f) * 527) + 23) as u16 >> 6) as u8),
        0xffu8,
    ]
}

/// Expands RGB565 pixels to 32-bit BGRA: the answer holds four bytes for
/// each input pixel and every alpha byte is `0xff`.
pub fn rgb565torgb32(input: &[u16]) -> (r: Vec<u8>)
    ensures
        r@.len() == 4 * input@.len(),
        forall|i: int|
            0 <= i < input@.len() ==> r@.subrange(4 * i, 4 * i + 4) == rgb32_of(input@[i]),
        forall|i: int| 0 <= i < input@.len() ==> #[trigger] r@[4 * i + 3] == 0xff,
{
    let n: usize = input.len();
    let mut out: Vec<u8> = Vec::new();
    let mut k: usize = 0;
    while k < n
        invariant
            k <= n,
            n == input@.len(),
            out@.len() == 4 * k,
            forall|i: int|
                0 <= i < k ==> out@.subrange(4 * i, 4 * i + 4) == rgb32_of(input@[i]),
        decreases n - k,
    {
        let v: u16 = input[k];
        let ghost out0 = out@;
        proof {
            assert((v & 0x1f) <= 0x1f && ((v >> 5) & 0x3f) <= 0x3f && ((v >> 11) & 0x1f)
                <= 0x1f) by (bit_vector);
        }
        out.push(((((v & 0x1f) * 527) + 23) >> 6) as u8);
        out.push((((((v >> 5) & 0x3f) * 259) + 33) >> 6) as u8);
        out.push((((((v >> 11) & 0x1f) * 527) + 23) >> 6) as u8);
        out.push(0xff);
        proof {
            assert(out@.subrange(4 * (k as int), 4 * (k as int) + 4) =~= rgb32_of(input@[
                k as int
            ]));
            assert forall|i: int| 0 <= i < k implies out@.subrange(4 * i, 4 * i + 4)
                == rgb32_of(input@[i]) by {
                assert(out@.subrange(4 * i, 4 * i + 4) =~= out0.subrange(4 * i, 4 * i + 4));
            }
        }
        k = k + 1;
    }
    proof {
        assert forall|i: int| 0 <= i < input@.len() implies #[trigger] out@[4 * i + 3]
            == 0xff by {
            assert(out@.subrange(4 * i, 4 * i + 4)[3] == out@[4 * i + 3]);
            assert(rgb32_of(input@[i])[3] == 0xff);
        }
    }
    out
}

} // verus!
