use crate::dime::error::{DimeError, DimeErrorView};
use crate::dime::message::{content_type_is_xpress, is_xpress_content_type};
use crate::text::{prefixed_decimal, spec_decimal};
use vstd::prelude::*;
use vstd::string::StringExecFns;

verus! {

/// Largest decompressed size of one compressed chunk (1 MiB).
pub const MAX_DECOMPRESSED_CHUNK_SIZE: u32 = 1048576;

/// Largest decompressed size of a whole message (50 MiB).
pub const MAX_DECOMPRESSED_MESSAGE_SIZE: usize = 52428800;

/// Little-endian value of two bytes of `s` at `i`.
pub open spec fn le_u16_at(s: Seq<u8>, i: int) -> u32 {
    (s[i] + s[i + 1] * 256) as u32
}

/// Little-endian value of four bytes of `s` at `i`.
pub open spec fn le_u32_at(s: Seq<u8>, i: int) -> u32 {
    (s[i] + s[i + 1] * 256 + s[i + 2] * 65536 + s[i + 3] * 16777216) as u32
}

/// The decoder's state between two tokens of a compressed chunk.
pub ghost struct XpressState {
    /// Position of the next unread input byte.
    pub pos: int,
    /// Bytes decoded so far.
    pub out: Seq<u8>,
    /// The current 32-bit kind bitmap.
    pub kind: u32,
    /// How many bits of the bitmap are still unused.
    pub kind_bit: int,
    /// Whether the high half of `nibble` still waits to be used.
    pub have_nibble: bool,
    /// The last byte read for a nibble-coded match length.
    pub nibble: u8,
}

/// The state before the first token.
pub open spec fn xpress_start() -> XpressState {
    XpressState { pos: 0, out: Seq::empty(), kind: 0, kind_bit: 0, have_nibble: false, nibble: 0 }
}

/// Copies `length` bytes that start `distance` bytes back, one byte at a
/// time, so that a copy may overlap the bytes it produces.
pub open spec fn copy_match(out: Seq<u8>, distance: int, length: int) -> Seq<u8>
    decreases length,
{
    if length <= 0 {
        out
    } else {
        copy_match(out.push(out[out.len() - distance]), distance, length - 1)
    }
}

/// Loads a fresh kind bitmap when the current one is used up.
pub open spec fn xpress_load_kind(input: Seq<u8>, st: XpressState) -> Result<XpressState, Seq<char>> {
    if st.kind_bit == 0 {
        if st.pos + 4 > input.len() {
            Err("Truncated kind bitmap"@)
        } else {
            Ok(XpressState { kind: le_u32_at(input, st.pos), kind_bit: 32, pos: st.pos + 4, ..st })
        }
    } else {
        Ok(st)
    }
}

/// Decodes the length of a match whose two-byte token holds `low` in its
/// three low bits: the value to which 3 is still to be added, and the
/// state after the extra length bytes.
pub open spec fn xpress_match_length(input: Seq<u8>, low: int, st: XpressState) -> Result<
    (int, XpressState),
    Seq<char>,
> {
    if low != 7 {
        Ok((low, st))
    } else {
        let n = if !st.have_nibble {
            if st.pos >= input.len() {
                Err("Truncated match length nibble"@)
            } else {
                Ok(
                    (
                        input[st.pos] % 16,
                        XpressState {
                            have_nibble: true,
                            nibble: input[st.pos],
                            pos: st.pos + 1,
                            ..st
                        },
                    ),
                )
            }
        } else {
            Ok((st.nibble / 16, XpressState { have_nibble: false, ..st }))
        };
        match n {
            Err(e) => Err(e),
            Ok((len4, st1)) => if len4 != 15 {
                Ok((len4 + 7, st1))
            } else if st1.pos >= input.len() {
                Err("Truncated extended match length"@)
            } else if input[st1.pos] != 255 {
                Ok((input[st1.pos] + 15 + 7, XpressState { pos: st1.pos + 1, ..st1 }))
            } else if st1.pos + 3 > input.len() {
                Err("Truncated length bytes"@)
            } else if le_u16_at(input, st1.pos + 1) < 22 {
                Err("Invalid match length"@)
            } else {
                Ok(
                    (
                        le_u16_at(input, st1.pos + 1) - 22 + 15 + 7,
                        XpressState { pos: st1.pos + 3, ..st1 },
                    ),
                )
            },
        }
    }
}

/// Decodes one token of a chunk whose decompressed size is `size`: a
/// literal byte, or a match that copies earlier output.
pub open spec fn xpress_step(input: Seq<u8>, size: int, st0: XpressState) -> Result<
    XpressState,
    Seq<char>,
> {
    match xpress_load_kind(input, st0) {
        Err(e) => Err(e),
        Ok(st1) => {
            let bit = st1.kind_bit - 1;
            let st = XpressState { kind_bit: bit, ..st1 };
            if st.kind & (1u32 << (bit as u32)) == 0 {
                if st.pos >= input.len() {
                    Err("Truncated literal"@)
                } else {
                    Ok(XpressState { out: st.out.push(input[st.pos]), pos: st.pos + 1, ..st })
                }
            } else if st.pos + 2 > input.len() {
                Err("Truncated length bytes"@)
            } else {
                let token = le_u16_at(input, st.pos);
                let offset = token / 8;
                match xpress_match_length(
                    input,
                    (token % 8) as int,
                    XpressState { pos: st.pos + 2, ..st },
                ) {
                    Err(e) => Err(e),
                    Ok((l, st2)) => {
                        let length = l + 3;
                        if length > size - st2.out.len() {
                            Err("Invalid length"@)
                        } else if offset + 1 > st2.out.len() {
                            Err("Invalid offset"@)
                        } else {
                            Ok(
                                XpressState {
                                    out: copy_match(st2.out, offset + 1, length),
                                    ..st2
                                },
                            )
                        }
                    },
                }
            }
        },
    }
}

/// Decodes tokens from state `st` until `size` bytes are out.
pub open spec fn xpress_run(input: Seq<u8>, size: int, st: XpressState) -> Result<
    Seq<u8>,
    Seq<char>,
>
    decreases size - st.out.len(),
{
    if st.out.len() >= size {
        Ok(st.out)
    } else {
        match xpress_step(input, size, st) {
            Err(e) => Err(e),
            Ok(next) => if st.out.len() < next.out.len() <= size {
                xpress_run(input, size, next)
            } else {
                Err("Invalid length"@)
            },
        }
    }
}

/// The bytes that a compressed chunk payload decodes to, given its
/// decompressed size.
pub open spec fn spec_decompress_buffer(input: Seq<u8>, size: int) -> Result<Seq<u8>, Seq<char>> {
    xpress_run(input, size, xpress_start())
}

/// Nibble-coded match lengths share their bytes in pairs. A match whose
/// three-bit length field is 7, with no half byte pending, reads a fresh
/// byte and takes its length from the low four bits (plus 7 here, plus 3
/// more in the step); the byte's high four bits are kept pending without
/// being read again. The next such match takes its length from those high
/// four bits and reads nothing.
pub proof fn lemma_nibble_halves(input: Seq<u8>, st: XpressState)
    requires
        !st.have_nibble,
        0 <= st.pos < input.len(),
        input[st.pos] % 16 < 15,
    ensures
        xpress_match_length(input, 7, st) matches Ok((l, st1)) && l == input[st.pos] % 16 + 7
            && st1.pos == st.pos + 1 && st1.have_nibble && st1.nibble == input[st.pos]
            && st1.out == st.out,
        forall|later: XpressState|
            #![trigger xpress_match_length(input, 7, later)]
            later.have_nibble && later.nibble == input[st.pos] && input[st.pos] / 16 < 15
                ==> (xpress_match_length(input, 7, later) matches Ok((l2, st2)) && l2 == input[st.pos]
                / 16 + 7 && st2.pos == later.pos && !st2.have_nibble),
{
}

/// A pending half byte stays as it was until a match uses it: a step
/// taken while a half byte is pending either keeps it pending with the
/// same byte, or uses it and leaves none pending.
pub proof fn lemma_pending_nibble_kept(input: Seq<u8>, size: int, st: XpressState)
    requires
        st.have_nibble,
    ensures
        xpress_step(input, size, st) matches Ok(next) ==> next.nibble == st.nibble,
        forall|low: int|
            #![trigger xpress_match_length(input, low, st)]
            0 <= low < 7 ==> xpress_match_length(input, low, st) == Ok::<
                (int, XpressState),
                Seq<char>,
            >((low, st)),
{
}

/// A copied match has the length asked for and keeps what was there.
pub proof fn lemma_copy_match_len(out: Seq<u8>, distance: int, length: int)
    requires
        length >= 0,
    ensures
        copy_match(out, distance, length).len() == out.len() + length,
        copy_match(out, distance, length).subrange(0, out.len() as int) == out,
    decreases length,
{
    if length > 0 {
        let out2 = out.push(out[out.len() - distance]);
        lemma_copy_match_len(out2, distance, length - 1);
        assert(copy_match(out, distance, length).subrange(0, out.len() as int) =~= out);
    }
}

/// The state of the exec decoder.
struct Decoder {
    pos: usize,
    kind: u32,
    kind_bit: u32,
    have_nibble: bool,
    nibble: u8,
}

/// The ghost state that an exec decoder state and its output stand for.
spec fn state_of(d: Decoder, out: Seq<u8>) -> XpressState {
    XpressState {
        pos: d.pos as int,
        out,
        kind: d.kind,
        kind_bit: d.kind_bit as int,
        have_nibble: d.have_nibble,
        nibble: d.nibble,
    }
}

/// Reads the little-endian 16-bit value at `i`.
fn read_le_u16(input: &[u8], i: usize) -> (r: u32)
    requires
        i + 2 <= input@.len(),
    ensures
        r == le_u16_at(input@, i as int),
{
    (input[i] as u32) + (input[i + 1] as u32) * 256
}

/// Reads the little-endian 32-bit value at `i`.
fn read_le_u32(input: &[u8], i: usize) -> (r: u32)
    requires
        i + 4 <= input@.len(),
    ensures
        r == le_u32_at(input@, i as int),
{
    (input[i] as u32) + (input[i + 1] as u32) * 256 + (input[i + 2] as u32) * 65536
        + (input[i + 3] as u32) * 16777216
}

/// The error for a violation of the compressed format.
fn format_error(message: &str) -> (r: DimeError)
    ensures
        r@ == DimeErrorView::RecordFormatError(message@),
{
    DimeError::RecordFormatError(String::from_str(message))
}

/// Decodes the extra length bytes of a match.
fn match_length(input: &[u8], low: u32, d: &mut Decoder, out: &Vec<u8>) -> (r: Result<u32, DimeError>)
    requires
        old(d).pos <= input@.len(),
        low < 8,
    ensures
        match xpress_match_length(input@, low as int, state_of(*old(d), out@)) {
            Ok((l, st)) => r == Ok::<u32, DimeError>(l as u32) && state_of(*final(d), out@) == st
                && l <= 65535 + 22 && final(d).pos <= input@.len() && final(d).kind == old(d).kind
                && final(d).kind_bit == old(d).kind_bit,
            Err(m) => r matches Err(e) && e@ == DimeErrorView::RecordFormatError(m),
        },
{
    if low != 7 {
        return Ok(low);
    }
    let mut length: u32;
    if !d.have_nibble {
        if d.pos >= input.len() {
            return Err(format_error("Truncated match length nibble"));
        }
        d.have_nibble = true;
        d.nibble = input[d.pos];
        length = (d.nibble % 16) as u32;
        d.pos = d.pos + 1;
    } else {
        length = (d.nibble / 16) as u32;
        d.have_nibble = false;
    }
    if length == 15 {
        if d.pos >= input.len() {
            return Err(format_error("Truncated extended match length"));
        }
        length = input[d.pos] as u32;
        d.pos = d.pos + 1;
        if length == 255 {
            if input.len() - d.pos < 2 {
                return Err(format_error("Truncated length bytes"));
            }
            length = read_le_u16(input, d.pos);
            d.pos = d.pos + 2;
            if length < 22 {
                return Err(format_error("Invalid match length"));
            }
            length = length - 22;
        }
        length = length + 15;
    }
    Ok(length + 7)
}

/// Decodes one token into `out`.
fn step(input: &[u8], size: usize, d: &mut Decoder, out: &mut Vec<u8>) -> (r: Result<(), DimeError>)
    requires
        old(d).pos <= input@.len(),
        old(d).kind_bit <= 32,
        old(out)@.len() < size,
    ensures
        match xpress_step(input@, size as int, state_of(*old(d), old(out)@)) {
            Ok(st) => r is Ok && state_of(*final(d), final(out)@) == st && final(d).pos
                <= input@.len() && final(d).kind_bit <= 32 && final(out)@.len() <= size,
            Err(m) => r matches Err(e) && e@ == DimeErrorView::RecordFormatError(m),
        },
{
    if d.kind_bit == 0 {
        if input.len() - d.pos < 4 {
            return Err(format_error("Truncated kind bitmap"));
        }
        d.kind = read_le_u32(input, d.pos);
        d.pos = d.pos + 4;
        d.kind_bit = 32;
    }
    d.kind_bit = d.kind_bit - 1;
    if d.kind & (1u32 << d.kind_bit) == 0 {
        if d.pos >= input.len() {
            return Err(format_error("Truncated literal"));
        }
        out.push(input[d.pos]);
        d.pos = d.pos + 1;
        return Ok(());
    }
    if input.len() - d.pos < 2 {
        return Err(format_error("Truncated length bytes"));
    }
    let token = read_le_u16(input, d.pos);
    d.pos = d.pos + 2;
    let offset = token / 8;
    let ghost st_before = state_of(*d, out@);
    let l = match_length(input, token % 8, d, out)?;
    let length = l + 3;
    let remaining = size - out.len();
    if length as usize > remaining {
        return Err(format_error("Invalid length"));
    }
    let distance = offset as usize + 1;
    if distance > out.len() {
        return Err(format_error("Invalid offset"));
    }
    let ghost out0 = out@;
    let mut k: u32 = 0;
    while k < length
        invariant
            0 <= k <= length,
            1 <= distance <= out0.len(),
            out@.len() == out0.len() + k,
            out0.len() + length <= size,
            copy_match(out0, distance as int, length as int) == copy_match(
                out@,
                distance as int,
                (length - k) as int,
            ),
        decreases length - k,
    {
        let b = out[out.len() - distance];
        out.push(b);
        k = k + 1;
    }
    Ok(())
}

/// Decodes a compressed chunk payload whose decompressed size is `size`.
pub fn decompress_buffer(input_buffer: &[u8], size: u32) -> (r: Result<Vec<u8>, DimeError>)
    ensures
        match spec_decompress_buffer(input_buffer@, size as int) {
            Ok(o) => r matches Ok(v) && v@ == o && o.len() == size,
            Err(m) => r matches Err(e) && e@ == DimeErrorView::RecordFormatError(m),
        },
{
    let output_buffer_size = size as usize;
    let mut out: Vec<u8> = Vec::new();
    let mut d = Decoder { pos: 0, kind: 0, kind_bit: 0, have_nibble: false, nibble: 0 };
    while out.len() < output_buffer_size
        invariant
            d.pos <= input_buffer@.len(),
            d.kind_bit <= 32,
            out@.len() <= output_buffer_size,
            output_buffer_size == size,
            spec_decompress_buffer(input_buffer@, size as int) == xpress_run(
                input_buffer@,
                size as int,
                state_of(d, out@),
            ),
        decreases output_buffer_size - out@.len(),
    {
        let ghost before = state_of(d, out@);
        step(input_buffer, output_buffer_size, &mut d, &mut out)?;
        proof {
            lemma_step_grows(input_buffer@, size as int, before);
        }
    }
    Ok(out)
}

/// A token always produces at least one byte.
pub proof fn lemma_step_grows(input: Seq<u8>, size: int, st: XpressState)
    ensures
        st.out.len() < size ==> (xpress_step(input, size, st) matches Ok(next) ==> st.out.len()
            < next.out.len() <= size),
{
    if let Ok(st1) = xpress_load_kind(input, st) {
        let bit = st1.kind_bit - 1;
        let s2 = XpressState { kind_bit: bit, ..st1 };
        if s2.kind & (1u32 << (bit as u32)) != 0 && s2.pos + 2 <= input.len() {
            let token = le_u16_at(input, s2.pos);
            if let Ok((l, st3)) = xpress_match_length(
                input,
                (token % 8) as int,
                XpressState { pos: s2.pos + 2, ..s2 },
            ) {
                if l >= 0 {
                    lemma_copy_match_len(st3.out, token / 8 + 1, l + 3);
                }
            }
        }
    }
}

/// Decoding the compressed chunk that starts at `start`: the bytes it
/// decodes to and the number of input bytes it takes, header included.
pub open spec fn spec_decompress_chunk(data: Seq<u8>, start: int) -> Result<
    (Seq<u8>, int),
    Seq<char>,
> {
    if data.len() - start < 8 {
        Err("Compressed input too short: "@ + spec_decimal(data.len()))
    } else if le_u32_at(data, start) > MAX_DECOMPRESSED_CHUNK_SIZE {
        Err("Decompressed block size is too large"@)
    } else {
        let payload_start = start + 8;
        let payload_end = payload_start + le_u32_at(data, start + 4);
        if payload_end > usize::MAX {
            Err("Compressed size overflow"@)
        } else if payload_end > data.len() {
            Err("Truncated compressed chunk"@)
        } else {
            match spec_decompress_buffer(
                data.subrange(payload_start, payload_end),
                le_u32_at(data, start) as int,
            ) {
                Err(m) => Err(m),
                Ok(o) => Ok((o, payload_end - start)),
            }
        }
    }
}

/// Decoding the chunks from `start` on, after `acc` was decoded from the
/// chunks before.
pub open spec fn spec_decompress_from(data: Seq<u8>, start: int, acc: Seq<u8>) -> Result<
    Seq<u8>,
    Seq<char>,
>
    decreases data.len() - start,
{
    if start >= data.len() {
        Ok(acc)
    } else {
        match spec_decompress_chunk(data, start) {
            Err(m) => Err(m),
            Ok((chunk, n)) => if acc.len() + chunk.len() > usize::MAX {
                Err("Decompressed message size overflow"@)
            } else if acc.len() + chunk.len() > MAX_DECOMPRESSED_MESSAGE_SIZE {
                Err("Decompressed message is too large"@)
            } else if n > 0 {
                spec_decompress_from(data, start + n, acc + chunk)
            } else {
                Err("Truncated compressed chunk"@)
            },
        }
    }
}

/// Decoding a compressed message body whose content type is given.
pub open spec fn spec_decompress(data: Seq<u8>, content_type: Seq<char>) -> Result<
    Seq<u8>,
    Seq<char>,
> {
    if !is_xpress_content_type(content_type) {
        Err("Message not compressed"@)
    } else if data.len() == 0 {
        Err("Compressed input too short: 0"@)
    } else {
        spec_decompress_from(data, 0, Seq::empty())
    }
}

/// A chunk that decodes takes more than its eight-byte header's worth of
/// nothing: at least eight bytes, and no more than there are.
pub proof fn lemma_chunk_progress(data: Seq<u8>, start: int)
    requires
        0 <= start <= data.len(),
    ensures
        spec_decompress_chunk(data, start) matches Ok((_, n)) ==> 8 <= n <= data.len() - start,
{
}

/// Decodes the compressed chunk at `start`: its bytes and the number of
/// input bytes it takes.
pub fn decompress_chunk(data: &[u8], start: usize) -> (r: Result<(Vec<u8>, usize), DimeError>)
    requires
        start <= data@.len(),
    ensures
        match spec_decompress_chunk(data@, start as int) {
            Ok((o, n)) => r matches Ok((v, m)) && v@ == o && m == n,
            Err(msg) => r matches Err(e) && e@ == DimeErrorView::RecordFormatError(msg),
        },
{
    if data.len() - start < 8 {
        return Err(
            DimeError::RecordFormatError(
                prefixed_decimal("Compressed input too short: ", data.len() as u64),
            ),
        );
    }
    let original_size = read_le_u32(data, start);
    if original_size > MAX_DECOMPRESSED_CHUNK_SIZE {
        return Err(format_error("Decompressed block size is too large"));
    }
    let compressed_size = read_le_u32(data, start + 4);
    let payload_start = start + 8;
    let payload_end = match payload_start.checked_add(compressed_size as usize) {
        Some(e) => e,
        None => {
            return Err(format_error("Compressed size overflow"));
        },
    };
    if payload_end > data.len() {
        return Err(format_error("Truncated compressed chunk"));
    }
    let compressed_bytes = &data[payload_start..payload_end];
    let decompressed = decompress_buffer(compressed_bytes, original_size)?;
    Ok((decompressed, payload_end - start))
}

/// Decodes the body of a message whose content type ends with `+xpress`:
/// a sequence of chunks, each an eight-byte header (decompressed and
/// compressed sizes, little-endian) and its payload.
pub fn decompress(data: &[u8], content_type: &str) -> (r: Result<Vec<u8>, DimeError>)
    ensures
        match spec_decompress(data@, content_type@) {
            Ok(o) => r matches Ok(v) && v@ == o,
            Err(msg) => r matches Err(e) && e@ == DimeErrorView::RecordFormatError(msg),
        },
        r matches Ok(v) ==> v@.len() <= MAX_DECOMPRESSED_MESSAGE_SIZE,
{
    if !content_type_is_xpress(content_type) {
        return Err(format_error("Message not compressed"));
    }
    if data.len() == 0 {
        return Err(format_error("Compressed input too short: 0"));
    }
    let data_len = data.len();
    let mut decompressed: Vec<u8> = Vec::new();
    let mut start: usize = 0;
    while start < data_len
        invariant
            data_len == data@.len(),
            start <= data_len,
            decompressed@.len() <= MAX_DECOMPRESSED_MESSAGE_SIZE,
            spec_decompress(data@, content_type@) == spec_decompress_from(
                data@,
                start as int,
                decompressed@,
            ),
        decreases data_len - start,
    {
        proof {
            lemma_chunk_progress(data@, start as int);
        }
        let (mut chunk, consumed) = decompress_chunk(data, start)?;
        let new_size = match decompressed.len().checked_add(chunk.len()) {
            Some(n) => n,
            None => {
                return Err(format_error("Decompressed message size overflow"));
            },
        };
        if new_size > MAX_DECOMPRESSED_MESSAGE_SIZE {
            return Err(format_error("Decompressed message is too large"));
        }
        decompressed.append(&mut chunk);
        start = start + consumed;
    }
    Ok(decompressed)
}


/// A chunk that decodes from the bytes of `a` decodes the same with any
/// bytes after them.
proof fn lemma_chunk_in_prefix(a: Seq<u8>, b: Seq<u8>, start: int)
    requires
        0 <= start < a.len(),
        spec_decompress_chunk(a, start) is Ok,
    ensures
        spec_decompress_chunk(a + b, start) == spec_decompress_chunk(a, start),
{
    let d = a + b;
    assert(d[start] == a[start] && d[start + 1] == a[start + 1] && d[start + 2] == a[start + 2]
        && d[start + 3] == a[start + 3]);
    assert(d[start + 4] == a[start + 4] && d[start + 5] == a[start + 5] && d[start + 6] == a[start
        + 6] && d[start + 7] == a[start + 7]);
    let payload_start = start + 8;
    let payload_end = payload_start + le_u32_at(a, start + 4);
    assert(d.subrange(payload_start, payload_end) =~= a.subrange(payload_start, payload_end));
}

/// A chunk that decodes from the bytes of `b` decodes the same after any
/// bytes before them, as long as the whole fits in memory.
proof fn lemma_chunk_in_suffix(a: Seq<u8>, b: Seq<u8>, start: int)
    requires
        0 <= start < b.len(),
        a.len() + b.len() <= usize::MAX,
        spec_decompress_chunk(b, start) is Ok,
    ensures
        spec_decompress_chunk(a + b, a.len() + start) == spec_decompress_chunk(b, start),
{
    let d = a + b;
    let s = a.len() + start;
    assert(d[s] == b[start] && d[s + 1] == b[start + 1] && d[s + 2] == b[start + 2] && d[s + 3]
        == b[start + 3]);
    assert(d[s + 4] == b[start + 4] && d[s + 5] == b[start + 5] && d[s + 6] == b[start + 6] && d[s
        + 7] == b[start + 7]);
    let payload_end = start + 8 + le_u32_at(b, start + 4);
    assert(d.subrange(s + 8, a.len() + payload_end) =~= b.subrange(start + 8, payload_end));
}

/// What the chunks decode to extends what was decoded before them, and
/// stays within the message limit when that did.
proof fn lemma_run_grows(data: Seq<u8>, start: int, acc: Seq<u8>)
    requires
        0 <= start,
        spec_decompress_from(data, start, acc) is Ok,
    ensures
        acc.len() <= spec_decompress_from(data, start, acc)->Ok_0.len(),
        acc.len() <= MAX_DECOMPRESSED_MESSAGE_SIZE ==> spec_decompress_from(
            data,
            start,
            acc,
        )->Ok_0.len() <= MAX_DECOMPRESSED_MESSAGE_SIZE,
    decreases data.len() - start,
{
    if start < data.len() {
        if let Ok((chunk, n)) = spec_decompress_chunk(data, start) {
            if n > 0 && acc.len() + chunk.len() <= MAX_DECOMPRESSED_MESSAGE_SIZE {
                lemma_run_grows(data, start + n, acc + chunk);
            }
        }
    }
}

/// Decoding `a` and then `b`: the chunks of `a` bring the decoder to the
/// end of `a` with what `a` decodes to.
proof fn lemma_run_prefix(a: Seq<u8>, b: Seq<u8>, start: int, acc: Seq<u8>)
    requires
        0 <= start <= a.len(),
        spec_decompress_from(a, start, acc) is Ok,
    ensures
        spec_decompress_from(a + b, start, acc) == spec_decompress_from(
            a + b,
            a.len() as int,
            spec_decompress_from(a, start, acc)->Ok_0,
        ),
    decreases a.len() - start,
{
    if start < a.len() {
        lemma_chunk_progress(a, start);
        lemma_chunk_in_prefix(a, b, start);
        let (chunk, n) = spec_decompress_chunk(a, start)->Ok_0;
        lemma_run_prefix(a, b, start + n, acc + chunk);
    }
}

/// Decoding the chunks of `b` after those of `a`: the result is what came
/// before followed by what `b` decodes to, unless the whole passes the
/// message limit.
proof fn lemma_run_suffix(a: Seq<u8>, b: Seq<u8>, start: int, pre: Seq<u8>, acc: Seq<u8>)
    requires
        0 <= start <= b.len(),
        a.len() + b.len() <= usize::MAX,
        pre.len() + acc.len() <= MAX_DECOMPRESSED_MESSAGE_SIZE,
        spec_decompress_from(b, start, acc) is Ok,
    ensures
        spec_decompress_from(a + b, a.len() + start, pre + acc) == (if pre.len()
            + spec_decompress_from(b, start, acc)->Ok_0.len() <= MAX_DECOMPRESSED_MESSAGE_SIZE {
            Ok(pre + spec_decompress_from(b, start, acc)->Ok_0)
        } else {
            Err("Decompressed message is too large"@)
        }),
    decreases b.len() - start,
{
    let d = a + b;
    if start < b.len() {
        lemma_chunk_progress(b, start);
        lemma_chunk_in_suffix(a, b, start);
        let (chunk, n) = spec_decompress_chunk(b, start)->Ok_0;
        lemma_run_grows(b, start + n, acc + chunk);
        if pre.len() + acc.len() + chunk.len() <= MAX_DECOMPRESSED_MESSAGE_SIZE {
            assert(pre + acc + chunk =~= pre + (acc + chunk));
            lemma_run_suffix(a, b, start + n, pre, acc + chunk);
        }
    }
}

/// Chunk sequences decode independently: the body made of two bodies that
/// decode decodes to what the first decodes to followed by what the second
/// decodes to, unless that passes the message limit, where it is refused.
pub proof fn lemma_decompress_concat(a: Seq<u8>, b: Seq<u8>, content_type: Seq<char>)
    requires
        spec_decompress(a, content_type) is Ok,
        spec_decompress(b, content_type) is Ok,
        a.len() + b.len() <= usize::MAX,
    ensures
        spec_decompress(a + b, content_type) == (if spec_decompress(a, content_type)->Ok_0.len()
            + spec_decompress(b, content_type)->Ok_0.len() <= MAX_DECOMPRESSED_MESSAGE_SIZE {
            Ok(spec_decompress(a, content_type)->Ok_0 + spec_decompress(b, content_type)->Ok_0)
        } else {
            Err("Decompressed message is too large"@)
        }),
{
    let x = spec_decompress(a, content_type)->Ok_0;
    lemma_run_grows(a, 0, Seq::empty());
    lemma_run_prefix(a, b, 0, Seq::empty());
    assert(x + Seq::<u8>::empty() =~= x);
    lemma_run_suffix(a, b, 0, x, Seq::empty());
}

} // verus!
