//! The header of the temporary files that hold image previews: the size in
//! bytes of one sample, the number of channels, the width and height in
//! pixels and the length in bytes of the pixel data that follows. Numbers
//! are stored least significant byte first.

use vstd::prelude::*;

verus! {

/// Length in bytes of a preview file header.
pub const HEADER_LEN: usize = 18;

/// The fields of a preview file header.
#[derive(Debug, Clone, Copy, PartialEq, Eq, Structural)]
pub struct SnapshotHeader {
    pub sample_size: u8,
    pub channels: u8,
    pub width: u32,
    pub height: u32,
    pub content_len: u64,
}

/// Byte `k` (from the least significant one) of `x`.
pub open spec fn byte_of(x: int, k: nat) -> u8 {
    ((x / pow256(k)) % 256) as u8
}

pub open spec fn pow256(k: nat) -> int
    decreases k,
{
    if k == 0 {
        1
    } else {
        256 * pow256((k - 1) as nat)
    }
}

/// The four bytes of a `u32`, least significant first.
pub open spec fn le_bytes32(x: u32) -> Seq<u8> {
    seq![byte_of(x as int, 0), byte_of(x as int, 1), byte_of(x as int, 2), byte_of(x as int, 3)]
}

/// The eight bytes of a `u64`, least significant first.
pub open spec fn le_bytes64(x: u64) -> Seq<u8> {
    seq![
        byte_of(x as int, 0),
        byte_of(x as int, 1),
        byte_of(x as int, 2),
        byte_of(x as int, 3),
        byte_of(x as int, 4),
        byte_of(x as int, 5),
        byte_of(x as int, 6),
        byte_of(x as int, 7),
    ]
}

/// The bytes of a header.
pub open spec fn header_bytes(h: SnapshotHeader) -> Seq<u8> {
    seq![h.sample_size, h.channels] + le_bytes32(h.width) + le_bytes32(h.height) + le_bytes64(
        h.content_len,
    )
}

/// The number the bytes `b[start .. start + len]` stand for, least
/// significant first.
pub open spec fn le_value(b: Seq<u8>, start: int, len: nat) -> int
    decreases len,
{
    if len == 0 {
        0
    } else {
        b[start] as int + 256 * le_value(b, start + 1, (len - 1) as nat)
    }
}

/// The header the first bytes of a file stand for, if there are enough
/// of them.
pub open spec fn parse_header(b: Seq<u8>) -> Option<SnapshotHeader> {
    if b.len() < 18 {
        None
    } else {
        Some(
            SnapshotHeader {
                sample_size: b[0],
                channels: b[1],
                width: le_value(b, 2, 4) as u32,
                height: le_value(b, 6, 4) as u32,
                content_len: le_value(b, 10, 8) as u64,
            },
        )
    }
}

proof fn lemma_pow256_values()
    ensures
        pow256(0) == 1,
        pow256(1) == 256,
        pow256(2) == 65536,
        pow256(3) == 16777216,
        pow256(4) == 4294967296,
        pow256(5) == 1099511627776,
        pow256(6) == 281474976710656,
        pow256(7) == 72057594037927936,
        pow256(8) == 18446744073709551616,
{
    reveal_with_fuel(pow256, 9);
}

/// Splitting a number into bytes and reading them back gives the number:
/// `le_value` of the first `len` bytes of `x` is `x % 256^len`.
proof fn lemma_bytes_roundtrip(x: int, b: Seq<u8>, start: int, len: nat, k: nat)
    requires
        x >= 0,
        0 <= start,
        start + len <= b.len(),
        forall|i: nat| i < len ==> #[trigger] b[start + i] == byte_of(x, k + i),
    ensures
        le_value(b, start, len) * pow256(k) + x % pow256(k) == x % pow256(k + len),
    decreases len,
{
    lemma_pow256_positive(k);
    if len == 0 {
    } else {
        assert(b[start + 0] == byte_of(x, k + 0));
        assert forall|i: nat| i < (len - 1) as nat implies #[trigger] b[(start + 1) + i] == byte_of(
            x,
            (k + 1) + i,
        ) by {
            assert(b[start + (i + 1)] == byte_of(x, k + (i + 1)));
        }
        lemma_bytes_roundtrip(x, b, start + 1, (len - 1) as nat, k + 1);
        lemma_pow256_positive(k + 1);
        // x % 256^(k+1) == (x / 256^k % 256) * 256^k + x % 256^k
        let p = pow256(k);
        assert(pow256(k + 1) == 256 * p);
        lemma_mod_split(x, p);
        let a = b[start] as int;
        let rest = le_value(b, start + 1, (len - 1) as nat);
        assert(a == (x / p) % 256);
        assert(le_value(b, start, len) == a + 256 * rest);
        assert((a + 256 * rest) * p == a * p + rest * (256 * p)) by (nonlinear_arith);
    }
}

proof fn lemma_pow256_positive(k: nat)
    ensures
        pow256(k) >= 1,
    decreases k,
{
    if k > 0 {
        lemma_pow256_positive((k - 1) as nat);
    }
}

/// `x % (256 * p) == ((x / p) % 256) * p + x % p`.
proof fn lemma_mod_split(x: int, p: int)
    requires
        x >= 0,
        p >= 1,
    ensures
        x % (256 * p) == ((x / p) % 256) * p + x % p,
{
    vstd::arithmetic::div_mod::lemma_fundamental_div_mod(x, p);
    vstd::arithmetic::div_mod::lemma_fundamental_div_mod(x / p, 256);
    let q = x / p;
    let r = x % p;
    let q2 = q / 256;
    let r2 = q % 256;
    assert(x == (256 * p) * q2 + (r2 * p + r)) by (nonlinear_arith)
        requires
            x == p * q + r,
            q == 256 * q2 + r2,
    ;
    assert(0 <= r2 * p + r < 256 * p) by (nonlinear_arith)
        requires
            0 <= r2 < 256,
            0 <= r < p,
    ;
    vstd::arithmetic::div_mod::lemma_fundamental_div_mod_converse(x, 256 * p, q2, r2 * p + r);
}

/// Byte `k` of `x`, computed.
fn byte(x: u64, k: u32) -> (b: u8)
    requires
        k < 8,
    ensures
        b == byte_of(x as int, k as nat),
{
    proof {
        lemma_pow256_values();
    }
    let p: u64 = if k == 0 {
        1
    } else if k == 1 {
        256
    } else if k == 2 {
        65536
    } else if k == 3 {
        16777216
    } else if k == 4 {
        4294967296
    } else if k == 5 {
        1099511627776
    } else if k == 6 {
        281474976710656
    } else {
        72057594037927936
    };
    ((x / p) % 256) as u8
}

/// The bytes of a header, as written at the start of a preview file.
pub fn encode_header(h: &SnapshotHeader) -> (bytes: Vec<u8>)
    ensures
        bytes@ == header_bytes(*h),
{
    let mut bytes: Vec<u8> = Vec::new();
    bytes.push(h.sample_size);
    bytes.push(h.channels);
    let mut k: u32 = 0;
    while k < 4
        invariant
            k <= 4,
            bytes@ == seq![h.sample_size, h.channels] + le_bytes32(h.width).subrange(0, k as int),
        decreases 4 - k,
    {
        let b = byte(h.width as u64, k);
        bytes.push(b);
        assert(le_bytes32(h.width).subrange(0, k + 1) =~= le_bytes32(h.width).subrange(0, k as int).push(b));
        k = k + 1;
    }
    let ghost after_width = bytes@;
    let mut k: u32 = 0;
    while k < 4
        invariant
            k <= 4,
            bytes@ == after_width + le_bytes32(h.height).subrange(0, k as int),
        decreases 4 - k,
    {
        let b = byte(h.height as u64, k);
        bytes.push(b);
        assert(le_bytes32(h.height).subrange(0, k + 1) =~= le_bytes32(h.height).subrange(0, k as int).push(b));
        k = k + 1;
    }
    let ghost after_height = bytes@;
    let mut k: u32 = 0;
    while k < 8
        invariant
            k <= 8,
            bytes@ == after_height + le_bytes64(h.content_len).subrange(0, k as int),
        decreases 8 - k,
    {
        let b = byte(h.content_len, k);
        bytes.push(b);
        assert(le_bytes64(h.content_len).subrange(0, k + 1) =~= le_bytes64(h.content_len).subrange(
            0,
            k as int,
        ).push(b));
        k = k + 1;
    }
    assert(le_bytes32(h.width).subrange(0, 4) =~= le_bytes32(h.width));
    assert(le_bytes32(h.height).subrange(0, 4) =~= le_bytes32(h.height));
    assert(le_bytes64(h.content_len).subrange(0, 8) =~= le_bytes64(h.content_len));
    bytes
}

/// Reads the number stored in `len` bytes from `start`, least significant
/// first.
fn read_le(b: &Vec<u8>, start: usize, len: usize) -> (v: u64)
    requires
        len <= 8,
        start + len <= b.len(),
    ensures
        v == le_value(b@, start as int, len as nat),
{
    proof {
        lemma_pow256_values();
    }
    let mut v: u64 = 0;
    let mut i: usize = len;
    while i > 0
        invariant
            i <= len <= 8,
            start + len <= b.len(),
            v == le_value(b@, start + i, (len - i) as nat),
            0 <= v < pow256((len - i) as nat),
        decreases i,
    {
        proof {
            lemma_pow256_values();
            assert(pow256((len - i + 1) as nat) == 256 * pow256((len - i) as nat));
            assert(pow256((len - i) as nat) <= pow256(7)) by {
                lemma_pow256_monotone((len - i) as nat, 7);
            }
        }
        i = i - 1;
        v = b[start + i] as u64 + 256 * v;
    }
    v
}

proof fn lemma_pow256_monotone(a: nat, b: nat)
    requires
        a <= b,
    ensures
        pow256(a) <= pow256(b),
    decreases b,
{
    lemma_pow256_positive(b);
    if a < b {
        lemma_pow256_monotone(a, (b - 1) as nat);
    }
}

/// Reads a header from the first bytes of a preview file; `None` when
/// fewer than 18 bytes are given.
pub fn decode_header(bytes: &Vec<u8>) -> (h: Option<SnapshotHeader>)
    ensures
        h == parse_header(bytes@),
{
    if bytes.len() < HEADER_LEN {
        return None;
    }
    proof {
        lemma_pow256_values();
        lemma_le_value_bound(bytes@, 2, 4);
        lemma_le_value_bound(bytes@, 6, 4);
        lemma_le_value_bound(bytes@, 10, 8);
    }
    let width = read_le(bytes, 2, 4) as u32;
    let height = read_le(bytes, 6, 4) as u32;
    let content_len = read_le(bytes, 10, 8);
    Some(
        SnapshotHeader {
            sample_size: bytes[0],
            channels: bytes[1],
            width,
            height,
            content_len,
        },
    )
}

proof fn lemma_le_value_bound(b: Seq<u8>, start: int, len: nat)
    requires
        0 <= start,
        start + len <= b.len(),
    ensures
        0 <= le_value(b, start, len) < pow256(len),
    decreases len,
{
    if len > 0 {
        lemma_le_value_bound(b, start + 1, (len - 1) as nat);
    }
}

/// Reading back the header that was written gives the same header.
pub proof fn law_header_roundtrip(h: SnapshotHeader)
    ensures
        parse_header(header_bytes(h)) == Some(h),
{
    let b = header_bytes(h);
    lemma_pow256_values();
    assert forall|i: nat| i < 4 implies #[trigger] b[2int + i] == byte_of(h.width as int, 0 + i) by {}
    lemma_bytes_roundtrip(h.width as int, b, 2, 4, 0);
    assert forall|i: nat| i < 4 implies #[trigger] b[6int + i] == byte_of(h.height as int, 0 + i) by {}
    lemma_bytes_roundtrip(h.height as int, b, 6, 4, 0);
    assert forall|i: nat| i < 8 implies #[trigger] b[10int + i] == byte_of(h.content_len as int, 0 + i) by {}
    lemma_bytes_roundtrip(h.content_len as int, b, 10, 8, 0);
    assert((h.width as int) % pow256(4) == h.width);
    assert((h.height as int) % pow256(4) == h.height);
    assert((h.content_len as int) % pow256(8) == h.content_len);
}

/// The bytes of a preview file: its header, then the samples.
pub open spec fn preview_bytes(h: SnapshotHeader, content: Seq<u8>) -> Seq<u8> {
    header_bytes(h) + content
}

/// The header and samples a preview file holds: the header, and the
/// `content_len` bytes after it; `None` when the file is too short for
/// either.
pub open spec fn parse_preview(b: Seq<u8>) -> Option<(SnapshotHeader, Seq<u8>)> {
    match parse_header(b) {
        None => None,
        Some(h) => if b.len() < HEADER_LEN + h.content_len {
            None
        } else {
            Some((h, b.subrange(HEADER_LEN as int, HEADER_LEN + h.content_len)))
        },
    }
}

/// The bytes of a preview file holding `content` under header `h`.
pub fn encode_preview(h: &SnapshotHeader, content: &Vec<u8>) -> (bytes: Vec<u8>)
    requires
        HEADER_LEN + content@.len() <= usize::MAX,
    ensures
        bytes@ == preview_bytes(*h, content@),
{
    let mut bytes = encode_header(h);
    let mut i: usize = 0;
    while i < content.len()
        invariant
            HEADER_LEN + content@.len() <= usize::MAX,
            i <= content@.len(),
            bytes@ == header_bytes(*h) + content@.subrange(0, i as int),
        decreases content@.len() - i,
    {
        bytes.push(content[i]);
        assert(bytes@ =~= header_bytes(*h) + content@.subrange(0, i + 1));
        i = i + 1;
    }
    assert(content@.subrange(0, content@.len() as int) =~= content@);
    bytes
}

/// Reads the header and the samples from the bytes of a preview file.
pub fn decode_preview(bytes: &Vec<u8>) -> (r: Option<(SnapshotHeader, Vec<u8>)>)
    ensures
        match (r, parse_preview(bytes@)) {
            (Some(got), Some(want)) => got.0 == want.0 && got.1@ == want.1,
            (None, None) => true,
            _ => false,
        },
{
    let h = match decode_header(bytes) {
        None => return None,
        Some(h) => h,
    };
    let len: usize = bytes.len();
    if ((len - HEADER_LEN) as u64) < h.content_len {
        return None;
    }
    let end: usize = HEADER_LEN + h.content_len as usize;
    let mut content: Vec<u8> = Vec::new();
    let mut i: usize = HEADER_LEN;
    while i < end
        invariant
            HEADER_LEN <= i <= end <= bytes@.len(),
            end == HEADER_LEN + h.content_len,
            content@ == bytes@.subrange(HEADER_LEN as int, i as int),
        decreases end - i,
    {
        content.push(bytes[i]);
        assert(content@ =~= bytes@.subrange(HEADER_LEN as int, i + 1));
        i = i + 1;
    }
    Some((h, content))
}

/// The value of little-endian bytes depends only on those bytes.
proof fn lemma_le_value_local(b1: Seq<u8>, b2: Seq<u8>, start: int, len: nat)
    requires
        0 <= start,
        start + len <= b1.len(),
        start + len <= b2.len(),
        forall|i: int| start <= i < start + len ==> b1[i] == b2[i],
    ensures
        le_value(b1, start, len) == le_value(b2, start, len),
    decreases len,
{
    if len > 0 {
        lemma_le_value_local(b1, b2, start + 1, (len - 1) as nat);
    }
}

/// Reading back a preview file that was written gives the same header and
/// the same samples.
pub proof fn law_preview_roundtrip(h: SnapshotHeader, content: Seq<u8>)
    requires
        content.len() == h.content_len,
    ensures
        parse_preview(preview_bytes(h, content)) == Some((h, content)),
{
    let hb = header_bytes(h);
    let b = preview_bytes(h, content);
    law_header_roundtrip(h);
    assert(hb.len() == 18);
    assert forall|i: int| 0 <= i < 18 implies b[i] == hb[i] by {}
    lemma_le_value_local(b, hb, 2, 4);
    lemma_le_value_local(b, hb, 6, 4);
    lemma_le_value_local(b, hb, 10, 8);
    assert(parse_header(b) == parse_header(hb));
    assert(b.subrange(18, 18 + h.content_len) =~= content);
}

/// Why a preview file cannot be read back as an image.
#[derive(Debug, Clone, Copy, PartialEq, Eq)]
pub enum ReadError {
    /// The file ends before its header or its samples do.
    Truncated,
    /// The file holds an image of another number of channels.
    WrongChannels,
}

/// The header written for `len` bytes of samples of a `width` by `height`
/// image.
pub open spec fn header_for(sample_size: u8, channels: u8, width: u32, height: u32, len: nat) -> SnapshotHeader {
    SnapshotHeader { sample_size, channels, width, height, content_len: len as u64 }
}

/// What reading a preview file back as an image of `channels` channels
/// gives: its width, its height and the bytes of its samples. The channel
/// count is checked before the samples are read.
pub open spec fn read_back(b: Seq<u8>, channels: u8) -> Result<(u32, u32, Seq<u8>), ReadError> {
    match parse_header(b) {
        None => Err(ReadError::Truncated),
        Some(h) => if h.channels != channels {
            Err(ReadError::WrongChannels)
        } else {
            match parse_preview(b) {
                None => Err(ReadError::Truncated),
                Some((hh, c)) => Ok((hh.width, hh.height, c)),
            }
        },
    }
}

/// The bytes of a preview file for the sample bytes `content` of a `width`
/// by `height` image of `channels` channels of `sample_size` bytes each.
pub fn write_snapshot(sample_size: u8, channels: u8, width: u32, height: u32, content: &Vec<u8>) -> (bytes: Vec<
    u8,
>)
    requires
        HEADER_LEN + content@.len() <= usize::MAX,
    ensures
        bytes@ == preview_bytes(header_for(sample_size, channels, width, height, content@.len()), content@),
{
    let h = SnapshotHeader { sample_size, channels, width, height, content_len: content.len() as u64 };
    encode_preview(&h, content)
}

/// Reads back the width, the height and the sample bytes of an image of
/// `channels` channels from the bytes of a preview file.
pub fn read_snapshot(bytes: &Vec<u8>, channels: u8) -> (r: Result<(u32, u32, Vec<u8>), ReadError>)
    ensures
        match (r, read_back(bytes@, channels)) {
            (Ok(got), Ok(want)) => got.0 == want.0 && got.1 == want.1 && got.2@ == want.2,
            (Err(e), Err(f)) => e == f,
            _ => false,
        },
{
    match decode_header(bytes) {
        None => return Err(ReadError::Truncated),
        Some(h) => if h.channels != channels {
            return Err(ReadError::WrongChannels);
        },
    }
    match decode_preview(bytes) {
        None => Err(ReadError::Truncated),
        Some((h, content)) => Ok((h.width, h.height, content)),
    }
}

/// Reading a preview file back undoes writing it: asked for the channel
/// count it was written with, it gives the image's width, height and
/// sample bytes, whatever the sample size; asked for another, it refuses
/// the file.
pub proof fn law_read_undoes_write(
    sample_size: u8,
    channels: u8,
    width: u32,
    height: u32,
    content: Seq<u8>,
    asked: u8,
)
    requires
        content.len() <= u64::MAX,
    ensures
        read_back(preview_bytes(header_for(sample_size, channels, width, height, content.len()), content), asked)
            == if asked == channels {
            Ok::<(u32, u32, Seq<u8>), ReadError>((width, height, content))
        } else {
            Err::<(u32, u32, Seq<u8>), ReadError>(ReadError::WrongChannels)
        },
{
    let h = header_for(sample_size, channels, width, height, content.len());
    law_preview_roundtrip(h, content);
}

} // verus!
