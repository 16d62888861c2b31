//! Screenshots as PNG files: CRC-32, Adler-32, chunks, and an uncompressed
//! (stored) zlib stream of RGB scanlines.
use vstd::prelude::*;

verus! {

/// One bit of the reflected CRC-32 register update (polynomial `0xedb88320`).
pub open spec fn crc_step(c: u32) -> u32 {
    (c >> 1u32) ^ (0xedb8_8320u32 & (if c & 1u32 == 1u32 { 0xffff_ffffu32 } else { 0u32 }))
}

/// `n` register updates.
pub open spec fn crc_steps(c: u32, n: nat) -> u32
    decreases n,
{
    if n == 0 {
        c
    } else {
        crc_step(crc_steps(c, (n - 1) as nat))
    }
}

/// The register after one byte: the byte is xored in, then eight updates.
pub open spec fn crc_byte(c: u32, b: u8) -> u32 {
    crc_steps(c ^ (b as u32), 8)
}

/// The register after a run of bytes, from the all-ones start.
pub open spec fn crc_register(bytes: Seq<u8>) -> u32
    decreases bytes.len(),
{
    if bytes.len() == 0 {
        0xffff_ffffu32
    } else {
        crc_byte(crc_register(bytes.drop_last()), bytes.last())
    }
}

/// The CRC-32 of a run of bytes: the final register, inverted.
pub open spec fn crc32_spec(bytes: Seq<u8>) -> u32 {
    !crc_register(bytes)
}

/// CRC-32 (IEEE), bit by bit.
pub fn crc32(bytes: &[u8]) -> (r: u32)
    ensures
        r == crc32_spec(bytes@),
{
    let mut crc: u32 = 0xffff_ffff;
    let mut i: usize = 0;
    while i < bytes.len()
        invariant
            0 <= i <= bytes@.len(),
            crc == crc_register(bytes@.take(i as int)),
        decreases bytes.len() - i,
    {
        let ghost before = crc;
        crc = crc ^ (bytes[i] as u32);
        let ghost start = crc;
        let mut k: u32 = 0;
        while k < 8
            invariant
                0 <= k <= 8,
                crc == crc_steps(start, k as nat),
            decreases 8 - k,
        {
            let mask: u32 = if crc & 1 == 1 { 0xffff_ffff } else { 0 };
            crc = (crc >> 1) ^ (0xedb8_8320 & mask);
            k = k + 1;
        }
        assert(bytes@.take(i + 1).drop_last() =~= bytes@.take(i as int));
        i = i + 1;
    }
    assert(bytes@.take(bytes.len() as int) =~= bytes@);
    !crc
}

/// The Adler-32 modulus.
pub open spec fn adler_mod() -> nat {
    65521
}

/// The two Adler-32 sums `(a, b)` of a run of bytes.
pub open spec fn adler_sums(bytes: Seq<u8>) -> (nat, nat)
    decreases bytes.len(),
{
    if bytes.len() == 0 {
        (1, 0)
    } else {
        let (a, b) = adler_sums(bytes.drop_last());
        let a2 = (a + bytes.last() as nat) % adler_mod();
        (a2, (b + a2) % adler_mod())
    }
}

/// The Adler-32 checksum: `b * 65536 + a`.
pub open spec fn adler32_spec(bytes: Seq<u8>) -> nat {
    adler_sums(bytes).1 * 65536 + adler_sums(bytes).0
}

/// Adler-32, as zlib appends it to a stream.
pub fn adler32(bytes: &[u8]) -> (r: u32)
    ensures
        r == adler32_spec(bytes@),
{
    let mut a: u32 = 1;
    let mut b: u32 = 0;
    let mut i: usize = 0;
    while i < bytes.len()
        invariant
            0 <= i <= bytes@.len(),
            a == adler_sums(bytes@.take(i as int)).0,
            b == adler_sums(bytes@.take(i as int)).1,
            a < 65521,
            b < 65521,
        decreases bytes.len() - i,
    {
        assert(bytes@.take(i + 1).drop_last() =~= bytes@.take(i as int));
        a = (a + bytes[i] as u32) % 65521;
        b = (b + a) % 65521;
        i = i + 1;
    }
    assert(bytes@.take(bytes.len() as int) =~= bytes@);
    assert((b << 16u32) | a == b * 65536 + a) by (bit_vector)
        requires
            a < 65536,
            b < 65536,
    ;
    (b << 16) | a
}

/// A 32-bit number as four bytes, most significant first.
pub open spec fn be32(x: u32) -> Seq<u8> {
    seq![(x >> 24u32) as u8, (x >> 16u32) as u8, (x >> 8u32) as u8, x as u8]
}

/// A 16-bit number as two bytes, least significant first.
pub open spec fn le16(x: u16) -> Seq<u8> {
    seq![x as u8, (x >> 8u16) as u8]
}

/// Appends a 32-bit number, most significant byte first.
pub fn push_be32(out: &mut Vec<u8>, x: u32)
    ensures
        final(out)@ == old(out)@ + be32(x),
{
    out.push((x >> 24) as u8);
    out.push((x >> 16) as u8);
    out.push((x >> 8) as u8);
    out.push(x as u8);
    assert(final(out)@ =~= old(out)@ + be32(x));
}

/// Appends a 16-bit number, least significant byte first.
pub fn push_le16(out: &mut Vec<u8>, x: u16)
    ensures
        final(out)@ == old(out)@ + le16(x),
{
    out.push(x as u8);
    out.push((x >> 8) as u8);
    assert(final(out)@ =~= old(out)@ + le16(x));
}

/// Appends a run of bytes.
pub fn push_bytes(out: &mut Vec<u8>, data: &[u8])
    ensures
        final(out)@ == old(out)@ + data@,
{
    let ghost start = out@;
    let mut i: usize = 0;
    while i < data.len()
        invariant
            0 <= i <= data@.len(),
            out@ == start + data@.take(i as int),
        decreases data.len() - i,
    {
        out.push(data[i]);
        assert(data@.take(i + 1) =~= data@.take(i as int).push(data@[i as int]));
        i = i + 1;
    }
    assert(data@.take(data.len() as int) =~= data@);
}

/// A PNG chunk: the data's length, the name, the data, and the CRC-32 of
/// name and data.
pub open spec fn png_chunk(name: Seq<u8>, data: Seq<u8>) -> Seq<u8> {
    be32(data.len() as u32) + name + data + be32(crc32_spec(name + data))
}

/// Appends one PNG chunk.
pub fn write_png_chunk(png: &mut Vec<u8>, name: &[u8; 4], data: &[u8])
    ensures
        final(png)@ == old(png)@ + png_chunk(name@, data@),
{
    let ghost start = png@;
    push_be32(png, data.len() as u32);
    push_bytes(png, name.as_slice());
    push_bytes(png, data);
    let mut crc_input: Vec<u8> = Vec::new();
    push_bytes(&mut crc_input, name.as_slice());
    push_bytes(&mut crc_input, data);
    assert(crc_input@ =~= name@ + data@);
    let crc = crc32(crc_input.as_slice());
    push_be32(png, crc);
    assert(png@ =~= start + png_chunk(name@, data@));
}

/// Appends `data[from..to]`.
pub fn push_range(out: &mut Vec<u8>, data: &[u8], from: usize, to: usize)
    requires
        from <= to <= data@.len(),
    ensures
        final(out)@ == old(out)@ + data@.subrange(from as int, to as int),
{
    let ghost start = out@;
    let mut i: usize = from;
    while i < to
        invariant
            from <= i <= to <= data@.len(),
            out@ == start + data@.subrange(from as int, i as int),
        decreases to - i,
    {
        out.push(data[i]);
        assert(data@.subrange(from as int, i + 1) =~= data@.subrange(from as int, i as int).push(
            data@[i as int],
        ));
        i = i + 1;
    }
}

/// The filtered image data: each row of `row` bytes (the last one may be
/// shorter) behind a zero filter byte.
pub open spec fn scanlines(rgb: Seq<u8>, row: nat) -> Seq<u8>
    decreases rgb.len(),
{
    if rgb.len() == 0 || row == 0 {
        Seq::empty()
    } else {
        let n = if row < rgb.len() { row } else { rgb.len() };
        seq![0u8] + rgb.take(n as int) + scanlines(rgb.skip(n as int), row)
    }
}

/// The largest stored deflate block.
pub open spec fn max_stored() -> nat {
    65535
}

/// Deflate stored blocks over the data: each block is its final flag, its
/// length and the length's complement (least significant byte first), then
/// up to 65535 bytes.
pub open spec fn stored_blocks(raw: Seq<u8>) -> Seq<u8>
    decreases raw.len(),
{
    if raw.len() == 0 {
        Seq::empty()
    } else {
        let n = if raw.len() < max_stored() { raw.len() } else { max_stored() };
        seq![if n == raw.len() { 1u8 } else { 0u8 }] + le16(n as u16) + le16(!(n as u16))
            + raw.take(n as int) + stored_blocks(raw.skip(n as int))
    }
}

/// A zlib stream that stores the data uncompressed.
pub open spec fn zlib_stored(raw: Seq<u8>) -> Seq<u8> {
    seq![0x78u8, 0x01u8] + stored_blocks(raw) + be32(adler32_spec(raw) as u32)
}

/// The eight bytes every PNG file starts with.
pub open spec fn png_signature() -> Seq<u8> {
    seq![0x89u8, 0x50u8, 0x4eu8, 0x47u8, 0x0du8, 0x0au8, 0x1au8, 0x0au8]
}

/// The header of an 8-bit RGB image without interlacing.
pub open spec fn ihdr_data(width: u32, height: u32) -> Seq<u8> {
    be32(width) + be32(height) + seq![8u8, 2u8, 0u8, 0u8, 0u8]
}

/// A PNG file of RGB pixels, `width` pixels to a row.
pub open spec fn png_rgb(width: u32, height: u32, rgb: Seq<u8>) -> Seq<u8> {
    png_signature() + png_chunk(seq![0x49u8, 0x48u8, 0x44u8, 0x52u8], ihdr_data(width, height))
        + png_chunk(
        seq![0x49u8, 0x44u8, 0x41u8, 0x54u8],
        zlib_stored(scanlines(rgb, (width * 3) as nat)),
    ) + png_chunk(seq![0x49u8, 0x45u8, 0x4eu8, 0x44u8], Seq::empty())
}

/// The scanlines of an image: rows of `row` bytes, each behind a zero byte.
fn filter_rows(rgb: &[u8], row: usize) -> (raw: Vec<u8>)
    requires
        row > 0,
    ensures
        raw@ == scanlines(rgb@, row as nat),
{
    let mut raw: Vec<u8> = Vec::new();
    let mut pos: usize = 0;
    assert(rgb@.skip(0) =~= rgb@);
    assert(raw@ + scanlines(rgb@, row as nat) =~= scanlines(rgb@, row as nat));
    while pos < rgb.len()
        invariant
            row > 0,
            0 <= pos <= rgb@.len(),
            raw@ + scanlines(rgb@.skip(pos as int), row as nat) == scanlines(rgb@, row as nat),
        decreases rgb.len() - pos,
    {
        let rest = rgb.len() - pos;
        let n = if row < rest { row } else { rest };
        let ghost tail = rgb@.skip(pos as int);
        assert(tail.take(n as int) =~= rgb@.subrange(pos as int, pos + n));
        assert(tail.skip(n as int) =~= rgb@.skip(pos + n));
        raw.push(0u8);
        push_range(&mut raw, rgb, pos, pos + n);
        pos = pos + n;
        assert(raw@ + scanlines(rgb@.skip(pos as int), row as nat) =~= scanlines(rgb@, row as nat));
    }
    assert(rgb@.skip(pos as int) =~= Seq::<u8>::empty());
    assert(raw@ + Seq::<u8>::empty() =~= raw@);
    raw
}

/// The stored blocks of a zlib stream over the data.
fn store_blocks(zlib: &mut Vec<u8>, raw: &[u8])
    ensures
        final(zlib)@ == old(zlib)@ + stored_blocks(raw@),
{
    let ghost start = zlib@;
    let mut pos: usize = 0;
    assert(raw@.skip(0) =~= raw@);
    while pos < raw.len()
        invariant
            0 <= pos <= raw@.len(),
            zlib@ + stored_blocks(raw@.skip(pos as int)) == start + stored_blocks(raw@),
        decreases raw.len() - pos,
    {
        let rest = raw.len() - pos;
        let n = if rest < 65535 { rest } else { 65535 };
        let final_block = n == rest;
        let ghost tail = raw@.skip(pos as int);
        assert(tail.take(n as int) =~= raw@.subrange(pos as int, pos + n));
        assert(tail.skip(n as int) =~= raw@.skip(pos + n));
        zlib.push(if final_block { 0x01u8 } else { 0x00u8 });
        let len16: u16 = n as u16;
        push_le16(zlib, len16);
        push_le16(zlib, !len16);
        push_range(zlib, raw, pos, pos + n);
        pos = pos + n;
        assert(zlib@ + stored_blocks(raw@.skip(pos as int)) =~= start + stored_blocks(raw@));
    }
    assert(raw@.skip(pos as int) =~= Seq::<u8>::empty());
    assert(zlib@ + Seq::<u8>::empty() =~= zlib@);
}

/// The bytes of a PNG file holding RGB pixels, stored without compression:
/// signature, header, one data chunk, end chunk.
pub fn encode_png_rgb(width: u32, height: u32, rgb: &[u8]) -> (png: Vec<u8>)
    requires
        width > 0,
        width * 3 <= usize::MAX,
    ensures
        png@ == png_rgb(width, height, rgb@),
{
    let row_len: usize = width as usize * 3;
    let raw = filter_rows(rgb, row_len);
    let mut zlib: Vec<u8> = Vec::new();
    zlib.push(0x78u8);
    zlib.push(0x01u8);
    store_blocks(&mut zlib, raw.as_slice());
    let check = adler32(raw.as_slice());
    push_be32(&mut zlib, check);
    assert(zlib@ =~= zlib_stored(raw@));
    let mut png: Vec<u8> = Vec::new();
    png.push(0x89u8);
    png.push(0x50u8);
    png.push(0x4eu8);
    png.push(0x47u8);
    png.push(0x0du8);
    png.push(0x0au8);
    png.push(0x1au8);
    png.push(0x0au8);
    assert(png@ =~= png_signature());
    let mut ihdr: Vec<u8> = Vec::new();
    push_be32(&mut ihdr, width);
    push_be32(&mut ihdr, height);
    ihdr.push(8u8);
    ihdr.push(2u8);
    ihdr.push(0u8);
    ihdr.push(0u8);
    ihdr.push(0u8);
    assert(ihdr@ =~= ihdr_data(width, height));
    let ihdr_name: [u8; 4] = [0x49u8, 0x48u8, 0x44u8, 0x52u8];
    let idat_name: [u8; 4] = [0x49u8, 0x44u8, 0x41u8, 0x54u8];
    let iend_name: [u8; 4] = [0x49u8, 0x45u8, 0x4eu8, 0x44u8];
    assert(ihdr_name@ =~= seq![0x49u8, 0x48u8, 0x44u8, 0x52u8]);
    assert(idat_name@ =~= seq![0x49u8, 0x44u8, 0x41u8, 0x54u8]);
    assert(iend_name@ =~= seq![0x49u8, 0x45u8, 0x4eu8, 0x44u8]);
    write_png_chunk(&mut png, &ihdr_name, ihdr.as_slice());
    write_png_chunk(&mut png, &idat_name, zlib.as_slice());
    let empty: Vec<u8> = Vec::new();
    write_png_chunk(&mut png, &iend_name, empty.as_slice());
    assert(empty@ =~= Seq::<u8>::empty());
    assert(png@ =~= png_rgb(width, height, rgb@));
    png
}

} // verus!
