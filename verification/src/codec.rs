//! Framing of record content as bytes: little-endian 64-bit scalars and
//! length-prefixed byte fields, with exact reader and writer contracts.
//!
//! Stored content is a byte vector; each record type frames its fields with
//! these primitives and checks them back on the way out.  The spec-level
//! readers (`rd_u64`, `rd_field`) say exactly what the executable readers
//! return, and the lemmas here carry a written field back through its
//! reader, which is what every record codec's round trip rests on.

use vstd::prelude::*;

verus! {

/// The eight little-endian bytes of a 64-bit scalar.
#[verifier::opaque]
pub open spec fn le8(x: u64) -> Seq<u8> {
    seq![
        (x & 0xff) as u8,
        ((x >> 8) & 0xff) as u8,
        ((x >> 16) & 0xff) as u8,
        ((x >> 24) & 0xff) as u8,
        ((x >> 32) & 0xff) as u8,
        ((x >> 40) & 0xff) as u8,
        ((x >> 48) & 0xff) as u8,
        ((x >> 56) & 0xff) as u8,
    ]
}

/// The 64-bit scalar eight little-endian bytes hold.
#[verifier::opaque]
pub open spec fn from_le8(s: Seq<u8>) -> u64 {
    (s[0] as u64) | ((s[1] as u64) << 8) | ((s[2] as u64) << 16) | ((s[3] as u64) << 24) | ((
    s[4] as u64) << 32) | ((s[5] as u64) << 40) | ((s[6] as u64) << 48) | ((s[7] as u64) << 56)
}

/// Reading the written bytes of a scalar gives the scalar back.
pub proof fn lemma_le8_roundtrip(x: u64)
    ensures
        from_le8(le8(x)) == x,
{
    reveal(le8);
    reveal(from_le8);
    let s = le8(x);
    assert(s[0] == (x & 0xff) as u8);
    assert(s[1] == ((x >> 8) & 0xff) as u8);
    assert(s[2] == ((x >> 16) & 0xff) as u8);
    assert(s[3] == ((x >> 24) & 0xff) as u8);
    assert(s[4] == ((x >> 32) & 0xff) as u8);
    assert(s[5] == ((x >> 40) & 0xff) as u8);
    assert(s[6] == ((x >> 48) & 0xff) as u8);
    assert(s[7] == ((x >> 56) & 0xff) as u8);
    assert(((x & 0xff) as u8 as u64) | ((((x >> 8) & 0xff) as u8 as u64) << 8) | ((((x >> 16)
        & 0xff) as u8 as u64) << 16) | ((((x >> 24) & 0xff) as u8 as u64) << 24) | ((((x >> 32)
        & 0xff) as u8 as u64) << 32) | ((((x >> 40) & 0xff) as u8 as u64) << 40) | ((((x >> 48)
        & 0xff) as u8 as u64) << 48) | ((((x >> 56) & 0xff) as u8 as u64) << 56) == x)
        by (bit_vector);
}

/// `le8` always writes eight bytes.
pub broadcast proof fn lemma_le8_len(x: u64)
    ensures
        (#[trigger] le8(x)).len() == 8,
{
    reveal(le8);
}

/// One length-prefixed field as written: the length's eight little-endian
/// bytes, then the field's bytes.
pub open spec fn field_block(f: Seq<u8>) -> Seq<u8> {
    le8(f.len() as u64) + f
}

/// The scalar at `pos`, with the position after it; `None` when fewer than
/// eight bytes remain.
pub open spec fn rd_u64(b: Seq<u8>, pos: int) -> Option<(u64, int)> {
    if 0 <= pos && pos + 8 <= b.len() {
        Some((from_le8(b.subrange(pos, pos + 8)), pos + 8))
    } else {
        None
    }
}

/// The length-prefixed byte field at `pos`, with the position after it;
/// `None` when the prefix or the field overruns the buffer.
pub open spec fn rd_field(b: Seq<u8>, pos: int) -> Option<(Seq<u8>, int)> {
    match rd_u64(b, pos) {
        None => None,
        Some((n, p)) => if p + n <= b.len() {
            Some((b.subrange(p, p + n), p + n))
        } else {
            None
        },
    }
}

/// Appends the eight little-endian bytes of a scalar.
pub fn write_u64(buf: &mut Vec<u8>, x: u64)
    ensures
        final (buf)@ == old(buf)@ + le8(x),
{
    buf.push((x & 0xff) as u8);
    buf.push(((x >> 8) & 0xff) as u8);
    buf.push(((x >> 16) & 0xff) as u8);
    buf.push(((x >> 24) & 0xff) as u8);
    buf.push(((x >> 32) & 0xff) as u8);
    buf.push(((x >> 40) & 0xff) as u8);
    buf.push(((x >> 48) & 0xff) as u8);
    buf.push(((x >> 56) & 0xff) as u8);
    proof {
        reveal(le8);
        assert(buf@ =~= old(buf)@ + le8(x));
    }
}

/// Appends a length-prefixed byte field.
pub fn write_bytes_field(buf: &mut Vec<u8>, field: &Vec<u8>)
    ensures
        final (buf)@ == old(buf)@ + field_block(field@),
{
    write_u64(buf, field.len() as u64);
    let ghost mid = buf@;
    let mut i: usize = 0;
    while i < field.len()
        invariant
            i <= field@.len(),
            buf@ == mid + field@.take(i as int),
        decreases field@.len() - i,
    {
        buf.push(field[i]);
        proof {
            assert(mid + field@.take(i as int + 1) =~= (mid + field@.take(i as int)).push(
                field@[i as int],
            ));
        }
        i += 1;
    }
    proof {
        assert(field@.take(field@.len() as int) =~= field@);
        assert(le8(field@.len() as u64).len() == 8) by {
            reveal(le8);
        }
        assert(buf@ =~= old(buf)@ + field_block(field@));
    }
}

/// Reads the scalar at `pos`, exactly as `rd_u64` says.
pub fn read_u64_at(buf: &Vec<u8>, pos: usize) -> (r: Option<(u64, usize)>)
    ensures
        match r {
            Some((x, p2)) => rd_u64(buf@, pos as int) == Some((x, p2 as int)),
            None => rd_u64(buf@, pos as int) is None,
        },
{
    if buf.len() < 8 || pos > buf.len() - 8 {
        return None;
    }
    let x = (buf[pos] as u64) | ((buf[pos + 1] as u64) << 8) | ((buf[pos + 2] as u64) << 16) | ((
    buf[pos + 3] as u64) << 24) | ((buf[pos + 4] as u64) << 32) | ((buf[pos + 5] as u64) << 40) | ((
    buf[pos + 6] as u64) << 48) | ((buf[pos + 7] as u64) << 56);
    proof {
        reveal(from_le8);
        let s = buf@.subrange(pos as int, pos as int + 8);
        assert(s[0] == buf@[pos as int]);
        assert(s[1] == buf@[pos as int + 1]);
        assert(s[2] == buf@[pos as int + 2]);
        assert(s[3] == buf@[pos as int + 3]);
        assert(s[4] == buf@[pos as int + 4]);
        assert(s[5] == buf@[pos as int + 5]);
        assert(s[6] == buf@[pos as int + 6]);
        assert(s[7] == buf@[pos as int + 7]);
        assert(x == from_le8(s));
    }
    Some((x, pos + 8))
}

/// Reads the length-prefixed byte field at `pos`, exactly as `rd_field`
/// says.
pub fn read_bytes_field(buf: &Vec<u8>, pos: usize) -> (r: Option<(Vec<u8>, usize)>)
    ensures
        match r {
            Some((f, p2)) => rd_field(buf@, pos as int) == Some((f@, p2 as int)),
            None => rd_field(buf@, pos as int) is None,
        },
{
    match read_u64_at(buf, pos) {
        None => None,
        Some((n, p)) => {
            if n > (buf.len() - p) as u64 {
                return None;
            }
            let nn = n as usize;
            let mut f: Vec<u8> = Vec::new();
            let mut i: usize = 0;
            while i < nn
                invariant
                    i <= nn,
                    p + nn <= buf@.len(),
                    p + nn <= usize::MAX,
                    f@ == buf@.subrange(p as int, p as int + i as int),
                decreases nn - i,
            {
                f.push(buf[p + i]);
                proof {
                    assert(buf@.subrange(p as int, p as int + i as int + 1) =~= buf@.subrange(
                        p as int,
                        p as int + i as int,
                    ).push(buf@[p as int + i as int]));
                }
                i += 1;
            }
            Some((f, p + nn))
        },
    }
}

/// A field written after any prefix reads back as itself, from the prefix's
/// end.
pub proof fn lemma_rd_field_of_written(before: Seq<u8>, field: Seq<u8>, after: Seq<u8>)
    requires
        field.len() <= u64::MAX,
    ensures
        rd_field(before + field_block(field) + after, before.len() as int) == Some(
            (field, before.len() as int + 8 + field.len() as int),
        ),
{
    lemma_le8_len(field.len() as u64);
    let b = before + field_block(field) + after;
    let pos = before.len() as int;
    assert(b.subrange(pos, pos + 8) =~= le8(field.len() as u64));
    lemma_le8_roundtrip(field.len() as u64);
    assert(rd_u64(b, pos) == Some((field.len() as u64, pos + 8)));
    assert(b.subrange(pos + 8, pos + 8 + field.len()) =~= field);
}

/// A scalar written after any prefix reads back as itself, from the prefix's
/// end.
pub proof fn lemma_rd_u64_of_written(before: Seq<u8>, x: u64, after: Seq<u8>)
    ensures
        rd_u64(before + le8(x) + after, before.len() as int) == Some((x, before.len() as int + 8)),
{
    lemma_le8_len(x);
    let b = before + le8(x) + after;
    let pos = before.len() as int;
    assert(b.subrange(pos, pos + 8) =~= le8(x));
    lemma_le8_roundtrip(x);
}

} // verus!
