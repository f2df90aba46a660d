//! The fallback view of a binary file: a hex dump of its first 2 KB.

use vstd::prelude::*;
use crate::fmt::{
    all_digits_in, digits, digits_value, lemma_digits_len, lemma_zero_pad_reads, push_hex, zero_pad,
};
use crate::text::{append_chars, append_str, concat_all, join, string_of};

verus! {

/// The character a byte shows as in the right column: itself when it is
/// printable ASCII, `.` otherwise.
pub open spec fn shown_as(b: u8) -> char {
    if 0x20 <= b && b < 0x7f {
        b as char
    } else {
        '.'
    }
}

/// A byte as two lowercase hex digits.
pub open spec fn hex_byte(b: u8) -> Seq<char> {
    zero_pad(digits(b as nat, 16), 2)
}

/// `s` padded on the right with spaces to `width` characters (`{:<width}`).
pub open spec fn pad_right(s: Seq<char>, width: nat) -> Seq<char> {
    if s.len() >= width {
        s
    } else {
        s + Seq::new((width - s.len()) as nat, |i: int| ' ')
    }
}

/// The dump line of the 16-byte chunk `chunk` that starts at `offset`:
/// the offset in eight hex digits, the bytes in hex, and the bytes as text.
pub open spec fn dump_line(offset: nat, chunk: Seq<u8>) -> Seq<char> {
    zero_pad(digits(offset, 16), 8) + "  "@ + pad_right(
        join(chunk.map_values(|b: u8| hex_byte(b)), seq![' ']),
        47,
    ) + "  "@ + chunk.map_values(|b: u8| shown_as(b)) + seq!['\n']
}

/// The number of dump lines: one per 16 bytes, at most 128.
pub open spec fn dump_line_count(len: nat) -> nat {
    let n = (len + 15) / 16;
    if n > 128 {
        128
    } else {
        n
    }
}

/// The chunk of 16 bytes (fewer at the end) that line `i` shows.
pub open spec fn chunk_of(bytes: Seq<u8>, i: int) -> Seq<u8> {
    let end = if 16 * i + 16 <= bytes.len() {
        16 * i + 16
    } else {
        bytes.len() as int
    };
    bytes.subrange(16 * i, end)
}

/// The hex view of a file's bytes, or the notice that it could not be read.
pub open spec fn dump_text(bytes: Result<Seq<u8>, Seq<char>>) -> Seq<char> {
    match bytes {
        Ok(b) => "(binary file \u{2014} first 2 KB)\n\n"@ + concat_all(
            Seq::new(dump_line_count(b.len()), |i: int| dump_line((16 * i) as nat, chunk_of(b, i))),
        ),
        Err(e) => "cannot read file: "@ + e,
    }
}

/// Line `l` of a dump shows the bytes `chunk` found at `offset`: it starts
/// with eight hex digits that read as `offset`, then each byte as two hex
/// digits at columns 10, 13, 16, ..., then from column 59 each byte as
/// itself when printable ASCII and `.` otherwise, and ends the line.
pub open spec fn line_shows(l: Seq<char>, offset: int, chunk: Seq<u8>) -> bool {
    &&& l.len() == 60 + chunk.len()
    &&& all_digits_in(l.take(8), 16)
    &&& digits_value(l.take(8), 16) == offset
    &&& forall|j: int|
        0 <= j < chunk.len() ==> all_digits_in(#[trigger] l.subrange(10 + 3 * j, 12 + 3 * j), 16)
            && digits_value(l.subrange(10 + 3 * j, 12 + 3 * j), 16) == chunk[j] as int
    &&& forall|j: int|
        0 <= j < chunk.len() ==> #[trigger] l[59 + j] == (if 0x20 <= chunk[j] && chunk[j] < 0x7f {
            chunk[j] as char
        } else {
            '.'
        })
    &&& l[l.len() - 1] == '\n'
}

/// Pieces of two characters joined by spaces: three characters per piece
/// but the last, each piece at a multiple of three.
proof fn lemma_join_pairs(ps: Seq<Seq<char>>)
    requires
        ps.len() >= 1,
        forall|j: int| 0 <= j < ps.len() ==> (#[trigger] ps[j]).len() == 2,
    ensures
        join(ps, seq![' ']).len() == 3 * ps.len() - 1,
        forall|j: int|
            0 <= j < ps.len() ==> #[trigger] join(ps, seq![' ']).subrange(3 * j, 3 * j + 2) == ps[j],
    decreases ps.len(),
{
    if ps.len() == 1 {
        assert(ps[0].subrange(0, 2) =~= ps[0]);
    } else {
        let d = ps.drop_last();
        assert forall|j: int| 0 <= j < d.len() implies (#[trigger] d[j]).len() == 2 by {
            assert(d[j] == ps[j]);
        }
        lemma_join_pairs(d);
        let jd = join(d, seq![' ']);
        let jp = join(ps, seq![' ']);
        assert(jp == jd + seq![' '] + ps.last());
        assert forall|j: int| 0 <= j < ps.len() implies #[trigger] jp.subrange(3 * j, 3 * j + 2)
            == ps[j] by {
            if j < d.len() {
                assert(jd.subrange(3 * j, 3 * j + 2) == d[j]);
                assert(jp.subrange(3 * j, 3 * j + 2) =~= jd.subrange(3 * j, 3 * j + 2));
                assert(d[j] == ps[j]);
            } else {
                assert(jp.subrange(3 * j, 3 * j + 2) =~= ps.last());
            }
        }
    }
}

/// A byte in hex is two digits that read back as the byte.
proof fn lemma_hex_byte(b: u8)
    ensures
        hex_byte(b).len() == 2,
        all_digits_in(hex_byte(b), 16),
        digits_value(hex_byte(b), 16) == b as int,
{
    lemma_digits_len(b as nat, 16);
    lemma_zero_pad_reads(b as nat, 16, 2);
}

/// A dump line shows its chunk at its offset.
proof fn lemma_dump_line_shows(offset: nat, chunk: Seq<u8>)
    requires
        offset < 4096,
        1 <= chunk.len() <= 16,
    ensures
        line_shows(dump_line(offset, chunk), offset as int, chunk),
{
    reveal_strlit("  ");
    lemma_digits_len(offset, 16);
    lemma_zero_pad_reads(offset, 16, 8);
    let o = zero_pad(digits(offset, 16), 8);
    let ps = chunk.map_values(|b: u8| hex_byte(b));
    assert forall|j: int| 0 <= j < ps.len() implies (#[trigger] ps[j]).len() == 2 by {
        lemma_hex_byte(chunk[j]);
    }
    lemma_join_pairs(ps);
    let jn = join(ps, seq![' ']);
    let pj = pad_right(jn, 47);
    assert(pj == jn + Seq::new((47 - jn.len()) as nat, |i: int| ' '));
    let a = chunk.map_values(|b: u8| shown_as(b));
    let l = dump_line(offset, chunk);
    assert(l == o + "  "@ + pj + "  "@ + a + seq!['\n']);
    assert(l.take(8) =~= o);
    assert forall|j: int| 0 <= j < chunk.len() implies all_digits_in(
        #[trigger] l.subrange(10 + 3 * j, 12 + 3 * j),
        16,
    ) && digits_value(l.subrange(10 + 3 * j, 12 + 3 * j), 16) == chunk[j] as int by {
        lemma_hex_byte(chunk[j]);
        assert(jn.subrange(3 * j, 3 * j + 2) == ps[j]);
        assert(l.subrange(10 + 3 * j, 12 + 3 * j) =~= jn.subrange(3 * j, 3 * j + 2));
    }
    assert forall|j: int| 0 <= j < chunk.len() implies #[trigger] l[59 + j] == (if 0x20 <= chunk[j]
        && chunk[j] < 0x7f {
        chunk[j] as char
    } else {
        '.'
    }) by {
        assert(l[59 + j] == a[j]);
    }
}

/// A hex dump is its header line, a blank line and one line per 16 bytes
/// (at most 128): line `i` shows the bytes from `16 * i` on, up to 16 of
/// them, at offset `16 * i`.
pub proof fn law_dump_lines(b: Seq<u8>)
    ensures
        exists|ls: Seq<Seq<char>>|
            {
                &&& ls.len() == dump_line_count(b.len())
                &&& dump_text(Ok(b)) == "(binary file \u{2014} first 2 KB)\n\n"@ + concat_all(ls)
                &&& forall|i: int|
                    0 <= i < ls.len() ==> line_shows(
                        #[trigger] ls[i],
                        16 * i,
                        b.subrange(
                            16 * i,
                            if 16 * i + 16 <= b.len() {
                                16 * i + 16
                            } else {
                                b.len() as int
                            },
                        ),
                    )
            },
{
    let ls = Seq::new(dump_line_count(b.len()), |i: int| dump_line((16 * i) as nat, chunk_of(b, i)));
    assert forall|i: int| 0 <= i < ls.len() implies line_shows(
        #[trigger] ls[i],
        16 * i,
        b.subrange(
            16 * i,
            if 16 * i + 16 <= b.len() {
                16 * i + 16
            } else {
                b.len() as int
            },
        ),
    ) by {
        assert(i < 128);
        assert(16 * i < b.len()) by {
            assert(i < (b.len() + 15) / 16);
        }
        lemma_dump_line_shows((16 * i) as nat, chunk_of(b, i));
    }
}

fn push_dump_line(out: &mut Vec<char>, offset: usize, bytes: &[u8], start: usize, end: usize)
    requires
        start <= end <= bytes@.len(),
        end - start <= 16,
    ensures
        final(out)@ == old(out)@ + dump_line(offset as nat, bytes@.subrange(start as int, end as int)),
{
    let ghost chunk = bytes@.subrange(start as int, end as int);
    let ghost o = out@;
    push_hex(out, offset as u64, 8);
    append_str(out, "  ");
    let ghost before_hex = out@;
    // The bytes in hex, separated by spaces.
    let mut hex: Vec<char> = Vec::new();
    let mut i = start;
    while i < end
        invariant
            start <= i <= end <= bytes@.len(),
            hex@ == join(
                bytes@.subrange(start as int, i as int).map_values(|b: u8| hex_byte(b)),
                seq![' '],
            ),
        decreases end - i,
    {
        let ghost hs = bytes@.subrange(start as int, i as int).map_values(|b: u8| hex_byte(b));
        let ghost hs2 = bytes@.subrange(start as int, i + 1).map_values(|b: u8| hex_byte(b));
        assert(hs2.drop_last() =~= hs);
        assert(hs2.last() == hex_byte(bytes@[i as int]));
        if i > start {
            hex.push(' ');
        }
        push_hex(&mut hex, bytes[i] as u64, 2);
        assert(i == start ==> hex@ =~= hs2[0]);
        assert(i > start ==> hex@ =~= join(hs, seq![' ']) + seq![' '] + hs2.last());
        i = i + 1;
    }
    append_chars(out, &hex);
    let mut k = hex.len();
    while k < 47
        invariant
            hex@.len() <= k <= 47 || (k == hex@.len() && k >= 47),
            out@ == before_hex + hex@ + Seq::new((k - hex@.len()) as nat, |j: int| ' '),
        decreases 47 - k,
    {
        out.push(' ');
        k = k + 1;
        assert(out@ =~= before_hex + hex@ + Seq::new((k - hex@.len()) as nat, |j: int| ' '));
    }
    assert(before_hex + hex@ + Seq::new((k - hex@.len()) as nat, |j: int| ' ') =~= before_hex
        + pad_right(hex@, 47));
    append_str(out, "  ");
    let ghost before_ascii = out@;
    let mut i = start;
    while i < end
        invariant
            start <= i <= end <= bytes@.len(),
            out@ == before_ascii + bytes@.subrange(start as int, i as int).map_values(
                |b: u8| shown_as(b),
            ),
        decreases end - i,
    {
        let b = bytes[i];
        let c = if 0x20 <= b && b < 0x7f {
            b as char
        } else {
            '.'
        };
        assert(c == shown_as(b));
        out.push(c);
        assert(bytes@.subrange(start as int, i + 1).map_values(|b: u8| shown_as(b)) =~= bytes@.subrange(
            start as int,
            i as int,
        ).map_values(|b: u8| shown_as(b)).push(c));
        i = i + 1;
    }
    out.push('\n');
    assert(out@ =~= o + dump_line(offset as nat, chunk));
}

/// The hex view of a file: its first 2 KB in lines of 16 bytes, or the
/// notice that it could not be read (with the error).
pub fn render_hex(bytes: Result<&[u8], &str>) -> (r: String)
    ensures
        r@ == dump_text(
            match bytes {
                Ok(b) => Ok(b@),
                Err(e) => Err(e@),
            },
        ),
{
    match bytes {
        Err(e) => {
            let mut out: Vec<char> = Vec::new();
            append_str(&mut out, "cannot read file: ");
            append_str(&mut out, e);
            string_of(&out)
        },
        Ok(b) => {
            let mut out: Vec<char> = Vec::new();
            append_str(&mut out, "(binary file \u{2014} first 2 KB)\n\n");
            let ghost head = out@;
            let len = b.len();
            let lines: usize = if len / 16 + (if len % 16 > 0 { 1usize } else { 0usize }) > 128 {
                128
            } else {
                len / 16 + (if len % 16 > 0 { 1usize } else { 0usize })
            };
            assert(lines == dump_line_count(len as nat));
            let ghost ls = Seq::new(
                dump_line_count(b@.len()),
                |i: int| dump_line((16 * i) as nat, chunk_of(b@, i)),
            );
            for i in 0..lines
                invariant
                    len == b@.len(),
                    lines == dump_line_count(len as nat),
                    lines <= 128,
                    ls == Seq::new(
                        dump_line_count(b@.len()),
                        |i: int| dump_line((16 * i) as nat, chunk_of(b@, i)),
                    ),
                    out@ == head + concat_all(ls.take(i as int)),
            {
                let start = 16 * i;
                let end = if start + 16 <= len {
                    start + 16
                } else {
                    len
                };
                push_dump_line(&mut out, start, b, start, end);
                assert(ls.take(i + 1).drop_last() =~= ls.take(i as int));
                assert(ls[i as int] == dump_line(start as nat, b@.subrange(start as int, end as int)));
            }
            assert(ls.take(lines as int) =~= ls);
            string_of(&out)
        },
    }
}

} // verus!
