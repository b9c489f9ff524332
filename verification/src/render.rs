//! Fixed-width hex/ASCII dump rendering.
//!
//! A dump line shows an absolute file offset (lowercase hex, zero-padded to
//! at least eight digits, two spaces), up to sixteen byte cells of two
//! lowercase hex digits and a space (one extra space after the eighth cell),
//! blank padding for the missing cells of a short final line, and the bytes
//! again as printable ASCII between pipe delimiters. A window of bytes is
//! rendered as one such line per sixteen bytes; a whole dump ends with a
//! trailing line holding only the end-of-file offset, then a blank line.
//!
//! Every rendered byte is pinned by the spec functions below: the exec
//! builders append exactly the sequence the model describes.

use vstd::prelude::*;

verus! {

/// The lowercase hex digit for a value below sixteen: `'0'..'9'` then `'a'..'f'`.
pub open spec fn hex_digit(n: int) -> u8 {
    if n < 10 {
        (48 + n) as u8
    } else {
        (87 + n) as u8
    }
}

/// Two lowercase hex digits for one byte, high nibble first.
pub open spec fn hex_pair(b: u8) -> Seq<u8> {
    seq![hex_digit(b as int / 16), hex_digit(b as int % 16)]
}

/// The hex digits of `n` without padding, most significant first.
pub open spec fn hex_rep(n: nat) -> Seq<u8>
    decreases n,
{
    if n < 16 {
        seq![hex_digit(n as int)]
    } else {
        hex_rep(n / 16) + seq![hex_digit((n % 16) as int)]
    }
}

/// `k` ASCII zero digits (empty when `k <= 0`).
pub open spec fn zeros(k: int) -> Seq<u8>
    decreases k,
{
    if k <= 0 {
        Seq::<u8>::empty()
    } else {
        zeros(k - 1).push(48)
    }
}

/// The offset digits: hex, zero-padded on the left to at least eight digits.
pub open spec fn offset_rep(n: nat) -> Seq<u8> {
    zeros(8 - hex_rep(n).len()) + hex_rep(n)
}

/// The offset column: the padded digits followed by two spaces.
pub open spec fn offset_col(n: nat) -> Seq<u8> {
    offset_rep(n) + seq![32u8, 32u8]
}

/// Hex cell `i` of a line: two digits and a space, with one extra space
/// after the eighth cell to separate the two half-rows.
pub open spec fn hex_cell(line: Seq<u8>, i: int) -> Seq<u8> {
    hex_pair(line[i]) + (if i == 7 {
        seq![32u8, 32u8]
    } else {
        seq![32u8]
    })
}

/// The first `i` hex cells of a line, concatenated.
pub open spec fn hex_area_upto(line: Seq<u8>, i: int) -> Seq<u8>
    decreases i,
{
    if i <= 0 {
        Seq::<u8>::empty()
    } else {
        hex_area_upto(line, i - 1) + hex_cell(line, i - 1)
    }
}

/// The whole hex column of a line.
pub open spec fn hex_area(line: Seq<u8>) -> Seq<u8> {
    hex_area_upto(line, line.len() as int)
}

/// A byte's rendering in the ASCII column: itself when printable in the
/// ASCII range, else a dot.
pub open spec fn ascii_glyph(b: u8) -> u8 {
    if 32 <= b && b <= 126 {
        b
    } else {
        46
    }
}

/// The first `i` ASCII-column glyphs of a line.
pub open spec fn ascii_area_upto(line: Seq<u8>, i: int) -> Seq<u8>
    decreases i,
{
    if i <= 0 {
        Seq::<u8>::empty()
    } else {
        ascii_area_upto(line, i - 1).push(ascii_glyph(line[i - 1]))
    }
}

/// The whole ASCII column of a line.
pub open spec fn ascii_area(line: Seq<u8>) -> Seq<u8> {
    ascii_area_upto(line, line.len() as int)
}

/// `k` blank hex cells of three spaces each (empty when `k <= 0`).
pub open spec fn triple_spaces(k: int) -> Seq<u8>
    decreases k,
{
    if k <= 0 {
        Seq::<u8>::empty()
    } else {
        triple_spaces(k - 1) + seq![32u8, 32u8, 32u8]
    }
}

/// Padding between the hex cells of a line of `l` bytes and the ASCII
/// column: three spaces per missing cell, the half-row gap when the line
/// ends before the eighth cell, then a space and the opening pipe.
pub open spec fn pad_area(l: int) -> Seq<u8> {
    triple_spaces(16 - l) + (if l < 8 {
        seq![32u8]
    } else {
        Seq::<u8>::empty()
    }) + seq![32u8, 124u8]
}

/// One rendered dump line for up to sixteen bytes at absolute `offset`.
pub open spec fn line_rep(offset: nat, line: Seq<u8>) -> Seq<u8> {
    offset_col(offset) + hex_area(line) + pad_area(line.len() as int) + ascii_area(line) + seq![
        124u8,
        10u8,
    ]
}

/// The rendering of a whole byte window at absolute `offset`: one line per
/// sixteen bytes, the last line possibly shorter, and nothing for an empty
/// window.
pub open spec fn window_rep(offset: nat, bytes: Seq<u8>) -> Seq<u8>
    decreases bytes.len(),
{
    if bytes.len() == 0 {
        Seq::<u8>::empty()
    } else if bytes.len() <= 16 {
        line_rep(offset, bytes)
    } else {
        line_rep(offset, bytes.take(16)) + window_rep((offset + 16) as nat, bytes.skip(16))
    }
}

/// The end-of-dump marker: a line holding only the final offset's padded
/// digits, then a blank line.
pub open spec fn trailer_rep(end: nat) -> Seq<u8> {
    offset_rep(end) + seq![10u8, 10u8]
}

/// The full dump of a file's bytes: every line, then the trailer; a
/// zero-byte file produces no output at all.
pub open spec fn file_dump_rep(bytes: Seq<u8>) -> Seq<u8> {
    if bytes.len() == 0 {
        Seq::<u8>::empty()
    } else {
        window_rep(0, bytes) + trailer_rep(bytes.len())
    }
}

fn hex_digit_of(n: u8) -> (r: u8)
    requires
        n < 16,
    ensures
        r == hex_digit(n as int),
{
    if n < 10 {
        48 + n
    } else {
        87 + n
    }
}

fn push_hex_pair(out: &mut Vec<u8>, b: u8)
    ensures
        final(out)@ == old(out)@ + hex_pair(b),
{
    out.push(hex_digit_of(b / 16));
    out.push(hex_digit_of(b % 16));
    proof {
        assert(out@ =~= old(out)@ + hex_pair(b));
    }
}

fn hex_digits_vec(n: u64) -> (r: Vec<u8>)
    ensures
        r@ == hex_rep(n as nat),
    decreases n,
{
    if n < 16 {
        let mut v: Vec<u8> = Vec::new();
        v.push(hex_digit_of(n as u8));
        proof {
            assert(v@ =~= hex_rep(n as nat));
        }
        v
    } else {
        let mut v = hex_digits_vec(n / 16);
        v.push(hex_digit_of((n % 16) as u8));
        proof {
            assert(v@ =~= hex_rep(n as nat));
        }
        v
    }
}

fn push_offset_digits(out: &mut Vec<u8>, n: u64)
    ensures
        final(out)@ == old(out)@ + offset_rep(n as nat),
{
    let digits = hex_digits_vec(n);
    let pad: usize = if digits.len() < 8 {
        8 - digits.len()
    } else {
        0
    };
    proof {
        assert(out@ =~= out@ + zeros(0));
    }
    let mut i: usize = 0;
    while i < pad
        invariant
            i <= pad,
            out@ == old(out)@ + zeros(i as int),
        decreases pad - i,
    {
        out.push(48);
        proof {
            assert(out@ =~= old(out)@ + zeros(i + 1));
        }
        i += 1;
    }
    proof {
        assert(zeros(pad as int) =~= zeros(8 - hex_rep(n as nat).len()));
    }
    let mut j: usize = 0;
    while j < digits.len()
        invariant
            j <= digits@.len(),
            digits@ == hex_rep(n as nat),
            pad as int == if hex_rep(n as nat).len() < 8 {
                8 - hex_rep(n as nat).len()
            } else {
                0
            },
            out@ == old(out)@ + zeros(pad as int) + digits@.subrange(0, j as int),
        decreases digits@.len() - j,
    {
        let d: u8 = digits[j];
        out.push(d);
        proof {
            assert(out@ =~= old(out)@ + zeros(pad as int) + digits@.subrange(0, j + 1));
        }
        j += 1;
    }
    proof {
        assert(digits@.subrange(0, digits@.len() as int) =~= digits@);
        assert(out@ =~= old(out)@ + offset_rep(n as nat));
    }
}

fn push_offset_col(out: &mut Vec<u8>, n: u64)
    ensures
        final(out)@ == old(out)@ + offset_col(n as nat),
{
    push_offset_digits(out, n);
    out.push(32);
    out.push(32);
    proof {
        assert(out@ =~= old(out)@ + offset_col(n as nat));
    }
}

fn glyph_of(b: u8) -> (r: u8)
    ensures
        r == ascii_glyph(b),
{
    if 32 <= b && b <= 126 {
        b
    } else {
        46
    }
}

fn push_hex_area(out: &mut Vec<u8>, bytes: &[u8], start: usize, end: usize)
    requires
        start <= end,
        end <= bytes@.len(),
        end - start <= 16,
    ensures
        final(out)@ == old(out)@ + hex_area(bytes@.subrange(start as int, end as int)),
{
    let ghost line = bytes@.subrange(start as int, end as int);
    proof {
        assert(out@ =~= out@ + hex_area_upto(line, 0));
    }
    let mut k: usize = 0;
    while k < end - start
        invariant
            start <= end,
            end <= bytes@.len(),
            end - start <= 16,
            k <= end - start,
            line == bytes@.subrange(start as int, end as int),
            out@ == old(out)@ + hex_area_upto(line, k as int),
        decreases end - start - k,
    {
        let b: u8 = bytes[start + k];
        proof {
            assert(b == line[k as int]);
        }
        push_hex_pair(out, b);
        out.push(32);
        if k == 7 {
            out.push(32);
        }
        proof {
            assert(out@ =~= old(out)@ + hex_area_upto(line, k + 1));
        }
        k += 1;
    }
    proof {
        assert(line.len() == end - start);
    }
}

fn push_ascii_area(out: &mut Vec<u8>, bytes: &[u8], start: usize, end: usize)
    requires
        start <= end,
        end <= bytes@.len(),
    ensures
        final(out)@ == old(out)@ + ascii_area(bytes@.subrange(start as int, end as int)),
{
    let ghost line = bytes@.subrange(start as int, end as int);
    proof {
        assert(out@ =~= out@ + ascii_area_upto(line, 0));
    }
    let mut k: usize = 0;
    while k < end - start
        invariant
            start <= end,
            end <= bytes@.len(),
            k <= end - start,
            line == bytes@.subrange(start as int, end as int),
            out@ == old(out)@ + ascii_area_upto(line, k as int),
        decreases end - start - k,
    {
        let b: u8 = bytes[start + k];
        proof {
            assert(b == line[k as int]);
        }
        out.push(glyph_of(b));
        proof {
            assert(out@ =~= old(out)@ + ascii_area_upto(line, k + 1));
        }
        k += 1;
    }
    proof {
        assert(line.len() == end - start);
    }
}

fn push_pad_area(out: &mut Vec<u8>, l: usize)
    requires
        l <= 16,
    ensures
        final(out)@ == old(out)@ + pad_area(l as int),
{
    proof {
        assert(out@ =~= out@ + triple_spaces(0));
    }
    let mut k: usize = 0;
    while k < 16 - l
        invariant
            l <= 16,
            k <= 16 - l,
            out@ == old(out)@ + triple_spaces(k as int),
        decreases 16 - l - k,
    {
        out.push(32);
        out.push(32);
        out.push(32);
        proof {
            assert(out@ =~= old(out)@ + triple_spaces(k + 1));
        }
        k += 1;
    }
    if l < 8 {
        out.push(32);
    }
    out.push(32);
    out.push(124);
    proof {
        assert(out@ =~= old(out)@ + pad_area(l as int));
    }
}

fn push_line(out: &mut Vec<u8>, bytes: &[u8], start: usize, end: usize, offset: u64)
    requires
        start <= end,
        end <= bytes@.len(),
        end - start <= 16,
    ensures
        final(out)@ == old(out)@ + line_rep(offset as nat, bytes@.subrange(start as int, end as int)),
{
    push_offset_col(out, offset);
    push_hex_area(out, bytes, start, end);
    push_pad_area(out, end - start);
    push_ascii_area(out, bytes, start, end);
    out.push(124);
    out.push(10);
    proof {
        assert(out@ =~= old(out)@ + line_rep(
            offset as nat,
            bytes@.subrange(start as int, end as int),
        ));
    }
}

/// Append the rendering of one byte window that starts at absolute file
/// offset `offset`: one dump line per sixteen bytes, the last line possibly
/// shorter, nothing for an empty window.
pub fn dump_window(out: &mut Vec<u8>, bytes: &[u8], offset: u64)
    requires
        offset as nat + bytes@.len() <= u64::MAX,
    ensures
        final(out)@ == old(out)@ + window_rep(offset as nat, bytes@),
{
    let len: usize = bytes.len();
    proof {
        assert(bytes@.skip(0) =~= bytes@);
        assert(out@ =~= out@ + Seq::<u8>::empty());
    }
    let mut i: usize = 0;
    while i < len
        invariant
            i <= len,
            len == bytes@.len(),
            offset as nat + len as nat <= u64::MAX,
            out@ + window_rep(offset as nat + i as nat, bytes@.skip(i as int)) == old(out)@
                + window_rep(offset as nat, bytes@),
        decreases len - i,
    {
        let end: usize = if len - i > 16 {
            i + 16
        } else {
            len
        };
        let ghost rest = bytes@.skip(i as int);
        let ghost prev = out@;
        push_line(out, bytes, i, end, offset + (i as u64));
        proof {
            let line = bytes@.subrange(i as int, end as int);
            if rest.len() <= 16 {
                assert(line =~= rest);
                assert(bytes@.skip(end as int) =~= Seq::<u8>::empty());
                assert(window_rep(offset as nat + i as nat, rest) == line_rep(
                    offset as nat + i as nat,
                    rest,
                ));
                assert(out@ + window_rep(offset as nat + end as nat, bytes@.skip(end as int)) =~=
                    prev + window_rep(offset as nat + i as nat, rest));
            } else {
                assert(line =~= rest.take(16));
                assert(bytes@.skip(end as int) =~= rest.skip(16));
                assert(window_rep(offset as nat + i as nat, rest) == line_rep(
                    offset as nat + i as nat,
                    rest.take(16),
                ) + window_rep(offset as nat + i as nat + 16, rest.skip(16)));
                assert(out@ + window_rep(offset as nat + end as nat, bytes@.skip(end as int)) =~=
                    prev + window_rep(offset as nat + i as nat, rest));
            }
        }
        i = end;
    }
    proof {
        assert(bytes@.skip(len as int) =~= Seq::<u8>::empty());
        assert(out@ =~= old(out)@ + window_rep(offset as nat, bytes@));
    }
}

/// Append the end-of-dump marker for a file whose size is `end`: the final
/// offset's digits alone on a line of their own, then a blank line.
pub fn dump_trailer(out: &mut Vec<u8>, end: u64)
    ensures
        final(out)@ == old(out)@ + trailer_rep(end as nat),
{
    push_offset_digits(out, end);
    out.push(10);
    out.push(10);
    proof {
        assert(out@ =~= old(out)@ + trailer_rep(end as nat));
    }
}

/// Render the complete dump of a byte sequence taken as a whole file:
/// every dump line, then the trailer; empty input yields empty output.
pub fn dump_bytes(bytes: &[u8]) -> (r: Vec<u8>)
    requires
        bytes@.len() <= u64::MAX,
    ensures
        r@ == file_dump_rep(bytes@),
{
    let mut out: Vec<u8> = Vec::new();
    if bytes.len() > 0 {
        dump_window(&mut out, bytes, 0);
        dump_trailer(&mut out, bytes.len() as u64);
    }
    proof {
        assert(out@ =~= file_dump_rep(bytes@));
    }
    out
}

} // verus!
