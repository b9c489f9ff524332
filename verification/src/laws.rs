//! Proved properties of the dump rendering and of the paging arithmetic.
//!
//! Each public proof function here states one guarantee of the library as a
//! whole: how many lines a dump holds, which offset every line displays,
//! that the hex cells of a line determine the bytes that produced it, that
//! rendering is a pure function of its input, how many windows a file
//! takes, and that the hex and ASCII columns of every line share one
//! geometry.

use vstd::arithmetic::div_mod::{
    lemma_basic_div,
    lemma_div_by_self,
    lemma_div_plus_one,
    lemma_fundamental_div_mod,
    lemma_mod_multiples_basic,
    lemma_mod_sub_multiples_vanish,
    lemma_small_mod,
};
use vstd::prelude::*;

use crate::paging::window_count;
use crate::render::{
    ascii_area,
    ascii_area_upto,
    ascii_glyph,
    file_dump_rep,
    hex_area,
    hex_area_upto,
    hex_cell,
    hex_digit,
    hex_pair,
    hex_rep,
    line_rep,
    offset_col,
    offset_rep,
    pad_area,
    trailer_rep,
    triple_spaces,
    window_rep,
    zeros,
};

verus! {

/// How many newline bytes a rendered sequence holds; every dump line ends
/// in exactly one, so this counts the lines of a dump.
pub open spec fn newline_count(s: Seq<u8>) -> nat
    decreases s.len(),
{
    if s.len() == 0 {
        0
    } else {
        newline_count(s.drop_last()) + (if s.last() == 10 {
            1nat
        } else {
            0nat
        })
    }
}

proof fn lemma_nc_add(a: Seq<u8>, b: Seq<u8>)
    ensures
        newline_count(a + b) == newline_count(a) + newline_count(b),
    decreases b.len(),
{
    if b.len() == 0 {
        assert(a + b =~= a);
    } else {
        lemma_nc_add(a, b.drop_last());
        assert((a + b).drop_last() =~= a + b.drop_last());
        assert((a + b).last() == b.last());
    }
}

proof fn lemma_nc_singleton(x: u8)
    ensures
        newline_count(seq![x]) == (if x == 10 {
            1nat
        } else {
            0nat
        }),
{
    assert(newline_count(Seq::<u8>::empty()) == 0);
    assert(seq![x].drop_last() =~= Seq::<u8>::empty());
    assert(seq![x].last() == x);
}

proof fn lemma_nc_two(x: u8, y: u8)
    requires
        x != 10,
        y != 10,
    ensures
        newline_count(seq![x, y]) == 0,
{
    lemma_nc_singleton(x);
    assert(seq![x, y].drop_last() =~= seq![x]);
    assert(seq![x, y].last() == y);
}

proof fn lemma_nc_three_spaces()
    ensures
        newline_count(seq![32u8, 32u8, 32u8]) == 0,
{
    lemma_nc_two(32, 32);
    assert(seq![32u8, 32u8, 32u8].drop_last() =~= seq![32u8, 32u8]);
    assert(seq![32u8, 32u8, 32u8].last() == 32u8);
}

proof fn lemma_nc_zeros(k: int)
    ensures
        newline_count(zeros(k)) == 0,
    decreases k,
{
    if k > 0 {
        lemma_nc_zeros(k - 1);
        assert(zeros(k).drop_last() =~= zeros(k - 1));
        assert(zeros(k).last() == 48);
    }
}

proof fn lemma_nc_hex_rep(n: nat)
    ensures
        newline_count(hex_rep(n)) == 0,
    decreases n,
{
    if n < 16 {
        lemma_nc_singleton(hex_digit(n as int));
    } else {
        lemma_nc_hex_rep(n / 16);
        lemma_nc_singleton(hex_digit((n % 16) as int));
        lemma_nc_add(hex_rep(n / 16), seq![hex_digit((n % 16) as int)]);
    }
}

proof fn lemma_nc_offset_col(n: nat)
    ensures
        newline_count(offset_col(n)) == 0,
{
    lemma_nc_zeros(8 - hex_rep(n).len());
    lemma_nc_hex_rep(n);
    lemma_nc_add(zeros(8 - hex_rep(n).len()), hex_rep(n));
    lemma_nc_two(32, 32);
    lemma_nc_add(offset_rep(n), seq![32u8, 32u8]);
}

proof fn lemma_nc_hex_pair(b: u8)
    ensures
        newline_count(hex_pair(b)) == 0,
{
    lemma_nc_two(hex_digit(b as int / 16), hex_digit(b as int % 16));
    assert(hex_pair(b) =~= seq![hex_digit(b as int / 16), hex_digit(b as int % 16)]);
}

proof fn lemma_nc_hex_area_upto(line: Seq<u8>, i: int)
    ensures
        newline_count(hex_area_upto(line, i)) == 0,
    decreases i,
{
    if i > 0 {
        lemma_nc_hex_area_upto(line, i - 1);
        lemma_nc_hex_pair(line[i - 1]);
        if i - 1 == 7 {
            lemma_nc_two(32, 32);
            lemma_nc_add(hex_pair(line[i - 1]), seq![32u8, 32u8]);
        } else {
            lemma_nc_singleton(32);
            lemma_nc_add(hex_pair(line[i - 1]), seq![32u8]);
        }
        lemma_nc_add(hex_area_upto(line, i - 1), hex_cell(line, i - 1));
    }
}

proof fn lemma_nc_ascii_area_upto(line: Seq<u8>, i: int)
    ensures
        newline_count(ascii_area_upto(line, i)) == 0,
    decreases i,
{
    if i > 0 {
        lemma_nc_ascii_area_upto(line, i - 1);
        assert(ascii_area_upto(line, i).drop_last() =~= ascii_area_upto(line, i - 1));
        assert(ascii_area_upto(line, i).last() == ascii_glyph(line[i - 1]));
    }
}

proof fn lemma_nc_triple_spaces(k: int)
    ensures
        newline_count(triple_spaces(k)) == 0,
    decreases k,
{
    if k > 0 {
        lemma_nc_triple_spaces(k - 1);
        lemma_nc_three_spaces();
        lemma_nc_add(triple_spaces(k - 1), seq![32u8, 32u8, 32u8]);
    }
}

proof fn lemma_nc_pad_area(l: int)
    ensures
        newline_count(pad_area(l)) == 0,
{
    lemma_nc_triple_spaces(16 - l);
    if l < 8 {
        lemma_nc_singleton(32);
        lemma_nc_add(triple_spaces(16 - l), seq![32u8]);
        lemma_nc_add(triple_spaces(16 - l) + seq![32u8], seq![32u8, 124u8]);
    } else {
        assert(triple_spaces(16 - l) + Seq::<u8>::empty() =~= triple_spaces(16 - l));
        lemma_nc_add(triple_spaces(16 - l) + Seq::<u8>::empty(), seq![32u8, 124u8]);
    }
    lemma_nc_two(32, 124);
}

proof fn lemma_nc_line(offset: nat, line: Seq<u8>)
    ensures
        newline_count(line_rep(offset, line)) == 1,
{
    lemma_nc_offset_col(offset);
    lemma_nc_hex_area_upto(line, line.len() as int);
    lemma_nc_pad_area(line.len() as int);
    lemma_nc_ascii_area_upto(line, line.len() as int);
    lemma_nc_singleton(124);
    lemma_nc_add(seq![124u8], seq![10u8]);
    lemma_nc_singleton(10);
    assert(seq![124u8] + seq![10u8] =~= seq![124u8, 10u8]);
    lemma_nc_add(offset_col(offset), hex_area(line));
    lemma_nc_add(offset_col(offset) + hex_area(line), pad_area(line.len() as int));
    lemma_nc_add(
        offset_col(offset) + hex_area(line) + pad_area(line.len() as int),
        ascii_area(line),
    );
    lemma_nc_add(
        offset_col(offset) + hex_area(line) + pad_area(line.len() as int) + ascii_area(line),
        seq![124u8, 10u8],
    );
}

/// A window of `N` bytes renders as exactly `(N + 15) / 16` dump lines —
/// the ceiling of `N / 16`, and zero lines for an empty window.
pub proof fn lemma_dump_line_count(offset: nat, bytes: Seq<u8>)
    ensures
        newline_count(window_rep(offset, bytes)) == (bytes.len() + 15) / 16,
    decreases bytes.len(),
{
    if bytes.len() == 0 {
        lemma_basic_div(15, 16);
    } else if bytes.len() <= 16 {
        lemma_nc_line(offset, bytes);
        lemma_basic_div(bytes.len() - 1, 16);
        lemma_div_plus_one(bytes.len() - 1, 16);
    } else {
        lemma_dump_line_count((offset + 16) as nat, bytes.skip(16));
        lemma_nc_line(offset, bytes.take(16));
        lemma_nc_add(line_rep(offset, bytes.take(16)), window_rep((offset + 16) as nat, bytes.skip(16)));
        lemma_div_plus_one(bytes.len() - 1, 16);
    }
}

/// A dump splits at any whole-line boundary: rendering the first `k` bytes
/// and then the rest at the advanced offset is the same as rendering the
/// window in one piece. This is why paging a file in windows that are
/// multiples of sixteen bytes prints exactly the dump of the whole file.
pub proof fn lemma_window_split(bytes: Seq<u8>, offset: nat, k: int)
    requires
        0 <= k <= bytes.len(),
        k % 16 == 0,
    ensures
        window_rep(offset, bytes) == window_rep(offset, bytes.take(k)) + window_rep(
            (offset + k) as nat,
            bytes.skip(k),
        ),
    decreases k,
{
    if k == 0 {
        assert(bytes.take(0) =~= Seq::<u8>::empty());
        assert(bytes.skip(0) =~= bytes);
        assert(window_rep(offset, bytes.take(0)) + window_rep(offset, bytes) =~= window_rep(
            offset,
            bytes,
        ));
    } else {
        assert(k >= 16) by {
            if k < 16 {
                lemma_small_mod(k as nat, 16);
            }
        }
        if bytes.len() <= 16 {
            assert(bytes.take(k) =~= bytes);
            assert(bytes.skip(k) =~= Seq::<u8>::empty());
            assert(window_rep(offset, bytes.take(k)) + window_rep(
                (offset + k) as nat,
                bytes.skip(k),
            ) =~= window_rep(offset, bytes));
        } else if k == 16 {
            assert(bytes.take(k).len() == 16);
            assert(window_rep(offset, bytes.take(k)) == line_rep(offset, bytes.take(k)));
            assert(bytes.take(k) =~= bytes.take(16));
        } else {
            lemma_mod_sub_multiples_vanish(k, 16);
            lemma_window_split(bytes.skip(16), (offset + 16) as nat, k - 16);
            assert(bytes.skip(16).take(k - 16) =~= bytes.take(k).skip(16));
            assert(bytes.skip(16).skip(k - 16) =~= bytes.skip(k));
            assert(bytes.take(k).take(16) =~= bytes.take(16));
            assert(bytes.take(k).len() == k);
            assert(window_rep(offset, bytes.take(k)) == line_rep(offset, bytes.take(16))
                + window_rep((offset + 16) as nat, bytes.take(k).skip(16)));
            assert(window_rep(offset, bytes) =~= window_rep(offset, bytes.take(k)) + window_rep(
                (offset + k) as nat,
                bytes.skip(k),
            ));
        }
    }
}

/// Line `i` of a dump displays the offset `start + 16 * i`: the rendering
/// decomposes before that line, and what follows begins with exactly the
/// padded hex digits of `start + 16 * i`.
pub proof fn lemma_displayed_offset(bytes: Seq<u8>, start: nat, i: nat)
    requires
        16 * i < bytes.len(),
    ensures
        window_rep(start, bytes) == window_rep(start, bytes.take(16 * (i as int))) + window_rep(
            (start + 16 * i) as nat,
            bytes.skip(16 * (i as int)),
        ),
        window_rep((start + 16 * i) as nat, bytes.skip(16 * (i as int))).take(
            offset_rep((start + 16 * i) as nat).len() as int,
        ) == offset_rep((start + 16 * i) as nat),
{
    lemma_mod_multiples_basic(i as int, 16);
    assert((16 * (i as int)) % 16 == 0);
    lemma_window_split(bytes, start, 16 * (i as int));
    let o = (start + 16 * i) as nat;
    let tail = bytes.skip(16 * (i as int));
    assert(tail.len() > 0);
    if tail.len() <= 16 {
        assert(window_rep(o, tail) == line_rep(o, tail));
        assert(window_rep(o, tail).take(offset_rep(o).len() as int) =~= offset_rep(o));
    } else {
        assert(window_rep(o, tail) == line_rep(o, tail.take(16)) + window_rep(
            (o + 16) as nat,
            tail.skip(16),
        ));
        assert(window_rep(o, tail).take(offset_rep(o).len() as int) =~= offset_rep(o));
    }
}

/// What an ASCII hex digit denotes; inverts `hex_digit` on digits.
pub open spec fn unhex_digit(c: u8) -> int {
    if 48 <= c && c <= 57 {
        c - 48
    } else {
        c - 87
    }
}

/// The byte a two-digit hex cell denotes.
pub open spec fn byte_of_pair(two: Seq<u8>) -> u8 {
    (unhex_digit(two[0]) * 16 + unhex_digit(two[1])) as u8
}

/// Reading a byte's two hex digits back gives the byte: the hex cells of a
/// dump lose nothing.
pub proof fn lemma_hex_pair_inverts(b: u8)
    ensures
        byte_of_pair(hex_pair(b)) == b,
{
    lemma_fundamental_div_mod(b as int, 16);
}

/// Where hex cell `i` starts inside the hex column: three bytes per cell,
/// plus the half-row gap once past the eighth cell.
pub open spec fn cell_start(i: int) -> int {
    3 * i + if i >= 8 {
        1int
    } else {
        0int
    }
}

proof fn lemma_hex_area_upto_len(line: Seq<u8>, i: int)
    requires
        0 <= i <= 16,
    ensures
        hex_area_upto(line, i).len() == 3 * i + if i >= 8 {
            1int
        } else {
            0int
        },
    decreases i,
{
    if i > 0 {
        lemma_hex_area_upto_len(line, i - 1);
    }
}

proof fn lemma_hex_area_upto_index(line: Seq<u8>, j: int, i: int)
    requires
        0 <= i < j <= 16,
    ensures
        hex_area_upto(line, j)[cell_start(i)] == hex_digit(line[i] as int / 16),
        hex_area_upto(line, j)[cell_start(i) + 1] == hex_digit(line[i] as int % 16),
    decreases j,
{
    lemma_hex_area_upto_len(line, j - 1);
    if i == j - 1 {
        assert(hex_cell(line, i)[0] == hex_digit(line[i] as int / 16));
        assert(hex_cell(line, i)[1] == hex_digit(line[i] as int % 16));
    } else {
        lemma_hex_area_upto_index(line, j - 1, i);
    }
}

/// The bytes a line's hex column denotes, cell by cell.
pub open spec fn bytes_from_hex_area(area: Seq<u8>, l: int) -> Seq<u8> {
    Seq::new(l as nat, |i: int| byte_of_pair(seq![area[cell_start(i)], area[cell_start(i) + 1]]))
}

/// Round trip through the rendering: parsing the hex cells of a line's hex
/// column back out reconstructs exactly the bytes that were rendered.
pub proof fn lemma_hex_area_inverts(line: Seq<u8>)
    requires
        line.len() <= 16,
    ensures
        bytes_from_hex_area(hex_area(line), line.len() as int) == line,
{
    let parsed = bytes_from_hex_area(hex_area(line), line.len() as int);
    assert forall|i: int| 0 <= i < line.len() implies parsed[i] == line[i] by {
        lemma_hex_area_upto_index(line, line.len() as int, i);
        lemma_hex_pair_inverts(line[i]);
        assert(seq![hex_area(line)[cell_start(i)], hex_area(line)[cell_start(i) + 1]] =~= hex_pair(
            line[i],
        ));
    }
    assert(parsed =~= line);
}

/// The index of the first newline byte of `s`, or `s.len()` if there is
/// none: where the first rendered line ends.
pub open spec fn newline_at(s: Seq<u8>) -> nat
    decreases s.len(),
{
    if s.len() == 0 {
        0
    } else if s[0] == 10 {
        0
    } else {
        1 + newline_at(s.skip(1))
    }
}

/// The index of the first space byte of `s`, or `s.len()` if there is
/// none: where a line's offset digits end.
pub open spec fn space_at(s: Seq<u8>) -> nat
    decreases s.len(),
{
    if s.len() == 0 {
        0
    } else if s[0] == 32 {
        0
    } else {
        1 + space_at(s.skip(1))
    }
}

/// The byte values one dump line of text (without its newline) denotes:
/// the offset digits end at the first space, the hex cells start two
/// bytes later, and the line's byte count follows from its length, since
/// everything but the offset digits and the ASCII glyphs has fixed width.
/// A line too short to be a data line (the trailer) denotes no bytes.
pub open spec fn parsed_line_bytes(t: Seq<u8>) -> Seq<u8> {
    let w = space_at(t) as int;
    if t.len() >= w + 54 {
        bytes_from_hex_area(t.skip(w + 2), t.len() - w - 54)
    } else {
        Seq::<u8>::empty()
    }
}

/// All byte values a rendered dump denotes: what each line's hex cells
/// hold, line by line, concatenated.
pub open spec fn parsed_dump_bytes(s: Seq<u8>) -> Seq<u8>
    decreases s.len(),
{
    if s.len() == 0 {
        Seq::<u8>::empty()
    } else {
        let n = newline_at(s);
        if n < s.len() {
            parsed_line_bytes(s.take(n as int)) + parsed_dump_bytes(s.skip(n as int + 1))
        } else {
            parsed_line_bytes(s)
        }
    }
}

proof fn lemma_no_newline_elem(s: Seq<u8>)
    requires
        newline_count(s) == 0,
    ensures
        forall|i: int| 0 <= i < s.len() ==> s[i] != 10,
    decreases s.len(),
{
    if s.len() > 0 {
        lemma_no_newline_elem(s.drop_last());
        assert forall|i: int| 0 <= i < s.len() implies s[i] != 10 by {
            if i < s.len() - 1 {
                assert(s[i] == s.drop_last()[i]);
            }
        }
    }
}

proof fn lemma_newline_at_concat(t: Seq<u8>, rest: Seq<u8>)
    requires
        forall|i: int| 0 <= i < t.len() ==> t[i] != 10,
        rest.len() > 0,
        rest[0] == 10,
    ensures
        newline_at(t + rest) == t.len(),
    decreases t.len(),
{
    let s = t + rest;
    if t.len() == 0 {
        assert(s =~= rest);
    } else {
        assert(s[0] == t[0]);
        assert(forall|i: int| 0 <= i < t.skip(1).len() ==> t.skip(1)[i] == t[i + 1]);
        lemma_newline_at_concat(t.skip(1), rest);
        assert(s.skip(1) =~= t.skip(1) + rest);
    }
}

proof fn lemma_space_at_concat(t: Seq<u8>, rest: Seq<u8>)
    requires
        forall|i: int| 0 <= i < t.len() ==> t[i] != 32,
        rest.len() > 0,
        rest[0] == 32,
    ensures
        space_at(t + rest) == t.len(),
    decreases t.len(),
{
    let s = t + rest;
    if t.len() == 0 {
        assert(s =~= rest);
    } else {
        assert(s[0] == t[0]);
        assert(forall|i: int| 0 <= i < t.skip(1).len() ==> t.skip(1)[i] == t[i + 1]);
        lemma_space_at_concat(t.skip(1), rest);
        assert(s.skip(1) =~= t.skip(1) + rest);
    }
}

proof fn lemma_space_at_none(t: Seq<u8>)
    requires
        forall|i: int| 0 <= i < t.len() ==> t[i] != 32,
    ensures
        space_at(t) == t.len(),
    decreases t.len(),
{
    if t.len() > 0 {
        assert(forall|i: int| 0 <= i < t.skip(1).len() ==> t.skip(1)[i] == t[i + 1]);
        lemma_space_at_none(t.skip(1));
    }
}

proof fn lemma_zeros_elem(k: int)
    ensures
        forall|i: int| 0 <= i < zeros(k).len() ==> #[trigger] zeros(k)[i] == 48,
    decreases k,
{
    if k > 0 {
        lemma_zeros_elem(k - 1);
        assert forall|i: int| 0 <= i < zeros(k).len() implies zeros(k)[i] == 48 by {
            if i < zeros(k).len() - 1 {
                assert(zeros(k)[i] == zeros(k - 1)[i]);
            }
        }
    }
}

proof fn lemma_hex_rep_elem(n: nat)
    ensures
        forall|i: int|
            0 <= i < hex_rep(n).len() ==> (#[trigger] hex_rep(n)[i]) != 32 && hex_rep(n)[i] != 10,
    decreases n,
{
    if n >= 16 {
        lemma_hex_rep_elem(n / 16);
        assert forall|i: int|
            0 <= i < hex_rep(n).len() implies (#[trigger] hex_rep(n)[i]) != 32 && hex_rep(n)[i]
            != 10 by {
            if i < hex_rep(n / 16).len() {
                assert(hex_rep(n)[i] == hex_rep(n / 16)[i]);
            }
        }
    }
}

proof fn lemma_offset_rep_digits(n: nat)
    ensures
        forall|i: int|
            0 <= i < offset_rep(n).len() ==> (#[trigger] offset_rep(n)[i]) != 32 && offset_rep(
                n,
            )[i] != 10,
{
    lemma_zeros_elem(8 - hex_rep(n).len());
    lemma_hex_rep_elem(n);
    assert forall|i: int|
        0 <= i < offset_rep(n).len() implies (#[trigger] offset_rep(n)[i]) != 32 && offset_rep(
        n,
    )[i] != 10 by {
        let z = zeros(8 - hex_rep(n).len());
        if i < z.len() {
            assert(offset_rep(n)[i] == z[i]);
        } else {
            assert(offset_rep(n)[i] == hex_rep(n)[i - z.len()]);
        }
    }
}

proof fn lemma_line_body_clean(offset: nat, line: Seq<u8>)
    ensures
        line_rep(offset, line).len() >= 2,
        line_rep(offset, line).last() == 10,
        forall|i: int|
            0 <= i < line_rep(offset, line).len() - 1 ==> #[trigger] line_rep(offset, line)[i]
                != 10,
{
    let lr = line_rep(offset, line);
    lemma_nc_line(offset, line);
    assert(lr.last() == 10);
    assert(newline_count(lr) == newline_count(lr.drop_last()) + 1);
    lemma_no_newline_elem(lr.drop_last());
    assert forall|i: int| 0 <= i < lr.len() - 1 implies #[trigger] lr[i] != 10 by {
        assert(lr[i] == lr.drop_last()[i]);
    }
}

proof fn lemma_parsed_line(offset: nat, line: Seq<u8>)
    requires
        line.len() <= 16,
    ensures
        parsed_line_bytes(line_rep(offset, line).drop_last()) == line,
{
    let lr = line_rep(offset, line);
    let t = lr.drop_last();
    let w = offset_rep(offset).len() as int;
    let after_digits = seq![32u8, 32u8] + hex_area(line) + pad_area(line.len() as int)
        + ascii_area(line) + seq![124u8];
    assert(t =~= offset_rep(offset) + after_digits);
    lemma_offset_rep_digits(offset);
    lemma_space_at_concat(offset_rep(offset), after_digits);
    assert(space_at(t) == w);
    lemma_line_len(offset, line);
    assert(t.len() == w + 54 + line.len());
    let area = t.skip(w + 2);
    assert(area =~= hex_area(line) + (pad_area(line.len() as int) + ascii_area(line)
        + seq![124u8]));
    lemma_hex_area_upto_len(line, line.len() as int);
    assert forall|i: int| 0 <= i < line.len() implies area[cell_start(i)] == hex_area(line)[
        cell_start(i)
    ] && area[cell_start(i) + 1] == hex_area(line)[cell_start(i) + 1] by {
        assert(cell_start(i) + 1 < hex_area(line).len());
    }
    lemma_hex_area_inverts(line);
    assert(bytes_from_hex_area(area, line.len() as int) =~= bytes_from_hex_area(
        hex_area(line),
        line.len() as int,
    ));
}

proof fn lemma_parsed_trailer(end: nat)
    ensures
        parsed_dump_bytes(trailer_rep(end)) == Seq::<u8>::empty(),
{
    let s = trailer_rep(end);
    lemma_offset_rep_digits(end);
    lemma_newline_at_concat(offset_rep(end), seq![10u8, 10u8]);
    assert(s =~= offset_rep(end) + seq![10u8, 10u8]);
    let n = newline_at(s);
    assert(n == offset_rep(end).len());
    assert(n < s.len());
    let t = s.take(n as int);
    assert(t =~= offset_rep(end));
    lemma_space_at_none(t);
    assert(space_at(t) == t.len());
    assert(parsed_line_bytes(t) =~= Seq::<u8>::empty());
    let rest = s.skip(n as int + 1);
    assert(rest =~= seq![10u8]);
    assert(newline_at(rest) == 0);
    assert(rest.take(0) =~= Seq::<u8>::empty());
    assert(space_at(Seq::<u8>::empty()) == 0);
    assert(parsed_line_bytes(Seq::<u8>::empty()) =~= Seq::<u8>::empty());
    assert(rest.skip(1) =~= Seq::<u8>::empty());
    assert(parsed_dump_bytes(Seq::<u8>::empty()) =~= Seq::<u8>::empty());
    assert(Seq::<u8>::empty() + Seq::<u8>::empty() =~= Seq::<u8>::empty());
    assert(parsed_dump_bytes(rest) =~= Seq::<u8>::empty());
    assert(parsed_dump_bytes(s) =~= Seq::<u8>::empty());
}

proof fn lemma_parse_lines(offset: nat, bytes: Seq<u8>, tail: Seq<u8>)
    requires
        parsed_dump_bytes(tail) == Seq::<u8>::empty(),
    ensures
        parsed_dump_bytes(window_rep(offset, bytes) + tail) == bytes,
    decreases bytes.len(),
{
    if bytes.len() == 0 {
        assert(window_rep(offset, bytes) + tail =~= tail);
        assert(bytes =~= Seq::<u8>::empty());
    } else if bytes.len() <= 16 {
        let lr = line_rep(offset, bytes);
        let s = window_rep(offset, bytes) + tail;
        lemma_line_body_clean(offset, bytes);
        assert(s =~= lr.drop_last() + (seq![10u8] + tail));
        lemma_newline_at_concat(lr.drop_last(), seq![10u8] + tail);
        let n = newline_at(s);
        assert(n == lr.len() - 1);
        assert(n < s.len());
        assert(s.take(n as int) =~= lr.drop_last());
        lemma_parsed_line(offset, bytes);
        assert(s.skip(n as int + 1) =~= tail);
        assert(bytes + Seq::<u8>::empty() =~= bytes);
    } else {
        let lr = line_rep(offset, bytes.take(16));
        let rest = window_rep((offset + 16) as nat, bytes.skip(16)) + tail;
        let s = window_rep(offset, bytes) + tail;
        lemma_line_body_clean(offset, bytes.take(16));
        assert(s =~= lr.drop_last() + (seq![10u8] + rest));
        lemma_newline_at_concat(lr.drop_last(), seq![10u8] + rest);
        let n = newline_at(s);
        assert(n == lr.len() - 1);
        assert(n < s.len());
        assert(s.take(n as int) =~= lr.drop_last());
        lemma_parsed_line(offset, bytes.take(16));
        assert(bytes.take(16).len() == 16);
        assert(s.skip(n as int + 1) =~= rest);
        lemma_parse_lines((offset + 16) as nat, bytes.skip(16), tail);
        assert(bytes.take(16) + bytes.skip(16) =~= bytes);
    }
}

/// Round trip through the whole rendering: concatenating the byte values
/// parsed back out of a complete dump — data lines, trailer and all —
/// reconstructs the dumped bytes exactly, for any input.
pub proof fn lemma_dump_round_trip(bytes: Seq<u8>)
    ensures
        parsed_dump_bytes(file_dump_rep(bytes)) == bytes,
{
    if bytes.len() == 0 {
        assert(parsed_dump_bytes(file_dump_rep(bytes)) =~= bytes);
    } else {
        lemma_parsed_trailer(bytes.len());
        lemma_parse_lines(0, bytes, trailer_rep(bytes.len()));
    }
}

/// Round trip for one rendered window at any starting offset.
pub proof fn lemma_window_round_trip(offset: nat, bytes: Seq<u8>)
    ensures
        parsed_dump_bytes(window_rep(offset, bytes)) == bytes,
{
    assert(parsed_dump_bytes(Seq::<u8>::empty()) == Seq::<u8>::empty());
    lemma_parse_lines(offset, bytes, Seq::<u8>::empty());
    assert(window_rep(offset, bytes) + Seq::<u8>::empty() =~= window_rep(offset, bytes));
}

/// Rendering is a pure function of the bytes alone: dumping the same
/// unmodified contents twice yields byte-identical output.
pub proof fn lemma_dump_deterministic(first: Seq<u8>, second: Seq<u8>)
    requires
        first == second,
    ensures
        file_dump_rep(first) == file_dump_rep(second),
{
}

/// A file whose size is an exact multiple of the page size takes exactly
/// `total / page` windows, with no zero-length final window.
pub proof fn lemma_window_count_exact(total: nat, page: nat)
    requires
        page > 0,
        total % page == 0,
    ensures
        window_count(total, page) == total / page,
    decreases total,
{
    if total == 0 {
        lemma_basic_div(0, page as int);
    } else {
        assert(total >= page) by {
            if total < page {
                lemma_small_mod(total, page);
            }
        }
        if total == page {
            lemma_div_by_self(page as int);
        } else {
            lemma_mod_sub_multiples_vanish(total as int, page as int);
            lemma_window_count_exact((total - page) as nat, page);
            lemma_div_plus_one((total - page) as int, page as int);
        }
    }
}

proof fn lemma_triple_spaces_len(k: int)
    ensures
        triple_spaces(k).len() == if k <= 0 {
            0int
        } else {
            3 * k
        },
    decreases k,
{
    if k > 0 {
        lemma_triple_spaces_len(k - 1);
    }
}

proof fn lemma_ascii_area_upto_len(line: Seq<u8>, i: int)
    requires
        0 <= i,
    ensures
        ascii_area_upto(line, i).len() == i,
    decreases i,
{
    if i > 0 {
        lemma_ascii_area_upto_len(line, i - 1);
    }
}

/// Every line has the same column geometry: the hex column plus its
/// padding always measure 51 bytes, so the ASCII delimiter of a short
/// final line aligns exactly with that of a full line, and a line of `L`
/// bytes is padded with `16 - L` blank cells of three spaces.
pub proof fn lemma_delimiter_aligned(line: Seq<u8>)
    requires
        line.len() <= 16,
    ensures
        hex_area(line).len() + pad_area(line.len() as int).len() == 51,
{
    lemma_hex_area_upto_len(line, line.len() as int);
    lemma_triple_spaces_len(16 - line.len());
}

/// A rendered line's total length: the offset digits and their two
/// spaces, the 51 bytes of hex cells and padding, one ASCII glyph per
/// byte, and the closing pipe and newline.
pub proof fn lemma_line_len(offset: nat, line: Seq<u8>)
    requires
        line.len() <= 16,
    ensures
        line_rep(offset, line).len() == offset_rep(offset).len() + 55 + line.len(),
{
    lemma_delimiter_aligned(line);
    lemma_ascii_area_upto_len(line, line.len() as int);
}

} // verus!
