//! The mathematical model of a dump: which byte sits in which slot of which
//! row, and the characters that each row is rendered as.
use vstd::prelude::*;

verus! {

/// Uppercase hexadecimal digit for a value below 16.
pub open spec fn hex_digit(d: nat) -> char {
    if d < 10 {
        ((d + 48) as u8) as char
    } else {
        ((d + 55) as u8) as char
    }
}

/// Hexadecimal digits of `n`, zero-padded on the left to at least `w` digits.
pub open spec fn hex_padded(n: nat, w: nat) -> Seq<char>
    decreases n + w,
{
    if n == 0 && w == 0 {
        Seq::empty()
    } else {
        hex_padded(n / 16, if w > 0 { (w - 1) as nat } else { 0 }).push(hex_digit(n % 16))
    }
}

/// The address label of a row: at least eight uppercase hex digits.
pub open spec fn hex_label(n: nat) -> Seq<char> {
    hex_padded(n, 8)
}

/// Two uppercase hex digits of a byte.
pub open spec fn hex_byte(b: u8) -> Seq<char> {
    seq![hex_digit(b as nat / 16), hex_digit(b as nat % 16)]
}

/// How a byte shows in the text column: itself when printable, else a dot.
pub open spec fn ascii_char(b: u8) -> char {
    if 0x20 <= b && b < 0x7f {
        b as char
    } else {
        '.'
    }
}

/// The byte at address `a` of a dump of `bytes` that starts at address
/// `offset`, or `None` where `a` lies outside it.
pub open spec fn slot(bytes: Seq<u8>, offset: nat, a: nat) -> Option<u8> {
    if offset <= a && a < offset + bytes.len() {
        Some(bytes[a - offset])
    } else {
        None
    }
}

/// One slot of the hex column: two digits and a blank, or three blanks.
pub open spec fn hex_cell(s: Option<u8>) -> Seq<char> {
    match s {
        Some(b) => hex_byte(b).push(' '),
        None => seq![' ', ' ', ' '],
    }
}

/// One slot of the text column.
pub open spec fn ascii_cell(s: Option<u8>) -> char {
    match s {
        Some(b) => ascii_char(b),
        None => ' ',
    }
}

/// The extra blank that splits the hex column into two halves of eight.
pub open spec fn mid_gap(k: nat) -> Seq<char> {
    if k == 8 {
        seq![' ']
    } else {
        Seq::empty()
    }
}

/// The first `n` slots of the hex column of the row whose aligned start is `base`.
pub open spec fn hex_cells(bytes: Seq<u8>, offset: nat, base: nat, n: nat) -> Seq<char>
    decreases n,
{
    if n == 0 {
        Seq::empty()
    } else {
        let k = (n - 1) as nat;
        hex_cells(bytes, offset, base, k) + mid_gap(k) + hex_cell(slot(bytes, offset, base + k))
    }
}

/// The first `n` slots of the text column of the row whose aligned start is `base`.
pub open spec fn ascii_cells(bytes: Seq<u8>, offset: nat, base: nat, n: nat) -> Seq<char>
    decreases n,
{
    if n == 0 {
        Seq::empty()
    } else {
        let k = (n - 1) as nat;
        ascii_cells(bytes, offset, base, k).push(ascii_cell(slot(bytes, offset, base + k)))
    }
}

/// The address a row is labelled with: its aligned start, or the dump's
/// first address where that lies inside the row.
pub open spec fn row_label(offset: nat, base: nat) -> nat {
    if base < offset {
        offset
    } else {
        base
    }
}

/// The whole line for the row whose aligned start is `base`, newline included.
pub open spec fn row_line(bytes: Seq<u8>, offset: nat, base: nat) -> Seq<char> {
    hex_label(row_label(offset, base)) + seq![':', ' ', ' '] + hex_cells(bytes, offset, base, 16)
        + seq![' ', '|'] + ascii_cells(bytes, offset, base, 16) + seq!['|', '\n']
}

/// Number of 16-byte aligned blocks that `[offset, offset + len)` touches.
pub open spec fn line_count(offset: nat, len: nat) -> nat {
    if len == 0 {
        0
    } else {
        ((offset + len - 1) / 16 - offset / 16 + 1) as nat
    }
}

/// Aligned start address of row `j` of a dump that begins at `offset`.
pub open spec fn row_base(offset: nat, j: nat) -> nat {
    (offset / 16 + j) * 16
}

/// Address at which row `j` of a dump starting at `offset` begins.
pub open spec fn row_addr(offset: nat, j: nat) -> nat {
    if j == 0 {
        offset
    } else {
        row_base(offset, j)
    }
}

/// Row `j` starts at `row_addr(offset, j)` and takes up to the next 16-byte
/// boundary, or up to the end of the dump on its last row.
pub proof fn lemma_row_step(offset: nat, len: nat, j: nat)
    requires
        j < line_count(offset, len),
    ensures
        offset <= row_addr(offset, j) < offset + len,
        row_addr(offset, j) - row_addr(offset, j) % 16 == row_base(offset, j),
        j == 0 || row_addr(offset, j) % 16 == 0,
        j + 1 < line_count(offset, len) ==> row_addr(offset, j) + (16 - row_addr(offset, j) % 16)
            == row_addr(offset, j + 1) && row_addr(offset, j + 1) < offset + len,
        j + 1 == line_count(offset, len) ==> row_addr(offset, j) + (16 - row_addr(offset, j) % 16)
            >= offset + len,
{
    let q = offset / 16;
    let e = (offset + len - 1) as nat;
    let qe = e / 16;
    assert(offset == 16 * q + offset % 16);
    assert(e == 16 * qe + e % 16);
    let a = row_addr(offset, j);
    if j > 0 {
        assert(a == 16 * (q + j));
        assert(a % 16 == 0) by {
            vstd::arithmetic::div_mod::lemma_mod_multiples_basic((q + j) as int, 16);
        }
    }
    assert(a == 16 * (a / 16) + a % 16);
}

/// The lines of the dump, in order.
pub open spec fn dump_lines(bytes: Seq<u8>, offset: nat) -> Seq<Seq<char>> {
    Seq::new(line_count(offset, bytes.len()), |j: int| row_line(bytes, offset, row_base(offset, j as nat)))
}

/// The dump as one text.
pub open spec fn dump_text(bytes: Seq<u8>, offset: nat) -> Seq<char> {
    dump_lines(bytes, offset).flatten()
}

/// Every line of a dump is this long, while its addresses fit in eight digits.
pub open spec fn line_width() -> nat {
    80
}

} // verus!
