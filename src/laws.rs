//! What holds of every dump, proved over the model.
use vstd::prelude::*;
use vstd::arithmetic::power::pow;
use crate::model::{
    ascii_cell, ascii_cells, ascii_char, dump_lines, dump_text, hex_byte, hex_cell, hex_cells,
    hex_label, hex_padded, lemma_row_step, line_count, line_width, mid_gap, row_addr, row_base,
    row_label, row_line, slot,
};

verus! {

/// A number below `16^w` takes exactly `w` digits when padded to `w`.
proof fn lemma_hex_padded_len(n: nat, w: nat)
    requires
        n < pow(16, w),
    ensures
        hex_padded(n, w).len() == w,
    decreases w,
{
    reveal(pow);
    if w == 0 {
        assert(n == 0);
    } else {
        let p = pow(16, (w - 1) as nat);
        assert(n / 16 < p) by (nonlinear_arith)
            requires
                n < 16 * p,
        ;
        lemma_hex_padded_len(n / 16, (w - 1) as nat);
    }
}

/// Addresses below `2^32` are labelled with exactly eight digits.
proof fn lemma_label_len(n: nat)
    requires
        n < 0x1_0000_0000,
    ensures
        hex_label(n).len() == 8,
{
    reveal(pow);
    assert(pow(16, 0) == 1);
    assert(pow(16, 1) == 16);
    assert(pow(16, 2) == 0x100);
    assert(pow(16, 3) == 0x1000);
    assert(pow(16, 4) == 0x1_0000);
    assert(pow(16, 5) == 0x10_0000);
    assert(pow(16, 6) == 0x100_0000);
    assert(pow(16, 7) == 0x1000_0000);
    assert(pow(16, 8) == 0x1_0000_0000);
    lemma_hex_padded_len(n, 8);
}

/// The hex column's first `n` slots take three characters each, plus the
/// middle blank once past the eighth.
proof fn lemma_hex_cells_len(bytes: Seq<u8>, offset: nat, base: nat, n: nat)
    ensures
        hex_cells(bytes, offset, base, n).len() == 3 * n + if n > 8 { 1nat } else { 0 },
    decreases n,
{
    if n > 0 {
        lemma_hex_cells_len(bytes, offset, base, (n - 1) as nat);
    }
}

/// The text column's first `n` slots take one character each.
proof fn lemma_ascii_cells_len(bytes: Seq<u8>, offset: nat, base: nat, n: nat)
    ensures
        ascii_cells(bytes, offset, base, n).len() == n,
    decreases n,
{
    if n > 0 {
        lemma_ascii_cells_len(bytes, offset, base, (n - 1) as nat);
    }
}

/// Row `j` is labelled with an address inside the dump.
proof fn lemma_label_in_dump(offset: nat, len: nat, j: nat)
    requires
        j < line_count(offset, len),
    ensures
        row_label(offset, row_base(offset, j)) == row_addr(offset, j),
        row_addr(offset, j) < offset + len,
{
    lemma_row_step(offset, len, j);
}

/// A line of a dump whose addresses stay below `2^32` is `line_width()` long.
proof fn lemma_row_line_len(bytes: Seq<u8>, offset: nat, j: nat)
    requires
        j < line_count(offset, bytes.len()),
        offset + bytes.len() <= 0x1_0000_0000,
    ensures
        row_line(bytes, offset, row_base(offset, j)).len() == line_width(),
{
    let base = row_base(offset, j);
    lemma_label_in_dump(offset, bytes.len(), j);
    lemma_label_len(row_label(offset, base));
    lemma_hex_cells_len(bytes, offset, base, 16);
    lemma_ascii_cells_len(bytes, offset, base, 16);
}

/// A non-empty dump has one line for each 16-byte aligned block that its
/// addresses touch, and, while its addresses stay below `2^32`, all of its
/// lines are equally long.
pub proof fn lemma_line_count_and_width(bytes: Seq<u8>, offset: nat)
    requires
        bytes.len() > 0,
    ensures
        dump_lines(bytes, offset).len() == (offset + bytes.len() - 1) / 16 - offset / 16 + 1,
        offset + bytes.len() <= 0x1_0000_0000 ==> forall|j: int|
            0 <= j < dump_lines(bytes, offset).len() ==> #[trigger] dump_lines(bytes, offset)[j].len()
                == line_width(),
{
    if offset + bytes.len() <= 0x1_0000_0000 {
        assert forall|j: int| 0 <= j < dump_lines(bytes, offset).len() implies #[trigger] dump_lines(
            bytes,
            offset,
        )[j].len() == line_width() by {
            lemma_row_line_len(bytes, offset, j as nat);
        }
    }
}

/// An empty dump has no lines and no text, whatever its offset.
pub proof fn lemma_empty(bytes: Seq<u8>, offset: nat)
    requires
        bytes.len() == 0,
    ensures
        dump_lines(bytes, offset).len() == 0,
        dump_text(bytes, offset).len() == 0,
{
    assert(dump_lines(bytes, offset) =~= Seq::<Seq<char>>::empty());
}

/// The dump depends on its bytes and offset alone: equal requests give
/// equal text.
pub proof fn lemma_deterministic(b1: Seq<u8>, o1: nat, b2: Seq<u8>, o2: nat)
    requires
        b1 == b2,
        o1 == o2,
    ensures
        dump_text(b1, o1) == dump_text(b2, o2),
        dump_lines(b1, o1) == dump_lines(b2, o2),
{
}

/// Where the hex slot `k` of a line begins: after the label, the colon and
/// two blanks, three characters per slot, one more past the middle.
pub open spec fn hex_pos(k: nat) -> int {
    11 + 3 * k + if k >= 8 { 1int } else { 0 }
}

/// Where the text slot `k` of a line stands.
pub open spec fn text_pos(k: nat) -> int {
    62 + k as int
}

/// The line that byte `i` of a dump starting at `offset` lands on.
pub open spec fn byte_row(offset: nat, i: nat) -> nat {
    ((offset + i) / 16 - offset / 16) as nat
}

/// The slot within its line that byte `i` lands in.
pub open spec fn byte_slot(offset: nat, i: nat) -> nat {
    (offset + i) % 16
}

proof fn lemma_hex_cells_at(bytes: Seq<u8>, offset: nat, base: nat, n: nat, k: nat)
    requires
        k < n,
    ensures
        hex_cells(bytes, offset, base, n).subrange(hex_pos(k) - 11, hex_pos(k) - 8) == hex_cell(
            slot(bytes, offset, base + k),
        ),
    decreases n,
{
    let prev = hex_cells(bytes, offset, base, (n - 1) as nat);
    lemma_hex_cells_len(bytes, offset, base, (n - 1) as nat);
    let cell = hex_cell(slot(bytes, offset, (base + (n - 1)) as nat));
    assert(hex_cells(bytes, offset, base, n) == prev + mid_gap((n - 1) as nat) + cell);
    if k < n - 1 {
        lemma_hex_cells_at(bytes, offset, base, (n - 1) as nat, k);
        assert(hex_cells(bytes, offset, base, n).subrange(hex_pos(k) - 11, hex_pos(k) - 8)
            =~= prev.subrange(hex_pos(k) - 11, hex_pos(k) - 8));
    } else {
        assert(cell.len() == 3);
        assert(hex_cells(bytes, offset, base, n).subrange(hex_pos(k) - 11, hex_pos(k) - 8) =~= cell);
    }
}

proof fn lemma_ascii_cells_at(bytes: Seq<u8>, offset: nat, base: nat, n: nat, k: nat)
    requires
        k < n,
    ensures
        ascii_cells(bytes, offset, base, n)[k as int] == ascii_cell(slot(bytes, offset, base + k)),
    decreases n,
{
    lemma_ascii_cells_len(bytes, offset, base, (n - 1) as nat);
    if k < n - 1 {
        lemma_ascii_cells_at(bytes, offset, base, (n - 1) as nat, k);
    }
}

/// Slot `k` of line `j` shows, in both columns, whatever byte sits at the
/// slot's address.
proof fn lemma_line_cells(bytes: Seq<u8>, offset: nat, j: nat, k: nat)
    requires
        j < line_count(offset, bytes.len()),
        offset + bytes.len() <= 0x1_0000_0000,
        k < 16,
    ensures
        dump_lines(bytes, offset)[j as int].subrange(hex_pos(k), hex_pos(k) + 3) == hex_cell(
            slot(bytes, offset, row_base(offset, j) + k),
        ),
        dump_lines(bytes, offset)[j as int][text_pos(k)] == ascii_cell(
            slot(bytes, offset, row_base(offset, j) + k),
        ),
{
    let base = row_base(offset, j);
    let line = row_line(bytes, offset, base);
    let hs = hex_cells(bytes, offset, base, 16);
    let ts = ascii_cells(bytes, offset, base, 16);
    lemma_label_in_dump(offset, bytes.len(), j);
    lemma_label_len(row_label(offset, base));
    lemma_hex_cells_len(bytes, offset, base, 16);
    lemma_ascii_cells_len(bytes, offset, base, 16);
    lemma_hex_cells_at(bytes, offset, base, 16, k);
    lemma_ascii_cells_at(bytes, offset, base, 16, k);
    assert(line.subrange(11, 60) =~= hs);
    assert(line.subrange(62, 78) =~= ts);
    assert(line.subrange(hex_pos(k), hex_pos(k) + 3) =~= hs.subrange(hex_pos(k) - 11, hex_pos(k) - 8));
    assert(line[text_pos(k)] == ts[k as int]);
}

/// Each byte of the dump is shown exactly once in the hex column and
/// exactly once in the text column, in input order: slot `k` of line `j`
/// shows in both columns the byte at address `row_base(offset, j) + k`, or
/// blanks where that address lies outside the dump, and byte `i` lands on
/// line `byte_row(offset, i)`, slot `byte_slot(offset, i)`. Stated while the
/// addresses stay below `2^32`, where every label has eight digits.
pub proof fn lemma_each_byte_once(bytes: Seq<u8>, offset: nat)
    requires
        offset + bytes.len() <= 0x1_0000_0000,
    ensures
        forall|j: nat, k: nat|
            j < dump_lines(bytes, offset).len() && k < 16 ==> #[trigger] dump_lines(
                bytes,
                offset,
            )[j as int].subrange(hex_pos(k), hex_pos(k) + 3) == hex_cell(
                slot(bytes, offset, row_base(offset, j) + k),
            ),
        forall|j: nat, k: nat|
            j < dump_lines(bytes, offset).len() && k < 16 ==> #[trigger] dump_lines(
                bytes,
                offset,
            )[j as int][text_pos(k)] == ascii_cell(slot(bytes, offset, row_base(offset, j) + k)),
        forall|i: nat|
            i < bytes.len() ==> #[trigger] byte_row(offset, i) < dump_lines(bytes, offset).len()
                && byte_slot(offset, i) < 16 && row_base(offset, byte_row(offset, i)) + byte_slot(
                offset,
                i,
            ) == offset + i && slot(
                bytes,
                offset,
                row_base(offset, byte_row(offset, i)) + byte_slot(offset, i),
            ) == Some(bytes[i as int]),
{
    assert forall|j: nat, k: nat|
        j < dump_lines(bytes, offset).len() && k < 16 implies #[trigger] dump_lines(
            bytes,
            offset,
        )[j as int].subrange(hex_pos(k), hex_pos(k) + 3) == hex_cell(
            slot(bytes, offset, row_base(offset, j) + k),
        ) by {
        lemma_line_cells(bytes, offset, j, k);
    }
    assert forall|j: nat, k: nat|
        j < dump_lines(bytes, offset).len() && k < 16 implies #[trigger] dump_lines(
            bytes,
            offset,
        )[j as int][text_pos(k)] == ascii_cell(slot(bytes, offset, row_base(offset, j) + k)) by {
        lemma_line_cells(bytes, offset, j, k);
    }
    assert forall|i: nat| i < bytes.len() implies #[trigger] byte_row(offset, i) < dump_lines(
        bytes,
        offset,
    ).len() && byte_slot(offset, i) < 16 && row_base(offset, byte_row(offset, i)) + byte_slot(
        offset,
        i,
    ) == offset + i by {
        let a = offset + i;
        let e = (offset + bytes.len() - 1) as nat;
        assert(a == 16 * (a / 16) + a % 16);
        assert(offset == 16 * (offset / 16) + offset % 16);
        assert(e == 16 * (e / 16) + e % 16);
        assert(a / 16 >= offset / 16);
        assert(a / 16 <= e / 16);
    }
}

/// A dump that starts on a 16-byte boundary has no blank slot before its
/// first byte, and one that ends on a boundary none after its last.
pub proof fn lemma_aligned_edges(bytes: Seq<u8>, offset: nat)
    requires
        bytes.len() > 0,
        offset + bytes.len() <= 0x1_0000_0000,
    ensures
        offset % 16 == 0 ==> dump_lines(bytes, offset)[0].subrange(hex_pos(0), hex_pos(0) + 3)
            == hex_byte(bytes[0]).push(' ') && dump_lines(bytes, offset)[0][text_pos(0)]
            == ascii_char(bytes[0]),
        (offset + bytes.len()) % 16 == 0 ==> dump_lines(bytes, offset).last().subrange(
            hex_pos(15),
            hex_pos(15) + 3,
        ) == hex_byte(bytes.last()).push(' ') && dump_lines(bytes, offset).last()[text_pos(15)]
            == ascii_char(bytes.last()),
{
    let n = line_count(offset, bytes.len());
    let e = (offset + bytes.len() - 1) as nat;
    assert(offset == 16 * (offset / 16) + offset % 16);
    assert(e == 16 * (e / 16) + e % 16);
    if offset % 16 == 0 {
        lemma_line_cells(bytes, offset, 0, 0);
        assert(row_base(offset, 0) == offset);
    }
    if (offset + bytes.len()) % 16 == 0 {
        assert(e % 16 == 15);
        lemma_line_cells(bytes, offset, (n - 1) as nat, 15);
        assert(row_base(offset, (n - 1) as nat) + 15 == e);
    }
}

} // verus!
