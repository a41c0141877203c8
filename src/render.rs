//! Appending the pieces of a dump line to a `String`.
use vstd::prelude::*;
use crate::model::{
    ascii_cell, ascii_cells, ascii_char, hex_byte, hex_cell, hex_cells, hex_digit, hex_label,
    hex_padded, mid_gap, row_label, row_line, slot,
};

verus! {

/// Appends the hex digit for `d`.
fn push_digit(out: &mut String, d: usize)
    requires
        d < 16,
    ensures
        final(out)@ == old(out)@.push(hex_digit(d as nat)),
{
    let digits = "0123456789ABCDEF";
    proof {
        reveal_strlit("0123456789ABCDEF");
    }
    let s = digits.substring_char(d, d + 1);
    assert(s@ =~= seq![hex_digit(d as nat)]);
    out.append(s);
}

/// Appends `n` in hex, zero-padded to at least `w` digits.
fn push_hex(out: &mut String, n: usize, w: usize)
    ensures
        final(out)@ == old(out)@ + hex_padded(n as nat, w as nat),
    decreases n + w,
{
    if n == 0 && w == 0 {
        assert(final(out)@ =~= old(out)@ + hex_padded(n as nat, w as nat));
        return;
    }
    let nw: usize = if w > 0 { w - 1 } else { 0 };
    push_hex(out, n / 16, nw);
    push_digit(out, n % 16);
    assert(final(out)@ =~= old(out)@ + hex_padded(n as nat, w as nat));
}

/// Appends the two hex digits of `b`.
fn push_hex_byte(out: &mut String, b: u8)
    ensures
        final(out)@ == old(out)@ + hex_byte(b),
{
    push_digit(out, (b / 16) as usize);
    push_digit(out, (b % 16) as usize);
    assert(final(out)@ =~= old(out)@ + hex_byte(b));
}

/// Appends the character that shows `b` in the text column.
fn push_ascii(out: &mut String, b: u8)
    ensures
        final(out)@ == old(out)@.push(ascii_char(b)),
{
    let table = " !\"#$%&'()*+,-./0123456789:;<=>?@ABCDEFGHIJKLMNOPQRSTUVWXYZ[\\]^_`abcdefghijklmnopqrstuvwxyz{|}~";
    proof {
        reveal_strlit(" !\"#$%&'()*+,-./0123456789:;<=>?@ABCDEFGHIJKLMNOPQRSTUVWXYZ[\\]^_`abcdefghijklmnopqrstuvwxyz{|}~");
        reveal_strlit(".");
    }
    let s = if 0x20 <= b && b < 0x7f {
        let i: usize = (b - 0x20) as usize;
        table.substring_char(i, i + 1)
    } else {
        "."
    };
    assert(s@ =~= seq![ascii_char(b)]);
    out.append(s);
}

/// Which byte, if any, stands in slot `k` of a row that holds the bytes at
/// addresses `[addr, addr + take)` of the dump.
proof fn lemma_row_slot(bytes: Seq<u8>, offset: nat, addr: nat, take: nat, k: nat)
    requires
        offset <= addr,
        addr + take <= offset + bytes.len(),
        addr % 16 + take <= 16,
        addr == offset || addr % 16 == 0,
        addr + take == offset + bytes.len() || addr % 16 + take == 16,
        k < 16,
    ensures
        slot(bytes, offset, (addr - addr % 16 + k) as nat) == if addr % 16 <= k && k < addr % 16 + take {
            Some(bytes[addr - offset + k - addr % 16])
        } else {
            None::<u8>
        },
{
}

/// Appends the line for the row that holds the bytes at addresses
/// `[addr, addr + take)`: a row that starts the dump or starts on a 16-byte
/// boundary, and that ends the dump or ends on one.
pub fn push_row(out: &mut String, bytes: &[u8], offset: usize, addr: usize, take: usize)
    requires
        offset <= addr,
        addr + take <= offset + bytes@.len(),
        addr % 16 + take <= 16,
        addr == offset || addr % 16 == 0,
        addr + take == offset + bytes@.len() || addr % 16 + take == 16,
    ensures
        final(out)@ == old(out)@ + row_line(bytes@, offset as nat, (addr - addr % 16) as nat),
{
    let ghost b = bytes@;
    let ghost o = offset as nat;
    let skip: usize = addr % 16;
    let base: usize = addr - skip;
    let first: usize = addr - offset;
    proof {
        reveal_strlit(":  ");
        reveal_strlit(" ");
        reveal_strlit("   ");
        reveal_strlit(" |");
        reveal_strlit("|\n");
    }
    assert(row_label(o, base as nat) == addr);
    push_hex(out, addr, 8);
    out.append(":  ");
    let ghost head = out@;
    assert(head =~= old(out)@ + hex_label(addr as nat) + seq![':', ' ', ' ']);
    let mut k: usize = 0;
    while k < 16
        invariant
            k <= 16,
            out@ == head + hex_cells(b, o, base as nat, k as nat),
            b == bytes@,
            o == offset,
            skip == addr % 16,
            base == addr - skip,
            first == addr - offset,
            offset <= addr,
            addr + take <= offset + bytes@.len(),
            addr % 16 + take <= 16,
            addr == offset || addr % 16 == 0,
            addr + take == offset + bytes@.len() || addr % 16 + take == 16,
        decreases 16 - k,
    {
        let ghost before = out@;
        proof {
            reveal_strlit(" ");
            reveal_strlit("   ");
        }
        if k == 8 {
            out.append(" ");
        }
        assert(out@ =~= before + mid_gap(k as nat));
        let ghost mid = out@;
        proof {
            lemma_row_slot(b, o, addr as nat, take as nat, k as nat);
        }
        if skip <= k && k - skip < take {
            let x = bytes[first + k - skip];
            push_hex_byte(out, x);
            out.append(" ");
        } else {
            out.append("   ");
        }
        assert(out@ =~= mid + hex_cell(slot(b, o, (base + k) as nat)));
        assert(out@ =~= head + hex_cells(b, o, base as nat, (k + 1) as nat));
        k = k + 1;
    }
    out.append(" |");
    let ghost mid_line = out@;
    let mut k: usize = 0;
    while k < 16
        invariant
            k <= 16,
            out@ == mid_line + ascii_cells(b, o, base as nat, k as nat),
            b == bytes@,
            o == offset,
            skip == addr % 16,
            base == addr - skip,
            first == addr - offset,
            offset <= addr,
            addr + take <= offset + bytes@.len(),
            addr % 16 + take <= 16,
            addr == offset || addr % 16 == 0,
            addr + take == offset + bytes@.len() || addr % 16 + take == 16,
        decreases 16 - k,
    {
        let ghost before = out@;
        proof {
            reveal_strlit(" ");
            lemma_row_slot(b, o, addr as nat, take as nat, k as nat);
        }
        if skip <= k && k - skip < take {
            let x = bytes[first + k - skip];
            push_ascii(out, x);
        } else {
            out.append(" ");
        }
        assert(out@ =~= before.push(ascii_cell(slot(b, o, (base + k) as nat))));
        assert(out@ =~= mid_line + ascii_cells(b, o, base as nat, (k + 1) as nat));
        k = k + 1;
    }
    out.append("|\n");
    assert(out@ =~= old(out)@ + row_line(b, o, base as nat));
}

} // verus!
