//! Classic hex dumps of byte sequences: sixteen bytes per row, a hex column
//! and a text column, rows aligned to 16-byte address boundaries.
use vstd::prelude::*;

pub mod laws;
pub mod model;
mod render;

use crate::model::{dump_lines, dump_text, lemma_row_step, line_count, row_addr, row_base, row_line};
use crate::render::push_row;

verus! {

/// A request to dump `bytes`, the first of which sits at address `offset`.
#[derive(Debug, Clone)]
pub struct HexDump {
    bytes: Vec<u8>,
    offset: usize,
}

impl View for HexDump {
    type V = (Seq<u8>, nat);

    closed spec fn view(&self) -> (Seq<u8>, nat) {
        (self.bytes@, self.offset as nat)
    }
}

/// Builds a dump of `bytes`, whose first byte sits at address `offset`.
pub fn hexdump(bytes: &[u8], offset: usize) -> (r: HexDump)
    requires
        offset + bytes@.len() <= usize::MAX,
    ensures
        r@ == (bytes@, offset as nat),
        r.wf(),
{
    HexDump { bytes: vstd::slice::slice_to_vec(bytes), offset }
}

impl HexDump {
    /// The dump's addresses, `offset` up to `offset + len`, fit in a `usize`.
    pub open spec fn wf(&self) -> bool {
        self@.1 + self@.0.len() <= usize::MAX
    }

    /// The lines of the dump, one per 16-byte aligned block that it touches.
    pub fn lines(&self) -> (r: Vec<String>)
        requires
            self.wf(),
        ensures
            r.len() == dump_lines(self@.0, self@.1).len(),
            forall|j: int| 0 <= j < r.len() ==> #[trigger] r[j]@ == dump_lines(self@.0, self@.1)[j],
    {
        let ghost b = self.bytes@;
        let ghost o = self.offset as nat;
        let ghost n = line_count(o, b.len());
        let end: usize = self.offset + self.bytes.len();
        let mut r: Vec<String> = Vec::new();
        let mut addr: usize = self.offset;
        let ghost mut j: nat = 0;
        while addr < end
            invariant
                b == self.bytes@,
                o == self.offset,
                n == line_count(o, b.len()),
                end == o + b.len(),
                self.wf(),
                j <= n,
                j < n ==> addr == row_addr(o, j),
                j < n <==> addr < end,
                j == n ==> addr == end,
                r.len() == j,
                forall|i: int| 0 <= i < j ==> #[trigger] r[i]@ == dump_lines(b, o)[i],
            decreases end - addr,
        {
            proof {
                lemma_row_step(o, b.len(), j);
            }
            let skip: usize = addr % 16;
            let room: usize = 16 - skip;
            let rest: usize = end - addr;
            let take: usize = if room < rest { room } else { rest };
            let mut line = String::new();
            push_row(&mut line, self.bytes.as_slice(), self.offset, addr, take);
            assert(line@ =~= row_line(b, o, row_base(o, j)));
            r.push(line);
            addr = addr + take;
            proof {
                j = j + 1;
                if j < n {
                    lemma_row_step(o, b.len(), j);
                }
            }
        }
        r
    }

    /// The whole dump as one text: its lines, one after another.
    pub fn to_string(&self) -> (r: String)
        requires
            self.wf(),
        ensures
            r@ == dump_text(self@.0, self@.1),
    {
        let ghost b = self.bytes@;
        let ghost o = self.offset as nat;
        let ghost n = line_count(o, b.len());
        let end: usize = self.offset + self.bytes.len();
        let mut r = String::new();
        let mut addr: usize = self.offset;
        let ghost mut j: nat = 0;
        while addr < end
            invariant
                b == self.bytes@,
                o == self.offset,
                n == line_count(o, b.len()),
                end == o + b.len(),
                self.wf(),
                j <= n,
                j < n ==> addr == row_addr(o, j),
                j < n <==> addr < end,
                j == n ==> addr == end,
                r@ == dump_lines(b, o).take(j as int).flatten(),
            decreases end - addr,
        {
            proof {
                lemma_row_step(o, b.len(), j);
            }
            let skip: usize = addr % 16;
            let room: usize = 16 - skip;
            let rest: usize = end - addr;
            let take: usize = if room < rest { room } else { rest };
            push_row(&mut r, self.bytes.as_slice(), self.offset, addr, take);
            proof {
                let lines = dump_lines(b, o);
                assert(lines.take((j + 1) as int) =~= lines.take(j as int).push(lines[j as int]));
                lines.take(j as int).lemma_flatten_push(lines[j as int]);
                j = j + 1;
                if j < n {
                    lemma_row_step(o, b.len(), j);
                }
            }
            addr = addr + take;
        }
        assert(dump_lines(b, o).take(n as int) =~= dump_lines(b, o));
        r
    }
}

} // verus!
