//! Turns the bytes that arrive from a stream into lines: a carriage return or
//! a line feed ends a line, trailing blanks are trimmed and empty lines are
//! dropped.

use vstd::prelude::*;
use crate::text::{trim_end, trim_end_bytes};

verus! {

pub open spec fn is_line_break(b: u8) -> bool {
    b == 13 || b == 10
}

/// The lines completed, and the bytes still pending, once `chunk` has
/// arrived while `pending` was held.
pub open spec fn assemble(pending: Seq<u8>, chunk: Seq<u8>) -> (Seq<Seq<u8>>, Seq<u8>)
    decreases chunk.len(),
{
    if chunk.len() == 0 {
        (Seq::empty(), pending)
    } else {
        let (lines, rest) = assemble(pending, chunk.drop_last());
        let b = chunk.last();
        if is_line_break(b) {
            let line = trim_end(rest);
            (
                if line.len() > 0 {
                    lines.push(line)
                } else {
                    lines
                },
                Seq::empty(),
            )
        } else {
            (lines, rest.push(b))
        }
    }
}

/// The contents of each line in `v`.
pub open spec fn line_views(v: Seq<Vec<u8>>) -> Seq<Seq<u8>> {
    v.map_values(|l: Vec<u8>| l@)
}

/// Gathers the bytes of one stream into lines.
pub struct LineAssembler {
    pending: Vec<u8>,
}

impl View for LineAssembler {
    type V = Seq<u8>;

    /// The bytes of the line under way.
    closed spec fn view(&self) -> Seq<u8> {
        self.pending@
    }
}

impl LineAssembler {
    /// An assembler with nothing pending.
    pub fn new() -> (r: LineAssembler)
        ensures
            r@ == Seq::<u8>::empty(),
    {
        LineAssembler { pending: Vec::new() }
    }

    /// Takes the next bytes of the stream and hands out the lines that they
    /// complete, in order.
    pub fn push_bytes(&mut self, chunk: &[u8]) -> (lines: Vec<Vec<u8>>)
        ensures
            (line_views(lines@), final(self)@) == assemble(old(self)@, chunk@),
    {
        let mut lines: Vec<Vec<u8>> = Vec::new();
        let n = chunk.len();
        let mut i: usize = 0;
        while i < n
            invariant
                n == chunk@.len(),
                i <= n,
                (line_views(lines@), self@) == assemble(old(self)@, chunk@.subrange(0, i as int)),
            decreases n - i,
        {
            let b = chunk[i];
            let ghost prev_lines = line_views(lines@);
            let ghost prev_rest = self@;
            proof {
                assert(chunk@.subrange(0, i + 1).drop_last() =~= chunk@.subrange(0, i as int));
                assert(chunk@.subrange(0, i + 1).last() == b);
            }
            if b == 13 || b == 10 {
                let done = self.pending.split_off(0);
                proof {
                    assert(done@ =~= prev_rest);
                }
                let line = trim_end_bytes(done);
                if line.len() > 0 {
                    let ghost before = lines@;
                    lines.push(line);
                    proof {
                        assert(line_views(lines@) =~= line_views(before).push(line@));
                    }
                }
                proof {
                    assert(self@ =~= Seq::<u8>::empty());
                }
            } else {
                self.pending.push(b);
                proof {
                    assert(self@ == prev_rest.push(b));
                }
            }
            i += 1;
        }
        proof {
            assert(chunk@.subrange(0, n as int) =~= chunk@);
        }
        lines
    }
}

} // verus!
