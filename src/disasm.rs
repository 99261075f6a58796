//! The linear disassembly loop. The backend decodes one instruction at a
//! time; this loop decides where the next decode starts, when to stop, and
//! what a failed decode means for the result.
use vstd::prelude::*;
use crate::instruction::{Instruction, flat_bytes, lemma_flat_bytes_push};

verus! {

/// Why disassembling failed.
#[derive(Clone, Debug, PartialEq, Eq)]
pub enum DisassembleError {
    /// The first instruction, at this address, could not be decoded.
    InvalidInstruction { address: u64 },
}

/// A request to the backend: decode one instruction from the bytes that begin
/// at `offset` of the input, located at `address`.
#[derive(PartialEq, Eq, Structural, Clone, Copy, Debug)]
pub struct DecodeRequest {
    pub offset: usize,
    pub address: u64,
}

/// `start + offset` in the 64-bit address space, wrapping past its end.
pub open spec fn address_at(start: u64, offset: int) -> int {
    (start + offset) % 0x1_0000_0000_0000_0000
}

/// A copy of `length` bytes of `bytes` from `from` on.
fn copy_range(bytes: &Vec<u8>, from: usize, length: usize) -> (r: Vec<u8>)
    requires
        from + length <= bytes@.len(),
    ensures
        r@ == bytes@.subrange(from as int, from + length),
{
    let mut chunk: Vec<u8> = Vec::new();
    let mut j: usize = 0;
    while j < length
        invariant
            j <= length,
            from + length <= bytes.len(),
            chunk@ == bytes@.subrange(from as int, from + j),
        decreases length - j,
    {
        chunk.push(bytes[from + j]);
        proof {
            assert(chunk@ =~= bytes@.subrange(from as int, from + j + 1));
        }
        j = j + 1;
    }
    chunk
}

/// State of one disassembly call.
pub struct Disassembly {
    bytes: Vec<u8>,
    start: u64,
    count: usize,
    cursor: usize,
    instructions: Vec<Instruction>,
}

impl Disassembly {
    /// The input bytes.
    pub closed spec fn bytes(&self) -> Seq<u8> {
        self.bytes@
    }

    /// Address of the first input byte.
    pub closed spec fn start(&self) -> u64 {
        self.start
    }

    /// Most instructions to produce; zero for no limit.
    pub closed spec fn count(&self) -> usize {
        self.count
    }

    /// Number of input bytes decoded so far.
    pub closed spec fn cursor(&self) -> int {
        self.cursor as int
    }

    /// The instructions decoded so far.
    pub closed spec fn instructions(&self) -> Seq<Instruction> {
        self.instructions@
    }

    /// The decoded instructions cover the input up to the cursor, back to
    /// back, each at least one byte long, and respect the count limit.
    pub closed spec fn wf(&self) -> bool {
        &&& self.cursor <= self.bytes@.len()
        &&& flat_bytes(self.instructions@) == self.bytes@.take(self.cursor as int)
        &&& forall|i: int| 0 <= i < self.instructions@.len() ==> (#[trigger] self.instructions@[i]).bytes@.len() > 0
            && self.instructions@[i].address == address_at(self.start, flat_bytes(self.instructions@.take(i)).len() as int)
        &&& self.count != 0 ==> self.instructions@.len() <= self.count
    }

    /// What a well-formed disassembly guarantees: the cursor lies within the
    /// input, the decoded instructions' bytes are exactly the input before
    /// the cursor, each instruction holds at least one byte and sits at its
    /// offset from the start, and the count limit is respected.
    pub proof fn lemma_wf_facts(&self)
        requires
            self.wf(),
        ensures
            0 <= self.cursor() <= self.bytes().len(),
            flat_bytes(self.instructions()) == self.bytes().take(self.cursor()),
            forall|i: int| 0 <= i < self.instructions().len() ==> (#[trigger] self.instructions()[i]).bytes@.len() > 0
                && self.instructions()[i].address == address_at(
                self.start(),
                flat_bytes(self.instructions().take(i)).len() as int,
            ),
            self.count() != 0 ==> self.instructions().len() <= self.count(),
    {
    }

    /// Whether the loop has stopped: the input is used up, or `count`
    /// instructions have been produced.
    pub open spec fn done(&self) -> bool {
        self.cursor() == self.bytes().len() || (self.count() != 0 && self.instructions().len() == self.count())
    }

    /// A disassembly of `bytes` located at `address`, producing at most
    /// `count` instructions, or all of them if `count` is zero.
    pub fn new(bytes: Vec<u8>, address: u64, count: usize) -> (r: Disassembly)
        ensures
            r.wf(),
            r.bytes() == bytes@,
            r.start() == address,
            r.count() == count,
            r.cursor() == 0,
            r.instructions() == Seq::<Instruction>::empty(),
    {
        let r = Disassembly { bytes, start: address, count, cursor: 0, instructions: Vec::new() };
        proof {
            assert(r.bytes@.take(0) =~= Seq::<u8>::empty());
        }
        r
    }

    /// The next decode that the backend should perform, or `None` once the loop is done.
    pub fn next_request(&self) -> (r: Option<DecodeRequest>)
        requires
            self.wf(),
        ensures
            self.done() ==> r is None,
            r is Some ==> r->Some_0.offset < self.bytes().len(),
            !self.done() ==> r == Some(
                DecodeRequest { offset: self.cursor() as usize, address: address_at(self.start(), self.cursor()) as u64 },
            ),
    {
        if self.cursor == self.bytes.len() || (self.count != 0 && self.instructions.len() == self.count) {
            return None;
        }
        Some(DecodeRequest { offset: self.cursor, address: self.start.wrapping_add(self.cursor as u64) })
    }

    /// The backend decoded `assembly` from the next `length` bytes. A length
    /// of zero, or one past the end of the input, is no valid decode: then
    /// nothing changes and `false` is returned.
    pub fn on_decoded(&mut self, assembly: String, length: usize) -> (r: bool)
        requires
            old(self).wf(),
            !old(self).done(),
        ensures
            final(self).wf(),
            final(self).bytes() == old(self).bytes(),
            final(self).start() == old(self).start(),
            final(self).count() == old(self).count(),
            r == (0 < length <= old(self).bytes().len() - old(self).cursor()),
            !r ==> final(self).cursor() == old(self).cursor() && final(self).instructions() == old(self).instructions(),
            r ==> final(self).cursor() == old(self).cursor() + length,
            r ==> final(self).instructions().len() == old(self).instructions().len() + 1
                && final(self).instructions().drop_last() == old(self).instructions(),
            r ==> final(self).instructions().last().address == address_at(old(self).start(), old(self).cursor()),
            r ==> final(self).instructions().last().assembly == assembly,
            r ==> final(self).instructions().last().bytes@ == old(self).bytes().subrange(
                old(self).cursor(),
                old(self).cursor() + length,
            ),
    {
        if length == 0 || length > self.bytes.len() - self.cursor {
            return false;
        }
        let chunk = copy_range(&self.bytes, self.cursor, length);
        let address = self.start.wrapping_add(self.cursor as u64);
        let ghost s = self.instructions@;
        let x = Instruction { address, assembly, bytes: chunk };
        self.instructions.push(x);
        proof {
            lemma_flat_bytes_push(s, x);
            assert(self.bytes@.take(self.cursor + length) =~= self.bytes@.take(self.cursor as int) + chunk@);
            assert(s.push(x).take(s.len() as int) =~= s);
            assert forall|i: int| 0 <= i < self.instructions@.len() implies (#[trigger] self.instructions@[i]).bytes@.len() > 0
                && self.instructions@[i].address == address_at(self.start, flat_bytes(self.instructions@.take(i)).len() as int) by {
                if i < s.len() {
                    assert(self.instructions@.take(i) =~= s.take(i));
                    assert(self.instructions@[i] == s[i]);
                }
            }
        }
        self.cursor = self.cursor + length;
        true
    }

    /// The instructions decoded so far.
    pub fn finish(self) -> (r: Vec<Instruction>)
        requires
            self.wf(),
        ensures
            r@ == self.instructions(),
    {
        self.instructions
    }

    /// The backend could not decode the next instruction. Before any
    /// instruction was decoded this is an error; afterwards the result is
    /// what was decoded so far.
    pub fn fail(self) -> (r: Result<Vec<Instruction>, DisassembleError>)
        requires
            self.wf(),
        ensures
            self.instructions().len() == 0 ==> r == Err::<Vec<Instruction>, DisassembleError>(
                DisassembleError::InvalidInstruction { address: self.start() },
            ),
            self.instructions().len() > 0 ==> r is Ok && r->Ok_0@ == self.instructions(),
    {
        if self.instructions.len() == 0 {
            return Err(DisassembleError::InvalidInstruction { address: self.start });
        }
        Ok(self.instructions)
    }
}

} // verus!
