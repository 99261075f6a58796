//! Capture of assembled output: the backend reports each source instruction
//! with its final bytes, and each fixup it applied; the capture assigns
//! addresses, keeps the instructions laid out back to back, and re-validates
//! every fixup before any output is handed out.
use vstd::prelude::*;
use crate::fixup::FixupKind;
use crate::instruction::{Instruction, flat_bytes, laid_out, bytes_before, lemma_flat_bytes_push, lemma_bytes_before_prefix};

verus! {

/// A fixup that the backend applied: a displacement field of the given kind in
/// instruction number `instruction`, resolved against the address `target`.
#[derive(PartialEq, Eq, Structural, Clone, Copy, Debug)]
pub struct AppliedFixup {
    pub kind: FixupKind,
    pub target: u64,
    pub instruction: usize,
}

/// Why assembling failed.
#[derive(Clone, Debug, PartialEq, Eq)]
pub enum AssembleError {
    /// A diagnostic of the backend: parse failure, unknown mnemonic, unresolved label.
    Backend(String),
    /// The instructions would extend past the end of the 64-bit address space.
    AddressOverflow,
    /// A fixup was reported before any instruction.
    FixupWithoutInstruction,
    /// The displacement to a label lies outside what the instruction's field can hold.
    FixupOutOfRange { instruction: usize },
    /// The displacement to a label is in range but not a multiple of the field's alignment.
    FixupMisaligned { instruction: usize },
}

/// The error for a fixup that its instruction cannot hold.
pub open spec fn fixup_error(f: AppliedFixup, instrs: Seq<Instruction>) -> AssembleError {
    let off = f.kind.offset_spec(instrs[f.instruction as int].address as int, f.target as int);
    if f.kind.min_spec() <= off <= f.kind.max_spec() {
        AssembleError::FixupMisaligned { instruction: f.instruction }
    } else {
        AssembleError::FixupOutOfRange { instruction: f.instruction }
    }
}

/// Whether the instruction that `f` belongs to can hold it.
pub open spec fn fixup_holds(f: AppliedFixup, instrs: Seq<Instruction>) -> bool {
    f.kind.reaches(instrs[f.instruction as int].address as int, f.target as int)
}

/// The outcome of validating `fixups` in order: the error of the first one
/// that does not hold, if any.
pub open spec fn validate_spec(fixups: Seq<AppliedFixup>, instrs: Seq<Instruction>) -> Result<(), AssembleError>
    decreases fixups.len(),
{
    if fixups.len() == 0 {
        Ok(())
    } else if !fixup_holds(fixups[0], instrs) {
        Err(fixup_error(fixups[0], instrs))
    } else {
        validate_spec(fixups.drop_first(), instrs)
    }
}

/// Every fixup holds exactly when validation succeeds.
pub proof fn lemma_validate_ok(fixups: Seq<AppliedFixup>, instrs: Seq<Instruction>)
    ensures
        validate_spec(fixups, instrs) is Ok <==> forall|i: int| 0 <= i < fixups.len() ==> fixup_holds(#[trigger] fixups[i], instrs),
    decreases fixups.len(),
{
    if fixups.len() > 0 {
        lemma_validate_ok(fixups.drop_first(), instrs);
        if forall|i: int| 0 <= i < fixups.drop_first().len() ==> fixup_holds(#[trigger] fixups.drop_first()[i], instrs) {
            if fixup_holds(fixups[0], instrs) {
                assert forall|i: int| 0 <= i < fixups.len() implies fixup_holds(#[trigger] fixups[i], instrs) by {
                    if i > 0 {
                        assert(fixups[i] == fixups.drop_first()[i - 1]);
                    }
                }
            }
        } else {
            let j = choose|j: int| 0 <= j < fixups.drop_first().len() && !fixup_holds(#[trigger] fixups.drop_first()[j], instrs);
            assert(fixups[j + 1] == fixups.drop_first()[j]);
        }
    }
}

/// Validation depends on nothing but the instructions and the fixups: two
/// captures that hold the same start, instructions and fixups validate alike
/// and have the same flat byte buffer, so repeating an assemble pass with the
/// same backend output gives the same result.
pub proof fn lemma_capture_deterministic(a: InstructionCapture, b: InstructionCapture)
    requires
        a.start() == b.start(),
        a.instructions() == b.instructions(),
        a.fixups() == b.fixups(),
    ensures
        validate_spec(a.fixups(), a.instructions()) == validate_spec(b.fixups(), b.instructions()),
        flat_bytes(a.instructions()) == flat_bytes(b.instructions()),
        a.next_address() == b.next_address(),
{
}

/// Observer of one assemble pass of the backend.
pub struct InstructionCapture {
    start: u64,
    next: u128,
    instructions: Vec<Instruction>,
    fixups: Vec<AppliedFixup>,
}

impl InstructionCapture {
    /// Address of the first instruction.
    pub closed spec fn start(&self) -> u64 {
        self.start
    }

    /// The instructions captured so far.
    pub closed spec fn instructions(&self) -> Seq<Instruction> {
        self.instructions@
    }

    /// The fixups reported so far.
    pub closed spec fn fixups(&self) -> Seq<AppliedFixup> {
        self.fixups@
    }

    /// The instructions are laid out from the start address and every fixup
    /// belongs to a captured instruction.
    pub closed spec fn wf(&self) -> bool {
        &&& laid_out(self.instructions@, self.start as int)
        &&& self.next == self.start + flat_bytes(self.instructions@).len()
        &&& forall|i: int| 0 <= i < self.fixups@.len() ==> (#[trigger] self.fixups@[i]).instruction < self.instructions@.len()
            && self.fixups@[i].kind.wf()
    }

    /// A capture of a pass that starts at `start`.
    pub fn new(start: u64) -> (r: InstructionCapture)
        ensures
            r.wf(),
            r.start() == start,
            r.instructions() == Seq::<Instruction>::empty(),
            r.fixups() == Seq::<AppliedFixup>::empty(),
    {
        InstructionCapture { start, next: start as u128, instructions: Vec::new(), fixups: Vec::new() }
    }

    /// Address at which the next instruction will be placed.
    pub open spec fn next_address(&self) -> int {
        self.start() + flat_bytes(self.instructions()).len()
    }

    /// What a well-formed capture guarantees: its instructions lie back to
    /// back from the start address, and every fixup belongs to one of them
    /// and has a well-formed kind.
    pub proof fn lemma_wf_facts(&self)
        requires
            self.wf(),
        ensures
            laid_out(self.instructions(), self.start() as int),
            self.next_address() <= 0x1_0000_0000_0000_0000,
            forall|i: int| 0 <= i < self.fixups().len() ==> (#[trigger] self.fixups()[i]).instruction
                < self.instructions().len() && self.fixups()[i].kind.wf(),
    {
    }

    /// The backend emitted the final encoding `bytes` of the source
    /// instruction `assembly`. An emission without bytes (a label, an empty
    /// line) adds no instruction.
    pub fn on_instruction(&mut self, assembly: String, bytes: Vec<u8>) -> (r: Result<(), AssembleError>)
        requires
            old(self).wf(),
        ensures
            final(self).wf(),
            final(self).start() == old(self).start(),
            final(self).fixups() == old(self).fixups(),
            bytes@.len() == 0 ==> r is Ok && final(self).instructions() == old(self).instructions(),
            bytes@.len() > 0 && old(self).next_address() + bytes@.len() <= 0x1_0000_0000_0000_0000 ==> r is Ok
                && final(self).instructions() == old(self).instructions().push(
                (Instruction { address: old(self).next_address() as u64, assembly, bytes }),
            ),
            bytes@.len() > 0 && old(self).next_address() + bytes@.len() > 0x1_0000_0000_0000_0000 ==> r
                == Err::<(), AssembleError>(AssembleError::AddressOverflow) && final(self).instructions()
                == old(self).instructions(),
    {
        let len = bytes.len();
        if len == 0 {
            return Ok(());
        }
        if self.next + len as u128 > 0x1_0000_0000_0000_0000 {
            return Err(AssembleError::AddressOverflow);
        }
        let ghost s = self.instructions@;
        let x = Instruction { address: self.next as u64, assembly, bytes };
        self.instructions.push(x);
        proof {
            lemma_flat_bytes_push(s, x);
            assert(s.push(x).take(s.len() as int) =~= s);
            assert forall|i: int| 0 <= i < s.len() + 1 implies (#[trigger] self.instructions@[i]).address
                == self.start + bytes_before(self.instructions@, i) by {
                lemma_bytes_before_prefix(s, x, i);
                if i < s.len() {
                    assert(s.take(i) == s.push(x).take(i));
                }
            }
            assert forall|i: int| 0 <= i < s.len() + 1 implies (#[trigger] self.instructions@[i]).bytes@.len() > 0 by {
                if i < s.len() {
                    assert(self.instructions@[i] == s[i]);
                }
            }
        }
        self.next = self.next + len as u128;
        Ok(())
    }

    /// The backend applied a fixup of kind `kind` against `target` in the most
    /// recently emitted instruction.
    pub fn on_fixup(&mut self, kind: FixupKind, target: u64) -> (r: Result<(), AssembleError>)
        requires
            old(self).wf(),
            kind.wf(),
        ensures
            final(self).wf(),
            final(self).start() == old(self).start(),
            final(self).instructions() == old(self).instructions(),
            old(self).instructions().len() == 0 ==> r == Err::<(), AssembleError>(
                AssembleError::FixupWithoutInstruction,
            ) && final(self).fixups() == old(self).fixups(),
            old(self).instructions().len() > 0 ==> r is Ok && final(self).fixups() == old(self).fixups().push(
                AppliedFixup { kind, target, instruction: (old(self).instructions().len() - 1) as usize },
            ),
    {
        let n = self.instructions.len();
        if n == 0 {
            return Err(AssembleError::FixupWithoutInstruction);
        }
        self.fixups.push(AppliedFixup { kind, target, instruction: n - 1 });
        Ok(())
    }

    /// Validates every reported fixup against the final addresses and, if all
    /// hold, hands out the instructions.
    pub fn finish(self) -> (r: Result<Vec<Instruction>, AssembleError>)
        requires
            self.wf(),
        ensures
            match validate_spec(self.fixups(), self.instructions()) {
                Ok(_) => r is Ok && r->Ok_0@ == self.instructions(),
                Err(e) => r == Err::<Vec<Instruction>, AssembleError>(e),
            },
            r is Ok <==> forall|i: int| 0 <= i < self.fixups().len() ==> fixup_holds(
                #[trigger] self.fixups()[i],
                self.instructions(),
            ),
            r is Ok ==> laid_out(r->Ok_0@, self.start() as int),
    {
        proof {
            lemma_validate_ok(self.fixups@, self.instructions@);
        }
        let mut i: usize = 0;
        proof {
            assert(self.fixups@.skip(0) =~= self.fixups@);
        }
        while i < self.fixups.len()
            invariant
                self.wf(),
                i <= self.fixups@.len(),
                validate_spec(self.fixups@, self.instructions@) == validate_spec(self.fixups@.skip(i as int), self.instructions@),
            decreases self.fixups@.len() - i,
        {
            let f = self.fixups[i];
            let address = self.instructions[f.instruction].address;
            proof {
                assert(self.fixups@.skip(i as int)[0] == f);
                assert(self.fixups@.skip(i as int).drop_first() =~= self.fixups@.skip(i as int + 1));
            }
            let off = f.kind.offset_to(address, f.target);
            if !f.kind.can_hold(off) {
                if f.kind.min_offset() <= off && off <= f.kind.max_offset() {
                    return Err(AssembleError::FixupMisaligned { instruction: f.instruction });
                } else {
                    return Err(AssembleError::FixupOutOfRange { instruction: f.instruction });
                }
            }
            i = i + 1;
        }
        Ok(self.instructions)
    }
}

} // verus!
