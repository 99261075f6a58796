//! Instructions as produced by either direction, and the views of a list of
//! them: their flat byte buffer, their layout in memory and their text.
use vstd::prelude::*;
use vstd::string::*;

verus! {

/// Instruction details.
#[derive(Clone, Debug, PartialEq, Eq)]
pub struct Instruction {
    /// Absolute address of the instruction.
    pub address: u64,
    /// Assembly string representing the instruction.
    pub assembly: String,
    /// Byte code of the instruction.
    pub bytes: Vec<u8>,
}

/// The bytes of all instructions, concatenated in order.
pub open spec fn flat_bytes(instrs: Seq<Instruction>) -> Seq<u8>
    decreases instrs.len(),
{
    if instrs.len() == 0 {
        Seq::empty()
    } else {
        flat_bytes(instrs.drop_last()) + instrs.last().bytes@
    }
}

/// Number of bytes of the first `i` instructions.
pub open spec fn bytes_before(instrs: Seq<Instruction>, i: int) -> int {
    flat_bytes(instrs.take(i)).len() as int
}

/// The instructions lie back to back from `start`: each holds at least one
/// byte and begins where the previous one ends, and the last one ends within
/// the 64-bit address space.
pub open spec fn laid_out(instrs: Seq<Instruction>, start: int) -> bool {
    &&& forall|i: int| 0 <= i < instrs.len() ==> (#[trigger] instrs[i]).bytes@.len() > 0
    &&& forall|i: int| 0 <= i < instrs.len() ==> (#[trigger] instrs[i]).address == start + bytes_before(instrs, i)
    &&& start + flat_bytes(instrs).len() <= 0x1_0000_0000_0000_0000
}

/// The text of one instruction per line, each line ended by a newline.
pub open spec fn listing(instrs: Seq<Instruction>) -> Seq<char>
    decreases instrs.len(),
{
    if instrs.len() == 0 {
        Seq::empty()
    } else {
        listing(instrs.drop_last()) + instrs.last().assembly@ + seq!['\n']
    }
}

/// Appending an instruction appends its bytes.
pub proof fn lemma_flat_bytes_push(instrs: Seq<Instruction>, x: Instruction)
    ensures
        flat_bytes(instrs.push(x)) == flat_bytes(instrs) + x.bytes@,
{
    assert(instrs.push(x).drop_last() =~= instrs);
}

/// Appending an instruction leaves the offsets of the earlier ones unchanged.
pub proof fn lemma_bytes_before_prefix(instrs: Seq<Instruction>, x: Instruction, i: int)
    requires
        0 <= i <= instrs.len(),
    ensures
        bytes_before(instrs.push(x), i) == bytes_before(instrs, i),
{
    assert(instrs.push(x).take(i) =~= instrs.take(i));
}

/// The flat byte buffer of a list of instructions.
pub fn assembled_bytes(instrs: &Vec<Instruction>) -> (r: Vec<u8>)
    ensures
        r@ == flat_bytes(instrs@),
{
    let mut out: Vec<u8> = Vec::new();
    let mut i: usize = 0;
    while i < instrs.len()
        invariant
            i <= instrs@.len(),
            out@ == flat_bytes(instrs@.take(i as int)),
        decreases instrs@.len() - i,
    {
        let ghost prev = out@;
        let b = &instrs[i].bytes;
        let mut j: usize = 0;
        while j < b.len()
            invariant
                j <= b@.len(),
                out@ == prev + b@.take(j as int),
            decreases b@.len() - j,
        {
            out.push(b[j]);
            proof {
                assert(b@.take(j as int + 1) =~= b@.take(j as int).push(b@[j as int]));
                assert(out@ =~= prev + b@.take(j as int + 1));
            }
            j = j + 1;
        }
        proof {
            assert(b@.take(j as int) =~= b@);
            assert(instrs@.take(i as int + 1).drop_last() =~= instrs@.take(i as int));
        }
        i = i + 1;
    }
    proof {
        assert(instrs@.take(i as int) =~= instrs@);
    }
    out
}

/// The text form of a list of instructions: one line per instruction, each
/// ended by a newline.
pub fn instructions_to_text(instrs: &Vec<Instruction>) -> (r: String)
    ensures
        r@ == listing(instrs@),
{
    let mut out = String::new();
    let mut i: usize = 0;
    while i < instrs.len()
        invariant
            i <= instrs@.len(),
            out@ == listing(instrs@.take(i as int)),
        decreases instrs@.len() - i,
    {
        out.append(instrs[i].assembly.as_str());
        out.append("\n");
        proof {
            reveal_strlit("\n");
            assert(instrs@.take(i as int + 1).drop_last() =~= instrs@.take(i as int));
            assert(out@ =~= listing(instrs@.take(i as int + 1)));
        }
        i = i + 1;
    }
    proof {
        assert(instrs@.take(i as int) =~= instrs@);
    }
    out
}

/// Whether `instrs` lie back to back from `start` (see [`laid_out`]).
pub fn check_layout(instrs: &Vec<Instruction>, start: u64) -> (r: bool)
    ensures
        r == laid_out(instrs@, start as int),
{
    let mut next: u128 = start as u128;
    let mut i: usize = 0;
    while i < instrs.len()
        invariant
            i <= instrs@.len(),
            next == start + bytes_before(instrs@, i as int),
            next <= 0x1_0000_0000_0000_0000,
            laid_out(instrs@.take(i as int), start as int),
        decreases instrs@.len() - i,
    {
        let ghost t = instrs@.take(i as int);
        let ghost t1 = instrs@.take(i as int + 1);
        proof {
            assert(t1 =~= t.push(instrs@[i as int]));
            lemma_flat_bytes_push(t, instrs@[i as int]);
            assert(t1.take(i as int) =~= t);
            assert(t =~= instrs@.take(i as int).take(i as int));
        }
        let len = instrs[i].bytes.len();
        if len == 0 || instrs[i].address as u128 != next {
            proof {
                assert(!laid_out(instrs@, start as int)) by {
                    if laid_out(instrs@, start as int) {
                        assert(instrs@[i as int].bytes@.len() > 0);
                        assert(instrs@[i as int].address == start + bytes_before(instrs@, i as int));
                    }
                }
            }
            return false;
        }
        if next + len as u128 > 0x1_0000_0000_0000_0000 {
            proof {
                assert(!laid_out(instrs@, start as int)) by {
                    if laid_out(instrs@, start as int) {
                        lemma_flat_bytes_prefix(instrs@, i as int + 1);
                    }
                }
            }
            return false;
        }
        next = next + len as u128;
        proof {
            assert forall|k: int| 0 <= k < t1.len() implies (#[trigger] t1[k]).address == start + bytes_before(t1, k) by {
                if k < i {
                    lemma_bytes_before_prefix(t, instrs@[i as int], k);
                    assert(t[k] == t1[k]);
                } else {
                    lemma_bytes_before_prefix(t, instrs@[i as int], k);
                }
            }
            assert(bytes_before(instrs@, i as int + 1) == flat_bytes(t1).len());
        }
        i = i + 1;
    }
    proof {
        assert(instrs@.take(i as int) =~= instrs@);
    }
    true
}

/// The flat bytes of a list extend those of each of its prefixes.
pub proof fn lemma_flat_bytes_prefix(instrs: Seq<Instruction>, i: int)
    requires
        0 <= i <= instrs.len(),
    ensures
        flat_bytes(instrs).take(bytes_before(instrs, i)) == flat_bytes(instrs.take(i)),
        bytes_before(instrs, i) <= flat_bytes(instrs).len(),
    decreases instrs.len() - i,
{
    if i < instrs.len() {
        lemma_flat_bytes_prefix(instrs, i + 1);
        let t1 = instrs.take(i + 1);
        assert(t1.drop_last() =~= instrs.take(i));
        let b = flat_bytes(instrs);
        assert(b.take(bytes_before(instrs, i)) =~= b.take(bytes_before(instrs, i + 1)).take(bytes_before(instrs, i)));
    } else {
        assert(instrs.take(i) =~= instrs);
        assert(flat_bytes(instrs).take(flat_bytes(instrs).len() as int) =~= flat_bytes(instrs));
    }
}

/// The bytes of instruction `i` stand in the flat buffer right after those of
/// the instructions before it.
pub proof fn lemma_instruction_slice(instrs: Seq<Instruction>, i: int)
    requires
        0 <= i < instrs.len(),
    ensures
        flat_bytes(instrs).subrange(bytes_before(instrs, i), bytes_before(instrs, i) + instrs[i].bytes@.len())
            == instrs[i].bytes@,
{
    lemma_flat_bytes_prefix(instrs, i + 1);
    let t1 = instrs.take(i + 1);
    assert(t1.drop_last() =~= instrs.take(i));
    assert(t1.last() == instrs[i]);
    let b = flat_bytes(instrs);
    let lo = bytes_before(instrs, i);
    let hi = bytes_before(instrs, i + 1);
    assert(hi == lo + instrs[i].bytes@.len());
    assert(b.subrange(lo, hi) =~= b.take(hi).subrange(lo, hi));
    assert(flat_bytes(t1).subrange(lo, hi) =~= instrs[i].bytes@);
}

/// Round trip of the layout: in the flat byte buffer of instructions laid
/// out from `start`, the bytes from each instruction's boundary on, as many
/// as it holds, are its own bytes, and the boundary's address is its address.
/// A decoder that consumes each instruction's length in turn therefore sees
/// each instruction's own bytes at its own address.
pub proof fn lemma_boundaries_round_trip(instrs: Seq<Instruction>, start: u64, i: int)
    requires
        laid_out(instrs, start as int),
        0 <= i < instrs.len(),
    ensures
        flat_bytes(instrs).subrange(bytes_before(instrs, i), bytes_before(instrs, i) + instrs[i].bytes@.len())
            == instrs[i].bytes@,
        (start + bytes_before(instrs, i)) % 0x1_0000_0000_0000_0000 == instrs[i].address,
{
    lemma_instruction_slice(instrs, i);
    let x = instrs[i];
    assert(x.address == start + bytes_before(instrs, i));
    vstd::arithmetic::div_mod::lemma_small_mod(x.address as nat, 0x1_0000_0000_0000_0000nat);
}

} // verus!
