//! Fixups: the slots of an instruction encoding that refer to a label, either
//! relative to the program counter or by absolute address; the
//! range and alignment each can represent, and the choice of the smallest
//! encoding that can reach a label.
use vstd::prelude::*;

verus! {

/// Point from which the value of a fixup is measured.
#[derive(PartialEq, Eq, Structural, Clone, Copy, Debug)]
pub enum ReferencePoint {
    /// The program counter as the instruction sees it.
    Pc,
    /// The program counter rounded down to a 4-byte boundary.
    AlignedPc,
    /// Address zero: the field holds the target address itself.
    Absolute,
}

/// How the displacement field stores its value.
#[derive(PartialEq, Eq, Structural, Clone, Copy, Debug)]
pub enum OffsetSign {
    /// Non-negative offsets only.
    Unsigned,
    /// Two's complement.
    Signed,
    /// A magnitude field plus a separate add/subtract bit.
    SignMagnitude,
}

/// What one field of one encoding can represent: `bit_width` bits holding
/// the offset divided by `alignment`, measured from `reference` (for a
/// program-counter reference, after adding `pc_bias` to the instruction's
/// address; an absolute field holds the target address itself).
#[derive(PartialEq, Eq, Structural, Clone, Copy, Debug)]
pub struct FixupKind {
    pub bit_width: u32,
    pub alignment: u32,
    pub sign: OffsetSign,
    pub reference: ReferencePoint,
    pub pc_bias: u32,
}

/// Largest bit width of a displacement field.
pub const MAX_FIXUP_BITS: u32 = 64;

/// Largest alignment of a displacement field.
pub const MAX_FIXUP_ALIGNMENT: u32 = 4096;

/// 2 to the power `n`.
pub open spec fn two_pow(n: nat) -> nat
    decreases n,
{
    if n == 0 {
        1
    } else {
        2 * two_pow((n - 1) as nat)
    }
}

/// Powers of two up to the 64th are positive and at most 2^64.
proof fn lemma_two_pow_bounds(n: nat)
    requires
        n <= 64,
    ensures
        1 <= two_pow(n) <= two_pow(64),
        two_pow(64) == 0x1_0000_0000_0000_0000,
{
    lemma_two_pow_64();
    lemma_two_pow_pos(n);
    lemma_two_pow_mono(n, 64);
}

/// 2^64 spelled out.
proof fn lemma_two_pow_64()
    ensures
        two_pow(64) == 0x1_0000_0000_0000_0000,
{
    reveal_with_fuel(two_pow, 65);
}

/// Powers of two are positive.
proof fn lemma_two_pow_pos(n: nat)
    ensures
        two_pow(n) >= 1,
    decreases n,
{
    if n > 0 {
        lemma_two_pow_pos((n - 1) as nat);
    }
}

/// Powers of two grow with the exponent.
proof fn lemma_two_pow_mono(a: nat, b: nat)
    requires
        a <= b,
    ensures
        two_pow(a) <= two_pow(b),
    decreases b,
{
    if a < b {
        lemma_two_pow_mono(a, (b - 1) as nat);
    }
}

impl FixupKind {
    /// Width and alignment lie within the supported bounds.
    pub open spec fn wf(&self) -> bool {
        &&& 1 <= self.bit_width <= MAX_FIXUP_BITS
        &&& 1 <= self.alignment <= MAX_FIXUP_ALIGNMENT
    }

    /// Smallest offset the field can represent.
    pub open spec fn min_spec(&self) -> int {
        match self.sign {
            OffsetSign::Unsigned => 0,
            OffsetSign::Signed => -(two_pow((self.bit_width - 1) as nat) * self.alignment),
            OffsetSign::SignMagnitude => -((two_pow(self.bit_width as nat) - 1) * self.alignment),
        }
    }

    /// Largest offset the field can represent.
    pub open spec fn max_spec(&self) -> int {
        match self.sign {
            OffsetSign::Signed => (two_pow((self.bit_width - 1) as nat) - 1) * self.alignment,
            _ => (two_pow(self.bit_width as nat) - 1) * self.alignment,
        }
    }

    /// Whether the field can hold `offset`: within range and a multiple of the alignment.
    pub open spec fn holds(&self, offset: int) -> bool {
        &&& self.min_spec() <= offset <= self.max_spec()
        &&& offset % (self.alignment as int) == 0
    }

    /// The address from which the offset of an instruction at `address` is measured.
    pub open spec fn reference_spec(&self, address: int) -> int {
        let pc = address + self.pc_bias;
        match self.reference {
            ReferencePoint::Pc => pc,
            ReferencePoint::AlignedPc => pc - pc % 4,
            ReferencePoint::Absolute => 0,
        }
    }

    /// The offset from an instruction at `address` to `target`.
    pub open spec fn offset_spec(&self, address: int, target: int) -> int {
        target - self.reference_spec(address)
    }

    /// Whether an instruction at `address` can reach `target` through this field.
    pub open spec fn reaches(&self, address: int, target: int) -> bool {
        self.holds(self.offset_spec(address, target))
    }

    /// The range of a well-formed field lies within plus or minus 2^76.
    proof fn lemma_range_bounds(&self)
        requires
            self.wf(),
        ensures
            -0x1_0000_0000_0000_0000 * 4096 <= self.min_spec() <= 0 <= self.max_spec() <= 0x1_0000_0000_0000_0000 * 4096,
    {
        lemma_two_pow_bounds(self.bit_width as nat);
        lemma_two_pow_bounds((self.bit_width - 1) as nat);
        let p = two_pow(self.bit_width as nat);
        let q = two_pow((self.bit_width - 1) as nat);
        let a = self.alignment as int;
        assert(0 <= (p - 1) * a <= 0x1_0000_0000_0000_0000 * 4096) by (nonlinear_arith)
            requires
                1 <= p <= 0x1_0000_0000_0000_0000,
                1 <= a <= 4096,
        ;
        assert(0 <= q * a <= 0x1_0000_0000_0000_0000 * 4096) by (nonlinear_arith)
            requires
                1 <= q <= 0x1_0000_0000_0000_0000,
                1 <= a <= 4096,
        ;
        assert(0 <= (q - 1) * a <= 0x1_0000_0000_0000_0000 * 4096) by (nonlinear_arith)
            requires
                1 <= q <= 0x1_0000_0000_0000_0000,
                1 <= a <= 4096,
        ;
    }

    /// 2 to the power `n`.
    fn power_of_two(n: u32) -> (r: i128)
        requires
            n <= 64,
        ensures
            r == two_pow(n as nat),
    {
        let mut r: i128 = 1;
        let mut i: u32 = 0;
        while i < n
            invariant
                i <= n <= 64,
                r == two_pow(i as nat),
            decreases n - i,
        {
            proof {
                lemma_two_pow_bounds((i + 1) as nat);
            }
            r = r * 2;
            i = i + 1;
        }
        r
    }

    /// Smallest offset the field can represent.
    pub fn min_offset(&self) -> (r: i128)
        requires
            self.wf(),
        ensures
            r == self.min_spec(),
    {
        proof {
            self.lemma_range_bounds();
        }
        let a = self.alignment as i128;
        match self.sign {
            OffsetSign::Unsigned => 0,
            OffsetSign::Signed => {
                let q = FixupKind::power_of_two(self.bit_width - 1);
                -(q * a)
            },
            OffsetSign::SignMagnitude => {
                let p = FixupKind::power_of_two(self.bit_width);
                -((p - 1) * a)
            },
        }
    }

    /// Largest offset the field can represent.
    pub fn max_offset(&self) -> (r: i128)
        requires
            self.wf(),
        ensures
            r == self.max_spec(),
    {
        proof {
            self.lemma_range_bounds();
        }
        let a = self.alignment as i128;
        match self.sign {
            OffsetSign::Signed => {
                let q = FixupKind::power_of_two(self.bit_width - 1);
                (q - 1) * a
            },
            _ => {
                let p = FixupKind::power_of_two(self.bit_width);
                (p - 1) * a
            },
        }
    }

    /// Whether the field can hold `offset`.
    pub fn can_hold(&self, offset: i128) -> (r: bool)
        requires
            self.wf(),
        ensures
            r == self.holds(offset as int),
    {
        let lo = self.min_offset();
        let hi = self.max_offset();
        if offset < lo || offset > hi {
            return false;
        }
        proof {
            self.lemma_range_bounds();
        }
        let a = self.alignment as u128;
        if offset >= 0 {
            (offset as u128) % a == 0
        } else {
            let m = (-offset) as u128;
            proof {
                let x = offset as int;
                let q = a as int;
                assert((-x) % q == 0 <==> x % q == 0) by (nonlinear_arith)
                    requires
                        q > 0,
                {
                    if (-x) % q == 0 {
                        let d = (-x) / q;
                        assert(-x == d * q);
                        assert(x == (-d) * q);
                        vstd::arithmetic::div_mod::lemma_mod_multiples_basic(-d, q);
                    }
                    if x % q == 0 {
                        let d = x / q;
                        assert(x == d * q);
                        assert(-x == (-d) * q);
                        vstd::arithmetic::div_mod::lemma_mod_multiples_basic(-d, q);
                    }
                }
            }
            m % a == 0
        }
    }

    /// The address from which the offset of an instruction at `address` is measured.
    pub fn reference_address(&self, address: u64) -> (r: u128)
        ensures
            r == self.reference_spec(address as int),
    {
        let pc = address as u128 + self.pc_bias as u128;
        match self.reference {
            ReferencePoint::Pc => pc,
            ReferencePoint::AlignedPc => pc - pc % 4,
            ReferencePoint::Absolute => 0,
        }
    }

    /// The offset from an instruction at `address` to `target`.
    pub fn offset_to(&self, address: u64, target: u64) -> (r: i128)
        ensures
            r == self.offset_spec(address as int, target as int),
    {
        target as i128 - self.reference_address(address) as i128
    }

    /// Whether an instruction at `address` can reach `target` through this field.
    pub fn can_reach(&self, address: u64, target: u64) -> (r: bool)
        requires
            self.wf(),
        ensures
            r == self.reaches(address as int, target as int),
    {
        self.can_hold(self.offset_to(address, target))
    }
}

/// Boundary law of a displacement field: both ends of its range are held,
/// as is every multiple of the alignment between them; the offsets one past
/// either end, and every offset that is not a multiple of the alignment, are
/// not held.
pub proof fn lemma_offset_boundaries(k: FixupKind, offset: int)
    requires
        k.wf(),
    ensures
        k.holds(k.min_spec()),
        k.holds(k.max_spec()),
        k.min_spec() <= offset <= k.max_spec() && offset % (k.alignment as int) == 0 ==> k.holds(offset),
        !k.holds(k.min_spec() - 1),
        !k.holds(k.max_spec() + 1),
        offset % (k.alignment as int) != 0 ==> !k.holds(offset),
{
    k.lemma_range_bounds();
    let a = k.alignment as int;
    let p = two_pow(k.bit_width as nat) as int;
    let q = two_pow((k.bit_width - 1) as nat) as int;
    vstd::arithmetic::div_mod::lemma_mod_multiples_basic(-q, a);
    vstd::arithmetic::div_mod::lemma_mod_multiples_basic(q - 1, a);
    vstd::arithmetic::div_mod::lemma_mod_multiples_basic(p - 1, a);
    vstd::arithmetic::div_mod::lemma_mod_multiples_basic(-(p - 1), a);
    vstd::arithmetic::div_mod::lemma_mod_multiples_basic(0, a);
    assert(-(q * a) == (-q) * a) by (nonlinear_arith);
    assert(-((p - 1) * a) == (-(p - 1)) * a) by (nonlinear_arith);
    assert(0 * a == 0);
}

/// Index of the first of `candidates` through which an instruction at
/// `address` reaches `target`: with candidates listed from the smallest
/// encoding up, the smallest encoding that is legal for this label.
pub fn select_encoding(candidates: &Vec<FixupKind>, address: u64, target: u64) -> (r: Option<usize>)
    requires
        forall|i: int| 0 <= i < candidates@.len() ==> (#[trigger] candidates@[i]).wf(),
    ensures
        match r {
            Some(i) => i < candidates@.len() && candidates@[i as int].reaches(address as int, target as int)
                && forall|j: int| 0 <= j < i ==> !(#[trigger] candidates@[j]).reaches(
                address as int,
                target as int,
            ),
            None => forall|j: int| 0 <= j < candidates@.len() ==> !(#[trigger] candidates@[j]).reaches(
                address as int,
                target as int,
            ),
        },
{
    let mut i: usize = 0;
    while i < candidates.len()
        invariant
            i <= candidates@.len(),
            forall|k: int| 0 <= k < candidates@.len() ==> (#[trigger] candidates@[k]).wf(),
            forall|j: int| 0 <= j < i ==> !(#[trigger] candidates@[j]).reaches(address as int, target as int),
        decreases candidates@.len() - i,
    {
        if candidates[i].can_reach(address, target) {
            return Some(i);
        }
        i = i + 1;
    }
    None
}

} // verus!
