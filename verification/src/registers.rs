//! The ARM64 register file, register names and validity sets.

use vstd::prelude::*;
use vstd::string::StringSliceAdditionalSpecFns;

verus! {

/// Number of registers that a context holds: `x0`..`x30`, `sp` and `pc`.
pub const REGISTER_COUNT: usize = 33;

/// Index of the frame pointer, `x29`.
pub const FRAME_POINTER: usize = 29;

/// Index of the link register, `x30`.
pub const LINK_REGISTER: usize = 30;

/// Index of the stack pointer.
pub const STACK_POINTER: usize = 31;

/// Index of the program counter.
pub const PROGRAM_COUNTER: usize = 32;

/// Bits of a code pointer that carry an address; the bits above them may hold
/// a pointer-authentication signature.
pub const POINTER_AUTH_MASK: u64 = 0x0000_007f_ffff_ffff;

/// The address bits of a code pointer.
pub open spec fn strip_spec(ptr: u64) -> u64 {
    ptr & POINTER_AUTH_MASK
}

/// Clears the pointer-authentication bits of a code pointer.
pub fn ptr_auth_strip(ptr: u64) -> (r: u64)
    ensures
        r == strip_spec(ptr),
{
    ptr & POINTER_AUTH_MASK
}

/// A signed pointer and the same pointer with its signature bits cleared strip
/// to the same address, and stripping an address that carries no signature
/// changes nothing.
pub proof fn lemma_strip_ignores_signature(ptr: u64, signature: u64)
    requires
        signature & POINTER_AUTH_MASK == 0,
    ensures
        strip_spec(ptr | signature) == strip_spec(ptr),
        strip_spec(strip_spec(ptr)) == strip_spec(ptr),
        ptr & !POINTER_AUTH_MASK == 0 ==> strip_spec(ptr | signature) == ptr,
{
    assert((ptr | signature) & 0x0000_007f_ffff_ffffu64 == ptr & 0x0000_007f_ffff_ffffu64)
        by (bit_vector)
        requires
            signature & 0x0000_007f_ffff_ffffu64 == 0,
    ;
    assert((ptr & 0x0000_007f_ffff_ffffu64) & 0x0000_007f_ffff_ffffu64 == ptr
        & 0x0000_007f_ffff_ffffu64) by (bit_vector);
    assert(ptr & !0x0000_007f_ffff_ffffu64 == 0 ==> ptr & 0x0000_007f_ffff_ffffu64 == ptr)
        by (bit_vector);
}

/// The value of a decimal digit.
pub open spec fn digit_value(b: u8) -> Option<int> {
    if ('0' as u8) <= b <= ('9' as u8) {
        Some(b - ('0' as u8))
    } else {
        None
    }
}

/// The register that a name denotes: `pc`, `sp`, `fp` for `x29`, `lr` for
/// `x30`, and `x` followed by a number from 0 to 30, written without a leading
/// zero.
pub open spec fn register_of_name(name: Seq<u8>) -> Option<int> {
    if name == seq!['p' as u8, 'c' as u8] {
        Some(32)
    } else if name == seq!['s' as u8, 'p' as u8] {
        Some(31)
    } else if name == seq!['f' as u8, 'p' as u8] {
        Some(29)
    } else if name == seq!['l' as u8, 'r' as u8] {
        Some(30)
    } else if name.len() == 2 && name[0] == 'x' as u8 {
        digit_value(name[1])
    } else if name.len() == 3 && name[0] == 'x' as u8 {
        match (digit_value(name[1]), digit_value(name[2])) {
            (Some(tens), Some(ones)) => if tens >= 1 && 10 * tens + ones <= 30 {
                Some(10 * tens + ones)
            } else {
                None
            },
            _ => None,
        }
    } else {
        None
    }
}

/// The name of register `reg`: `x0`..`x30`, `sp` and `pc`.
pub open spec fn register_name(reg: int) -> Seq<u8> {
    if reg == 32 {
        seq!['p' as u8, 'c' as u8]
    } else if reg == 31 {
        seq!['s' as u8, 'p' as u8]
    } else if reg < 10 {
        seq!['x' as u8, ('0' as u8 + reg) as u8]
    } else {
        seq!['x' as u8, ('0' as u8 + reg / 10) as u8, ('0' as u8 + reg % 10) as u8]
    }
}

/// Every register is found under its name, and the frame pointer and the
/// link register under their second names as well.
pub proof fn lemma_register_names(reg: int)
    requires
        0 <= reg < 33,
    ensures
        register_of_name(register_name(reg)) == Some(reg),
        register_of_name(seq!['f' as u8, 'p' as u8]) == Some(29int),
        register_of_name(seq!['l' as u8, 'r' as u8]) == Some(30int),
{
    let name = register_name(reg);
    let pc = seq!['p' as u8, 'c' as u8];
    let sp = seq!['s' as u8, 'p' as u8];
    let fp = seq!['f' as u8, 'p' as u8];
    let lr = seq!['l' as u8, 'r' as u8];
    assert(pc[0] == 'p' as u8 && sp[0] == 's' as u8 && fp[0] == 'f' as u8 && lr[0] == 'l' as u8);
    assert(pc[1] == 'c' as u8 && sp[1] == 'p' as u8);
    if reg < 31 {
        assert(name[0] == 'x' as u8);
        if reg >= 10 {
            assert(name.len() == 3);
            assert(digit_value(name[1]) == Some(reg / 10));
            assert(digit_value(name[2]) == Some(reg % 10));
        } else {
            assert(name.len() == 2);
            assert(digit_value(name[1]) == Some(reg));
        }
    }
}

/// Reads a decimal digit.
fn read_decimal_digit(b: u8) -> (r: Option<usize>)
    ensures
        match r {
            Some(d) => digit_value(b) == Some(d as int) && d <= 9,
            None => digit_value(b) is None,
        },
{
    if ('0' as u8) <= b && b <= ('9' as u8) {
        Some((b - ('0' as u8)) as usize)
    } else {
        None
    }
}

/// Looks a register name up in the ARM64 name table.
pub fn register_index(name: &[u8]) -> (r: Option<usize>)
    ensures
        match r {
            Some(reg) => register_of_name(name@) == Some(reg as int) && reg < REGISTER_COUNT,
            None => register_of_name(name@) is None,
        },
{
    let ghost pc = seq!['p' as u8, 'c' as u8];
    let ghost sp = seq!['s' as u8, 'p' as u8];
    let ghost fp = seq!['f' as u8, 'p' as u8];
    let ghost lr = seq!['l' as u8, 'r' as u8];
    proof {
        assert(pc.len() == 2 && pc[0] == 'p' as u8 && pc[1] == 'c' as u8);
        assert(sp.len() == 2 && sp[0] == 's' as u8 && sp[1] == 'p' as u8);
        assert(fp.len() == 2 && fp[0] == 'f' as u8 && fp[1] == 'p' as u8);
        assert(lr.len() == 2 && lr[0] == 'l' as u8 && lr[1] == 'r' as u8);
    }
    if name.len() == 2 {
        let a: u8 = name[0];
        let b: u8 = name[1];
        if a == ('p' as u8) && b == ('c' as u8) {
            assert(name@ =~= pc);
            Some(PROGRAM_COUNTER)
        } else if a == ('s' as u8) && b == ('p' as u8) {
            assert(name@ =~= sp);
            Some(STACK_POINTER)
        } else if a == ('f' as u8) && b == ('p' as u8) {
            assert(name@ =~= fp);
            Some(FRAME_POINTER)
        } else if a == ('l' as u8) && b == ('r' as u8) {
            assert(name@ =~= lr);
            Some(LINK_REGISTER)
        } else if a == ('x' as u8) {
            read_decimal_digit(b)
        } else {
            None
        }
    } else if name.len() == 3 && name[0] == ('x' as u8) {
        match (read_decimal_digit(name[1]), read_decimal_digit(name[2])) {
            (Some(tens), Some(ones)) => if tens >= 1 && 10 * tens + ones <= 30 {
                Some(10 * tens + ones)
            } else {
                None
            },
            _ => None,
        }
    } else {
        None
    }
}

/// The registers of one ARM64 thread: `iregs[0..=30]` are `x0`..`x30`,
/// `iregs[31]` is the stack pointer, `pc` the program counter.
#[derive(Clone, Copy, Debug, PartialEq, Eq)]
pub struct Arm64Context {
    pub iregs: [u64; 32],
    pub pc: u64,
}

impl View for Arm64Context {
    type V = Seq<u64>;

    /// The 33 register values, indexed by register.
    open spec fn view(&self) -> Seq<u64> {
        Seq::new(
            33,
            |i: int|
                if i == 32 {
                    self.pc
                } else {
                    self.iregs@[i]
                },
        )
    }
}

impl Arm64Context {
    /// A context with every register zero.
    pub fn new() -> (r: Arm64Context)
        ensures
            r@ == zero_registers(),
    {
        let r = Arm64Context { iregs: [0u64; 32], pc: 0 };
        assert(r@ =~= zero_registers());
        r
    }

    /// Reads register `reg`.
    pub fn register(&self, reg: usize) -> (r: u64)
        requires
            reg < REGISTER_COUNT,
        ensures
            r == self@[reg as int],
    {
        if reg == PROGRAM_COUNTER {
            self.pc
        } else {
            self.iregs[reg]
        }
    }

    /// Writes `val` to register `reg` and leaves the others as they were.
    pub fn set(&mut self, reg: usize, val: u64)
        requires
            reg < REGISTER_COUNT,
        ensures
            final(self)@ == old(self)@.update(reg as int, val),
    {
        if reg == PROGRAM_COUNTER {
            self.pc = val;
        } else {
            self.iregs[reg] = val;
        }
        assert(self@ =~= old(self)@.update(reg as int, val));
    }

    /// Writes `val` to the register called `reg`. Returns `None`, and changes
    /// nothing, when no register has that name.
    pub fn set_register(&mut self, reg: &str, val: u64) -> (r: Option<()>)
        ensures
            match register_of_name(reg.spec_bytes()) {
                Some(i) => r.is_some() && final(self)@ == old(self)@.update(i, val),
                None => r.is_none() && final(self)@ == old(self)@,
            },
    {
        match register_index(reg.as_bytes()) {
            Some(i) => {
                self.set(i, val);
                Some(())
            },
            None => None,
        }
    }

    /// The value of the register called `reg`, if `valid` marks it valid.
    pub fn get_register(&self, reg: &str, valid: &ContextValidity) -> (r: Option<u64>)
        ensures
            r == match register_of_name(reg.spec_bytes()) {
                Some(i) => if valid@[i] {
                    Some(self@[i])
                } else {
                    None
                },
                None => None,
            },
    {
        match register_index(reg.as_bytes()) {
            Some(i) => if valid.is_valid(i) {
                Some(self.register(i))
            } else {
                None
            },
            None => None,
        }
    }
}

/// Thirty-three zero registers.
pub open spec fn zero_registers() -> Seq<u64> {
    Seq::new(33, |i: int| 0u64)
}

/// A set of registers.
#[derive(Clone, Copy, Debug, PartialEq, Eq)]
pub struct RegisterSet {
    pub bits: [bool; 33],
}

impl View for RegisterSet {
    type V = Seq<bool>;

    /// Membership, indexed by register.
    open spec fn view(&self) -> Seq<bool> {
        self.bits@
    }
}

/// How many of the first `n` entries of `members` are set.
pub open spec fn count_members(members: Seq<bool>, n: int) -> nat
    decreases n,
{
    if n <= 0 {
        0
    } else {
        count_members(members, n - 1) + if members[n - 1] {
            1nat
        } else {
            0nat
        }
    }
}

/// The set that holds no register.
pub open spec fn no_registers() -> Seq<bool> {
    Seq::new(33, |i: int| false)
}

/// The set that holds every register.
pub open spec fn all_registers() -> Seq<bool> {
    Seq::new(33, |i: int| true)
}

impl RegisterSet {
    /// The empty set.
    pub fn empty() -> (r: RegisterSet)
        ensures
            r@ == no_registers(),
    {
        let r = RegisterSet { bits: [false; 33] };
        assert(r@ =~= no_registers());
        r
    }

    /// Adds register `reg`.
    pub fn insert(&mut self, reg: usize)
        requires
            reg < REGISTER_COUNT,
        ensures
            final(self)@ == old(self)@.update(reg as int, true),
    {
        self.bits[reg] = true;
        assert(self@ =~= old(self)@.update(reg as int, true));
    }

    /// Whether register `reg` is in the set.
    pub fn contains(&self, reg: usize) -> (r: bool)
        ensures
            r == (reg < REGISTER_COUNT && self@[reg as int]),
    {
        reg < REGISTER_COUNT && self.bits[reg]
    }

    /// The number of registers in the set.
    pub fn len(&self) -> (r: usize)
        ensures
            r == count_members(self@, 33),
    {
        let mut n: usize = 0;
        let mut i: usize = 0;
        while i < REGISTER_COUNT
            invariant
                i <= REGISTER_COUNT,
                n <= i,
                n == count_members(self@, i as int),
            decreases REGISTER_COUNT - i,
        {
            if self.bits[i] {
                n = n + 1;
            }
            i = i + 1;
        }
        n
    }
}

/// Which registers of a context hold a recovered value.
#[derive(Clone, Copy, Debug, PartialEq, Eq)]
pub enum ContextValidity {
    /// Every register is valid: the context was captured, not derived.
    All,
    /// Exactly the registers of the set are valid.
    Subset(RegisterSet),
}

impl View for ContextValidity {
    type V = Seq<bool>;

    /// Validity, indexed by register.
    open spec fn view(&self) -> Seq<bool> {
        match *self {
            ContextValidity::All => all_registers(),
            ContextValidity::Subset(s) => s@,
        }
    }
}

impl ContextValidity {
    /// Whether register `reg` is valid.
    pub fn is_valid(&self, reg: usize) -> (r: bool)
        ensures
            r == (reg < REGISTER_COUNT && self@[reg as int]),
    {
        match self {
            ContextValidity::All => reg < REGISTER_COUNT,
            ContextValidity::Subset(s) => s.contains(reg),
        }
    }

    /// Whether every register is marked valid as a captured context's are.
    pub fn is_all(&self) -> (r: bool)
        ensures
            r == (*self is All),
    {
        match self {
            ContextValidity::All => true,
            ContextValidity::Subset(_) => false,
        }
    }

    /// The number of valid registers.
    pub fn len(&self) -> (r: usize)
        ensures
            r == count_members(self@, 33),
    {
        match self {
            ContextValidity::All => {
                proof {
                    lemma_count_all(33);
                }
                REGISTER_COUNT
            },
            ContextValidity::Subset(s) => s.len(),
        }
    }
}

proof fn lemma_count_all(n: int)
    requires
        0 <= n <= 33,
    ensures
        count_members(all_registers(), n) == n,
    decreases n,
{
    if n > 0 {
        lemma_count_all(n - 1);
    }
}

/// A register file together with the registers of it that are valid.
#[derive(Clone, Copy, Debug, PartialEq, Eq)]
pub struct FrameContext {
    pub raw: Arm64Context,
    pub valid: ContextValidity,
}

/// What a frame context holds: the 33 register values and, for each
/// register, whether its value is valid.
pub struct ContextView {
    pub regs: Seq<u64>,
    pub valid: Seq<bool>,
}

impl View for FrameContext {
    type V = ContextView;

    open spec fn view(&self) -> ContextView {
        ContextView { regs: self.raw@, valid: self.valid@ }
    }
}

/// The value of register `reg`, where it is valid.
pub open spec fn valid_register(ctx: ContextView, reg: int) -> Option<u64> {
    if 0 <= reg < 33 && ctx.valid[reg] {
        Some(ctx.regs[reg])
    } else {
        None
    }
}

impl FrameContext {
    /// The value of register `reg`, if it is valid.
    pub fn register(&self, reg: usize) -> (r: Option<u64>)
        ensures
            r == valid_register(self@, reg as int),
    {
        if self.valid.is_valid(reg) {
            Some(self.raw.register(reg))
        } else {
            None
        }
    }
}

} // verus!
