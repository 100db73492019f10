//! Evaluation of call frame information.
//!
//! A rule program is a flat sequence of items: each key is followed by the
//! postfix expression that recovers its value in the caller. Where a key occurs
//! more than once the last occurrence holds, so the program in force at an
//! address is the text of the initial rule set followed by the text of every
//! later rule set that applies there.

use vstd::prelude::*;
use vstd::slice::slice_subrange;
use crate::memory::{memory_view, read_memory, read_word, MemoryView, StackMemory};
use crate::registers::{
    lemma_strip_ignores_signature, ptr_auth_strip, strip_spec, valid_register, Arm64Context,
    ContextValidity, ContextView, FrameContext, RegisterSet, LINK_REGISTER, POINTER_AUTH_MASK,
    PROGRAM_COUNTER, REGISTER_COUNT, STACK_POINTER,
};

verus! {

/// What a rule recovers.
#[derive(Clone, Copy, Debug, PartialEq, Eq, Structural)]
pub enum RuleKey {
    /// The canonical frame address, `.cfa`.
    Cfa,
    /// The return address, `.ra`.
    Ra,
    /// The register with this index.
    Register(usize),
    /// A key that names nothing known. Its rule is passed over.
    Invalid,
}

/// One item of a rule program.
#[derive(Clone, Copy, Debug, PartialEq, Eq, Structural)]
pub enum CfiItem {
    /// Starts the rule for a key; the items up to the next key are its expression.
    Key(RuleKey),
    /// `+`: pops two values and pushes their wrapping sum.
    Add,
    /// `-`: pops two values and pushes their wrapping difference.
    Sub,
    /// `^`: pops an address and pushes the word stored there.
    Deref,
    /// `.cfa`: pushes the canonical frame address.
    Cfa,
    /// An integer literal, already reduced to 64 bits.
    Literal(u64),
    /// A register of the callee.
    Register(usize),
    /// An identifier that names no register.
    Undefined,
    /// A token that is neither an operator, a literal nor an identifier.
    Malformed,
}

/// Why a rule program could not be evaluated.
#[derive(Clone, Copy, Debug, PartialEq, Eq, Structural)]
pub enum CfiError {
    /// An expression names a register that is not valid in the callee, an
    /// unknown identifier, or `.cfa` before it is known.
    UndefinedRegister,
    /// An expression dereferences an address outside the stack memory.
    UnreadableMemory,
    /// An expression underflows the value stack, leaves other than one value,
    /// or holds a malformed token; or the program does not begin with a key.
    MalformedExpression,
    /// The program has no rule for `.cfa` or for `.ra`.
    MissingRule,
}

/// Sum modulo 2^64.
pub open spec fn wrap_add(a: u64, b: u64) -> u64 {
    if a + b > u64::MAX {
        (a + b - 0x1_0000_0000_0000_0000) as u64
    } else {
        (a + b) as u64
    }
}

/// Difference modulo 2^64.
pub open spec fn wrap_sub(a: u64, b: u64) -> u64 {
    if a - b < 0 {
        (a - b + 0x1_0000_0000_0000_0000) as u64
    } else {
        (a - b) as u64
    }
}

/// The value stack after `item` is applied to `stack`.
pub open spec fn eval_item(
    item: CfiItem,
    stack: Seq<u64>,
    callee: ContextView,
    mem: Option<MemoryView>,
    cfa: Option<u64>,
) -> Result<Seq<u64>, CfiError> {
    match item {
        CfiItem::Add => if stack.len() < 2 {
            Err(CfiError::MalformedExpression)
        } else {
            Ok(
                stack.take(stack.len() - 2).push(
                    wrap_add(stack[stack.len() - 2], stack[stack.len() - 1]),
                ),
            )
        },
        CfiItem::Sub => if stack.len() < 2 {
            Err(CfiError::MalformedExpression)
        } else {
            Ok(
                stack.take(stack.len() - 2).push(
                    wrap_sub(stack[stack.len() - 2], stack[stack.len() - 1]),
                ),
            )
        },
        CfiItem::Deref => if stack.len() < 1 {
            Err(CfiError::MalformedExpression)
        } else {
            match read_word(mem, stack[stack.len() - 1]) {
                Some(v) => Ok(stack.take(stack.len() - 1).push(v)),
                None => Err(CfiError::UnreadableMemory),
            }
        },
        CfiItem::Cfa => match cfa {
            Some(v) => Ok(stack.push(v)),
            None => Err(CfiError::UndefinedRegister),
        },
        CfiItem::Literal(v) => Ok(stack.push(v)),
        CfiItem::Register(r) => match valid_register(callee, r as int) {
            Some(v) => Ok(stack.push(v)),
            None => Err(CfiError::UndefinedRegister),
        },
        CfiItem::Undefined => Err(CfiError::UndefinedRegister),
        CfiItem::Malformed => Err(CfiError::MalformedExpression),
        CfiItem::Key(_) => Err(CfiError::MalformedExpression),
    }
}

/// The value stack after the first `n` items of `expr`, or the first failure
/// among them.
pub open spec fn eval_prefix(
    expr: Seq<CfiItem>,
    n: int,
    callee: ContextView,
    mem: Option<MemoryView>,
    cfa: Option<u64>,
) -> Result<Seq<u64>, CfiError>
    decreases n,
{
    if n <= 0 {
        Ok(Seq::empty())
    } else {
        match eval_prefix(expr, n - 1, callee, mem, cfa) {
            Ok(stack) => eval_item(expr[n - 1], stack, callee, mem, cfa),
            Err(e) => Err(e),
        }
    }
}

/// The value of a postfix expression: the one value left on the stack when
/// every item has been applied.
pub open spec fn eval_expr(
    expr: Seq<CfiItem>,
    callee: ContextView,
    mem: Option<MemoryView>,
    cfa: Option<u64>,
) -> Result<u64, CfiError> {
    match eval_prefix(expr, expr.len() as int, callee, mem, cfa) {
        Ok(stack) => if stack.len() == 1 {
            Ok(stack[0])
        } else {
            Err(CfiError::MalformedExpression)
        },
        Err(e) => Err(e),
    }
}

proof fn lemma_failure_is_final(
    expr: Seq<CfiItem>,
    n: int,
    m: int,
    callee: ContextView,
    mem: Option<MemoryView>,
    cfa: Option<u64>,
)
    requires
        0 <= n <= m,
        eval_prefix(expr, n, callee, mem, cfa) is Err,
    ensures
        eval_prefix(expr, m, callee, mem, cfa) == eval_prefix(expr, n, callee, mem, cfa),
    decreases m - n,
{
    if n < m {
        lemma_failure_is_final(expr, n, m - 1, callee, mem, cfa);
    }
}

/// Evaluates a postfix expression against the callee's registers and the
/// stack memory. `cfa` is the canonical frame address, once it is known.
pub fn evaluate_expression(
    expr: &[CfiItem],
    callee: &FrameContext,
    memory: Option<&StackMemory>,
    cfa: Option<u64>,
) -> (r: Result<u64, CfiError>)
    ensures
        r == eval_expr(expr@, callee@, memory_view(memory), cfa),
{
    let ghost mem = memory_view(memory);
    let mut stack: Vec<u64> = Vec::new();
    let mut i: usize = 0;
    while i < expr.len()
        invariant
            i <= expr@.len(),
            mem == memory_view(memory),
            eval_prefix(expr@, i as int, callee@, mem, cfa) == Ok::<Seq<u64>, CfiError>(stack@),
        decreases expr@.len() - i,
    {
        let ghost before = stack@;
        let mut failure: Option<CfiError> = None;
        match expr[i] {
            CfiItem::Add => {
                if stack.len() < 2 {
                    failure = Some(CfiError::MalformedExpression);
                } else {
                    let rhs = stack.pop().unwrap();
                    let lhs = stack.pop().unwrap();
                    stack.push(lhs.wrapping_add(rhs));
                }
            },
            CfiItem::Sub => {
                if stack.len() < 2 {
                    failure = Some(CfiError::MalformedExpression);
                } else {
                    let rhs = stack.pop().unwrap();
                    let lhs = stack.pop().unwrap();
                    stack.push(lhs.wrapping_sub(rhs));
                }
            },
            CfiItem::Deref => {
                if stack.len() < 1 {
                    failure = Some(CfiError::MalformedExpression);
                } else {
                    let addr = stack.pop().unwrap();
                    match read_memory(memory, addr) {
                        Some(v) => stack.push(v),
                        None => {
                            failure = Some(CfiError::UnreadableMemory);
                        },
                    }
                }
            },
            CfiItem::Cfa => match cfa {
                Some(v) => stack.push(v),
                None => {
                    failure = Some(CfiError::UndefinedRegister);
                },
            },
            CfiItem::Literal(v) => stack.push(v),
            CfiItem::Register(reg) => match callee.register(reg) {
                Some(v) => stack.push(v),
                None => {
                    failure = Some(CfiError::UndefinedRegister);
                },
            },
            CfiItem::Undefined => {
                failure = Some(CfiError::UndefinedRegister);
            },
            CfiItem::Malformed => {
                failure = Some(CfiError::MalformedExpression);
            },
            CfiItem::Key(_) => {
                failure = Some(CfiError::MalformedExpression);
            },
        }
        match failure {
            Some(e) => {
                proof {
                    assert(eval_item(expr@[i as int], before, callee@, mem, cfa) == Err::<
                        Seq<u64>,
                        CfiError,
                    >(e));
                    assert(eval_prefix(expr@, i + 1, callee@, mem, cfa) == Err::<
                        Seq<u64>,
                        CfiError,
                    >(e));
                    lemma_failure_is_final(expr@, i + 1, expr@.len() as int, callee@, mem, cfa);
                }
                return Err(e);
            },
            None => {
                proof {
                    assert(eval_item(expr@[i as int], before, callee@, mem, cfa) == Ok::<
                        Seq<u64>,
                        CfiError,
                    >(stack@)) by {
                        match expr@[i as int] {
                            CfiItem::Add | CfiItem::Sub => {
                                assert(stack@ =~= before.take(before.len() - 2).push(
                                    stack@[stack@.len() - 1],
                                ));
                            },
                            CfiItem::Deref => {
                                assert(stack@ =~= before.take(before.len() - 1).push(
                                    stack@[stack@.len() - 1],
                                ));
                            },
                            _ => {},
                        }
                    }
                }
            },
        }
        i = i + 1;
    }
    if stack.len() == 1 {
        Ok(stack[0])
    } else {
        Err(CfiError::MalformedExpression)
    }
}

/// Where the expression that starts at `start` ends: at the next key, or at
/// the end of the program.
pub open spec fn expr_end(prog: Seq<CfiItem>, start: int) -> int
    decreases prog.len() - start,
{
    if start >= prog.len() {
        prog.len() as int
    } else if prog[start] is Key {
        start
    } else {
        expr_end(prog, start + 1)
    }
}

/// Position of the last rule for `key` among the first `n` items.
pub open spec fn last_rule(prog: Seq<CfiItem>, key: RuleKey, n: int) -> Option<int>
    decreases n,
{
    if n <= 0 {
        None
    } else if prog[n - 1] == CfiItem::Key(key) {
        Some(n - 1)
    } else {
        last_rule(prog, key, n - 1)
    }
}

/// The expression in force for `key`: that of its last rule.
pub open spec fn rule_expr(prog: Seq<CfiItem>, key: RuleKey) -> Option<Seq<CfiItem>> {
    match last_rule(prog, key, prog.len() as int) {
        Some(p) => Some(prog.subrange(p + 1, expr_end(prog, p + 1))),
        None => None,
    }
}

/// The value of the rule in force for `key`; `None` when the program has no
/// rule for it.
pub open spec fn rule_value(
    prog: Seq<CfiItem>,
    key: RuleKey,
    callee: ContextView,
    mem: Option<MemoryView>,
    cfa: Option<u64>,
) -> Option<Result<u64, CfiError>> {
    match rule_expr(prog, key) {
        Some(expr) => Some(eval_expr(expr, callee, mem, cfa)),
        None => None,
    }
}

/// A program is well formed when it is empty or begins with a key, so that
/// every expression belongs to a rule. A rule whose key names nothing known
/// recovers nothing: it is never looked up.
pub open spec fn program_parses(prog: Seq<CfiItem>) -> bool {
    prog.len() > 0 ==> prog[0] is Key
}

/// The values that the rules of the program give to registers `0..n`: `None`
/// for a register without a rule. Fails with the failure of the lowest
/// register whose rule fails.
pub open spec fn explicit_registers(
    prog: Seq<CfiItem>,
    n: int,
    callee: ContextView,
    mem: Option<MemoryView>,
    cfa: u64,
) -> Result<Seq<Option<u64>>, CfiError>
    decreases n,
{
    if n <= 0 {
        Ok(Seq::empty())
    } else {
        match explicit_registers(prog, n - 1, callee, mem, cfa) {
            Ok(vals) => match rule_value(
                prog,
                RuleKey::Register((n - 1) as usize),
                callee,
                mem,
                Some(cfa),
            ) {
                Some(Ok(v)) => Ok(vals.push(Some(v))),
                Some(Err(e)) => Err(e),
                None => Ok(vals.push(None)),
            },
            Err(e) => Err(e),
        }
    }
}

/// Registers that a callee must preserve: `x19`..`x28` and the frame pointer.
/// Without a rule of its own such a register keeps the callee's value.
pub open spec fn is_callee_saved(reg: int) -> bool {
    19 <= reg <= 29
}

/// The caller's value of register `reg`, if it has one. A rule for the
/// register decides; without one the stack pointer is the canonical frame
/// address, the program counter is the return address, and a callee-saved
/// register keeps the value it has in the callee where that is valid. The
/// program counter and the link register are stripped of signature bits.
pub open spec fn caller_register(
    reg: int,
    explicit: Option<u64>,
    callee: ContextView,
    cfa: u64,
    ra: u64,
) -> Option<u64> {
    let recovered = match explicit {
        Some(v) => Some(v),
        None => if reg == 31 {
            Some(cfa)
        } else if reg == 32 {
            Some(ra)
        } else if is_callee_saved(reg) {
            valid_register(callee, reg)
        } else {
            None
        },
    };
    match recovered {
        Some(v) => if reg == 30 || reg == 32 {
            Some(strip_spec(v))
        } else {
            Some(v)
        },
        None => None,
    }
}

/// The caller's context: each register that has a value is valid and holds
/// it, every other register is invalid.
pub open spec fn caller_context(
    explicit: Seq<Option<u64>>,
    callee: ContextView,
    cfa: u64,
    ra: u64,
) -> ContextView {
    ContextView {
        regs: Seq::new(
            33,
            |r: int|
                match caller_register(r, explicit[r], callee, cfa, ra) {
                    Some(v) => v,
                    None => 0u64,
                },
        ),
        valid: Seq::new(33, |r: int| caller_register(r, explicit[r], callee, cfa, ra).is_some()),
    }
}

/// The caller's context that a rule program recovers from the callee's
/// context and the stack memory. The canonical frame address is evaluated
/// first, then the return address, then the rules of the registers in
/// ascending order; the first failure is the result.
pub open spec fn evaluate_spec(
    prog: Seq<CfiItem>,
    callee: ContextView,
    mem: Option<MemoryView>,
) -> Result<ContextView, CfiError> {
    if !program_parses(prog) {
        Err(CfiError::MalformedExpression)
    } else {
        match rule_value(prog, RuleKey::Cfa, callee, mem, None) {
            None => Err(CfiError::MissingRule),
            Some(Err(e)) => Err(e),
            Some(Ok(cfa)) => match rule_value(prog, RuleKey::Ra, callee, mem, Some(cfa)) {
                None => Err(CfiError::MissingRule),
                Some(Err(e)) => Err(e),
                Some(Ok(ra)) => match explicit_registers(prog, 33, callee, mem, cfa) {
                    Err(e) => Err(e),
                    Ok(vals) => Ok(caller_context(vals, callee, cfa, ra)),
                },
            },
        }
    }
}

/// Finds the rule in force for `key`.
pub fn find_rule(prog: &[CfiItem], key: RuleKey) -> (r: Option<usize>)
    ensures
        match r {
            Some(p) => last_rule(prog@, key, prog@.len() as int) == Some(p as int) && p
                < prog@.len(),
            None => last_rule(prog@, key, prog@.len() as int) is None,
        },
{
    let mut i: usize = prog.len();
    while i > 0
        invariant
            i <= prog@.len(),
            last_rule(prog@, key, prog@.len() as int) == last_rule(prog@, key, i as int),
        decreases i,
    {
        i = i - 1;
        let found = match prog[i] {
            CfiItem::Key(k) => k == key,
            _ => false,
        };
        if found {
            return Some(i);
        }
    }
    None
}

/// Finds the end of the expression that starts at `start`.
pub fn expression_end(prog: &[CfiItem], start: usize) -> (r: usize)
    requires
        start <= prog@.len(),
    ensures
        r == expr_end(prog@, start as int),
        start <= r <= prog@.len(),
{
    let mut i: usize = start;
    while i < prog.len()
        invariant
            start <= i <= prog@.len(),
            expr_end(prog@, start as int) == expr_end(prog@, i as int),
        decreases prog@.len() - i,
    {
        let is_key = match prog[i] {
            CfiItem::Key(_) => true,
            _ => false,
        };
        if is_key {
            return i;
        }
        i = i + 1;
    }
    i
}

/// Evaluates the rule in force for `key`, if the program has one.
pub fn evaluate_rule(
    prog: &[CfiItem],
    key: RuleKey,
    callee: &FrameContext,
    memory: Option<&StackMemory>,
    cfa: Option<u64>,
) -> (r: Option<Result<u64, CfiError>>)
    ensures
        r == rule_value(prog@, key, callee@, memory_view(memory), cfa),
{
    let len = prog.len();
    match find_rule(prog, key) {
        Some(p) => {
            let end = expression_end(prog, p + 1);
            let expr = slice_subrange(prog, p + 1, end);
            Some(evaluate_expression(expr, callee, memory, cfa))
        },
        None => None,
    }
}

/// Whether the program is well formed.
pub fn check_program(prog: &[CfiItem]) -> (r: bool)
    ensures
        r == program_parses(prog@),
{
    if prog.len() > 0 {
        match prog[0] {
            CfiItem::Key(_) => true,
            _ => false,
        }
    } else {
        true
    }
}

/// Recovers the caller's context from the callee's by a rule program.
///
/// Fails, without a partial result, when the program is malformed, lacks a
/// rule for `.cfa` or `.ra`, or one of its rules cannot be evaluated.
pub fn evaluate_cfi(prog: &[CfiItem], callee: &FrameContext, memory: Option<&StackMemory>) -> (r:
    Result<FrameContext, CfiError>)
    ensures
        match (r, evaluate_spec(prog@, callee@, memory_view(memory))) {
            (Ok(ctx), Ok(view)) => ctx@ == view,
            (Err(e), Err(f)) => e == f,
            _ => false,
        },
{
    let ghost mem = memory_view(memory);
    if !check_program(prog) {
        return Err(CfiError::MalformedExpression);
    }
    let cfa = match evaluate_rule(prog, RuleKey::Cfa, callee, memory, None) {
        None => {
            return Err(CfiError::MissingRule);
        },
        Some(Err(e)) => {
            return Err(e);
        },
        Some(Ok(v)) => v,
    };
    let ra = match evaluate_rule(prog, RuleKey::Ra, callee, memory, Some(cfa)) {
        None => {
            return Err(CfiError::MissingRule);
        },
        Some(Err(e)) => {
            return Err(e);
        },
        Some(Ok(v)) => v,
    };
    let mut raw = Arm64Context::new();
    let mut valid = RegisterSet::empty();
    let ghost mut vals: Seq<Option<u64>> = Seq::empty();
    let mut reg: usize = 0;
    while reg < REGISTER_COUNT
        invariant
            reg <= REGISTER_COUNT,
            mem == memory_view(memory),
            program_parses(prog@),
            rule_value(prog@, RuleKey::Cfa, callee@, mem, None) == Some(Ok::<u64, CfiError>(cfa)),
            rule_value(prog@, RuleKey::Ra, callee@, mem, Some(cfa)) == Some(
                Ok::<u64, CfiError>(ra),
            ),
            explicit_registers(prog@, reg as int, callee@, mem, cfa) == Ok::<
                Seq<Option<u64>>,
                CfiError,
            >(vals),
            vals.len() == reg,
            raw@.len() == 33,
            valid@.len() == 33,
            forall|j: int|
                0 <= j < reg ==> valid@[j] == caller_register(
                    j,
                    vals[j],
                    callee@,
                    cfa,
                    ra,
                ).is_some(),
            forall|j: int|
                0 <= j < reg ==> raw@[j] == match #[trigger] caller_register(
                    j,
                    vals[j],
                    callee@,
                    cfa,
                    ra,
                ) {
                    Some(v) => v,
                    None => 0u64,
                },
            forall|j: int| reg <= j < 33 ==> raw@[j] == 0 && !valid@[j],
        decreases REGISTER_COUNT - reg,
    {
        let key = RuleKey::Register(reg);
        let explicit = match evaluate_rule(prog, key, callee, memory, Some(cfa)) {
            Some(Err(e)) => {
                proof {
                    assert(explicit_registers(prog@, reg + 1, callee@, mem, cfa) == Err::<
                        Seq<Option<u64>>,
                        CfiError,
                    >(e));
                    lemma_register_failure_is_final(prog@, reg + 1, 33, callee@, mem, cfa);
                }
                return Err(e);
            },
            Some(Ok(v)) => Some(v),
            None => None,
        };
        let recovered = match explicit {
            Some(v) => Some(v),
            None => if reg == STACK_POINTER {
                Some(cfa)
            } else if reg == PROGRAM_COUNTER {
                Some(ra)
            } else if 19 <= reg && reg <= 29 {
                callee.register(reg)
            } else {
                None
            },
        };
        match recovered {
            Some(v) => {
                let stored = if reg == LINK_REGISTER || reg == PROGRAM_COUNTER {
                    ptr_auth_strip(v)
                } else {
                    v
                };
                raw.set(reg, stored);
                valid.insert(reg);
            },
            None => {},
        }
        proof {
            vals = vals.push(explicit);
        }
        reg = reg + 1;
    }
    let ctx = FrameContext { raw, valid: ContextValidity::Subset(valid) };
    proof {
        let view = caller_context(vals, callee@, cfa, ra);
        assert(ctx@.regs =~= view.regs);
        assert(ctx@.valid =~= view.valid);
    }
    Ok(ctx)
}

proof fn lemma_register_failure_is_final(
    prog: Seq<CfiItem>,
    n: int,
    m: int,
    callee: ContextView,
    mem: Option<MemoryView>,
    cfa: u64,
)
    requires
        0 <= n <= m,
        explicit_registers(prog, n, callee, mem, cfa) is Err,
    ensures
        explicit_registers(prog, m, callee, mem, cfa) == explicit_registers(
            prog,
            n,
            callee,
            mem,
            cfa,
        ),
    decreases m - n,
{
    if n < m {
        lemma_register_failure_is_final(prog, n, m - 1, callee, mem, cfa);
    }
}

/// Evaluation is a function of the program, the callee's context and the
/// memory: equal inputs give the same context, or the same failure.
pub proof fn lemma_evaluation_is_deterministic(
    prog_a: Seq<CfiItem>,
    prog_b: Seq<CfiItem>,
    callee_a: ContextView,
    callee_b: ContextView,
    mem_a: Option<MemoryView>,
    mem_b: Option<MemoryView>,
)
    requires
        prog_a =~= prog_b,
        callee_a.regs =~= callee_b.regs,
        callee_a.valid =~= callee_b.valid,
        match (mem_a, mem_b) {
            (Some(a), Some(b)) => a.base == b.base && a.bytes =~= b.bytes,
            (None, None) => true,
            _ => false,
        },
    ensures
        evaluate_spec(prog_a, callee_a, mem_a) == evaluate_spec(prog_b, callee_b, mem_b),
{
}

/// Whether evaluation looks for a rule under `key`: the canonical frame
/// address, the return address, and each register.
pub open spec fn key_is_evaluated(key: RuleKey) -> bool {
    match key {
        RuleKey::Cfa => true,
        RuleKey::Ra => true,
        RuleKey::Register(r) => r < 33,
        RuleKey::Invalid => false,
    }
}

/// An expression that names an undefined identifier has no value, whatever
/// else it holds.
pub proof fn lemma_undefined_identifier_has_no_value(
    expr: Seq<CfiItem>,
    callee: ContextView,
    mem: Option<MemoryView>,
    cfa: Option<u64>,
)
    requires
        expr.contains(CfiItem::Undefined),
    ensures
        eval_expr(expr, callee, mem, cfa) is Err,
{
    let i = choose|i: int| 0 <= i < expr.len() && expr[i] == CfiItem::Undefined;
    assert(eval_prefix(expr, i + 1, callee, mem, cfa) is Err);
    lemma_failure_is_final(expr, i + 1, expr.len() as int, callee, mem, cfa);
}

/// A program fails to evaluate when the rule in force for the canonical frame
/// address, the return address or a register names an undefined identifier.
pub proof fn lemma_undefined_identifier_fails(
    prog: Seq<CfiItem>,
    key: RuleKey,
    callee: ContextView,
    mem: Option<MemoryView>,
)
    requires
        key_is_evaluated(key),
        rule_expr(prog, key) is Some,
        rule_expr(prog, key).unwrap().contains(CfiItem::Undefined),
    ensures
        evaluate_spec(prog, callee, mem) is Err,
{
    let expr = rule_expr(prog, key).unwrap();
    if program_parses(prog) {
        match rule_value(prog, RuleKey::Cfa, callee, mem, None) {
            Some(Ok(cfa)) => {
                match rule_value(prog, RuleKey::Ra, callee, mem, Some(cfa)) {
                    Some(Ok(ra)) => {
                        lemma_undefined_identifier_has_no_value(expr, callee, mem, Some(cfa));
                        match key {
                            RuleKey::Register(r) => {
                                assert(explicit_registers(prog, r + 1, callee, mem, cfa) is Err);
                                lemma_register_failure_is_final(
                                    prog,
                                    r + 1,
                                    33,
                                    callee,
                                    mem,
                                    cfa,
                                );
                            },
                            _ => {},
                        }
                    },
                    _ => {},
                }
            },
            Some(Err(_)) => {},
            None => {},
        }
        if key is Cfa {
            lemma_undefined_identifier_has_no_value(expr, callee, mem, None);
        }
    }
}

/// The caller's program counter and link register do not depend on the
/// signature bits of the value recovered for them.
pub proof fn lemma_recovered_pointer_is_stripped(
    reg: int,
    value: u64,
    signature: u64,
    callee: ContextView,
    cfa: u64,
    ra: u64,
)
    requires
        reg == 30 || reg == 32,
        signature & POINTER_AUTH_MASK == 0,
    ensures
        caller_register(reg, Some((value | signature) as u64), callee, cfa, ra) == caller_register(
            reg,
            Some(value),
            callee,
            cfa,
            ra,
        ),
        caller_register(32, None, callee, cfa, (ra | signature) as u64) == caller_register(
            32,
            None,
            callee,
            cfa,
            ra,
        ),
        caller_register(32, None, callee, cfa, ra) == Some(strip_spec(ra)),
{
    lemma_strip_ignores_signature(value, signature);
    lemma_strip_ignores_signature(ra, signature);
}

} // verus!
