//! The walk: from the captured context, frame by frame, to the outermost
//! caller that can be recovered.
//!
//! The caller of a frame is recovered by the first of three strategies that
//! succeeds: call frame information, the frame-pointer chain, a scan of the
//! stack. A caller is accepted only if its stack pointer lies above the
//! callee's, so a walk always moves up the stack and ends.

use vstd::prelude::*;
use crate::cfi::{evaluate_cfi, evaluate_spec, CfiItem};
use crate::memory::{memory_view, read_memory, read_word, MemoryView, StackMemory};
use crate::modules::{mapped_modules, module_at_address, ModuleInfo, ModuleView};
use crate::registers::{
    all_registers, count_members, lemma_strip_ignores_signature, no_registers, ptr_auth_strip,
    strip_spec, valid_register, zero_registers, POINTER_AUTH_MASK,
    Arm64Context, ContextValidity, ContextView, FrameContext, RegisterSet, FRAME_POINTER,
    LINK_REGISTER, PROGRAM_COUNTER, STACK_POINTER,
};
use crate::symbols::{function_covers, loaded_symbols, program_at, SymbolEntryView, SymbolTable};

verus! {

/// Words scanned for a return address above the innermost frame.
pub const FIRST_FRAME_SCAN_WORDS: u64 = 160;

/// Words scanned for a return address above every other frame.
pub const LATER_FRAME_SCAN_WORDS: u64 = 40;

/// Most frames that a walk recovers.
pub const MAX_FRAMES: usize = 1024;

/// How the registers of a frame were found, from most to least reliable.
#[derive(Clone, Copy, Debug, PartialEq, Eq, Structural)]
pub enum FrameTrust {
    /// Given as the captured context.
    Context,
    /// Derived from call frame information.
    CallFrameInfo,
    /// Derived from the frame-pointer chain.
    FramePointer,
    /// Found by scanning the stack.
    Scan,
}

impl FrameTrust {
    /// The place of a trust level in the order of reliability, 0 for the most
    /// reliable.
    pub open spec fn spec_rank(self) -> int {
        match self {
            FrameTrust::Context => 0,
            FrameTrust::CallFrameInfo => 1,
            FrameTrust::FramePointer => 2,
            FrameTrust::Scan => 3,
        }
    }

    /// The place of this trust level in the order of reliability.
    pub fn rank(&self) -> (r: u8)
        ensures
            r == self.spec_rank(),
    {
        match self {
            FrameTrust::Context => 0,
            FrameTrust::CallFrameInfo => 1,
            FrameTrust::FramePointer => 2,
            FrameTrust::Scan => 3,
        }
    }
}

/// What a frame holds.
pub struct FrameView {
    pub context: ContextView,
    pub trust: FrameTrust,
    pub module: Option<ModuleView>,
}

/// One frame of a call stack.
#[derive(Debug)]
pub struct StackFrame {
    /// The registers of the frame.
    pub context: FrameContext,
    /// How they were found.
    pub trust: FrameTrust,
    /// The module that the program counter lies in, if it lies in one.
    pub module: Option<ModuleInfo>,
}

impl View for StackFrame {
    type V = FrameView;

    open spec fn view(&self) -> FrameView {
        FrameView {
            context: self.context@,
            trust: self.trust,
            module: match self.module {
                Some(m) => Some(m@),
                None => None,
            },
        }
    }
}

/// The frames of a thread, innermost first.
#[derive(Debug)]
pub struct CallStack {
    pub frames: Vec<StackFrame>,
}

/// The views of a sequence of frames.
pub open spec fn frame_views(frames: Seq<StackFrame>) -> Seq<FrameView> {
    Seq::new(frames.len(), |i: int| frames[i]@)
}

impl View for CallStack {
    type V = Seq<FrameView>;

    open spec fn view(&self) -> Seq<FrameView> {
        frame_views(self.frames@)
    }
}

/// What a walk reads besides the captured registers: the stack memory, the
/// address map of the modules, and the symbols that are loaded.
pub struct WalkView {
    pub memory: Option<MemoryView>,
    pub modules: Map<u64, ModuleView>,
    pub symbols: Seq<SymbolEntryView>,
}

/// The surroundings of a walk, as its contracts speak of them.
pub open spec fn walk_view(
    memory: Option<&StackMemory>,
    modules: &minidump::MinidumpModuleList,
    symbols: &SymbolTable,
) -> WalkView {
    WalkView { memory: memory_view(memory), modules: mapped_modules(*modules), symbols: symbols@ }
}

/// The module mapped at `address`.
pub open spec fn module_at(modules: Map<u64, ModuleView>, address: u64) -> Option<ModuleView> {
    if modules.contains_key(address) {
        Some(modules[address])
    } else {
        None
    }
}

/// The rule program in force at `pc`: that of the symbols loaded for the
/// module that `pc` lies in, at the offset of `pc` in the module.
pub open spec fn cfi_program_at(env: WalkView, pc: u64) -> Option<Seq<CfiItem>> {
    match module_at(env.modules, pc) {
        Some(m) => match loaded_symbols(env.symbols, m.name) {
            Some(file) => program_at(file, (pc - m.base) as u64),
            None => None,
        },
        None => None,
    }
}

/// The caller by call frame information: the context that the rule program
/// in force at the callee's program counter recovers, where there is one, it
/// can be evaluated, and the stack pointer it gives lies above the callee's.
pub open spec fn caller_by_cfi(callee: ContextView, env: WalkView) -> Option<ContextView> {
    match (valid_register(callee, 32), valid_register(callee, 31)) {
        (Some(pc), Some(sp)) => match cfi_program_at(env, pc) {
            Some(prog) => match evaluate_spec(prog, callee, env.memory) {
                Ok(ctx) => if ctx.regs[31] > sp {
                    Some(ctx)
                } else {
                    None
                },
                Err(_) => None,
            },
            None => None,
        },
        _ => None,
    }
}

/// The registers in which only the frame pointer, the link register, the
/// stack pointer and the program counter are set.
pub open spec fn four_registers(pc: u64, lr: u64, fp: u64, sp: u64) -> ContextView {
    ContextView {
        regs: zero_registers().update(29, fp).update(30, lr).update(31, sp).update(32, pc),
        valid: no_registers().update(29, true).update(30, true).update(31, true).update(32, true),
    }
}

/// The caller by the frame-pointer chain. The callee's frame pointer points
/// at a pair of saved words: the caller's frame pointer and, above it, the
/// caller's link register. The caller resumes at the callee's link register
/// and its stack begins above the pair. There is no such caller unless the
/// callee's frame pointer, link register and stack pointer are valid, the
/// frame pointer is not zero, the pair can be read, the caller's stack pointer
/// lies above the callee's and its program counter is not zero.
pub open spec fn caller_by_frame_pointer(callee: ContextView, mem: Option<MemoryView>) -> Option<
    ContextView,
> {
    match (valid_register(callee, 29), valid_register(callee, 30), valid_register(callee, 31)) {
        (Some(fp), Some(lr), Some(sp)) => if fp == 0 || fp > u64::MAX - 16 {
            None
        } else {
            match (read_word(mem, fp), read_word(mem, (fp + 8) as u64)) {
                (Some(saved_fp), Some(saved_lr)) => if fp + 16 > sp && strip_spec(lr) != 0 {
                    Some(
                        four_registers(
                            strip_spec(lr),
                            strip_spec(saved_lr),
                            saved_fp,
                            (fp + 16) as u64,
                        ),
                    )
                } else {
                    None
                },
                _ => None,
            }
        },
        _ => None,
    }
}

/// Whether a word found on the stack may be a return address: it lies in a
/// module, and, where symbols are loaded for that module, in one of its
/// functions.
pub open spec fn plausible_return_address(
    value: u64,
    modules: Map<u64, ModuleView>,
    symbols: Seq<SymbolEntryView>,
) -> bool {
    match module_at(modules, value) {
        Some(m) => match loaded_symbols(symbols, m.name) {
            Some(file) => function_covers(file.functions, (value - m.base) as u64),
            None => true,
        },
        None => false,
    }
}

/// The registers in which only the stack pointer and the program counter
/// are set.
pub open spec fn two_registers(pc: u64, sp: u64) -> ContextView {
    ContextView {
        regs: zero_registers().update(31, sp).update(32, pc),
        valid: no_registers().update(31, true).update(32, true),
    }
}

/// The caller found by scanning up to `words` words from the address `slot`
/// upwards: the first word that may be a return address is the caller's
/// program counter, and its stack begins above that word. The scan ends at
/// the first word that cannot be read.
pub open spec fn scan_words(env: WalkView, slot: int, words: nat) -> Option<ContextView>
    decreases words,
{
    if words == 0 || slot + 8 > u64::MAX {
        None
    } else {
        match read_word(env.memory, slot as u64) {
            Some(value) => if plausible_return_address(value, env.modules, env.symbols) {
                Some(two_registers(value, (slot + 8) as u64))
            } else {
                scan_words(env, slot + 8, (words - 1) as nat)
            },
            None => None,
        }
    }
}

/// The number of words scanned above a frame: more above the innermost
/// frame, where the registers say least about the stack, than above the others.
pub open spec fn scan_window(first: bool) -> nat {
    if first {
        FIRST_FRAME_SCAN_WORDS as nat
    } else {
        LATER_FRAME_SCAN_WORDS as nat
    }
}

/// The caller by scanning: the scan starts at the callee's stack pointer,
/// which lies above every slot that the steps before have used, and takes
/// the window of the frame.
pub open spec fn caller_by_scan(callee: ContextView, first: bool, env: WalkView) -> Option<
    ContextView,
> {
    match valid_register(callee, 31) {
        Some(sp) => scan_words(env, sp as int, scan_window(first)),
        None => None,
    }
}

/// The caller's frame: by the first strategy that finds one.
pub open spec fn next_frame(callee: FrameView, env: WalkView) -> Option<FrameView> {
    let found = match caller_by_cfi(callee.context, env) {
        Some(c) => Some((c, FrameTrust::CallFrameInfo)),
        None => match caller_by_frame_pointer(callee.context, env.memory) {
            Some(c) => Some((c, FrameTrust::FramePointer)),
            None => match caller_by_scan(callee.context, callee.trust is Context, env) {
                Some(c) => Some((c, FrameTrust::Scan)),
                None => None,
            },
        },
    };
    match found {
        Some((context, trust)) => Some(
            FrameView { context, trust, module: module_at(env.modules, context.regs[32]) },
        ),
        None => None,
    }
}

/// The frames above `callee`, at most `budget` of them.
pub open spec fn frames_after(callee: FrameView, budget: nat, env: WalkView) -> Seq<FrameView>
    decreases budget,
{
    if budget == 0 {
        Seq::empty()
    } else {
        match next_frame(callee, env) {
            Some(f) => seq![f] + frames_after(f, (budget - 1) as nat, env),
            None => Seq::empty(),
        }
    }
}

/// The innermost frame: the captured registers, all of them valid.
pub open spec fn first_frame(regs: Seq<u64>, env: WalkView) -> FrameView {
    FrameView {
        context: ContextView { regs, valid: all_registers() },
        trust: FrameTrust::Context,
        module: module_at(env.modules, regs[32]),
    }
}

/// The frames of a walk from the captured registers `regs`.
pub open spec fn walk_frames(regs: Seq<u64>, env: WalkView) -> Seq<FrameView> {
    seq![first_frame(regs, env)] + frames_after(
        first_frame(regs, env),
        (MAX_FRAMES - 1) as nat,
        env,
    )
}

/// Whether `r` is the context `expected`, or neither is there.
pub open spec fn same_context(r: Option<FrameContext>, expected: Option<ContextView>) -> bool {
    match r {
        Some(c) => expected == Some(c@),
        None => expected is None,
    }
}

/// Recovers the caller by call frame information.
pub fn get_caller_by_cfi(
    callee: &FrameContext,
    memory: Option<&StackMemory>,
    modules: &minidump::MinidumpModuleList,
    symbols: &SymbolTable,
) -> (r: Option<FrameContext>)
    ensures
        same_context(r, caller_by_cfi(callee@, walk_view(memory, modules, symbols))),
{
    let pc = match callee.register(PROGRAM_COUNTER) {
        Some(v) => v,
        None => {
            return None;
        },
    };
    let sp = match callee.register(STACK_POINTER) {
        Some(v) => v,
        None => {
            return None;
        },
    };
    let module = match module_at_address(modules, pc) {
        Some(m) => m,
        None => {
            return None;
        },
    };
    let file = match symbols.lookup(module.code_file()) {
        Some(f) => f,
        None => {
            return None;
        },
    };
    let prog = match file.cfi_program(pc - module.base) {
        Some(p) => p,
        None => {
            return None;
        },
    };
    match evaluate_cfi(prog.as_slice(), callee, memory) {
        Ok(ctx) => if ctx.raw.register(STACK_POINTER) > sp {
            Some(ctx)
        } else {
            None
        },
        Err(_) => None,
    }
}

/// Recovers the caller by the frame-pointer chain.
pub fn get_caller_by_frame_pointer(callee: &FrameContext, memory: Option<&StackMemory>) -> (r:
    Option<FrameContext>)
    ensures
        same_context(r, caller_by_frame_pointer(callee@, memory_view(memory))),
{
    let fp = match callee.register(FRAME_POINTER) {
        Some(v) => v,
        None => {
            return None;
        },
    };
    let lr = match callee.register(LINK_REGISTER) {
        Some(v) => v,
        None => {
            return None;
        },
    };
    let sp = match callee.register(STACK_POINTER) {
        Some(v) => v,
        None => {
            return None;
        },
    };
    if fp == 0 || fp > u64::MAX - 16 {
        return None;
    }
    let saved_fp = read_memory(memory, fp);
    let saved_lr = read_memory(memory, fp + 8);
    match (saved_fp, saved_lr) {
        (Some(saved_fp), Some(saved_lr)) => {
            let pc = ptr_auth_strip(lr);
            if fp + 16 > sp && pc != 0 {
                let mut raw = Arm64Context::new();
                let mut valid = RegisterSet::empty();
                raw.set(FRAME_POINTER, saved_fp);
                valid.insert(FRAME_POINTER);
                raw.set(LINK_REGISTER, ptr_auth_strip(saved_lr));
                valid.insert(LINK_REGISTER);
                raw.set(STACK_POINTER, fp + 16);
                valid.insert(STACK_POINTER);
                raw.set(PROGRAM_COUNTER, pc);
                valid.insert(PROGRAM_COUNTER);
                Some(FrameContext { raw, valid: ContextValidity::Subset(valid) })
            } else {
                None
            }
        },
        _ => None,
    }
}

/// Whether a word found on the stack may be a return address.
pub fn instruction_seems_valid(
    value: u64,
    modules: &minidump::MinidumpModuleList,
    symbols: &SymbolTable,
) -> (r: bool)
    ensures
        r == plausible_return_address(value, mapped_modules(*modules), symbols@),
{
    match module_at_address(modules, value) {
        Some(m) => match symbols.lookup(m.code_file()) {
            Some(file) => file.has_function_at(value - m.base),
            None => true,
        },
        None => false,
    }
}

/// Recovers the caller by scanning the stack above the callee's stack
/// pointer. `first` says that the callee is the innermost frame.
pub fn get_caller_by_scan(
    callee: &FrameContext,
    first: bool,
    memory: Option<&StackMemory>,
    modules: &minidump::MinidumpModuleList,
    symbols: &SymbolTable,
) -> (r: Option<FrameContext>)
    ensures
        same_context(r, caller_by_scan(callee@, first, walk_view(memory, modules, symbols))),
{
    let ghost env = walk_view(memory, modules, symbols);
    let sp = match callee.register(STACK_POINTER) {
        Some(v) => v,
        None => {
            return None;
        },
    };
    let words: u64 = if first {
        FIRST_FRAME_SCAN_WORDS
    } else {
        LATER_FRAME_SCAN_WORDS
    };
    let mut slot: u64 = sp;
    let mut left: u64 = words;
    while left > 0
        invariant
            env == walk_view(memory, modules, symbols),
            valid_register(callee@, 31) == Some(sp),
            words == scan_window(first),
            scan_words(env, slot as int, left as nat) == scan_words(
                env,
                sp as int,
                words as nat,
            ),
        decreases left,
    {
        if slot > u64::MAX - 8 {
            return None;
        }
        match read_memory(memory, slot) {
            Some(value) => {
                if instruction_seems_valid(value, modules, symbols) {
                    let mut raw = Arm64Context::new();
                    let mut valid = RegisterSet::empty();
                    raw.set(STACK_POINTER, slot + 8);
                    valid.insert(STACK_POINTER);
                    raw.set(PROGRAM_COUNTER, value);
                    valid.insert(PROGRAM_COUNTER);
                    return Some(FrameContext { raw, valid: ContextValidity::Subset(valid) });
                }
            },
            None => {
                return None;
            },
        }
        slot = slot + 8;
        left = left - 1;
    }
    None
}

/// Whether `r` is the frame `expected`, or neither is there.
pub open spec fn same_frame(r: Option<StackFrame>, expected: Option<FrameView>) -> bool {
    match r {
        Some(f) => expected == Some(f@),
        None => expected is None,
    }
}

/// Recovers the caller's frame by the first strategy that succeeds: call
/// frame information, then the frame-pointer chain, then a scan.
pub fn get_caller_frame(
    callee: &StackFrame,
    memory: Option<&StackMemory>,
    modules: &minidump::MinidumpModuleList,
    symbols: &SymbolTable,
) -> (r: Option<StackFrame>)
    ensures
        same_frame(r, next_frame(callee@, walk_view(memory, modules, symbols))),
{
    let first = match callee.trust {
        FrameTrust::Context => true,
        _ => false,
    };
    let found = match get_caller_by_cfi(&callee.context, memory, modules, symbols) {
        Some(c) => Some((c, FrameTrust::CallFrameInfo)),
        None => match get_caller_by_frame_pointer(&callee.context, memory) {
            Some(c) => Some((c, FrameTrust::FramePointer)),
            None => match get_caller_by_scan(&callee.context, first, memory, modules, symbols) {
                Some(c) => Some((c, FrameTrust::Scan)),
                None => None,
            },
        },
    };
    match found {
        Some((context, trust)) => {
            let module = module_at_address(modules, context.raw.register(PROGRAM_COUNTER));
            Some(StackFrame { context, trust, module })
        },
        None => None,
    }
}

/// Walks the stack of a thread from its captured registers.
///
/// The result begins with the frame of the captured registers, all of them
/// valid, and goes on with each caller that can be recovered, up to
/// `MAX_FRAMES` frames in all. The stack pointer rises from each frame to the
/// next.
pub fn walk_stack(
    context: &Arm64Context,
    memory: Option<&StackMemory>,
    modules: &minidump::MinidumpModuleList,
    symbols: &SymbolTable,
) -> (r: CallStack)
    ensures
        r@ == walk_frames(context@, walk_view(memory, modules, symbols)),
        1 <= r.frames@.len() <= MAX_FRAMES,
        r.frames@[0].trust == FrameTrust::Context,
        r.frames@[0].context.valid is All,
        r.frames@[0].context.raw@ == context@,
        stack_rises(r@),
{
    let ghost env = walk_view(memory, modules, symbols);
    proof {
        lemma_walk_rises(context@, env);
    }
    let first = StackFrame {
        context: FrameContext { raw: *context, valid: ContextValidity::All },
        trust: FrameTrust::Context,
        module: module_at_address(modules, context.register(PROGRAM_COUNTER)),
    };
    assert(first@ == first_frame(context@, env));
    let mut frames: Vec<StackFrame> = Vec::new();
    frames.push(first);
    assert(frame_views(frames@) =~= seq![first_frame(context@, env)]);
    while frames.len() < MAX_FRAMES
        invariant
            env == walk_view(memory, modules, symbols),
            1 <= frames@.len() <= MAX_FRAMES,
            frames@[0].trust == FrameTrust::Context,
            frames@[0].context.valid is All,
            frames@[0].context.raw@ == context@,
            stack_rises(walk_frames(context@, env)),
            frame_views(frames@) + frames_after(
                frames@[frames@.len() - 1]@,
                (MAX_FRAMES - frames@.len()) as nat,
                env,
            ) == walk_frames(context@, env),
        decreases MAX_FRAMES - frames@.len(),
    {
        let ghost before = frames@;
        let ghost last = frames@[frames@.len() - 1]@;
        match get_caller_frame(&frames[frames.len() - 1], memory, modules, symbols) {
            Some(f) => {
                let ghost fv = f@;
                frames.push(f);
                assert(frame_views(frames@) =~= frame_views(before) + seq![fv]);
                assert(frame_views(frames@) + frames_after(
                    fv,
                    (MAX_FRAMES - frames@.len()) as nat,
                    env,
                ) =~= frame_views(before) + frames_after(
                    last,
                    (MAX_FRAMES - before.len()) as nat,
                    env,
                ));
            },
            None => {
                assert(frame_views(frames@) + Seq::<FrameView>::empty() =~= frame_views(frames@));
                return CallStack { frames };
            },
        }
    }
    assert(frame_views(frames@) + Seq::<FrameView>::empty() =~= frame_views(frames@));
    CallStack { frames }
}

/// What a scan finds holds exactly the program counter and the stack
/// pointer: the program counter may be a return address, and the stack
/// pointer lies above the slot where the scan began.
pub proof fn lemma_scan_result(env: WalkView, slot: int, words: nat)
    requires
        0 <= slot,
    ensures
        match scan_words(env, slot, words) {
            Some(c) => exists|pc: u64, sp: u64|
                c == two_registers(pc, sp) && sp >= slot + 8 && plausible_return_address(
                    pc,
                    env.modules,
                    env.symbols,
                ),
            None => true,
        },
    decreases words,
{
    if words == 0 || slot + 8 > u64::MAX {
    } else {
        match read_word(env.memory, slot as u64) {
            Some(value) => {
                if plausible_return_address(value, env.modules, env.symbols) {
                    assert(scan_words(env, slot, words) == Some(
                        two_registers(value, (slot + 8) as u64),
                    ));
                } else {
                    lemma_scan_result(env, slot + 8, (words - 1) as nat);
                }
            },
            None => {},
        }
    }
}

/// The window of the innermost frame is the longer one, and a longer window
/// finds whatever a shorter one finds from the same slot.
pub proof fn lemma_scan_window_grows(env: WalkView, slot: int, shorter: nat, longer: nat)
    requires
        shorter <= longer,
        scan_words(env, slot, shorter) is Some,
    ensures
        scan_words(env, slot, longer) == scan_words(env, slot, shorter),
        scan_window(false) < scan_window(true),
    decreases shorter,
{
    if shorter > 0 && slot + 8 <= u64::MAX {
        match read_word(env.memory, slot as u64) {
            Some(value) => {
                if !plausible_return_address(value, env.modules, env.symbols) {
                    lemma_scan_window_grows(
                        env,
                        slot + 8,
                        (shorter - 1) as nat,
                        (longer - 1) as nat,
                    );
                }
            },
            None => {},
        }
    }
}

/// A scan misses whatever lies beyond its window: it finds nothing when
/// none of the words of the window may be a return address.
pub proof fn lemma_scan_misses_beyond_window(env: WalkView, slot: int, words: nat)
    requires
        0 <= slot,
        forall|k: int|
            0 <= k < words && slot + 8 * k + 8 <= u64::MAX ==> match #[trigger] read_word(
                env.memory,
                (slot + 8 * k) as u64,
            ) {
                Some(value) => !plausible_return_address(value, env.modules, env.symbols),
                None => true,
            },
    ensures
        scan_words(env, slot, words) is None,
    decreases words,
{
    if words > 0 && slot + 8 <= u64::MAX {
        assert(read_word(env.memory, (slot + 8 * 0) as u64) == read_word(env.memory, slot as u64));
        assert forall|k: int|
            0 <= k < words - 1 && (slot + 8) + 8 * k + 8 <= u64::MAX implies match (
            #[trigger] read_word(env.memory, ((slot + 8) + 8 * k) as u64)) {
            Some(value) => !plausible_return_address(value, env.modules, env.symbols),
            None => true,
        } by {
            assert((slot + 8) + 8 * k == slot + 8 * (k + 1));
            assert(read_word(env.memory, (slot + 8 * (k + 1)) as u64) == read_word(
                env.memory,
                ((slot + 8) + 8 * k) as u64,
            ));
        }
        lemma_scan_misses_beyond_window(env, slot + 8, (words - 1) as nat);
    }
}

/// A caller found by the frame-pointer chain holds exactly the program
/// counter, the stack pointer, the frame pointer and the link register:
/// four valid registers.
pub proof fn lemma_frame_pointer_registers(callee: ContextView, mem: Option<MemoryView>)
    requires
        caller_by_frame_pointer(callee, mem) is Some,
    ensures
        forall|r: int|
            0 <= r < 33 ==> (caller_by_frame_pointer(callee, mem).unwrap().valid[r] <==> (r == 29
                || r == 30 || r == 31 || r == 32)),
        caller_by_frame_pointer(callee, mem).unwrap().valid.len() == 33,
        count_members(caller_by_frame_pointer(callee, mem).unwrap().valid, 33) == 4,
{
    let valid = caller_by_frame_pointer(callee, mem).unwrap().valid;
    assert(valid =~= no_registers().update(29, true).update(30, true).update(31, true).update(
        32,
        true,
    ));
    lemma_count_none(valid, 29);
    reveal_with_fuel(count_members, 5);
}

proof fn lemma_count_none(members: Seq<bool>, n: int)
    requires
        forall|i: int| 0 <= i < n ==> !members[i],
    ensures
        count_members(members, n) == 0,
    decreases n,
{
    if n > 0 {
        lemma_count_none(members, n - 1);
    }
}

/// A frame whose saved frame pointer and link register are both zero is
/// still found: it is the last of its chain, for from a frame pointer of
/// zero the chain goes no further.
pub proof fn lemma_frame_pointer_chain_end(callee: ContextView, mem: Option<MemoryView>)
    requires
        valid_register(callee, 29) is Some,
        valid_register(callee, 30) is Some,
        valid_register(callee, 31) is Some,
        callee.regs[29] != 0,
        callee.regs[29] <= u64::MAX - 16,
        read_word(mem, callee.regs[29]) == Some(0u64),
        read_word(mem, (callee.regs[29] + 8) as u64) == Some(0u64),
        callee.regs[29] + 16 > callee.regs[31],
        strip_spec(callee.regs[30]) != 0,
    ensures
        caller_by_frame_pointer(callee, mem) == Some(
            four_registers(strip_spec(callee.regs[30]), 0, 0, (callee.regs[29] + 16) as u64),
        ),
        caller_by_frame_pointer(caller_by_frame_pointer(callee, mem).unwrap(), mem) is None,
{
    assert(0u64 & 0x0000_007f_ffff_ffffu64 == 0) by (bit_vector);
}

/// The caller that the frame-pointer chain gives does not depend on the
/// signature bits of the callee's link register.
pub proof fn lemma_frame_pointer_ignores_signature(
    callee: ContextView,
    signature: u64,
    mem: Option<MemoryView>,
)
    requires
        callee.regs.len() == 33,
        signature & POINTER_AUTH_MASK == 0,
    ensures
        caller_by_frame_pointer(
            ContextView {
                regs: callee.regs.update(30, (callee.regs[30] | signature) as u64),
                valid: callee.valid,
            },
            mem,
        ) == caller_by_frame_pointer(callee, mem),
{
    lemma_strip_ignores_signature(callee.regs[30], signature);
}

/// A caller is accepted only above its callee: whichever strategy finds the
/// next frame, its stack pointer and program counter are valid, its stack
/// pointer is greater than the callee's, and its trust is not that of a
/// captured context.
pub proof fn lemma_caller_is_above(callee: FrameView, env: WalkView)
    requires
        next_frame(callee, env) is Some,
    ensures
        valid_register(callee.context, 31) is Some,
        valid_register(next_frame(callee, env).unwrap().context, 31) is Some,
        valid_register(next_frame(callee, env).unwrap().context, 32) is Some,
        next_frame(callee, env).unwrap().context.regs[31] > callee.context.regs[31],
        next_frame(callee, env).unwrap().trust != FrameTrust::Context,
{
    let ctx = callee.context;
    if caller_by_cfi(ctx, env) is Some {
    } else if caller_by_frame_pointer(ctx, env.memory) is Some {
    } else {
        let sp = valid_register(ctx, 31).unwrap();
        lemma_scan_result(env, sp as int, scan_window(callee.trust is Context));
    }
}

/// Whether the stack pointer and the program counter are valid in every
/// frame, the stack pointer rises along the frames, and only the first frame
/// may be a captured context.
pub open spec fn stack_rises(frames: Seq<FrameView>) -> bool {
    &&& forall|i: int|
        0 <= i < frames.len() ==> valid_register((#[trigger] frames[i]).context, 31) is Some
            && valid_register(frames[i].context, 32) is Some
    &&& forall|i: int, j: int|
        0 <= i < j < frames.len() ==> (#[trigger] frames[i]).context.regs[31] < (
        #[trigger] frames[j]).context.regs[31]
    &&& forall|i: int| 0 < i < frames.len() ==> (#[trigger] frames[i]).trust != FrameTrust::Context
}

proof fn lemma_frames_rise(callee: FrameView, budget: nat, env: WalkView)
    requires
        valid_register(callee.context, 31) is Some,
        valid_register(callee.context, 32) is Some,
    ensures
        stack_rises(seq![callee] + frames_after(callee, budget, env)),
        frames_after(callee, budget, env).len() <= budget,
    decreases budget,
{
    let all = seq![callee] + frames_after(callee, budget, env);
    if budget > 0 {
        match next_frame(callee, env) {
            Some(f) => {
                lemma_caller_is_above(callee, env);
                lemma_frames_rise(f, (budget - 1) as nat, env);
                let rest = seq![f] + frames_after(f, (budget - 1) as nat, env);
                assert(all =~= seq![callee] + rest);
                assert(rest[0] == f);
                assert forall|i: int| 0 <= i < all.len() implies valid_register(
                    (#[trigger] all[i]).context,
                    31,
                ) is Some && valid_register(all[i].context, 32) is Some by {
                    if i > 0 {
                        assert(all[i] == rest[i - 1]);
                    }
                }
                assert forall|i: int, j: int| 0 <= i < j < all.len() implies (
                #[trigger] all[i]).context.regs[31] < (#[trigger] all[j]).context.regs[31] by {
                    assert(all[j] == rest[j - 1]);
                    if i > 0 {
                        assert(all[i] == rest[i - 1]);
                    } else if j > 1 {
                        assert(rest[0].context.regs[31] < rest[j - 1].context.regs[31]);
                    }
                }
                assert forall|i: int| 0 < i < all.len() implies (#[trigger] all[i]).trust
                    != FrameTrust::Context by {
                    assert(all[i] == rest[i - 1]);
                }
            },
            None => {},
        }
    }
}

/// In every walk the stack pointer and the program counter are valid in each
/// frame, the stack pointer rises from each frame to the next, the walk holds
/// at least one and at most `MAX_FRAMES` frames, and only its first frame is a
/// captured context.
pub proof fn lemma_walk_rises(regs: Seq<u64>, env: WalkView)
    requires
        regs.len() == 33,
    ensures
        stack_rises(walk_frames(regs, env)),
        1 <= walk_frames(regs, env).len() <= MAX_FRAMES,
        walk_frames(regs, env)[0] == first_frame(regs, env),
{
    lemma_frames_rise(first_frame(regs, env), (MAX_FRAMES - 1) as nat, env);
}

/// Where the rule program in force at the callee's program counter cannot be
/// evaluated, the caller is the one that the frame-pointer chain gives, or
/// else the scan; where neither finds one, the walk ends at the callee.
pub proof fn lemma_failed_rules_fall_back(callee: FrameView, env: WalkView)
    requires
        valid_register(callee.context, 32) is Some,
        cfi_program_at(env, callee.context.regs[32]) is Some,
        evaluate_spec(
            cfi_program_at(env, callee.context.regs[32]).unwrap(),
            callee.context,
            env.memory,
        ) is Err,
    ensures
        caller_by_cfi(callee.context, env) is None,
        next_frame(callee, env) is Some ==> next_frame(callee, env).unwrap().trust
            != FrameTrust::CallFrameInfo,
        caller_by_frame_pointer(callee.context, env.memory) is None && caller_by_scan(
            callee.context,
            callee.trust is Context,
            env,
        ) is None ==> forall|budget: nat| #[trigger]
            frames_after(callee, budget, env) == Seq::<FrameView>::empty(),
{
}

} // verus!
