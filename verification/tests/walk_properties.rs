use arm64_unwind::fixture::TestFixture;
use arm64_unwind::memory::StackMemory;
use arm64_unwind::modules::ModuleInfo;
use arm64_unwind::registers::{Arm64Context, ContextValidity, FrameContext, RegisterSet};
use arm64_unwind::stackwalker::{
    get_caller_by_cfi, get_caller_by_frame_pointer, get_caller_by_scan, get_caller_frame,
    instruction_seems_valid, walk_stack, CallStack, FrameTrust, StackFrame,
    FIRST_FRAME_SCAN_WORDS, LATER_FRAME_SCAN_WORDS, MAX_FRAMES,
};
use arm64_unwind::symbols::SymbolTable;
use minidump::{MinidumpModule, MinidumpModuleList};

const STACK_BASE: u64 = 0x8000_0000;

fn memory(words: &[u64]) -> StackMemory {
    let mut bytes = Vec::new();
    for word in words {
        bytes.extend_from_slice(&word.to_le_bytes());
    }
    StackMemory::new(STACK_BASE, bytes).unwrap()
}

fn stack_pointers(stack: &CallStack) -> Vec<u64> {
    stack
        .frames
        .iter()
        .map(|f| f.context.register(31).unwrap())
        .collect()
}

fn assert_rises(stack: &CallStack) {
    let sps = stack_pointers(stack);
    for pair in sps.windows(2) {
        assert!(pair[0] < pair[1]);
    }
    for frame in &stack.frames[1..] {
        assert_ne!(frame.trust, FrameTrust::Context);
    }
}

#[test]
fn a_walk_begins_with_the_captured_context() {
    let mut f = TestFixture::new();
    f.raw.set_register("pc", 0x4000_c020);
    f.raw.set_register("sp", STACK_BASE);
    f.raw.set_register("x5", 55);
    let s = walk_stack(&f.raw, None, &f.modules, &f.symbols);
    assert_eq!(s.frames.len(), 1);
    assert_eq!(s.frames[0].trust, FrameTrust::Context);
    assert_eq!(s.frames[0].context.valid, ContextValidity::All);
    assert_eq!(s.frames[0].context.raw, f.raw);
    assert_eq!(s.frames[0].module.as_ref().unwrap().code_file(), "module1");

    let empty = TestFixture::new();
    let s = empty.walk_stack(memory(&[]));
    assert_eq!(s.frames.len(), 1);
    assert_eq!(s.frames[0].trust, FrameTrust::Context);
    assert_eq!(s.frames[0].context.valid, ContextValidity::All);
    assert!(s.frames[0].module.is_none());
}

#[test]
fn frames_name_the_module_of_their_program_counter() {
    let mut f = TestFixture::new();
    f.raw.set_register("pc", 0x5000_ffff);
    f.raw.set_register("sp", STACK_BASE);
    let s = f.walk_stack(memory(&[0x4000_0000, 0x4001_0000, 0x3fff_ffff, 0x5000_0000]));
    assert_eq!(s.frames.len(), 3);
    let module = s.frames[0].module.as_ref().unwrap();
    assert_eq!(module.code_file(), "module2");
    assert_eq!(module.base, 0x5000_0000);
    assert_eq!(module.size, 0x1_0000);
    let module = s.frames[1].module.as_ref().unwrap();
    assert_eq!(module.code_file(), "module1");
    assert_eq!(module.base, 0x4000_0000);
    assert_eq!(s.frames[1].context.register(32), Some(0x4000_0000));
    assert_eq!(s.frames[2].module.as_ref().unwrap().code_file(), "module2");
    assert_eq!(s.frames[2].context.register(32), Some(0x5000_0000));
    assert_rises(&s);
}

#[test]
fn a_scan_accepts_only_words_inside_functions_where_symbols_are_loaded() {
    let mut f = TestFixture::new();
    f.add_symbols(
        String::from("module2"),
        String::from("FUNC 100 400 10 marsupial\n"),
    );
    assert!(instruction_seems_valid(0x5000_0100, &f.modules, &f.symbols));
    assert!(instruction_seems_valid(0x5000_04ff, &f.modules, &f.symbols));
    assert!(!instruction_seems_valid(0x5000_0500, &f.modules, &f.symbols));
    assert!(!instruction_seems_valid(0x5000_00ff, &f.modules, &f.symbols));
    assert!(!instruction_seems_valid(0x5000_f000, &f.modules, &f.symbols));
    // No symbols for module1: any address inside it will do.
    assert!(instruction_seems_valid(0x4000_f000, &f.modules, &f.symbols));
    assert!(instruction_seems_valid(0x4000_0000, &f.modules, &f.symbols));
    assert!(instruction_seems_valid(0x4000_ffff, &f.modules, &f.symbols));
    // Outside every module.
    assert!(!instruction_seems_valid(0x4001_0000, &f.modules, &f.symbols));
    assert!(!instruction_seems_valid(0x3fff_ffff, &f.modules, &f.symbols));
    assert!(!instruction_seems_valid(0, &f.modules, &f.symbols));
    assert!(!instruction_seems_valid(u64::MAX, &f.modules, &f.symbols));

    f.raw.set_register("pc", 0x4000_0200);
    f.raw.set_register("sp", STACK_BASE);
    let s = f.walk_stack(memory(&[0x5000_f000, 0x5000_0100, 0, 0]));
    assert_eq!(s.frames.len(), 2);
    assert_eq!(s.frames[1].trust, FrameTrust::Scan);
    assert_eq!(s.frames[1].context.register(32), Some(0x5000_0100));
    assert_eq!(s.frames[1].context.register(31), Some(STACK_BASE + 16));
    assert_eq!(s.frames[1].context.valid.len(), 2);
}

/// A stack on which the successor of frame 0 lies `first` words up, and the
/// successor of frame 1 lies `later` words above frame 1's stack pointer.
fn two_scans(first: usize, later: usize) -> CallStack {
    let mut f = TestFixture::new();
    f.raw.set_register("pc", 0x4000_5510);
    f.raw.set_register("sp", STACK_BASE);
    let mut words = vec![0u64; first];
    words.push(0x5000_0100);
    words.extend(vec![0u64; later]);
    words.push(0x5000_0900);
    words.extend(vec![0u64; 8]);
    f.walk_stack(memory(&words))
}

#[test]
fn the_first_frame_is_scanned_further_than_the_others() {
    assert_eq!(FIRST_FRAME_SCAN_WORDS, 160);
    assert_eq!(LATER_FRAME_SCAN_WORDS, 40);

    // Within both windows.
    assert_eq!(two_scans(39, 39).frames.len(), 3);
    // At the same depth the first frame's successor is found and a later
    // frame's is missed.
    let s = two_scans(40, 40);
    assert_eq!(s.frames.len(), 2);
    assert_eq!(s.frames[1].context.register(32), Some(0x5000_0100));
    assert_eq!(s.frames[1].context.register(31), Some(STACK_BASE + 41 * 8));
    assert_eq!(two_scans(100, 100).frames.len(), 2);
    assert_eq!(two_scans(100, 39).frames.len(), 3);
    // The edges of the first window.
    assert_eq!(two_scans(159, 1).frames.len(), 3);
    assert_eq!(two_scans(160, 1).frames.len(), 1);
}

#[test]
fn every_scan_starts_at_the_stack_pointer() {
    let mut f = TestFixture::new();
    f.raw.set_register("pc", 0x4000_5510);
    f.raw.set_register("sp", STACK_BASE);
    let s = f.walk_stack(memory(&[0x5000_0100, 0x5000_0200, 0, 0x5000_0300, 0]));
    assert_eq!(s.frames.len(), 4);
    assert_eq!(s.frames[1].context.register(32), Some(0x5000_0100));
    assert_eq!(s.frames[1].context.register(31), Some(STACK_BASE + 8));
    assert_eq!(s.frames[2].context.register(32), Some(0x5000_0200));
    assert_eq!(s.frames[2].context.register(31), Some(STACK_BASE + 16));
    assert_eq!(s.frames[3].context.register(32), Some(0x5000_0300));
    assert_eq!(s.frames[3].context.register(31), Some(STACK_BASE + 32));
    assert_rises(&s);

    let mut raw = Arm64Context::new();
    raw.set(31, STACK_BASE + 8);
    let callee = FrameContext {
        raw,
        valid: ContextValidity::All,
    };
    let stack = memory(&[0x5000_0100, 7, 0x5000_0300]);
    for first in [true, false] {
        let caller = get_caller_by_scan(&callee, first, Some(&stack), &f.modules, &f.symbols);
        let caller = caller.unwrap();
        assert_eq!(caller.register(32), Some(0x5000_0300));
        assert_eq!(caller.register(31), Some(STACK_BASE + 24));
        assert_eq!(caller.valid.len(), 2);
    }
}

#[test]
fn a_scan_ends_where_memory_ends() {
    let f = TestFixture::new();
    let mut raw = Arm64Context::new();
    raw.set(31, STACK_BASE - 8);
    let below = FrameContext {
        raw,
        valid: ContextValidity::All,
    };
    let stack = memory(&[0x5000_0100]);
    assert!(get_caller_by_scan(&below, true, Some(&stack), &f.modules, &f.symbols).is_none());
    assert!(get_caller_by_scan(&below, false, Some(&stack), &f.modules, &f.symbols).is_none());
    assert!(get_caller_by_scan(&below, true, None, &f.modules, &f.symbols).is_none());
    raw.set(31, STACK_BASE);
    let at = FrameContext {
        raw,
        valid: ContextValidity::All,
    };
    assert!(get_caller_by_scan(&at, false, Some(&stack), &f.modules, &f.symbols).is_some());
    assert!(get_caller_by_scan(&at, false, None, &f.modules, &f.symbols).is_none());
    raw.set(31, STACK_BASE + 8);
    let above = FrameContext {
        raw,
        valid: ContextValidity::All,
    };
    assert!(get_caller_by_scan(&above, true, Some(&stack), &f.modules, &f.symbols).is_none());

    raw.set(31, u64::MAX - 3);
    let top = FrameContext {
        raw,
        valid: ContextValidity::All,
    };
    assert!(get_caller_by_scan(&top, true, Some(&stack), &f.modules, &f.symbols).is_none());
    assert!(get_caller_by_scan(&top, false, Some(&stack), &f.modules, &f.symbols).is_none());

    let mut which = RegisterSet::empty();
    which.insert(32);
    let no_sp = FrameContext {
        raw,
        valid: ContextValidity::Subset(which),
    };
    assert!(get_caller_by_scan(&no_sp, true, Some(&stack), &f.modules, &f.symbols).is_none());
}

fn frame_pointer_callee(fp: u64, lr: u64, sp: u64) -> FrameContext {
    let mut raw = Arm64Context::new();
    raw.set(29, fp);
    raw.set(30, lr);
    raw.set(31, sp);
    raw.set(32, 0x4000_5510);
    FrameContext {
        raw,
        valid: ContextValidity::All,
    }
}

#[test]
fn the_frame_pointer_chain_recovers_four_registers() {
    let stack = memory(&[0, 0, STACK_BASE + 0x40, 0x0013_4200_5000_0900, 0, 0]);
    let callee = frame_pointer_callee(STACK_BASE + 16, 0x1110_0000_5000_0100, STACK_BASE);
    let caller = get_caller_by_frame_pointer(&callee, Some(&stack)).unwrap();
    assert_eq!(caller.valid.len(), 4);
    for reg in 0..33 {
        assert_eq!(caller.valid.is_valid(reg), (29..=32).contains(&reg));
    }
    assert_eq!(caller.register(32), Some(0x5000_0100));
    assert_eq!(caller.register(30), Some(0x5000_0900));
    assert_eq!(caller.register(29), Some(STACK_BASE + 0x40));
    assert_eq!(caller.register(31), Some(STACK_BASE + 32));

    // With or without the signature bits the caller is the same.
    let plain = frame_pointer_callee(STACK_BASE + 16, 0x5000_0100, STACK_BASE);
    assert_eq!(
        get_caller_by_frame_pointer(&plain, Some(&stack)),
        Some(caller)
    );
}

#[test]
fn the_frame_pointer_chain_has_its_conditions() {
    let stack = memory(&[0, 0, 0, 0, 0, 0]);
    let found = |fp: u64, lr: u64, sp: u64| {
        get_caller_by_frame_pointer(&frame_pointer_callee(fp, lr, sp), Some(&stack)).is_some()
    };
    // Saved words of zero still give a frame.
    assert!(found(STACK_BASE + 16, 0x5000_0100, STACK_BASE));
    // A frame pointer of zero, or one that cannot be read.
    assert!(!found(0, 0x5000_0100, STACK_BASE));
    assert!(!found(STACK_BASE - 8, 0x5000_0100, STACK_BASE - 16));
    assert!(!found(STACK_BASE + 40, 0x5000_0100, STACK_BASE));
    assert!(!found(u64::MAX - 8, 0x5000_0100, STACK_BASE));
    // A caller that is not above its callee.
    assert!(found(STACK_BASE, 0x5000_0100, STACK_BASE + 15));
    assert!(!found(STACK_BASE, 0x5000_0100, STACK_BASE + 16));
    assert!(!found(STACK_BASE, 0x5000_0100, STACK_BASE + 32));
    // A program counter of zero, before or after stripping.
    assert!(!found(STACK_BASE + 16, 0, STACK_BASE));
    assert!(!found(STACK_BASE + 16, 0x1110_0000_0000_0000, STACK_BASE));
    // No memory at all.
    assert!(get_caller_by_frame_pointer(
        &frame_pointer_callee(STACK_BASE + 16, 0x5000_0100, STACK_BASE),
        None
    )
    .is_none());

    // Each of the three registers must be valid in the callee.
    for missing in [29, 30, 31] {
        let mut which = RegisterSet::empty();
        for reg in [29, 30, 31, 32] {
            if reg != missing {
                which.insert(reg);
            }
        }
        let mut callee = frame_pointer_callee(STACK_BASE + 16, 0x5000_0100, STACK_BASE);
        callee.valid = ContextValidity::Subset(which);
        assert!(get_caller_by_frame_pointer(&callee, Some(&stack)).is_none());
    }
}

#[test]
fn a_frame_pointer_loop_ends() {
    // The saved frame pointer points back at itself.
    let mut f = TestFixture::new();
    f.raw.set_register("pc", 0x4000_5510);
    f.raw.set_register("lr", 0x5000_0100);
    f.raw.set_register("fp", STACK_BASE + 16);
    f.raw.set_register("sp", STACK_BASE);
    let s = f.walk_stack(memory(&[0, 0, STACK_BASE + 16, 0x5000_0900, 0, 0]));
    assert_eq!(s.frames.len(), 2);
    assert_eq!(s.frames[1].trust, FrameTrust::FramePointer);
    assert_rises(&s);
}

#[test]
fn a_walk_holds_at_most_the_frame_cap() {
    assert_eq!(MAX_FRAMES, 1024);
    let chain = |frames: u64| {
        let mut words = Vec::new();
        for i in 0..frames {
            words.push(STACK_BASE + 16 * (i + 1));
            words.push(0x5000_0900);
        }
        let mut f = TestFixture::new();
        f.raw.set_register("pc", 0x4000_5510);
        f.raw.set_register("lr", 0x5000_0100);
        f.raw.set_register("fp", STACK_BASE);
        f.raw.set_register("sp", STACK_BASE);
        f.walk_stack(memory(&words))
    };
    let s = chain(10);
    assert_eq!(s.frames.len(), 11);
    assert_rises(&s);
    let s = chain(1022);
    assert_eq!(s.frames.len(), 1023);
    let s = chain(1023);
    assert_eq!(s.frames.len(), 1024);
    let s = chain(1500);
    assert_eq!(s.frames.len(), 1024);
    assert_rises(&s);
    assert_eq!(
        s.frames[1023].context.register(31),
        Some(STACK_BASE + 16 * 1023)
    );
}

fn cfi_fixture(rules: &str) -> TestFixture {
    let mut f = TestFixture::new();
    f.add_symbols(
        String::from("module1"),
        format!("FUNC 4000 1000 10 f\nSTACK CFI INIT 4000 1000 {}\n", rules),
    );
    f.raw.set_register("pc", 0x4000_4800);
    f.raw.set_register("sp", STACK_BASE);
    f.raw.set_register("lr", 0x5000_0100);
    f
}

#[test]
fn rules_without_a_dereference_need_no_memory() {
    let f = cfi_fixture(".cfa: sp 16 + .ra: x30");
    let s = walk_stack(&f.raw, None, &f.modules, &f.symbols);
    assert_eq!(s.frames.len(), 2);
    assert_eq!(s.frames[1].trust, FrameTrust::CallFrameInfo);
    assert_eq!(s.frames[1].context.register(31), Some(STACK_BASE + 16));
    assert_eq!(s.frames[1].context.register(32), Some(0x5000_0100));
    assert_eq!(s.frames[1].module.as_ref().unwrap().code_file(), "module2");
}

#[test]
fn a_caller_at_or_below_its_callee_is_refused() {
    let words = [0u64; 4];
    for rules in [
        ".cfa: sp 8 - .ra: x30",
        ".cfa: sp .ra: x30",
        ".cfa: sp 0 + .ra: x30",
        ".cfa: 0 .ra: 0",
        ".cfa: sp 16 + .ra: x30 sp: sp",
        ".cfa: sp 16 + .ra: x30 sp: .cfa 17 -",
    ] {
        let f = cfi_fixture(rules);
        let callee = FrameContext {
            raw: f.raw,
            valid: ContextValidity::All,
        };
        assert!(
            get_caller_by_cfi(&callee, Some(&memory(&words)), &f.modules, &f.symbols).is_none(),
            "{}",
            rules
        );
        assert_eq!(f.walk_stack(memory(&words)).frames.len(), 1, "{}", rules);
    }
    for rules in [
        ".cfa: sp 1 + .ra: x30",
        ".cfa: sp 8 - .ra: x30 sp: .cfa 16 +",
    ] {
        let f = cfi_fixture(rules);
        let s = f.walk_stack(memory(&words));
        assert_eq!(s.frames.len(), 2, "{}", rules);
        assert_eq!(s.frames[1].trust, FrameTrust::CallFrameInfo);
        assert_rises(&s);
    }
}

#[test]
fn rules_that_fail_give_way_to_the_next_strategy() {
    // An undefined identifier: the frame-pointer chain takes over.
    let mut f = cfi_fixture(".cfa: moot .ra: ambiguous");
    f.raw.set_register("fp", STACK_BASE + 16);
    let s = f.walk_stack(memory(&[0, 0, 0, 0]));
    assert_eq!(s.frames.len(), 2);
    assert_eq!(s.frames[1].trust, FrameTrust::FramePointer);
    assert_eq!(s.frames[1].context.register(32), Some(0x5000_0100));

    // No frame pointer either: the scan takes over.
    let f = cfi_fixture(".cfa: sp 16 + .ra: .cfa 800 + ^");
    let s = f.walk_stack(memory(&[0, 0, 0x5000_0200, 0]));
    assert_eq!(s.frames.len(), 2);
    assert_eq!(s.frames[1].trust, FrameTrust::Scan);
    assert_eq!(s.frames[1].context.register(32), Some(0x5000_0200));

    // Nothing applies: the walk ends with the context frame.
    let f = cfi_fixture(".cfa: sp 16 + .ra: undefined");
    let s = f.walk_stack(memory(&[0, 0, 0, 0]));
    assert_eq!(s.frames.len(), 1);
}

#[test]
fn a_signed_return_address_is_recovered_as_the_plain_one() {
    let walk_with = |saved: u64| {
        let f = cfi_fixture(".cfa: sp 16 + .ra: .cfa 8 - ^");
        f.walk_stack(memory(&[0, saved, 0, 0]))
    };
    let signed = walk_with(0x0013_4200_5000_0100);
    let plain = walk_with(0x5000_0100);
    assert_eq!(signed.frames.len(), 2);
    assert_eq!(signed.frames[1].trust, FrameTrust::CallFrameInfo);
    assert_eq!(signed.frames[1].context.register(32), Some(0x5000_0100));
    assert_eq!(signed.frames[1].context, plain.frames[1].context);
    assert_eq!(
        signed.frames[1].module.as_ref().unwrap().code_file(),
        "module2"
    );
}

#[test]
fn strategies_are_tried_in_order() {
    // All three strategies would find a caller; the rules win.
    let mut f = cfi_fixture(".cfa: sp 24 + .ra: x30");
    f.raw.set_register("fp", STACK_BASE + 8);
    let stack = [0x4000_0300u64, 0, 0, 0, 0];
    let s = f.walk_stack(memory(&stack));
    assert_eq!(s.frames[1].trust, FrameTrust::CallFrameInfo);
    assert_eq!(s.frames[1].context.register(31), Some(STACK_BASE + 24));
    assert!(
        FrameTrust::Context.rank() < FrameTrust::CallFrameInfo.rank()
            && FrameTrust::CallFrameInfo.rank() < FrameTrust::FramePointer.rank()
            && FrameTrust::FramePointer.rank() < FrameTrust::Scan.rank()
    );

    // Without rules the frame pointer wins over the scan.
    let mut g = TestFixture::new();
    g.raw = f.raw;
    let s = g.walk_stack(memory(&stack));
    assert_eq!(s.frames[1].trust, FrameTrust::FramePointer);
    assert_eq!(s.frames[1].context.register(31), Some(STACK_BASE + 24));

    // Without a frame pointer the scan is left.
    g.raw.set_register("fp", 0);
    let s = g.walk_stack(memory(&stack));
    assert_eq!(s.frames[1].trust, FrameTrust::Scan);
    assert_eq!(s.frames[1].context.register(31), Some(STACK_BASE + 8));
}

#[test]
fn the_caller_of_a_frame_is_found_one_step_at_a_time() {
    let f = cfi_fixture(".cfa: sp 16 + .ra: x30");
    let first = StackFrame {
        context: FrameContext {
            raw: f.raw,
            valid: ContextValidity::All,
        },
        trust: FrameTrust::Context,
        module: Some(ModuleInfo::new(0x4000_0000, 0x1_0000, "module1")),
    };
    let next = get_caller_frame(&first, None, &f.modules, &f.symbols).unwrap();
    assert_eq!(next.trust, FrameTrust::CallFrameInfo);
    assert_eq!(next.context.register(32), Some(0x5000_0100));
    assert!(get_caller_frame(&next, None, &f.modules, &f.symbols).is_none());
}

#[test]
fn modules_that_overlap_give_one_module_or_none() {
    let modules = MinidumpModuleList::from_modules(vec![
        MinidumpModule::new(0x1800, 0x1000, "second"),
        MinidumpModule::new(0x1000, 0x1000, "first"),
    ]);
    let symbols = SymbolTable::new();
    let module_of = |pc: u64| {
        let mut raw = Arm64Context::new();
        raw.set(32, pc);
        let mut s = walk_stack(&raw, None, &modules, &symbols);
        s.frames.remove(0).module
    };
    // Whatever the list keeps, a module that is found covers the address.
    for pc in [0x0fffu64, 0x1000, 0x17ff, 0x1800, 0x1fff, 0x2000, 0x27ff, 0x2800] {
        if let Some(m) = module_of(pc) {
            assert!(m.base <= pc && pc - m.base < m.size);
            assert!(m.code_file() == "first" || m.code_file() == "second");
        }
    }
    assert_eq!(module_of(0x1000).unwrap().code_file(), "first");
    assert!(module_of(0x0fff).is_none());
    assert!(module_of(0x2800).is_none());
}

#[test]
fn modules_are_found_by_address() {
    let modules = MinidumpModuleList::from_modules(vec![
        MinidumpModule::new(0x1000, 0x1000, "low"),
        MinidumpModule::new(0x3000, 0x1000, "high"),
        MinidumpModule::new(0x5000, 0, "empty"),
    ]);
    let symbols = SymbolTable::new();
    assert!(instruction_seems_valid(0x1000, &modules, &symbols));
    assert!(instruction_seems_valid(0x1fff, &modules, &symbols));
    assert!(!instruction_seems_valid(0x2000, &modules, &symbols));
    assert!(instruction_seems_valid(0x3fff, &modules, &symbols));
    assert!(!instruction_seems_valid(0x5000, &modules, &symbols));

    let mut raw = Arm64Context::new();
    raw.set(32, 0x3abc);
    let s = walk_stack(&raw, None, &modules, &symbols);
    assert_eq!(s.frames.len(), 1);
    let module = s.frames[0].module.as_ref().unwrap();
    assert_eq!(module.code_file(), "high");
    assert_eq!(module.base, 0x3000);
    assert_eq!(module.size, 0x1000);
    let copy = module.duplicate();
    assert_eq!(copy.code_file(), "high");
    assert_eq!(copy.base, 0x3000);
}

#[test]
fn symbols_added_later_replace_earlier_ones() {
    let mut f = TestFixture::new();
    f.add_symbols(
        String::from("module2"),
        String::from("FUNC 100 400 10 marsupial\n"),
    );
    assert!(!instruction_seems_valid(0x5000_f000, &f.modules, &f.symbols));
    f.add_symbols(
        String::from("module2"),
        String::from("FUNC f000 100 10 placental\n"),
    );
    assert!(instruction_seems_valid(0x5000_f000, &f.modules, &f.symbols));
    assert!(!instruction_seems_valid(0x5000_0100, &f.modules, &f.symbols));
}
