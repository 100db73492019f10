//! A ready-made process to walk stacks in: two modules at fixed addresses,
//! registers to fill in, and symbols to add by module name.

use vstd::prelude::*;
use vstd::utf8::encode_utf8;
use crate::memory::StackMemory;
use crate::modules::{
    mapped_modules, module_covers, module_list_from, module_views, modules_disjoint,
    modules_in_address_space, ModuleInfo, ModuleView,
};
use crate::registers::{zero_registers, Arm64Context};
use crate::stackwalker::{
    module_at, stack_rises, walk_frames, walk_stack, walk_view, CallStack, FrameTrust, MAX_FRAMES,
};
use crate::symbols::{parse_symbols, SymbolEntryView, SymbolFile, SymbolTable};

verus! {

/// Base address of the first module of a fixture.
pub const MODULE1_BASE: u64 = 0x4000_0000;

/// Base address of the second module of a fixture.
pub const MODULE2_BASE: u64 = 0x5000_0000;

/// Size of each module of a fixture.
pub const MODULE_SIZE: u32 = 0x1_0000;

/// The module that a fixture maps at `address`: `module1` in the 64 KiB from
/// `MODULE1_BASE`, `module2` in the 64 KiB from `MODULE2_BASE`, none elsewhere.
pub open spec fn fixture_module_at(address: u64) -> Option<ModuleView> {
    if MODULE1_BASE <= address < MODULE1_BASE + MODULE_SIZE {
        Some(ModuleView { base: MODULE1_BASE, size: MODULE_SIZE as u64, name: "module1"@ })
    } else if MODULE2_BASE <= address < MODULE2_BASE + MODULE_SIZE {
        Some(ModuleView { base: MODULE2_BASE, size: MODULE_SIZE as u64, name: "module2"@ })
    } else {
        None
    }
}

/// A process with two modules, the registers of one thread, and the symbols
/// that have been added.
pub struct TestFixture {
    /// The registers that a walk starts from.
    pub raw: Arm64Context,
    /// The modules of the process.
    pub modules: minidump::MinidumpModuleList,
    /// The symbols that are loaded, by module name.
    pub symbols: SymbolTable,
}

impl TestFixture {
    /// A fixture with all registers zero, the modules `module1` and
    /// `module2`, and no symbols.
    pub fn new() -> (r: TestFixture)
        ensures
            r.raw@ == zero_registers(),
            r.symbols@ == Seq::<SymbolEntryView>::empty(),
            forall|address: u64| #[trigger]
                module_at(mapped_modules(r.modules), address) == fixture_module_at(address),
    {
        let mut list: Vec<ModuleInfo> = Vec::new();
        list.push(ModuleInfo::new(MODULE1_BASE, MODULE_SIZE, "module1"));
        list.push(ModuleInfo::new(MODULE2_BASE, MODULE_SIZE, "module2"));
        let ghost views = module_views(list@);
        assert(modules_in_address_space(views));
        assert(modules_disjoint(views));
        let modules = module_list_from(&list);
        proof {
            assert forall|address: u64| #[trigger]
                module_at(mapped_modules(modules), address) == fixture_module_at(
                    address,
                ) by {
                if mapped_modules(modules).contains_key(address) {
                    let i = choose|i: int|
                        0 <= i < list@.len() && mapped_modules(modules)[address] == (
                        #[trigger] list@[i])@ && module_covers(list@[i]@, address);
                    assert(i == 0 || i == 1);
                } else {
                    assert(!module_covers(list@[0]@, address));
                    assert(!module_covers(list@[1]@, address));
                }
            }
        }
        TestFixture { raw: Arm64Context::new(), modules, symbols: SymbolTable::new() }
    }

    /// Walks the stack of the fixture's thread, with `stack` as its stack
    /// memory.
    pub fn walk_stack(&self, stack: StackMemory) -> (r: CallStack)
        ensures
            r@ == walk_frames(self.raw@, walk_view(Some(&stack), &self.modules, &self.symbols)),
            1 <= r.frames@.len() <= MAX_FRAMES,
            r.frames@[0].trust == FrameTrust::Context,
            r.frames@[0].context.valid is All,
            r.frames@[0].context.raw@ == self.raw@,
            stack_rises(r@),
    {
        walk_stack(&self.raw, Some(&stack), &self.modules, &self.symbols)
    }

    /// Loads the symbol file `symbols` for the module called `name`, in place
    /// of any symbols loaded for it before.
    pub fn add_symbols(&mut self, name: String, symbols: String)
        ensures
            final(self).symbols@ == old(self).symbols@.push(
                SymbolEntryView {
                    name: name@,
                    file: parse_symbols(encode_utf8(symbols@)),
                },
            ),
            final(self).raw == old(self).raw,
            final(self).modules == old(self).modules,
    {
        let file = SymbolFile::parse(symbols.as_str().as_bytes());
        self.symbols.insert(name, file);
    }
}

} // verus!
