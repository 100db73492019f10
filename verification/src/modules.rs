//! The modules that were loaded in the process, and the addresses they occupy.
//!
//! The list itself is `minidump::MinidumpModuleList`. What the unwinder needs
//! of it is which module, if any, is mapped at an address.

use minidump::Module;
use vstd::prelude::*;

verus! {

/// `minidump::MinidumpModuleList`, carried as an opaque value: verified code
/// reads it only through `module_at_address`.
#[verifier::external_type_specification]
#[verifier::external_body]
pub struct ExMinidumpModuleList(minidump::MinidumpModuleList);

/// What is known of a module: where it was loaded, and its name.
pub struct ModuleView {
    pub base: u64,
    pub size: u64,
    pub name: Seq<char>,
}

/// A module of the process.
#[derive(Debug)]
pub struct ModuleInfo {
    /// Address at which the module was loaded.
    pub base: u64,
    /// Number of bytes that it occupies from there.
    pub size: u64,
    /// File name of the module; its symbols are found under this name.
    pub name: String,
}

impl View for ModuleInfo {
    type V = ModuleView;

    open spec fn view(&self) -> ModuleView {
        ModuleView { base: self.base, size: self.size, name: self.name@ }
    }
}

impl ModuleInfo {
    /// A module named `name` that occupies `size` bytes from `base`.
    pub fn new(base: u64, size: u32, name: &str) -> (r: ModuleInfo)
        ensures
            r@ == (ModuleView { base, size: size as u64, name: name@ }),
    {
        ModuleInfo { base, size: size as u64, name: name.to_owned() }
    }

    /// A copy of this module's description.
    pub fn duplicate(&self) -> (r: ModuleInfo)
        ensures
            r@ == self@,
    {
        ModuleInfo { base: self.base, size: self.size, name: self.name.clone() }
    }

    /// The file name of the module.
    pub fn code_file(&self) -> (r: &str)
        ensures
            r@ == self@.name,
    {
        self.name.as_str()
    }
}

/// Whether `address` lies in the `size` bytes from `base` on.
pub open spec fn module_covers(m: ModuleView, address: u64) -> bool {
    m.base <= address && address - m.base < m.size
}

/// Whether no address lies in two of the modules.
pub open spec fn modules_disjoint(modules: Seq<ModuleView>) -> bool {
    forall|i: int, j: int, address: u64|
        0 <= i < j < modules.len() && #[trigger] module_covers(modules[i], address)
            ==> !#[trigger] module_covers(modules[j], address)
}

/// Whether each module ends at or below the last address.
pub open spec fn modules_in_address_space(modules: Seq<ModuleView>) -> bool {
    forall|i: int| 0 <= i < modules.len() ==> (#[trigger] modules[i]).base + modules[i].size
        <= u64::MAX
}

/// The views of a list of modules.
pub open spec fn module_views(modules: Seq<ModuleInfo>) -> Seq<ModuleView> {
    Seq::new(modules.len(), |i: int| modules[i]@)
}

/// The address map of a module list: the module that
/// `minidump::MinidumpModuleList::module_at_address` finds at each address at
/// which it finds one.
pub uninterp spec fn mapped_modules(list: minidump::MinidumpModuleList) -> Map<u64, ModuleView>;

/// The module mapped at `address`, by
/// `minidump::MinidumpModuleList::module_at_address`.
///
/// Trusted: the result is what the list maps the address to, described by
/// `base_address`, `size` and `code_file` of the module found, and a module
/// that is found covers the address.
#[verifier::external_body]
pub(crate) fn module_at_address(list: &minidump::MinidumpModuleList, address: u64) -> (r: Option<
    ModuleInfo,
>)
    ensures
        match r {
            Some(m) => mapped_modules(*list).contains_key(address) && mapped_modules(
                *list,
            )[address] == m@ && module_covers(m@, address),
            None => !mapped_modules(*list).contains_key(address),
        },
{
    match list.module_at_address(address) {
        Some(m) => Some(
            ModuleInfo {
                base: m.base_address(),
                size: m.size(),
                name: m.code_file().into_owned(),
            },
        ),
        None => None,
    }
}

/// Builds the list of the given modules with
/// `minidump::MinidumpModuleList::from_modules`, each module made by
/// `minidump::MinidumpModule::new`.
///
/// Trusted: every address that the list maps is mapped to one of the given
/// modules, and to one that covers it. Where the modules share no address and
/// none reaches past the last address, every address that a module covers is
/// mapped. (Of modules that overlap the list keeps some and drops others.)
#[verifier::external_body]
pub(crate) fn module_list_from(modules: &Vec<ModuleInfo>) -> (r: minidump::MinidumpModuleList)
    requires
        forall|i: int| 0 <= i < modules@.len() ==> (#[trigger] modules@[i]).size <= u32::MAX,
    ensures
        forall|address: u64| #[trigger]
            mapped_modules(r).contains_key(address) ==> exists|i: int|
                0 <= i < modules@.len() && mapped_modules(r)[address] == (#[trigger] modules@[i])@
                    && module_covers(modules@[i]@, address),
        modules_disjoint(module_views(modules@)) && modules_in_address_space(
            module_views(modules@),
        ) ==> forall|i: int, address: u64|
            0 <= i < modules@.len() && #[trigger] module_covers(modules@[i]@, address)
                ==> mapped_modules(r).contains_key(address),
{
    let mut built: Vec<minidump::MinidumpModule> = Vec::new();
    for m in modules.iter() {
        built.push(minidump::MinidumpModule::new(m.base, m.size as u32, m.name.as_str()));
    }
    minidump::MinidumpModuleList::from_modules(built)
}

} // verus!
