//! Which calls of an application are intercepted, and when.
use crate::text::{chars_of, same_text, starts_with};
use vstd::prelude::*;

verus! {

/// How the names of the runtime library begin.
pub const HIP_MODULE_PREFIX: &'static str = "libamdhip64.";

/// What an intercepted call of the runtime is about.
#[derive(Clone, Copy, PartialEq, Eq, Structural, Debug)]
pub enum HookRole {
    /// Memory is allocated.
    Alloc,
    /// Memory is given back.
    Free,
    /// The application asks about memory.
    Info,
}

/// One intercepted call of the runtime.
pub struct HookEntry {
    /// The symbol.
    pub symbol: String,
    /// What it is about.
    pub role: HookRole,
}

/// The intercepted calls as plain values.
pub open spec fn entries_view(entries: Seq<HookEntry>) -> Seq<(Seq<char>, HookRole)> {
    Seq::new(entries.len(), |i: int| (entries[i].symbol@, entries[i].role))
}

/// The calls of the runtime that are intercepted, in the order in which the hooks are
/// put in place. The ways to free come before the allocations that need them to undo
/// what they did.
pub open spec fn runtime_hooks() -> Seq<(Seq<char>, HookRole)> {
    seq![
        ("hipMalloc"@, HookRole::Alloc),
        ("hipExtMallocWithFlags"@, HookRole::Alloc),
        ("hipMallocManaged"@, HookRole::Alloc),
        ("hipMallocAsync"@, HookRole::Alloc),
        ("hipMallocFromPoolAsync"@, HookRole::Alloc),
        ("hipFree"@, HookRole::Free),
        ("hipFreeAsync"@, HookRole::Free),
        ("hipMemCreate"@, HookRole::Alloc),
        ("hipMemRelease"@, HookRole::Free),
        ("hipMallocPitch"@, HookRole::Alloc),
        ("hipMemAllocPitch"@, HookRole::Alloc),
        ("hipMalloc3D"@, HookRole::Alloc),
        ("hipFreeArray"@, HookRole::Free),
        ("hipArrayDestroy"@, HookRole::Free),
        ("hipMallocArray"@, HookRole::Alloc),
        ("hipMalloc3DArray"@, HookRole::Alloc),
        ("hipArrayCreate"@, HookRole::Alloc),
        ("hipArray3DCreate"@, HookRole::Alloc),
        ("hipFreeMipmappedArray"@, HookRole::Free),
        ("hipMipmappedArrayDestroy"@, HookRole::Free),
        ("hipMallocMipmappedArray"@, HookRole::Alloc),
        ("hipMipmappedArrayCreate"@, HookRole::Alloc),
        ("hipMemGetInfo"@, HookRole::Info),
        ("hipDeviceTotalMem"@, HookRole::Info),
        ("hipGetDeviceProperties"@, HookRole::Info),
        ("hipGetDevicePropertiesR0600"@, HookRole::Info),
        ("hipGetDevicePropertiesR0000"@, HookRole::Info),
    ]
}

/// Adds an intercepted call to a list.
fn push_hook(entries: &mut Vec<HookEntry>, symbol: &str, role: HookRole)
    ensures
        entries_view(final(entries)@) == entries_view(old(entries)@).push((symbol@, role)),
{
    let ghost before = entries_view(entries@);
    entries.push(HookEntry { symbol: symbol.to_string(), role });
    assert(entries_view(entries@) =~= before.push((symbol@, role)));
}

/// The calls of the runtime that are intercepted, in the order in which the hooks are
/// put in place.
pub fn enable_hooks() -> (entries: Vec<HookEntry>)
    ensures
        entries_view(entries@) == runtime_hooks(),
        entries@.len() == 27,
        forall|i: int|
            0 <= i < 27 ==> (#[trigger] entries@[i]).symbol@ == runtime_hooks()[i].0
                && entries@[i].role == runtime_hooks()[i].1,
{
    let mut entries: Vec<HookEntry> = Vec::new();
    push_hook(&mut entries, "hipMalloc", HookRole::Alloc);
    push_hook(&mut entries, "hipExtMallocWithFlags", HookRole::Alloc);
    push_hook(&mut entries, "hipMallocManaged", HookRole::Alloc);
    push_hook(&mut entries, "hipMallocAsync", HookRole::Alloc);
    push_hook(&mut entries, "hipMallocFromPoolAsync", HookRole::Alloc);
    push_hook(&mut entries, "hipFree", HookRole::Free);
    push_hook(&mut entries, "hipFreeAsync", HookRole::Free);
    push_hook(&mut entries, "hipMemCreate", HookRole::Alloc);
    push_hook(&mut entries, "hipMemRelease", HookRole::Free);
    push_hook(&mut entries, "hipMallocPitch", HookRole::Alloc);
    push_hook(&mut entries, "hipMemAllocPitch", HookRole::Alloc);
    push_hook(&mut entries, "hipMalloc3D", HookRole::Alloc);
    push_hook(&mut entries, "hipFreeArray", HookRole::Free);
    push_hook(&mut entries, "hipArrayDestroy", HookRole::Free);
    push_hook(&mut entries, "hipMallocArray", HookRole::Alloc);
    push_hook(&mut entries, "hipMalloc3DArray", HookRole::Alloc);
    push_hook(&mut entries, "hipArrayCreate", HookRole::Alloc);
    push_hook(&mut entries, "hipArray3DCreate", HookRole::Alloc);
    push_hook(&mut entries, "hipFreeMipmappedArray", HookRole::Free);
    push_hook(&mut entries, "hipMipmappedArrayDestroy", HookRole::Free);
    push_hook(&mut entries, "hipMallocMipmappedArray", HookRole::Alloc);
    push_hook(&mut entries, "hipMipmappedArrayCreate", HookRole::Alloc);
    push_hook(&mut entries, "hipMemGetInfo", HookRole::Info);
    push_hook(&mut entries, "hipDeviceTotalMem", HookRole::Info);
    push_hook(&mut entries, "hipGetDeviceProperties", HookRole::Info);
    push_hook(&mut entries, "hipGetDevicePropertiesR0600", HookRole::Info);
    push_hook(&mut entries, "hipGetDevicePropertiesR0000", HookRole::Info);
    assert(entries_view(entries@) =~= runtime_hooks());
    entries
}

/// The number of intercepted calls of a role among the first `n`.
pub open spec fn count_role(hooks: Seq<(Seq<char>, HookRole)>, role: HookRole, n: nat) -> nat
    decreases n,
{
    if n == 0 {
        0
    } else {
        count_role(hooks, role, (n - 1) as nat) + (if hooks[n - 1].1 == role {
            1nat
        } else {
            0
        })
    }
}

/// Twenty-seven calls are intercepted: fifteen that allocate, seven that free, and five
/// that ask. The way to free comes before the pitched allocations.
pub proof fn law_hook_coverage()
    ensures
        runtime_hooks().len() == 27,
        count_role(runtime_hooks(), HookRole::Alloc, 27) == 15,
        count_role(runtime_hooks(), HookRole::Free, 27) == 7,
        count_role(runtime_hooks(), HookRole::Info, 27) == 5,
        runtime_hooks()[5] == ("hipFree"@, HookRole::Free),
        runtime_hooks()[9] == ("hipMallocPitch"@, HookRole::Alloc),
        runtime_hooks()[10] == ("hipMemAllocPitch"@, HookRole::Alloc),
        runtime_hooks()[11] == ("hipMalloc3D"@, HookRole::Alloc),
{
    reveal_with_fuel(count_role, 28);
}

/// An intercepted call of the management libraries.
#[derive(Clone, Copy, PartialEq, Eq, Structural, Debug)]
pub enum SmiHook {
    /// `rsmi_dev_memory_total_get`.
    RsmiMemoryTotal,
    /// `amdsmi_get_gpu_memory_total`.
    AmdsmiMemoryTotal,
    /// `amdsmi_get_gpu_vram_info`.
    AmdsmiVramInfo,
}

/// The intercepted call that a symbol names.
pub open spec fn smi_hook(symbol: Seq<char>) -> Option<SmiHook> {
    if symbol == "rsmi_dev_memory_total_get"@ {
        Some(SmiHook::RsmiMemoryTotal)
    } else if symbol == "amdsmi_get_gpu_memory_total"@ {
        Some(SmiHook::AmdsmiMemoryTotal)
    } else if symbol == "amdsmi_get_gpu_vram_info"@ {
        Some(SmiHook::AmdsmiVramInfo)
    } else {
        None
    }
}

/// The intercepted call of the management libraries that a symbol names, if any.
pub fn try_intercept_smi_symbol(symbol_name: &str) -> (r: Option<SmiHook>)
    ensures
        r == smi_hook(symbol_name@),
{
    if same_text(symbol_name, "rsmi_dev_memory_total_get") {
        Some(SmiHook::RsmiMemoryTotal)
    } else if same_text(symbol_name, "amdsmi_get_gpu_memory_total") {
        Some(SmiHook::AmdsmiMemoryTotal)
    } else if same_text(symbol_name, "amdsmi_get_gpu_vram_info") {
        Some(SmiHook::AmdsmiVramInfo)
    } else {
        None
    }
}

/// Whether the library of an intercepted call is asked for the PCI addresses of its
/// handles: those calls name devices by handle.
pub fn needs_bdf_function(hook: SmiHook) -> (b: bool)
    ensures
        b == (hook != SmiHook::RsmiMemoryTotal),
{
    match hook {
        SmiHook::RsmiMemoryTotal => false,
        SmiHook::AmdsmiMemoryTotal => true,
        SmiHook::AmdsmiVramInfo => true,
    }
}

/// How far the interception has come.
#[derive(Clone, Copy, PartialEq, Eq, Structural, Debug)]
pub struct HookState {
    /// The library was loaded.
    pub ctor_complete: bool,
    /// Setting up was tried.
    pub init_attempted: bool,
    /// The hooks are in place, or are not wanted.
    pub hooks_initialized: bool,
}

/// Whether calls are to be intercepted at all, by a text from the environment: only
/// `false` says no.
pub fn hooks_enabled(value: Option<&str>) -> (b: bool)
    ensures
        b == (match value {
            Some(s) => s@ != "false"@,
            None => true,
        }),
{
    match value {
        Some(s) => !same_text(s, "false"),
        None => true,
    }
}

/// Whether hooks are left out where no device is limited, by a text from the environment.
pub fn should_skip_hooks_on_no_limit(value: Option<&str>) -> (b: bool)
    ensures
        b == (match value {
            Some(s) => s@ == "true"@ || s@ == "1"@,
            None => false,
        }),
{
    match value {
        Some(s) => same_text(s, "true") || same_text(s, "1"),
        None => false,
    }
}

/// The state after the library was loaded, and whether the hook on symbol lookups is put
/// in place. Where calls are not to be intercepted everything counts as done, so that
/// nothing happens later either.
pub fn entry_point(enabled: bool) -> (r: (HookState, bool))
    ensures
        r.1 == enabled,
        r.0 == (HookState {
            ctor_complete: true,
            init_attempted: !enabled,
            hooks_initialized: !enabled,
        }),
{
    (
        HookState { ctor_complete: true, init_attempted: !enabled, hooks_initialized: !enabled },
        enabled,
    )
}

/// The kind of a symbol that is looked up.
pub open spec fn is_hip_symbol(symbol: Seq<char>) -> bool {
    "hip"@.is_prefix_of(symbol)
}

/// The symbol belongs to a management library.
pub open spec fn is_smi_symbol(symbol: Seq<char>) -> bool {
    "rsmi_"@.is_prefix_of(symbol) || "amdsmi_"@.is_prefix_of(symbol)
}

/// What is to be done when a symbol is looked up, besides looking it up.
pub struct DlsymPlan {
    /// Set up first.
    pub run_init: bool,
    /// Try to put the hooks on the runtime in place first.
    pub try_install: bool,
    /// Hand out the address of this intercepted call in place of what was found, where
    /// something was found.
    pub intercept: Option<SmiHook>,
}

/// Decides what is to be done when a symbol is looked up. A symbol that cannot be read,
/// one of another library, and one that is looked up while another is being dealt with
/// are passed through.
pub fn dlsym_plan(symbol: Option<&str>, in_detour: bool, state: HookState) -> (plan: DlsymPlan)
    ensures
        ({
            let concerned = symbol is Some && !in_detour && (is_hip_symbol(symbol->0@)
                || is_smi_symbol(symbol->0@));
            &&& plan.run_init == (concerned && state.ctor_complete && !state.init_attempted)
            &&& plan.try_install == (concerned && is_hip_symbol(symbol->0@)
                && !state.hooks_initialized)
            &&& plan.intercept == (if concerned && is_smi_symbol(symbol->0@) {
                smi_hook(symbol->0@)
            } else {
                None
            })
        }),
{
    let nothing = DlsymPlan { run_init: false, try_install: false, intercept: None };
    match symbol {
        None => nothing,
        Some(text) => {
            if in_detour {
                return nothing;
            }
            let v = chars_of(text);
            let hip = chars_of("hip");
            let rsmi = chars_of("rsmi_");
            let amdsmi = chars_of("amdsmi_");
            let is_hip = starts_with(v.as_slice(), hip.as_slice());
            let is_smi = starts_with(v.as_slice(), rsmi.as_slice()) || starts_with(
                v.as_slice(),
                amdsmi.as_slice(),
            );
            if !is_hip && !is_smi {
                return nothing;
            }
            DlsymPlan {
                run_init: state.ctor_complete && !state.init_attempted,
                try_install: is_hip && !state.hooks_initialized,
                intercept: if is_smi {
                    try_intercept_smi_symbol(text)
                } else {
                    None
                },
            }
        },
    }
}

/// Whether the hooks on the runtime are put in place now: not where they are already, and
/// not before the runtime is loaded.
pub fn should_install(hooks_initialized: bool, module_loaded: bool) -> (b: bool)
    ensures
        b == (!hooks_initialized && module_loaded),
{
    !hooks_initialized && module_loaded
}

/// Which calls of the runtime are intercepted, and as what: every call that takes memory of
/// a device, every call that gives it back, and every call that tells how much there is.
/// Calls for memory of the host are not among them.
#[verifier::rlimit(40)]
pub proof fn law_intercepted_calls(symbol: Seq<char>)
    ensures
        runtime_hooks().contains((symbol, HookRole::Alloc)) <==> {
            ||| symbol == "hipMalloc"@
            ||| symbol == "hipExtMallocWithFlags"@
            ||| symbol == "hipMallocManaged"@
            ||| symbol == "hipMallocAsync"@
            ||| symbol == "hipMallocFromPoolAsync"@
            ||| symbol == "hipMemCreate"@
            ||| symbol == "hipMallocPitch"@
            ||| symbol == "hipMemAllocPitch"@
            ||| symbol == "hipMalloc3D"@
            ||| symbol == "hipMallocArray"@
            ||| symbol == "hipMalloc3DArray"@
            ||| symbol == "hipArrayCreate"@
            ||| symbol == "hipArray3DCreate"@
            ||| symbol == "hipMallocMipmappedArray"@
            ||| symbol == "hipMipmappedArrayCreate"@
        },
        runtime_hooks().contains((symbol, HookRole::Free)) <==> {
            ||| symbol == "hipFree"@
            ||| symbol == "hipFreeAsync"@
            ||| symbol == "hipMemRelease"@
            ||| symbol == "hipFreeArray"@
            ||| symbol == "hipArrayDestroy"@
            ||| symbol == "hipFreeMipmappedArray"@
            ||| symbol == "hipMipmappedArrayDestroy"@
        },
        runtime_hooks().contains((symbol, HookRole::Info)) <==> {
            ||| symbol == "hipMemGetInfo"@
            ||| symbol == "hipDeviceTotalMem"@
            ||| symbol == "hipGetDeviceProperties"@
            ||| symbol == "hipGetDevicePropertiesR0600"@
            ||| symbol == "hipGetDevicePropertiesR0000"@
        },
{
    let hooks = runtime_hooks();
    assert(hooks[0] == ("hipMalloc"@, HookRole::Alloc));
    assert(hooks[1] == ("hipExtMallocWithFlags"@, HookRole::Alloc));
    assert(hooks[2] == ("hipMallocManaged"@, HookRole::Alloc));
    assert(hooks[3] == ("hipMallocAsync"@, HookRole::Alloc));
    assert(hooks[4] == ("hipMallocFromPoolAsync"@, HookRole::Alloc));
    assert(hooks[5] == ("hipFree"@, HookRole::Free));
    assert(hooks[6] == ("hipFreeAsync"@, HookRole::Free));
    assert(hooks[7] == ("hipMemCreate"@, HookRole::Alloc));
    assert(hooks[8] == ("hipMemRelease"@, HookRole::Free));
    assert(hooks[9] == ("hipMallocPitch"@, HookRole::Alloc));
    assert(hooks[10] == ("hipMemAllocPitch"@, HookRole::Alloc));
    assert(hooks[11] == ("hipMalloc3D"@, HookRole::Alloc));
    assert(hooks[12] == ("hipFreeArray"@, HookRole::Free));
    assert(hooks[13] == ("hipArrayDestroy"@, HookRole::Free));
    assert(hooks[14] == ("hipMallocArray"@, HookRole::Alloc));
    assert(hooks[15] == ("hipMalloc3DArray"@, HookRole::Alloc));
    assert(hooks[16] == ("hipArrayCreate"@, HookRole::Alloc));
    assert(hooks[17] == ("hipArray3DCreate"@, HookRole::Alloc));
    assert(hooks[18] == ("hipFreeMipmappedArray"@, HookRole::Free));
    assert(hooks[19] == ("hipMipmappedArrayDestroy"@, HookRole::Free));
    assert(hooks[20] == ("hipMallocMipmappedArray"@, HookRole::Alloc));
    assert(hooks[21] == ("hipMipmappedArrayCreate"@, HookRole::Alloc));
    assert(hooks[22] == ("hipMemGetInfo"@, HookRole::Info));
    assert(hooks[23] == ("hipDeviceTotalMem"@, HookRole::Info));
    assert(hooks[24] == ("hipGetDeviceProperties"@, HookRole::Info));
    assert(hooks[25] == ("hipGetDevicePropertiesR0600"@, HookRole::Info));
    assert(hooks[26] == ("hipGetDevicePropertiesR0000"@, HookRole::Info));
    if hooks.contains((symbol, HookRole::Alloc)) {
        let i = choose|i: int| 0 <= i < hooks.len() && hooks[i] == (symbol, HookRole::Alloc);
        assert(0 <= i < 27);
    }
    if hooks.contains((symbol, HookRole::Free)) {
        let i = choose|i: int| 0 <= i < hooks.len() && hooks[i] == (symbol, HookRole::Free);
        assert(0 <= i < 27);
    }
    if hooks.contains((symbol, HookRole::Info)) {
        let i = choose|i: int| 0 <= i < hooks.len() && hooks[i] == (symbol, HookRole::Info);
        assert(0 <= i < 27);
    }
}

/// Looking an intercepted call up is noticed: the names of the runtime's calls begin with
/// `hip`, and those of the management libraries with `rsmi_` or `amdsmi_`.
#[verifier::rlimit(40)]
pub proof fn law_lookups_are_noticed(symbol: Seq<char>)
    ensures
        is_hip_symbol(symbol) <==> symbol.len() >= 3 && symbol[0] == 'h' && symbol[1] == 'i'
            && symbol[2] == 'p',
        is_smi_symbol(symbol) <==> (symbol.len() >= 5 && symbol.take(5) == "rsmi_"@) || (
        symbol.len() >= 7 && symbol.take(7) == "amdsmi_"@),
        smi_hook(symbol) is Some ==> is_smi_symbol(symbol),
        forall|role: HookRole| #[trigger]
            runtime_hooks().contains((symbol, role)) ==> is_hip_symbol(symbol),
{
    reveal_strlit("hip");
    reveal_strlit("rsmi_");
    reveal_strlit("amdsmi_");
    reveal_strlit("rsmi_dev_memory_total_get");
    reveal_strlit("amdsmi_get_gpu_memory_total");
    reveal_strlit("amdsmi_get_gpu_vram_info");
    reveal_strlit("hipMalloc");
    reveal_strlit("hipExtMallocWithFlags");
    reveal_strlit("hipMallocManaged");
    reveal_strlit("hipMallocAsync");
    reveal_strlit("hipMallocFromPoolAsync");
    reveal_strlit("hipFree");
    reveal_strlit("hipFreeAsync");
    reveal_strlit("hipMemCreate");
    reveal_strlit("hipMemRelease");
    reveal_strlit("hipMallocPitch");
    reveal_strlit("hipMemAllocPitch");
    reveal_strlit("hipMalloc3D");
    reveal_strlit("hipFreeArray");
    reveal_strlit("hipArrayDestroy");
    reveal_strlit("hipMallocArray");
    reveal_strlit("hipMalloc3DArray");
    reveal_strlit("hipArrayCreate");
    reveal_strlit("hipArray3DCreate");
    reveal_strlit("hipFreeMipmappedArray");
    reveal_strlit("hipMipmappedArrayDestroy");
    reveal_strlit("hipMallocMipmappedArray");
    reveal_strlit("hipMipmappedArrayCreate");
    reveal_strlit("hipMemGetInfo");
    reveal_strlit("hipDeviceTotalMem");
    reveal_strlit("hipGetDeviceProperties");
    reveal_strlit("hipGetDevicePropertiesR0600");
    reveal_strlit("hipGetDevicePropertiesR0000");
    let hip = seq!['h', 'i', 'p'];
    assert("hip"@ =~= hip);
    assert(is_hip_symbol(symbol) <==> symbol.len() >= 3 && symbol.subrange(0, 3) == "hip"@);
    if symbol.len() >= 3 && symbol[0] == 'h' && symbol[1] == 'i' && symbol[2] == 'p' {
        assert(symbol.subrange(0, 3) =~= "hip"@);
    }
    if is_hip_symbol(symbol) {
        assert(symbol.subrange(0, 3)[0] == symbol[0]);
        assert(symbol.subrange(0, 3)[1] == symbol[1]);
        assert(symbol.subrange(0, 3)[2] == symbol[2]);
    }
    assert(symbol.len() >= 5 ==> symbol.take(5) =~= symbol.subrange(0, 5));
    assert(symbol.len() >= 7 ==> symbol.take(7) =~= symbol.subrange(0, 7));
    if smi_hook(symbol) is Some {
        assert(symbol.len() >= 7);
        assert(symbol.subrange(0, 5) =~= "rsmi_"@ || symbol.subrange(0, 7) =~= "amdsmi_"@);
    }
    law_intercepted_calls(symbol);
}

/// The calls of the management libraries that are intercepted, and what each stands for.
pub proof fn law_intercepted_management_calls(symbol: Seq<char>)
    ensures
        smi_hook(symbol) == Some(SmiHook::RsmiMemoryTotal) <==> symbol
            == "rsmi_dev_memory_total_get"@,
        smi_hook(symbol) == Some(SmiHook::AmdsmiMemoryTotal) <==> symbol
            == "amdsmi_get_gpu_memory_total"@,
        smi_hook(symbol) == Some(SmiHook::AmdsmiVramInfo) <==> symbol
            == "amdsmi_get_gpu_vram_info"@,
{
    reveal_strlit("rsmi_dev_memory_total_get");
    reveal_strlit("amdsmi_get_gpu_memory_total");
    reveal_strlit("amdsmi_get_gpu_vram_info");
    assert("rsmi_dev_memory_total_get"@.len() == 25);
    assert("amdsmi_get_gpu_memory_total"@.len() == 27);
    assert("amdsmi_get_gpu_vram_info"@.len() == 24);
}

/// The runtime is recognised by the front of its file name, whichever of its names it was
/// loaded under.
pub proof fn law_runtime_is_recognised()
    ensures
        HIP_MODULE_PREFIX@ == "libamdhip64."@,
        HIP_MODULE_PREFIX@.is_prefix_of("libamdhip64.so"@),
        HIP_MODULE_PREFIX@.is_prefix_of("libamdhip64.so.6"@),
{
    reveal_strlit("libamdhip64.");
    reveal_strlit("libamdhip64.so");
    reveal_strlit("libamdhip64.so.6");
    assert("libamdhip64."@ =~= "libamdhip64.so"@.subrange(0, 12));
    assert("libamdhip64."@ =~= "libamdhip64.so.6"@.subrange(0, 12));
}

} // verus!
