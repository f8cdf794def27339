//! Binding a game's imports to host trampolines, routing an import call to
//! its handler, and what one guest step does at a given program counter.
use vstd::prelude::*;
use std::collections::{HashMap, VecDeque};
use crate::sys::eapp::async_io::{GuestWrite, ImportReply};
use crate::sys::eapp::bus::store_le;
use crate::sys::eapp::capture::{TRAMPOLINE_BASE, WORK_RAM_BASE};
use crate::sys::eapp::image::{
    invalid_image, outside_vma_msg, vma_to_offset, EappBuildError, EappImportModule, FILE_VMA_BASE,
};
use crate::parse::{chars_of, lower, lower_string_of};
use crate::text::{hex_prefixed, push_hex_prefixed, str_eq};

verus! {

broadcast use vstd::std_specs::hash::group_hash_axioms;

/// Distance between consecutive import trampolines.
pub const TRAMPOLINE_STRIDE: u32 = 0x20;
/// Return address planted for the game's entry and frame calls.
pub const BOOTSTRAP_RETURN_PC: u32 = 0x1eff_fffc;
/// Return address planted for host-queued guest callbacks.
pub const GUEST_CALLBACK_RETURN_PC: u32 = 0x1eff_fff8;

/// One bound import: its module's name and its ordinal there.
pub struct BoundImport {
    pub module: String,
    pub ordinal: u32,
}

/// A game image with every import literal pointing at a host trampoline.
pub struct ImportBinding {
    /// The image with its literals patched.
    pub image: Vec<u8>,
    /// The imports, in trampoline order.
    pub imports: Vec<BoundImport>,
    /// Trampoline address to import index.
    pub trampolines: HashMap<u32, usize>,
}

/// The trampoline of the `i`-th import (addresses wrap).
pub open spec fn trampoline_of(i: int) -> u32 {
    ((TRAMPOLINE_BASE + TRAMPOLINE_STRIDE * i) % 0x1_0000_0000) as u32
}

/// Every import slot in order: module name, ordinal, and the address of
/// its literal.
pub open spec fn import_slots(mods: Seq<EappImportModule>) -> Seq<(Seq<char>, u32, int)>
    decreases mods.len(),
{
    if mods.len() == 0 {
        Seq::empty()
    } else {
        let m = mods.last();
        import_slots(mods.drop_last()) + Seq::new(
            m.count as nat,
            |o: int| (m.name@, o as u32, m.literals_addr + 4 * o),
        )
    }
}

/// The first slot from `i` on whose literal lies below the file VMA (the
/// slot count if none does).
pub open spec fn first_outside(slots: Seq<(Seq<char>, u32, int)>, i: int) -> int
    decreases slots.len() - i,
{
    if i >= slots.len() || i < 0 {
        slots.len() as int
    } else if slots[i].2 < FILE_VMA_BASE {
        i
    } else {
        first_outside(slots, i + 1)
    }
}

/// `image` after the literals of the first `k` slots are made to point at
/// their trampolines.
pub open spec fn patched(image: Seq<u8>, slots: Seq<(Seq<char>, u32, int)>, k: int) -> Seq<u8>
    decreases k,
{
    if k <= 0 {
        image
    } else {
        store_le(patched(image, slots, k - 1), slots[k - 1].2 - FILE_VMA_BASE, trampoline_of(k - 1) as int, 4)
    }
}

/// The trampoline table of the first `k` imports; a later import takes an
/// address an earlier one wrapped onto.
pub open spec fn trampoline_map(k: int) -> Map<u32, usize>
    decreases k,
{
    if k <= 0 {
        Map::empty()
    } else {
        trampoline_map(k - 1).insert(trampoline_of(k - 1), (k - 1) as usize)
    }
}

/// Binding stops neither on an overflowing literal address nor on a
/// literal past the image's end, up to the first literal outside the VMA.
pub open spec fn binds_without_panic(image_len: int, slots: Seq<(Seq<char>, u32, int)>) -> bool {
    let e = first_outside(slots, 0);
    &&& forall|j: int| 0 <= j < slots.len() && j <= e ==> #[trigger] slots[j].2 <= u32::MAX
    &&& forall|j: int| 0 <= j < e ==> #[trigger] slots[j].2 - FILE_VMA_BASE + 4 <= image_len
}

proof fn lemma_first_outside(slots: Seq<(Seq<char>, u32, int)>, i: int)
    requires
        0 <= i <= slots.len(),
    ensures
        i <= first_outside(slots, i) <= slots.len(),
        forall|j: int| i <= j < first_outside(slots, i) ==> slots[j].2 >= FILE_VMA_BASE,
        first_outside(slots, i) < slots.len() ==> slots[first_outside(slots, i)].2 < FILE_VMA_BASE,
    decreases slots.len() - i,
{
    if i < slots.len() && slots[i].2 >= FILE_VMA_BASE {
        lemma_first_outside(slots, i + 1);
    }
}

proof fn lemma_first_outside_from(slots: Seq<(Seq<char>, u32, int)>, i: int)
    requires
        0 <= i <= slots.len(),
        forall|j: int| 0 <= j < i ==> slots[j].2 >= FILE_VMA_BASE,
    ensures
        first_outside(slots, 0) == first_outside(slots, i),
    decreases i,
{
    if i > 0 {
        lemma_first_outside_from(slots, i - 1);
    }
}

/// The slots of the first `k` modules begin the slots of the first `n`.
proof fn lemma_slots_prefix(mods: Seq<EappImportModule>, k: int, n: int)
    requires
        0 <= k <= n <= mods.len(),
    ensures
        import_slots(mods.take(k)).len() <= import_slots(mods.take(n)).len(),
        forall|j: int| 0 <= j < import_slots(mods.take(k)).len()
            ==> import_slots(mods.take(n))[j] == #[trigger] import_slots(mods.take(k))[j],
    decreases n - k,
{
    if k < n {
        lemma_slots_prefix(mods, k, n - 1);
        assert(mods.take(n).drop_last() =~= mods.take(n - 1));
    }
}

/// Where the `o`-th ordinal of module `mi` stands among all slots.
proof fn lemma_slot_at(mods: Seq<EappImportModule>, mi: int, o: int)
    requires
        0 <= mi < mods.len(),
        0 <= o < mods[mi].count,
    ensures
        import_slots(mods.take(mi)).len() + o < import_slots(mods).len(),
        import_slots(mods)[import_slots(mods.take(mi)).len() + o]
            == (mods[mi].name@, o as u32, mods[mi].literals_addr + 4 * o),
{
    lemma_slots_prefix(mods, mi + 1, mods.len() as int);
    assert(mods.take(mi + 1).drop_last() =~= mods.take(mi));
    assert(mods.take(mods.len() as int) =~= mods);
    let p = import_slots(mods.take(mi)).len();
    assert(import_slots(mods.take(mi + 1))[p + o] == (mods[mi].name@, o as u32, mods[mi].literals_addr + 4 * o));
}

proof fn lemma_slots_len_step(mods: Seq<EappImportModule>, mi: int)
    requires
        0 <= mi < mods.len(),
    ensures
        import_slots(mods.take(mi + 1)).len() == import_slots(mods.take(mi)).len() + mods[mi].count,
{
    assert(mods.take(mi + 1).drop_last() =~= mods.take(mi));
}

proof fn lemma_trampoline_step(i: int)
    requires
        0 <= i,
    ensures
        trampoline_of(i + 1) == (if trampoline_of(i) + TRAMPOLINE_STRIDE > u32::MAX {
            trampoline_of(i) + TRAMPOLINE_STRIDE - 0x1_0000_0000
        } else {
            trampoline_of(i) + TRAMPOLINE_STRIDE
        }),
{
    let x = TRAMPOLINE_BASE + TRAMPOLINE_STRIDE * i;
    let m: int = 0x1_0000_0000;
    vstd::arithmetic::div_mod::lemma_add_mod_noop(x, TRAMPOLINE_STRIDE as int, m);
    assert(TRAMPOLINE_BASE + TRAMPOLINE_STRIDE * (i + 1) == x + TRAMPOLINE_STRIDE);
    let t = x % m;
    assert(0 <= t < m);
    if t + TRAMPOLINE_STRIDE >= m {
        assert((t + TRAMPOLINE_STRIDE) % m == t + TRAMPOLINE_STRIDE - m) by {
            vstd::arithmetic::div_mod::lemma_small_mod((t + TRAMPOLINE_STRIDE - m) as nat, m as nat);
            vstd::arithmetic::div_mod::lemma_mod_sub_multiples_vanish(t + TRAMPOLINE_STRIDE, m);
        }
    } else {
        vstd::arithmetic::div_mod::lemma_small_mod((t + TRAMPOLINE_STRIDE) as nat, m as nat);
    }
}

/// Store `val` little-endian at `off`.
fn write_le32(v: &mut Vec<u8>, off: usize, val: u32)
    requires
        off + 4 <= old(v).len(),
    ensures
        final(v)@ == store_le(old(v)@, off as int, val as int, 4),
        final(v)@.len() == old(v)@.len(),
{
    let ghost s0 = v@;
    v.set(off, (val % 256) as u8);
    v.set(off + 1, ((val / 256) % 256) as u8);
    v.set(off + 2, ((val / 0x1_0000) % 256) as u8);
    v.set(off + 3, ((val / 0x100_0000) % 256) as u8);
    proof {
        reveal_with_fuel(store_le, 5);
        let a = val as int;
        assert(a / 256 / 256 == a / 0x1_0000) by {
            vstd::arithmetic::div_mod::lemma_div_denominator(a, 256, 256);
        }
        assert(a / 0x1_0000 / 256 == a / 0x100_0000) by {
            vstd::arithmetic::div_mod::lemma_div_denominator(a, 0x1_0000, 256);
        }
        assert(v@ =~= store_le(s0, off as int, a, 4));
    }
}

/// Bind every import of `modules` to a trampoline, in order: the `i`-th
/// gets `trampoline_of(i)`, its literal in the image is patched to point
/// there, and the table maps the trampoline back to it. A literal below
/// the file VMA is an invalid image.
pub fn bind_imports(image: Vec<u8>, modules: &Vec<EappImportModule>) -> (r: Result<ImportBinding, EappBuildError>)
    requires
        binds_without_panic(image@.len() as int, import_slots(modules@)),
    ensures
        ({
            let slots = import_slots(modules@);
            let e = first_outside(slots, 0);
            &&& e < slots.len() ==> (r matches Err(err) && invalid_image(err, outside_vma_msg(slots[e].2 as u32)))
            &&& e == slots.len() ==> (r matches Ok(b) && {
                &&& b.image@ == patched(image@, slots, slots.len() as int)
                &&& b.imports@.len() == slots.len()
                &&& forall|j: int| 0 <= j < slots.len() ==> (#[trigger] b.imports@[j]).module@ == slots[j].0
                    && b.imports@[j].ordinal == slots[j].1
                &&& b.trampolines@ == trampoline_map(slots.len() as int)
            })
        }),
{
    let ghost slots = import_slots(modules@);
    let ghost img0 = image@;
    proof {
        lemma_first_outside(slots, 0);
    }
    let mut image = image;
    let mut imports: Vec<BoundImport> = Vec::new();
    let mut trampolines: HashMap<u32, usize> = HashMap::new();
    let mut trampoline: u32 = TRAMPOLINE_BASE;
    let mut idx: usize = 0;
    let mut mi: usize = 0;
    while mi < modules.len()
        invariant
            slots == import_slots(modules@),
            binds_without_panic(img0.len() as int, slots),
            first_outside(slots, 0) <= slots.len(),
            mi <= modules@.len(),
            idx == import_slots(modules@.take(mi as int)).len(),
            idx <= slots.len(),
            forall|j: int| 0 <= j < idx ==> #[trigger] slots[j].2 >= FILE_VMA_BASE,
            image@.len() == img0.len(),
            image@ == patched(img0, slots, idx as int),
            imports@.len() == idx,
            forall|j: int| 0 <= j < idx ==> (#[trigger] imports@[j]).module@ == slots[j].0
                && imports@[j].ordinal == slots[j].1,
            trampolines@ == trampoline_map(idx as int),
            trampoline == trampoline_of(idx as int),
        decreases modules@.len() - mi,
    {
        let module = &modules[mi];
        let mut ordinal: u32 = 0;
        while ordinal < module.count
            invariant
                slots == import_slots(modules@),
                binds_without_panic(img0.len() as int, slots),
                first_outside(slots, 0) <= slots.len(),
                mi < modules@.len(),
                *module == modules@[mi as int],
                ordinal <= module.count,
                idx == import_slots(modules@.take(mi as int)).len() + ordinal,
                idx <= slots.len(),
                forall|j: int| 0 <= j < idx ==> #[trigger] slots[j].2 >= FILE_VMA_BASE,
                image@.len() == img0.len(),
                image@ == patched(img0, slots, idx as int),
                imports@.len() == idx,
                forall|j: int| 0 <= j < idx ==> (#[trigger] imports@[j]).module@ == slots[j].0
                    && imports@[j].ordinal == slots[j].1,
                trampolines@ == trampoline_map(idx as int),
                trampoline == trampoline_of(idx as int),
            decreases module.count - ordinal,
        {
            proof {
                lemma_slot_at(modules@, mi as int, ordinal as int);
                lemma_first_outside_from(slots, idx as int);
                lemma_first_outside(slots, idx as int);
            }
            let literal_addr = module.literals_addr + ordinal * 4;
            let literal_offset = match vma_to_offset(literal_addr) {
                Ok(off) => off as usize,
                Err(e) => {
                    return Err(e);
                },
            };
            write_le32(&mut image, literal_offset, trampoline);
            imports.push(BoundImport { module: module.name.clone(), ordinal });
            trampolines.insert(trampoline, idx);
            proof {
                lemma_trampoline_step(idx as int);
            }
            trampoline = trampoline.wrapping_add(TRAMPOLINE_STRIDE);
            idx = imports.len();
            ordinal += 1;
        }
        proof {
            lemma_slots_len_step(modules@, mi as int);
        }
        mi += 1;
    }
    proof {
        assert(modules@.take(modules@.len() as int) =~= modules@);
        lemma_first_outside_from(slots, idx as int);
    }
    Ok(ImportBinding { image, imports, trampolines })
}

impl ImportBinding {
    /// The import whose trampoline is at `pc`, if any.
    pub fn import_at(&self, pc: u32) -> (r: Option<usize>)
        ensures
            r == if self.trampolines@.contains_key(pc) { Some(self.trampolines@[pc]) } else { None },
    {
        match self.trampolines.get(&pc) {
            Some(i) => Some(*i),
            None => None,
        }
    }
}

/// Within one wrap of the address space every import is reached through
/// its own trampoline.
pub proof fn lemma_trampolines_reach_imports(n: int, i: int)
    requires
        0 <= i < n <= 0x800_0000,
    ensures
        trampoline_map(n).contains_key(trampoline_of(i)),
        trampoline_map(n)[trampoline_of(i)] == i,
    decreases n,
{
    if n - 1 > i {
        lemma_trampolines_reach_imports(n - 1, i);
        assert(trampoline_of(n - 1) != trampoline_of(i)) by {
            let m: int = 0x1_0000_0000;
            let a = TRAMPOLINE_BASE + TRAMPOLINE_STRIDE * i;
            let b = TRAMPOLINE_BASE + TRAMPOLINE_STRIDE * (n - 1);
            assert(b - a == 0x20 * (n - 1 - i));
            assert(0 < b - a < m);
            vstd::arithmetic::div_mod::lemma_mod_equivalence(b, a, m);
            vstd::arithmetic::div_mod::lemma_small_mod((b - a) as nat, m as nat);
        }
    }
}

/// The handler an import module's calls go to.
#[derive(Debug, Clone, Copy, PartialEq, Eq, Structural)]
pub enum ImportModuleKind {
    OpenGles,
    InputEvents,
    Settings,
    Metadata,
    MiscTbd,
    Audio,
    AsyncFileIo,
    Filesystem,
    Unknown,
}

/// The handler for module `name` (the filesystem module's own spelling
/// is "Filesytem").
pub open spec fn module_kind_of(name: Seq<char>) -> ImportModuleKind {
    if name == "OpenGLES"@ {
        ImportModuleKind::OpenGles
    } else if name == "InputEvents"@ {
        ImportModuleKind::InputEvents
    } else if name == "Settings"@ {
        ImportModuleKind::Settings
    } else if name == "Metadata"@ {
        ImportModuleKind::Metadata
    } else if name == "miscTBD"@ {
        ImportModuleKind::MiscTbd
    } else if name == "Audio"@ {
        ImportModuleKind::Audio
    } else if name == "AsyncFileIO"@ {
        ImportModuleKind::AsyncFileIo
    } else if name == "Filesytem"@ {
        ImportModuleKind::Filesystem
    } else {
        ImportModuleKind::Unknown
    }
}

pub fn import_module_kind(name: &str) -> (k: ImportModuleKind)
    ensures
        k == module_kind_of(name@),
{
    if str_eq(name, "OpenGLES") {
        ImportModuleKind::OpenGles
    } else if str_eq(name, "InputEvents") {
        ImportModuleKind::InputEvents
    } else if str_eq(name, "Settings") {
        ImportModuleKind::Settings
    } else if str_eq(name, "Metadata") {
        ImportModuleKind::Metadata
    } else if str_eq(name, "miscTBD") {
        ImportModuleKind::MiscTbd
    } else if str_eq(name, "Audio") {
        ImportModuleKind::Audio
    } else if str_eq(name, "AsyncFileIO") {
        ImportModuleKind::AsyncFileIo
    } else if str_eq(name, "Filesytem") {
        ImportModuleKind::Filesystem
    } else {
        ImportModuleKind::Unknown
    }
}

/// What an audio import answers: the render-server setup calls (ordinal
/// 52 with a work-RAM pointer in r0, ordinal 51 with one in r3) get 1 so
/// the game's ratio of the two is defined; every other call gets 0.
pub fn audio_reply(ordinal: u32, args: [u32; 4]) -> (ret: u32)
    ensures
        ret == if (ordinal == 52 && args[0] >= 0x1000_0000) || (ordinal == 51 && args[3] >= 0x1000_0000) {
            1u32
        } else {
            0u32
        },
{
    if ordinal == 52 && args[0] >= 0x1000_0000 {
        1
    } else if ordinal == 51 && args[3] >= 0x1000_0000 {
        1
    } else {
        0
    }
}

/// What the runner does with the instruction at the program counter.
#[derive(Debug, Clone, Copy, PartialEq, Eq, Structural)]
pub enum StepKind {
    /// The game has stopped.
    Halted,
    /// An entry or frame call returned.
    BootstrapReturn,
    /// A host-queued guest callback returned.
    CallbackReturn,
    /// The game called an import, by index.
    Import(usize),
    /// Run the guest instruction.
    Execute,
}

/// The step at `pc`: a return to the bootstrap address (or to 0 before
/// bootstrap is done), a callback return, an import trampoline, or guest
/// code. `import` is the import bound at `pc`, if any.
pub open spec fn step_kind_of(halted: bool, pc: u32, bootstrap_done: bool, import: Option<usize>) -> StepKind {
    if halted {
        StepKind::Halted
    } else if pc == BOOTSTRAP_RETURN_PC || (pc == 0 && !bootstrap_done) {
        StepKind::BootstrapReturn
    } else if pc == GUEST_CALLBACK_RETURN_PC {
        StepKind::CallbackReturn
    } else {
        match import {
            Some(i) => StepKind::Import(i),
            None => StepKind::Execute,
        }
    }
}

pub fn step_kind(halted: bool, pc: u32, bootstrap_done: bool, import: Option<usize>) -> (k: StepKind)
    ensures
        k == step_kind_of(halted, pc, bootstrap_done, import),
{
    if halted {
        StepKind::Halted
    } else if pc == BOOTSTRAP_RETURN_PC || (pc == 0 && !bootstrap_done) {
        StepKind::BootstrapReturn
    } else if pc == GUEST_CALLBACK_RETURN_PC {
        StepKind::CallbackReturn
    } else {
        match import {
            Some(i) => StepKind::Import(i),
            None => StepKind::Execute,
        }
    }
}

/// A guest word write.
#[derive(Debug, Clone, Copy, PartialEq, Eq, Structural)]
pub struct WordWrite {
    pub addr: u32,
    pub value: u32,
}

/// Register and memory patches one step applies before the instruction
/// runs: new values for r0, r1 and r4, and a word write.
#[derive(Debug, Clone, Copy, PartialEq, Eq, Structural)]
pub struct StepPatch {
    pub r0: Option<u32>,
    pub r1: Option<u32>,
    pub r4: Option<u32>,
    pub write: Option<WordWrite>,
}

/// No patch.
pub open spec fn no_patch() -> StepPatch {
    StepPatch { r0: None, r1: None, r4: None, write: None }
}

/// The Vortex title's set-up patches at `pc` (its bundle id is `12345`).
/// `surface_buf`, `object` and `state_block` are the scratch pointers
/// the bootstrap stored at work RAM +0xff4, +0xff8 and +0xffc, and `slot`
/// the word at (r4 + 4) in the first GL-state range, (r3 + 4) in the
/// second:
/// - at the two block-copy helpers a below-work-RAM r0 becomes the surface
///   buffer;
/// - at the five object loads a null r4 becomes the object;
/// - in the two GL-state initializer ranges, with a non-null base register
///   and state block, a below-work-RAM slot is pointed at the state block
///   and a below-work-RAM r1 becomes it, as does r0 at the last two
///   instructions of the first range.
pub open spec fn vortex_patch(pc: u32, r0: u32, r1: u32, r3: u32, r4: u32, surface_buf: u32, object: u32,
    state_block: u32, slot: u32) -> StepPatch {
    if pc == 0x1801_4d54 || pc == 0x1801_1290 {
        if r0 < WORK_RAM_BASE && surface_buf != 0 { StepPatch { r0: Some(surface_buf), ..no_patch() } } else { no_patch() }
    } else if pc == 0x1801_8ae8 || pc == 0x1801_8aec || pc == 0x1801_3e00 || pc == 0x1801_3e04 || pc == 0x1801_3e08 {
        if r4 == 0 && object != 0 { StepPatch { r4: Some(object), ..no_patch() } } else { no_patch() }
    } else if 0x1800_ab08 <= pc <= 0x1800_ab3c {
        if r4 != 0 && state_block != 0 {
            StepPatch {
                r0: if (pc == 0x1800_ab38 || pc == 0x1800_ab3c) && r0 < WORK_RAM_BASE { Some(state_block) } else { None },
                r1: if r1 < WORK_RAM_BASE { Some(state_block) } else { None },
                r4: None,
                write: if slot < WORK_RAM_BASE {
                    Some(WordWrite { addr: ((r4 + 4) % 0x1_0000_0000) as u32, value: state_block })
                } else {
                    None
                },
            }
        } else {
            no_patch()
        }
    } else if 0x1801_3ef4 <= pc <= 0x1801_3f1c {
        if r3 != 0 && state_block != 0 {
            StepPatch {
                r0: None,
                r1: if r1 < WORK_RAM_BASE { Some(state_block) } else { None },
                r4: None,
                write: if slot < WORK_RAM_BASE {
                    Some(WordWrite { addr: ((r3 + 4) % 0x1_0000_0000) as u32, value: state_block })
                } else {
                    None
                },
            }
        } else {
            no_patch()
        }
    } else {
        no_patch()
    }
}

pub fn vortex_step_patch(pc: u32, r0: u32, r1: u32, r3: u32, r4: u32, surface_buf: u32, object: u32,
    state_block: u32, slot: u32) -> (p: StepPatch)
    ensures
        p == vortex_patch(pc, r0, r1, r3, r4, surface_buf, object, state_block, slot),
{
    let none = StepPatch { r0: None, r1: None, r4: None, write: None };
    if pc == 0x1801_4d54 || pc == 0x1801_1290 {
        if r0 < WORK_RAM_BASE && surface_buf != 0 { StepPatch { r0: Some(surface_buf), ..none } } else { none }
    } else if pc == 0x1801_8ae8 || pc == 0x1801_8aec || pc == 0x1801_3e00 || pc == 0x1801_3e04 || pc == 0x1801_3e08 {
        if r4 == 0 && object != 0 { StepPatch { r4: Some(object), ..none } } else { none }
    } else if 0x1800_ab08 <= pc && pc <= 0x1800_ab3c {
        if r4 != 0 && state_block != 0 {
            StepPatch {
                r0: if (pc == 0x1800_ab38 || pc == 0x1800_ab3c) && r0 < WORK_RAM_BASE { Some(state_block) } else { None },
                r1: if r1 < WORK_RAM_BASE { Some(state_block) } else { None },
                r4: None,
                write: if slot < WORK_RAM_BASE { Some(WordWrite { addr: r4.wrapping_add(4), value: state_block }) } else { None },
            }
        } else {
            none
        }
    } else if 0x1801_3ef4 <= pc && pc <= 0x1801_3f1c {
        if r3 != 0 && state_block != 0 {
            StepPatch {
                r0: None,
                r1: if r1 < WORK_RAM_BASE { Some(state_block) } else { None },
                r4: None,
                write: if slot < WORK_RAM_BASE { Some(WordWrite { addr: r3.wrapping_add(4), value: state_block }) } else { None },
            }
        } else {
            none
        }
    } else {
        none
    }
}

/// Where the per-frame function of the tile-composition title builds its
/// event flags.
pub const HOST_EVENT_PC: u32 = 0x1802_22a4;
/// The event-flags word that function reads.
pub const HOST_EVENT_FLAGS_ADDR: u32 = 0x1802_56d0;

/// The event-flags word after injecting host event `flags` at `pc` in
/// frame `frame` (none before frame `delay`, none without flags): the
/// flags are or-ed into the `current` word.
pub fn host_event_word(pc: u32, frame: u64, delay: u64, flags: Option<u32>, current: u32) -> (w: Option<u32>)
    ensures
        w == if pc == HOST_EVENT_PC && frame >= delay && flags is Some { Some(current | flags->0) } else { None::<u32> },
{
    match flags {
        Some(f) => if pc == HOST_EVENT_PC && frame >= delay { Some(current | f) } else { None },
        None => None,
    }
}

/// Whether a just-started streaming request (`state` byte 1, non-null
/// callback `cb`) is marked complete (state byte 2) after its start store
/// at `pc`.
pub fn async_start_complete_due(pc: u32, state: u32, cb: u32) -> (b: bool)
    ensures
        b == (pc == 0x1801_fd50 && state & 0xff == 1 && cb != 0),
{
    pc == 0x1801_fd50 && state & 0xff == 1 && cb != 0
}

/// Steps between checks for a DMA-only frame.
pub const DMA_PRESENT_INTERVAL: u64 = 10000;

/// Whether the step numbered `step_counter` presents the DMA framebuffer:
/// it was written, a live GL state exists, no GL frame is open, and the
/// step falls on the check interval.
pub fn dma_present_due(dma_dirty: bool, has_live_gl: bool, step_counter: u64, frame_active: bool) -> (due: bool)
    ensures
        due == (dma_dirty && has_live_gl && step_counter % DMA_PRESENT_INTERVAL == 0 && !frame_active),
{
    dma_dirty && has_live_gl && step_counter % DMA_PRESENT_INTERVAL == 0 && !frame_active
}

/// The OpenGLES calls the live renderer handles, by ordinal.
#[derive(Debug, Clone, Copy, PartialEq, Eq, Structural)]
pub enum GlCall {
    Upload,
    ArrayDef,
    EnableArray,
    Translate,
    BindMaterial,
    Draw,
    DrawElements,
    ResourceUpload,
    CandidateBegin,
    CandidatePresent,
    Ordinal165,
    ShaderCreate,
    ShaderBind,
    ProgramQuery,
    Viewport,
    RenderDispatch,
    Ordinal148,
    BindTexture,
    /// Recorded in the trace only; answers 0.
    Ignored,
}

pub open spec fn gl_call_of(ordinal: u32) -> GlCall {
    if ordinal == 99 { GlCall::Upload }
    else if ordinal == 137 { GlCall::ArrayDef }
    else if ordinal == 40 { GlCall::EnableArray }
    else if ordinal == 169 { GlCall::Translate }
    else if ordinal == 159 { GlCall::BindMaterial }
    else if ordinal == 37 { GlCall::Draw }
    else if ordinal == 38 { GlCall::DrawElements }
    else if ordinal == 45 { GlCall::ResourceUpload }
    else if ordinal == 158 { GlCall::CandidateBegin }
    else if ordinal == 157 { GlCall::CandidatePresent }
    else if ordinal == 165 { GlCall::Ordinal165 }
    else if ordinal == 164 { GlCall::ShaderCreate }
    else if ordinal == 167 { GlCall::ShaderBind }
    else if ordinal == 152 { GlCall::ProgramQuery }
    else if ordinal == 153 { GlCall::Viewport }
    else if ordinal == 19 { GlCall::RenderDispatch }
    else if ordinal == 148 { GlCall::Ordinal148 }
    else if ordinal == 4 { GlCall::BindTexture }
    else { GlCall::Ignored }
}

/// The handler of OpenGLES ordinal `ordinal`.
pub fn gl_call_kind(ordinal: u32) -> (k: GlCall)
    ensures
        k == gl_call_of(ordinal),
{
    match ordinal {
        99 => GlCall::Upload,
        137 => GlCall::ArrayDef,
        40 => GlCall::EnableArray,
        169 => GlCall::Translate,
        159 => GlCall::BindMaterial,
        37 => GlCall::Draw,
        38 => GlCall::DrawElements,
        45 => GlCall::ResourceUpload,
        158 => GlCall::CandidateBegin,
        157 => GlCall::CandidatePresent,
        165 => GlCall::Ordinal165,
        164 => GlCall::ShaderCreate,
        167 => GlCall::ShaderBind,
        152 => GlCall::ProgramQuery,
        153 => GlCall::Viewport,
        19 => GlCall::RenderDispatch,
        148 => GlCall::Ordinal148,
        4 => GlCall::BindTexture,
        _ => GlCall::Ignored,
    }
}

/// The program query (ordinal 152): link status `GL_TRUE` into the buffer
/// and size 4 into the size slot, each when its pointer is not null; it
/// answers program handle 1.
pub fn program_query_reply(buf_ptr: u32, size_ptr: u32) -> (r: ImportReply)
    ensures
        r.ret == 1,
        r.writes@ == (if buf_ptr != 0 { seq![GuestWrite { addr: buf_ptr, value: 1, byte: false }] } else { Seq::empty() })
            + (if size_ptr != 0 { seq![GuestWrite { addr: size_ptr, value: 4, byte: false }] } else { Seq::empty() }),
{
    let mut writes: Vec<GuestWrite> = Vec::new();
    if buf_ptr != 0 {
        writes.push(GuestWrite { addr: buf_ptr, value: 1, byte: false });
    }
    if size_ptr != 0 {
        writes.push(GuestWrite { addr: size_ptr, value: 4, byte: false });
    }
    proof {
        let a: Seq<GuestWrite> = if buf_ptr != 0 { seq![GuestWrite { addr: buf_ptr, value: 1, byte: false }] } else { Seq::empty() };
        let b: Seq<GuestWrite> = if size_ptr != 0 { seq![GuestWrite { addr: size_ptr, value: 4, byte: false }] } else { Seq::empty() };
        assert(writes@ =~= a + b);
    }
    ImportReply { ret: 1, writes }
}

/// A game's id: its title with spaces as underscores, ASCII lowered.
pub open spec fn game_id_of(title: Seq<char>) -> Seq<char> {
    lower(title.map_values(|c: char| if c == ' ' { '_' } else { c }))
}

pub fn game_id(title: &str) -> (id: String)
    ensures
        id@ == game_id_of(title@),
{
    let cs = chars_of(title);
    let mut us: Vec<char> = Vec::new();
    let mut i: usize = 0;
    while i < cs.len()
        invariant
            i <= cs@.len(),
            cs@ == title@,
            us@ == cs@.take(i as int).map_values(|c: char| if c == ' ' { '_' } else { c }),
        decreases cs@.len() - i,
    {
        let c = cs[i];
        us.push(if c == ' ' { '_' } else { c });
        i += 1;
        assert(us@ =~= cs@.take(i as int).map_values(|c: char| if c == ' ' { '_' } else { c }));
    }
    assert(cs@.take(cs@.len() as int) =~= cs@);
    let n = us.len();
    let id = lower_string_of(us.as_slice(), 0, n);
    assert(us@.subrange(0, n as int) =~= us@);
    id
}

/// Where the game is in its start-up.
#[derive(Debug, Clone, Copy, PartialEq, Eq, Structural)]
pub enum BootstrapPhase {
    /// The entry point runs.
    Entry,
    /// Frames run.
    Running,
    Done,
}

/// What the host does when the guest returns to the bootstrap address.
#[derive(Debug, Clone, Copy, PartialEq, Eq, Structural)]
pub enum BootstrapAction {
    /// Allocate the app object and frame context, then call the first frame.
    StartFrames,
    /// Count the frame, then run a queued guest call or the next frame.
    FrameReturned,
    /// Stop the game.
    Halt,
}

/// The phase after a return to the bootstrap address, and what to do.
pub fn bootstrap_return(phase: BootstrapPhase) -> (r: (BootstrapPhase, BootstrapAction))
    ensures
        r == match phase {
            BootstrapPhase::Entry => (BootstrapPhase::Running, BootstrapAction::StartFrames),
            BootstrapPhase::Running => (BootstrapPhase::Running, BootstrapAction::FrameReturned),
            BootstrapPhase::Done => (BootstrapPhase::Done, BootstrapAction::Halt),
        },
{
    match phase {
        BootstrapPhase::Entry => (BootstrapPhase::Running, BootstrapAction::StartFrames),
        BootstrapPhase::Running => (BootstrapPhase::Running, BootstrapAction::FrameReturned),
        BootstrapPhase::Done => (BootstrapPhase::Done, BootstrapAction::Halt),
    }
}

/// Whether a returned frame is logged: the first, then every 600th.
pub fn frame_log_due(frame: u64) -> (due: bool)
    ensures
        due == (frame == 1 || frame % 600 == 0),
{
    frame == 1 || frame % 600 == 0
}

/// How many recent program counters are kept.
pub const RECENT_PC_LIMIT: usize = 64;

/// The last distinct program counters the guest ran, oldest first.
pub struct RecentPcs {
    pub pcs: VecDeque<u32>,
}

/// `pcs` as `0x........` entries joined by ` -> `.
pub open spec fn pcs_text(pcs: Seq<u32>) -> Seq<char>
    decreases pcs.len(),
{
    if pcs.len() == 0 {
        Seq::empty()
    } else if pcs.len() == 1 {
        hex_prefixed(pcs[0] as nat, 10)
    } else {
        pcs_text(pcs.drop_last()) + " -> "@ + hex_prefixed(pcs.last() as nat, 10)
    }
}

impl RecentPcs {
    pub fn new() -> (r: RecentPcs)
        ensures
            r.pcs@.len() == 0,
    {
        RecentPcs { pcs: VecDeque::new() }
    }

    /// Note the program counter of a step: a repeat of the last one is not
    /// kept twice, and past the limit the oldest is dropped.
    pub fn record(&mut self, pc: u32)
        requires
            old(self).pcs@.len() <= RECENT_PC_LIMIT,
        ensures
            final(self).pcs@ == if old(self).pcs@.len() > 0 && old(self).pcs@.last() == pc {
                old(self).pcs@
            } else if old(self).pcs@.len() == RECENT_PC_LIMIT {
                old(self).pcs@.drop_first().push(pc)
            } else {
                old(self).pcs@.push(pc)
            },
            final(self).pcs@.len() <= RECENT_PC_LIMIT,
    {
        let n = self.pcs.len();
        if n > 0 && self.pcs[n - 1] == pc {
            return;
        }
        if n == RECENT_PC_LIMIT {
            self.pcs.pop_front();
        }
        self.pcs.push_back(pc);
    }

    /// The recent counters as `0x........ -> 0x........ -> ...`.
    pub fn render(&self) -> (text: String)
        ensures
            text@ == pcs_text(self.pcs@),
    {
        let mut text = String::new();
        let mut i: usize = 0;
        while i < self.pcs.len()
            invariant
                i <= self.pcs@.len(),
                text@ == pcs_text(self.pcs@.take(i as int)),
            decreases self.pcs@.len() - i,
        {
            proof {
                reveal_strlit(" -> ");
                assert(self.pcs@.take(i + 1).drop_last() =~= self.pcs@.take(i as int));
            }
            if i > 0 {
                text.append(" -> ");
            }
            push_hex_prefixed(&mut text, self.pcs[i] as u64, 10);
            i += 1;
        }
        assert(self.pcs@.take(self.pcs@.len() as int) =~= self.pcs@);
        text
    }
}

} // verus!
