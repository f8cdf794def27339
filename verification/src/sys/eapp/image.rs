//! eApp executable images: the fixed header and the chain of import-module
//! descriptors.
use vstd::prelude::*;
use vstd::set_lib::{lemma_int_range, lemma_len_subset, set_int_range};
use crate::sys::eapp::rasterizer::{le32, read_le32};
use crate::text::{hex_prefixed, push_hex_prefixed};

verus! {

#[verifier::external_type_specification]
#[verifier::external_body]
pub struct ExIoError(std::io::Error);

#[verifier::external_type_specification]
#[verifier::external_body]
pub struct ExPathBuf(std::path::PathBuf);

/// `PathBuf::clone` copies the path: the clone is the same value.
pub assume_specification[ <std::path::PathBuf as Clone>::clone ](p: &std::path::PathBuf) -> (r: std::path::PathBuf)
    ensures
        r == *p,
;

/// Images are mapped at this guest address; header pointers are relative to it.
pub const FILE_VMA_BASE: u32 = 0x1800_0000;
/// Size of the fixed header.
pub const EAPP_HEADER_SIZE: usize = 0x28;
/// Bytes reserved for a module name in an import descriptor.
pub const IMPORT_NAME_LEN: usize = 0x20;
/// Offset of the import count in a descriptor.
pub const IMPORT_COUNT_OFFSET: usize = 0x30;
/// Offset of the next-descriptor pointer.
pub const IMPORT_NEXT_OFFSET: usize = 0x34;
/// Offset of the first import stub.
pub const IMPORT_STUBS_OFFSET: usize = 0x38;

/// Errors while building an eApp runner.
#[derive(Debug)]
pub enum EappBuildError {
    Io(std::io::Error),
    MissingExecutable(String),
    InvalidImage(String),
}

/// Buttons the runner exposes to a game.
#[derive(Debug, Copy, Clone, Hash, Eq, PartialEq, Structural)]
pub enum EappKey {
    Up,
    Down,
    Left,
    Right,
    Action,
    Menu,
}

/// Where a game came from.
#[derive(Debug, Clone)]
pub struct EappMetadata {
    pub title: String,
    pub bundle_dir: std::path::PathBuf,
    pub executable_path: std::path::PathBuf,
}

/// The fixed header of an eApp executable.
#[derive(Debug, Clone)]
pub struct EappHeader {
    pub load_addr_guess: u32,
    pub format_version: u32,
    pub header_size: u32,
    pub imports_addr: u32,
    pub entry_addr: u32,
    pub init_addr: u32,
    pub aux_addr: u32,
}

/// One import-module descriptor.
#[derive(Debug, Clone)]
pub struct EappImportModule {
    pub name_addr: u32,
    pub name: String,
    pub count: u32,
    pub next_addr: u32,
    pub stubs_addr: u32,
    pub literals_addr: u32,
}

/// A loaded executable.
#[derive(Debug, Clone)]
pub struct EappImage {
    pub metadata: EappMetadata,
    pub header: EappHeader,
    pub imports: Vec<EappImportModule>,
    pub image: Vec<u8>,
}

/// The message of an `InvalidImage` error.
pub open spec fn invalid_image(e: EappBuildError, msg: Seq<char>) -> bool {
    e matches EappBuildError::InvalidImage(m) && m@ == msg
}

/// `address {:#010x} is outside file VMA`.
pub open spec fn outside_vma_msg(addr: u32) -> Seq<char> {
    "address "@ + hex_prefixed(addr as nat, 10) + " is outside file VMA"@
}

/// `truncated u32 at {:#x}`.
pub open spec fn truncated_u32_msg(offset: int) -> Seq<char> {
    "truncated u32 at "@ + hex_prefixed(offset as nat, 0)
}

fn invalid(msg: String) -> (e: EappBuildError)
    ensures
        invalid_image(e, msg@),
{
    EappBuildError::InvalidImage(msg)
}

/// Translate an image address to a file offset.
pub fn vma_to_offset(addr: u32) -> (r: Result<u32, EappBuildError>)
    ensures
        addr >= FILE_VMA_BASE ==> r == Ok::<u32, EappBuildError>((addr - FILE_VMA_BASE) as u32),
        addr < FILE_VMA_BASE ==> (r matches Err(e) && invalid_image(e, outside_vma_msg(addr))),
{
    match addr.checked_sub(FILE_VMA_BASE) {
        Some(off) => Ok(off),
        None => {
            proof {
                reveal_strlit("address ");
                reveal_strlit(" is outside file VMA");
            }
            let mut msg = String::new();
            msg.append("address ");
            push_hex_prefixed(&mut msg, addr as u64, 10);
            msg.append(" is outside file VMA");
            Err(invalid(msg))
        },
    }
}

/// Read a little-endian `u32` of the image.
pub fn read_u32_at(image: &[u8], offset: usize) -> (r: Result<u32, EappBuildError>)
    requires
        offset + 4 <= usize::MAX,
    ensures
        offset + 4 <= image@.len() ==> r == Ok::<u32, EappBuildError>(le32(image@, offset as int) as u32),
        offset + 4 > image@.len() ==> (r matches Err(e) && invalid_image(e, truncated_u32_msg(offset as int))),
{
    if offset + 4 <= image.len() {
        Ok(read_le32(image, offset))
    } else {
        proof {
            reveal_strlit("truncated u32 at ");
        }
        let mut msg = String::new();
        msg.append("truncated u32 at ");
        push_hex_prefixed(&mut msg, offset as u64, 0);
        Err(invalid(msg))
    }
}

/// The bytes before the first NUL (all of them when there is none).
pub open spec fn until_nul(bytes: Seq<u8>) -> Seq<u8>
    decreases bytes.len(),
{
    if bytes.len() == 0 {
        bytes
    } else if bytes[0] == 0 {
        Seq::empty()
    } else {
        seq![bytes[0]] + until_nul(bytes.drop_first())
    }
}

/// A NUL-terminated name read as UTF-8, or the message that rejects it.
pub open spec fn c_string_spec(bytes: Seq<u8>) -> Result<Seq<char>, Seq<char>> {
    let s = until_nul(bytes);
    if vstd::utf8::valid_utf8(s) {
        Ok(vstd::utf8::decode_utf8(s))
    } else {
        Err("non-utf8 import name"@)
    }
}

/// Decode UTF-8 bytes through `String::from_utf8`, which accepts exactly
/// the valid UTF-8 sequences and then holds their decoding.
#[verifier::external_body]
fn utf8_to_string(bytes: Vec<u8>) -> (s: Option<String>)
    ensures
        s is Some <==> vstd::utf8::valid_utf8(bytes@),
        s matches Some(t) ==> t@ == vstd::utf8::decode_utf8(bytes@),
{
    String::from_utf8(bytes).ok()
}

/// Read a NUL-terminated UTF-8 name.
pub fn c_string(bytes: &[u8]) -> (r: Result<String, EappBuildError>)
    ensures
        match c_string_spec(bytes@) {
            Ok(s) => r matches Ok(t) && t@ == s,
            Err(m) => r matches Err(e) && invalid_image(e, m),
        },
{
    let mut prefix: Vec<u8> = Vec::new();
    let mut i: usize = 0;
    assert(bytes@.skip(0) =~= bytes@);
    assert(prefix@ + until_nul(bytes@) =~= until_nul(bytes@));
    while i < bytes.len() && bytes[i] != 0
        invariant
            i <= bytes@.len(),
            forall|k: int| 0 <= k < i ==> bytes@[k] != 0,
            prefix@ == bytes@.take(i as int),
            until_nul(bytes@) == prefix@ + until_nul(bytes@.skip(i as int)),
        decreases bytes.len() - i,
    {
        proof {
            let rest = bytes@.skip(i as int);
            assert(rest.drop_first() =~= bytes@.skip(i + 1));
            assert(rest[0] == bytes@[i as int]);
        }
        prefix.push(bytes[i]);
        proof {
            assert(prefix@ =~= bytes@.take(i + 1));
            assert(prefix@ =~= bytes@.take(i as int).push(bytes@[i as int]));
        }
        i += 1;
    }
    proof {
        if i < bytes@.len() {
            assert(bytes@.skip(i as int)[0] == 0);
        } else {
            assert(bytes@.skip(i as int).len() == 0);
        }
        assert(prefix@ + Seq::<u8>::empty() =~= prefix@);
        assert(bytes@.skip(0) =~= bytes@);
    }
    match utf8_to_string(prefix) {
        Some(s) => Ok(s),
        None => {
            proof {
                reveal_strlit("non-utf8 import name");
            }
            Err(invalid(String::from_str("non-utf8 import name")))
        },
    }
}

/// The image opens with the ASCII magic `eapp`.
pub open spec fn has_eapp_magic(image: Seq<u8>) -> bool {
    image[0] == 101 && image[1] == 97 && image[2] == 112 && image[3] == 112
}

/// `h` holds the header words of `image` (offsets 0x04 .. 0x18 and 0x24).
pub open spec fn header_of(image: Seq<u8>, h: EappHeader) -> bool {
    &&& h.load_addr_guess == le32(image, 0x04)
    &&& h.format_version == le32(image, 0x08)
    &&& h.header_size == le32(image, 0x0c)
    &&& h.imports_addr == le32(image, 0x10)
    &&& h.entry_addr == le32(image, 0x14)
    &&& h.init_addr == le32(image, 0x18)
    &&& h.aux_addr == le32(image, 0x24)
}

/// Parse the fixed header: the file must hold all 0x28 header bytes and
/// open with `eapp`.
pub fn parse_eapp_header(image: &[u8]) -> (r: Result<EappHeader, EappBuildError>)
    ensures
        image@.len() < 0x28 ==> (r matches Err(e) && invalid_image(e, "file too small for eapp header"@)),
        image@.len() >= 0x28 && !has_eapp_magic(image@) ==> (r matches Err(e) && invalid_image(e, "missing eapp magic"@)),
        image@.len() >= 0x28 && has_eapp_magic(image@) ==> (r matches Ok(h) && header_of(image@, h)),
{
    if image.len() < EAPP_HEADER_SIZE {
        proof {
            reveal_strlit("file too small for eapp header");
        }
        return Err(invalid(String::from_str("file too small for eapp header")));
    }
    if !(image[0] == 101 && image[1] == 97 && image[2] == 112 && image[3] == 112) {
        proof {
            reveal_strlit("missing eapp magic");
        }
        return Err(invalid(String::from_str("missing eapp magic")));
    }
    Ok(EappHeader {
        load_addr_guess: read_le32(image, 0x04),
        format_version: read_le32(image, 0x08),
        header_size: read_le32(image, 0x0c),
        imports_addr: read_le32(image, 0x10),
        entry_addr: read_le32(image, 0x14),
        init_addr: read_le32(image, 0x18),
        aux_addr: read_le32(image, 0x24),
    })
}

/// The name that ends the import chain.
pub open spec fn import_sentinel() -> Seq<char> {
    "$$$$ a^n + b^n = c^n | n>2 $$$$"@
}

/// An import descriptor as read from the image.
pub struct ImportModuleView {
    pub name_addr: u32,
    pub name: Seq<char>,
    pub count: u32,
    pub next_addr: u32,
    pub stubs_addr: u32,
    pub literals_addr: u32,
}

pub open spec fn module_view(m: EappImportModule) -> ImportModuleView {
    ImportModuleView {
        name_addr: m.name_addr,
        name: m.name@,
        count: m.count,
        next_addr: m.next_addr,
        stubs_addr: m.stubs_addr,
        literals_addr: m.literals_addr,
    }
}

/// All 32-bit addresses.
pub open spec fn u32_addrs() -> Set<int> {
    set_int_range(0, 0x1_0000_0000)
}

/// `import descriptor loop at {:#010x}`.
pub open spec fn loop_msg(addr: u32) -> Seq<char> {
    "import descriptor loop at "@ + hex_prefixed(addr as nat, 10)
}

/// Read the descriptor at the nonzero address `addr`: `Ok(None)` for the
/// sentinel name, `Ok(Some(m))` for a module, or the message that rejects
/// it (an address outside the image mapping, a truncated name or
/// count/next word, a name that is not UTF-8). Stub and literal addresses
/// use wrapping 32-bit arithmetic: stubs follow the 0x38-byte header,
/// literals follow the `count` stub words.
pub open spec fn import_step(image: Seq<u8>, addr: u32) -> Result<Option<ImportModuleView>, Seq<char>> {
    if addr < FILE_VMA_BASE {
        Err(outside_vma_msg(addr))
    } else {
        let off = addr - FILE_VMA_BASE;
        if off + 0x20 > image.len() {
            Err("truncated import name"@)
        } else {
            match c_string_spec(image.subrange(off, off + 0x20)) {
                Err(m) => Err(m),
                Ok(name) => {
                    if off + 0x30 + 4 > image.len() {
                        Err(truncated_u32_msg(off + 0x30))
                    } else if off + 0x34 + 4 > image.len() {
                        Err(truncated_u32_msg(off + 0x34))
                    } else if name == import_sentinel() {
                        Ok(None)
                    } else {
                        let count = le32(image, off + 0x30) as u32;
                        let stubs = vstd::wrapping::u32_specs::wrapping_add(addr, 0x38);
                        Ok(Some(ImportModuleView {
                            name_addr: addr,
                            name,
                            count,
                            next_addr: le32(image, off + 0x34) as u32,
                            stubs_addr: stubs,
                            literals_addr: vstd::wrapping::u32_specs::wrapping_add(
                                stubs,
                                vstd::wrapping::u32_specs::wrapping_mul(count, 4),
                            ),
                        }))
                    }
                },
            }
        }
    }
}

/// Follow the descriptor chain from `addr`, having visited `seen`. A zero
/// address or the sentinel name ends it; revisiting an address is an error,
/// and so is every descriptor that `import_step` rejects.
#[verifier::opaque]
pub open spec fn import_chain(image: Seq<u8>, addr: u32, seen: Set<int>) -> Result<Seq<ImportModuleView>, Seq<char>>
    decreases 0x1_0000_0000 - seen.len() when seen.finite() && seen.subset_of(u32_addrs())
{
    if addr == 0 {
        Ok(Seq::empty())
    } else if seen.contains(addr as int) {
        Err(loop_msg(addr))
    } else {
        match import_step(image, addr) {
            Err(m) => Err(m),
            Ok(None) => Ok(Seq::empty()),
            Ok(Some(m)) => {
                proof {
                    lemma_int_range(0, 0x1_0000_0000);
                    lemma_len_subset(seen.insert(addr as int), u32_addrs());
                }
                match import_chain(image, m.next_addr, seen.insert(addr as int)) {
                    Ok(rest) => Ok(seq![m] + rest),
                    Err(e) => Err(e),
                }
            },
        }
    }
}

/// One step of the chain from a nonzero, unvisited address.
proof fn lemma_import_chain_unfold(image: Seq<u8>, addr: u32, seen: Set<int>)
    requires
        addr != 0,
        !seen.contains(addr as int),
        seen.finite(),
        seen.subset_of(u32_addrs()),
    ensures
        import_chain(image, addr, seen) == match import_step(image, addr) {
            Err(m) => Err(m),
            Ok(None) => Ok(Seq::empty()),
            Ok(Some(m)) => match import_chain(image, m.next_addr, seen.insert(addr as int)) {
                Ok(rest) => Ok(seq![m] + rest),
                Err(e) => Err(e),
            },
        },
{
    reveal(import_chain);
}

/// Revisiting an address ends the chain with the loop error.
proof fn lemma_import_chain_revisit(image: Seq<u8>, addr: u32, seen: Set<int>)
    requires
        addr != 0,
        seen.contains(addr as int),
        seen.finite(),
        seen.subset_of(u32_addrs()),
    ensures
        import_chain(image, addr, seen) == Err::<Seq<ImportModuleView>, Seq<char>>(loop_msg(addr)),
{
    reveal(import_chain);
}

/// A zero address ends the chain.
proof fn lemma_import_chain_end(image: Seq<u8>, seen: Set<int>)
    requires
        seen.finite(),
        seen.subset_of(u32_addrs()),
    ensures
        import_chain(image, 0, seen) == Ok::<Seq<ImportModuleView>, Seq<char>>(Seq::empty()),
{
    reveal(import_chain);
}

/// Whether `x` occurs in `v`.
fn contains_u32(v: &Vec<u32>, x: u32) -> (b: bool)
    ensures
        b == v@.contains(x),
{
    let mut k: usize = 0;
    while k < v.len()
        invariant
            k <= v@.len(),
            forall|j: int| 0 <= j < k ==> v@[j] != x,
        decreases v.len() - k,
    {
        if v[k] == x {
            assert(v@[k as int] == x);
            return true;
        }
        k += 1;
    }
    false
}

/// A copy of `bytes[start..end]`.
pub fn copy_range(bytes: &[u8], start: usize, end: usize) -> (out: Vec<u8>)
    requires
        start <= end <= bytes@.len(),
    ensures
        out@ == bytes@.subrange(start as int, end as int),
{
    let mut out: Vec<u8> = Vec::new();
    let mut k = start;
    while k < end
        invariant
            start <= k <= end <= bytes@.len(),
            out@ == bytes@.subrange(start as int, k as int),
        decreases end - k,
    {
        out.push(bytes[k]);
        proof {
            assert(out@ =~= bytes@.subrange(start as int, k + 1));
        }
        k += 1;
    }
    out
}

/// Read one import descriptor at the nonzero address `addr`.
fn read_import_descriptor(image: &[u8], addr: u32) -> (r: Result<Option<EappImportModule>, EappBuildError>)
    ensures
        match import_step(image@, addr) {
            Ok(None) => r matches Ok(None),
            Ok(Some(m)) => r matches Ok(Some(d)) && module_view(d) == m,
            Err(msg) => r matches Err(e) && invalid_image(e, msg),
        },
{
    assert(image@.len() == image.len());
    proof {
        reveal_strlit("truncated import name");
        reveal_strlit("$$$$ a^n + b^n = c^n | n>2 $$$$");
    }
    let name_offset = match vma_to_offset(addr) {
        Ok(o) => o as usize,
        Err(e) => return Err(e),
    };
    if name_offset + IMPORT_NAME_LEN > image.len() {
        return Err(invalid(String::from_str("truncated import name")));
    }
    let name_bytes = copy_range(image, name_offset, name_offset + IMPORT_NAME_LEN);
    let name = match c_string(name_bytes.as_slice()) {
        Ok(n) => n,
        Err(e) => return Err(e),
    };
    let count = match read_u32_at(image, name_offset + IMPORT_COUNT_OFFSET) {
        Ok(v) => v,
        Err(e) => return Err(e),
    };
    let next_addr = match read_u32_at(image, name_offset + IMPORT_NEXT_OFFSET) {
        Ok(v) => v,
        Err(e) => return Err(e),
    };
    let stubs_addr = addr.wrapping_add(IMPORT_STUBS_OFFSET as u32);
    let literals_addr = stubs_addr.wrapping_add(count.wrapping_mul(4));
    if crate::text::str_eq(name.as_str(), "$$$$ a^n + b^n = c^n | n>2 $$$$") {
        return Ok(None);
    }
    Ok(Some(EappImportModule { name_addr: addr, name, count, next_addr, stubs_addr, literals_addr }))
}

/// Parse the import-module chain starting at `name_addr`.
pub fn parse_import_modules(image: &[u8], name_addr: u32) -> (r: Result<Vec<EappImportModule>, EappBuildError>)
    ensures
        match import_chain(image@, name_addr, Set::empty()) {
            Ok(ms) => r matches Ok(v) && v@.map_values(|m: EappImportModule| module_view(m)) == ms,
            Err(msg) => r matches Err(e) && invalid_image(e, msg),
        },
{
    proof {
        lemma_int_range(0, 0x1_0000_0000);
        reveal_strlit("import descriptor loop at ");
    }
    let ghost chain = import_chain(image@, name_addr, Set::empty());
    let mut modules: Vec<EappImportModule> = Vec::new();
    let mut seen: Vec<u32> = Vec::new();
    let ghost mut seen_set: Set<int> = Set::empty();
    let mut addr = name_addr;
    while addr != 0
        invariant
            chain == import_chain(image@, name_addr, Set::empty()),
            seen_set.finite(),
            seen_set.subset_of(u32_addrs()),
            u32_addrs().finite(),
            u32_addrs().len() == 0x1_0000_0000,
            forall|a: int| #[trigger] seen_set.contains(a) ==> 0 <= a < 0x1_0000_0000 && seen@.contains(a as u32),
            forall|k: int| 0 <= k < seen@.len() ==> seen_set.contains(#[trigger] seen@[k] as int),
            chain matches Ok(all) ==> (import_chain(image@, addr, seen_set) matches Ok(rest)
                && all == modules@.map_values(|m: EappImportModule| module_view(m)) + rest),
            chain matches Err(msg) ==> import_chain(image@, addr, seen_set) == Err::<Seq<ImportModuleView>, Seq<char>>(msg),
        decreases 0x1_0000_0000 - seen_set.len(),
    {
        if contains_u32(&seen, addr) {
            proof {
                let k = choose|k: int| 0 <= k < seen@.len() && seen@[k] == addr;
                assert(seen_set.contains(seen@[k] as int));
                lemma_import_chain_revisit(image@, addr, seen_set);
            }
            let mut msg = String::new();
            msg.append("import descriptor loop at ");
            push_hex_prefixed(&mut msg, addr as u64, 10);
            return Err(invalid(msg));
        }
        proof {
            if seen_set.contains(addr as int) {
                assert(seen@.contains(addr));
            }
            lemma_import_chain_unfold(image@, addr, seen_set);
        }
        let step = read_import_descriptor(image, addr);
        let module = match step {
            Err(e) => return Err(e),
            Ok(None) => {
                proof {
                    assert(modules@.map_values(|m: EappImportModule| module_view(m)) + Seq::<ImportModuleView>::empty()
                        =~= modules@.map_values(|m: EappImportModule| module_view(m)));
                }
                return Ok(modules);
            },
            Ok(Some(m)) => m,
        };
        let next_addr = module.next_addr;
        let ghost prev = modules@.map_values(|m: EappImportModule| module_view(m));
        let ghost mv = module_view(module);
        proof {
            lemma_len_subset(seen_set.insert(addr as int), u32_addrs());
        }
        let ghost old_seen = seen@;
        modules.push(module);
        seen.push(addr);
        proof {
            let ghost old_set = seen_set;
            seen_set = seen_set.insert(addr as int);
            assert(modules@.map_values(|m: EappImportModule| module_view(m)) =~= prev.push(mv));
            assert forall|a: int| #[trigger] seen_set.contains(a) implies 0 <= a < 0x1_0000_0000 && seen@.contains(a as u32) by {
                if a == addr as int {
                    assert(seen@[seen@.len() - 1] == addr);
                } else {
                    assert(old_set.contains(a));
                    assert(old_seen.contains(a as u32));
                    let k = choose|k: int| 0 <= k < old_seen.len() && old_seen[k] == a as u32;
                    assert(seen@[k] == old_seen[k]);
                    assert(seen@[k] == a as u32);
                }
            }
            assert forall|k: int| 0 <= k < seen@.len() implies seen_set.contains(#[trigger] seen@[k] as int) by {
                if k < seen@.len() - 1 {
                    assert(old_set.contains(seen@[k] as int));
                }
            }
            if chain is Ok {
                let all = chain->Ok_0;
                let rest = import_chain(image@, next_addr, seen_set)->Ok_0;
                assert(all =~= prev.push(mv) + rest);
            }
        }
        addr = next_addr;
    }
    proof {
        lemma_import_chain_end(image@, seen_set);
        if chain is Ok {
            assert(chain->Ok_0 =~= modules@.map_values(|m: EappImportModule| module_view(m)));
        }
    }
    Ok(modules)
}

impl EappImage {
    /// Parse an executable's bytes: the header, then the import chain from
    /// the header's import address. The first error is returned.
    pub fn parse(metadata: EappMetadata, image: Vec<u8>) -> (r: Result<EappImage, EappBuildError>)
        ensures
            image@.len() < 0x28 ==> (r matches Err(e) && invalid_image(e, "file too small for eapp header"@)),
            image@.len() >= 0x28 && !has_eapp_magic(image@) ==> (r matches Err(e) && invalid_image(e, "missing eapp magic"@)),
            image@.len() >= 0x28 && has_eapp_magic(image@) ==> {
                let imports_addr = le32(image@, 0x10) as u32;
                match import_chain(image@, imports_addr, Set::empty()) {
                    Ok(ms) => r matches Ok(img) && {
                        &&& header_of(image@, img.header)
                        &&& img.imports@.map_values(|m: EappImportModule| module_view(m)) == ms
                        &&& img.image@ == image@
                        &&& img.metadata.title@ == metadata.title@
                        &&& img.metadata.bundle_dir == metadata.bundle_dir
                        &&& img.metadata.executable_path == metadata.executable_path
                    },
                    Err(msg) => r matches Err(e) && invalid_image(e, msg),
                }
            },
    {
        let header = match parse_eapp_header(image.as_slice()) {
            Ok(h) => h,
            Err(e) => return Err(e),
        };
        let imports = match parse_import_modules(image.as_slice(), header.imports_addr) {
            Ok(m) => m,
            Err(e) => return Err(e),
        };
        Ok(EappImage { metadata, header, imports, image })
    }
}

} // verus!
