//! The host side of the guest's asynchronous file-I/O imports: open-file
//! handles, in-flight request objects, staged files and the queue of guest
//! completion callbacks. Guest memory reads and host file access happen
//! around these functions; what they decide comes back as a reply (the
//! import's return value and the guest words to store).
use vstd::prelude::*;
use std::collections::{HashMap, HashSet, VecDeque};
use crate::parse::{chars_of, lex_sorted, push_char, sort_strings, string_of};
use crate::sys::eapp::bus::strip_prefixes;
use crate::sys::eapp::capture::StagedFile;

verus! {

broadcast use vstd::std_specs::hash::group_hash_axioms;

/// The firmware helper that forwards an owner's status and byte count to
/// its linked request callback.
pub const OWNER_COMPLETION_PC: u32 = 0x1801_fbfc;
/// Status of an open whose path names no host file.
pub const OPEN_MISSING_STATUS: u32 = 8;

/// A guest function to call once control returns to the host loop.
#[derive(Debug, Clone, Copy, PartialEq, Eq, Structural)]
pub struct PendingGuestCall {
    pub pc: u32,
    pub arg0: u32,
    pub arg1: u32,
}

/// A store into guest memory: a 32-bit word, or the low byte alone.
#[derive(Debug, Clone, Copy, PartialEq, Eq, Structural)]
pub struct GuestWrite {
    pub addr: u32,
    pub value: u32,
    pub byte: bool,
}

/// What an import call returns to the guest, and the stores it makes.
pub struct ImportReply {
    pub ret: u32,
    pub writes: Vec<GuestWrite>,
}

/// The asynchronous file-I/O state of one running eApp.
pub struct AsyncFileIo {
    /// Open handles and the host files behind them.
    pub open_files: HashMap<u32, String>,
    pub next_handle: u32,
    pub request_count: u64,
    pub callback_queued_count: u64,
    pub callback_invocation_count: u64,
    /// Request objects whose completion has not been dispatched.
    pub pending_requests: HashSet<u32>,
    pub pending_calls: VecDeque<PendingGuestCall>,
    pub staged_generation: u64,
    /// Files delivered into guest buffers, by request object.
    pub staged_files: HashMap<u32, StagedFile>,
    /// The directories found by the last enumeration, in order.
    pub dir_entries: Vec<String>,
}

/// The handle after `h`: wrapping, and never 0.
pub open spec fn next_handle_after(h: u32) -> u32 {
    if h == u32::MAX { 1 } else { (h + 1) as u32 }
}

/// `x` plus one, wrapping.
pub open spec fn wrap_inc(x: u64) -> u64 {
    if x == u64::MAX { 0 } else { (x + 1) as u64 }
}

/// A read of `len` bytes from a file holding `file`: the file's bytes,
/// zero-filled past its end.
pub open spec fn filled_read(file: Seq<u8>, len: nat) -> Seq<u8> {
    Seq::new(len, |i: int| if i < file.len() { file[i] } else { 0u8 })
}

fn inc(x: u64) -> (r: u64)
    ensures
        r == wrap_inc(x),
{
    if x == u64::MAX { 0 } else { x + 1 }
}

/// A reply that stores nothing.
fn reply(ret: u32) -> (r: ImportReply)
    ensures
        r.ret == ret,
        r.writes@.len() == 0,
{
    ImportReply { ret, writes: Vec::new() }
}

/// The bytes a handle read delivers: `file` cut or zero-filled to `len`,
/// and how many came from the file.
pub fn fill_read_buffer(file: &[u8], len: usize) -> (r: (Vec<u8>, usize))
    ensures
        r.0@ == filled_read(file@, len as nat),
        r.1 == if file@.len() < len { file@.len() as int } else { len as int },
{
    let n = if file.len() < len { file.len() } else { len };
    let mut out: Vec<u8> = Vec::new();
    let mut i: usize = 0;
    while i < len
        invariant
            i <= len,
            n <= file@.len(),
            n == if file@.len() < len { file@.len() as int } else { len as int },
            out@ == filled_read(file@, i as nat),
        decreases len - i,
    {
        if i < n {
            out.push(file[i]);
        } else {
            out.push(0);
        }
        i += 1;
        assert(out@ =~= filled_read(file@, i as nat));
    }
    (out, n)
}

/// How many bytes a request delivers: what it wants (all of the file when
/// it wants 0), but no more than the file holds.
pub fn request_read_len(want: u32, file_len: usize) -> (n: usize)
    ensures
        n == if want != 0 && (want as int) < file_len { want as int } else { file_len as int },
{
    let requested: usize = if want != 0 { want as usize } else { file_len };
    if file_len < requested { file_len } else { requested }
}

impl AsyncFileIo {
    /// No open files, requests or queued calls; handles start at 1.
    pub fn new() -> (s: AsyncFileIo)
        ensures
            s.open_files@ == Map::<u32, String>::empty(),
            s.next_handle == 1,
            s.request_count == 0 && s.callback_queued_count == 0 && s.callback_invocation_count == 0,
            s.pending_requests@ == Set::<u32>::empty(),
            s.pending_calls@.len() == 0,
            s.staged_generation == 0,
            s.staged_files@ == Map::<u32, StagedFile>::empty(),
            s.dir_entries@.len() == 0,
    {
        AsyncFileIo {
            open_files: HashMap::new(),
            next_handle: 1,
            request_count: 0,
            callback_queued_count: 0,
            callback_invocation_count: 0,
            pending_requests: HashSet::new(),
            pending_calls: VecDeque::new(),
            staged_generation: 0,
            staged_files: HashMap::new(),
            dir_entries: Vec::new(),
        }
    }

    /// Queue a guest call and count it.
    fn queue_call(&mut self, pc: u32, arg0: u32, arg1: u32)
        ensures
            final(self).pending_calls@ == old(self).pending_calls@.push(PendingGuestCall { pc, arg0, arg1 }),
            final(self).callback_queued_count == wrap_inc(old(self).callback_queued_count),
            *final(self) == (AsyncFileIo {
                pending_calls: final(self).pending_calls,
                callback_queued_count: final(self).callback_queued_count,
                ..*old(self)
            }),
    {
        self.callback_queued_count = inc(self.callback_queued_count);
        self.pending_calls.push_back(PendingGuestCall { pc, arg0, arg1 });
    }

    /// Open `host_path` under a fresh handle, which is returned.
    fn allocate_handle(&mut self, host_path: String) -> (h: u32)
        ensures
            h == old(self).next_handle,
            final(self).next_handle == next_handle_after(old(self).next_handle),
            final(self).open_files@ == old(self).open_files@.insert(h, host_path),
            *final(self) == (AsyncFileIo {
                open_files: final(self).open_files,
                next_handle: final(self).next_handle,
                ..*old(self)
            }),
    {
        let h = self.next_handle;
        self.next_handle = if h == u32::MAX { 1 } else { h + 1 };
        self.open_files.insert(h, host_path);
        h
    }

    /// The direct open (ordinal 12): a host file gets a new handle, stored
    /// at `out_ptr` when that is not null, and status 0; no host file gives
    /// `OPEN_MISSING_STATUS`.
    pub fn open_file(&mut self, host_path: Option<String>, out_ptr: u32) -> (r: ImportReply)
        ensures
            match host_path {
                None => r.ret == OPEN_MISSING_STATUS && r.writes@.len() == 0 && *final(self) == *old(self),
                Some(p) => {
                    let h = old(self).next_handle;
                    &&& r.ret == 0
                    &&& r.writes@ == if out_ptr != 0 {
                        seq![GuestWrite { addr: out_ptr, value: h, byte: false }]
                    } else {
                        Seq::<GuestWrite>::empty()
                    }
                    &&& final(self).open_files@ == old(self).open_files@.insert(h, p)
                    &&& final(self).next_handle == next_handle_after(h)
                    &&& *final(self) == (AsyncFileIo {
                        open_files: final(self).open_files,
                        next_handle: final(self).next_handle,
                        ..*old(self)
                    })
                },
            },
    {
        match host_path {
            None => reply(OPEN_MISSING_STATUS),
            Some(p) => {
                let h = self.allocate_handle(p);
                let mut writes: Vec<GuestWrite> = Vec::new();
                if out_ptr != 0 {
                    writes.push(GuestWrite { addr: out_ptr, value: h, byte: false });
                }
                ImportReply { ret: 0, writes }
            },
        }
    }

    /// The filesystem module's open: an existing host file gets a handle;
    /// the call answers 1 either way.
    pub fn filesystem_open(&mut self, existing_host_path: Option<String>) -> (ret: u32)
        ensures
            ret == 1,
            match existing_host_path {
                None => *final(self) == *old(self),
                Some(p) => {
                    &&& final(self).open_files@ == old(self).open_files@.insert(old(self).next_handle, p)
                    &&& final(self).next_handle == next_handle_after(old(self).next_handle)
                    &&& *final(self) == (AsyncFileIo {
                        open_files: final(self).open_files,
                        next_handle: final(self).next_handle,
                        ..*old(self)
                    })
                },
            },
    {
        if let Some(p) = existing_host_path {
            self.allocate_handle(p);
        }
        1
    }

    /// The host file a handle read (ordinal 14) reads: none for the invalid
    /// handle, a null buffer or an unknown handle (the call then answers 0).
    pub fn read_target(&self, handle: u32, buffer: u32) -> (r: Option<String>)
        ensures
            match r {
                Some(p) => handle != u32::MAX && buffer != 0 && self.open_files@.contains_key(handle)
                    && p@ == self.open_files@[handle]@,
                None => handle == u32::MAX || buffer == 0 || !self.open_files@.contains_key(handle),
            },
    {
        if handle == u32::MAX || buffer == 0 {
            return None;
        }
        match self.open_files.get(&handle) {
            Some(p) => Some(p.clone()),
            None => None,
        }
    }

    /// The status poll (ordinal 16): 1 for an open handle, else 0.
    pub fn poll_status(&self, handle: u32) -> (ret: u32)
        ensures
            ret == if self.open_files@.contains_key(handle) { 1u32 } else { 0u32 },
    {
        if self.open_files.contains_key(&handle) { 1 } else { 0 }
    }

    /// The no-path control completion (ordinal 1). When completions are on
    /// and the owner links a request, the owner gets status 1 and count 0
    /// and the owner-completion helper is queued for it. Answers 1.
    pub fn control_completion(&mut self, complete: bool, owner: u32, req: u32) -> (r: ImportReply)
        ensures
            r.ret == 1,
            complete && owner != 0 && req != 0 ==> {
                &&& r.writes@ == seq![
                    GuestWrite { addr: owner.wrapping_add(0x20), value: 1, byte: false },
                    GuestWrite { addr: owner.wrapping_add(0x24), value: 0, byte: false },
                ]
                &&& final(self).pending_calls@ == old(self).pending_calls@.push(
                    PendingGuestCall { pc: OWNER_COMPLETION_PC, arg0: owner, arg1: 0 })
                &&& final(self).callback_queued_count == wrap_inc(old(self).callback_queued_count)
                &&& *final(self) == (AsyncFileIo {
                    pending_calls: final(self).pending_calls,
                    callback_queued_count: final(self).callback_queued_count,
                    ..*old(self)
                })
            },
            !(complete && owner != 0 && req != 0) ==> r.writes@.len() == 0 && *final(self) == *old(self),
    {
        if complete && owner != 0 && req != 0 {
            let mut writes: Vec<GuestWrite> = Vec::new();
            writes.push(GuestWrite { addr: owner.wrapping_add(0x20), value: 1, byte: false });
            writes.push(GuestWrite { addr: owner.wrapping_add(0x24), value: 0, byte: false });
            self.queue_call(OWNER_COMPLETION_PC, owner, 0);
            return ImportReply { ret: 1, writes };
        }
        reply(1)
    }

    /// The owner-callback completion (ordinal 2). When completions are on
    /// and the owner names a callback, the owner's in-flight byte is
    /// cleared and the callback is queued with (owner, context). Answers 1.
    pub fn callback_completion(&mut self, complete: bool, owner: u32, callback_pc: u32,
        callback_ctx: u32) -> (r: ImportReply)
        ensures
            r.ret == 1,
            complete && owner != 0 && callback_pc != 0 ==> {
                &&& r.writes@ == seq![GuestWrite { addr: owner.wrapping_add(0x1c), value: 0, byte: true }]
                &&& final(self).pending_calls@ == old(self).pending_calls@.push(
                    PendingGuestCall { pc: callback_pc, arg0: owner, arg1: callback_ctx })
                &&& final(self).callback_queued_count == wrap_inc(old(self).callback_queued_count)
                &&& *final(self) == (AsyncFileIo {
                    pending_calls: final(self).pending_calls,
                    callback_queued_count: final(self).callback_queued_count,
                    ..*old(self)
                })
            },
            !(complete && owner != 0 && callback_pc != 0) ==> r.writes@.len() == 0 && *final(self) == *old(self),
    {
        if complete && owner != 0 && callback_pc != 0 {
            let mut writes: Vec<GuestWrite> = Vec::new();
            writes.push(GuestWrite { addr: owner.wrapping_add(0x1c), value: 0, byte: true });
            self.queue_call(callback_pc, owner, callback_ctx);
            return ImportReply { ret: 1, writes };
        }
        reply(1)
    }

    /// The streaming open with an owner (ordinal 0). `file_len` is the host
    /// file's length when the path resolved. Without a file the call answers
    /// 0; with one it answers 1, and when completions are on the owner gets
    /// status 0 and the byte count and the owner-completion helper is queued.
    pub fn stream_open(&mut self, complete: bool, owner: u32, file_len: Option<u32>) -> (r: ImportReply)
        ensures
            r.ret == if file_len is Some { 1u32 } else { 0u32 },
            match file_len {
                Some(n) if complete && owner != 0 => {
                    &&& r.writes@ == seq![
                        GuestWrite { addr: owner.wrapping_add(0x20), value: 0, byte: false },
                        GuestWrite { addr: owner.wrapping_add(0x24), value: n, byte: false },
                    ]
                    &&& final(self).pending_calls@ == old(self).pending_calls@.push(
                        PendingGuestCall { pc: OWNER_COMPLETION_PC, arg0: owner, arg1: 0 })
                    &&& final(self).callback_queued_count == wrap_inc(old(self).callback_queued_count)
                    &&& *final(self) == (AsyncFileIo {
                        pending_calls: final(self).pending_calls,
                        callback_queued_count: final(self).callback_queued_count,
                        ..*old(self)
                    })
                },
                _ => r.writes@.len() == 0 && *final(self) == *old(self),
            },
    {
        match file_len {
            None => reply(0),
            Some(n) => {
                if complete && owner != 0 {
                    let mut writes: Vec<GuestWrite> = Vec::new();
                    writes.push(GuestWrite { addr: owner.wrapping_add(0x20), value: 0, byte: false });
                    writes.push(GuestWrite { addr: owner.wrapping_add(0x24), value: n, byte: false });
                    self.queue_call(OWNER_COMPLETION_PC, owner, 0);
                    return ImportReply { ret: 1, writes };
                }
                reply(1)
            },
        }
    }

    /// A request-object read (ordinal 3) begins: it is counted and, when not
    /// null, marked in flight.
    pub fn begin_request(&mut self, req: u32)
        ensures
            final(self).request_count == wrap_inc(old(self).request_count),
            final(self).pending_requests@ == if req != 0 {
                old(self).pending_requests@.insert(req)
            } else {
                old(self).pending_requests@
            },
            *final(self) == (AsyncFileIo {
                request_count: final(self).request_count,
                pending_requests: final(self).pending_requests,
                ..*old(self)
            }),
    {
        self.request_count = inc(self.request_count);
        if req != 0 {
            self.pending_requests.insert(req);
        }
    }

    /// A request whose path names no host file is no longer in flight; the
    /// call answers 0.
    pub fn request_missing(&mut self, req: u32) -> (ret: u32)
        ensures
            ret == 0,
            final(self).pending_requests@ == old(self).pending_requests@.remove(req),
            *final(self) == (AsyncFileIo { pending_requests: final(self).pending_requests, ..*old(self) }),
    {
        self.pending_requests.remove(&req);
        0
    }

    /// A request whose file was read ends. When `delivered` (its `n` bytes
    /// reached `dest`), completions on store status 1 and the byte count,
    /// and the file is staged under a new generation. Then its callback is
    /// queued with (req, context), or, without one, it leaves flight.
    /// Answers 1.
    pub fn finish_request(&mut self, req: u32, dest: u32, n: u32, host_path: String, delivered: bool,
        complete: bool, callback_pc: u32, callback_ctx: u32) -> (r: ImportReply)
        ensures
            r.ret == 1,
            r.writes@ == if delivered && complete {
                seq![
                    GuestWrite { addr: req.wrapping_add(0x20), value: 1, byte: false },
                    GuestWrite { addr: req.wrapping_add(0x24), value: n, byte: false },
                ]
            } else {
                Seq::<GuestWrite>::empty()
            },
            final(self).staged_generation == if delivered {
                wrap_inc(old(self).staged_generation)
            } else {
                old(self).staged_generation
            },
            delivered ==> {
                &&& final(self).staged_files@.dom() == old(self).staged_files@.dom().insert(req)
                &&& forall|k: u32| k != req && #[trigger] old(self).staged_files@.contains_key(k)
                    ==> final(self).staged_files@[k] == old(self).staged_files@[k]
                &&& final(self).staged_files@[req].generation == final(self).staged_generation
                &&& final(self).staged_files@[req].payload_addr == dest
                &&& final(self).staged_files@[req].len == n
                &&& final(self).staged_files@[req].path@ == host_path@
            },
            !delivered ==> final(self).staged_files@ == old(self).staged_files@,
            callback_pc != 0 ==> {
                &&& final(self).pending_calls@ == old(self).pending_calls@.push(
                    PendingGuestCall { pc: callback_pc, arg0: req, arg1: callback_ctx })
                &&& final(self).callback_queued_count == wrap_inc(old(self).callback_queued_count)
                &&& final(self).pending_requests@ == old(self).pending_requests@
            },
            callback_pc == 0 ==> {
                &&& final(self).pending_calls@ == old(self).pending_calls@
                &&& final(self).callback_queued_count == old(self).callback_queued_count
                &&& final(self).pending_requests@ == old(self).pending_requests@.remove(req)
            },
            final(self).open_files == old(self).open_files,
            final(self).next_handle == old(self).next_handle,
            final(self).request_count == old(self).request_count,
            final(self).callback_invocation_count == old(self).callback_invocation_count,
            final(self).dir_entries == old(self).dir_entries,
    {
        let mut writes: Vec<GuestWrite> = Vec::new();
        if delivered {
            if complete {
                writes.push(GuestWrite { addr: req.wrapping_add(0x20), value: 1, byte: false });
                writes.push(GuestWrite { addr: req.wrapping_add(0x24), value: n, byte: false });
            }
            self.staged_generation = inc(self.staged_generation);
            let f = StagedFile { generation: self.staged_generation, payload_addr: dest, len: n, path: host_path };
            self.staged_files.insert(req, f);
        }
        if callback_pc != 0 {
            self.queue_call(callback_pc, req, callback_ctx);
        } else {
            self.pending_requests.remove(&req);
        }
        ImportReply { ret: 1, writes }
    }

    /// The directory enumeration (ordinal 7) for request `req`. `entries`
    /// are the subdirectory names found when the path resolved. They are
    /// kept sorted, the request gets status 0 and the count, and its
    /// callback is queued; the call answers 1. A null request or an
    /// unresolved path answers 0 and changes nothing.
    pub fn enumerate_dirs(&mut self, req: u32, callback_pc: u32, callback_ctx: u32,
        entries: Option<Vec<String>>) -> (r: ImportReply)
        ensures
            match entries {
                Some(names) if req != 0 => {
                    &&& r.ret == 1
                    &&& final(self).dir_entries@.to_multiset() == names@.to_multiset()
                    &&& lex_sorted(final(self).dir_entries@.map_values(|s: String| s@))
                    &&& r.writes@ == seq![
                        GuestWrite { addr: req.wrapping_add(0x20), value: 0, byte: false },
                        GuestWrite { addr: req.wrapping_add(0x24), value: names@.len() as u32, byte: false },
                    ]
                    &&& callback_pc != 0 ==> final(self).pending_calls@ == old(self).pending_calls@.push(
                        PendingGuestCall { pc: callback_pc, arg0: req, arg1: callback_ctx })
                        && final(self).callback_queued_count == wrap_inc(old(self).callback_queued_count)
                    &&& callback_pc == 0 ==> final(self).pending_calls@ == old(self).pending_calls@
                        && final(self).callback_queued_count == old(self).callback_queued_count
                    &&& *final(self) == (AsyncFileIo {
                        dir_entries: final(self).dir_entries,
                        pending_calls: final(self).pending_calls,
                        callback_queued_count: final(self).callback_queued_count,
                        ..*old(self)
                    })
                },
                _ => r.ret == 0 && r.writes@.len() == 0 && *final(self) == *old(self),
            },
    {
        if req == 0 {
            return reply(0);
        }
        match entries {
            None => reply(0),
            Some(names) => {
                let count = names.len() as u32;
                let sorted = sort_strings(names);
                self.dir_entries = sorted;
                let mut writes: Vec<GuestWrite> = Vec::new();
                writes.push(GuestWrite { addr: req.wrapping_add(0x20), value: 0, byte: false });
                writes.push(GuestWrite { addr: req.wrapping_add(0x24), value: count, byte: false });
                if callback_pc != 0 {
                    self.queue_call(callback_pc, req, callback_ctx);
                }
                ImportReply { ret: 1, writes }
            },
        }
    }

    /// When a guest callback returns: the next queued call, if any, which
    /// is counted and takes its first argument out of flight. With none,
    /// the host goes on to the next frame.
    pub fn next_guest_call(&mut self) -> (c: Option<PendingGuestCall>)
        ensures
            match c {
                Some(call) => {
                    &&& old(self).pending_calls@.len() > 0
                    &&& call == old(self).pending_calls@[0]
                    &&& final(self).pending_calls@ == old(self).pending_calls@.drop_first()
                    &&& final(self).callback_invocation_count == wrap_inc(old(self).callback_invocation_count)
                    &&& final(self).pending_requests@ == old(self).pending_requests@.remove(call.arg0)
                    &&& *final(self) == (AsyncFileIo {
                        pending_calls: final(self).pending_calls,
                        callback_invocation_count: final(self).callback_invocation_count,
                        pending_requests: final(self).pending_requests,
                        ..*old(self)
                    })
                },
                None => {
                    &&& old(self).pending_calls@.len() == 0
                    &&& final(self).pending_calls@ == old(self).pending_calls@
                    &&& *final(self) == (AsyncFileIo { pending_calls: final(self).pending_calls, ..*old(self) })
                },
            },
    {
        match self.pending_calls.pop_front() {
            Some(call) => {
                self.callback_invocation_count = inc(self.callback_invocation_count);
                self.pending_requests.remove(&call.arg0);
                Some(call)
            },
            None => None,
        }
    }
}

/// Bytes a guest path may hold: printable ASCII.
pub open spec fn path_byte(b: u8) -> bool {
    0x20 <= b <= 0x7e
}

/// The position of the first NUL in `bytes`, or its length.
pub open spec fn nul_index(bytes: Seq<u8>) -> int
    decreases bytes.len(),
{
    if bytes.len() == 0 {
        0
    } else if nul_index(bytes.drop_last()) < bytes.len() - 1 {
        nul_index(bytes.drop_last())
    } else if bytes.last() == 0 {
        bytes.len() - 1
    } else {
        bytes.len() as int
    }
}

/// The path string at a guest address, from the bytes readable there
/// (`bytes`, cut at the first unreadable byte, at most `max_len` of them):
/// the bytes before the first NUL, all printable and at least one. A
/// string that runs into an unreadable byte is no path.
pub open spec fn guest_path(bytes: Seq<u8>, max_len: nat) -> Option<Seq<char>> {
    let k = nul_index(bytes);
    if k == 0 || (k == bytes.len() && bytes.len() < max_len)
        || exists|i: int| 0 <= i < k && !path_byte(#[trigger] bytes[i]) {
        None
    } else {
        Some(bytes.take(k).map_values(|b: u8| b as char))
    }
}

proof fn lemma_nul_index(bytes: Seq<u8>)
    ensures
        0 <= nul_index(bytes) <= bytes.len(),
        nul_index(bytes) < bytes.len() ==> bytes[nul_index(bytes)] == 0,
        forall|i: int| 0 <= i < nul_index(bytes) ==> bytes[i] != 0,
    decreases bytes.len(),
{
    if bytes.len() > 0 {
        let d = bytes.drop_last();
        lemma_nul_index(d);
        assert forall|i: int| 0 <= i < nul_index(bytes) implies bytes[i] != 0 by {
            if i < d.len() {
                assert(bytes[i] == d[i]);
            }
        }
    }
}

/// Read a guest path string (see `guest_path`).
pub fn guest_path_string(bytes: &[u8], max_len: usize) -> (r: Option<String>)
    requires
        bytes@.len() <= max_len,
    ensures
        match guest_path(bytes@, max_len as nat) {
            Some(p) => r matches Some(s) && s@ == p,
            None => r is None,
        },
{
    let mut out = String::new();
    let mut i: usize = 0;
    while i < bytes.len()
        invariant
            i <= bytes@.len(),
            forall|k: int| 0 <= k < i ==> bytes@[k] != 0 && path_byte(#[trigger] bytes@[k]),
            out@ == bytes@.take(i as int).map_values(|b: u8| b as char),
        ensures
            i < bytes@.len() ==> bytes@[i as int] == 0,
        decreases bytes@.len() - i,
    {
        let b = bytes[i];
        if b == 0 {
            break;
        }
        if !(0x20 <= b && b <= 0x7e) {
            proof {
                lemma_nul_index(bytes@);
                if nul_index(bytes@) <= i {
                    assert(bytes@[nul_index(bytes@)] == 0);
                }
                assert(!path_byte(bytes@[i as int]));
            }
            return None;
        }
        push_char(&mut out, b as char);
        i += 1;
        assert(out@ =~= bytes@.take(i as int).map_values(|b: u8| b as char));
    }
    proof {
        lemma_nul_index(bytes@);
        if i < bytes@.len() {
            assert(bytes@[i as int] == 0);
            if nul_index(bytes@) < i {
                assert(bytes@[nul_index(bytes@)] == 0);
            }
            assert(nul_index(bytes@) == i);
        } else {
            if nul_index(bytes@) < i {
                assert(bytes@[nul_index(bytes@)] == 0);
            }
        }
    }
    if i == 0 || (i == bytes.len() && bytes.len() < max_len) {
        return None;
    }
    Some(out)
}

/// `path` without its leading `/` characters, then its leading `\` ones.
pub open spec fn normalized_path(path: Seq<char>) -> Seq<char> {
    strip_prefixes(strip_prefixes(path, seq!['/']), seq!['\\'])
}

/// Drop the leading copies of `c` from `cs[i..j]`.
fn strip_char(cs: &[char], i: usize, j: usize, c: char) -> (k: usize)
    requires
        i <= j <= cs@.len(),
    ensures
        i <= k <= j,
        cs@.subrange(k as int, j as int) == strip_prefixes(cs@.subrange(i as int, j as int), seq![c]),
{
    let mut k = i;
    while k < j && cs[k] == c
        invariant
            i <= k <= j <= cs@.len(),
            strip_prefixes(cs@.subrange(i as int, j as int), seq![c])
                == strip_prefixes(cs@.subrange(k as int, j as int), seq![c]),
        decreases j - k,
    {
        proof {
            let s = cs@.subrange(k as int, j as int);
            assert(s.take(1) =~= seq![c]);
            assert(s.skip(1) =~= cs@.subrange(k + 1, j as int));
        }
        k += 1;
    }
    proof {
        let s = cs@.subrange(k as int, j as int);
        if s.len() >= 1 {
            assert(s.take(1)[0] == s[0]);
        }
    }
    k
}

/// The bundle-relative names a guest path is looked up under, in order:
/// the path itself and its normalized form, each when not empty.
pub fn bundle_path_candidates(path: &str) -> (r: Vec<String>)
    ensures
        r@.map_values(|s: String| s@) == (if path@.len() > 0 { seq![path@] } else { Seq::<Seq<char>>::empty() })
            + (if normalized_path(path@).len() > 0 { seq![normalized_path(path@)] } else { Seq::<Seq<char>>::empty() }),
{
    let cs = chars_of(path);
    let n = cs.len();
    let k1 = strip_char(cs.as_slice(), 0, n, '/');
    let k2 = strip_char(cs.as_slice(), k1, n, '\\');
    proof {
        assert(cs@.subrange(0, n as int) =~= path@);
    }
    let mut r: Vec<String> = Vec::new();
    if n > 0 {
        r.push(string_of(cs.as_slice(), 0, n));
    }
    if k2 < n {
        r.push(string_of(cs.as_slice(), k2, n));
    }
    proof {
        let a: Seq<Seq<char>> = if path@.len() > 0 { seq![path@] } else { Seq::<Seq<char>>::empty() };
        let b: Seq<Seq<char>> = if normalized_path(path@).len() > 0 { seq![normalized_path(path@)] } else { Seq::<Seq<char>>::empty() };
        assert(r@.map_values(|s: String| s@) =~= a + b);
    }
    r
}

/// The save-file name a guest path is created under when the bundle
/// lacks it: its normalized form, when not empty.
pub fn save_path_name(path: &str) -> (r: Option<String>)
    ensures
        match r {
            Some(s) => normalized_path(path@).len() > 0 && s@ == normalized_path(path@),
            None => normalized_path(path@).len() == 0,
        },
{
    let cs = chars_of(path);
    let n = cs.len();
    let k1 = strip_char(cs.as_slice(), 0, n, '/');
    let k2 = strip_char(cs.as_slice(), k1, n, '\\');
    proof {
        assert(cs@.subrange(0, n as int) =~= path@);
    }
    if k2 < n { Some(string_of(cs.as_slice(), k2, n)) } else { None }
}

} // verus!
