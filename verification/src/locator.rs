//! Decisions of the process locator: sizing and trimming the process-id
//! buffer, matching executable paths against the configured target name,
//! and the access-rights sets used for discovery and for injection.

use vstd::prelude::*;
use vstd::string::StrSliceExecFns;

verus! {

/// Right to perform operations on a process's virtual memory.
pub const RIGHT_VM_OPERATION: u32 = 0x8;

/// Right to read a process's virtual memory.
pub const RIGHT_VM_READ: u32 = 0x10;

/// Right to write a process's virtual memory.
pub const RIGHT_VM_WRITE: u32 = 0x20;

/// Right to create a thread inside a process.
pub const RIGHT_CREATE_THREAD: u32 = 0x2;

/// Right to query a process's information.
pub const RIGHT_QUERY_INFORMATION: u32 = 0x400;

/// Right to query the limited information set, enough to resolve the
/// executable path during discovery.
pub const RIGHT_QUERY_LIMITED_INFORMATION: u32 = 0x1000;

/// The minimal rights requested while scanning the process table.
pub fn discovery_rights() -> (r: u32)
    ensures
        r == RIGHT_QUERY_LIMITED_INFORMATION,
{
    RIGHT_QUERY_LIMITED_INFORMATION
}

/// The escalated rights requested once the target is confirmed: every
/// right the injector needs is contained in the set.
pub fn escalated_rights() -> (r: u32)
    ensures
        r == RIGHT_VM_OPERATION | RIGHT_VM_READ | RIGHT_VM_WRITE | RIGHT_CREATE_THREAD
            | RIGHT_QUERY_INFORMATION,
        r & RIGHT_VM_OPERATION == RIGHT_VM_OPERATION,
        r & RIGHT_VM_READ == RIGHT_VM_READ,
        r & RIGHT_VM_WRITE == RIGHT_VM_WRITE,
        r & RIGHT_CREATE_THREAD == RIGHT_CREATE_THREAD,
        r & RIGHT_QUERY_INFORMATION == RIGHT_QUERY_INFORMATION,
{
    let r = RIGHT_VM_OPERATION | RIGHT_VM_READ | RIGHT_VM_WRITE | RIGHT_CREATE_THREAD
        | RIGHT_QUERY_INFORMATION;
    proof {
        assert(0x8u32 | 0x10 | 0x20 | 0x2 | 0x400 == 0x43au32) by (bit_vector);
        assert(0x43au32 & 0x8 == 0x8u32) by (bit_vector);
        assert(0x43au32 & 0x10 == 0x10u32) by (bit_vector);
        assert(0x43au32 & 0x20 == 0x20u32) by (bit_vector);
        assert(0x43au32 & 0x2 == 0x2u32) by (bit_vector);
        assert(0x43au32 & 0x400 == 0x400u32) by (bit_vector);
    }
    r
}

/// How many process-id slots to allocate when the sizing query reported
/// `bytes_needed` bytes: the entries that fit, plus room for ten more in
/// case the process table grows between the two queries.
pub fn pid_slots(bytes_needed: u32) -> (r: u32)
    ensures
        r == bytes_needed / 4 + 10,
{
    bytes_needed / 4 + 10
}

/// The byte size of a process-id buffer with `slots` entries.
pub fn pid_buffer_bytes(slots: u32) -> (r: u32)
    requires
        slots <= 0x3FFFFFFF,
    ensures
        r == slots * 4,
{
    slots * 4
}

/// Trims the trailing unused slots after the fetch query reported
/// `returned_bytes` bytes of process ids.
pub fn trim_pids(pids: &mut Vec<u32>, returned_bytes: u32)
    ensures
        ({
            let keep = returned_bytes / 4;
            if keep < old(pids)@.len() {
                final(pids)@ == old(pids)@.take(keep as int)
            } else {
                final(pids)@ == old(pids)@
            }
        }),
{
    let keep = (returned_bytes / 4) as usize;
    while pids.len() > keep
        invariant
            pids@ =~= old(pids)@.take(pids@.len() as int),
            pids@.len() <= old(pids)@.len(),
            pids@.len() >= keep || pids@.len() == old(pids)@.len(),
        decreases pids@.len(),
    {
        pids.pop();
        proof {
            assert(old(pids)@.take(pids@.len() as int) =~= old(pids)@.take(
                pids@.len() as int + 1,
            ).drop_last());
        }
    }
    proof {
        assert(old(pids)@.take(old(pids)@.len() as int) =~= old(pids)@);
    }
}

/// True for the path separators that may precede the file name.
pub open spec fn is_sep(c: char) -> bool {
    c == '\\' || c == '/'
}

/// Index of the last path separator, or -1 when there is none.
pub open spec fn last_sep(p: Seq<char>) -> int
    decreases p.len(),
{
    if p.len() == 0 {
        -1
    } else if is_sep(p.last()) {
        p.len() - 1
    } else {
        last_sep(p.drop_last())
    }
}

/// The file-name component: everything after the last separator.
pub open spec fn spec_file_name(p: Seq<char>) -> Seq<char> {
    p.subrange(last_sep(p) + 1, p.len() as int)
}

/// A separator with none after it is the last one.
pub proof fn lemma_last_sep_at(p: Seq<char>, k: int)
    requires
        0 <= k < p.len(),
        is_sep(p[k]),
        forall|j: int| k < j < p.len() ==> !is_sep(p[j]),
    ensures
        last_sep(p) == k,
    decreases p.len(),
{
    if k < p.len() - 1 {
        lemma_last_sep_at(p.drop_last(), k);
    }
}

/// With no separator at all, the whole path is the file name.
pub proof fn lemma_last_sep_none(p: Seq<char>)
    requires
        forall|j: int| 0 <= j < p.len() ==> !is_sep(p[j]),
    ensures
        last_sep(p) == -1,
    decreases p.len(),
{
    if p.len() > 0 {
        lemma_last_sep_none(p.drop_last());
    }
}

/// The file-name component of an executable path.
pub fn executable_file_name(path: &str) -> (r: &str)
    ensures
        r@ == spec_file_name(path@),
{
    let len = path.unicode_len();
    let mut i: usize = len;
    while i > 0
        invariant
            i <= len,
            len == path@.len(),
            forall|j: int| i <= j < len ==> !is_sep(path@[j]),
        decreases i,
    {
        let c = path.get_char(i - 1);
        if c == '\\' || c == '/' {
            proof {
                lemma_last_sep_at(path@, i - 1);
            }
            return path.substring_char(i, len);
        }
        i -= 1;
    }
    proof {
        lemma_last_sep_none(path@);
        assert(path@.subrange(0, len as int) =~= path@);
    }
    path.substring_char(0, len)
}

/// Character-for-character string equality.
pub fn str_eq(a: &str, b: &str) -> (r: bool)
    ensures
        r == (a@ == b@),
{
    let la = a.unicode_len();
    let lb = b.unicode_len();
    if la != lb {
        return false;
    }
    let mut i: usize = 0;
    while i < la
        invariant
            i <= la,
            la == a@.len() == b@.len(),
            forall|j: int| 0 <= j < i ==> a@[j] == b@[j],
        decreases la - i,
    {
        if a.get_char(i) != b.get_char(i) {
            return false;
        }
        i += 1;
    }
    proof {
        assert(a@ =~= b@);
    }
    true
}

/// Whether a path names the configured target executable, by exact,
/// case-sensitive comparison of its file-name component.
pub fn is_target_executable(path: &str, target: &str) -> (r: bool)
    ensures
        r == (spec_file_name(path@) == target@),
{
    let name = executable_file_name(path);
    str_eq(name, target)
}

/// One scanned process: its id and the resolved executable path.
pub struct ProcessEntry {
    pub pid: u32,
    pub exe: String,
}

/// The first scanned process whose executable matches the target name, as
/// the locator sweep picks it.
pub fn find_target(procs: &Vec<ProcessEntry>, target: &str) -> (r: Option<usize>)
    ensures
        match r {
            Some(i) => {
                &&& i < procs@.len()
                &&& spec_file_name(procs@[i as int].exe@) == target@
                &&& forall|j: int|
                    0 <= j < i ==> spec_file_name(#[trigger] procs@[j].exe@) != target@
            },
            None => forall|j: int|
                0 <= j < procs@.len() ==> spec_file_name(#[trigger] procs@[j].exe@) != target@,
        },
{
    let mut i: usize = 0;
    while i < procs.len()
        invariant
            i <= procs@.len(),
            forall|j: int| 0 <= j < i ==> spec_file_name(#[trigger] procs@[j].exe@) != target@,
        decreases procs@.len() - i,
    {
        if is_target_executable(procs[i].exe.as_str(), target) {
            return Some(i);
        }
        i += 1;
    }
    None
}

} // verus!
