//! Page arithmetic and the firmware memory map: which descriptors cover the
//! kernel's target range, and the largest conventional-memory region.
use vstd::prelude::*;
use vstd::string::StringSliceAdditionalSpecFns;
use crate::console::{write_ascii, write_dec, write_hex64, push_all, dec_digits, hex_digits, hex_mark, crlf};

verus! {

/// The size of a firmware page.
pub const EFI_PAGE_SIZE: usize = 4096;

/// The memory type of free conventional memory.
pub const EFI_CONVENTIONAL_MEMORY: u32 = 7;

/// One entry of the firmware memory map.
#[derive(Clone, Copy, Debug, PartialEq, Eq, Structural)]
pub struct EfiMemoryDescriptor {
    pub memory_type: u32,
    pub physical_start: u64,
    pub virtual_start: u64,
    pub number_of_pages: u64,
    pub attribute: u64,
}

/// The first address past the region that `desc` describes.
pub open spec fn spec_descriptor_end(desc: EfiMemoryDescriptor) -> int {
    desc.physical_start + desc.number_of_pages * 4096
}

/// The end of the region that `desc` describes is a 64-bit address.
pub open spec fn descriptor_end_fits(desc: EfiMemoryDescriptor) -> bool {
    spec_descriptor_end(desc) <= u64::MAX
}

/// The number of pages that `size` bytes occupy.
pub fn page_count(size: u64) -> (r: usize)
    requires
        size + 4096 <= usize::MAX,
    ensures
        r == (size + 4095) / 4096,
{
    let bytes = size as usize;
    assert(bytes == size);
    (bytes + EFI_PAGE_SIZE - 1) / EFI_PAGE_SIZE
}

/// The first address past the region that `desc` describes.
pub fn memory_descriptor_end(desc: &EfiMemoryDescriptor) -> (r: u64)
    requires
        descriptor_end_fits(*desc),
    ensures
        r == spec_descriptor_end(*desc),
{
    desc.physical_start + desc.number_of_pages * 4096
}

/// `address` lies in the region that `desc` describes.
pub open spec fn spec_descriptor_contains(desc: EfiMemoryDescriptor, address: int) -> bool {
    desc.physical_start <= address < spec_descriptor_end(desc)
}

/// Whether `address` lies in the region that `desc` describes.
pub fn memory_descriptor_contains(desc: &EfiMemoryDescriptor, address: u64) -> (r: bool)
    requires
        descriptor_end_fits(*desc),
    ensures
        r == spec_descriptor_contains(*desc, address as int),
{
    let start = desc.physical_start;
    let end = start + desc.number_of_pages * 4096;
    start <= address && address < end
}

/// What the memory map says about a target range.
#[derive(Clone, Copy, Debug, PartialEq, Eq)]
pub struct MemoryMapProbe {
    /// The first descriptor that holds the range's first byte.
    pub start_desc: Option<usize>,
    /// The first descriptor that holds the range's last byte.
    pub last_desc: Option<usize>,
    /// Where the largest conventional-memory region starts (0 if none).
    pub best_start: u64,
    /// How many pages it has (0 if none).
    pub best_pages: u64,
}

/// `k` is the first descriptor that holds `address`.
pub open spec fn is_first_holder(descs: Seq<EfiMemoryDescriptor>, address: int, k: int) -> bool {
    0 <= k < descs.len() && spec_descriptor_contains(descs[k], address) && forall|j: int|
        0 <= j < k ==> !spec_descriptor_contains(#[trigger] descs[j], address)
}

/// The first descriptor that holds `address`, if any.
pub open spec fn spec_first_holder(descs: Seq<EfiMemoryDescriptor>, address: int) -> Option<int> {
    if exists|k: int| 0 <= k < descs.len() && spec_descriptor_contains(descs[k], address) {
        Some(choose|k: int| is_first_holder(descs, address, k))
    } else {
        None
    }
}

/// A conventional-memory descriptor with at least one page.
pub open spec fn is_conventional(desc: EfiMemoryDescriptor) -> bool {
    desc.memory_type == EFI_CONVENTIONAL_MEMORY && desc.number_of_pages > 0
}

/// `k` is the first of the largest conventional-memory descriptors.
pub open spec fn is_best_conventional(descs: Seq<EfiMemoryDescriptor>, k: int) -> bool {
    &&& 0 <= k < descs.len()
    &&& is_conventional(descs[k])
    &&& forall|j: int| 0 <= j < k && is_conventional(#[trigger] descs[j]) ==> descs[j].number_of_pages < descs[k].number_of_pages
    &&& forall|j: int| k < j < descs.len() && is_conventional(#[trigger] descs[j]) ==> descs[j].number_of_pages <= descs[k].number_of_pages
}

/// The probe of the range of `size` bytes at `target` against `descs`.
pub open spec fn spec_memory_map_probe(descs: Seq<EfiMemoryDescriptor>, target: int, size: int, p: MemoryMapProbe) -> bool {
    &&& match (p.start_desc, spec_first_holder(descs, target)) {
        (Some(a), Some(b)) => a == b,
        (None, None) => true,
        _ => false,
    }
    &&& match (p.last_desc, spec_first_holder(descs, target + size - 1)) {
        (Some(a), Some(b)) => a == b,
        (None, None) => true,
        _ => false,
    }
    &&& if exists|k: int| 0 <= k < descs.len() && is_conventional(descs[k]) {
        exists|k: int| is_best_conventional(descs, k) && p.best_start == descs[k].physical_start
            && p.best_pages == descs[k].number_of_pages
    } else {
        p.best_start == 0 && p.best_pages == 0
    }
}

proof fn lemma_first_holder(descs: Seq<EfiMemoryDescriptor>, address: int, k: int)
    requires
        is_first_holder(descs, address, k),
    ensures
        spec_first_holder(descs, address) == Some(k),
{
    let c = choose|c: int| is_first_holder(descs, address, c);
    if c < k {
        assert(!spec_descriptor_contains(descs[c], address));
    } else if k < c {
        assert(!spec_descriptor_contains(descs[k], address));
    }
}

/// Looks up the range of `size` bytes at `target` in the memory map
/// `descs`: the descriptors holding its first and last bytes, and the
/// largest conventional-memory region.
pub fn target_memory_map_probe(descs: &[EfiMemoryDescriptor], target: u64, size: u64) -> (r: MemoryMapProbe)
    requires
        size > 0,
        target + size <= u64::MAX,
        forall|k: int| 0 <= k < descs@.len() ==> descriptor_end_fits(#[trigger] descs@[k]),
    ensures
        spec_memory_map_probe(descs@, target as int, size as int, r),
        r.start_desc matches Some(a) ==> is_first_holder(descs@, target as int, a as int),
        r.last_desc matches Some(a) ==> is_first_holder(descs@, target + size - 1, a as int),
{
    let target_last = target + size - 1;
    let mut start_desc: Option<usize> = None;
    let mut last_desc: Option<usize> = None;
    let mut best_start: u64 = 0;
    let mut best_pages: u64 = 0;
    let ghost mut best: int = -1;
    let mut i: usize = 0;
    while i < descs.len()
        invariant
            forall|k: int| 0 <= k < descs@.len() ==> descriptor_end_fits(#[trigger] descs@[k]),
            target_last == target + size - 1,
            i <= descs@.len(),
            match start_desc {
                Some(a) => is_first_holder(descs@, target as int, a as int),
                None => forall|j: int| 0 <= j < i ==> !spec_descriptor_contains(#[trigger] descs@[j], target as int),
            },
            match last_desc {
                Some(a) => is_first_holder(descs@, target_last as int, a as int),
                None => forall|j: int| 0 <= j < i ==> !spec_descriptor_contains(#[trigger] descs@[j], target_last as int),
            },
            best == -1 ==> best_start == 0 && best_pages == 0 && forall|j: int| 0 <= j < i ==> !is_conventional(#[trigger] descs@[j]),
            best != -1 ==> {
                &&& 0 <= best < i
                &&& is_conventional(descs@[best])
                &&& best_start == descs@[best].physical_start
                &&& best_pages == descs@[best].number_of_pages
                &&& forall|j: int| 0 <= j < best && is_conventional(#[trigger] descs@[j]) ==> descs@[j].number_of_pages < best_pages
                &&& forall|j: int| best < j < i && is_conventional(#[trigger] descs@[j]) ==> descs@[j].number_of_pages <= best_pages
            },
        decreases descs@.len() - i,
    {
        let desc = &descs[i];
        if start_desc.is_none() && memory_descriptor_contains(desc, target) {
            start_desc = Some(i);
        }
        if last_desc.is_none() && memory_descriptor_contains(desc, target_last) {
            last_desc = Some(i);
        }
        if desc.memory_type == EFI_CONVENTIONAL_MEMORY && desc.number_of_pages > best_pages {
            best_start = desc.physical_start;
            best_pages = desc.number_of_pages;
            proof {
                best = i as int;
            }
        }
        i += 1;
    }
    let r = MemoryMapProbe { start_desc, last_desc, best_start, best_pages };
    proof {
        match start_desc {
            Some(a) => lemma_first_holder(descs@, target as int, a as int),
            None => {},
        }
        match last_desc {
            Some(a) => lemma_first_holder(descs@, target + size - 1, a as int),
            None => {},
        }
        if best != -1 {
            assert(is_best_conventional(descs@, best));
        }
    }
    r
}

/// A report line: `label`, `key`, then `0x` and sixteen hexadecimal
/// digits of `v`, then `\r\n`.
pub open spec fn hex_line(label: Seq<u8>, key: Seq<u8>, v: nat) -> Seq<u8> {
    label + key + hex_mark() + hex_digits(v, 16) + crlf()
}

/// A report line: `label`, `key`, the decimal digits of `v`, `\r\n`.
pub open spec fn dec_line(label: Seq<u8>, key: Seq<u8>, v: nat) -> Seq<u8> {
    label + key + dec_digits(v) + crlf()
}

/// `_found: no\r\n`
pub open spec fn found_no() -> Seq<u8> {
    seq![0x5f, 0x66, 0x6f, 0x75, 0x6e, 0x64, 0x3a, 0x20, 0x6e, 0x6f, 0x0d, 0x0a]
}

/// `_found: yes\r\n`
pub open spec fn found_yes() -> Seq<u8> {
    seq![0x5f, 0x66, 0x6f, 0x75, 0x6e, 0x64, 0x3a, 0x20, 0x79, 0x65, 0x73, 0x0d, 0x0a]
}

/// `_type: `
pub open spec fn type_key() -> Seq<u8> {
    seq![0x5f, 0x74, 0x79, 0x70, 0x65, 0x3a, 0x20]
}

/// `_physical_start: `
pub open spec fn start_key() -> Seq<u8> {
    seq![0x5f, 0x70, 0x68, 0x79, 0x73, 0x69, 0x63, 0x61, 0x6c, 0x5f, 0x73, 0x74, 0x61, 0x72, 0x74, 0x3a, 0x20]
}

/// `_pages: `
pub open spec fn pages_key() -> Seq<u8> {
    seq![0x5f, 0x70, 0x61, 0x67, 0x65, 0x73, 0x3a, 0x20]
}

/// `_physical_end: `
pub open spec fn end_key() -> Seq<u8> {
    seq![0x5f, 0x70, 0x68, 0x79, 0x73, 0x69, 0x63, 0x61, 0x6c, 0x5f, 0x65, 0x6e, 0x64, 0x3a, 0x20]
}

/// The report on a descriptor found for `label`, or that none was found.
pub open spec fn descriptor_report(label: Seq<u8>, desc: Option<EfiMemoryDescriptor>) -> Seq<u8> {
    match desc {
        None => label + found_no(),
        Some(d) => label + found_yes() + dec_line(label, type_key(), d.memory_type as nat)
            + hex_line(label, start_key(), d.physical_start as nat)
            + dec_line(label, pages_key(), d.number_of_pages as nat)
            + hex_line(label, end_key(), spec_descriptor_end(d) as nat),
    }
}

fn push_hex_line(out: &mut Vec<u8>, label: &str, key: &[u8], v: u64)
    ensures
        final(out)@ == old(out)@ + hex_line(label.spec_bytes(), key@, v as nat),
{
    write_ascii(out, label);
    push_all(out, key);
    out.push(0x30);
    out.push(0x78);
    write_hex64(out, v);
    out.push(0x0d);
    out.push(0x0a);
    assert(final(out)@ =~= old(out)@ + hex_line(label.spec_bytes(), key@, v as nat));
}

fn push_dec_line(out: &mut Vec<u8>, label: &str, key: &[u8], v: u64)
    ensures
        final(out)@ == old(out)@ + dec_line(label.spec_bytes(), key@, v as nat),
{
    write_ascii(out, label);
    push_all(out, key);
    write_dec(out, v);
    out.push(0x0d);
    out.push(0x0a);
    assert(final(out)@ =~= old(out)@ + dec_line(label.spec_bytes(), key@, v as nat));
}

/// Appends the report on the descriptor `desc` found for `label`: whether
/// one was found, and then its type, start, page count and end.
pub fn print_memory_descriptor(out: &mut Vec<u8>, label: &str, desc: Option<&EfiMemoryDescriptor>)
    requires
        desc matches Some(d) ==> descriptor_end_fits(*d),
    ensures
        final(out)@ == old(out)@ + descriptor_report(label.spec_bytes(), match desc {
            Some(d) => Some(*d),
            None => None,
        }),
{
    match desc {
        None => {
            let no: [u8; 12] = [0x5f, 0x66, 0x6f, 0x75, 0x6e, 0x64, 0x3a, 0x20, 0x6e, 0x6f, 0x0d, 0x0a];
            assert(no@ =~= found_no());
            write_ascii(out, label);
            push_all(out, &no);
        },
        Some(d) => {
            let yes: [u8; 13] = [0x5f, 0x66, 0x6f, 0x75, 0x6e, 0x64, 0x3a, 0x20, 0x79, 0x65, 0x73, 0x0d, 0x0a];
            let tk: [u8; 7] = [0x5f, 0x74, 0x79, 0x70, 0x65, 0x3a, 0x20];
            let sk: [u8; 17] = [0x5f, 0x70, 0x68, 0x79, 0x73, 0x69, 0x63, 0x61, 0x6c, 0x5f, 0x73, 0x74, 0x61, 0x72,
                0x74, 0x3a, 0x20];
            let pk: [u8; 8] = [0x5f, 0x70, 0x61, 0x67, 0x65, 0x73, 0x3a, 0x20];
            let ek: [u8; 15] = [0x5f, 0x70, 0x68, 0x79, 0x73, 0x69, 0x63, 0x61, 0x6c, 0x5f, 0x65, 0x6e, 0x64, 0x3a,
                0x20];
            assert(yes@ =~= found_yes());
            assert(tk@ =~= type_key());
            assert(sk@ =~= start_key());
            assert(pk@ =~= pages_key());
            assert(ek@ =~= end_key());
            let ghost start = out@;
            write_ascii(out, label);
            push_all(out, &yes);
            push_dec_line(out, label, &tk, d.memory_type as u64);
            push_hex_line(out, label, &sk, d.physical_start);
            push_dec_line(out, label, &pk, d.number_of_pages);
            let end = memory_descriptor_end(d);
            push_hex_line(out, label, &ek, end);
            assert(out@ =~= start + descriptor_report(label.spec_bytes(), Some(*d)));
        },
    }
}

/// The lines on the target range of `size` bytes at `target`.
pub open spec fn range_report(target: u64, size: u64) -> Seq<u8> {
    hex_line("target_memory_range_start: ".spec_bytes(), Seq::empty(), target as nat)
        + hex_line("target_memory_range_end: ".spec_bytes(), Seq::empty(), (target + size) as nat)
}

/// The lines on the largest conventional-memory region.
pub open spec fn best_report(best_start: u64, best_pages: u64) -> Seq<u8> {
    hex_line("memory_map_best_conventional_start: ".spec_bytes(), Seq::empty(), best_start as nat)
        + dec_line("memory_map_best_conventional_pages: ".spec_bytes(), Seq::empty(), best_pages as nat)
        + hex_line("memory_map_best_conventional_end: ".spec_bytes(), Seq::empty(),
            (best_start + best_pages * 4096) as nat)
}

/// The descriptor at `k`, if there is an index.
pub open spec fn picked(descs: Seq<EfiMemoryDescriptor>, k: Option<usize>) -> Option<EfiMemoryDescriptor> {
    match k {
        Some(i) => Some(descs[i as int]),
        None => None,
    }
}

/// The report on the target range of `size` bytes at `target`: the range,
/// the descriptors holding its first and last bytes, and the largest
/// conventional-memory region with its end.
pub open spec fn target_report(descs: Seq<EfiMemoryDescriptor>, target: u64, size: u64, p: MemoryMapProbe) -> Seq<u8> {
    range_report(target, size) + descriptor_report("target_start_desc".spec_bytes(), picked(descs, p.start_desc))
        + descriptor_report("target_last_desc".spec_bytes(), picked(descs, p.last_desc))
        + best_report(p.best_start, p.best_pages)
}

fn pick(descs: &[EfiMemoryDescriptor], k: Option<usize>) -> (r: Option<&EfiMemoryDescriptor>)
    requires
        k matches Some(i) ==> i < descs@.len(),
    ensures
        match k {
            Some(i) => r == Some(&descs@[i as int]),
            None => r is None,
        },
{
    match k {
        Some(i) => Some(&descs[i]),
        None => None,
    }
}

fn print_range_lines(out: &mut Vec<u8>, target: u64, size: u64)
    requires
        target + size <= u64::MAX,
    ensures
        final(out)@ == old(out)@ + range_report(target, size),
{
    let empty: [u8; 0] = [];
    assert(empty@ =~= Seq::<u8>::empty());
    push_hex_line(out, "target_memory_range_start: ", &empty, target);
    push_hex_line(out, "target_memory_range_end: ", &empty, target + size);
    assert(final(out)@ =~= old(out)@ + range_report(target, size));
}

fn print_best_lines(out: &mut Vec<u8>, best_start: u64, best_pages: u64)
    requires
        best_start + best_pages * 4096 <= u64::MAX,
    ensures
        final(out)@ == old(out)@ + best_report(best_start, best_pages),
{
    let empty: [u8; 0] = [];
    assert(empty@ =~= Seq::<u8>::empty());
    push_hex_line(out, "memory_map_best_conventional_start: ", &empty, best_start);
    push_dec_line(out, "memory_map_best_conventional_pages: ", &empty, best_pages);
    push_hex_line(out, "memory_map_best_conventional_end: ", &empty, best_start + best_pages * 4096);
    assert(final(out)@ =~= old(out)@ + best_report(best_start, best_pages));
}

proof fn lemma_best_end_fits(descs: Seq<EfiMemoryDescriptor>, target: int, size: int, p: MemoryMapProbe)
    requires
        spec_memory_map_probe(descs, target, size, p),
        forall|k: int| 0 <= k < descs.len() ==> descriptor_end_fits(#[trigger] descs[k]),
    ensures
        p.best_start + p.best_pages * 4096 <= u64::MAX,
{
    if exists|k: int| 0 <= k < descs.len() && is_conventional(descs[k]) {
        let k = choose|k: int| is_best_conventional(descs, k) && p.best_start == descs[k].physical_start
            && p.best_pages == descs[k].number_of_pages;
        assert(descriptor_end_fits(descs[k]));
    }
}

/// Probes the target range of `size` bytes at `target` in the memory map
/// `descs` (see `target_memory_map_probe`) and appends the report on it.
pub fn print_target_memory_report(out: &mut Vec<u8>, descs: &[EfiMemoryDescriptor], target: u64, size: u64) -> (p: MemoryMapProbe)
    requires
        size > 0,
        target + size <= u64::MAX,
        forall|k: int| 0 <= k < descs@.len() ==> descriptor_end_fits(#[trigger] descs@[k]),
    ensures
        spec_memory_map_probe(descs@, target as int, size as int, p),
        final(out)@ == old(out)@ + target_report(descs@, target, size, p),
{
    let p = target_memory_map_probe(descs, target, size);
    proof {
        lemma_best_end_fits(descs@, target as int, size as int, p);
    }
    let ghost s0 = out@;
    print_range_lines(out, target, size);
    let first = pick(descs, p.start_desc);
    print_memory_descriptor(out, "target_start_desc", first);
    let ghost s1 = out@;
    assert(s1 == s0 + range_report(target, size) + descriptor_report("target_start_desc".spec_bytes(),
        picked(descs@, p.start_desc)));
    let last = pick(descs, p.last_desc);
    print_memory_descriptor(out, "target_last_desc", last);
    print_best_lines(out, p.best_start, p.best_pages);
    assert(out@ =~= s0 + target_report(descs@, target, size, p));
    p
}

} // verus!
