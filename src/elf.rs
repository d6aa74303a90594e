use crate::bytes::{le_value, read_u16_le, read_u32_le, read_u64_le};
use vstd::prelude::*;

verus! {

/// The size of an ELF64 file header.
pub const SIZEOF_EHDR: usize = 64;

/// The size of an ELF64 program header.
pub const SIZEOF_PHDR: usize = 56;

/// The program header type of a loadable segment.
pub const PT_LOAD: u32 = 1;

/// ELF image metadata.
#[derive(Clone, Copy, Debug, PartialEq, Eq, Structural, Hash)]
pub struct ElfMetadata {
    /// The entry virtual address.
    pub entry_address: u64,
}

/// The little-endian field of `len` bytes at `off`.
pub open spec fn field(image: Seq<u8>, off: int, len: int) -> nat {
    le_value(image.subrange(off, off + len))
}

/// Applies the program header at `off` to the memory `m`: a loadable
/// segment's file bytes are copied to the start of memory. `None` when the
/// header or the segment lies outside the image or the segment outside
/// memory.
pub open spec fn apply_segment(image: Seq<u8>, off: int, m: Seq<u8>) -> Option<Seq<u8>> {
    if off + 56 > image.len() {
        None
    } else if field(image, off, 4) != 1 {
        Some(m)
    } else {
        let offset = field(image, off + 8, 8) as int;
        let filesz = field(image, off + 32, 8) as int;
        if offset + filesz > image.len() || filesz > m.len() {
            None
        } else {
            Some(image.subrange(offset, offset + filesz) + m.subrange(filesz, m.len() as int))
        }
    }
}

/// The memory after the first `k` program headers from `phoff` on.
pub open spec fn load_segments(image: Seq<u8>, phoff: int, k: nat, m: Seq<u8>) -> Option<Seq<u8>>
    decreases k,
{
    if k == 0 {
        Some(m)
    } else {
        match load_segments(image, phoff, (k - 1) as nat, m) {
            Some(m2) => apply_segment(image, phoff + 56 * (k - 1), m2),
            None => None,
        }
    }
}

/// `n` zero bytes.
pub open spec fn zeros(n: nat) -> Seq<u8> {
    Seq::new(n, |i: int| 0u8)
}

/// The memory image and entry address that `load` gives: `memory_limit`
/// megabytes of zeros with the loadable segments copied in; `None` for a
/// truncated header, a program header table outside the image, a
/// segment outside the image or memory, or a memory size of zero or over
/// `usize::MAX`.
pub open spec fn load_spec(image: Seq<u8>, memory_limit: nat) -> Option<(Seq<u8>, u64)> {
    let size = memory_limit * 1024 * 1024;
    if image.len() < 64 || size == 0 || size > usize::MAX {
        None
    } else {
        let phoff = field(image, 32, 8) as int;
        let phnum = field(image, 56, 2);
        if phoff >= image.len() {
            None
        } else {
            match load_segments(image, phoff, phnum, zeros(size)) {
                Some(m) => Some((m, field(image, 24, 8) as u64)),
                None => None,
            }
        }
    }
}

/// Once a program header fails, the whole table fails.
proof fn lemma_load_stays_none(image: Seq<u8>, phoff: int, k: nat, n: nat, m: Seq<u8>)
    requires
        k <= n,
        load_segments(image, phoff, k, m) is None,
    ensures
        load_segments(image, phoff, n, m) is None,
    decreases n - k,
{
    if k < n {
        lemma_load_stays_none(image, phoff, k + 1, n, m);
    }
}

/// Loads an ELF64 image into a flat memory of `memory_limit` megabytes.
pub fn load(image: &[u8], memory_limit: usize) -> (r: Option<(Vec<u8>, ElfMetadata)>)
    ensures
        match load_spec(image@, memory_limit as nat) {
            Some((m, entry)) => r is Some && r->Some_0.0@ == m && r->Some_0.1.entry_address == entry,
            None => r is None,
        },
{
    if image.len() < SIZEOF_EHDR {
        return None;
    }
    let size: usize = match memory_limit.checked_mul(1024 * 1024) {
        Some(v) => v,
        None => {
            return None;
        },
    };
    if size == 0 {
        return None;
    }
    let e_entry = read_u64_le(vstd::slice::slice_subrange(image, 24, 32));
    let e_phoff = read_u64_le(vstd::slice::slice_subrange(image, 32, 40));
    let e_phnum = read_u16_le(vstd::slice::slice_subrange(image, 56, 58));
    proof {
        assert(image@.subrange(24, 32) =~= image@.subrange(24, 32).subrange(0, 8));
        assert(image@.subrange(32, 40) =~= image@.subrange(32, 40).subrange(0, 8));
        assert(image@.subrange(56, 58) =~= image@.subrange(56, 58).subrange(0, 2));
    }
    if e_phoff >= image.len() as u64 {
        return None;
    }
    let phoff = e_phoff as usize;
    let mut memory: Vec<u8> = Vec::new();
    let mut i: usize = 0;
    while i < size
        invariant
            0 <= i <= size,
            memory@ =~= zeros(i as nat),
        decreases size - i,
    {
        memory.push(0);
        i += 1;
    }
    let ghost zeros = memory@;
    proof {
        assert(image@.len() == image.len());
        assert(load_spec(image@, memory_limit as nat) == match load_segments(image@, phoff as int, e_phnum as nat, zeros) {
            Some(m) => Some((m, e_entry)),
            None => None::<(Seq<u8>, u64)>,
        });
    }
    let mut k: u16 = 0;
    while k < e_phnum
        invariant
            0 <= k <= e_phnum,
            phoff < image@.len(),
            memory@.len() == size,
            load_segments(image@, phoff as int, k as nat, zeros) == Some(memory@),
            e_phnum == field(image@, 56, 2),
            image@.len() == image.len(),
            load_spec(image@, memory_limit as nat) == match load_segments(image@, phoff as int, e_phnum as nat, zeros) {
                Some(m) => Some((m, e_entry)),
                None => None::<(Seq<u8>, u64)>,
            },
        decreases e_phnum - k,
    {
        let off: usize = match phoff.checked_add(56 * (k as usize)) {
            Some(v) => v,
            None => {
                proof {
                    assert(load_segments(image@, phoff as int, (k + 1) as nat, zeros) == apply_segment(image@, phoff + 56 * k, memory@));
                    lemma_load_stays_none(image@, phoff as int, (k + 1) as nat, e_phnum as nat, zeros);
                }
                return None;
            },
        };
        if off > image.len() || image.len() - off < SIZEOF_PHDR {
            proof {
                assert(load_segments(image@, phoff as int, (k + 1) as nat, zeros) == apply_segment(image@, phoff + 56 * k, memory@));
                lemma_load_stays_none(image@, phoff as int, (k + 1) as nat, e_phnum as nat, zeros);
            }
            return None;
        }
        let p_type = read_u32_le(vstd::slice::slice_subrange(image, off, off + 4));
        proof {
            assert(image@.subrange(off as int, off + 4) =~= image@.subrange(off as int, off + 4).subrange(0, 4));
        }
        if p_type == PT_LOAD {
            let p_offset = read_u64_le(vstd::slice::slice_subrange(image, off + 8, off + 16));
            let p_filesz = read_u64_le(vstd::slice::slice_subrange(image, off + 32, off + 40));
            proof {
                assert(image@.subrange(off + 8, off + 16) =~= image@.subrange(off + 8, off + 16).subrange(0, 8));
                assert(image@.subrange(off + 32, off + 40) =~= image@.subrange(off + 32, off + 40).subrange(0, 8));
            }
            if p_offset > image.len() as u64 || p_filesz > image.len() as u64 - p_offset || p_filesz > size as u64 {
                proof {
                    assert(load_segments(image@, phoff as int, (k + 1) as nat, zeros) == apply_segment(image@, phoff + 56 * k, memory@));
                    lemma_load_stays_none(image@, phoff as int, (k + 1) as nat, e_phnum as nat, zeros);
                }
                return None;
            }
            let start = p_offset as usize;
            let len = p_filesz as usize;
            let ghost before = memory@;
            let mut b: usize = 0;
            while b < len
                invariant
                    0 <= b <= len,
                    len <= size,
                    start + len <= image@.len(),
                    memory@.len() == size,
                    image@.len() == image.len(),
                    before.len() == size,
                    memory@ =~= image@.subrange(start as int, start + b) + before.subrange(b as int, size as int),
                decreases len - b,
            {
                memory.set(b, image[start + b]);
                b += 1;
            }
        }
        k += 1;
    }
    Some((memory, ElfMetadata { entry_address: e_entry }))
}

} // verus!
