//! Multiboot: the header flags this kernel asks for and the structures the
//! boot loader hands over, including the memory map.
use vstd::prelude::*;

verus! {

/// Size of the boot stack.
pub const STACK_SIZE: usize = 0x20_0000;

/// Virtual address the kernel is mapped at.
pub const KERNEL_BASE: usize = 0xC000_0000;

/// Magic number of a multiboot header.
pub const MULTIBOOT_MAGIC: usize = 0x1bad_b002;

/// What a multiboot header asks the loader for, one bit each (symbols take two).
#[derive(Clone, Copy, Debug, PartialEq, Eq, Structural)]
pub enum MultibootFlag {
    Mem,
    BootDevice,
    Cmdline,
    Mods,
    Syms,
    Mmap,
    Drives,
    ConfigTable,
    Bootloader,
    Apm,
    Vbe,
    Framebuffer,
}

/// The bits of a flag.
pub open spec fn flag_bits(f: MultibootFlag) -> usize {
    match f {
        MultibootFlag::Mem => 0x1,
        MultibootFlag::BootDevice => 0x2,
        MultibootFlag::Cmdline => 0x4,
        MultibootFlag::Mods => 0x8,
        MultibootFlag::Syms => 0x30,
        MultibootFlag::Mmap => 0x40,
        MultibootFlag::Drives => 0x80,
        MultibootFlag::ConfigTable => 0x100,
        MultibootFlag::Bootloader => 0x200,
        MultibootFlag::Apm => 0x400,
        MultibootFlag::Vbe => 0x800,
        MultibootFlag::Framebuffer => 0x1000,
    }
}

impl MultibootFlag {
    /// The bits of this flag.
    pub fn value(self) -> (r: usize)
        ensures
            r == flag_bits(self),
    {
        match self {
            MultibootFlag::Mem => 0x1,
            MultibootFlag::BootDevice => 0x2,
            MultibootFlag::Cmdline => 0x4,
            MultibootFlag::Mods => 0x8,
            MultibootFlag::Syms => 0x30,
            MultibootFlag::Mmap => 0x40,
            MultibootFlag::Drives => 0x80,
            MultibootFlag::ConfigTable => 0x100,
            MultibootFlag::Bootloader => 0x200,
            MultibootFlag::Apm => 0x400,
            MultibootFlag::Vbe => 0x800,
            MultibootFlag::Framebuffer => 0x1000,
        }
    }

    /// The union of two flags' bits.
    pub fn bitor(self, rhs: Self) -> (r: usize)
        ensures
            r == flag_bits(self) | flag_bits(rhs),
    {
        self.value() | rhs.value()
    }
}

/// The flags of this kernel's header: memory sizes and boot device.
pub fn multiboot_flags() -> (r: usize)
    ensures
        r == 3,
{
    let r = MultibootFlag::Mem.bitor(MultibootFlag::BootDevice);
    assert(1usize | 2usize == 3usize) by (bit_vector);
    r
}

/// The header checksum: magic, flags and checksum add up to zero (mod 2^bits).
pub fn multiboot_checksum(flags: usize) -> (r: usize)
    requires
        MULTIBOOT_MAGIC + flags <= usize::MAX,
    ensures
        (MULTIBOOT_MAGIC + flags + r) % (usize::MAX as int + 1) == 0,
{
    let r = 0usize.wrapping_sub(MULTIBOOT_MAGIC + flags);
    proof {
        vstd::arithmetic::div_mod::lemma_mod_self_0(usize::MAX as int + 1);
    }
    r
}

/// The information structure a multiboot loader passes to the kernel.
#[derive(Clone, Copy, Debug, PartialEq, Eq)]
pub struct MultibootInfo {
    pub flags: u32,
    pub mem_lower: u32,
    pub mem_upper: u32,
    pub boot_device: u32,
    pub cmdline: u32,
    pub mods_count: u32,
    pub mods_addr: u32,
    pub syms: [u32; 4],
    pub mmap_length: u32,
    pub mmap_addr: u32,
    pub drives_length: u32,
    pub drives_addr: u32,
    pub config_table: u32,
    pub boot_loader_name: u32,
    pub apm_table: u32,
    pub vbe_control_info: u32,
    pub vbe_mode_info: u32,
    pub vbe_mode: u32,
    pub vbe_interface_seg: u16,
    pub vbe_interface_off: u16,
    pub vbe_interface_len: u16,
    pub framebuffer_addr: u32,
    pub framebuffer_pitch: u32,
    pub framebuffer_width: u32,
    pub framebuffer_height: u32,
    pub framebuffer_bpp: u8,
    pub framebuffer_type: u8,
    pub color_info: [u8; 5],
}

/// One entry of the loader's memory map. `size` counts the bytes of the
/// entry after the `size` field itself; `ty` 1 marks available RAM.
#[derive(Clone, Copy, Debug, PartialEq, Eq, Structural)]
pub struct MultibootMmapEntry {
    pub size: u32,
    pub addr: u64,
    pub len: u64,
    pub ty: u32,
}

/// Header of a memory map table.
#[derive(Clone, Copy, Debug, PartialEq, Eq, Structural)]
pub struct MemoryMap {
    pub htype: u32,
    pub size: u32,
    pub entry_size: u32,
    pub versions: u32,
}

/// The little-endian 32-bit number at `i`.
pub open spec fn le_u32(b: Seq<u8>, i: int) -> int {
    b[i] + 0x100 * b[i + 1] + 0x1_0000 * b[i + 2] + 0x100_0000 * b[i + 3]
}

/// The little-endian 64-bit number at `i`.
pub open spec fn le_u64(b: Seq<u8>, i: int) -> int {
    le_u32(b, i) + 0x1_0000_0000 * le_u32(b, i + 4)
}

/// The memory map entry encoded at byte `i`.
pub open spec fn entry_at(b: Seq<u8>, i: int) -> MultibootMmapEntry {
    MultibootMmapEntry {
        size: le_u32(b, i) as u32,
        addr: le_u64(b, i + 4) as u64,
        len: le_u64(b, i + 12) as u64,
        ty: le_u32(b, i + 20) as u32,
    }
}

/// The entries of a memory map from byte `off` on: each entry is followed by
/// the next one `size + 4` bytes further; the walk ends at the first entry
/// that does not fit in the bytes.
pub open spec fn mmap_entries(b: Seq<u8>, off: int) -> Seq<MultibootMmapEntry>
    decreases b.len() - off,
{
    if off < 0 || off + 24 > b.len() {
        Seq::empty()
    } else {
        let next = off + le_u32(b, off) + 4;
        seq![entry_at(b, off)] + if next > b.len() {
            Seq::empty()
        } else {
            mmap_entries(b, next)
        }
    }
}

fn read_u32(b: &[u8], i: usize) -> (r: u32)
    requires
        i + 4 <= b.len(),
    ensures
        r == le_u32(b@, i as int),
{
    (b[i] as u32) + (b[i + 1] as u32) * 0x100 + (b[i + 2] as u32) * 0x1_0000 + (b[i + 3] as u32) * 0x100_0000
}

fn read_u64(b: &[u8], i: usize) -> (r: u64)
    requires
        i + 8 <= b.len(),
    ensures
        r == le_u64(b@, i as int),
{
    let lo = read_u32(b, i) as u64;
    let hi = read_u32(b, i + 4) as u64;
    lo + hi * 0x1_0000_0000
}

/// Decodes the memory map the loader left in `bytes` (its `mmap_length`
/// bytes from `mmap_addr`).
pub fn parse_mmap(bytes: &[u8]) -> (r: Vec<MultibootMmapEntry>)
    ensures
        r@ == mmap_entries(bytes@, 0),
{
    let mut out: Vec<MultibootMmapEntry> = Vec::new();
    let mut off: usize = 0;
    while bytes.len() >= 24 && off <= bytes.len() - 24
        invariant
            off <= bytes@.len(),
            mmap_entries(bytes@, 0) == out@ + mmap_entries(bytes@, off as int),
        decreases bytes@.len() - off,
    {
        let size = read_u32(bytes, off);
        let entry = MultibootMmapEntry {
            size,
            addr: read_u64(bytes, off + 4),
            len: read_u64(bytes, off + 12),
            ty: read_u32(bytes, off + 20),
        };
        let ghost rest = mmap_entries(bytes@, off as int);
        out.push(entry);
        let step = size as usize;
        if step > bytes.len() - off - 4 {
            proof {
                assert(mmap_entries(bytes@, off + le_u32(bytes@, off as int) + 4) == Seq::<MultibootMmapEntry>::empty());
                assert(rest =~= seq![entry]);
            }
            assert(mmap_entries(bytes@, 0) =~= out@);
            return out;
        }
        off = off + step + 4;
        assert(mmap_entries(bytes@, 0) =~= out@ + mmap_entries(bytes@, off as int));
    }
    assert(mmap_entries(bytes@, off as int) == Seq::<MultibootMmapEntry>::empty());
    assert(mmap_entries(bytes@, 0) =~= out@);
    out
}

} // verus!
