use vstd::prelude::*;

verus! {

/// Executable formats told apart by their first bytes.
#[derive(Debug, Clone, Copy, PartialEq, Eq, Structural)]
pub enum ExecFormat {
    PE,
    ELF,
    MachO,
    COM,
    Script,
    Unknown,
}

/// An "MZ" header whose byte at 0x3C points at a "PE\0\0" signature.
pub open spec fn is_pe(h: Seq<u8>) -> bool {
    h.len() > 0x3C && h[0] == 0x4D && h[1] == 0x5A && h[0x3C] + 4 <= h.len() && h[h[0x3C] as int]
        == 0x50 && h[h[0x3C] + 1] == 0x45 && h[h[0x3C] + 2] == 0x00 && h[h[0x3C] + 3] == 0x00
}

/// The ELF magic "\x7FELF".
pub open spec fn has_elf_magic(h: Seq<u8>) -> bool {
    h.len() >= 4 && h[0] == 0x7F && h[1] == 0x45 && h[2] == 0x4C && h[3] == 0x46
}

/// One of the four Mach-O magics, 32 or 64 bit, either byte order.
pub open spec fn has_macho_magic(h: Seq<u8>) -> bool {
    h.len() >= 4 && ((h[0] == 0xFE && h[1] == 0xED && h[2] == 0xFA && (h[3] == 0xCE || h[3]
        == 0xCF)) || ((h[0] == 0xCF || h[0] == 0xCE) && h[1] == 0xFA && h[2] == 0xED && h[3]
        == 0xFE))
}

/// A short jump at the start, as DOS COM files begin.
pub open spec fn is_com(h: Seq<u8>) -> bool {
    h.len() > 1 && h[0] == 0xEB && h[1] < 0x10
}

/// Whether "#!/" occurs somewhere in the bytes.
pub open spec fn has_shebang(h: Seq<u8>) -> bool {
    exists|i: int| 0 <= i && i + 3 <= h.len() && #[trigger] h[i] == 0x23 && h[i + 1] == 0x21 && h[i + 2] == 0x2F
}

/// The format that a header shows. An ELF magic with an object type other
/// than executable (2) or shared (3) in the low byte of `e_type`, at offset
/// 16, is unknown.
pub open spec fn exec_format_of(h: Seq<u8>) -> ExecFormat {
    if is_pe(h) {
        ExecFormat::PE
    } else if has_elf_magic(h) {
        if h.len() > 16 && (h[16] == 2 || h[16] == 3) {
            ExecFormat::ELF
        } else {
            ExecFormat::Unknown
        }
    } else if has_macho_magic(h) {
        ExecFormat::MachO
    } else if is_com(h) {
        ExecFormat::COM
    } else if has_shebang(h) {
        ExecFormat::Script
    } else {
        ExecFormat::Unknown
    }
}

fn find_shebang(h: &[u8]) -> (r: bool)
    ensures
        r == has_shebang(h@),
{
    let n = h.len();
    if n < 3 {
        return false;
    }
    let mut i: usize = 0;
    while i <= n - 3
        invariant
            n == h@.len(),
            n >= 3,
            i <= n - 2,
            forall|j: int| 0 <= j < i ==> !(#[trigger] h@[j] == 0x23 && h@[j + 1] == 0x21 && h@[j + 2] == 0x2F),
        decreases n - i,
    {
        if h[i] == 0x23 && h[i + 1] == 0x21 && h[i + 2] == 0x2F {
            return true;
        }
        i += 1;
    }
    false
}

/// Classifies an executable by its first bytes.
pub fn identify_exec_format(header: &[u8]) -> (r: ExecFormat)
    ensures
        r == exec_format_of(header@),
{
    let n = header.len();
    if n > 0x3C && header[0] == 0x4D && header[1] == 0x5A {
        let off = header[0x3C] as usize;
        if off + 4 <= n && header[off] == 0x50 && header[off + 1] == 0x45 && header[off + 2] == 0x00
            && header[off + 3] == 0x00 {
            return ExecFormat::PE;
        }
    }
    if n >= 4 && header[0] == 0x7F && header[1] == 0x45 && header[2] == 0x4C && header[3] == 0x46 {
        if n > 16 && (header[16] == 2 || header[16] == 3) {
            return ExecFormat::ELF;
        }
        return ExecFormat::Unknown;
    }
    if n >= 4 && ((header[0] == 0xFE && header[1] == 0xED && header[2] == 0xFA && (header[3] == 0xCE
        || header[3] == 0xCF)) || ((header[0] == 0xCF || header[0] == 0xCE) && header[1] == 0xFA
        && header[2] == 0xED && header[3] == 0xFE)) {
        return ExecFormat::MachO;
    }
    if n > 1 && header[0] == 0xEB && header[1] < 0x10 {
        return ExecFormat::COM;
    }
    if find_shebang(header) {
        return ExecFormat::Script;
    }
    ExecFormat::Unknown
}

/// Display name of each format.
pub open spec fn format_name(format: ExecFormat) -> Seq<char> {
    match format {
        ExecFormat::PE => seq!['P', 'E'],
        ExecFormat::ELF => seq!['E', 'L', 'F'],
        ExecFormat::MachO => seq!['M', 'a', 'c', 'h', '-', 'O'],
        ExecFormat::COM => seq!['C', 'O', 'M'],
        ExecFormat::Script => seq!['S', 'c', 'r', 'i', 'p', 't'],
        ExecFormat::Unknown => seq!['U', 'n', 'k', 'n', 'o', 'w', 'n'],
    }
}

/// The display name of a format.
pub fn get_format_name(format: ExecFormat) -> (r: &'static str)
    ensures
        r@ == format_name(format),
{
    let r = match format {
        ExecFormat::PE => "PE",
        ExecFormat::ELF => "ELF",
        ExecFormat::MachO => "Mach-O",
        ExecFormat::COM => "COM",
        ExecFormat::Script => "Script",
        ExecFormat::Unknown => "Unknown",
    };
    proof {
        reveal_strlit("PE");
        reveal_strlit("ELF");
        reveal_strlit("Mach-O");
        reveal_strlit("COM");
        reveal_strlit("Script");
        reveal_strlit("Unknown");
        assert(r@ =~= format_name(format));
    }
    r
}

} // verus!
