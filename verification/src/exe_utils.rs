use vstd::prelude::*;
use vstd::string::StringSliceAdditionalSpecFns;
use crate::text::{concat, decimal_string, decimal};

verus! {

/// Why a section could not be extracted from an executable.
#[derive(Debug)]
pub enum ExtractSectionError {
    /// The file is well formed but has no section with the requested name.
    SectionNotFound,
    /// The file is malformed or unsupported.
    Other(String),
}

/// Whether `n` bytes starting at `off` lie within the data.
pub open spec fn in_range(s: Seq<u8>, off: int, n: int) -> bool {
    0 <= off && off + n <= s.len()
}

/// The unsigned little-endian number held in `width` bytes starting at `off`.
pub open spec fn le_value(s: Seq<u8>, off: int, width: nat) -> int
    decreases width,
{
    if width == 0 {
        0
    } else {
        s[off] + 256 * le_value(s, off + 1, (width - 1) as nat)
    }
}

/// The `width` little-endian bytes of a number (its low bytes, if it does not fit).
pub open spec fn le_bytes(v: int, width: nat) -> Seq<u8>
    decreases width,
{
    if width == 0 {
        Seq::empty()
    } else {
        seq![(v % 256) as u8] + le_bytes(v / 256, (width - 1) as nat)
    }
}

/// A number written with `width` bytes takes `width` bytes.
pub proof fn lemma_le_bytes_len(v: int, width: nat)
    ensures
        le_bytes(v, width).len() == width,
    decreases width,
{
    if width > 0 {
        lemma_le_bytes_len(v / 256, (width - 1) as nat);
    }
}

/// The data with the bytes from `off` on replaced by `bytes`.
pub open spec fn overwrite(s: Seq<u8>, off: int, bytes: Seq<u8>) -> Seq<u8> {
    s.take(off) + bytes + s.skip(off + bytes.len())
}

/// The data with a little-endian number of `width` bytes written at `off`.
pub open spec fn write_le(s: Seq<u8>, off: int, width: nat, v: int) -> Seq<u8> {
    overwrite(s, off, le_bytes(v, width))
}

/// The message of a read that runs off the end of the data.
pub open spec fn read_failure(size: nat, offset: nat) -> Seq<char> {
    "Failed to read "@ + decimal(size) + " bytes at "@ + decimal(offset)
}

/// The message of a write that runs off the end of the data.
pub open spec fn write_failure(size: nat, offset: nat) -> Seq<char> {
    "Failed to write "@ + decimal(size) + " bytes at "@ + decimal(offset)
}

fn read_error(size: u64, offset: u64) -> (r: String)
    ensures
        r@ == read_failure(size as nat, offset as nat),
{
    let a = decimal_string(size);
    let b = decimal_string(offset);
    let r = concat(&["Failed to read ", a.as_str(), " bytes at ", b.as_str()]);
    proof { reveal_with_fuel(crate::text::concat_all, 5); }
    r
}

fn write_error(size: u64, offset: u64) -> (r: String)
    ensures
        r@ == write_failure(size as nat, offset as nat),
{
    let a = decimal_string(size);
    let b = decimal_string(offset);
    let r = concat(&["Failed to write ", a.as_str(), " bytes at ", b.as_str()]);
    proof { reveal_with_fuel(crate::text::concat_all, 5); }
    r
}

/// Whether `n` bytes at `offset` lie within the data, checked without overflow.
fn fits(len: usize, offset: u64, n: u64) -> (r: bool)
    ensures
        r == (offset + n <= len),
{
    let len64 = len as u64;
    offset <= len64 && len64 - offset >= n
}

/// Reads a byte.
pub fn read_u8(bytes: &[u8], offset: u64) -> (r: Result<u8, String>)
    ensures
        r is Ok <==> in_range(bytes@, offset as int, 1),
        r matches Ok(v) ==> v == le_value(bytes@, offset as int, 1),
        r matches Err(e) ==> e@ == read_failure(1, offset as nat),
{
    if !fits(bytes.len(), offset, 1) {
        return Err(read_error(1, offset));
    }
    let o = offset as usize;
    proof { reveal_with_fuel(le_value, 2); }
    Ok(bytes[o])
}

/// Reads a little-endian u16.
pub fn read_u16(bytes: &[u8], offset: u64) -> (r: Result<u16, String>)
    ensures
        r is Ok <==> in_range(bytes@, offset as int, 2),
        r matches Ok(v) ==> v == le_value(bytes@, offset as int, 2),
        r matches Err(e) ==> e@ == read_failure(2, offset as nat),
{
    if !fits(bytes.len(), offset, 2) {
        return Err(read_error(2, offset));
    }
    let o = offset as usize;
    proof { reveal_with_fuel(le_value, 3); }
    Ok(bytes[o] as u16 + 256 * (bytes[o + 1] as u16))
}

/// Reads a little-endian u32.
pub fn read_u32(bytes: &[u8], offset: u64) -> (r: Result<u32, String>)
    ensures
        r is Ok <==> in_range(bytes@, offset as int, 4),
        r matches Ok(v) ==> v == le_value(bytes@, offset as int, 4),
        r matches Err(e) ==> e@ == read_failure(4, offset as nat),
{
    if !fits(bytes.len(), offset, 4) {
        return Err(read_error(4, offset));
    }
    let o = offset as usize;
    proof { reveal_with_fuel(le_value, 5); }
    Ok(bytes[o] as u32 + 256 * (bytes[o + 1] as u32) + 65536 * (bytes[o + 2] as u32)
        + 16777216 * (bytes[o + 3] as u32))
}

/// Reads a little-endian u64.
pub fn read_u64(bytes: &[u8], offset: u64) -> (r: Result<u64, String>)
    ensures
        r is Ok <==> in_range(bytes@, offset as int, 8),
        r matches Ok(v) ==> v == le_value(bytes@, offset as int, 8),
        r matches Err(e) ==> e@ == read_failure(8, offset as nat),
{
    if !fits(bytes.len(), offset, 8) {
        return Err(read_error(8, offset));
    }
    let o = offset as usize;
    proof { reveal_with_fuel(le_value, 9); }
    let lo = bytes[o] as u64 + 256 * (bytes[o + 1] as u64) + 65536 * (bytes[o + 2] as u64)
        + 16777216 * (bytes[o + 3] as u64);
    let hi = bytes[o + 4] as u64 + 256 * (bytes[o + 5] as u64) + 65536 * (bytes[o + 6] as u64)
        + 16777216 * (bytes[o + 7] as u64);
    Ok(lo + 4294967296 * hi)
}

/// Writes bytes over the data at an offset, if they fit.
fn write_bytes(bytes: &mut Vec<u8>, offset: u64, val: &[u8]) -> (r: Result<(), String>)
    ensures
        r is Ok <==> in_range(old(bytes)@, offset as int, val@.len() as int),
        r is Ok ==> final(bytes)@ == overwrite(old(bytes)@, offset as int, val@),
        r matches Err(e) ==> final(bytes)@ == old(bytes)@ && e@ == write_failure(val@.len(), offset as nat),
{
    if !fits(bytes.len(), offset, val.len() as u64) {
        return Err(write_error(val.len() as u64, offset));
    }
    let offset = offset as usize;
    let mut i: usize = 0;
    while i < val.len()
        invariant
            0 <= i <= val@.len(),
            offset + val@.len() <= bytes.len(),
            bytes@.len() == old(bytes)@.len(),
            forall|j: int| 0 <= j < bytes@.len() ==> #[trigger] bytes@[j] == (
                if offset <= j < offset + i { val@[j - offset] } else { old(bytes)@[j] }),
        decreases val.len() - i,
    {
        bytes.set(offset + i, val[i]);
        i = i + 1;
    }
    assert(bytes@ =~= overwrite(old(bytes)@, offset as int, val@));
    Ok(())
}

/// The `width` little-endian bytes of a value.
pub fn le_bytes_of(v: u64, width: usize) -> (r: Vec<u8>)
    ensures
        r@ == le_bytes(v as int, width as nat),
{
    let mut r: Vec<u8> = Vec::new();
    let mut cur: u64 = v;
    let mut i: usize = 0;
    while i < width
        invariant
            i <= width,
            le_bytes(v as int, width as nat) == r@ + le_bytes(cur as int, (width - i) as nat),
        decreases width - i,
    {
        let ghost rest = le_bytes((cur / 256) as int, (width - i - 1) as nat);
        assert(le_bytes(cur as int, (width - i) as nat) == seq![(cur % 256) as u8] + rest);
        r.push((cur % 256) as u8);
        cur = cur / 256;
        i = i + 1;
    }
    assert(r@ + le_bytes(cur as int, 0) =~= r@);
    r
}

/// Writes a little-endian u16.
pub fn write_u16(bytes: &mut Vec<u8>, offset: u64, val: u16) -> (r: Result<(), String>)
    ensures
        r is Ok <==> in_range(old(bytes)@, offset as int, 2),
        r is Ok ==> final(bytes)@ == write_le(old(bytes)@, offset as int, 2, val as int),
        r matches Err(e) ==> final(bytes)@ == old(bytes)@ && e@ == write_failure(2, offset as nat),
{
    let b = le_bytes_of(val as u64, 2);
    proof { lemma_le_bytes_len(val as int, 2); }
    write_bytes(bytes, offset, b.as_slice())
}

/// Writes a little-endian u32.
pub fn write_u32(bytes: &mut Vec<u8>, offset: u64, val: u32) -> (r: Result<(), String>)
    ensures
        r is Ok <==> in_range(old(bytes)@, offset as int, 4),
        r is Ok ==> final(bytes)@ == write_le(old(bytes)@, offset as int, 4, val as int),
        r matches Err(e) ==> final(bytes)@ == old(bytes)@ && e@ == write_failure(4, offset as nat),
{
    let b = le_bytes_of(val as u64, 4);
    proof { lemma_le_bytes_len(val as int, 4); }
    write_bytes(bytes, offset, b.as_slice())
}

/// Writes a little-endian u64.
pub fn write_u64(bytes: &mut Vec<u8>, offset: u64, val: u64) -> (r: Result<(), String>)
    ensures
        r is Ok <==> in_range(old(bytes)@, offset as int, 8),
        r is Ok ==> final(bytes)@ == write_le(old(bytes)@, offset as int, 8, val as int),
        r matches Err(e) ==> final(bytes)@ == old(bytes)@ && e@ == write_failure(8, offset as nat),
{
    let b = le_bytes_of(val, 8);
    proof { lemma_le_bytes_len(val as int, 8); }
    write_bytes(bytes, offset, b.as_slice())
}

/// The length of the null-terminated string at `off`, counting from `size` bytes in: reading
/// stops at a zero byte or once `max` bytes (at least one) have been read, and fails if it runs
/// off the end of the data.
pub open spec fn string_len_from(s: Seq<u8>, off: int, max: int, size: int) -> Option<int>
    decreases max - size,
{
    if off + size < 0 || off + size >= s.len() {
        None
    } else if s[off + size] == 0 {
        Some(size)
    } else if size + 1 >= max {
        Some(size + 1)
    } else {
        string_len_from(s, off, max, size + 1)
    }
}

/// The message of a string read that runs off the end of the data.
pub open spec fn string_failure(offset: nat) -> Seq<char> {
    "Failed to read string at offset "@ + decimal(offset)
}

/// Reads a null-terminated string starting at the given offset, stopping after `max_size` bytes
/// (at least one) if no null terminator comes first.
pub fn read_string(bytes: &[u8], offset: u64, max_size: usize) -> (r: Result<&[u8], String>)
    ensures
        r is Ok <==> string_len_from(bytes@, offset as int, max_size as int, 0) is Some,
        r matches Err(e) ==> e@ == string_failure(offset as nat),
        r matches Ok(s) ==> s@ == bytes@.subrange(offset as int,
            offset + string_len_from(bytes@, offset as int, max_size as int, 0)->0),
{
    let mut size: usize = 0;
    loop
        invariant_except_break
            size == 0 || size < max_size,
            size > 0 ==> offset + size <= bytes@.len(),
            string_len_from(bytes@, offset as int, max_size as int, 0)
                == string_len_from(bytes@, offset as int, max_size as int, size as int),
        ensures
            offset + size <= bytes.len(),
            string_len_from(bytes@, offset as int, max_size as int, 0) == Some(size as int),
        decreases max_size - size,
    {
        if !fits(bytes.len(), offset, size as u64 + 1) {
            let mut msg = String::from_str("Failed to read string at offset ");
            let o = decimal_string(offset);
            msg.append(o.as_str());
            proof { reveal_strlit("Failed to read string at offset "); }
            return Err(msg);
        }
        let c = bytes[offset as usize + size];
        if c == 0 {
            break;
        }
        if size + 1 >= max_size {
            size = size + 1;
            break;
        }
        size = size + 1;
    }
    let o = offset as usize;
    Ok(&bytes[o..o + size])
}


/// The string read at `offset` with at most `max` bytes, as `read_string` reads it.
pub open spec fn string_at(s: Seq<u8>, offset: int, max: int) -> Option<Seq<u8>> {
    match string_len_from(s, offset, max, 0) {
        Some(n) => Some(s.subrange(offset, offset + n)),
        None => None,
    }
}

/// The bytes of a section: `size` bytes from `offset`, cut short at the end of the data.
pub open spec fn section_data(s: Seq<u8>, offset: int, size: int) -> Seq<u8> {
    s.subrange(offset, if offset + size < s.len() { offset + size } else { s.len() as int })
}

/// What looking up a named section in an executable finds.
pub enum SectionLookup {
    /// The contents of the first section with that name.
    Found(Seq<u8>),
    /// The file is well formed as far as it was read, and no section has that name.
    NotFound,
    /// A field needed on the way lies outside the file, or the file is not of the expected kind,
    /// with the message that says so.
    Malformed(Seq<char>),
}

/// How checking the start of an ELF file ends: it must be a 64-bit little-endian version 1
/// file.
pub open spec fn elf_header_check(s: Seq<u8>) -> Result<(), Seq<char>> {
    if s.len() < 4 {
        Err(read_failure(4, 0))
    } else if s.subrange(0, 4) != seq![0x7fu8, 0x45u8, 0x4cu8, 0x46u8] {
        Err("Invalid ELF magic"@)
    } else if s.len() < 5 {
        Err(read_failure(1, 4))
    } else if s[4] != 2 {
        Err("Only 64-bit ELF files are supported"@)
    } else if s.len() < 6 {
        Err(read_failure(1, 5))
    } else if s[5] != 1 {
        Err("Only little-endian ELF files are supported"@)
    } else if s.len() < 7 {
        Err(read_failure(1, 6))
    } else if s[6] != 1 {
        Err("Only V1 ELF files are supported"@)
    } else {
        Ok(())
    }
}

/// How checking the signature of a PE file ends: the offset of the COFF file header, which
/// follows the `PE\0\0` signature that the DOS header points to.
pub open spec fn pe_signature_check(s: Seq<u8>) -> Result<int, Seq<char>> {
    if !in_range(s, 0x3c, 4) {
        Err(read_failure(4, 0x3c))
    } else if !in_range(s, le_value(s, 0x3c, 4), 4) {
        Err(read_failure(4, le_value(s, 0x3c, 4) as nat))
    } else if s.subrange(le_value(s, 0x3c, 4), le_value(s, 0x3c, 4) + 4) != seq![0x50u8, 0x45u8, 0u8, 0u8] {
        Err("Invalid PE signature"@)
    } else {
        Ok(le_value(s, 0x3c, 4) + 4)
    }
}

fn err_text(msg: &str) -> (r: String)
    ensures
        r@ == msg@,
{
    String::from_str(msg)
}

/// Checks that the data starts like a 64-bit little-endian version 1 ELF file.
pub fn validate_elf_header(elf_bytes: &[u8]) -> (r: Result<(), String>)
    ensures
        r is Ok <==> elf_header_check(elf_bytes@) is Ok,
        r matches Err(e) ==> elf_header_check(elf_bytes@) == Err::<(), Seq<char>>(e@),
{
    if elf_bytes.len() < 4 {
        return Err(read_error(4, 0));
    }
    if elf_bytes[0] != 0x7f || elf_bytes[1] != 0x45 || elf_bytes[2] != 0x4c || elf_bytes[3] != 0x46 {
        proof {
            if elf_bytes@.subrange(0, 4) == seq![0x7fu8, 0x45u8, 0x4cu8, 0x46u8] {
                assert(elf_bytes@.subrange(0, 4)[0] == elf_bytes@[0]);
                assert(elf_bytes@.subrange(0, 4)[1] == elf_bytes@[1]);
                assert(elf_bytes@.subrange(0, 4)[2] == elf_bytes@[2]);
                assert(elf_bytes@.subrange(0, 4)[3] == elf_bytes@[3]);
            }
        }
        return Err(err_text("Invalid ELF magic"));
    }
    assert(elf_bytes@.subrange(0, 4) =~= seq![0x7fu8, 0x45u8, 0x4cu8, 0x46u8]);
    if elf_bytes.len() < 5 {
        return Err(read_error(1, 4));
    }
    if elf_bytes[4] != 2 {
        return Err(err_text("Only 64-bit ELF files are supported"));
    }
    if elf_bytes.len() < 6 {
        return Err(read_error(1, 5));
    }
    if elf_bytes[5] != 1 {
        return Err(err_text("Only little-endian ELF files are supported"));
    }
    if elf_bytes.len() < 7 {
        return Err(read_error(1, 6));
    }
    if elf_bytes[6] != 1 {
        return Err(err_text("Only V1 ELF files are supported"));
    }
    Ok(())
}

/// Checks the PE signature and returns the offset of the COFF file header that follows it.
pub fn validate_pe_signature(pe_bytes: &[u8]) -> (r: Result<u64, String>)
    ensures
        r is Ok <==> pe_signature_check(pe_bytes@) is Ok,
        r matches Ok(v) ==> pe_signature_check(pe_bytes@) == Ok::<int, Seq<char>>(v as int) && v <= 0x1_0000_0003,
        r matches Err(e) ==> pe_signature_check(pe_bytes@) == Err::<int, Seq<char>>(e@),
{
    let signature_offset = read_u32(pe_bytes, 0x3c)?;
    let so = signature_offset as u64;
    if !fits(pe_bytes.len(), so, 4) {
        return Err(read_error(4, so));
    }
    let o = so as usize;
    if pe_bytes[o] != 0x50 || pe_bytes[o + 1] != 0x45 || pe_bytes[o + 2] != 0 || pe_bytes[o + 3] != 0 {
        proof {
            let sub = pe_bytes@.subrange(o as int, o + 4);
            if sub == seq![0x50u8, 0x45u8, 0u8, 0u8] {
                assert(sub[0] == pe_bytes@[o as int]);
                assert(sub[1] == pe_bytes@[o + 1]);
                assert(sub[2] == pe_bytes@[o + 2]);
                assert(sub[3] == pe_bytes@[o + 3]);
            }
        }
        return Err(err_text("Invalid PE signature"));
    }
    assert(pe_bytes@.subrange(o as int, o + 4) =~= seq![0x50u8, 0x45u8, 0u8, 0u8]);
    Ok(so + 4)
}


/// The message for a section whose data would lie outside the file.
pub open spec fn outside_text() -> Seq<char> {
    "Section data lies outside the file"@
}

/// Looks through the PE section table, from entry `i` on, for a section named `name`.
pub open spec fn pe_section_search(s: Seq<u8>, name: Seq<u8>, headers: int, count: int, i: int) -> SectionLookup
    decreases count - i,
{
    if i >= count {
        SectionLookup::NotFound
    } else {
        let h = headers + i * 40;
        match string_at(s, h, 8) {
            None => SectionLookup::Malformed(string_failure(h as nat)),
            Some(n) => if n == name {
                if !in_range(s, h + 16, 4) {
                    SectionLookup::Malformed(read_failure(4, (h + 16) as nat))
                } else if !in_range(s, h + 20, 4) {
                    SectionLookup::Malformed(read_failure(4, (h + 20) as nat))
                } else if le_value(s, h + 20, 4) > s.len() {
                    SectionLookup::Malformed(outside_text())
                } else {
                    SectionLookup::Found(section_data(s, le_value(s, h + 20, 4), le_value(s, h + 16, 4)))
                }
            } else {
                pe_section_search(s, name, headers, count, i + 1)
            },
        }
    }
}

/// Looks up a section of a PE file by name: the section table follows the optional header,
/// whose size the COFF file header gives along with the number of sections.
pub open spec fn pe_lookup(s: Seq<u8>, name: Seq<u8>) -> SectionLookup {
    match pe_signature_check(s) {
        Err(m) => SectionLookup::Malformed(m),
        Ok(fh) => if !in_range(s, fh + 2, 2) {
            SectionLookup::Malformed(read_failure(2, (fh + 2) as nat))
        } else if !in_range(s, fh + 16, 2) {
            SectionLookup::Malformed(read_failure(2, (fh + 16) as nat))
        } else {
            pe_section_search(s, name, fh + 20 + le_value(s, fh + 16, 2), le_value(s, fh + 2, 2), 0)
        },
    }
}

/// Looks through the ELF section header table, from entry `i` on, for a section named `name`,
/// the names being held in the string table at `names`. Offsets beyond 64 bits lie outside the
/// file.
pub open spec fn elf_section_search(
    s: Seq<u8>, name: Seq<u8>, table: int, entry_size: int, count: int, names: int, i: int,
) -> SectionLookup
    decreases count - i,
{
    if i >= count {
        SectionLookup::NotFound
    } else {
        let h = table + i * entry_size;
        if h > u64::MAX {
            SectionLookup::Malformed(outside_text())
        } else if !in_range(s, h, 4) {
            SectionLookup::Malformed(read_failure(4, h as nat))
        } else if names + le_value(s, h, 4) > u64::MAX {
            SectionLookup::Malformed(outside_text())
        } else {
            match string_at(s, names + le_value(s, h, 4), 32) {
                None => SectionLookup::Malformed(string_failure((names + le_value(s, h, 4)) as nat)),
                Some(n) => if n == name {
                    if h + 0x18 > u64::MAX || h + 0x20 > u64::MAX {
                        SectionLookup::Malformed(outside_text())
                    } else if !in_range(s, h + 0x18, 8) {
                        SectionLookup::Malformed(read_failure(8, (h + 0x18) as nat))
                    } else if !in_range(s, h + 0x20, 8) {
                        SectionLookup::Malformed(read_failure(8, (h + 0x20) as nat))
                    } else if le_value(s, h + 0x18, 8) > s.len() {
                        SectionLookup::Malformed(outside_text())
                    } else {
                        SectionLookup::Found(section_data(s, le_value(s, h + 0x18, 8), le_value(s, h + 0x20, 8)))
                    }
                } else {
                    elf_section_search(s, name, table, entry_size, count, names, i + 1)
                },
            }
        }
    }
}

/// Looks up a section of an ELF file by name: the file header gives the offset, entry size and
/// length of the section header table, and which section holds the section names.
pub open spec fn elf_lookup(s: Seq<u8>, name: Seq<u8>) -> SectionLookup {
    match elf_header_check(s) {
        Err(m) => SectionLookup::Malformed(m),
        Ok(_) => if !in_range(s, 0x28, 8) {
            SectionLookup::Malformed(read_failure(8, 0x28))
        } else if !in_range(s, 0x3a, 2) {
            SectionLookup::Malformed(read_failure(2, 0x3a))
        } else if !in_range(s, 0x3c, 2) {
            SectionLookup::Malformed(read_failure(2, 0x3c))
        } else if !in_range(s, 0x3e, 2) {
            SectionLookup::Malformed(read_failure(2, 0x3e))
        } else {
            let table = le_value(s, 0x28, 8);
            let entry_size = le_value(s, 0x3a, 2);
            let names_at = table + le_value(s, 0x3e, 2) * entry_size + 0x18;
            if names_at > u64::MAX {
                SectionLookup::Malformed(outside_text())
            } else if !in_range(s, names_at, 8) {
                SectionLookup::Malformed(read_failure(8, names_at as nat))
            } else {
                elf_section_search(s, name, table, entry_size, le_value(s, 0x3c, 2), le_value(s, names_at, 8), 0)
            }
        },
    }
}

/// What extracting a section returns, given what looking it up finds.
pub open spec fn extract_outcome(r: Result<Vec<u8>, ExtractSectionError>, found: SectionLookup) -> bool {
    match found {
        SectionLookup::Found(d) => r matches Ok(v) && v@ == d,
        SectionLookup::NotFound => r matches Err(ExtractSectionError::SectionNotFound),
        SectionLookup::Malformed(m) => r matches Err(ExtractSectionError::Other(e)) && e@ == m,
    }
}

/// Whether two byte strings are equal.
fn bytes_equal(a: &[u8], b: &[u8]) -> (r: bool)
    ensures
        r == (a@ == b@),
{
    if a.len() != b.len() {
        return false;
    }
    let mut i: usize = 0;
    while i < a.len()
        invariant
            a@.len() == b@.len(),
            i <= a@.len(),
            forall|j: int| 0 <= j < i ==> a@[j] == b@[j],
        decreases a.len() - i,
    {
        if a[i] != b[i] {
            return false;
        }
        i = i + 1;
    }
    assert(a@ =~= b@);
    true
}

/// The bytes of a section, cut from the data: `size` bytes from `offset`, or fewer at the end.
fn cut_section(mut bytes: Vec<u8>, offset: u64, size: u64) -> (r: Vec<u8>)
    requires
        offset <= bytes.len(),
    ensures
        r@ == section_data(bytes@, offset as int, size as int),
{
    let ghost s = bytes@;
    let mut x = bytes.split_off(offset as usize);
    if size < x.len() as u64 {
        x.truncate(size as usize);
    }
    assert(x@ =~= section_data(s, offset as int, size as int));
    x
}

fn out_of_range() -> (r: ExtractSectionError)
    ensures
        r matches ExtractSectionError::Other(e) && e@ == outside_text(),
{
    ExtractSectionError::Other(String::from_str("Section data lies outside the file"))
}

/// Returns the contents of the first section of a PE file with the given name.
pub fn extract_section_from_pe(pe_bytes: Vec<u8>, section_name: &str) -> (r: Result<Vec<u8>, ExtractSectionError>)
    ensures
        extract_outcome(r, pe_lookup(pe_bytes@, section_name.spec_bytes())),
{
    let ghost s = pe_bytes@;
    let name = section_name.as_bytes();
    let file_header_offset = match validate_pe_signature(pe_bytes.as_slice()) {
        Ok(v) => v,
        Err(e) => return Err(ExtractSectionError::Other(e)),
    };
    let num_sections = match read_u16(pe_bytes.as_slice(), file_header_offset + 2) {
        Ok(v) => v as u64,
        Err(e) => return Err(ExtractSectionError::Other(e)),
    };
    let size_of_optional_header = match read_u16(pe_bytes.as_slice(), file_header_offset + 16) {
        Ok(v) => v as u64,
        Err(e) => return Err(ExtractSectionError::Other(e)),
    };
    let section_headers_offset = file_header_offset + 20 + size_of_optional_header;
    let mut i: u64 = 0;
    while i < num_sections
        invariant
            pe_bytes@ == s,
            name@ == section_name.spec_bytes(),
            i <= num_sections,
            num_sections < 0x10000,
            section_headers_offset < 0x1_0002_0000,
            pe_lookup(s, name@) == pe_section_search(s, name@, section_headers_offset as int, num_sections as int, i as int),
        decreases num_sections - i,
    {
        let h = section_headers_offset + i * 40;
        let n = match read_string(pe_bytes.as_slice(), h, 8) {
            Ok(n) => n,
            Err(e) => return Err(ExtractSectionError::Other(e)),
        };
        if bytes_equal(n, name) {
            let size = match read_u32(pe_bytes.as_slice(), h + 16) {
                Ok(v) => v as u64,
                Err(e) => return Err(ExtractSectionError::Other(e)),
            };
            let pointer = match read_u32(pe_bytes.as_slice(), h + 20) {
                Ok(v) => v as u64,
                Err(e) => return Err(ExtractSectionError::Other(e)),
            };
            if pointer > pe_bytes.len() as u64 {
                return Err(out_of_range());
            }
            return Ok(cut_section(pe_bytes, pointer, size));
        }
        i = i + 1;
    }
    Err(ExtractSectionError::SectionNotFound)
}

/// Returns the contents of the first section of an ELF file with the given name.
pub fn extract_section_from_elf(elf_bytes: Vec<u8>, section_name: &str) -> (r: Result<Vec<u8>, ExtractSectionError>)
    ensures
        extract_outcome(r, elf_lookup(elf_bytes@, section_name.spec_bytes())),
{
    let ghost s = elf_bytes@;
    let name = section_name.as_bytes();
    match validate_elf_header(elf_bytes.as_slice()) {
        Ok(()) => {},
        Err(e) => return Err(ExtractSectionError::Other(e)),
    }
    let table = match read_u64(elf_bytes.as_slice(), 0x28) {
        Ok(v) => v,
        Err(e) => return Err(ExtractSectionError::Other(e)),
    };
    let entry_size = match read_u16(elf_bytes.as_slice(), 0x3a) {
        Ok(v) => v as u64,
        Err(e) => return Err(ExtractSectionError::Other(e)),
    };
    let num_sections = match read_u16(elf_bytes.as_slice(), 0x3c) {
        Ok(v) => v as u64,
        Err(e) => return Err(ExtractSectionError::Other(e)),
    };
    let names_index = match read_u16(elf_bytes.as_slice(), 0x3e) {
        Ok(v) => v as u64,
        Err(e) => return Err(ExtractSectionError::Other(e)),
    };
    assert(names_index * entry_size <= 0xffff * 0xffff) by (nonlinear_arith)
        requires names_index <= 0xffff, entry_size <= 0xffff;
    let names_at = match table.checked_add(names_index * entry_size + 0x18) {
        Some(v) => v,
        None => return Err(out_of_range()),
    };
    let names = match read_u64(elf_bytes.as_slice(), names_at) {
        Ok(v) => v,
        Err(e) => return Err(ExtractSectionError::Other(e)),
    };
    let mut i: u64 = 0;
    while i < num_sections
        invariant
            elf_bytes@ == s,
            name@ == section_name.spec_bytes(),
            i <= num_sections,
            num_sections <= 0xffff,
            entry_size <= 0xffff,
            elf_lookup(s, name@) == elf_section_search(s, name@, table as int, entry_size as int,
                num_sections as int, names as int, i as int),
        decreases num_sections - i,
    {
        assert(i * entry_size <= 0xffff * 0xffff) by (nonlinear_arith)
            requires i <= 0xffff, entry_size <= 0xffff;
        let h = match table.checked_add(i * entry_size) {
            Some(v) => v,
            None => return Err(out_of_range()),
        };
        let name_offset = match read_u32(elf_bytes.as_slice(), h) {
            Ok(v) => v as u64,
            Err(e) => return Err(ExtractSectionError::Other(e)),
        };
        let at = match names.checked_add(name_offset) {
            Some(v) => v,
            None => return Err(out_of_range()),
        };
        let n = match read_string(elf_bytes.as_slice(), at, 32) {
            Ok(n) => n,
            Err(e) => return Err(ExtractSectionError::Other(e)),
        };
        if bytes_equal(n, name) {
            if h > u64::MAX - 0x20 {
                return Err(out_of_range());
            }
            let offset = match read_u64(elf_bytes.as_slice(), h + 0x18) {
                Ok(v) => v,
                Err(e) => return Err(ExtractSectionError::Other(e)),
            };
            let size = match read_u64(elf_bytes.as_slice(), h + 0x20) {
                Ok(v) => v,
                Err(e) => return Err(ExtractSectionError::Other(e)),
            };
            if offset > elf_bytes.len() as u64 {
                return Err(out_of_range());
            }
            return Ok(cut_section(elf_bytes, offset, size));
        }
        i = i + 1;
    }
    Err(ExtractSectionError::SectionNotFound)
}


/// `n` zero bytes.
pub open spec fn zeros(n: nat) -> Seq<u8> {
    Seq::new(n, |i: int| 0u8)
}

/// Adds `delta` to the 64-bit file offsets of the ELF section headers from entry `i` up to
/// `count`, in a table whose entries take `entry_size` bytes; none if one is missing or the sum
/// overflows.
pub open spec fn elf_shift_offsets(t: Seq<u8>, entry_size: int, delta: int, i: int, count: int) -> Option<Seq<u8>>
    decreases count - i,
{
    if i >= count {
        Some(t)
    } else {
        let at = i * entry_size + 0x18;
        if !in_range(t, at, 8) || le_value(t, at, 8) + delta > u64::MAX {
            None
        } else {
            elf_shift_offsets(write_le(t, at, 8, le_value(t, at, 8) + delta), entry_size, delta, i + 1, count)
        }
    }
}

/// The ELF section header of an added section: its name's offset in the string table (its low
/// 32 bits), a type in the range for custom sections, and the offset and size of its data.
pub open spec fn elf_new_header(entry_size: nat, name_at: int, offset: int, size: int) -> Seq<u8> {
    write_le(
        write_le(
            write_le(write_le(zeros(entry_size), 0, 4, name_at % 0x1_0000_0000), 4, 4, 0x8000_0000),
            0x18, 8, offset),
        0x20, 8, size)
}

/// The message for an ELF file whose layout cannot take another section.
pub open spec fn elf_layout_text() -> Seq<char> {
    "ELF file wrong size or layout"@
}

/// Why shifting the file offsets of the ELF section headers from entry `i` on fails: an offset
/// that cannot be read, or one that overflows.
pub open spec fn elf_shift_failure(t: Seq<u8>, entry_size: int, delta: int, i: int, count: int) -> Seq<char>
    decreases count - i,
{
    if i >= count {
        elf_layout_text()
    } else {
        let at = i * entry_size + 0x18;
        if !in_range(t, at, 8) {
            read_failure(8, at as nat)
        } else if le_value(t, at, 8) + delta > u64::MAX {
            elf_layout_text()
        } else {
            elf_shift_failure(write_le(t, at, 8, le_value(t, at, 8) + delta), entry_size, delta, i + 1, count)
        }
    }
}

/// Why the new section header cannot be written into a header of `entry_size` bytes: the first
/// of its fields that does not fit.
pub open spec fn elf_header_write_failure(entry_size: int) -> Seq<char> {
    if entry_size < 4 {
        write_failure(4, 0)
    } else if entry_size < 8 {
        write_failure(4, 4)
    } else if entry_size < 0x20 {
        write_failure(8, 0x18)
    } else {
        write_failure(8, 0x20)
    }
}

/// Why an ELF file cannot take a section with the given name, checked in this order: the file
/// header; the fields of the file header that locate the table of section headers; a table of
/// headers that does not end the file; the string table's fields in its header; a string table
/// that does not end before the table of headers, or a size that overflows; the shifting of the
/// following sections' offsets; and then the writing of the new header, which fails where the
/// headers are too short to hold it.
pub open spec fn elf_add_error(s: Seq<u8>, name: Seq<u8>) -> Seq<char> {
    match elf_header_check(s) {
        Err(m) => m,
        Ok(_) => if !in_range(s, 0x28, 8) {
            read_failure(8, 0x28)
        } else if !in_range(s, 0x3a, 2) {
            read_failure(2, 0x3a)
        } else if !in_range(s, 0x3c, 2) {
            read_failure(2, 0x3c)
        } else if !in_range(s, 0x3e, 2) {
            read_failure(2, 0x3e)
        } else {
            let table_at = le_value(s, 0x28, 8);
            let entry_size = le_value(s, 0x3a, 2);
            let count = le_value(s, 0x3c, 2);
            let entry = le_value(s, 0x3e, 2) * entry_size;
            let table = s.skip(table_at);
            if s.len() != table_at + count * entry_size {
                elf_layout_text()
            } else if !in_range(table, entry + 0x18, 8) {
                read_failure(8, (entry + 0x18) as nat)
            } else if !in_range(table, entry + 0x20, 8) {
                read_failure(8, (entry + 0x20) as nat)
            } else {
                let names_end = le_value(table, entry + 0x18, 8) + le_value(table, entry + 0x20, 8);
                let inserted = name.len() + 1 as int;
                let table2 = write_le(table, entry + 0x20, 8, le_value(table, entry + 0x20, 8) + inserted);
                if names_end > table_at || le_value(table, entry + 0x20, 8) + inserted > u64::MAX {
                    elf_layout_text()
                } else if elf_shift_offsets(table2, entry_size, inserted, le_value(s, 0x3e, 2) + 1, count) is None {
                    elf_shift_failure(table2, entry_size, inserted, le_value(s, 0x3e, 2) + 1, count)
                } else {
                    elf_header_write_failure(entry_size)
                }
            }
        },
    }
}

/// The ELF file with a section added, or none where the file cannot take one.
///
/// The section header table must end the file. The new name goes at the end of the section-name
/// string table, so the sections that follow that table in the table of headers move up; the new
/// section's data follows the last section, and the table of headers, with one more entry, comes
/// last.
pub open spec fn elf_add(s: Seq<u8>, name: Seq<u8>, data: Seq<u8>) -> Option<Seq<u8>> {
    if elf_header_check(s) is Err || !in_range(s, 0x28, 8) || !in_range(s, 0x3a, 2) || !in_range(s, 0x3c, 2)
        || !in_range(s, 0x3e, 2) {
        None
    } else {
        let table_at = le_value(s, 0x28, 8);
        let entry_size = le_value(s, 0x3a, 2);
        let count = le_value(s, 0x3c, 2);
        let entry = le_value(s, 0x3e, 2) * entry_size;
        let table = s.skip(table_at);
        let body = s.take(table_at);
        if s.len() != table_at + count * entry_size || !in_range(table, entry + 0x18, 8)
            || !in_range(table, entry + 0x20, 8) {
            None
        } else {
            let names_end = le_value(table, entry + 0x18, 8) + le_value(table, entry + 0x20, 8);
            let inserted = name.push(0u8);
            let body2 = body.take(names_end) + inserted + body.skip(names_end);
            let table2 = write_le(table, entry + 0x20, 8, le_value(table, entry + 0x20, 8) + inserted.len());
            if names_end > body.len() || entry_size < 0x28
                || le_value(table, entry + 0x20, 8) + inserted.len() > u64::MAX {
                None
            } else {
                match elf_shift_offsets(table2, entry_size, inserted.len() as int, le_value(s, 0x3e, 2) + 1, count) {
                    None => None,
                    Some(table3) => {
                        let header = elf_new_header(entry_size as nat, le_value(table, entry + 0x20, 8),
                            body2.len() as int, data.len() as int);
                        let out = body2 + data + (table3 + header);
                        if !in_range(out, 0x28, 8) || !in_range(out, 0x3c, 2) {
                            None
                        } else {
                            Some(write_le(write_le(out, 0x28, 8, (body2.len() + data.len()) as int), 0x3c, 2,
                                (count + 1) % 0x10000))
                        }
                    },
                }
            }
        }
    }
}

fn zeros_vec(n: usize) -> (r: Vec<u8>)
    ensures
        r@ == zeros(n as nat),
{
    let mut r: Vec<u8> = Vec::new();
    let mut i: usize = 0;
    while i < n
        invariant
            i <= n,
            r@ == zeros(i as nat),
        decreases n - i,
    {
        r.push(0);
        i = i + 1;
        assert(r@ =~= zeros(i as nat));
    }
    r
}

fn append_bytes(v: &mut Vec<u8>, src: &[u8])
    ensures
        final(v)@ == old(v)@ + src@,
{
    let mut i: usize = 0;
    while i < src.len()
        invariant
            i <= src@.len(),
            v@ == old(v)@ + src@.take(i as int),
        decreases src.len() - i,
    {
        v.push(src[i]);
        i = i + 1;
        assert(v@ =~= old(v)@ + src@.take(i as int));
    }
    assert(src@.take(src@.len() as int) =~= src@);
}

/// Adds `delta` to the file offsets of the section headers from entry `from` up to `count`.
fn shift_offsets(table: &mut Vec<u8>, entry_size: u64, delta: u64, from: u64, count: u64) -> (r: Result<(), String>)
    requires
        from <= 0x10000,
        count <= 0xffff,
        entry_size <= 0xffff,
    ensures
        match elf_shift_offsets(old(table)@, entry_size as int, delta as int, from as int, count as int) {
            Some(t) => r is Ok && final(table)@ == t,
            None => r matches Err(e)
                && e@ == elf_shift_failure(old(table)@, entry_size as int, delta as int, from as int, count as int),
        },
{
    let mut i: u64 = from;
    while i < count
        invariant
            i <= 0x10000,
            count <= 0xffff,
            entry_size <= 0xffff,
            elf_shift_offsets(old(table)@, entry_size as int, delta as int, from as int, count as int)
                == elf_shift_offsets(table@, entry_size as int, delta as int, i as int, count as int),
            elf_shift_failure(old(table)@, entry_size as int, delta as int, from as int, count as int)
                == elf_shift_failure(table@, entry_size as int, delta as int, i as int, count as int),
        decreases count - i,
    {
        assert(i * entry_size <= 0xffff * 0xffff) by (nonlinear_arith)
            requires i <= 0xffff, entry_size <= 0xffff;
        let at = i * entry_size + 0x18;
        let orig = read_u64(table.as_slice(), at)?;
        if orig > u64::MAX - delta {
            proof { reveal_strlit("ELF file wrong size or layout"); }
            return Err(layout_error());
        }
        write_u64(table, at, orig + delta)?;
        i = i + 1;
    }
    Ok(())
}

fn layout_error() -> (r: String)
    ensures
        r@ == "ELF file wrong size or layout"@,
{
    String::from_str("ELF file wrong size or layout")
}

/// Adds a section with the given name and contents to an ELF file.
#[verifier::rlimit(80)]
#[verifier::spinoff_prover]
pub fn add_section_to_elf(elf_bytes: Vec<u8>, new_section_name: &str, new_section_bytes: Vec<u8>)
    -> (r: Result<Vec<u8>, String>)
    ensures
        match elf_add(elf_bytes@, new_section_name.spec_bytes(), new_section_bytes@) {
            Some(out) => r matches Ok(v) && v@ == out,
            None => r matches Err(e) && e@ == elf_add_error(elf_bytes@, new_section_name.spec_bytes()),
        },
{
    let ghost s = elf_bytes@;
    let ghost name_s = new_section_name.spec_bytes();
    let mut body = elf_bytes;
    let name = new_section_name.as_bytes();
    match validate_elf_header(body.as_slice()) {
        Ok(()) => {},
        Err(e) => return Err(e),
    }
    let table_at = read_u64(body.as_slice(), 0x28)?;
    let entry_size = read_u16(body.as_slice(), 0x3a)? as u64;
    let count = read_u16(body.as_slice(), 0x3c)? as u64;
    let names_index = read_u16(body.as_slice(), 0x3e)? as u64;
    assert(count * entry_size <= 0xffff * 0xffff) by (nonlinear_arith)
        requires count <= 0xffff, entry_size <= 0xffff;
    assert(names_index * entry_size <= 0xffff * 0xffff) by (nonlinear_arith)
        requires names_index <= 0xffff, entry_size <= 0xffff;
    match table_at.checked_add(count * entry_size) {
        Some(end) => if end != body.len() as u64 {
            return Err(layout_error());
        },
        None => {
            let blen: usize = body.len();
            assert(body@ == s);
            assert(blen as int <= u64::MAX);
            return Err(layout_error());
        },
    }
    let mut table = body.split_off(table_at as usize);
    assert(table@ == s.skip(table_at as int));
    assert(body@ == s.take(table_at as int));
    let entry = names_index * entry_size;
    let names_at = read_u64(table.as_slice(), entry + 0x18)?;
    let names_size = read_u64(table.as_slice(), entry + 0x20)?;
    let names_end = match names_at.checked_add(names_size) {
        Some(v) => v,
        None => return Err(layout_error()),
    };
    if names_end > body.len() as u64 {
        return Err(layout_error());
    }
    let ghost body0 = body@;
    let mut tail = body.split_off(names_end as usize);
    append_bytes(&mut body, name);
    body.push(0);
    body.append(&mut tail);
    assert(body@ =~= body0.take(names_end as int) + name_s.push(0u8) + body0.skip(names_end as int));
    let name_len = name.len() as u64;
    if name_len == u64::MAX || names_size > u64::MAX - (name_len + 1) {
        return Err(layout_error());
    }
    let inserted = name_len + 1;
    let ghost table0 = table@;
    write_u64(&mut table, entry + 0x20, names_size + inserted)?;
    proof { crate::section_laws::lemma_write_le_bytes(table0, (entry + 0x20) as int, 8, (names_size + inserted) as int); }
    let ghost table1 = table@;
    shift_offsets(&mut table, entry_size, inserted, names_index + 1, count)?;
    proof {
        crate::section_laws::lemma_shift_offsets_frame(table1, entry_size as int, inserted as int,
            (names_index + 1) as int, count as int);
    }
    assert(table@.len() == table0.len());
    let new_section_offset = body.len() as u64;
    let mut data = new_section_bytes;
    let data_len = data.len() as u64;
    body.append(&mut data);
    let mut header = zeros_vec(entry_size as usize);
    proof {
        lemma_le_bytes_len(names_size as int % 0x1_0000_0000, 4);
        lemma_le_bytes_len(0x8000_0000, 4);
        lemma_le_bytes_len(new_section_offset as int, 8);
    }
    write_u32(&mut header, 0, (names_size % 0x1_0000_0000) as u32)?;
    write_u32(&mut header, 4, 0x8000_0000)?;
    write_u64(&mut header, 0x18, new_section_offset)?;
    write_u64(&mut header, 0x20, data_len)?;
    table.append(&mut header);
    let new_table_at = body.len() as u64;
    body.append(&mut table);
    assert(s.len() >= 0x40);
    assert(body@.len() >= s.len());
    proof { lemma_le_bytes_len(new_table_at as int, 8); }
    write_u64(&mut body, 0x28, new_table_at)?;
    write_u16(&mut body, 0x3c, ((count + 1) % 0x10000) as u16)?;
    Ok(body)
}


/// `x` rounded up to a multiple of `m`.
pub open spec fn align_up(x: int, m: int) -> int {
    ((x - 1) / m + 1) * m
}

/// `x` rounded up to a multiple of `m`, where that is defined: `x` and `m` positive and the
/// result at most `limit`.
pub open spec fn aligned(x: int, m: int, limit: int) -> Option<int> {
    if x <= 0 || m <= 0 || align_up(x, m) > limit {
        None
    } else {
        Some(align_up(x, m))
    }
}

/// A positive number rounded up to a positive multiple is at least the number and less than
/// the number plus the multiple.
pub proof fn lemma_align_up_bounds(x: int, m: int)
    requires
        x >= 1,
        m >= 1,
    ensures
        x <= align_up(x, m) < x + m,
{
    let q = (x - 1) / m;
    vstd::arithmetic::div_mod::lemma_fundamental_div_mod(x - 1, m);
    assert((q + 1) * m == m * q + m) by (nonlinear_arith);
}

/// Rounds `x` up to a multiple of `multiple`; none where `x` or `multiple` is zero or the result
/// does not fit.
pub fn align(x: u64, multiple: u64) -> (r: Option<u64>)
    ensures
        r is None <==> aligned(x as int, multiple as int, u64::MAX as int) is None,
        r matches Some(v) ==> aligned(x as int, multiple as int, u64::MAX as int) == Some(v as int),
{
    if x == 0 || multiple == 0 {
        return None;
    }
    proof { lemma_align_up_bounds(x as int, multiple as int); }
    let q = (x - 1) / multiple;
    (q + 1).checked_mul(multiple)
}

/// Adds `delta` to the 32-bit raw-data pointers of the PE section headers from entry `i` up to
/// `count`; none if one is missing or the sum overflows.
pub open spec fn pe_shift_pointers(s: Seq<u8>, headers: int, delta: int, i: int, count: int) -> Option<Seq<u8>>
    decreases count - i,
{
    if i >= count {
        Some(s)
    } else {
        let at = headers + i * 40 + 20;
        if !in_range(s, at, 4) || le_value(s, at, 4) + delta > u32::MAX {
            None
        } else {
            pe_shift_pointers(write_le(s, at, 4, le_value(s, at, 4) + delta), headers, delta, i + 1, count)
        }
    }
}

/// Makes room for one more PE section header after the `count` headers at `headers`: where the
/// padding before the next multiple of `file_align` is under one header long, a block of
/// `file_align` zero bytes goes in after the headers and every section's data pointer moves up by
/// that much.
pub open spec fn pe_make_room(s: Seq<u8>, headers: int, count: int, file_align: int) -> Option<Seq<u8>> {
    let end = headers + count * 40;
    match aligned(end, file_align, u64::MAX as int) {
        None => None,
        Some(a) => if a - end < 40 {
            if end > s.len() {
                None
            } else {
                pe_shift_pointers(s.take(end) + zeros(file_align as nat) + s.skip(end), headers, file_align, 0, count)
            }
        } else {
            Some(s)
        },
    }
}

/// The PE section header of an added section: its name, a virtual size of one, its virtual
/// address and raw size, and the flag for initialised data.
pub open spec fn pe_new_header(name: Seq<u8>, virtual_address: int, raw_size: int) -> Seq<u8> {
    write_le(
        write_le(write_le(write_le(name + zeros((40 - name.len()) as nat), 8, 4, 1), 12, 4, virtual_address),
            16, 4, raw_size),
        36, 4, 0x40)
}

/// Data cut or padded with zeros to `n` bytes.
pub open spec fn resized(d: Seq<u8>, n: int) -> Seq<u8> {
    if n <= d.len() {
        d.take(n)
    } else {
        d + zeros((n - d.len()) as nat)
    }
}

/// Adds the new section's header after the `count` headers at `headers` (the previous section
/// being the last), and its data at the end of the file aligned to `file_align`, then updates the
/// size of the image and of the headers in the optional header at `optional`.
pub open spec fn pe_append_section(
    s: Seq<u8>, name: Seq<u8>, data: Seq<u8>, optional: int, headers: int, count: int, section_align: int,
    file_align: int,
) -> Option<Seq<u8>> {
    let end = headers + count * 40;
    let prev = headers + (count - 1) * 40;
    if count == 0 || !in_range(s, prev + 12, 4) || !in_range(s, prev + 8, 4) || end + 40 > s.len() {
        None
    } else {
        match aligned(le_value(s, prev + 12, 4) + le_value(s, prev + 8, 4), section_align, u32::MAX as int) {
            None => None,
            Some(va) => match aligned(data.len() as int % 0x1_0000_0000, file_align, u32::MAX as int) {
                None => None,
                Some(raw) => {
                    let s3 = overwrite(s, end, pe_new_header(name, va, raw));
                    match aligned(s3.len() as int, file_align, u64::MAX as int) {
                        None => None,
                        Some(at) => {
                            let s5 = write_le(s3 + zeros((at - s3.len()) as nat) + resized(data, raw), end + 20, 4,
                                at % 0x1_0000_0000);
                            match (aligned(va + 1, section_align, u32::MAX as int),
                                aligned(end + 40, file_align, u64::MAX as int)) {
                                (Some(image), Some(header_size)) => if !in_range(s5, optional + 56, 4)
                                    || !in_range(s5, optional + 60, 4) {
                                    None
                                } else {
                                    Some(write_le(write_le(s5, optional + 56, 4, image), optional + 60, 4,
                                        header_size % 0x1_0000_0000))
                                },
                                _ => None,
                            }
                        },
                    }
                },
            },
        }
    }
}

/// The message for an alignment that cannot be met in a PE file.
pub open spec fn pe_alignment_text() -> Seq<char> {
    "Invalid alignment in PE file"@
}

/// Why shifting the raw-data pointers of the PE section headers from entry `i` on fails: a
/// pointer that cannot be read, or one that overflows 32 bits.
pub open spec fn pe_shift_failure(s: Seq<u8>, headers: int, delta: int, i: int, count: int) -> Seq<char>
    decreases count - i,
{
    if i >= count {
        elf_layout_text()
    } else {
        let at = headers + i * 40 + 20;
        if !in_range(s, at, 4) {
            read_failure(4, at as nat)
        } else if le_value(s, at, 4) + delta > u32::MAX {
            elf_layout_text()
        } else {
            pe_shift_failure(write_le(s, at, 4, le_value(s, at, 4) + delta), headers, delta, i + 1, count)
        }
    }
}

/// Why making room for one more PE section header fails, as `pe_make_room` checks it.
pub open spec fn pe_make_room_failure(s: Seq<u8>, headers: int, count: int, file_align: int) -> Seq<char> {
    let end = headers + count * 40;
    match aligned(end, file_align, u64::MAX as int) {
        None => pe_alignment_text(),
        Some(a) => if a - end < 40 && end <= s.len() {
            pe_shift_failure(s.take(end) + zeros(file_align as nat) + s.skip(end), headers, file_align, 0, count)
        } else {
            elf_layout_text()
        },
    }
}

/// Why appending the new PE section fails, as `pe_append_section` checks it.
pub open spec fn pe_append_failure(
    s: Seq<u8>, name: Seq<u8>, data: Seq<u8>, optional: int, headers: int, count: int, section_align: int,
    file_align: int,
) -> Seq<char> {
    let end = headers + count * 40;
    let prev = headers + (count - 1) * 40;
    if count == 0 {
        elf_layout_text()
    } else if !in_range(s, prev + 12, 4) {
        read_failure(4, (prev + 12) as nat)
    } else if !in_range(s, prev + 8, 4) {
        read_failure(4, (prev + 8) as nat)
    } else if end + 40 > s.len() {
        elf_layout_text()
    } else {
        match aligned(le_value(s, prev + 12, 4) + le_value(s, prev + 8, 4), section_align, u32::MAX as int) {
            None => pe_alignment_text(),
            Some(va) => match aligned(data.len() as int % 0x1_0000_0000, file_align, u32::MAX as int) {
                None => pe_alignment_text(),
                Some(raw) => if aligned(s.len() as int, file_align, u64::MAX as int) is None
                    || aligned(va + 1, section_align, u32::MAX as int) is None
                    || aligned(end + 40, file_align, u64::MAX as int) is None {
                    pe_alignment_text()
                } else {
                    elf_layout_text()
                },
            },
        }
    }
}

/// Why a PE file cannot take a section with the given name, checked in this order: the
/// signature; the number of sections (which must leave room for one more); the size of the
/// optional header and the section and file alignments in it; then making room for the new
/// header and appending the section.
pub open spec fn pe_add_error(s: Seq<u8>, name: Seq<u8>, data: Seq<u8>) -> Seq<char> {
    match pe_signature_check(s) {
        Err(m) => m,
        Ok(fh) => if !in_range(s, fh + 2, 2) {
            read_failure(2, (fh + 2) as nat)
        } else if le_value(s, fh + 2, 2) == 0xffff {
            elf_layout_text()
        } else if !in_range(s, fh + 16, 2) {
            read_failure(2, (fh + 16) as nat)
        } else if !in_range(s, fh + 52, 4) {
            read_failure(4, (fh + 52) as nat)
        } else if !in_range(s, fh + 56, 4) {
            read_failure(4, (fh + 56) as nat)
        } else {
            let count = le_value(s, fh + 2, 2);
            let s1 = write_le(s, fh + 2, 2, count + 1);
            let optional = fh + 20;
            let headers = optional + le_value(s1, fh + 16, 2);
            let file_align = le_value(s1, optional + 36, 4);
            match pe_make_room(s1, headers, count, file_align) {
                None => pe_make_room_failure(s1, headers, count, file_align),
                Some(s2) => pe_append_failure(s2, name, data, optional, headers, count,
                    le_value(s1, optional + 32, 4), file_align),
            }
        },
    }
}

/// The PE file with a section added, or none where the file cannot take one: the number of
/// sections goes up by one, room is made for the new header, and the header and data are added.
pub open spec fn pe_add(s: Seq<u8>, name: Seq<u8>, data: Seq<u8>) -> Option<Seq<u8>> {
    match pe_signature_check(s) {
        Err(_) => None,
        Ok(fh) => if !in_range(s, fh + 2, 2) || le_value(s, fh + 2, 2) == 0xffff || !in_range(s, fh + 16, 2)
            || !in_range(s, fh + 52, 4) || !in_range(s, fh + 56, 4) {
            None
        } else {
            let count = le_value(s, fh + 2, 2);
            let s1 = write_le(s, fh + 2, 2, count + 1);
            let optional = fh + 20;
            let headers = optional + le_value(s1, fh + 16, 2);
            let file_align = le_value(s1, optional + 36, 4);
            match pe_make_room(s1, headers, count, file_align) {
                None => None,
                Some(s2) => pe_append_section(s2, name, data, optional, headers, count,
                    le_value(s1, optional + 32, 4), file_align),
            }
        },
    }
}

/// Adds `delta` to the raw-data pointers of the first `count` section headers.
fn shift_pointers(s: &mut Vec<u8>, headers: u64, delta: u64, count: u64) -> (r: Result<(), String>)
    requires
        headers <= 0x2_0000_0000,
        count <= 0xffff,
        delta <= u32::MAX,
    ensures
        match pe_shift_pointers(old(s)@, headers as int, delta as int, 0, count as int) {
            Some(t) => r is Ok && final(s)@ == t,
            None => r matches Err(e) && e@ == pe_shift_failure(old(s)@, headers as int, delta as int, 0, count as int),
        },
{
    let mut i: u64 = 0;
    while i < count
        invariant
            i <= count,
            count <= 0xffff,
            headers <= 0x2_0000_0000,
            delta <= u32::MAX,
            pe_shift_pointers(old(s)@, headers as int, delta as int, 0, count as int)
                == pe_shift_pointers(s@, headers as int, delta as int, i as int, count as int),
            pe_shift_failure(old(s)@, headers as int, delta as int, 0, count as int)
                == pe_shift_failure(s@, headers as int, delta as int, i as int, count as int),
        decreases count - i,
    {
        let at = headers + i * 40 + 20;
        let orig = read_u32(s.as_slice(), at)? as u64;
        if orig + delta > u32::MAX as u64 {
            return Err(layout_error());
        }
        proof { lemma_le_bytes_len((orig + delta) as int, 4); }
        write_u32(s, at, (orig + delta) as u32)?;
        i = i + 1;
    }
    Ok(())
}

fn alignment_error() -> (r: String)
    ensures
        r@ == "Invalid alignment in PE file"@,
{
    String::from_str("Invalid alignment in PE file")
}

/// Makes room for one more section header, as `pe_make_room` says.
fn make_room(s: &mut Vec<u8>, headers: u64, count: u64, file_align: u64) -> (r: Result<(), String>)
    requires
        headers <= 0x2_0000_0000,
        count <= 0xffff,
        file_align <= u32::MAX,
    ensures
        match pe_make_room(old(s)@, headers as int, count as int, file_align as int) {
            Some(t) => r is Ok && final(s)@ == t,
            None => r matches Err(e) && e@ == pe_make_room_failure(old(s)@, headers as int, count as int, file_align as int),
        },
{
    let end = headers + count * 40;
    let a = match align(end, file_align) {
        Some(a) => a,
        None => return Err(alignment_error()),
    };
    proof { lemma_align_up_bounds(end as int, file_align as int); }
    if a - end < 40 {
        if end > s.len() as u64 {
            return Err(layout_error());
        }
        let ghost s0 = s@;
        let mut tail = s.split_off(end as usize);
        let mut padding = zeros_vec(file_align as usize);
        s.append(&mut padding);
        s.append(&mut tail);
        assert(s@ =~= s0.take(end as int) + zeros(file_align as nat) + s0.skip(end as int));
        shift_pointers(s, headers, file_align, count)
    } else {
        Ok(())
    }
}

/// Data cut or padded with zeros to `n` bytes.
fn resize_data(d: &mut Vec<u8>, n: u64)
    requires
        n <= u32::MAX,
    ensures
        final(d)@ == resized(old(d)@, n as int),
{
    if n <= d.len() as u64 {
        d.truncate(n as usize);
    } else {
        let mut padding = zeros_vec((n - d.len() as u64) as usize);
        d.append(&mut padding);
    }
    assert(d@ =~= resized(old(d)@, n as int));
}

/// Adds the new section's header and data, as `pe_append_section` says.
fn append_section(
    s: &mut Vec<u8>, name: &[u8], data: Vec<u8>, optional: u64, headers: u64, count: u64, section_align: u64,
    file_align: u64,
) -> (r: Result<(), String>)
    requires
        name@.len() <= 8,
        headers <= 0x2_0000_0000,
        optional <= 0x2_0000_0000,
        count <= 0xffff,
        section_align <= u32::MAX,
        file_align <= u32::MAX,
    ensures
        match pe_append_section(old(s)@, name@, data@, optional as int, headers as int, count as int,
            section_align as int, file_align as int) {
            Some(t) => r is Ok && final(s)@ == t,
            None => r matches Err(e) && e@ == pe_append_failure(old(s)@, name@, data@, optional as int, headers as int,
                count as int, section_align as int, file_align as int),
        },
{
    let ghost s0 = s@;
    let end = headers + count * 40;
    if count == 0 {
        return Err(layout_error());
    }
    let prev = headers + (count - 1) * 40;
    let prev_address = read_u32(s.as_slice(), prev + 12)? as u64;
    let prev_size = read_u32(s.as_slice(), prev + 8)? as u64;
    if end + 40 > s.len() as u64 {
        return Err(layout_error());
    }
    let va = match align(prev_address + prev_size, section_align) {
        Some(v) => if v > u32::MAX as u64 { return Err(alignment_error()); } else { v },
        None => return Err(alignment_error()),
    };
    let raw = match align(data.len() as u64 % 0x1_0000_0000, file_align) {
        Some(v) => if v > u32::MAX as u64 { return Err(alignment_error()); } else { v },
        None => return Err(alignment_error()),
    };
    let mut header = zeros_vec(40);
    write_bytes(&mut header, 0, name)?;
    assert(header@ =~= name@ + zeros((40 - name@.len()) as nat));
    proof {
        lemma_le_bytes_len(1, 4);
        lemma_le_bytes_len(va as int, 4);
        lemma_le_bytes_len(raw as int, 4);
    }
    write_u32(&mut header, 8, 1)?;
    write_u32(&mut header, 12, va as u32)?;
    write_u32(&mut header, 16, raw as u32)?;
    write_u32(&mut header, 36, 0x40)?;
    proof { lemma_le_bytes_len(0x40, 4); }
    assert(header@ == pe_new_header(name@, va as int, raw as int));
    write_bytes(s, end, header.as_slice())?;
    let at = match align(s.len() as u64, file_align) {
        Some(v) => v,
        None => return Err(alignment_error()),
    };
    proof { lemma_align_up_bounds(s.len() as int, file_align as int); }
    let mut padding = zeros_vec((at - s.len() as u64) as usize);
    s.append(&mut padding);
    let mut data = data;
    resize_data(&mut data, raw);
    s.append(&mut data);
    proof { lemma_le_bytes_len(at as int % 0x1_0000_0000, 4); }
    write_u32(s, end + 20, (at % 0x1_0000_0000) as u32)?;
    let image = match align(va + 1, section_align) {
        Some(v) => if v > u32::MAX as u64 { return Err(alignment_error()); } else { v },
        None => return Err(alignment_error()),
    };
    let header_size = match align(end + 40, file_align) {
        Some(v) => v,
        None => return Err(alignment_error()),
    };
    if !fits(s.len(), optional + 56, 4) || !fits(s.len(), optional + 60, 4) {
        return Err(layout_error());
    }
    proof {
        lemma_le_bytes_len(image as int, 4);
        lemma_le_bytes_len(header_size as int % 0x1_0000_0000, 4);
    }
    write_u32(s, optional + 56, image as u32)?;
    write_u32(s, optional + 60, (header_size % 0x1_0000_0000) as u32)?;
    Ok(())
}

/// Adds a section with the given name (at most eight bytes) and contents to a PE file.
pub fn add_section_to_pe(pe_bytes: Vec<u8>, new_section_name: &str, new_section_bytes: Vec<u8>)
    -> (r: Result<Vec<u8>, String>)
    requires
        new_section_name.spec_bytes().len() <= 8,
    ensures
        match pe_add(pe_bytes@, new_section_name.spec_bytes(), new_section_bytes@) {
            Some(out) => r matches Ok(v) && v@ == out,
            None => r matches Err(e) && e@ == pe_add_error(pe_bytes@, new_section_name.spec_bytes(), new_section_bytes@),
        },
{
    let mut pe_bytes = pe_bytes;
    let name = new_section_name.as_bytes();
    let file_header_offset = validate_pe_signature(pe_bytes.as_slice())?;
    let num_sections_offset = file_header_offset + 2;
    let count = read_u16(pe_bytes.as_slice(), num_sections_offset)?;
    if count == 0xffff {
        return Err(layout_error());
    }
    proof { lemma_le_bytes_len(count + 1, 2); }
    write_u16(&mut pe_bytes, num_sections_offset, count + 1)?;
    let size_of_optional_header = read_u16(pe_bytes.as_slice(), file_header_offset + 16)? as u64;
    let optional = file_header_offset + 20;
    let section_align = read_u32(pe_bytes.as_slice(), optional + 32)? as u64;
    let file_align = read_u32(pe_bytes.as_slice(), optional + 36)? as u64;
    let headers = optional + size_of_optional_header;
    make_room(&mut pe_bytes, headers, count as u64, file_align)?;
    append_section(&mut pe_bytes, name, new_section_bytes, optional, headers, count as u64, section_align, file_align)?;
    Ok(pe_bytes)
}

} // verus!
