use vstd::prelude::*;
use crate::exe_utils::{in_range, le_bytes, le_value, lemma_le_bytes_len, string_len_from, string_at, write_le,
    elf_shift_offsets, elf_section_search, elf_new_header, zeros, elf_add, elf_lookup, elf_header_check, section_data,
    pe_shift_pointers, pe_new_header, pe_section_search, pe_make_room, pe_append_section, align_up, resized,
    overwrite, lemma_align_up_bounds, pe_add, pe_lookup, pe_signature_check, SectionLookup};
use crate::encrypted_comms::{byte_range, lemma_le_value_of_le_bytes};

verus! {

/// A little-endian number depends only on its own bytes.
proof fn lemma_le_value_frame(a: Seq<u8>, b: Seq<u8>, oa: int, ob: int, w: nat)
    requires
        forall|k: int| #![trigger a[oa + k]] 0 <= k < w ==> a[oa + k] == b[ob + k],
    ensures
        le_value(a, oa, w) == le_value(b, ob, w),
    decreases w,
{
    if w > 0 {
        assert(a[oa + 0] == b[ob + 0]);
        assert forall|k: int| #![trigger a[(oa + 1) + k]] 0 <= k < w - 1 implies a[(oa + 1) + k] == b[(ob + 1) + k] by {
            assert(a[oa + (k + 1)] == b[ob + (k + 1)]);
        }
        lemma_le_value_frame(a, b, oa + 1, ob + 1, (w - 1) as nat);
    }
}

/// Writing a number changes only its own bytes, and not the length.
pub(crate) proof fn lemma_write_le_bytes(s: Seq<u8>, off: int, w: nat, v: int)
    requires
        in_range(s, off, w as int),
    ensures
        write_le(s, off, w, v).len() == s.len(),
        forall|p: int| 0 <= p < s.len() && !(off <= p < off + w) ==> #[trigger] write_le(s, off, w, v)[p] == s[p],
        forall|k: int| 0 <= k < w ==> #[trigger] write_le(s, off, w, v)[off + k] == le_bytes(v, w)[k],
{
    lemma_le_bytes_len(v, w);
    let t = write_le(s, off, w, v);
    assert(t == s.take(off) + le_bytes(v, w) + s.skip(off + w));
    assert forall|p: int| 0 <= p < s.len() && !(off <= p < off + w) implies #[trigger] t[p] == s[p] by {
        if p < off {
            assert(t[p] == s.take(off)[p]);
        } else {
            assert(t[p] == s.skip(off + w)[p - off - w]);
        }
    }
    assert forall|k: int| 0 <= k < w implies #[trigger] t[off + k] == le_bytes(v, w)[k] by {
        assert(t[off + k] == (s.take(off) + le_bytes(v, w))[off + k]);
    }
}

/// A number written is read back, if it fits.
proof fn lemma_le_written(s: Seq<u8>, off: int, w: nat, v: int)
    requires
        in_range(s, off, w as int),
        0 <= v < byte_range(w),
    ensures
        le_value(write_le(s, off, w, v), off, w) == v,
{
    lemma_write_le_bytes(s, off, w, v);
    lemma_le_value_of_le_bytes(v, w);
    vstd::arithmetic::div_mod::lemma_small_mod(v as nat, byte_range(w) as nat);
    let t = write_le(s, off, w, v);
    assert forall|k: int| 0 <= k < w implies #[trigger] t[off + k] == le_bytes(v, w)[0 + k] by {
        assert(t[off + k] == le_bytes(v, w)[k]);
    }
    lemma_le_value_frame(t, le_bytes(v, w), off, 0, w);
}

/// A number is read the same after a write that does not touch its bytes.
proof fn lemma_le_value_after_write(s: Seq<u8>, off: int, w: nat, v: int, p: int, k: nat)
    requires
        in_range(s, off, w as int),
        in_range(s, p, k as int),
        p + k <= off || off + w <= p,
    ensures
        le_value(write_le(s, off, w, v), p, k) == le_value(s, p, k),
{
    lemma_write_le_bytes(s, off, w, v);
    assert forall|j: int| 0 <= j < k implies #[trigger] write_le(s, off, w, v)[p + j] == s[p + j] by {}
    lemma_le_value_frame(write_le(s, off, w, v), s, p, p, k);
}

/// A string read from some point on is at least as long as what was already read.
proof fn lemma_string_len_at_least(s: Seq<u8>, off: int, max: int, size: int)
    requires
        string_len_from(s, off, max, size) is Some,
    ensures
        string_len_from(s, off, max, size)->0 >= size,
    decreases max - size,
{
    if off + size >= 0 && off + size < s.len() && s[off + size] != 0 && size + 1 < max {
        lemma_string_len_at_least(s, off, max, size + 1);
    }
}

/// A null-terminated string is read the same from another place holding the same bytes, as far
/// as reading goes.
proof fn lemma_string_len_frame(a: Seq<u8>, b: Seq<u8>, oa: int, ob: int, max: int, size: int, n: int)
    requires
        0 <= size < max,
        oa >= 0,
        ob >= 0,
        string_len_from(a, oa, max, size) == Some(n),
        ob + n < b.len(),
        forall|k: int| #![trigger a[oa + k]] size <= k <= n && k < max ==> a[oa + k] == b[ob + k],
    ensures
        string_len_from(b, ob, max, size) == Some(n),
    decreases max - size,
{
    lemma_string_len_at_least(a, oa, max, size);
    assert(a[oa + size] == b[ob + size]);
    if a[oa + size] == 0 {
    } else if size + 1 >= max {
    } else {
        lemma_string_len_frame(a, b, oa, ob, max, size + 1, n);
    }
}

/// Whether a position lies in the file-offset field of one of the section headers from entry `i`
/// up to `count`.
pub(crate) open spec fn in_offset_field(p: int, entry_size: int, i: int, count: int) -> bool {
    exists|j: int| i <= j < count && #[trigger] (j * entry_size) + 0x18 <= p < j * entry_size + 0x20
}

/// Shifting the file offsets of section headers changes nothing but those offsets.
pub(crate) proof fn lemma_shift_offsets_frame(t: Seq<u8>, entry_size: int, delta: int, i: int, count: int)
    requires
        elf_shift_offsets(t, entry_size, delta, i, count) is Some,
    ensures
        elf_shift_offsets(t, entry_size, delta, i, count)->0.len() == t.len(),
        forall|p: int| 0 <= p < t.len() && !in_offset_field(p, entry_size, i, count)
            ==> #[trigger] elf_shift_offsets(t, entry_size, delta, i, count)->0[p] == t[p],
    decreases count - i,
{
    if i < count {
        let at = i * entry_size + 0x18;
        let v = le_value(t, at, 8) + delta;
        let t1 = write_le(t, at, 8, v);
        lemma_write_le_bytes(t, at, 8, v);
        lemma_shift_offsets_frame(t1, entry_size, delta, i + 1, count);
        let r = elf_shift_offsets(t, entry_size, delta, i, count)->0;
        assert(r == elf_shift_offsets(t1, entry_size, delta, i + 1, count)->0);
        assert forall|p: int| 0 <= p < t.len() && !in_offset_field(p, entry_size, i, count) implies #[trigger] r[p] == t[p] by {
            if at <= p < at + 8 {
                assert(in_offset_field(p, entry_size, i, count));
            }
            if in_offset_field(p, entry_size, i + 1, count) {
                let j = choose|j: int| i + 1 <= j < count && #[trigger] (j * entry_size) + 0x18 <= p < j * entry_size + 0x20;
                assert(in_offset_field(p, entry_size, i, count));
            }
        }
    }
}

/// Searching the section headers of a file grown from another finds what the other lacked, when
/// every earlier header names its section the same way and the new one comes last.
proof fn lemma_search_reaches_new_entry(
    s: Seq<u8>, out: Seq<u8>, name: Seq<u8>, data: Seq<u8>,
    table_at: int, big_t: int, es: int, count: int, names: int, names_end: int, i: int,
)
    requires
        0 <= i <= count,
        0x40 <= names <= names_end,
        names_end <= out.len(),
        names_end <= s.len(),
        out.len() < 0x1_0000_0000_0000_0000,
        elf_section_search(s, name, table_at, es, count, names, i) == SectionLookup::NotFound,
        elf_section_search(out, name, big_t, es, count + 1, names, count) == SectionLookup::Found(data),
        forall|j: int| #![trigger (j * es)] i <= j < count ==> in_range(out, big_t + j * es, 4)
            && forall|m: int| 0 <= m < 4 ==> #[trigger] out[big_t + j * es + m] == s[table_at + j * es + m],
        forall|j: int| #![trigger (j * es)] i <= j < count ==>
            (string_len_from(s, names + le_value(s, table_at + j * es, 4), 32, 0) matches Some(n)
                ==> names + le_value(s, table_at + j * es, 4) + n < names_end),
        forall|p: int| 0x40 <= p < names_end ==> #[trigger] out[p] == s[p],
    ensures
        elf_section_search(out, name, big_t, es, count + 1, names, i) == SectionLookup::Found(data),
    decreases count - i,
{
    if i < count {
        let h = table_at + i * es;
        let h2 = big_t + i * es;
        assert(in_range(s, h, 4));
        let off = le_value(s, h, 4);
        assert(in_range(out, h2, 4));
        assert forall|m: int| 0 <= m < 4 implies #[trigger] out[h2 + m] == s[h + m] by {
            assert(out[big_t + i * es + m] == s[table_at + i * es + m]);
        }
        lemma_le_value_frame(out, s, h2, h, 4);
        assert(le_value(out, h2, 4) == off);
        let nm = string_at(s, names + off, 32)->0;
        assert(string_at(s, names + off, 32) is Some);
        let n = string_len_from(s, names + off, 32, 0)->0;
        assert(off >= 0) by {
            lemma_le_value_nonneg(s, h, 4);
        }
        assert(names + off + n < names_end);
        lemma_string_len_at_least(s, names + off, 32, 0);
        assert forall|k: int| #![trigger s[(names + off) + k]] 0 <= k <= n && k < 32 implies s[(names + off) + k] == out[(names + off) + k] by {
            assert(0x40 <= (names + off) + k < names_end);
        }
        lemma_string_len_frame(s, out, names + off, names + off, 32, 0, n);
        assert(out.subrange(names + off, names + off + n) =~= s.subrange(names + off, names + off + n)) by {
            assert forall|k: int| 0 <= k < n implies #[trigger] out.subrange(names + off, names + off + n)[k]
                == s.subrange(names + off, names + off + n)[k] by {
                assert(0x40 <= names + off + k < names_end);
                assert(out[names + off + k] == s[names + off + k]);
            }
        }
        assert(string_at(out, names + off, 32) == Some(nm));
        assert(nm != name);
        lemma_search_reaches_new_entry(s, out, name, data, table_at, big_t, es, count, names, names_end, i + 1);
    }
}

/// A little-endian number is not negative.
proof fn lemma_le_value_nonneg(s: Seq<u8>, off: int, w: nat)
    ensures
        le_value(s, off, w) >= 0,
    decreases w,
{
    if w > 0 {
        lemma_le_value_nonneg(s, off + 1, (w - 1) as nat);
    }
}

/// Rows of a table that lie further down start at least one row further on.
proof fn lemma_rows_apart(j: int, k: int, es: int)
    by (nonlinear_arith)
    requires
        0 <= j < k,
        0 <= es,
    ensures
        j * es + es <= k * es,
{
}

/// The first bytes of a row lie outside the offset fields of every row.
proof fn lemma_not_offset_field(p: int, es: int, j: int, m: int, from: int, count: int)
    requires
        es >= 0x28,
        0 <= j,
        0 <= from,
        0 <= m < 0x18 || 0x20 <= m < es,
        p == j * es + m,
    ensures
        !in_offset_field(p, es, from, count),
{
    if in_offset_field(p, es, from, count) {
        let q = choose|q: int| from <= q < count && #[trigger] (q * es) + 0x18 <= p < q * es + 0x20;
        if q < j {
            lemma_rows_apart(q, j, es);
        } else if q > j {
            lemma_rows_apart(j, q, es);
        }
    }
}

/// What adding a section leaves of a table of section headers: the names' offsets of every row,
/// and the string table's own file offset.
proof fn lemma_table_kept(table: Seq<u8>, es: int, idx: int, count: int, size: int, delta: int)
    requires
        es >= 0x28,
        0 <= idx < count,
        table.len() == count * es,
        in_range(table, idx * es + 0x20, 8),
        elf_shift_offsets(write_le(table, idx * es + 0x20, 8, size), es, delta, idx + 1, count) is Some,
    ensures
        ({
            let t3 = elf_shift_offsets(write_le(table, idx * es + 0x20, 8, size), es, delta, idx + 1, count)->0;
            &&& t3.len() == table.len()
            &&& forall|j: int, m: int| 0 <= j < count && 0 <= m < 4 ==> #[trigger] t3[j * es + m] == table[j * es + m]
            &&& forall|m: int| 0 <= m < 8 ==> #[trigger] t3[idx * es + 0x18 + m] == table[idx * es + 0x18 + m]
        }),
{
    let t2 = write_le(table, idx * es + 0x20, 8, size);
    lemma_write_le_bytes(table, idx * es + 0x20, 8, size);
    lemma_shift_offsets_frame(t2, es, delta, idx + 1, count);
    let t3 = elf_shift_offsets(t2, es, delta, idx + 1, count)->0;
    assert forall|j: int, m: int| 0 <= j < count && 0 <= m < 4 implies #[trigger] t3[j * es + m] == table[j * es + m] by {
        lemma_rows_apart(j, count, es);
        lemma_not_offset_field(j * es + m, es, j, m, idx + 1, count);
        assert(t3[j * es + m] == t2[j * es + m]);
        if j < idx {
            lemma_rows_apart(j, idx, es);
        } else if j > idx {
            lemma_rows_apart(idx, j, es);
        }
    }
    assert forall|m: int| 0 <= m < 8 implies #[trigger] t3[idx * es + 0x18 + m] == table[idx * es + 0x18 + m] by {
        if in_offset_field(idx * es + 0x18 + m, es, idx + 1, count) {
            let q = choose|q: int| idx + 1 <= q < count && #[trigger] (q * es) + 0x18 <= idx * es + 0x18 + m < q * es + 0x20;
            lemma_rows_apart(idx, q, es);
        }
        assert(t3[idx * es + 0x18 + m] == t2[idx * es + 0x18 + m]);
    }
}

/// A name without zero bytes, no longer than the longest name read and followed by a zero byte, is
/// read back whole.
proof fn lemma_string_reads_name(s: Seq<u8>, at: int, name: Seq<u8>, size: int)
    requires
        0 <= at,
        name.len() <= 32,
        0 <= size <= name.len(),
        size == name.len() ==> name.len() < 32,
        at + name.len() < s.len(),
        forall|k: int| 0 <= k < name.len() ==> #[trigger] name[k] != 0,
        forall|k: int| 0 <= k < name.len() ==> #[trigger] s[at + k] == name[k],
        s[at + name.len()] == 0,
    ensures
        string_len_from(s, at, 32, size) == Some(name.len() as int),
    decreases name.len() - size,
{
    if size < name.len() {
        assert(s[at + size] == name[size]);
        if size + 1 < 32 {
            lemma_string_reads_name(s, at, name, size + 1);
        }
    }
}

/// How many values two, four and eight bytes hold.
proof fn lemma_byte_ranges()
    ensures
        byte_range(2) == 0x10000,
        byte_range(4) == 0x1_0000_0000,
        byte_range(8) == 0x1_0000_0000_0000_0000,
{
    reveal_with_fuel(byte_range, 9);
}

/// A number read from what follows a point of the data is the number read from the data itself.
proof fn lemma_le_value_skip(s: Seq<u8>, a: int, o: int, w: nat)
    requires
        0 <= a <= s.len(),
        in_range(s.skip(a), o, w as int),
    ensures
        le_value(s.skip(a), o, w) == le_value(s, a + o, w),
{
    assert forall|k: int| #![trigger s.skip(a)[o + k]] 0 <= k < w implies s.skip(a)[o + k] == s[(a + o) + k] by {}
    lemma_le_value_frame(s.skip(a), s, o, a + o, w);
}

/// The fields of an added section's header read back as they were written.
proof fn lemma_new_header_fields(es: nat, name_at: int, offset: int, size: int)
    requires
        es >= 0x28,
        0 <= name_at,
        0 <= offset < 0x1_0000_0000_0000_0000,
        0 <= size < 0x1_0000_0000_0000_0000,
    ensures
        elf_new_header(es, name_at, offset, size).len() == es,
        le_value(elf_new_header(es, name_at, offset, size), 0, 4) == name_at % 0x1_0000_0000,
        le_value(elf_new_header(es, name_at, offset, size), 0x18, 8) == offset,
        le_value(elf_new_header(es, name_at, offset, size), 0x20, 8) == size,
{
    lemma_byte_ranges();
    let a = name_at % 0x1_0000_0000;
    let h0 = zeros(es);
    let h1 = write_le(h0, 0, 4, a);
    let h2 = write_le(h1, 4, 4, 0x8000_0000);
    let h3 = write_le(h2, 0x18, 8, offset);
    let h4 = write_le(h3, 0x20, 8, size);
    lemma_write_le_bytes(h0, 0, 4, a);
    lemma_write_le_bytes(h1, 4, 4, 0x8000_0000);
    lemma_write_le_bytes(h2, 0x18, 8, offset);
    lemma_write_le_bytes(h3, 0x20, 8, size);
    lemma_le_written(h0, 0, 4, a);
    lemma_le_value_after_write(h1, 4, 4, 0x8000_0000, 0, 4);
    lemma_le_value_after_write(h2, 0x18, 8, offset, 0, 4);
    lemma_le_value_after_write(h3, 0x20, 8, size, 0, 4);
    lemma_le_written(h2, 0x18, 8, offset);
    lemma_le_value_after_write(h3, 0x20, 8, size, 0x18, 8);
    lemma_le_written(h3, 0x20, 8, size);
}

/// Whether an ELF file can take one more section with the given name, so that it is found
/// again: the name is no longer than the longest name read and holds no zero byte; the string table
/// of section names lies after the file header and is small enough for an offset into it to fit
/// a header's 32-bit name field; the count of sections has room for one more; and every section
/// already there has its name inside the string table.
pub open spec fn elf_room_for_section(s: Seq<u8>, name: Seq<u8>) -> bool {
    let table_at = le_value(s, 0x28, 8);
    let es = le_value(s, 0x3a, 2);
    let count = le_value(s, 0x3c, 2);
    let names_row = table_at + le_value(s, 0x3e, 2) * es;
    let names = le_value(s, names_row + 0x18, 8);
    let names_end = names + le_value(s, names_row + 0x20, 8);
    &&& name.len() <= 32
    &&& forall|k: int| 0 <= k < name.len() ==> #[trigger] name[k] != 0
    &&& names >= 0x40
    &&& le_value(s, names_row + 0x20, 8) < 0x1_0000_0000
    &&& count + 1 < 0x10000
    &&& forall|j: int| #![trigger (j * es)] 0 <= j < count ==>
        (string_len_from(s, names + le_value(s, table_at + j * es, 4), 32, 0) matches Some(n)
            ==> names + le_value(s, table_at + j * es, 4) + n < names_end)
}

/// Whether the data of one section lies where adding a section name keeps it, given whether the
/// section's row comes before the string table's: data before the end of the string table (and,
/// unless empty, after the file header) for a row before it, data between the end of the string
/// table and the table of headers for a row after it.
pub open spec fn elf_row_in_order(offset: int, size: int, before: bool, names_end: int, table_at: int) -> bool {
    if before {
        offset + size <= names_end && (size == 0 || offset >= 0x40)
    } else {
        names_end <= offset && offset + size <= table_at
    }
}

/// An ELF file grown as `elf_add` grows it, from its parts.
#[verifier::opaque]
spec fn grown_file(s: Seq<u8>, name: Seq<u8>, data: Seq<u8>, table3: Seq<u8>, header: Seq<u8>, t0: int,
    names_end: int, c: int) -> Seq<u8> {
    let body = s.take(t0);
    let body2 = body.take(names_end) + name.push(0u8) + body.skip(names_end);
    let x = body2 + data + (table3 + header);
    write_le(write_le(x, 0x28, 8, (body2.len() + data.len()) as int), 0x3c, 2, c)
}

/// Where the parts of a grown ELF file lie: the body up to the end of the string table as it
/// was, the new name and its terminating zero, the new section's data, and the table of headers
/// with the new header last.
proof fn lemma_grown_file_layout(
    s: Seq<u8>, name: Seq<u8>, data: Seq<u8>, table3: Seq<u8>, header: Seq<u8>,
    t0: int, names_end: int, c: int,
)
    requires
        0x40 <= names_end <= t0 <= s.len(),
    ensures
        ({
            let body = s.take(t0);
            let body2 = body.take(names_end) + name.push(0u8) + body.skip(names_end);
            let x = body2 + data + (table3 + header);
            let big_t = (body2.len() + data.len()) as int;
            let out = grown_file(s, name, data, table3, header, t0, names_end, c);
            &&& body2.len() == t0 + name.len() + 1
            &&& out.len() == big_t + table3.len() + header.len()
            &&& forall|p: int| 0x40 <= p < names_end ==> #[trigger] out[p] == s[p]
            &&& forall|p: int| 0 <= p < 7 ==> #[trigger] out[p] == s[p]
            &&& forall|k: int| 0 <= k < name.len() ==> #[trigger] out[names_end + k] == name[k]
            &&& out[names_end + name.len()] == 0
            &&& forall|k: int| 0 <= k < data.len() ==> #[trigger] out[body2.len() + k] == data[k]
            &&& forall|k: int| 0 <= k < table3.len() ==> #[trigger] out[big_t + k] == table3[k]
            &&& forall|k: int| 0 <= k < header.len() ==> #[trigger] out[big_t + table3.len() + k] == header[k]
            &&& forall|q: int| 0 <= q < t0 - names_end ==> #[trigger] out[names_end + name.len() + 1 + q] == s[names_end + q]
        }),
{
    reveal(grown_file);
    let body = s.take(t0);
    let inserted = name.push(0u8);
    let body2 = body.take(names_end) + inserted + body.skip(names_end);
    let x = body2 + data + (table3 + header);
    let big_t = (body2.len() + data.len()) as int;
    let x1 = write_le(x, 0x28, 8, big_t);
    let out = write_le(x1, 0x3c, 2, c);
    lemma_write_le_bytes(x, 0x28, 8, big_t);
    lemma_write_le_bytes(x1, 0x3c, 2, c);
    assert forall|p: int| 0 <= p < names_end implies #[trigger] x[p] == s[p] by {
        assert(x[p] == body2[p]);
        assert(body2[p] == body.take(names_end)[p]);
    }
    assert forall|p: int| 0x40 <= p < out.len() implies #[trigger] out[p] == x[p] by {}
    assert forall|p: int| 0x40 <= p < names_end implies #[trigger] out[p] == s[p] by {
        assert(out[p] == x[p]);
        assert(x[p] == s[p]);
    }
    assert forall|p: int| 0 <= p < 7 implies #[trigger] out[p] == s[p] by {
        assert(out[p] == x[p]);
        assert(x[p] == s[p]);
    }
    assert forall|k: int| 0 <= k < name.len() implies #[trigger] out[names_end + k] == name[k] by {
        assert(out[names_end + k] == x[names_end + k]);
        assert(x[names_end + k] == body2[names_end + k]);
        assert(body2[names_end + k] == inserted[k]);
    }
    assert(out[names_end + name.len()] == 0) by {
        assert(out[names_end + name.len()] == x[names_end + name.len()]);
        assert(x[names_end + name.len()] == body2[names_end + name.len()]);
        assert(body2[names_end + name.len()] == inserted[name.len() as int]);
    }
    assert forall|k: int| 0 <= k < data.len() implies #[trigger] out[body2.len() + k] == data[k] by {
        assert(out[body2.len() + k] == x[body2.len() + k]);
    }
    assert forall|k: int| 0 <= k < table3.len() implies #[trigger] out[big_t + k] == table3[k] by {
        assert(out[big_t + k] == x[big_t + k]);
    }
    assert forall|k: int| 0 <= k < header.len() implies #[trigger] out[big_t + table3.len() + k] == header[k] by {
        assert(out[big_t + table3.len() + k] == x[big_t + table3.len() + k]);
    }
    assert forall|q: int| 0 <= q < t0 - names_end implies #[trigger] out[names_end + name.len() + 1 + q] == s[names_end + q] by {
        let p = names_end + name.len() + 1 + q;
        assert(out[p] == x[p]);
        assert(x[p] == body2[p]);
        assert(body2[p] == body.skip(names_end)[q]);
    }
}

/// The file header of a grown ELF file: the table of headers moves to the end, and the count
/// is the one given; the entry size and the index of the string table's row stay.
proof fn lemma_grown_file_header(
    s: Seq<u8>, name: Seq<u8>, data: Seq<u8>, table3: Seq<u8>, header: Seq<u8>,
    t0: int, names_end: int, c: int,
)
    requires
        0x40 <= names_end <= t0 <= s.len(),
        0 <= c < 0x10000,
        t0 + name.len() + 1 + data.len() < 0x1_0000_0000_0000_0000,
    ensures
        ({
            let out = grown_file(s, name, data, table3, header, t0, names_end, c);
            &&& le_value(out, 0x28, 8) == t0 + name.len() + 1 + data.len()
            &&& le_value(out, 0x3a, 2) == le_value(s, 0x3a, 2)
            &&& le_value(out, 0x3c, 2) == c
            &&& le_value(out, 0x3e, 2) == le_value(s, 0x3e, 2)
        }),
{
    reveal(grown_file);
    lemma_byte_ranges();
    lemma_grown_file_layout(s, name, data, table3, header, t0, names_end, c);
    let body = s.take(t0);
    let body2 = body.take(names_end) + name.push(0u8) + body.skip(names_end);
    let x = body2 + data + (table3 + header);
    let big_t = (body2.len() + data.len()) as int;
    let x1 = write_le(x, 0x28, 8, big_t);
    assert forall|p: int| 0 <= p < names_end implies #[trigger] x[p] == s[p] by {
        assert(x[p] == body2[p]);
        assert(body2[p] == body.take(names_end)[p]);
    }
    lemma_le_value_after_write(x1, 0x3c, 2, c, 0x28, 8);
    lemma_le_written(x, 0x28, 8, big_t);
    lemma_write_le_bytes(x, 0x28, 8, big_t);
    lemma_le_written(x1, 0x3c, 2, c);
    lemma_le_value_after_write(x1, 0x3c, 2, c, 0x3a, 2);
    lemma_le_value_after_write(x, 0x28, 8, big_t, 0x3a, 2);
    lemma_le_value_after_write(x1, 0x3c, 2, c, 0x3e, 2);
    lemma_le_value_after_write(x, 0x28, 8, big_t, 0x3e, 2);
    assert forall|k: int| #![trigger x[0x3a + k]] 0 <= k < 2 implies x[0x3a + k] == s[0x3a + k] by {}
    lemma_le_value_frame(x, s, 0x3a, 0x3a, 2);
    assert forall|k: int| #![trigger x[0x3e + k]] 0 <= k < 2 implies x[0x3e + k] == s[0x3e + k] by {}
    lemma_le_value_frame(x, s, 0x3e, 0x3e, 2);
}

/// What `elf_add` checks of a file before growing it, and the grown file it then gives.
proof fn lemma_elf_add_parts(s: Seq<u8>, name: Seq<u8>, data: Seq<u8>)
    requires
        elf_add(s, name, data) is Some,
    ensures
        ({
            let t0 = le_value(s, 0x28, 8);
            let es = le_value(s, 0x3a, 2);
            let count = le_value(s, 0x3c, 2);
            let idx = le_value(s, 0x3e, 2);
            let table = s.skip(t0);
            let names = le_value(table, idx * es + 0x18, 8);
            let nsz = le_value(table, idx * es + 0x20, 8);
            let shifted = elf_shift_offsets(write_le(table, idx * es + 0x20, 8, nsz + name.len() + 1), es,
                name.len() + 1 as int, idx + 1, count);
            &&& elf_header_check(s) is Ok
            &&& es >= 0x28
            &&& 0 <= t0
            &&& s.len() == t0 + count * es
            &&& in_range(table, idx * es + 0x18, 8)
            &&& in_range(table, idx * es + 0x20, 8)
            &&& names + nsz <= t0
            &&& shifted is Some
            &&& elf_add(s, name, data) == Some(grown_file(s, name, data, shifted->0,
                elf_new_header(es as nat, nsz, t0 + name.len() + 1, data.len() as int), t0, names + nsz,
                (count + 1) % 0x10000))
        }),
{
    
    lemma_le_value_nonneg(s, 0x28, 8);
    let t0 = le_value(s, 0x28, 8);
    let es = le_value(s, 0x3a, 2);
    let count = le_value(s, 0x3c, 2);
    let idx = le_value(s, 0x3e, 2);
    let table = s.skip(t0);
    let body = s.take(t0);
    let names = le_value(table, idx * es + 0x18, 8);
    let nsz = le_value(table, idx * es + 0x20, 8);
    let inserted = name.push(0u8);
    let body2 = body.take(names + nsz) + inserted + body.skip(names + nsz);
    lemma_le_value_nonneg(s, 0x3a, 2);
    lemma_le_value_nonneg(s, 0x3c, 2);
    lemma_le_value_nonneg(table, idx * es + 0x18, 8);
    lemma_le_value_nonneg(table, idx * es + 0x20, 8);
    assert(count * es >= 0) by (nonlinear_arith) requires count >= 0, es >= 0;
    assert(elf_header_check(s) is Ok);
    assert(es >= 0x28);
    assert(s.len() == t0 + count * es);
    assert(in_range(table, idx * es + 0x20, 8));
    assert(names + nsz <= t0);
    assert(body2.len() == t0 + name.len() + 1);
    assert(inserted.len() == name.len() + 1);
    let table3 = elf_shift_offsets(write_le(table, idx * es + 0x20, 8, nsz + inserted.len()), es,
        inserted.len() as int, idx + 1, count)->0;
    let header = elf_new_header(es as nat, nsz, body2.len() as int, data.len() as int);
    let out = write_le(write_le(body2 + data + (table3 + header), 0x28, 8, (body2.len() + data.len()) as int),
        0x3c, 2, (count + 1) % 0x10000);
    assert(elf_add(s, name, data) == Some(out));
    assert(header == elf_new_header(es as nat, nsz, t0 + name.len() + 1, data.len() as int));
    lemma_grown_file_is(s, name, data, table3, header, t0, names + nsz, (count + 1) % 0x10000);
}

/// `grown_file` spelled out.
proof fn lemma_grown_file_is(s: Seq<u8>, name: Seq<u8>, data: Seq<u8>, table3: Seq<u8>, header: Seq<u8>, t0: int,
    names_end: int, c: int)
    ensures
        ({
            let body = s.take(t0);
            let body2 = body.take(names_end) + name.push(0u8) + body.skip(names_end);
            grown_file(s, name, data, table3, header, t0, names_end, c)
                == write_le(write_le(body2 + data + (table3 + header), 0x28, 8, (body2.len() + data.len()) as int), 0x3c, 2, c)
        }),
{
    reveal(grown_file);
}

/// A file grown by one section with a new name finds that section by its name.
#[verifier::rlimit(60)]
proof fn lemma_grown_file_finds(
    s: Seq<u8>, name: Seq<u8>, data: Seq<u8>, table3: Seq<u8>, header: Seq<u8>,
)
    requires
        elf_lookup(s, name) == SectionLookup::NotFound,
        elf_room_for_section(s, name),
        ({
            let t0 = le_value(s, 0x28, 8);
            let es = le_value(s, 0x3a, 2);
            let count = le_value(s, 0x3c, 2);
            let idx = le_value(s, 0x3e, 2);
            let table = s.skip(t0);
            let names = le_value(table, idx * es + 0x18, 8);
            let nsz = le_value(table, idx * es + 0x20, 8);
            &&& elf_header_check(s) is Ok
            &&& es >= 0x28
            &&& 0 <= t0
            &&& s.len() == t0 + count * es
            &&& in_range(table, idx * es + 0x18, 8)
            &&& in_range(table, idx * es + 0x20, 8)
            &&& names + nsz <= t0
            &&& table3.len() == table.len()
            &&& forall|j: int, m: int| 0 <= j < count && 0 <= m < 4 ==> #[trigger] table3[j * es + m] == table[j * es + m]
            &&& forall|m: int| 0 <= m < 8 ==> #[trigger] table3[idx * es + 0x18 + m] == table[idx * es + 0x18 + m]
            &&& header.len() == es
            &&& le_value(header, 0, 4) == nsz % 0x1_0000_0000
            &&& le_value(header, 0x18, 8) == t0 + name.len() + 1
            &&& le_value(header, 0x20, 8) == data.len()
            &&& grown_file(s, name, data, table3, header, t0, names + nsz, (count + 1) % 0x10000).len()
                < 0x1_0000_0000_0000_0000
        }),
    ensures
        ({
            let t0 = le_value(s, 0x28, 8);
            let es = le_value(s, 0x3a, 2);
            let count = le_value(s, 0x3c, 2);
            let idx = le_value(s, 0x3e, 2);
            let table = s.skip(t0);
            let names_end = le_value(table, idx * es + 0x18, 8) + le_value(table, idx * es + 0x20, 8);
            elf_lookup(grown_file(s, name, data, table3, header, t0, names_end, (count + 1) % 0x10000), name)
                == SectionLookup::Found(data)
        }),
{
    lemma_byte_ranges();
    let t0 = le_value(s, 0x28, 8);
    let es = le_value(s, 0x3a, 2);
    let count = le_value(s, 0x3c, 2);
    let idx = le_value(s, 0x3e, 2);
    let entry = idx * es;
    let table = s.skip(t0);
    let names = le_value(table, entry + 0x18, 8);
    let nsz = le_value(table, entry + 0x20, 8);
    let names_end = names + nsz;
    let c = (count + 1) % 0x10000;
    let out = grown_file(s, name, data, table3, header, t0, names_end, c);
    lemma_le_value_nonneg(s, 0x3a, 2);
    lemma_le_value_nonneg(s, 0x3c, 2);
    lemma_le_value_nonneg(s, 0x3e, 2);
    lemma_le_value_nonneg(table, entry + 0x18, 8);
    lemma_le_value_nonneg(table, entry + 0x20, 8);
    assert(count * es >= 0) by (nonlinear_arith) requires count >= 0, es >= 0;
    assert(idx * es >= 0) by (nonlinear_arith) requires idx >= 0, es >= 0;
    assert(idx < count) by {
        if idx >= count {
            assert(idx * es >= count * es) by (nonlinear_arith) requires idx >= count, es >= 0;
        }
    }
    lemma_le_value_skip(s, t0, entry + 0x18, 8);
    lemma_le_value_skip(s, t0, entry + 0x20, 8);
    assert(c == count + 1);
    lemma_grown_file_layout(s, name, data, table3, header, t0, names_end, c);
    let body2_len = t0 + name.len() + 1;
    let big_t = body2_len + data.len();
    assert(out.len() == big_t + count * es + es);
    lemma_grown_file_header(s, name, data, table3, header, t0, names_end, c);

    // The string table is found where it was.
    assert forall|k: int| #![trigger out[(big_t + entry + 0x18) + k]] 0 <= k < 8 implies
        out[(big_t + entry + 0x18) + k] == table[(entry + 0x18) + k] by {
        assert(out[big_t + (entry + 0x18 + k)] == table3[entry + 0x18 + k]);
        assert(table3[idx * es + 0x18 + k] == table[idx * es + 0x18 + k]);
        assert(table[(entry + 0x18) + k] == table[idx * es + 0x18 + k]);
    }
    lemma_le_value_frame(out, table, big_t + entry + 0x18, entry + 0x18, 8);

    // The new section's header, and what it points to.
    assert forall|k: int| 0 <= k < es implies #[trigger] out[big_t + count * es + k] == header[k] by {
        assert(out[big_t + table3.len() + k] == header[k]);
    }
    lemma_new_entry_found(out, name, data, header, names, names_end, body2_len, big_t, es, count);

    // The sections that were there before keep their names.
    assert forall|k: int| 0 <= k < table3.len() implies #[trigger] out[big_t + k] == table3[k] by {}
    lemma_old_rows_kept(s, out, table3, t0, big_t, es, count);
    assert(elf_section_search(s, name, t0, es, count, names, 0) == SectionLookup::NotFound);
    lemma_search_reaches_new_entry(s, out, name, data, t0, big_t, es, count, names, names_end, 0);
    assert(elf_header_check(out) is Ok) by {
        assert forall|k: int| 0 <= k < 4 implies #[trigger] out.subrange(0, 4)[k] == s.subrange(0, 4)[k] by {
            assert(out[k] == s[k]);
        }
        assert(out.subrange(0, 4) =~= s.subrange(0, 4));
        assert(out[4] == s[4] && out[5] == s[5] && out[6] == s[6]);
    }
    assert(le_value(out, 0x28, 8) == big_t);
    assert(le_value(out, 0x3a, 2) == es);
    assert(le_value(out, 0x3c, 2) == count + 1);
    assert(le_value(out, 0x3e, 2) == idx);
    assert(in_range(out, big_t + idx * es + 0x18, 8));
    assert(le_value(out, big_t + idx * es + 0x18, 8) == names);
    assert(elf_lookup(out, name) == elf_section_search(out, name, big_t, es, count + 1, names, 0));
}

/// The header added last to a table of section headers finds the new section by its name.
proof fn lemma_new_entry_found(
    out: Seq<u8>, name: Seq<u8>, data: Seq<u8>, header: Seq<u8>,
    names: int, names_end: int, body2_len: int, big_t: int, es: int, count: int,
)
    requires
        es >= 0x28,
        count >= 0,
        0 <= names <= names_end,
        names_end + name.len() < body2_len,
        big_t == body2_len + data.len(),
        out.len() == big_t + count * es + es,
        out.len() < 0x1_0000_0000_0000_0000,
        header.len() == es,
        le_value(header, 0, 4) == names_end - names,
        le_value(header, 0x18, 8) == body2_len,
        le_value(header, 0x20, 8) == data.len(),
        forall|k: int| 0 <= k < es ==> #[trigger] out[big_t + count * es + k] == header[k],
        name.len() <= 32,
        forall|k: int| 0 <= k < name.len() ==> #[trigger] name[k] != 0,
        forall|k: int| 0 <= k < name.len() ==> #[trigger] out[names_end + k] == name[k],
        out[names_end + name.len()] == 0,
        forall|k: int| 0 <= k < data.len() ==> #[trigger] out[body2_len + k] == data[k],
    ensures
        elf_section_search(out, name, big_t, es, count + 1, names, count) == SectionLookup::Found(data),
        in_range(out, big_t + count * es, 4),
        string_at(out, names + le_value(out, big_t + count * es, 4), 32) == Some(name),
{
    assert(count * es >= 0) by (nonlinear_arith) requires count >= 0, es >= 0;
    let h = big_t + count * es;
    assert forall|k: int| #![trigger out[h + k]] 0 <= k < es implies out[h + k] == header[0 + k] by {
        assert(out[big_t + count * es + k] == header[k]);
    }
    lemma_le_value_frame(out, header, h, 0, 4);
    assert forall|k: int| #![trigger out[(h + 0x18) + k]] 0 <= k < 8 implies out[(h + 0x18) + k] == header[0x18 + k] by {
        assert(out[h + (0x18 + k)] == header[0 + (0x18 + k)]);
    }
    lemma_le_value_frame(out, header, h + 0x18, 0x18, 8);
    assert forall|k: int| #![trigger out[(h + 0x20) + k]] 0 <= k < 8 implies out[(h + 0x20) + k] == header[0x20 + k] by {
        assert(out[h + (0x20 + k)] == header[0 + (0x20 + k)]);
    }
    lemma_le_value_frame(out, header, h + 0x20, 0x20, 8);
    lemma_string_reads_name(out, names_end, name, 0);
    assert(string_at(out, names + le_value(out, h, 4), 32) == Some(name)) by {
        assert forall|k: int| 0 <= k < name.len() implies #[trigger] out.subrange(names_end, names_end + name.len())[k]
            == name[k] by {
            assert(out[names_end + k] == name[k]);
        }
        assert(out.subrange(names_end, names_end + name.len()) =~= name);
    }
    assert(section_data(out, body2_len, data.len() as int) =~= data) by {
        assert forall|k: int| 0 <= k < data.len() implies #[trigger] out.subrange(body2_len, body2_len + data.len())[k]
            == data[k] by {
            assert(out[body2_len + k] == data[k]);
        }
    }
}

/// The header added last names the new section, so it is passed over when looking for another
/// name.
proof fn lemma_new_entry_other_name(out: Seq<u8>, name: Seq<u8>, n: Seq<u8>, names: int, big_t: int, es: int, count: int)
    requires
        n != name,
        0 <= names,
        0 <= big_t,
        es >= 0x28,
        count >= 0,
        out.len() < 0x1_0000_0000_0000_0000,
        in_range(out, big_t + count * es, 4),
        string_at(out, names + le_value(out, big_t + count * es, 4), 32) == Some(name),
    ensures
        elf_section_search(out, n, big_t, es, count + 1, names, count) == SectionLookup::NotFound,
{
    let h = big_t + count * es;
    lemma_le_value_nonneg(out, h, 4);
    assert(string_len_from(out, names + le_value(out, h, 4), 32, 0) is Some);
    assert(names + le_value(out, h, 4) < out.len());
    assert(elf_section_search(out, n, big_t, es, count + 1, names, count + 1) == SectionLookup::NotFound);
}

/// The rows of the table of headers that were there before begin as they did.
proof fn lemma_old_rows_kept(s: Seq<u8>, out: Seq<u8>, table3: Seq<u8>, t0: int, big_t: int, es: int, count: int)
    requires
        es >= 0x28,
        0 <= t0,
        0 <= big_t,
        table3.len() == count * es,
        s.len() == t0 + count * es,
        out.len() >= big_t + count * es,
        forall|k: int| 0 <= k < table3.len() ==> #[trigger] out[big_t + k] == table3[k],
        forall|j: int, m: int| 0 <= j < count && 0 <= m < 4 ==> #[trigger] table3[j * es + m] == s.skip(t0)[j * es + m],
    ensures
        forall|j: int| #![trigger (j * es)] 0 <= j < count ==> in_range(out, big_t + j * es, 4)
            && forall|m: int| 0 <= m < 4 ==> #[trigger] out[big_t + j * es + m] == s[t0 + j * es + m],
{
    assert forall|j: int| #![trigger (j * es)] 0 <= j < count implies in_range(out, big_t + j * es, 4)
        && forall|m: int| 0 <= m < 4 ==> #[trigger] out[big_t + j * es + m] == s[t0 + j * es + m] by {
        lemma_rows_apart(j, count, es);
        assert(j * es >= 0) by (nonlinear_arith) requires j >= 0, es >= 0;
        assert forall|m: int| 0 <= m < 4 implies #[trigger] out[big_t + j * es + m] == s[t0 + j * es + m] by {
            assert(out[big_t + (j * es + m)] == table3[j * es + m]);
            assert(table3[j * es + m] == s.skip(t0)[j * es + m]);
        }
    }
}

/// A file grown as `elf_add` grows it finds the new section by its name, where no section had
/// that name before and the file has room for it.
proof fn lemma_grown_as_added_finds(s: Seq<u8>, name: Seq<u8>, data: Seq<u8>)
    requires
        elf_lookup(s, name) == SectionLookup::NotFound,
        elf_room_for_section(s, name),
        ({
            let t0 = le_value(s, 0x28, 8);
            let es = le_value(s, 0x3a, 2);
            let count = le_value(s, 0x3c, 2);
            let idx = le_value(s, 0x3e, 2);
            let table = s.skip(t0);
            let names = le_value(table, idx * es + 0x18, 8);
            let nsz = le_value(table, idx * es + 0x20, 8);
            let shifted = elf_shift_offsets(write_le(table, idx * es + 0x20, 8, nsz + name.len() + 1), es,
                name.len() + 1 as int, idx + 1, count);
            &&& elf_header_check(s) is Ok
            &&& es >= 0x28
            &&& 0 <= t0
            &&& s.len() == t0 + count * es
            &&& in_range(table, idx * es + 0x18, 8)
            &&& in_range(table, idx * es + 0x20, 8)
            &&& names + nsz <= t0
            &&& shifted is Some
            &&& grown_file(s, name, data, shifted->0,
                elf_new_header(es as nat, nsz, t0 + name.len() + 1, data.len() as int), t0, names + nsz,
                (count + 1) % 0x10000).len() < 0x1_0000_0000_0000_0000
        }),
    ensures
        ({
            let t0 = le_value(s, 0x28, 8);
            let es = le_value(s, 0x3a, 2);
            let count = le_value(s, 0x3c, 2);
            let idx = le_value(s, 0x3e, 2);
            let table = s.skip(t0);
            let names = le_value(table, idx * es + 0x18, 8);
            let nsz = le_value(table, idx * es + 0x20, 8);
            let shifted = elf_shift_offsets(write_le(table, idx * es + 0x20, 8, nsz + name.len() + 1), es,
                name.len() + 1 as int, idx + 1, count);
            elf_lookup(grown_file(s, name, data, shifted->0,
                elf_new_header(es as nat, nsz, t0 + name.len() + 1, data.len() as int), t0, names + nsz,
                (count + 1) % 0x10000), name) == SectionLookup::Found(data)
        }),
{
    let t0 = le_value(s, 0x28, 8);
    let es = le_value(s, 0x3a, 2);
    let count = le_value(s, 0x3c, 2);
    let idx = le_value(s, 0x3e, 2);
    let table = s.skip(t0);
    let names = le_value(table, idx * es + 0x18, 8);
    let nsz = le_value(table, idx * es + 0x20, 8);
    let table3 = elf_shift_offsets(write_le(table, idx * es + 0x20, 8, nsz + name.len() + 1), es,
        name.len() + 1 as int, idx + 1, count)->0;
    let header = elf_new_header(es as nat, nsz, t0 + name.len() + 1, data.len() as int);
    let c = (count + 1) % 0x10000;
    lemma_le_value_nonneg(s, 0x3a, 2);
    lemma_le_value_nonneg(s, 0x3c, 2);
    lemma_le_value_nonneg(s, 0x3e, 2);
    assert(count * es >= 0) by (nonlinear_arith) requires count >= 0, es >= 0;
    assert(idx < count) by {
        if idx >= count {
            assert(idx * es >= count * es) by (nonlinear_arith) requires idx >= count, es >= 0;
        }
    }
    assert(idx * es >= 0) by (nonlinear_arith) requires idx >= 0, es >= 0;
    lemma_le_value_nonneg(table, idx * es + 0x18, 8);
    lemma_le_value_nonneg(table, idx * es + 0x20, 8);
    lemma_le_value_skip(s, t0, idx * es + 0x18, 8);
    lemma_table_kept(table, es, idx, count, nsz + name.len() + 1, name.len() + 1 as int);
    lemma_grown_file_layout(s, name, data, table3, header, t0, names + nsz, c);
    lemma_new_header_fields(es as nat, nsz, t0 + name.len() + 1, data.len() as int);
    lemma_grown_file_finds(s, name, data, table3, header);
}

/// A section added to an ELF file is found again by its name, with the contents it was given,
/// where no section had that name before and the file has room for it.
pub proof fn lemma_elf_added_section_found(s: Seq<u8>, name: Seq<u8>, data: Seq<u8>)
    requires
        elf_lookup(s, name) == SectionLookup::NotFound,
        elf_room_for_section(s, name),
        elf_add(s, name, data) is Some,
        elf_add(s, name, data)->0.len() < 0x1_0000_0000_0000_0000,
    ensures
        elf_lookup(elf_add(s, name, data)->0, name) == SectionLookup::Found(data),
{
    lemma_elf_add_parts(s, name, data);
    lemma_grown_as_added_finds(s, name, data);
}

/// Shifting the file offsets of section headers adds the shift to each offset from entry `i` on.
proof fn lemma_shift_offsets_values(t: Seq<u8>, es: int, delta: int, i: int, count: int)
    requires
        elf_shift_offsets(t, es, delta, i, count) is Some,
        es >= 0x28,
        0 <= i,
        0 <= delta,
        t.len() == count * es,
    ensures
        forall|j: int| #![trigger (j * es)] i <= j < count ==>
            le_value(elf_shift_offsets(t, es, delta, i, count)->0, j * es + 0x18, 8) == le_value(t, j * es + 0x18, 8) + delta,
    decreases count - i,
{
    if i < count {
        lemma_byte_ranges();
        let at = i * es + 0x18;
        let v = le_value(t, at, 8) + delta;
        let t1 = write_le(t, at, 8, v);
        lemma_rows_apart(i, count, es);
        assert(i * es >= 0) by (nonlinear_arith) requires i >= 0, es >= 0;
        lemma_write_le_bytes(t, at, 8, v);
        lemma_le_value_nonneg(t, at, 8);
        lemma_le_written(t, at, 8, v);
        lemma_shift_offsets_values(t1, es, delta, i + 1, count);
        lemma_shift_offsets_frame(t1, es, delta, i + 1, count);
        let r = elf_shift_offsets(t, es, delta, i, count)->0;
        assert(r == elf_shift_offsets(t1, es, delta, i + 1, count)->0);
        assert forall|j: int| #![trigger (j * es)] i <= j < count implies
            le_value(r, j * es + 0x18, 8) == le_value(t, j * es + 0x18, 8) + delta by {
            if j == i {
                assert forall|k: int| #![trigger r[at + k]] 0 <= k < 8 implies r[at + k] == t1[at + k] by {
                    if in_offset_field(at + k, es, i + 1, count) {
                        let q = choose|q: int| i + 1 <= q < count && #[trigger] (q * es) + 0x18 <= at + k < q * es + 0x20;
                        lemma_rows_apart(i, q, es);
                    }
                }
                lemma_le_value_frame(r, t1, at, at, 8);
            } else {
                lemma_rows_apart(i, j, es);
                lemma_rows_apart(j, count, es);
                lemma_le_value_after_write(t, at, 8, v, j * es + 0x18, 8);
            }
        }
    }
}

/// The sizes and file offsets in a table of section headers after a section name is added: the
/// string table's own row aside, every size stays, the offsets of the rows before it stay, and
/// the offsets of the rows after it move by the length added.
proof fn lemma_grown_rows(table: Seq<u8>, es: int, idx: int, count: int, size: int, delta: int)
    requires
        es >= 0x28,
        0 <= idx < count,
        0 <= delta,
        table.len() == count * es,
        elf_shift_offsets(write_le(table, idx * es + 0x20, 8, size), es, delta, idx + 1, count) is Some,
    ensures
        ({
            let t3 = elf_shift_offsets(write_le(table, idx * es + 0x20, 8, size), es, delta, idx + 1, count)->0;
            &&& forall|j: int| #![trigger (j * es)] 0 <= j < count && j != idx ==>
                le_value(t3, j * es + 0x20, 8) == le_value(table, j * es + 0x20, 8)
            &&& forall|j: int| #![trigger (j * es)] 0 <= j < idx ==>
                le_value(t3, j * es + 0x18, 8) == le_value(table, j * es + 0x18, 8)
            &&& forall|j: int| #![trigger (j * es)] idx < j < count ==>
                le_value(t3, j * es + 0x18, 8) == le_value(table, j * es + 0x18, 8) + delta
        }),
{
    let at = idx * es + 0x20;
    lemma_rows_apart(idx, count, es);
    assert(idx * es >= 0) by (nonlinear_arith) requires idx >= 0, es >= 0;
    let t2 = write_le(table, at, 8, size);
    lemma_write_le_bytes(table, at, 8, size);
    lemma_shift_offsets_frame(t2, es, delta, idx + 1, count);
    lemma_shift_offsets_values(t2, es, delta, idx + 1, count);
    let t3 = elf_shift_offsets(t2, es, delta, idx + 1, count)->0;
    assert forall|j: int| #![trigger (j * es)] 0 <= j < count && j != idx implies
        le_value(t3, j * es + 0x20, 8) == le_value(table, j * es + 0x20, 8) by {
        lemma_rows_apart(j, count, es);
        assert(j * es >= 0) by (nonlinear_arith) requires j >= 0, es >= 0;
        if j < idx {
            lemma_rows_apart(j, idx, es);
        } else {
            lemma_rows_apart(idx, j, es);
        }
        assert forall|k: int| #![trigger t3[(j * es + 0x20) + k]] 0 <= k < 8 implies
            t3[(j * es + 0x20) + k] == table[(j * es + 0x20) + k] by {
            lemma_not_offset_field(j * es + 0x20 + k, es, j, 0x20 + k, idx + 1, count);
        }
        lemma_le_value_frame(t3, table, j * es + 0x20, j * es + 0x20, 8);
    }
    assert forall|j: int| #![trigger (j * es)] 0 <= j < idx implies
        le_value(t3, j * es + 0x18, 8) == le_value(table, j * es + 0x18, 8) by {
        lemma_rows_apart(j, idx, es);
        assert(j * es >= 0) by (nonlinear_arith) requires j >= 0, es >= 0;
        assert forall|k: int| #![trigger t3[(j * es + 0x18) + k]] 0 <= k < 8 implies
            t3[(j * es + 0x18) + k] == table[(j * es + 0x18) + k] by {
            if in_offset_field(j * es + 0x18 + k, es, idx + 1, count) {
                let q = choose|q: int| idx + 1 <= q < count && #[trigger] (q * es) + 0x18 <= j * es + 0x18 + k < q * es + 0x20;
                lemma_rows_apart(j, q, es);
            }
        }
        lemma_le_value_frame(t3, table, j * es + 0x18, j * es + 0x18, 8);
    }
    assert forall|j: int| #![trigger (j * es)] idx < j < count implies
        le_value(t3, j * es + 0x18, 8) == le_value(table, j * es + 0x18, 8) + delta by {
        lemma_rows_apart(idx, j, es);
        lemma_rows_apart(j, count, es);
        lemma_le_value_after_write(table, at, 8, size, j * es + 0x18, 8);
    }
}

/// Searching the section headers of a file grown by one section finds, for any name other than
/// the new one and the string table's own, what the search of the file before found: earlier
/// rows keep their names and sizes, and each row's data is found where it moved to.
#[verifier::rlimit(60)]
#[verifier::spinoff_prover]
proof fn lemma_search_kept(
    s: Seq<u8>, out: Seq<u8>, n: Seq<u8>,
    t0: int, big_t: int, es: int, count: int, idx: int, names: int, names_end: int, delta: int, i: int,
)
    requires
        0 <= i <= count,
        es >= 0x28,
        0 <= idx < count,
        0 < delta,
        0x40 <= names <= names_end <= t0,
        s.len() == t0 + count * es,
        big_t >= t0 + delta,
        out.len() >= big_t + count * es,
        out.len() < 0x1_0000_0000_0000_0000,
        !(elf_section_search(s, n, t0, es, count, names, i) is Malformed),
        elf_section_search(out, n, big_t, es, count + 1, names, count) == SectionLookup::NotFound,
        string_at(s, names + le_value(s, t0 + idx * es, 4), 32) != Some(n),
        forall|j: int| #![trigger (j * es)] i <= j < count ==>
            forall|m: int| 0 <= m < 4 ==> #[trigger] out[big_t + j * es + m] == s[t0 + j * es + m],
        forall|j: int| #![trigger (j * es)] i <= j < count && j != idx ==>
            le_value(out, big_t + j * es + 0x20, 8) == le_value(s, t0 + j * es + 0x20, 8),
        forall|j: int| #![trigger (j * es)] i <= j < idx ==>
            le_value(out, big_t + j * es + 0x18, 8) == le_value(s, t0 + j * es + 0x18, 8),
        forall|j: int| #![trigger (j * es)] i <= j < count && idx < j ==>
            le_value(out, big_t + j * es + 0x18, 8) == le_value(s, t0 + j * es + 0x18, 8) + delta,
        forall|j: int| #![trigger (j * es)] i <= j < count ==>
            (string_len_from(s, names + le_value(s, t0 + j * es, 4), 32, 0) matches Some(k)
                ==> names + le_value(s, t0 + j * es, 4) + k < names_end),
        forall|j: int| #![trigger (j * es)] i <= j < count && j != idx ==>
            elf_row_in_order(le_value(s, t0 + j * es + 0x18, 8), le_value(s, t0 + j * es + 0x20, 8), j < idx, names_end, t0),
        forall|p: int| 0x40 <= p < names_end ==> #[trigger] out[p] == s[p],
        forall|q: int| 0 <= q < t0 - names_end ==> #[trigger] out[names_end + delta + q] == s[names_end + q],
    ensures
        elf_section_search(out, n, big_t, es, count + 1, names, i) == elf_section_search(s, n, t0, es, count, names, i),
    decreases count - i,
{
    if i < count {
        lemma_rows_apart(i, count, es);
        assert(i * es >= 0) by (nonlinear_arith) requires i >= 0, es >= 0;
        let h = t0 + i * es;
        let h2 = big_t + i * es;
        assert(in_range(s, h, 4));
        let off = le_value(s, h, 4);
        assert(in_range(out, h2, 4));
        assert forall|m: int| 0 <= m < 4 implies #[trigger] out[h2 + m] == s[h + m] by {
            assert(out[big_t + i * es + m] == s[t0 + i * es + m]);
        }
        lemma_le_value_frame(out, s, h2, h, 4);
        assert(le_value(out, h2, 4) == off);
        assert(string_at(s, names + off, 32) is Some);
        let nm = string_at(s, names + off, 32)->0;
        let k = string_len_from(s, names + off, 32, 0)->0;
        lemma_le_value_nonneg(s, h, 4);
        assert(names + off + k < names_end);
        lemma_string_len_at_least(s, names + off, 32, 0);
        assert forall|kk: int| #![trigger s[(names + off) + kk]] 0 <= kk <= k && kk < 32 implies
            s[(names + off) + kk] == out[(names + off) + kk] by {
            assert(0x40 <= (names + off) + kk < names_end);
        }
        lemma_string_len_frame(s, out, names + off, names + off, 32, 0, k);
        assert(out.subrange(names + off, names + off + k) =~= s.subrange(names + off, names + off + k)) by {
            assert forall|kk: int| 0 <= kk < k implies #[trigger] out.subrange(names + off, names + off + k)[kk]
                == s.subrange(names + off, names + off + k)[kk] by {
                assert(0x40 <= names + off + kk < names_end);
                assert(out[names + off + kk] == s[names + off + kk]);
            }
        }
        assert(string_at(out, names + off, 32) == Some(nm));
        if nm == n {
            assert(i != idx);
            let d_off = le_value(s, h + 0x18, 8);
            let d_size = le_value(s, h + 0x20, 8);
            lemma_le_value_nonneg(s, h + 0x18, 8);
            lemma_le_value_nonneg(s, h + 0x20, 8);
            assert(le_value(out, h2 + 0x20, 8) == d_size);
            assert(elf_row_in_order(d_off, d_size, i < idx, names_end, t0));
            if i < idx {
                assert(le_value(out, h2 + 0x18, 8) == d_off);
                assert(section_data(out, d_off, d_size) =~= section_data(s, d_off, d_size)) by {
                    if d_size > 0 {
                        assert forall|kk: int| 0 <= kk < d_size implies #[trigger] out.subrange(d_off, d_off + d_size)[kk]
                            == s.subrange(d_off, d_off + d_size)[kk] by {
                            assert(out[d_off + kk] == s[d_off + kk]);
                        }
                    }
                }
            } else {
                assert(le_value(out, h2 + 0x18, 8) == d_off + delta);
                assert(section_data(out, d_off + delta, d_size) =~= section_data(s, d_off, d_size)) by {
                    assert forall|kk: int| 0 <= kk < d_size implies #[trigger] out.subrange(d_off + delta, d_off + delta + d_size)[kk]
                        == s.subrange(d_off, d_off + d_size)[kk] by {
                        let q = d_off - names_end + kk;
                        assert(out[names_end + delta + q] == s[names_end + q]);
                    }
                }
            }
        } else {
            lemma_search_kept(s, out, n, t0, big_t, es, count, idx, names, names_end, delta, i + 1);
        }
    }
}

/// The shape of an ELF file with a section added: it grows by the new name and its terminating
/// zero, the new data and one more header; the count of sections goes up by one (as a 16-bit
/// field); the table of headers ends the file; and the string table of section names grows by the
/// name and its zero. This holds where the string table ends after the file header (so that the
/// name is not inserted into the header's own fields).
#[verifier::rlimit(60)]
#[verifier::spinoff_prover]
pub proof fn lemma_elf_add_shape(s: Seq<u8>, name: Seq<u8>, data: Seq<u8>)
    requires
        elf_add(s, name, data) is Some,
        elf_add(s, name, data)->0.len() < 0x1_0000_0000_0000_0000,
        ({
            let row = le_value(s, 0x28, 8) + le_value(s, 0x3e, 2) * le_value(s, 0x3a, 2);
            le_value(s, row + 0x18, 8) + le_value(s, row + 0x20, 8) >= 0x40
        }),
    ensures
        ({
            let out = elf_add(s, name, data)->0;
            let es = le_value(s, 0x3a, 2);
            let count = le_value(s, 0x3c, 2);
            let idx = le_value(s, 0x3e, 2);
            let nsz = le_value(s, le_value(s, 0x28, 8) + idx * es + 0x20, 8);
            &&& out.len() == s.len() + name.len() + 1 + data.len() + es
            &&& le_value(out, 0x3c, 2) == (count + 1) % 0x10000
            &&& le_value(out, 0x28, 8) == out.len() - (count + 1) * es
            &&& le_value(out, le_value(out, 0x28, 8) + idx * es + 0x20, 8) == nsz + name.len() + 1
        }),
{
    lemma_byte_ranges();
    lemma_elf_add_parts(s, name, data);
    let t0 = le_value(s, 0x28, 8);
    let es = le_value(s, 0x3a, 2);
    let count = le_value(s, 0x3c, 2);
    let idx = le_value(s, 0x3e, 2);
    let table = s.skip(t0);
    let names = le_value(table, idx * es + 0x18, 8);
    let nsz = le_value(table, idx * es + 0x20, 8);
    let delta = name.len() + 1 as int;
    let t2 = write_le(table, idx * es + 0x20, 8, nsz + delta);
    let table3 = elf_shift_offsets(t2, es, delta, idx + 1, count)->0;
    let header = elf_new_header(es as nat, nsz, t0 + name.len() + 1, data.len() as int);
    let c = (count + 1) % 0x10000;
    let out = elf_add(s, name, data)->0;
    lemma_le_value_nonneg(s, 0x3a, 2);
    lemma_le_value_nonneg(s, 0x3c, 2);
    lemma_le_value_nonneg(s, 0x3e, 2);
    assert(count * es >= 0) by (nonlinear_arith) requires count >= 0, es >= 0;
    assert(idx * es >= 0) by (nonlinear_arith) requires idx >= 0, es >= 0;
    assert(idx < count) by {
        if idx >= count {
            assert(idx * es >= count * es) by (nonlinear_arith) requires idx >= count, es >= 0;
        }
    }
    lemma_rows_apart(idx, count, es);
    lemma_le_value_nonneg(table, idx * es + 0x18, 8);
    lemma_le_value_nonneg(table, idx * es + 0x20, 8);
    lemma_le_value_skip(s, t0, idx * es + 0x20, 8);
    lemma_le_value_skip(s, t0, idx * es + 0x18, 8);
    lemma_le_value_bound(table, idx * es + 0x20, 8);
    lemma_table_kept(table, es, idx, count, nsz + delta, delta);
    lemma_new_header_fields(es as nat, nsz, t0 + name.len() + 1, data.len() as int);
    lemma_grown_file_layout(s, name, data, table3, header, t0, names + nsz, c);
    lemma_grown_file_header(s, name, data, table3, header, t0, names + nsz, c);
    let big_t = t0 + name.len() + 1 + data.len();
    assert(out.len() == big_t + count * es + es);
    assert((count + 1) * es == count * es + es) by (nonlinear_arith);
    // The string table's size, as written and left by the shift.
    lemma_grown_names_size(table, es, idx, count, nsz + delta, delta);
    assert forall|k: int| #![trigger out[(big_t + idx * es + 0x20) + k]] 0 <= k < 8 implies
        out[(big_t + idx * es + 0x20) + k] == table3[(idx * es + 0x20) + k] by {
        assert(out[big_t + (idx * es + 0x20 + k)] == table3[idx * es + 0x20 + k]);
    }
    lemma_le_value_frame(out, table3, big_t + idx * es + 0x20, idx * es + 0x20, 8);
}

/// The size of the string table's row after the new size is written and the later offsets are
/// shifted: the new size.
proof fn lemma_grown_names_size(table: Seq<u8>, es: int, idx: int, count: int, size: int, delta: int)
    requires
        es >= 0x28,
        0 <= idx < count,
        0 <= size < 0x1_0000_0000_0000_0000,
        table.len() == count * es,
        elf_shift_offsets(write_le(table, idx * es + 0x20, 8, size), es, delta, idx + 1, count) is Some,
    ensures
        le_value(elf_shift_offsets(write_le(table, idx * es + 0x20, 8, size), es, delta, idx + 1, count)->0,
            idx * es + 0x20, 8) == size,
{
    lemma_byte_ranges();
    let t2 = write_le(table, idx * es + 0x20, 8, size);
    let t3 = elf_shift_offsets(t2, es, delta, idx + 1, count)->0;
    lemma_rows_apart(idx, count, es);
    assert(idx * es >= 0) by (nonlinear_arith) requires idx >= 0, es >= 0;
    lemma_write_le_bytes(table, idx * es + 0x20, 8, size);
    lemma_le_written(table, idx * es + 0x20, 8, size);
    lemma_shift_offsets_frame(t2, es, delta, idx + 1, count);
    assert forall|k: int| #![trigger t3[(idx * es + 0x20) + k]] 0 <= k < 8 implies
        t3[(idx * es + 0x20) + k] == t2[(idx * es + 0x20) + k] by {
        if in_offset_field(idx * es + 0x20 + k, es, idx + 1, count) {
            let q = choose|q: int| idx + 1 <= q < count && #[trigger] (q * es) + 0x18 <= idx * es + 0x20 + k < q * es + 0x20;
            lemma_rows_apart(idx, q, es);
        }
    }
    lemma_le_value_frame(t3, t2, idx * es + 0x20, idx * es + 0x20, 8);
}

/// Whether the sections' data lie in the order of their headers around the table of section
/// names: data of the sections whose headers come before that table's header lie before its end,
/// and data of those after it lie between its end and the table of headers.
pub open spec fn elf_sections_in_order(s: Seq<u8>) -> bool {
    let t0 = le_value(s, 0x28, 8);
    let es = le_value(s, 0x3a, 2);
    let count = le_value(s, 0x3c, 2);
    let idx = le_value(s, 0x3e, 2);
    let names_row = t0 + idx * es;
    let names_end = le_value(s, names_row + 0x18, 8) + le_value(s, names_row + 0x20, 8);
    forall|j: int| #![trigger (j * es)] 0 <= j < count && j != idx ==>
        elf_row_in_order(le_value(s, t0 + j * es + 0x18, 8), le_value(s, t0 + j * es + 0x20, 8), j < idx, names_end, t0)
}

/// The name of the section that holds the section names, as the file gives it.
pub open spec fn elf_names_section_name(s: Seq<u8>) -> Option<Seq<u8>> {
    let names_row = le_value(s, 0x28, 8) + le_value(s, 0x3e, 2) * le_value(s, 0x3a, 2);
    string_at(s, le_value(s, names_row + 0x18, 8) + le_value(s, names_row, 4), 32)
}

/// A file grown by one section finds every other section as the file before did.
#[verifier::rlimit(80)]
#[verifier::spinoff_prover]
proof fn lemma_grown_file_keeps(
    s: Seq<u8>, name: Seq<u8>, data: Seq<u8>, table3: Seq<u8>, header: Seq<u8>, n: Seq<u8>,
)
    requires
        elf_lookup(s, name) == SectionLookup::NotFound,
        elf_room_for_section(s, name),
        elf_sections_in_order(s),
        n != name,
        elf_names_section_name(s) != Some(n),
        !(elf_lookup(s, n) is Malformed),
        ({
            let t0 = le_value(s, 0x28, 8);
            let es = le_value(s, 0x3a, 2);
            let count = le_value(s, 0x3c, 2);
            let idx = le_value(s, 0x3e, 2);
            let table = s.skip(t0);
            let names = le_value(table, idx * es + 0x18, 8);
            let nsz = le_value(table, idx * es + 0x20, 8);
            &&& elf_header_check(s) is Ok
            &&& es >= 0x28
            &&& 0 <= t0
            &&& s.len() == t0 + count * es
            &&& in_range(table, idx * es + 0x18, 8)
            &&& in_range(table, idx * es + 0x20, 8)
            &&& names + nsz <= t0
            &&& table3.len() == table.len()
            &&& forall|j: int, m: int| 0 <= j < count && 0 <= m < 4 ==> #[trigger] table3[j * es + m] == table[j * es + m]
            &&& forall|m: int| 0 <= m < 8 ==> #[trigger] table3[idx * es + 0x18 + m] == table[idx * es + 0x18 + m]
            &&& forall|j: int| #![trigger (j * es)] 0 <= j < count && j != idx ==>
                le_value(table3, j * es + 0x20, 8) == le_value(table, j * es + 0x20, 8)
            &&& forall|j: int| #![trigger (j * es)] 0 <= j < idx ==>
                le_value(table3, j * es + 0x18, 8) == le_value(table, j * es + 0x18, 8)
            &&& forall|j: int| #![trigger (j * es)] idx < j < count ==>
                le_value(table3, j * es + 0x18, 8) == le_value(table, j * es + 0x18, 8) + name.len() + 1
            &&& header.len() == es
            &&& le_value(header, 0, 4) == nsz % 0x1_0000_0000
            &&& le_value(header, 0x18, 8) == t0 + name.len() + 1
            &&& le_value(header, 0x20, 8) == data.len()
            &&& grown_file(s, name, data, table3, header, t0, names + nsz, (count + 1) % 0x10000).len()
                < 0x1_0000_0000_0000_0000
        }),
    ensures
        ({
            let t0 = le_value(s, 0x28, 8);
            let es = le_value(s, 0x3a, 2);
            let count = le_value(s, 0x3c, 2);
            let idx = le_value(s, 0x3e, 2);
            let table = s.skip(t0);
            let names_end = le_value(table, idx * es + 0x18, 8) + le_value(table, idx * es + 0x20, 8);
            elf_lookup(grown_file(s, name, data, table3, header, t0, names_end, (count + 1) % 0x10000), n)
                == elf_lookup(s, n)
        }),
{
    lemma_byte_ranges();
    let t0 = le_value(s, 0x28, 8);
    let es = le_value(s, 0x3a, 2);
    let count = le_value(s, 0x3c, 2);
    let idx = le_value(s, 0x3e, 2);
    let entry = idx * es;
    let table = s.skip(t0);
    let names = le_value(table, entry + 0x18, 8);
    let nsz = le_value(table, entry + 0x20, 8);
    let names_end = names + nsz;
    let delta = name.len() + 1 as int;
    let c = (count + 1) % 0x10000;
    let out = grown_file(s, name, data, table3, header, t0, names_end, c);
    lemma_le_value_nonneg(s, 0x3a, 2);
    lemma_le_value_nonneg(s, 0x3c, 2);
    lemma_le_value_nonneg(s, 0x3e, 2);
    lemma_le_value_nonneg(table, entry + 0x18, 8);
    lemma_le_value_nonneg(table, entry + 0x20, 8);
    assert(count * es >= 0) by (nonlinear_arith) requires count >= 0, es >= 0;
    assert(idx * es >= 0) by (nonlinear_arith) requires idx >= 0, es >= 0;
    assert(idx < count) by {
        if idx >= count {
            assert(idx * es >= count * es) by (nonlinear_arith) requires idx >= count, es >= 0;
        }
    }
    lemma_le_value_skip(s, t0, entry + 0x18, 8);
    lemma_le_value_skip(s, t0, entry + 0x20, 8);
    assert(c == count + 1);
    lemma_grown_file_layout(s, name, data, table3, header, t0, names_end, c);
    let body2_len = t0 + name.len() + 1;
    let big_t = body2_len + data.len();
    assert(out.len() == big_t + count * es + es);
    lemma_grown_file_header(s, name, data, table3, header, t0, names_end, c);

    // The string table is found where it was.
    assert forall|k: int| #![trigger out[(big_t + entry + 0x18) + k]] 0 <= k < 8 implies
        out[(big_t + entry + 0x18) + k] == table[(entry + 0x18) + k] by {
        assert(out[big_t + (entry + 0x18 + k)] == table3[entry + 0x18 + k]);
        assert(table3[idx * es + 0x18 + k] == table[idx * es + 0x18 + k]);
        assert(table[(entry + 0x18) + k] == table[idx * es + 0x18 + k]);
    }
    lemma_le_value_frame(out, table, big_t + entry + 0x18, entry + 0x18, 8);

    // The new section's header names the new section, which is not the one looked for.
    assert forall|k: int| 0 <= k < es implies #[trigger] out[big_t + count * es + k] == header[k] by {
        assert(out[big_t + table3.len() + k] == header[k]);
    }
    lemma_new_entry_found(out, name, data, header, names, names_end, body2_len, big_t, es, count);
    lemma_new_entry_other_name(out, name, n, names, big_t, es, count);

    // The rows that were there before keep their names, sizes and (moved) offsets.
    assert forall|k: int| 0 <= k < table3.len() implies #[trigger] out[big_t + k] == table3[k] by {}
    lemma_old_rows_kept(s, out, table3, t0, big_t, es, count);
    assert forall|j: int| #![trigger (j * es)] 0 <= j < count implies
        forall|m: int| 0 <= m < 4 ==> #[trigger] out[big_t + j * es + m] == s[t0 + j * es + m] by {
        assert(in_range(out, big_t + j * es, 4));
    }
    assert forall|j: int| #![trigger (j * es)] 0 <= j < count implies
        le_value(out, big_t + j * es + 0x20, 8) == le_value(table3, j * es + 0x20, 8)
        && le_value(out, big_t + j * es + 0x18, 8) == le_value(table3, j * es + 0x18, 8)
        && le_value(table, j * es + 0x20, 8) == le_value(s, t0 + j * es + 0x20, 8)
        && le_value(table, j * es + 0x18, 8) == le_value(s, t0 + j * es + 0x18, 8) by {
        lemma_rows_apart(j, count, es);
        assert(j * es >= 0) by (nonlinear_arith) requires j >= 0, es >= 0;
        assert forall|k: int| #![trigger out[(big_t + j * es + 0x20) + k]] 0 <= k < 8 implies
            out[(big_t + j * es + 0x20) + k] == table3[(j * es + 0x20) + k] by {
            assert(out[big_t + (j * es + 0x20 + k)] == table3[j * es + 0x20 + k]);
        }
        lemma_le_value_frame(out, table3, big_t + j * es + 0x20, j * es + 0x20, 8);
        assert forall|k: int| #![trigger out[(big_t + j * es + 0x18) + k]] 0 <= k < 8 implies
            out[(big_t + j * es + 0x18) + k] == table3[(j * es + 0x18) + k] by {
            assert(out[big_t + (j * es + 0x18 + k)] == table3[j * es + 0x18 + k]);
        }
        lemma_le_value_frame(out, table3, big_t + j * es + 0x18, j * es + 0x18, 8);
        lemma_le_value_skip(s, t0, j * es + 0x20, 8);
        lemma_le_value_skip(s, t0, j * es + 0x18, 8);
    }
    assert forall|q: int| 0 <= q < t0 - names_end implies #[trigger] out[names_end + delta + q] == s[names_end + q] by {
        assert(out[names_end + name.len() + 1 + q] == s[names_end + q]);
    }
    assert(le_value(s, t0 + entry + 0x18, 8) == names);
    assert(le_value(s, t0 + entry + 0x20, 8) == nsz);
    lemma_search_kept(s, out, n, t0, big_t, es, count, idx, names, names_end, delta, 0);

    assert(elf_header_check(out) is Ok) by {
        assert forall|k: int| 0 <= k < 4 implies #[trigger] out.subrange(0, 4)[k] == s.subrange(0, 4)[k] by {
            assert(out[k] == s[k]);
        }
        assert(out.subrange(0, 4) =~= s.subrange(0, 4));
        assert(out[4] == s[4] && out[5] == s[5] && out[6] == s[6]);
    }
    assert(le_value(out, 0x28, 8) == big_t);
    assert(le_value(out, 0x3a, 2) == es);
    assert(le_value(out, 0x3c, 2) == count + 1);
    assert(le_value(out, 0x3e, 2) == idx);
    assert(in_range(out, big_t + idx * es + 0x18, 8));
    assert(le_value(out, big_t + idx * es + 0x18, 8) == names);
    assert(elf_lookup(out, n) == elf_section_search(out, n, big_t, es, count + 1, names, 0));
    assert(elf_lookup(s, n) == elf_section_search(s, n, t0, es, count, names, 0));
}

/// Adding a section to an ELF file leaves every other section as it was: looking up any other
/// name finds what it found before (the same contents, or nothing). This holds where the new name
/// was not there before and the file has room for it, where the sections' data lie in the order
/// of their headers around the table of section names, for a name other than that table's own,
/// and where looking the name up in the file before was not refused.
#[verifier::rlimit(80)]
#[verifier::spinoff_prover]
pub proof fn lemma_elf_other_sections_kept(s: Seq<u8>, name: Seq<u8>, data: Seq<u8>, n: Seq<u8>)
    requires
        elf_lookup(s, name) == SectionLookup::NotFound,
        elf_room_for_section(s, name),
        elf_add(s, name, data) is Some,
        elf_add(s, name, data)->0.len() < 0x1_0000_0000_0000_0000,
        elf_sections_in_order(s),
        n != name,
        elf_names_section_name(s) != Some(n),
        !(elf_lookup(s, n) is Malformed),
    ensures
        elf_lookup(elf_add(s, name, data)->0, n) == elf_lookup(s, n),
{
    lemma_elf_add_parts(s, name, data);
    let t0 = le_value(s, 0x28, 8);
    let es = le_value(s, 0x3a, 2);
    let count = le_value(s, 0x3c, 2);
    let idx = le_value(s, 0x3e, 2);
    let table = s.skip(t0);
    let names = le_value(table, idx * es + 0x18, 8);
    let nsz = le_value(table, idx * es + 0x20, 8);
    let delta = name.len() + 1 as int;
    let table3 = elf_shift_offsets(write_le(table, idx * es + 0x20, 8, nsz + delta), es, delta, idx + 1, count)->0;
    let header = elf_new_header(es as nat, nsz, t0 + name.len() + 1, data.len() as int);
    let c = (count + 1) % 0x10000;
    lemma_le_value_nonneg(s, 0x3a, 2);
    lemma_le_value_nonneg(s, 0x3c, 2);
    lemma_le_value_nonneg(s, 0x3e, 2);
    assert(count * es >= 0) by (nonlinear_arith) requires count >= 0, es >= 0;
    assert(idx < count) by {
        if idx >= count {
            assert(idx * es >= count * es) by (nonlinear_arith) requires idx >= count, es >= 0;
        }
    }
    assert(idx * es >= 0) by (nonlinear_arith) requires idx >= 0, es >= 0;
    lemma_le_value_nonneg(table, idx * es + 0x18, 8);
    lemma_le_value_nonneg(table, idx * es + 0x20, 8);
    lemma_le_value_skip(s, t0, idx * es + 0x18, 8);
    lemma_table_kept(table, es, idx, count, nsz + delta, delta);
    lemma_grown_rows(table, es, idx, count, nsz + delta, delta);
    lemma_grown_file_layout(s, name, data, table3, header, t0, names + nsz, c);
    lemma_new_header_fields(es as nat, nsz, t0 + name.len() + 1, data.len() as int);
    lemma_grown_file_keeps(s, name, data, table3, header, n);
}

/// Where the `j`-th PE section header begins.
pub open spec fn pe_row(headers: int, j: int) -> int {
    headers + j * 40
}

/// Whether a position lies in the raw-data pointer of one of the PE section headers from entry
/// `i` up to `count`.
spec fn in_pointer_field(p: int, headers: int, i: int, count: int) -> bool {
    exists|j: int| i <= j < count && #[trigger] pe_row(headers, j) + 20 <= p < pe_row(headers, j) + 24
}

/// Shifting the raw-data pointers of PE section headers changes nothing but those pointers.
proof fn lemma_shift_pointers_frame(t: Seq<u8>, headers: int, delta: int, i: int, count: int)
    requires
        pe_shift_pointers(t, headers, delta, i, count) is Some,
    ensures
        pe_shift_pointers(t, headers, delta, i, count)->0.len() == t.len(),
        forall|p: int| 0 <= p < t.len() && !in_pointer_field(p, headers, i, count)
            ==> #[trigger] pe_shift_pointers(t, headers, delta, i, count)->0[p] == t[p],
    decreases count - i,
{
    if i < count {
        let at = headers + i * 40 + 20;
        let v = le_value(t, at, 4) + delta;
        let t1 = write_le(t, at, 4, v);
        lemma_write_le_bytes(t, at, 4, v);
        lemma_shift_pointers_frame(t1, headers, delta, i + 1, count);
        let r = pe_shift_pointers(t, headers, delta, i, count)->0;
        assert(r == pe_shift_pointers(t1, headers, delta, i + 1, count)->0);
        assert forall|p: int| 0 <= p < t.len() && !in_pointer_field(p, headers, i, count) implies #[trigger] r[p] == t[p] by {
            if at <= p < at + 4 {
                assert(pe_row(headers, i) + 20 <= p < pe_row(headers, i) + 24);
            }
            if in_pointer_field(p, headers, i + 1, count) {
                let j = choose|j: int| i + 1 <= j < count && #[trigger] pe_row(headers, j) + 20 <= p < pe_row(headers, j) + 24;
                assert(in_pointer_field(p, headers, i, count));
            }
        }
    }
}

/// The first bytes of a PE section header lie outside every raw-data pointer.
proof fn lemma_not_pointer_field(p: int, headers: int, j: int, k: int, i: int, count: int)
    requires
        0 <= k < 20,
        p == pe_row(headers, j) + k,
    ensures
        !in_pointer_field(p, headers, i, count),
{
    if in_pointer_field(p, headers, i, count) {
        let q = choose|q: int| i <= q < count && #[trigger] pe_row(headers, q) + 20 <= p < pe_row(headers, q) + 24;
    }
}

/// The fields of an added PE section header: its name padded with zeros to eight bytes, and its
/// raw size.
proof fn lemma_pe_new_header_fields(name: Seq<u8>, va: int, raw: int)
    requires
        name.len() <= 8,
        0 <= raw < 0x1_0000_0000,
    ensures
        pe_new_header(name, va, raw).len() == 40,
        forall|k: int| 0 <= k < name.len() ==> #[trigger] pe_new_header(name, va, raw)[k] == name[k],
        forall|k: int| name.len() <= k < 8 ==> #[trigger] pe_new_header(name, va, raw)[k] == 0,
        le_value(pe_new_header(name, va, raw), 16, 4) == raw,
{
    lemma_byte_ranges();
    let h0 = name + zeros((40 - name.len()) as nat);
    let h1 = write_le(h0, 8, 4, 1);
    let h2 = write_le(h1, 12, 4, va);
    let h3 = write_le(h2, 16, 4, raw);
    let h4 = write_le(h3, 36, 4, 0x40);
    lemma_write_le_bytes(h0, 8, 4, 1);
    lemma_write_le_bytes(h1, 12, 4, va);
    lemma_write_le_bytes(h2, 16, 4, raw);
    lemma_write_le_bytes(h3, 36, 4, 0x40);
    lemma_le_written(h2, 16, 4, raw);
    lemma_le_value_after_write(h3, 36, 4, 0x40, 16, 4);
    assert forall|k: int| 0 <= k < name.len() implies #[trigger] h4[k] == name[k] by {
        assert(h4[k] == h3[k] && h3[k] == h2[k] && h2[k] == h1[k] && h1[k] == h0[k]);
    }
    assert forall|k: int| name.len() <= k < 8 implies #[trigger] h4[k] == 0 by {
        assert(h4[k] == h3[k] && h3[k] == h2[k] && h2[k] == h1[k] && h1[k] == h0[k]);
    }
}

/// A name of at most eight bytes without zero bytes, followed by a zero byte unless it is eight
/// bytes long, is read back whole as a PE section name.
proof fn lemma_pe_name_reads(s: Seq<u8>, at: int, name: Seq<u8>, size: int)
    requires
        0 <= at,
        name.len() <= 8,
        0 <= size <= name.len(),
        size == name.len() ==> name.len() < 8,
        at + 8 <= s.len(),
        forall|k: int| 0 <= k < name.len() ==> #[trigger] name[k] != 0,
        forall|k: int| 0 <= k < name.len() ==> #[trigger] s[at + k] == name[k],
        name.len() < 8 ==> s[at + name.len()] == 0,
    ensures
        string_len_from(s, at, 8, size) == Some(name.len() as int),
    decreases name.len() - size,
{
    if size < name.len() {
        assert(s[at + size] == name[size]);
        if size + 1 < 8 {
            lemma_pe_name_reads(s, at, name, size + 1);
        }
    }
}

/// A string is read no longer than the most that is read.
proof fn lemma_string_len_at_most(s: Seq<u8>, off: int, max: int, size: int)
    requires
        size < max,
        string_len_from(s, off, max, size) is Some,
    ensures
        string_len_from(s, off, max, size)->0 <= max,
    decreases max - size,
{
    if off + size >= 0 && off + size < s.len() && s[off + size] != 0 && size + 1 < max {
        lemma_string_len_at_most(s, off, max, size + 1);
    }
}

/// Searching the section headers of a PE file grown from another finds what the other lacked,
/// when every earlier header names its section the same way and the new one comes last.
proof fn lemma_pe_search_reaches_new_entry(
    s: Seq<u8>, out: Seq<u8>, name: Seq<u8>, data: Seq<u8>, headers: int, count: int, i: int,
)
    requires
        0 <= i <= count,
        0 <= headers,
        headers + count * 40 <= s.len(),
        headers + count * 40 < out.len(),
        pe_section_search(s, name, headers, count, i) == SectionLookup::NotFound,
        pe_section_search(out, name, headers, count + 1, count) == SectionLookup::Found(data),
        forall|j: int, k: int| i <= j < count && 0 <= k < 8 ==> #[trigger] out[pe_row(headers, j) + k]
            == s[pe_row(headers, j) + k],
    ensures
        pe_section_search(out, name, headers, count + 1, i) == SectionLookup::Found(data),
    decreases count - i,
{
    if i < count {
        let h = headers + i * 40;
        let n = string_len_from(s, h, 8, 0)->0;
        assert(string_at(s, h, 8) is Some);
        lemma_string_len_at_least(s, h, 8, 0);
        lemma_string_len_at_most(s, h, 8, 0);
        assert forall|k: int| #![trigger s[h + k]] 0 <= k <= n && k < 8 implies s[h + k] == out[h + k] by {
            assert(out[pe_row(headers, i) + k] == s[pe_row(headers, i) + k]);
        }
        lemma_string_len_frame(s, out, h, h, 8, 0, n);
        assert(out.subrange(h, h + n) =~= s.subrange(h, h + n)) by {
            assert forall|k: int| 0 <= k < n implies #[trigger] out.subrange(h, h + n)[k] == s.subrange(h, h + n)[k] by {
                assert(out[pe_row(headers, i) + k] == s[pe_row(headers, i) + k]);
            }
        }
        lemma_pe_search_reaches_new_entry(s, out, name, data, headers, count, i + 1);
    }
}

/// Searching the headers of a PE file grown by one section finds, for any name but the new one,
/// what the search of the file before found: earlier headers keep their names and raw sizes, and
/// each section's data is found where it moved to.
#[verifier::rlimit(60)]
#[verifier::spinoff_prover]
proof fn lemma_pe_search_kept(
    s: Seq<u8>, out: Seq<u8>, n: Seq<u8>, headers: int, count: int, gap: int, lower: int, i: int,
)
    requires
        0 <= i <= count,
        0 <= headers,
        0 <= gap,
        headers + count * 40 <= s.len(),
        out.len() >= s.len() + gap,
        !(pe_section_search(s, n, headers, count, i) is Malformed),
        pe_section_search(out, n, headers, count + 1, count) == SectionLookup::NotFound,
        forall|j: int, k: int| i <= j < count && 0 <= k < 8 ==> #[trigger] out[pe_row(headers, j) + k]
            == s[pe_row(headers, j) + k],
        forall|j: int| #![trigger pe_row(headers, j)] i <= j < count ==>
            le_value(out, pe_row(headers, j) + 16, 4) == le_value(s, pe_row(headers, j) + 16, 4)
            && le_value(out, pe_row(headers, j) + 20, 4) == le_value(s, pe_row(headers, j) + 20, 4) + gap,
        forall|j: int| #![trigger pe_row(headers, j)] i <= j < count ==>
            le_value(s, pe_row(headers, j) + 16, 4) == 0 || (lower <= le_value(s, pe_row(headers, j) + 20, 4)
                && le_value(s, pe_row(headers, j) + 20, 4) + le_value(s, pe_row(headers, j) + 16, 4) <= s.len()),
        forall|p: int| lower <= p < s.len() ==> #[trigger] out[p + gap] == s[p],
    ensures
        pe_section_search(out, n, headers, count + 1, i) == pe_section_search(s, n, headers, count, i),
    decreases count - i,
{
    if i < count {
        let h = headers + i * 40;
        assert(h == pe_row(headers, i));
        assert(string_at(s, h, 8) is Some);
        let k = string_len_from(s, h, 8, 0)->0;
        lemma_string_len_at_least(s, h, 8, 0);
        lemma_string_len_at_most(s, h, 8, 0);
        assert forall|kk: int| #![trigger s[h + kk]] 0 <= kk <= k && kk < 8 implies s[h + kk] == out[h + kk] by {
            assert(out[pe_row(headers, i) + kk] == s[pe_row(headers, i) + kk]);
        }
        lemma_string_len_frame(s, out, h, h, 8, 0, k);
        assert(out.subrange(h, h + k) =~= s.subrange(h, h + k)) by {
            assert forall|kk: int| 0 <= kk < k implies #[trigger] out.subrange(h, h + k)[kk] == s.subrange(h, h + k)[kk] by {
                assert(out[pe_row(headers, i) + kk] == s[pe_row(headers, i) + kk]);
            }
        }
        let nm = string_at(s, h, 8)->0;
        assert(string_at(out, h, 8) == Some(nm));
        if nm == n {
            let size = le_value(s, h + 16, 4);
            let ptr = le_value(s, h + 20, 4);
            lemma_le_value_nonneg(s, h + 16, 4);
            lemma_le_value_nonneg(s, h + 20, 4);
            assert(le_value(out, h + 16, 4) == size);
            assert(le_value(out, h + 20, 4) == ptr + gap);
            assert(section_data(out, ptr + gap, size) =~= section_data(s, ptr, size)) by {
                if size > 0 {
                    assert forall|kk: int| 0 <= kk < size implies #[trigger] out.subrange(ptr + gap, ptr + gap + size)[kk]
                        == s.subrange(ptr, ptr + size)[kk] by {
                        assert(out[(ptr + kk) + gap] == s[ptr + kk]);
                    }
                }
            }
        } else {
            lemma_pe_search_kept(s, out, n, headers, count, gap, lower, i + 1);
        }
    }
}

/// Making room for another PE section header keeps everything before the end of the headers but
/// their raw-data pointers.
proof fn lemma_make_room_frame(s1: Seq<u8>, headers: int, count: int, file_align: int)
    requires
        pe_make_room(s1, headers, count, file_align) is Some,
    ensures
        forall|p: int| 0 <= p < headers + count * 40 && p < s1.len() && !in_pointer_field(p, headers, 0, count)
            ==> #[trigger] pe_make_room(s1, headers, count, file_align)->0[p] == s1[p],
        pe_make_room(s1, headers, count, file_align)->0.len() >= s1.len(),
        pe_make_room(s1, headers, count, file_align)->0.len() == s1.len() || headers + count * 40 <= s1.len(),
{
    let end = headers + count * 40;
    let r = pe_make_room(s1, headers, count, file_align)->0;
    if r != s1 {
        let x = s1.take(end) + zeros(file_align as nat) + s1.skip(end);
        assert(end <= s1.len());
        lemma_shift_pointers_frame(x, headers, file_align, 0, count);
        assert forall|p: int| 0 <= p < end && p < s1.len() && !in_pointer_field(p, headers, 0, count)
            implies #[trigger] r[p] == s1[p] by {
            assert(r[p] == x[p]);
            assert(x[p] == s1.take(end)[p]);
        }
    }
}

/// Shifting the raw-data pointers adds the shift to each pointer from entry `i` on.
proof fn lemma_shift_pointers_values(t: Seq<u8>, headers: int, delta: int, i: int, count: int)
    requires
        pe_shift_pointers(t, headers, delta, i, count) is Some,
        0 <= i,
        0 <= headers,
        0 <= delta,
        headers + count * 40 <= t.len(),
    ensures
        forall|j: int| #![trigger pe_row(headers, j)] i <= j < count ==>
            le_value(pe_shift_pointers(t, headers, delta, i, count)->0, pe_row(headers, j) + 20, 4)
                == le_value(t, pe_row(headers, j) + 20, 4) + delta,
    decreases count - i,
{
    if i < count {
        lemma_byte_ranges();
        let at = headers + i * 40 + 20;
        let v = le_value(t, at, 4) + delta;
        let t1 = write_le(t, at, 4, v);
        lemma_write_le_bytes(t, at, 4, v);
        lemma_le_value_nonneg(t, at, 4);
        lemma_le_written(t, at, 4, v);
        lemma_shift_pointers_values(t1, headers, delta, i + 1, count);
        lemma_shift_pointers_frame(t1, headers, delta, i + 1, count);
        let r = pe_shift_pointers(t, headers, delta, i, count)->0;
        assert(r == pe_shift_pointers(t1, headers, delta, i + 1, count)->0);
        assert forall|j: int| #![trigger pe_row(headers, j)] i <= j < count implies
            le_value(r, pe_row(headers, j) + 20, 4) == le_value(t, pe_row(headers, j) + 20, 4) + delta by {
            if j == i {
                assert forall|k: int| #![trigger r[at + k]] 0 <= k < 4 implies r[at + k] == t1[at + k] by {
                    if in_pointer_field(at + k, headers, i + 1, count) {
                        let q = choose|q: int| i + 1 <= q < count && #[trigger] pe_row(headers, q) + 20 <= at + k < pe_row(headers, q) + 24;
                    }
                }
                lemma_le_value_frame(r, t1, at, at, 4);
            } else {
                lemma_le_value_after_write(t, at, 4, v, pe_row(headers, j) + 20, 4);
            }
        }
    }
}

/// Making room for one more header inserts either nothing or `file_align` bytes right after
/// the headers: what follows them moves up by that much, and so does every raw-data pointer;
/// where nothing is inserted, the headers end at least one header before the next multiple of
/// the alignment.
proof fn lemma_make_room_moves(s1: Seq<u8>, headers: int, count: int, file_align: int)
    requires
        pe_make_room(s1, headers, count, file_align) is Some,
        0 <= headers,
        0 <= count,
        headers + count * 40 <= s1.len(),
    ensures
        ({
            let end = headers + count * 40;
            let r = pe_make_room(s1, headers, count, file_align)->0;
            let gap = r.len() - s1.len();
            &&& gap == 0 || gap == file_align
            &&& gap == 0 ==> align_up(end, file_align) >= end + 40
            &&& align_up(end, file_align) >= end
            &&& file_align >= 1
            &&& forall|p: int| end <= p < s1.len() ==> #[trigger] r[p + gap] == s1[p]
            &&& forall|j: int| #![trigger pe_row(headers, j)] 0 <= j < count ==>
                le_value(r, pe_row(headers, j) + 20, 4) == le_value(s1, pe_row(headers, j) + 20, 4) + gap
        }),
{
    let end = headers + count * 40;
    let r = pe_make_room(s1, headers, count, file_align)->0;
    lemma_align_up_bounds(end, file_align);
    if align_up(end, file_align) - end < 40 {
        let x = s1.take(end) + zeros(file_align as nat) + s1.skip(end);
        lemma_shift_pointers_frame(x, headers, file_align, 0, count);
        lemma_shift_pointers_values(x, headers, file_align, 0, count);
        assert(r.len() == s1.len() + file_align);
        assert forall|p: int| end <= p < s1.len() implies #[trigger] r[p + file_align] == s1[p] by {
            assert(!in_pointer_field(p + file_align, headers, 0, count)) by {
                if in_pointer_field(p + file_align, headers, 0, count) {
                    let q = choose|q: int| 0 <= q < count && #[trigger] pe_row(headers, q) + 20 <= p + file_align < pe_row(headers, q) + 24;
                    assert(pe_row(headers, q) + 24 <= end);
                }
            }
            assert(r[p + file_align] == x[p + file_align]);
            assert(x[p + file_align] == s1.skip(end)[p - end]);
        }
        assert forall|j: int| #![trigger pe_row(headers, j)] 0 <= j < count implies
            le_value(x, pe_row(headers, j) + 20, 4) == le_value(s1, pe_row(headers, j) + 20, 4) by {
            assert forall|k: int| #![trigger x[(pe_row(headers, j) + 20) + k]] 0 <= k < 4 implies
                x[(pe_row(headers, j) + 20) + k] == s1[(pe_row(headers, j) + 20) + k] by {
                assert(x[pe_row(headers, j) + 20 + k] == s1.take(end)[pe_row(headers, j) + 20 + k]);
            }
            lemma_le_value_frame(x, s1, pe_row(headers, j) + 20, pe_row(headers, j) + 20, 4);
        }
    } else {
        assert(r == s1);
    }
}

/// Where the parts of a PE file lie once a section is appended: what came before the end of the
/// headers stays but for the image and header sizes in the optional header, the new header
/// follows, and the new data, resized to the raw size, ends the file at an aligned offset that the
/// new header points to.
#[verifier::rlimit(40)]
proof fn lemma_pe_append_layout(
    s2: Seq<u8>, name: Seq<u8>, data: Seq<u8>, optional: int, headers: int, count: int, sa: int, fa: int,
)
    requires
        pe_append_section(s2, name, data, optional, headers, count, sa, fa) is Some,
        name.len() <= 8,
        0 <= optional,
        optional + 64 <= headers,
        0 <= count,
    ensures
        ({
            let end = headers + count * 40;
            let prev = headers + (count - 1) * 40;
            let va = align_up(le_value(s2, prev + 12, 4) + le_value(s2, prev + 8, 4), sa);
            let raw = align_up(data.len() as int % 0x1_0000_0000, fa);
            let at = align_up(s2.len() as int, fa);
            let out = pe_append_section(s2, name, data, optional, headers, count, sa, fa)->0;
            &&& count >= 1
            &&& end + 40 <= s2.len()
            &&& fa >= 1
            &&& 1 <= raw <= u32::MAX
            &&& data.len() as int % 0x1_0000_0000 <= raw
            &&& s2.len() <= at
            &&& out.len() == at + raw
            &&& forall|p: int| 0 <= p < end && !(optional + 56 <= p < optional + 64) ==> #[trigger] out[p] == s2[p]
            &&& forall|k: int| 0 <= k < 20 ==> #[trigger] out[end + k] == pe_new_header(name, va, raw)[k]
            &&& (at < 0x1_0000_0000 ==> le_value(out, end + 20, 4) == at)
            &&& forall|k: int| 0 <= k < raw ==> #[trigger] out[at + k] == resized(data, raw)[k]
            &&& forall|p: int| end + 40 <= p < s2.len() ==> #[trigger] out[p] == s2[p]
            &&& le_value(out, optional + 60, 4) == align_up(end + 40, fa) % 0x1_0000_0000
            &&& align_up(end + 40, fa) <= at
        }),
{
    lemma_byte_ranges();
    let end = headers + count * 40;
    let prev = headers + (count - 1) * 40;
    let va = align_up(le_value(s2, prev + 12, 4) + le_value(s2, prev + 8, 4), sa);
    let raw = align_up(data.len() as int % 0x1_0000_0000, fa);
    let hdr = pe_new_header(name, va, raw);
    let s3 = overwrite(s2, end, hdr);
    let at = align_up(s3.len() as int, fa);
    let y = s3 + zeros((at - s3.len()) as nat) + resized(data, raw);
    let s5 = write_le(y, end + 20, 4, at % 0x1_0000_0000);
    let image = align_up(va + 1, sa);
    let header_size = align_up(end + 40, fa);
    let s6 = write_le(s5, optional + 56, 4, image);
    let out = write_le(s6, optional + 60, 4, header_size % 0x1_0000_0000);
    assert(pe_append_section(s2, name, data, optional, headers, count, sa, fa) == Some(out));
    lemma_pe_new_header_fields(name, va, raw);
    assert(s3.len() == s2.len());
    lemma_align_up_bounds(s3.len() as int, fa);
    lemma_align_up_bounds(data.len() as int % 0x1_0000_0000, fa);
    assert(resized(data, raw).len() == raw);
    assert(y.len() == at + raw);
    lemma_write_le_bytes(y, end + 20, 4, at % 0x1_0000_0000);
    lemma_write_le_bytes(s5, optional + 56, 4, image);
    lemma_write_le_bytes(s6, optional + 60, 4, header_size % 0x1_0000_0000);
    assert forall|p: int| 0 <= p < end && !(optional + 56 <= p < optional + 64) implies #[trigger] out[p] == s2[p] by {
        assert(out[p] == s6[p] && s6[p] == s5[p] && s5[p] == y[p] && y[p] == s3[p]);
        assert(s3[p] == s2.take(end)[p]);
    }
    assert forall|k: int| 0 <= k < 20 implies #[trigger] out[end + k] == hdr[k] by {
        assert(out[end + k] == s6[end + k] && s6[end + k] == s5[end + k] && s5[end + k] == y[end + k]);
        assert(y[end + k] == s3[end + k]);
        assert(s3[end + k] == (s2.take(end) + hdr)[end + k]);
    }
    lemma_le_value_after_write(s6, optional + 60, 4, header_size % 0x1_0000_0000, end + 20, 4);
    lemma_le_value_after_write(s5, optional + 56, 4, image, end + 20, 4);
    if at < 0x1_0000_0000 {
        lemma_le_written(y, end + 20, 4, at % 0x1_0000_0000);
    }
    assert forall|k: int| 0 <= k < raw implies #[trigger] out[at + k] == resized(data, raw)[k] by {
        assert(out[at + k] == s6[at + k] && s6[at + k] == s5[at + k] && s5[at + k] == y[at + k]);
    }
    assert forall|p: int| end + 40 <= p < s2.len() implies #[trigger] out[p] == s2[p] by {
        assert(out[p] == s6[p] && s6[p] == s5[p] && s5[p] == y[p] && y[p] == s3[p]);
        assert(s3[p] == s2.skip(end + 40)[p - (end + 40)]);
    }
    lemma_le_written(s6, optional + 60, 4, header_size % 0x1_0000_0000);
    lemma_align_up_ordered(end + 40, s3.len() as int, fa);
}

/// Rounding up to a multiple keeps the order of positive numbers.
proof fn lemma_align_up_ordered(x: int, y: int, m: int)
    requires
        1 <= x <= y,
        m >= 1,
    ensures
        align_up(x, m) <= align_up(y, m),
{
    vstd::arithmetic::div_mod::lemma_div_is_ordered(x - 1, y - 1, m);
    vstd::arithmetic::mul::lemma_mul_inequality((x - 1) / m + 1, (y - 1) / m + 1, m);
}

/// What `pe_add` checks of a file before growing it, and how it grows it.
proof fn lemma_pe_add_parts(s: Seq<u8>, name: Seq<u8>, data: Seq<u8>)
    requires
        pe_add(s, name, data) is Some,
    ensures
        ({
            let fh = le_value(s, 0x3c, 4) + 4;
            let count = le_value(s, fh + 2, 2);
            let s1 = write_le(s, fh + 2, 2, count + 1);
            let headers = fh + 20 + le_value(s, fh + 16, 2);
            let file_align = le_value(s, fh + 56, 4);
            &&& pe_signature_check(s) == Ok::<int, Seq<char>>(fh)
            &&& in_range(s, fh + 2, 2)
            &&& in_range(s, fh + 16, 2)
            &&& count < 0xffff
            &&& pe_make_room(s1, headers, count, file_align) is Some
            &&& pe_add(s, name, data) == pe_append_section(pe_make_room(s1, headers, count, file_align)->0, name,
                data, fh + 20, headers, count, le_value(s, fh + 52, 4), file_align)
        }),
{
    let fh = le_value(s, 0x3c, 4) + 4;
    let count = le_value(s, fh + 2, 2);
    assert(pe_signature_check(s) == Ok::<int, Seq<char>>(fh));
    lemma_le_value_after_write(s, fh + 2, 2, count + 1, fh + 16, 2);
    lemma_le_value_after_write(s, fh + 2, 2, count + 1, fh + 52, 4);
    lemma_le_value_after_write(s, fh + 2, 2, count + 1, fh + 56, 4);
    let s1 = write_le(s, fh + 2, 2, count + 1);
    assert(le_value(s1, fh + 16, 2) == le_value(s, fh + 16, 2));
    assert(le_value(s1, fh + 20 + 36, 4) == le_value(s, fh + 56, 4));
    assert(le_value(s1, fh + 20 + 32, 4) == le_value(s, fh + 52, 4));
    lemma_le_value_bound(s, fh + 2, 2);
    lemma_byte_ranges();
    assert(count < 0xffff);
    assert(in_range(s, fh + 16, 2));
}

/// A little-endian number is less than what its bytes can hold.
proof fn lemma_le_value_bound(s: Seq<u8>, off: int, w: nat)
    ensures
        le_value(s, off, w) < byte_range(w),
    decreases w,
{
    if w > 0 {
        lemma_le_value_bound(s, off + 1, (w - 1) as nat);
    }
}

/// The file alignment that the optional header of a PE file gives.
pub open spec fn pe_file_align(s: Seq<u8>) -> int {
    le_value(s, le_value(s, 0x3c, 4) + 4 + 56, 4)
}

/// Whether a PE file can take one more section with the given name, so that it is found again:
/// the name holds no zero byte and takes at most eight bytes; the signature lies after the DOS
/// header's pointer to it; and the optional header is long enough to hold the sizes of the image
/// and of the headers.
pub open spec fn pe_room_for_section(s: Seq<u8>, name: Seq<u8>) -> bool {
    let fh = le_value(s, 0x3c, 4) + 4;
    &&& name.len() <= 8
    &&& forall|k: int| 0 <= k < name.len() ==> #[trigger] name[k] != 0
    &&& le_value(s, 0x3c, 4) >= 0x40
    &&& le_value(s, fh + 16, 2) >= 64
}

/// What a PE file grown by one section holds where: the file as it was before the end of the
/// section headers (but for the count of sections, the sizes in the optional header and the
/// raw-data pointers), the new header's name and raw size, and the new data at the offset that
/// the new header points to, ending the file.
#[verifier::rlimit(80)]
#[verifier::spinoff_prover]
proof fn lemma_pe_grown_facts(s: Seq<u8>, name: Seq<u8>, data: Seq<u8>)
    requires
        pe_room_for_section(s, name),
        data.len() < 0x1_0000_0000,
        ({
            let fh = le_value(s, 0x3c, 4) + 4;
            let count = le_value(s, fh + 2, 2);
            let s1 = write_le(s, fh + 2, 2, count + 1);
            let headers = fh + 20 + le_value(s, fh + 16, 2);
            let file_align = le_value(s, fh + 56, 4);
            &&& pe_signature_check(s) == Ok::<int, Seq<char>>(fh)
            &&& in_range(s, fh + 2, 2)
            &&& in_range(s, fh + 16, 2)
            &&& count < 0xffff
            &&& pe_make_room(s1, headers, count, file_align) is Some
            &&& pe_append_section(pe_make_room(s1, headers, count, file_align)->0, name,
                data, fh + 20, headers, count, le_value(s, fh + 52, 4), file_align) is Some
            &&& pe_append_section(pe_make_room(s1, headers, count, file_align)->0, name,
                data, fh + 20, headers, count, le_value(s, fh + 52, 4), file_align)->0.len() < 0x1_0000_0000
        }),
    ensures
        ({
            let fh = le_value(s, 0x3c, 4) + 4;
            let count = le_value(s, fh + 2, 2);
            let s1 = write_le(s, fh + 2, 2, count + 1);
            let headers = fh + 20 + le_value(s, fh + 16, 2);
            let file_align = le_value(s, fh + 56, 4);
            let out = pe_append_section(pe_make_room(s1, headers, count, file_align)->0, name,
                data, fh + 20, headers, count, le_value(s, fh + 52, 4), file_align)->0;
            let end = headers + count * 40;
            let raw = align_up(data.len() as int, file_align);
            let at = out.len() - raw;
            &&& 0 <= headers
            &&& fh + 4 + 64 <= headers
            &&& end <= s.len()
            &&& end + 40 <= at
            &&& raw >= data.len()
            &&& forall|p: int| 0 <= p < end && !(fh + 2 <= p < fh + 4) && !(fh + 76 <= p < fh + 84)
                && !in_pointer_field(p, headers, 0, count) ==> #[trigger] out[p] == s[p]
            &&& le_value(out, fh + 2, 2) == count + 1
            &&& forall|k: int| 0 <= k < name.len() ==> #[trigger] out[end + k] == name[k]
            &&& (name.len() < 8 ==> out[end + name.len()] == 0)
            &&& le_value(out, end + 16, 4) == raw
            &&& le_value(out, end + 20, 4) == at
            &&& forall|k: int| 0 <= k < raw ==> #[trigger] out[at + k] == resized(data, raw)[k]
        }),
{
    lemma_byte_ranges();
    let pe_off = le_value(s, 0x3c, 4);
    let fh = pe_off + 4;
    let count = le_value(s, fh + 2, 2);
    let s1 = write_le(s, fh + 2, 2, count + 1);
    let optional = fh + 20;
    let headers = optional + le_value(s, fh + 16, 2);
    let fa = le_value(s, fh + 56, 4);
    let sa = le_value(s, fh + 52, 4);
    let s2 = pe_make_room(s1, headers, count, fa)->0;
    let out = pe_append_section(s2, name, data, optional, headers, count, sa, fa)->0;
    let end = headers + count * 40;
    let raw = align_up(data.len() as int % 0x1_0000_0000, fa);
    let prev = headers + (count - 1) * 40;
    let va = align_up(le_value(s2, prev + 12, 4) + le_value(s2, prev + 8, 4), sa);
    lemma_le_value_nonneg(s, 0x3c, 4);
    lemma_le_value_nonneg(s, fh + 2, 2);
    lemma_le_value_nonneg(s, fh + 16, 2);
    lemma_pe_append_layout(s2, name, data, optional, headers, count, sa, fa);
    lemma_make_room_frame(s1, headers, count, fa);
    lemma_write_le_bytes(s, fh + 2, 2, count + 1);
    lemma_pe_new_header_fields(name, va, raw);
    assert(end <= s.len());
    assert(data.len() as int % 0x1_0000_0000 == data.len());
    assert forall|p: int| 0 <= p < end && !(fh + 2 <= p < fh + 4) && !(fh + 76 <= p < fh + 84)
        && !in_pointer_field(p, headers, 0, count) implies #[trigger] out[p] == s[p] by {
        assert(out[p] == s2[p]);
        assert(s2[p] == s1[p]);
    }
    assert forall|k: int| #![trigger out[(fh + 2) + k]] 0 <= k < 2 implies out[(fh + 2) + k] == s1[(fh + 2) + k] by {
        assert(!in_pointer_field(fh + 2 + k, headers, 0, count));
        assert(out[fh + 2 + k] == s2[fh + 2 + k]);
    }
    lemma_le_value_frame(out, s1, fh + 2, fh + 2, 2);
    lemma_le_written(s, fh + 2, 2, count + 1);
    let hdr = pe_new_header(name, va, raw);
    assert forall|k: int| 0 <= k < name.len() implies #[trigger] out[end + k] == name[k] by {
        assert(out[end + k] == hdr[k]);
    }
    if name.len() < 8 {
        assert(out[end + name.len()] == hdr[name.len() as int]);
    }
    assert forall|k: int| #![trigger out[(end + 16) + k]] 0 <= k < 4 implies out[(end + 16) + k] == hdr[16 + k] by {
        assert(out[end + (16 + k)] == hdr[16 + k]);
    }
    lemma_le_value_frame(out, hdr, end + 16, 16, 4);
}

/// A PE file grown by one section with a new name finds that section by its name.
#[verifier::rlimit(40)]
proof fn lemma_pe_grown_finds(s: Seq<u8>, name: Seq<u8>, data: Seq<u8>, out: Seq<u8>)
    requires
        pe_lookup(s, name) == SectionLookup::NotFound,
        pe_room_for_section(s, name),
        out.len() < 0x1_0000_0000,
        ({
            let fh = le_value(s, 0x3c, 4) + 4;
            let count = le_value(s, fh + 2, 2);
            let headers = fh + 20 + le_value(s, fh + 16, 2);
            let end = headers + count * 40;
            let raw = align_up(data.len() as int, pe_file_align(s));
            let at = out.len() - raw;
            &&& pe_signature_check(s) == Ok::<int, Seq<char>>(fh)
            &&& in_range(s, fh + 2, 2)
            &&& in_range(s, fh + 16, 2)
            &&& 0 <= headers
            &&& fh + 4 + 64 <= headers
            &&& end <= s.len()
            &&& end + 40 <= at
            &&& raw >= data.len()
            &&& forall|p: int| 0 <= p < end && !(fh + 2 <= p < fh + 4) && !(fh + 76 <= p < fh + 84)
                && !in_pointer_field(p, headers, 0, count) ==> #[trigger] out[p] == s[p]
            &&& le_value(out, fh + 2, 2) == count + 1
            &&& forall|k: int| 0 <= k < name.len() ==> #[trigger] out[end + k] == name[k]
            &&& (name.len() < 8 ==> out[end + name.len()] == 0)
            &&& le_value(out, end + 16, 4) == raw
            &&& le_value(out, end + 20, 4) == at
            &&& forall|k: int| 0 <= k < raw ==> #[trigger] out[at + k] == resized(data, raw)[k]
        }),
    ensures
        pe_lookup(out, name) == SectionLookup::Found(
            data + zeros((align_up(data.len() as int, pe_file_align(s)) - data.len()) as nat)),
{
    let pe_off = le_value(s, 0x3c, 4);
    let fh = pe_off + 4;
    let count = le_value(s, fh + 2, 2);
    let headers = fh + 20 + le_value(s, fh + 16, 2);
    let end = headers + count * 40;
    let raw = align_up(data.len() as int, pe_file_align(s));
    let at = out.len() - raw;
    let found = resized(data, raw);
    lemma_le_value_nonneg(s, fh + 2, 2);
    assert forall|j: int, k: int| 0 <= j < count && 0 <= k < 8 implies #[trigger] out[pe_row(headers, j) + k]
        == s[pe_row(headers, j) + k] by {
        lemma_not_pointer_field(pe_row(headers, j) + k, headers, j, k, 0, count);
    }
    assert forall|k: int| #![trigger out[0x3c + k]] 0 <= k < 4 implies out[0x3c + k] == s[0x3c + k] by {
        assert(!in_pointer_field(0x3c + k, headers, 0, count));
    }
    lemma_le_value_frame(out, s, 0x3c, 0x3c, 4);
    assert(out.subrange(pe_off, pe_off + 4) =~= s.subrange(pe_off, pe_off + 4)) by {
        assert forall|k: int| 0 <= k < 4 implies #[trigger] out.subrange(pe_off, pe_off + 4)[k]
            == s.subrange(pe_off, pe_off + 4)[k] by {
            assert(!in_pointer_field(pe_off + k, headers, 0, count));
            assert(out[pe_off + k] == s[pe_off + k]);
        }
    }
    assert(pe_signature_check(out) == Ok::<int, Seq<char>>(fh));
    assert forall|k: int| #![trigger out[(fh + 16) + k]] 0 <= k < 2 implies out[(fh + 16) + k] == s[(fh + 16) + k] by {
        assert(!in_pointer_field(fh + 16 + k, headers, 0, count));
    }
    lemma_le_value_frame(out, s, fh + 16, fh + 16, 2);
    lemma_pe_name_reads(out, end, name, 0);
    assert(out.subrange(end, end + name.len()) =~= name) by {
        assert forall|k: int| 0 <= k < name.len() implies #[trigger] out.subrange(end, end + name.len())[k] == name[k] by {
            assert(out[end + k] == name[k]);
        }
    }
    assert(found.len() == raw);
    assert(section_data(out, at, raw) =~= found) by {
        assert forall|k: int| 0 <= k < raw implies #[trigger] out.subrange(at, out.len() as int)[k] == found[k] by {
            assert(out[at + k] == found[k]);
        }
    }
    assert(pe_section_search(out, name, headers, count + 1, count) == SectionLookup::Found(found));
    lemma_pe_search_reaches_new_entry(s, out, name, found, headers, count, 0);
    assert(found =~= data + zeros((raw - data.len()) as nat));
}

/// A section added to a PE file is found again by its name, with the contents it was given
/// padded with zeros to the file alignment, where no section had that name before, the file has
/// room for it, and the grown file stays within the 32-bit offsets of the format.
pub proof fn lemma_pe_added_section_found(s: Seq<u8>, name: Seq<u8>, data: Seq<u8>)
    requires
        pe_lookup(s, name) == SectionLookup::NotFound,
        pe_room_for_section(s, name),
        pe_add(s, name, data) is Some,
        pe_add(s, name, data)->0.len() < 0x1_0000_0000,
        data.len() < 0x1_0000_0000,
    ensures
        pe_lookup(pe_add(s, name, data)->0, name) == SectionLookup::Found(
            data + zeros((align_up(data.len() as int, pe_file_align(s)) - data.len()) as nat)),
{
    lemma_pe_add_parts(s, name, data);
    lemma_pe_grown_facts(s, name, data);
    lemma_pe_grown_finds(s, name, data, pe_add(s, name, data)->0);
}

/// Where section data may begin in a PE file so that adding a section header keeps it: the end
/// of the section headers rounded up to the file alignment, and, where that leaves no room for
/// another header (so that one file alignment is inserted), no closer to the end of the headers
/// than the new header reaches once moved up.
pub open spec fn pe_data_start(s: Seq<u8>) -> int {
    let fh = le_value(s, 0x3c, 4) + 4;
    let end = fh + 20 + le_value(s, fh + 16, 2) + le_value(s, fh + 2, 2) * 40;
    let fa = pe_file_align(s);
    let lower = align_up(end, fa);
    if lower - end < 40 && end + 40 - fa > lower { end + 40 - fa } else { lower }
}

/// Whether each PE section's data lies where adding a section keeps it: an empty section
/// anywhere, any other at or after `pe_data_start` and within the file.
pub open spec fn pe_sections_in_order(s: Seq<u8>) -> bool {
    let fh = le_value(s, 0x3c, 4) + 4;
    let count = le_value(s, fh + 2, 2);
    let headers = fh + 20 + le_value(s, fh + 16, 2);
    let lower = pe_data_start(s);
    forall|j: int| #![trigger pe_row(headers, j)] 0 <= j < count ==>
        le_value(s, pe_row(headers, j) + 16, 4) == 0 || (lower <= le_value(s, pe_row(headers, j) + 20, 4)
            && le_value(s, pe_row(headers, j) + 20, 4) + le_value(s, pe_row(headers, j) + 16, 4) <= s.len())
}

/// Adding a section to a PE file leaves every other section as it was: looking up any other name
/// finds what it found before (the same contents, or nothing). This holds where the new name was
/// not there before and the file has room for it, the grown file and the data stay within the
/// 32-bit offsets and sizes of the format, the sections' data lie after the headers where the new
/// header does not reach them, and looking the name up in the file before was not refused.
#[verifier::rlimit(80)]
#[verifier::spinoff_prover]
pub proof fn lemma_pe_other_sections_kept(s: Seq<u8>, name: Seq<u8>, data: Seq<u8>, n: Seq<u8>)
    requires
        pe_lookup(s, name) == SectionLookup::NotFound,
        pe_room_for_section(s, name),
        pe_add(s, name, data) is Some,
        pe_add(s, name, data)->0.len() < 0x1_0000_0000,
        data.len() < 0x1_0000_0000,
        pe_sections_in_order(s),
        n != name,
        !(pe_lookup(s, n) is Malformed),
    ensures
        pe_lookup(pe_add(s, name, data)->0, n) == pe_lookup(s, n),
{
    lemma_byte_ranges();
    lemma_pe_add_parts(s, name, data);
    lemma_pe_grown_facts(s, name, data);
    let pe_off = le_value(s, 0x3c, 4);
    let fh = pe_off + 4;
    let count = le_value(s, fh + 2, 2);
    let s1 = write_le(s, fh + 2, 2, count + 1);
    let optional = fh + 20;
    let headers = optional + le_value(s, fh + 16, 2);
    let fa = le_value(s, fh + 56, 4);
    let sa = le_value(s, fh + 52, 4);
    let s2 = pe_make_room(s1, headers, count, fa)->0;
    let out = pe_add(s, name, data)->0;
    let end = headers + count * 40;
    lemma_le_value_nonneg(s, 0x3c, 4);
    lemma_le_value_nonneg(s, fh + 2, 2);
    lemma_le_value_nonneg(s, fh + 16, 2);
    lemma_write_le_bytes(s, fh + 2, 2, count + 1);
    lemma_pe_append_layout(s2, name, data, optional, headers, count, sa, fa);
    lemma_make_room_moves(s1, headers, count, fa);
    let gap = s2.len() - s1.len();
    let lower = pe_data_start(s);
    assert(fa == pe_file_align(s));
    assert(end == fh + 20 + le_value(s, fh + 16, 2) + le_value(s, fh + 2, 2) * 40);
    assert(lower >= end && lower + gap >= end + 40);

    // The headers that were there keep their names, sizes and (moved) pointers.
    assert forall|j: int, k: int| 0 <= j < count && 0 <= k < 20 implies #[trigger] out[pe_row(headers, j) + k]
        == s[pe_row(headers, j) + k] by {
        lemma_not_pointer_field(pe_row(headers, j) + k, headers, j, k, 0, count);
    }
    assert forall|j: int| #![trigger pe_row(headers, j)] 0 <= j < count implies
        le_value(out, pe_row(headers, j) + 16, 4) == le_value(s, pe_row(headers, j) + 16, 4)
        && le_value(out, pe_row(headers, j) + 20, 4) == le_value(s, pe_row(headers, j) + 20, 4) + gap by {
        let r = pe_row(headers, j);
        assert forall|k: int| #![trigger out[(r + 16) + k]] 0 <= k < 4 implies out[(r + 16) + k] == s[(r + 16) + k] by {
            assert(out[pe_row(headers, j) + (16 + k)] == s[pe_row(headers, j) + (16 + k)]);
        }
        lemma_le_value_frame(out, s, r + 16, r + 16, 4);
        assert forall|k: int| #![trigger out[(r + 20) + k]] 0 <= k < 4 implies out[(r + 20) + k] == s2[(r + 20) + k] by {}
        lemma_le_value_frame(out, s2, r + 20, r + 20, 4);
        lemma_le_value_after_write(s, fh + 2, 2, count + 1, r + 20, 4);
    }
    assert forall|j: int, k: int| 0 <= j < count && 0 <= k < 8 implies #[trigger] out[pe_row(headers, j) + k]
        == s[pe_row(headers, j) + k] by {
        assert(out[pe_row(headers, j) + k] == s[pe_row(headers, j) + k]);
    }

    // What followed the headers moved up by the gap.
    assert forall|p: int| lower <= p < s.len() implies #[trigger] out[p + gap] == s[p] by {
        assert(out[p + gap] == s2[p + gap]);
        assert(s2[p + gap] == s1[p]);
    }

    // The new header names the new section, which is not the one looked for.
    lemma_pe_name_reads(out, end, name, 0);
    assert(out.subrange(end, end + name.len()) =~= name) by {
        assert forall|k: int| 0 <= k < name.len() implies #[trigger] out.subrange(end, end + name.len())[k] == name[k] by {
            assert(out[end + k] == name[k]);
        }
    }
    assert(string_at(out, end, 8) == Some(name));
    assert(pe_section_search(out, n, headers, count + 1, count + 1) == SectionLookup::NotFound);
    assert(pe_section_search(out, n, headers, count + 1, count) == SectionLookup::NotFound);
    lemma_pe_search_kept(s, out, n, headers, count, gap, lower, 0);

    // Both files are read the same way up to their section headers.
    assert forall|k: int| #![trigger out[0x3c + k]] 0 <= k < 4 implies out[0x3c + k] == s[0x3c + k] by {
        assert(!in_pointer_field(0x3c + k, headers, 0, count));
    }
    lemma_le_value_frame(out, s, 0x3c, 0x3c, 4);
    assert(out.subrange(pe_off, pe_off + 4) =~= s.subrange(pe_off, pe_off + 4)) by {
        assert forall|k: int| 0 <= k < 4 implies #[trigger] out.subrange(pe_off, pe_off + 4)[k]
            == s.subrange(pe_off, pe_off + 4)[k] by {
            assert(!in_pointer_field(pe_off + k, headers, 0, count));
            assert(out[pe_off + k] == s[pe_off + k]);
        }
    }
    assert(pe_signature_check(out) == Ok::<int, Seq<char>>(fh));
    assert forall|k: int| #![trigger out[(fh + 16) + k]] 0 <= k < 2 implies out[(fh + 16) + k] == s[(fh + 16) + k] by {
        assert(!in_pointer_field(fh + 16 + k, headers, 0, count));
    }
    lemma_le_value_frame(out, s, fh + 16, fh + 16, 2);
    assert(pe_lookup(out, n) == pe_section_search(out, n, headers, count + 1, 0));
    assert(pe_lookup(s, n) == pe_section_search(s, n, headers, count, 0));
}

/// The shape of a PE file with a section added: one more section, and a size of the headers
/// (as the optional header gives it) that is the end of the section headers, with the new one,
/// rounded up to the file alignment, and so a multiple of it. This holds where the file has room
/// for the section and stays within the 32-bit offsets and sizes of the format.
#[verifier::rlimit(60)]
#[verifier::spinoff_prover]
pub proof fn lemma_pe_add_shape(s: Seq<u8>, name: Seq<u8>, data: Seq<u8>)
    requires
        pe_room_for_section(s, name),
        pe_add(s, name, data) is Some,
        pe_add(s, name, data)->0.len() < 0x1_0000_0000,
        data.len() < 0x1_0000_0000,
    ensures
        ({
            let out = pe_add(s, name, data)->0;
            let fh = le_value(s, 0x3c, 4) + 4;
            let count = le_value(s, fh + 2, 2);
            let end = fh + 20 + le_value(s, fh + 16, 2) + count * 40;
            let fa = pe_file_align(s);
            &&& le_value(out, fh + 2, 2) == count + 1
            &&& le_value(out, fh + 80, 4) == align_up(end + 40, fa)
            &&& le_value(out, fh + 80, 4) % fa == 0
        }),
{
    lemma_byte_ranges();
    lemma_pe_add_parts(s, name, data);
    lemma_pe_grown_facts(s, name, data);
    let fh = le_value(s, 0x3c, 4) + 4;
    let count = le_value(s, fh + 2, 2);
    let s1 = write_le(s, fh + 2, 2, count + 1);
    let optional = fh + 20;
    let headers = optional + le_value(s, fh + 16, 2);
    let fa = le_value(s, fh + 56, 4);
    let sa = le_value(s, fh + 52, 4);
    let s2 = pe_make_room(s1, headers, count, fa)->0;
    let end = headers + count * 40;
    lemma_le_value_nonneg(s, 0x3c, 4);
    lemma_le_value_nonneg(s, fh + 2, 2);
    lemma_le_value_nonneg(s, fh + 16, 2);
    lemma_pe_append_layout(s2, name, data, optional, headers, count, sa, fa);
    let hs = align_up(end + 40, fa);
    assert(hs < 0x1_0000_0000);
    assert(hs % 0x1_0000_0000 == hs);
    vstd::arithmetic::div_mod::lemma_mod_multiples_basic((end + 40 - 1) / fa + 1, fa);
}

} // verus!
