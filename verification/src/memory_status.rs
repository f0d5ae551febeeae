use vstd::prelude::*;
use crate::text::{chars_of, has_prefix};

verus! {

/// Unicode white space (the `White_Space` property), which `str::trim` removes from both ends.
pub open spec fn is_white_space(c: char) -> bool {
    let u = c as u32;
    (0x9 <= u <= 0xd) || u == 0x20 || u == 0x85 || u == 0xa0 || u == 0x1680 || (0x2000 <= u <= 0x200a)
        || u == 0x2028 || u == 0x2029 || u == 0x202f || u == 0x205f || u == 0x3000
}

/// An ASCII decimal digit.
pub open spec fn is_decimal_digit(c: char) -> bool {
    0x30 <= (c as u32) <= 0x39
}

/// The text with white space removed from both ends.
pub open spec fn trimmed(s: Seq<char>) -> Seq<char>
    decreases s.len(),
{
    if s.len() > 0 && is_white_space(s[0]) {
        trimmed(s.skip(1))
    } else if s.len() > 0 && is_white_space(s.last()) {
        trimmed(s.drop_last())
    } else {
        s
    }
}

/// The text without the characters other than decimal digits at its end.
pub open spec fn without_trailing_non_digits(s: Seq<char>) -> Seq<char>
    decreases s.len(),
{
    if s.len() > 0 && !is_decimal_digit(s.last()) {
        without_trailing_non_digits(s.drop_last())
    } else {
        s
    }
}

/// The value of a sequence of decimal digits.
pub open spec fn digits_value(s: Seq<char>) -> nat
    decreases s.len(),
{
    if s.len() == 0 {
        0
    } else {
        digits_value(s.drop_last()) * 10 + ((s.last() as u32) - 0x30) as nat
    }
}

/// Whether every character of a text is a decimal digit.
pub open spec fn all_digits(s: Seq<char>) -> bool {
    forall|i: int| 0 <= i < s.len() ==> #[trigger] is_decimal_digit(s[i])
}

/// The digits of a number as `str::parse` reads them: the text without a leading `+`.
pub open spec fn unsigned_body(s: Seq<char>) -> Seq<char> {
    if s.len() > 0 && s[0] == '+' { s.skip(1) } else { s }
}

/// What `str::parse::<usize>` makes of a text: an optional `+`, then at least one decimal digit
/// and nothing else, with a value that fits.
pub open spec fn parsed_usize(s: Seq<char>) -> Option<nat> {
    let body = unsigned_body(s);
    if body.len() > 0 && all_digits(body) && digits_value(body) <= usize::MAX {
        Some(digits_value(body))
    } else {
        None
    }
}

/// Where the line that contains position `i` ends: at the next line feed, or at the end of the
/// text.
pub open spec fn line_end(s: Seq<char>, i: int) -> int
    decreases s.len() - i,
{
    if i < 0 || i >= s.len() || s[i] == '\n' {
        i
    } else {
        line_end(s, i + 1)
    }
}

/// A line ends at or after where it is entered, at a line feed or at the end of the text.
pub proof fn lemma_line_end_bounds(s: Seq<char>, i: int)
    requires
        0 <= i <= s.len(),
    ensures
        i <= line_end(s, i) <= s.len(),
        line_end(s, i) < s.len() ==> s[line_end(s, i)] == '\n',
        forall|k: int| i <= k < line_end(s, i) ==> s[k] != '\n',
    decreases s.len() - i,
{
    if i < s.len() && s[i] != '\n' {
        lemma_line_end_bounds(s, i + 1);
    }
}

/// Whether a line starts at position `p`: at the start of the text, or after a line feed.
pub open spec fn is_line_start(s: Seq<char>, p: int) -> bool {
    p == 0 || (0 < p <= s.len() && s[p - 1] == '\n')
}

/// The start of the first line, at position `p` or after it, that begins with `prefix`. A carriage
/// return before a line feed stays part of its line; what is read of the line trims it away as
/// white space.
pub open spec fn first_line_with_prefix(s: Seq<char>, prefix: Seq<char>, p: int) -> Option<int>
    decreases s.len() - p,
{
    if p < 0 || p >= s.len() {
        None
    } else if is_line_start(s, p) && has_prefix(s.subrange(p, line_end(s, p)), prefix) {
        Some(p)
    } else {
        first_line_with_prefix(s, prefix, p + 1)
    }
}

/// Where a character first occurs in a text, from position `i` on.
pub open spec fn first_index_from(s: Seq<char>, c: char, i: int) -> Option<int>
    decreases s.len() - i,
{
    if i < 0 || i >= s.len() {
        None
    } else if s[i] == c {
        Some(i)
    } else {
        first_index_from(s, c, i + 1)
    }
}

/// The peak memory use, in bytes, that a Linux process status text gives: the number after the
/// colon on the first line that starts with `VmPeak`, white space trimmed and its unit dropped,
/// is a number of kibibytes. None where there is no such line or number, or the bytes would not
/// fit.
pub open spec fn spec_peak_memory(status: Seq<char>) -> Option<nat> {
    match first_line_with_prefix(status, "VmPeak"@, 0) {
        None => None,
        Some(p) => {
            let line = status.subrange(p, line_end(status, p));
            match first_index_from(line, ':', 0) {
                None => None,
                Some(c) => match parsed_usize(without_trailing_non_digits(trimmed(line.skip(c + 1)))) {
                    None => None,
                    Some(kib) => if kib * 1024 <= usize::MAX { Some(kib * 1024) } else { None },
                },
            }
        },
    }
}

fn white_space(c: char) -> (r: bool)
    ensures
        r == is_white_space(c),
{
    let u = c as u32;
    (0x9 <= u && u <= 0xd) || u == 0x20 || u == 0x85 || u == 0xa0 || u == 0x1680 || (0x2000 <= u && u <= 0x200a)
        || u == 0x2028 || u == 0x2029 || u == 0x202f || u == 0x205f || u == 0x3000
}

fn decimal_digit(c: char) -> (r: bool)
    ensures
        r == is_decimal_digit(c),
{
    let u = c as u32;
    0x30 <= u && u <= 0x39
}

/// A number read after a prefix of its digits is at least the prefix's value.
proof fn lemma_digits_value_prefix(s: Seq<char>, k: int)
    requires
        0 <= k <= s.len(),
        forall|i: int| 0 <= i < s.len() ==> #[trigger] is_decimal_digit(s[i]),
    ensures
        digits_value(s.take(k)) <= digits_value(s),
    decreases s.len() - k,
{
    if k < s.len() {
        let t = s.drop_last();
        assert(t.take(k) =~= s.take(k));
        assert forall|i: int| 0 <= i < t.len() implies #[trigger] is_decimal_digit(t[i]) by {
            assert(t[i] == s[i]);
        }
        lemma_digits_value_prefix(t, k);
        assert(s.last() == s[s.len() - 1]);
    } else {
        assert(s.take(k) =~= s);
    }
}

/// The number that the characters from `a` to `b` hold, read as `spec_peak_memory` reads the
/// field of the `VmPeak` line.
fn number_in(cs: &Vec<char>, a: usize, b: usize) -> (r: Option<usize>)
    requires
        a <= b <= cs@.len(),
    ensures
        match parsed_usize(without_trailing_non_digits(trimmed(cs@.subrange(a as int, b as int)))) {
            Some(n) => r == Some(n as usize),
            None => r is None,
        },
{
    let ghost field = cs@.subrange(a as int, b as int);
    let mut i: usize = a;
    while i < b && white_space(cs[i])
        invariant
            a <= i <= b <= cs@.len(),
            field == cs@.subrange(a as int, b as int),
            trimmed(field) == trimmed(cs@.subrange(i as int, b as int)),
        decreases b - i,
    {
        assert(cs@.subrange(i as int, b as int).skip(1) =~= cs@.subrange(i + 1, b as int));
        i = i + 1;
    }
    let mut j: usize = b;
    while j > i && white_space(cs[j - 1])
        invariant
            a <= i <= j <= b <= cs@.len(),
            trimmed(field) == trimmed(cs@.subrange(i as int, j as int)),
            i < j ==> !is_white_space(cs@[i as int]),
        decreases j - i,
    {
        assert(cs@.subrange(i as int, j as int).drop_last() =~= cs@.subrange(i as int, j - 1));
        j = j - 1;
    }
    let ghost t = cs@.subrange(i as int, j as int);
    assert(trimmed(t) == t);
    let mut k: usize = j;
    while k > i && !decimal_digit(cs[k - 1])
        invariant
            i <= k <= j <= cs@.len(),
            without_trailing_non_digits(trimmed(field)) == without_trailing_non_digits(cs@.subrange(i as int, k as int)),
        decreases k - i,
    {
        assert(cs@.subrange(i as int, k as int).drop_last() =~= cs@.subrange(i as int, k - 1));
        k = k - 1;
    }
    let ghost w = cs@.subrange(i as int, k as int);
    assert(without_trailing_non_digits(w) == w);
    let mut q: usize = i;
    if q < k && cs[q] == '+' {
        q = q + 1;
    }
    let ghost body = cs@.subrange(q as int, k as int);
    assert(body =~= unsigned_body(w));
    assert(without_trailing_non_digits(trimmed(field)) == w);
    if q == k {
        assert(parsed_usize(w) is None);
        return None;
    }
    let mut v: usize = 0;
    let mut m: usize = q;
    assert(cs@.subrange(q as int, q as int) =~= Seq::<char>::empty());
    while m < k
        invariant
            q <= m <= k <= cs@.len(),
            body == cs@.subrange(q as int, k as int),
            body == unsigned_body(w),
            field == cs@.subrange(a as int, b as int),
            without_trailing_non_digits(trimmed(field)) == w,
            v == digits_value(cs@.subrange(q as int, m as int)),
            forall|x: int| q <= x < m ==> #[trigger] is_decimal_digit(cs@[x]),
        decreases k - m,
    {
        let c = cs[m];
        if !decimal_digit(c) {
            assert(body[m - q] == cs@[m as int]);
            assert(!is_decimal_digit(body[m - q]));
            assert(!all_digits(body));
            assert(parsed_usize(w) is None);
            return None;
        }
        assert(0x30 <= (c as u32) <= 0x39);
        let d = (c as u32 - 0x30) as usize;
        let ghost next = cs@.subrange(q as int, m + 1);
        assert(next.drop_last() =~= cs@.subrange(q as int, m as int));
        assert(digits_value(next) == v * 10 + d);
        let grown = match v.checked_mul(10) {
            Some(x) => x.checked_add(d),
            None => None,
        };
        match grown {
            Some(g) => {
                v = g;
            }
            None => {
                proof {
                    if all_digits(body) {
                        assert(body.take(m + 1 - q) =~= next);
                        lemma_digits_value_prefix(body, m + 1 - q);
                        assert(v * 10 + d > usize::MAX);
                    }
                    assert(parsed_usize(w) is None);
                }
                return None;
            }
        }
        m = m + 1;
    }
    assert(cs@.subrange(q as int, m as int) =~= body);
    assert forall|x: int| 0 <= x < body.len() implies #[trigger] is_decimal_digit(body[x]) by {
        assert(body[x] == cs@[q + x]);
    }
    assert(all_digits(body));
    Some(v)
}

/// Where the line that contains position `p` ends, as `line_end` says.
fn line_end_of(cs: &Vec<char>, p: usize) -> (r: usize)
    requires
        p <= cs@.len(),
    ensures
        r == line_end(cs@, p as int),
{
    let mut e: usize = p;
    while e < cs.len() && cs[e] != '\n'
        invariant
            p <= e <= cs@.len(),
            line_end(cs@, p as int) == line_end(cs@, e as int),
        decreases cs.len() - e,
    {
        e = e + 1;
    }
    e
}

/// Whether the characters from `p` to `e` begin with `prefix`.
fn begins_with(cs: &Vec<char>, p: usize, e: usize, prefix: &Vec<char>) -> (r: bool)
    requires
        p <= e <= cs@.len(),
    ensures
        r == has_prefix(cs@.subrange(p as int, e as int), prefix@),
{
    if prefix.len() > e - p {
        return false;
    }
    let mut i: usize = 0;
    while i < prefix.len()
        invariant
            prefix@.len() <= e - p,
            p <= e <= cs@.len(),
            i <= prefix@.len(),
            forall|x: int| 0 <= x < i ==> cs@[p + x] == prefix@[x],
        decreases prefix.len() - i,
    {
        if cs[p + i] != prefix[i] {
            assert(cs@.subrange(p as int, e as int).take(prefix@.len() as int)[i as int] != prefix@[i as int]);
            return false;
        }
        i = i + 1;
    }
    assert(cs@.subrange(p as int, e as int).take(prefix@.len() as int) =~= prefix@);
    true
}

/// The peak memory use, in bytes, that a Linux process status text gives, as `spec_peak_memory`
/// says.
pub fn peak_memory_from_status(status: &str) -> (r: Option<usize>)
    ensures
        match spec_peak_memory(status@) {
            Some(n) => r == Some(n as usize),
            None => r is None,
        },
{
    let cs = chars_of(status);
    let prefix = chars_of("VmPeak");
    let mut p: usize = 0;
    while p < cs.len()
        invariant
            p <= cs@.len(),
            cs@ == status@,
            prefix@ == "VmPeak"@,
            first_line_with_prefix(cs@, prefix@, 0) == first_line_with_prefix(cs@, prefix@, p as int),
        decreases cs.len() - p,
    {
        if p == 0 || cs[p - 1] == '\n' {
            let e = line_end_of(&cs, p);
            proof { lemma_line_end_bounds(cs@, p as int); }
            if begins_with(&cs, p, e, &prefix) {
                let ghost line = cs@.subrange(p as int, e as int);
                let mut c: usize = p;
                while c < e && cs[c] != ':'
                    invariant
                        p <= c <= e <= cs@.len(),
                        line == cs@.subrange(p as int, e as int),
                        first_index_from(line, ':', 0) == first_index_from(line, ':', c - p),
                    decreases e - c,
                {
                    c = c + 1;
                }
                if c == e {
                    return None;
                }
                assert(line.skip(c - p + 1) =~= cs@.subrange(c + 1, e as int));
                return match number_in(&cs, c + 1, e) {
                    Some(kib) => kib.checked_mul(1024),
                    None => None,
                };
            }
        }
        p = p + 1;
    }
    None
}

} // verus!
