use vstd::prelude::*;

verus! {

/// Appends one character to a string.
#[verifier::external_body]
pub(crate) fn push_char(s: &mut String, c: char)
    ensures
        final(s)@ == old(s)@.push(c),
{
    s.push(c);
}

/// Collects the characters of a string slice.
pub fn chars_of(s: &str) -> (r: Vec<char>)
    ensures
        r@ == s@,
{
    let mut r: Vec<char> = Vec::new();
    for c in it: s.chars()
        invariant
            r@ == it.seq().take(it.index() as int),
            it.seq() == s@,
    {
        r.push(c);
    }
    r
}

} // verus!

verus! {

/// The digit character for a value below ten.
pub open spec fn digit_char(d: nat) -> char {
    if d == 0 { '0' } else if d == 1 { '1' } else if d == 2 { '2' } else if d == 3 { '3' }
    else if d == 4 { '4' } else if d == 5 { '5' } else if d == 6 { '6' } else if d == 7 { '7' }
    else if d == 8 { '8' } else { '9' }
}

/// The decimal representation of a number, without leading zeros.
pub open spec fn decimal(n: nat) -> Seq<char>
    decreases n,
{
    if n < 10 {
        seq![digit_char(n)]
    } else {
        decimal(n / 10).push(digit_char(n % 10))
    }
}

fn digit(d: u64) -> (c: char)
    requires
        d < 10,
    ensures
        c == digit_char(d as nat),
{
    if d == 0 { '0' } else if d == 1 { '1' } else if d == 2 { '2' } else if d == 3 { '3' }
    else if d == 4 { '4' } else if d == 5 { '5' } else if d == 6 { '6' } else if d == 7 { '7' }
    else if d == 8 { '8' } else { '9' }
}

/// The decimal representation of a number.
pub fn decimal_string(n: u64) -> (r: String)
    ensures
        r@ == decimal(n as nat),
    decreases n,
{
    if n < 10 {
        let mut s = String::new();
        push_char(&mut s, digit(n));
        assert(s@ =~= seq![digit_char(n as nat)]);
        s
    } else {
        let mut s = decimal_string(n / 10);
        push_char(&mut s, digit(n % 10));
        s
    }
}

/// Concatenates string slices.
pub fn concat(parts: &[&str]) -> (r: String)
    ensures
        r@ == concat_all(parts@.map_values(|p: &str| p@)),
{
    let mut r = String::new();
    let mut i: usize = 0;
    while i < parts.len()
        invariant
            0 <= i <= parts@.len(),
            r@ == concat_all(parts@.map_values(|p: &str| p@).take(i as int)),
        decreases parts.len() - i,
    {
        r.append(parts[i]);
        assert(parts@.map_values(|p: &str| p@).take(i + 1).drop_last() =~= parts@.map_values(|p: &str| p@).take(i as int));
        i = i + 1;
    }
    assert(parts@.map_values(|p: &str| p@).take(parts@.len() as int) =~= parts@.map_values(|p: &str| p@));
    r
}

/// The concatenation of a list of texts.
pub open spec fn concat_all(parts: Seq<Seq<char>>) -> Seq<char>
    decreases parts.len(),
{
    if parts.len() == 0 {
        Seq::empty()
    } else {
        concat_all(parts.drop_last()) + parts.last()
    }
}


/// Whether a text starts with another.
pub open spec fn has_prefix(s: Seq<char>, prefix: Seq<char>) -> bool {
    prefix.len() <= s.len() && s.take(prefix.len() as int) == prefix
}

/// Whether a text occurs in another.
pub open spec fn has_infix(s: Seq<char>, needle: Seq<char>) -> bool {
    exists|i: int| 0 <= i && i + needle.len() <= s.len() && #[trigger] s.subrange(i, i + needle.len()) == needle
}

/// Whether the characters at `at` spell out `needle`.
fn matches_at(s: &Vec<char>, at: usize, needle: &Vec<char>) -> (r: bool)
    requires
        at + needle.len() <= s.len(),
    ensures
        r == (s@.subrange(at as int, at + needle@.len()) == needle@),
{
    let mut i: usize = 0;
    while i < needle.len()
        invariant
            at + needle.len() <= s.len(),
            i <= needle@.len(),
            forall|j: int| 0 <= j < i ==> s@[at + j] == needle@[j],
        decreases needle.len() - i,
    {
        if s[at + i] != needle[i] {
            assert(s@.subrange(at as int, at + needle@.len())[i as int] != needle@[i as int]);
            return false;
        }
        i = i + 1;
    }
    assert(s@.subrange(at as int, at + needle@.len()) =~= needle@);
    true
}

/// Whether a text starts with another.
pub fn starts_with(s: &str, prefix: &str) -> (r: bool)
    ensures
        r == has_prefix(s@, prefix@),
{
    let sc = chars_of(s);
    let pc = chars_of(prefix);
    if pc.len() > sc.len() {
        return false;
    }
    let r = matches_at(&sc, 0, &pc);
    assert(sc@.subrange(0, pc@.len() as int) =~= sc@.take(pc@.len() as int));
    r
}

/// Whether a text occurs in another.
pub fn contains_text(s: &str, needle: &str) -> (r: bool)
    ensures
        r == has_infix(s@, needle@),
{
    let sc = chars_of(s);
    let nc = chars_of(needle);
    if nc.len() > sc.len() {
        return false;
    }
    let mut i: usize = 0;
    let last = sc.len() - nc.len();
    loop
        invariant_except_break
            sc@ == s@,
            nc@ == needle@,
            nc.len() <= sc.len(),
            last == sc.len() - nc.len(),
            i <= last,
            forall|j: int| 0 <= j < i ==> #[trigger] sc@.subrange(j, j + nc@.len()) != nc@,
        ensures
            forall|j: int| 0 <= j <= last ==> #[trigger] sc@.subrange(j, j + nc@.len()) != nc@,
        decreases last - i,
    {
        if matches_at(&sc, i, &nc) {
            return true;
        }
        if i == last {
            break;
        }
        i = i + 1;
    }
    false
}

/// The text after its first `n` characters.
pub fn text_after(s: &str, n: usize) -> (r: String)
    requires
        n <= s@.len(),
    ensures
        r@ == s@.skip(n as int),
{
    let sc = chars_of(s);
    let mut r = String::new();
    let mut i: usize = n;
    while i < sc.len()
        invariant
            sc@ == s@,
            n <= i <= sc@.len(),
            r@ == sc@.subrange(n as int, i as int),
        decreases sc.len() - i,
    {
        push_char(&mut r, sc[i]);
        assert(sc@.subrange(n as int, i + 1) =~= sc@.subrange(n as int, i as int).push(sc@[i as int]));
        i = i + 1;
    }
    assert(sc@.subrange(n as int, sc@.len() as int) =~= sc@.skip(n as int));
    r
}

/// Forward slashes replaced by the given separator.
pub open spec fn separated_with(s: Seq<char>, sep: char) -> Seq<char> {
    s.map_values(|c: char| if c == '/' { sep } else { c })
}

/// A text with its forward slashes replaced by the given separator.
pub fn with_separator(s: &str, sep: char) -> (r: String)
    ensures
        r@ == separated_with(s@, sep),
{
    let cs = chars_of(s);
    let mut r = String::new();
    let mut i: usize = 0;
    while i < cs.len()
        invariant
            0 <= i <= cs.len(),
            cs@ == s@,
            r@ == separated_with(cs@.take(i as int), sep),
        decreases cs.len() - i,
    {
        let c = cs[i];
        push_char(&mut r, if c == '/' { sep } else { c });
        assert(separated_with(cs@.take(i + 1), sep) =~= separated_with(cs@.take(i as int), sep).push(
            if c == '/' { sep } else { c }));
        i = i + 1;
    }
    assert(cs@.take(cs@.len() as int) =~= cs@);
    r
}

/// Digits with a comma before each group of three counted from the right, as in `1,234,567`.
pub open spec fn grouped_digits(d: Seq<char>) -> Seq<char>
    decreases d.len(),
{
    if d.len() == 0 {
        Seq::empty()
    } else {
        let pos = d.len() - 1;
        seq![d[0]] + (if pos > 0 && pos % 3 == 0 { seq![','] } else { Seq::empty() }) + grouped_digits(d.skip(1))
    }
}

/// A count written for people: its decimal digits grouped in threes with commas, such as
/// `1,234,567`.
pub fn human_count(n: u64) -> (r: String)
    ensures
        r@ == grouped_digits(decimal(n as nat)),
{
    let d = decimal_string(n);
    let cs = chars_of(d.as_str());
    let mut r = String::new();
    let mut i: usize = 0;
    assert(cs@.skip(0) =~= cs@);
    assert(r@ + grouped_digits(cs@) =~= grouped_digits(cs@));
    while i < cs.len()
        invariant
            0 <= i <= cs@.len(),
            cs@ == decimal(n as nat),
            r@ + grouped_digits(cs@.skip(i as int)) == grouped_digits(cs@),
        decreases cs.len() - i,
    {
        let ghost rest = cs@.skip(i as int);
        let ghost before = r@;
        assert(rest.skip(1) =~= cs@.skip(i + 1));
        assert(rest[0] == cs@[i as int]);
        push_char(&mut r, cs[i]);
        let pos = cs.len() - i - 1;
        if pos > 0 && pos % 3 == 0 {
            push_char(&mut r, ',');
            assert(r@ + grouped_digits(cs@.skip(i + 1)) =~= before + grouped_digits(rest));
        } else {
            assert(r@ + grouped_digits(cs@.skip(i + 1)) =~= before + grouped_digits(rest));
        }
        i = i + 1;
    }
    assert(cs@.skip(cs@.len() as int) =~= Seq::<char>::empty());
    assert(r@ + Seq::<char>::empty() =~= r@);
    r
}

/// How `indicatif::HumanBytes` writes a number of bytes: with a binary prefix and two decimals,
/// such as `1.46 KiB`.
pub uninterp spec fn human_bytes_text(n: u64) -> Seq<char>;

/// A number of bytes written for people (`indicatif::HumanBytes`), as `human_bytes_text` names
/// it. Below 1024 it is the plain number of bytes, such as `17 B`.
#[verifier::external_body]
pub(crate) fn human_bytes(n: u64) -> (r: String)
    ensures
        r@ == human_bytes_text(n),
        n < 1024 ==> r@ == decimal(n as nat) + " B"@,
{
    indicatif::HumanBytes(n).to_string()
}

} // verus!
