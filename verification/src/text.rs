//! Character-sequence helpers shared by the parsers and message checks.
//!
//! Strings are modelled by their view, a `Seq<char>`. The two Unicode-aware
//! operations of std that the wallet relies on (`str::to_lowercase` and
//! `str::trim`) are named results; everything else is computed here.
use vstd::prelude::*;
use vstd::string::*;

verus! {

/// `p` is a prefix of `s`.
pub open spec fn has_prefix(s: Seq<char>, p: Seq<char>) -> bool {
    p.len() <= s.len() && s.subrange(0, p.len() as int) == p
}

/// `p` occurs in `s` starting at position `i`.
pub open spec fn occurs_at(s: Seq<char>, p: Seq<char>, i: int) -> bool {
    0 <= i && i + p.len() <= s.len() && s.subrange(i, i + p.len()) == p
}

/// `p` occurs somewhere in `s` (the empty pattern occurs in every string).
pub open spec fn has_infix(s: Seq<char>, p: Seq<char>) -> bool {
    exists|i: int| occurs_at(s, p, i)
}

/// Position of the first occurrence of `c` in `s`, if any.
pub open spec fn first_index_of(s: Seq<char>, c: char) -> Option<int> {
    if exists|i: int| 0 <= i < s.len() && s[i] == c {
        Some(choose|i: int| 0 <= i < s.len() && s[i] == c && forall|j: int| 0 <= j < i ==> s[j] != c)
    } else {
        None
    }
}

/// The Unicode lowercase mapping that `str::to_lowercase` computes.
pub uninterp spec fn lowercase_of(s: Seq<char>) -> Seq<char>;

/// A character with the Unicode `White_Space` property, which `str::trim`
/// strips: tab to carriage return, space, next line, no-break space, ogham
/// space mark, the en quad to hair space range, line and paragraph
/// separators, narrow no-break space, medium mathematical space and
/// ideographic space.
pub open spec fn is_white_space(c: char) -> bool {
    let u = c as u32;
    (0x9 <= u && u <= 0xD) || u == 0x20 || u == 0x85 || u == 0xA0 || u == 0x1680 || (0x2000 <= u && u <= 0x200A)
        || u == 0x2028 || u == 0x2029 || u == 0x202F || u == 0x205F || u == 0x3000
}

/// How many white-space characters a string starts with.
pub open spec fn leading_white(s: Seq<char>) -> nat
    decreases s.len(),
{
    if s.len() == 0 || !is_white_space(s[0]) {
        0
    } else {
        1 + leading_white(s.drop_first())
    }
}

/// How many white-space characters a string ends with.
pub open spec fn trailing_white(s: Seq<char>) -> nat
    decreases s.len(),
{
    if s.len() == 0 || !is_white_space(s.last()) {
        0
    } else {
        1 + trailing_white(s.drop_last())
    }
}

/// The string that `str::trim` leaves: leading and trailing white space
/// removed.
pub open spec fn trimmed_of(s: Seq<char>) -> Seq<char> {
    let rest = s.skip(leading_white(s) as int);
    rest.take(rest.len() - trailing_white(rest))
}

/// Lowercases a string with `str::to_lowercase` (Unicode rules).
#[verifier::external_body]
pub(crate) fn to_lowercase(s: &str) -> (r: String)
    ensures
        r@ == lowercase_of(s@),
{
    s.to_lowercase()
}

/// Whether a character has the Unicode `White_Space` property.
fn white_space(c: char) -> (r: bool)
    ensures
        r == is_white_space(c),
{
    let u = c as u32;
    (0x9 <= u && u <= 0xD) || u == 0x20 || u == 0x85 || u == 0xA0 || u == 0x1680 || (0x2000 <= u && u <= 0x200A)
        || u == 0x2028 || u == 0x2029 || u == 0x202F || u == 0x205F || u == 0x3000
}

/// Trims leading and trailing white space (Unicode `White_Space`), as
/// `str::trim` does.
pub(crate) fn trim(s: &str) -> (r: &str)
    ensures
        r@ == trimmed_of(s@),
{
    let cs = chars_of(s);
    let n = cs.len();
    let mut a: usize = 0;
    assert(s@.skip(0) =~= s@);
    while a < n && white_space(cs[a])
        invariant
            a <= n,
            n == s@.len(),
            cs@ == s@,
            leading_white(s@) == a + leading_white(s@.skip(a as int)),
        decreases n - a,
    {
        assert(s@.skip(a as int).drop_first() =~= s@.skip(a + 1));
        a = a + 1;
    }
    let ghost rest = s@.skip(a as int);
    assert(leading_white(rest) == 0);
    let mut b: usize = n;
    assert(rest.take(rest.len() as int) =~= rest);
    while b > a && white_space(cs[b - 1])
        invariant
            a <= b <= n,
            n == s@.len(),
            cs@ == s@,
            rest == s@.skip(a as int),
            trailing_white(rest) == (n - b) + trailing_white(rest.take(b - a)),
        decreases b - a,
    {
        assert(rest.take(b - a).last() == s@[b - 1]);
        assert(rest.take(b - a).drop_last() =~= rest.take(b - 1 - a));
        b = b - 1;
    }
    assert(trailing_white(rest.take(b - a)) == 0) by {
        if b > a {
            assert(rest.take(b - a).last() == s@[b - 1]);
        }
    }
    assert(rest.take(b - a) =~= s@.subrange(a as int, b as int));
    s.substring_char(a, b)
}

/// The characters of a string, in order.
pub fn chars_of(s: &str) -> (v: Vec<char>)
    ensures
        v@ == s@,
{
    let mut v: Vec<char> = Vec::new();
    for c in it: s.chars()
        invariant
            it.seq() == s@,
            v@ == it.seq().take(it.index() as int),
    {
        v.push(c);
    }
    v
}

/// Whether `s` starts with `p`.
pub fn starts_with(s: &Vec<char>, p: &Vec<char>) -> (r: bool)
    ensures
        r == has_prefix(s@, p@),
{
    if p.len() > s.len() {
        return false;
    }
    let mut i: usize = 0;
    while i < p.len()
        invariant
            p.len() <= s.len(),
            i <= p.len(),
            forall|k: int| 0 <= k < i ==> s@[k] == p@[k],
        decreases p.len() - i,
    {
        if s[i] != p[i] {
            assert(s@.subrange(0, p@.len() as int)[i as int] != p@[i as int]);
            return false;
        }
        i = i + 1;
    }
    assert(s@.subrange(0, p@.len() as int) =~= p@);
    true
}

/// Whether `p` occurs in `s` at position `at`.
fn matches_at(s: &Vec<char>, p: &Vec<char>, at: usize) -> (r: bool)
    requires
        at + p.len() <= s.len(),
    ensures
        r == occurs_at(s@, p@, at as int),
{
    let mut i: usize = 0;
    while i < p.len()
        invariant
            at + p.len() <= s.len(),
            i <= p.len(),
            forall|k: int| 0 <= k < i ==> s@[at + k] == p@[k],
        decreases p.len() - i,
    {
        if s[at + i] != p[i] {
            assert(s@.subrange(at as int, at + p@.len())[i as int] != p@[i as int]);
            return false;
        }
        i = i + 1;
    }
    assert(s@.subrange(at as int, at + p@.len()) =~= p@);
    true
}

/// Whether `p` occurs anywhere in `s`.
pub fn contains_seq(s: &Vec<char>, p: &Vec<char>) -> (r: bool)
    ensures
        r == has_infix(s@, p@),
{
    if p.len() > s.len() {
        assert(forall|i: int| !occurs_at(s@, p@, i));
        return false;
    }
    if p.len() == 0 {
        assert(s@.subrange(0, 0) =~= p@);
        assert(occurs_at(s@, p@, 0));
        return true;
    }
    let last = s.len() - p.len();
    let mut at: usize = 0;
    while at <= last
        invariant
            last + p.len() == s.len(),
            p.len() >= 1,
            at <= last + 1,
            forall|i: int| 0 <= i < at ==> !occurs_at(s@, p@, i),
        decreases last + 1 - at,
    {
        if matches_at(s, p, at) {
            return true;
        }
        at = at + 1;
    }
    assert(forall|i: int| !occurs_at(s@, p@, i)) by {
        assert forall|i: int| !occurs_at(s@, p@, i) by {
            if 0 <= i && i < at {
            }
        }
    }
    false
}

/// Whether `s` contains the literal `lit`.
pub fn contains_text(s: &Vec<char>, lit: &str) -> (r: bool)
    ensures
        r == has_infix(s@, lit@),
{
    let p = chars_of(lit);
    contains_seq(s, &p)
}

/// The first occurrence of `c` in `s` is at `i`.
pub open spec fn first_occurrence(s: Seq<char>, c: char, i: int) -> bool {
    0 <= i < s.len() && s[i] == c && forall|j: int| 0 <= j < i ==> s[j] != c
}

/// Position of the first occurrence of `c` in `s`.
pub fn find_char(s: &Vec<char>, c: char) -> (r: Option<usize>)
    ensures
        r matches Some(i) ==> first_occurrence(s@, c, i as int),
        r is None ==> forall|j: int| 0 <= j < s@.len() ==> s@[j] != c,
{
    let mut i: usize = 0;
    while i < s.len()
        invariant
            i <= s.len(),
            forall|j: int| 0 <= j < i ==> s@[j] != c,
        decreases s.len() - i,
    {
        if s[i] == c {
            return Some(i);
        }
        i = i + 1;
    }
    None
}

/// The first occurrence of a character is unique.
pub proof fn lemma_first_occurrence_unique(s: Seq<char>, c: char, i: int, k: int)
    requires
        first_occurrence(s, c, i),
        first_occurrence(s, c, k),
    ensures
        i == k,
{
    if i < k {
        assert(s[i] != c);
    } else if k < i {
        assert(s[k] != c);
    }
}

/// Chars `from..to` of a string, as a new `String`.
pub fn substring(s: &str, from: usize, to: usize) -> (r: String)
    requires
        from <= to <= s@.len(),
    ensures
        r@ == s@.subrange(from as int, to as int),
{
    String::from_str(s.substring_char(from, to))
}

/// The decimal digit character for `d < 10`.
pub open spec fn digit_char(d: nat) -> char {
    if d == 0 { '0' } else if d == 1 { '1' } else if d == 2 { '2' } else if d == 3 { '3' }
    else if d == 4 { '4' } else if d == 5 { '5' } else if d == 6 { '6' } else if d == 7 { '7' }
    else if d == 8 { '8' } else { '9' }
}

/// Decimal representation of `n`, without leading zeros (`"0"` for zero).
pub open spec fn decimal(n: nat) -> Seq<char>
    decreases n,
{
    if n < 10 {
        seq![digit_char(n)]
    } else {
        decimal(n / 10).push(digit_char(n % 10))
    }
}

/// Appends one decimal digit.
fn push_digit(out: &mut String, d: u64)
    requires
        d < 10,
    ensures
        final(out)@ == old(out)@.push(digit_char(d as nat)),
{
    proof {
        reveal_strlit("0");
        reveal_strlit("1");
        reveal_strlit("2");
        reveal_strlit("3");
        reveal_strlit("4");
        reveal_strlit("5");
        reveal_strlit("6");
        reveal_strlit("7");
        reveal_strlit("8");
        reveal_strlit("9");
    }
    let ghost before = out@;
    match d {
        0 => out.append("0"),
        1 => out.append("1"),
        2 => out.append("2"),
        3 => out.append("3"),
        4 => out.append("4"),
        5 => out.append("5"),
        6 => out.append("6"),
        7 => out.append("7"),
        8 => out.append("8"),
        _ => out.append("9"),
    }
    assert(out@ =~= before.push(digit_char(d as nat)));
}

/// Appends the decimal representation of `n`.
pub fn append_decimal(out: &mut String, n: u64)
    ensures
        final(out)@ == old(out)@ + decimal(n as nat),
    decreases n,
{
    if n < 10 {
        push_digit(out, n);
        assert(old(out)@.push(digit_char(n as nat)) =~= old(out)@ + decimal(n as nat));
    } else {
        append_decimal(out, n / 10);
        push_digit(out, n % 10);
        assert(old(out)@ + decimal(n as nat) =~= old(out)@ + decimal((n / 10) as nat) + seq![digit_char((n % 10) as nat)]);
    }
}

/// The decimal representation of `n` as a new `String`.
pub fn decimal_string(n: u64) -> (r: String)
    ensures
        r@ == decimal(n as nat),
{
    let mut out = String::new();
    append_decimal(&mut out, n);
    assert(out@ =~= decimal(n as nat));
    out
}

} // verus!
