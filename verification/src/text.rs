//! Text helpers: the ASCII case mappings and the few operations of `std`'s
//! strings that the game uses and that vstd does not specify.
use vstd::prelude::*;

verus! {

/// `c` mapped to its ASCII lower case: 'A'..='Z' become 'a'..='z', every other
/// character stays.
pub open spec fn ascii_lower(c: char) -> char {
    if 65 <= (c as u32) && (c as u32) <= 90 {
        ((c as u32) + 32) as char
    } else {
        c
    }
}

/// `c` mapped to its ASCII upper case: 'a'..='z' become 'A'..='Z', every other
/// character stays.
pub open spec fn ascii_upper(c: char) -> char {
    if 97 <= (c as u32) && (c as u32) <= 122 {
        ((c as u32) - 32) as char
    } else {
        c
    }
}

/// Every character of `s` mapped to its ASCII lower case.
pub open spec fn lower_seq(s: Seq<char>) -> Seq<char> {
    Seq::new(s.len(), |i: int| ascii_lower(s[i]))
}

/// Every character of `s` mapped to its ASCII upper case.
pub open spec fn upper_seq(s: Seq<char>) -> Seq<char> {
    Seq::new(s.len(), |i: int| ascii_upper(s[i]))
}

/// `s` begins with `p`.
pub open spec fn has_prefix(s: Seq<char>, p: Seq<char>) -> bool {
    p.len() <= s.len() && s.subrange(0, p.len() as int) =~= p
}

/// The number of times `c` occurs in `s`.
pub open spec fn count_char(s: Seq<char>, c: char) -> nat
    decreases s.len(),
{
    if s.len() == 0 {
        0
    } else {
        count_char(s.drop_last(), c) + if s.last() == c { 1nat } else { 0nat }
    }
}

/// `str::to_ascii_lowercase`: a copy of `s` in which each ASCII letter is in
/// lower case and every other character is unchanged.
#[verifier::external_body]
pub(crate) fn to_ascii_lowercase(s: &str) -> (r: String)
    ensures
        r@ == lower_seq(s@),
{
    s.to_ascii_lowercase()
}

/// `str::to_ascii_uppercase`: a copy of `s` in which each ASCII letter is in
/// upper case and every other character is unchanged.
#[verifier::external_body]
pub(crate) fn to_ascii_uppercase(s: &str) -> (r: String)
    ensures
        r@ == upper_seq(s@),
{
    s.to_ascii_uppercase()
}

/// Whether `s` begins with `p`.
pub fn starts_with(s: &str, p: &str) -> (r: bool)
    ensures
        r == has_prefix(s@, p@),
{
    let n = p.unicode_len();
    if n > s.unicode_len() {
        return false;
    }
    let mut i: usize = 0;
    while i < n
        invariant
            n == p@.len(),
            n <= s@.len(),
            i <= n,
            forall|j: int| 0 <= j < i ==> s@[j] == p@[j],
        decreases n - i,
    {
        if s.get_char(i) != p.get_char(i) {
            assert(s@.subrange(0, n as int)[i as int] != p@[i as int]);
            return false;
        }
        i = i + 1;
    }
    assert(s@.subrange(0, n as int) =~= p@);
    true
}

/// Removes the last character of `s` and returns it, or returns `None` and
/// leaves `s` as it is when it is empty.
pub fn string_pop(s: &mut String) -> (r: Option<char>)
    ensures
        old(s)@.len() == 0 ==> r is None && final(s)@ == old(s)@,
        old(s)@.len() > 0 ==> r == Some(old(s)@.last()) && final(s)@ == old(s)@.drop_last(),
{
    let len = s.as_str().unicode_len();
    if len == 0 {
        return None;
    }
    let last = s.as_str().get_char(len - 1);
    let rest = s.as_str().substring_char(0, len - 1).to_owned();
    *s = rest;
    Some(last)
}

/// The number of newline characters in `s`.
pub fn count_newlines(s: &str) -> (n: usize)
    ensures
        n == count_char(s@, '\n'),
{
    let len = s.unicode_len();
    let mut n: usize = 0;
    let mut i: usize = 0;
    while i < len
        invariant
            len == s@.len(),
            i <= len,
            n == count_char(s@.take(i as int), '\n'),
            n <= i,
        decreases len - i,
    {
        let c = s.get_char(i);
        assert(s@.take(i + 1).drop_last() =~= s@.take(i as int));
        if c == '\n' {
            n = n + 1;
        }
        i = i + 1;
    }
    assert(s@.take(len as int) =~= s@);
    n
}

/// The case maps move between the two ASCII alphabets and fix everything
/// else: an upper-case letter's lower case is a lower-case letter whose upper
/// case is the letter again, and the other way round; every character that
/// is no ASCII letter is its own lower and upper case.
pub proof fn lemma_case_maps(c: char)
    ensures
        'A' <= c <= 'Z' ==> 'a' <= ascii_lower(c) <= 'z' && ascii_upper(ascii_lower(c)) == c && ascii_upper(c) == c,
        'a' <= c <= 'z' ==> 'A' <= ascii_upper(c) <= 'Z' && ascii_lower(ascii_upper(c)) == c && ascii_lower(c) == c,
        !('A' <= c <= 'Z') && !('a' <= c <= 'z') ==> ascii_lower(c) == c && ascii_upper(c) == c,
        ascii_lower(c) == ' ' <==> c == ' ',
{
}

/// Counting a character adds up over pieces of text: a text of one
/// character counts 1 for that character and 0 for any other, and two texts
/// together count what each counts.
pub proof fn lemma_count_char_adds(a: Seq<char>, b: Seq<char>, c: char, d: char)
    ensures
        count_char(seq![d], c) == if d == c { 1nat } else { 0nat },
        count_char(Seq::empty(), c) == 0,
        count_char(a + b, c) == count_char(a, c) + count_char(b, c),
    decreases b.len(),
{
    assert(seq![d].drop_last() =~= Seq::<char>::empty());
    assert(count_char(seq![d].drop_last(), c) == 0);
    assert(seq![d].last() == d);
    if b.len() == 0 {
        assert(a + b =~= a);
    } else {
        lemma_count_char_adds(a, b.drop_last(), c, d);
        assert((a + b).drop_last() =~= a + b.drop_last());
    }
}

} // verus!
