//! Character-level text handling shared by the rest of the library.

use vstd::prelude::*;
use vstd::std_specs::iter::IteratorSpec;

verus! {

broadcast use vstd::string::group_string_axioms;

/// Appends one character to a string.
///
/// Trusted: `String::push`, which the documentation describes as appending
/// the given `char` to the end of the string.
#[verifier::external_body]
pub(crate) fn push_char(s: &mut String, c: char)
    ensures
        final(s)@ == old(s)@.push(c),
{
    s.push(c);
}

/// The characters of a string slice, in order.
pub fn chars_of(s: &str) -> (r: Vec<char>)
    ensures
        r@ == s@,
{
    let mut out: Vec<char> = Vec::new();
    let mut it = s.chars();
    loop
        invariant
            it.obeys_prophetic_iter_laws(),
            it.decrease() is Some,
            out@ + it.remaining() == s@,
        ensures
            out@ == s@,
        decreases it.decrease()->0,
    {
        let ghost before = it.remaining();
        match it.next() {
            Some(c) => {
                out.push(c);
            },
            None => {
                assert(before.len() == 0);
                assert(out@ + before =~= out@);
                break;
            },
        }
    }
    out
}

} // verus!

verus! {

/// Appends characters to a string.
pub fn append_chars(s: &mut String, cs: &Vec<char>)
    ensures
        final(s)@ == old(s)@ + cs@,
{
    let mut i: usize = 0;
    while i < cs.len()
        invariant
            i <= cs@.len(),
            s@ == old(s)@ + cs@.subrange(0, i as int),
        decreases cs@.len() - i,
    {
        push_char(s, cs[i]);
        assert(cs@.subrange(0, i + 1) =~= cs@.subrange(0, i as int).push(cs@[i as int]));
        i = i + 1;
    }
    assert(cs@.subrange(0, cs@.len() as int) =~= cs@);
}

/// A string holding the given characters.
pub fn string_from_chars(cs: &Vec<char>) -> (r: String)
    ensures
        r@ == cs@,
{
    let mut s = String::new();
    append_chars(&mut s, cs);
    assert(Seq::<char>::empty() + cs@ =~= cs@);
    s
}

/// Appends the characters of a string slice to a character buffer.
pub fn extend_chars(out: &mut Vec<char>, s: &str)
    ensures
        final(out)@ == old(out)@ + s@,
{
    let cs = chars_of(s);
    let mut i: usize = 0;
    while i < cs.len()
        invariant
            i <= cs@.len(),
            cs@ == s@,
            out@ == old(out)@ + cs@.subrange(0, i as int),
        decreases cs@.len() - i,
    {
        out.push(cs[i]);
        assert(cs@.subrange(0, i + 1) =~= cs@.subrange(0, i as int).push(cs@[i as int]));
        i = i + 1;
    }
    assert(cs@.subrange(0, cs@.len() as int) =~= cs@);
}

/// Appends characters to a character buffer.
pub fn extend_with(out: &mut Vec<char>, cs: &Vec<char>)
    ensures
        final(out)@ == old(out)@ + cs@,
{
    let mut i: usize = 0;
    while i < cs.len()
        invariant
            i <= cs@.len(),
            out@ == old(out)@ + cs@.subrange(0, i as int),
        decreases cs@.len() - i,
    {
        out.push(cs[i]);
        assert(cs@.subrange(0, i + 1) =~= cs@.subrange(0, i as int).push(cs@[i as int]));
        i = i + 1;
    }
    assert(cs@.subrange(0, cs@.len() as int) =~= cs@);
}

/// Whether two character sequences are equal.
pub fn chars_equal(a: &Vec<char>, b: &Vec<char>) -> (r: bool)
    ensures
        r == (a@ == b@),
{
    if a.len() != b.len() {
        return false;
    }
    let mut i: usize = 0;
    while i < a.len()
        invariant
            a@.len() == b@.len(),
            i <= a@.len(),
            forall|k: int| 0 <= k < i ==> a@[k] == b@[k],
        decreases a@.len() - i,
    {
        if a[i] != b[i] {
            return false;
        }
        i = i + 1;
    }
    assert(a@ =~= b@);
    true
}

/// Whether a character sequence equals the characters of a string slice.
pub fn chars_equal_str(a: &Vec<char>, b: &str) -> (r: bool)
    ensures
        r == (a@ == b@),
{
    let bc = chars_of(b);
    chars_equal(a, &bc)
}

// ---------------------------------------------------------------------------
// Decimal numbers

/// The ASCII digit for a value below ten.
pub open spec fn digit_char(d: nat) -> char {
    ((48 + d) as u32) as char
}

/// The decimal representation of a natural number, as `Display` writes it
/// for the unsigned integer types.
pub open spec fn decimal_text(n: nat) -> Seq<char>
    decreases n,
{
    if n < 10 {
        seq![digit_char(n)]
    } else {
        decimal_text(n / 10).push(digit_char(n % 10))
    }
}

/// A decimal number padded with a leading zero to at least two digits.
pub open spec fn two_digit_text(n: nat) -> Seq<char> {
    if n < 10 {
        seq!['0'] + decimal_text(n)
    } else {
        decimal_text(n)
    }
}

fn digit(d: u64) -> (c: char)
    requires
        d < 10,
    ensures
        c == digit_char(d as nat),
{
    let b: u8 = 48u8 + (d as u8);
    b as char
}

/// Appends the decimal representation of `n`.
pub fn push_decimal(out: &mut Vec<char>, n: u64)
    ensures
        final(out)@ == old(out)@ + decimal_text(n as nat),
    decreases n,
{
    if n >= 10 {
        push_decimal(out, n / 10);
    }
    let c = digit(n % 10);
    out.push(c);
    proof {
        if n < 10 {
            assert(n % 10 == n);
            assert(old(out)@ + decimal_text(n as nat) =~= old(out)@.push(c));
        } else {
            assert((old(out)@ + decimal_text((n / 10) as nat)).push(c) =~= old(out)@
                + decimal_text(n as nat));
        }
    }
}

/// Appends `n` in decimal, padded with a leading zero to two digits.
pub fn push_two_digits(out: &mut Vec<char>, n: u64)
    ensures
        final(out)@ == old(out)@ + two_digit_text(n as nat),
{
    if n < 10 {
        out.push('0');
        push_decimal(out, n);
        assert(old(out)@.push('0') + decimal_text(n as nat) =~= old(out)@ + (seq!['0']
            + decimal_text(n as nat)));
    } else {
        push_decimal(out, n);
    }
}

} // verus!

verus! {

// ---------------------------------------------------------------------------
// ASCII case

/// The ASCII lowercase form of a character; other characters are unchanged.
pub open spec fn ascii_lower(c: char) -> char {
    if 'A' <= c <= 'Z' {
        ((c as u32) + 32) as char
    } else {
        c
    }
}

/// The ASCII lowercase form of every character of a sequence.
pub open spec fn ascii_lowercase(s: Seq<char>) -> Seq<char> {
    s.map_values(|c: char| ascii_lower(c))
}

/// ASCII case-insensitive equality, as `str::eq_ignore_ascii_case` decides it:
/// the two sequences agree once both are lowered in the ASCII range.
pub open spec fn equal_ignoring_ascii_case(a: Seq<char>, b: Seq<char>) -> bool {
    ascii_lowercase(a) == ascii_lowercase(b)
}

/// The ASCII lowercase form of a character.
pub fn lower_ascii_char(c: char) -> (r: char)
    ensures
        r == ascii_lower(c),
{
    if c >= 'A' && c <= 'Z' {
        let b: u8 = (c as u8) + 32u8;
        b as char
    } else {
        c
    }
}

/// Whether two character sequences are equal ignoring ASCII case.
pub fn chars_eq_ignore_ascii_case(a: &Vec<char>, b: &Vec<char>) -> (r: bool)
    ensures
        r == equal_ignoring_ascii_case(a@, b@),
{
    if a.len() != b.len() {
        assert(ascii_lowercase(a@).len() != ascii_lowercase(b@).len());
        return false;
    }
    let mut i: usize = 0;
    while i < a.len()
        invariant
            a@.len() == b@.len(),
            i <= a@.len(),
            forall|k: int| 0 <= k < i ==> ascii_lower(a@[k]) == ascii_lower(b@[k]),
        decreases a@.len() - i,
    {
        if lower_ascii_char(a[i]) != lower_ascii_char(b[i]) {
            assert(ascii_lowercase(a@)[i as int] != ascii_lowercase(b@)[i as int]);
            return false;
        }
        i = i + 1;
    }
    assert(ascii_lowercase(a@) =~= ascii_lowercase(b@));
    true
}

/// Whether a string slice equals a character sequence ignoring ASCII case.
pub fn str_eq_ignore_ascii_case(a: &str, b: &str) -> (r: bool)
    ensures
        r == equal_ignoring_ascii_case(a@, b@),
{
    let ac = chars_of(a);
    let bc = chars_of(b);
    chars_eq_ignore_ascii_case(&ac, &bc)
}

// ---------------------------------------------------------------------------
// Unicode case and UTF-8

/// The text that `str::to_lowercase` produces for the given characters.
pub uninterp spec fn unicode_lowercase(s: Seq<char>) -> Seq<char>;

/// Whether every character is ASCII.
pub open spec fn is_ascii_text(s: Seq<char>) -> bool {
    forall|i: int| 0 <= i < s.len() ==> (s[i] as u32) < 128
}

/// Lowercases a string slice.
///
/// Trusted: `str::to_lowercase`, whose result the library names
/// `unicode_lowercase`. Unicode lowercases the ASCII letters `A`-`Z` to
/// `a`-`z`, one for one, and leaves the other ASCII characters as they are,
/// so on ASCII text the result is the ASCII lowercase form.
#[verifier::external_body]
pub(crate) fn to_lowercase(s: &str) -> (r: String)
    ensures
        r@ == unicode_lowercase(s@),
        is_ascii_text(s@) ==> r@ == ascii_lowercase(s@),
{
    s.to_lowercase()
}

/// Decodes bytes as UTF-8.
///
/// Trusted: `std::str::from_utf8`, which succeeds exactly on valid UTF-8
/// and then yields the encoded characters; the contract states both over
/// vstd's UTF-8 definitions.
#[verifier::external_body]
pub(crate) fn decode_utf8(bytes: &[u8]) -> (r: Option<String>)
    ensures
        r is Some <==> vstd::utf8::valid_utf8(bytes@),
        r matches Some(t) ==> t@ == vstd::utf8::decode_utf8(bytes@),
{
    match std::str::from_utf8(bytes) {
        Ok(t) => Some(t.to_owned()),
        Err(_) => None,
    }
}

} // verus!

verus! {

// ---------------------------------------------------------------------------
// Whitespace and words

/// Characters with the Unicode `White_Space` property, which is what
/// `char::is_whitespace` tests.
pub open spec fn is_space(c: char) -> bool {
    let v = c as u32;
    ||| 0x09 <= v <= 0x0d
    ||| v == 0x20
    ||| v == 0x85
    ||| v == 0xa0
    ||| v == 0x1680
    ||| 0x2000 <= v <= 0x200a
    ||| v == 0x2028
    ||| v == 0x2029
    ||| v == 0x202f
    ||| v == 0x205f
    ||| v == 0x3000
}

/// Whether a character is whitespace.
pub fn is_space_char(c: char) -> (r: bool)
    ensures
        r == is_space(c),
{
    let v = c as u32;
    (0x09 <= v && v <= 0x0d) || v == 0x20 || v == 0x85 || v == 0xa0 || v == 0x1680 || (0x2000
        <= v && v <= 0x200a) || v == 0x2028 || v == 0x2029 || v == 0x202f || v == 0x205f || v
        == 0x3000
}

/// The first position at or after `i` that does not hold whitespace.
pub open spec fn skip_space(s: Seq<char>, i: int) -> int
    decreases s.len() - i,
{
    if 0 <= i < s.len() && is_space(s[i]) {
        skip_space(s, i + 1)
    } else {
        i
    }
}

/// The first position at or after `i` that holds whitespace or ends `s`.
pub open spec fn word_end(s: Seq<char>, i: int) -> int
    decreases s.len() - i,
{
    if 0 <= i < s.len() && !is_space(s[i]) {
        word_end(s, i + 1)
    } else {
        i
    }
}

pub proof fn lemma_skip_space(s: Seq<char>, i: int)
    requires
        0 <= i <= s.len(),
    ensures
        i <= skip_space(s, i) <= s.len(),
        skip_space(s, i) < s.len() ==> !is_space(s[skip_space(s, i)]),
        forall|k: int| i <= k < skip_space(s, i) ==> is_space(#[trigger] s[k]),
    decreases s.len() - i,
{
    if i < s.len() && is_space(s[i]) {
        lemma_skip_space(s, i + 1);
    }
}

pub proof fn lemma_word_end(s: Seq<char>, i: int)
    requires
        0 <= i <= s.len(),
    ensures
        i <= word_end(s, i) <= s.len(),
        word_end(s, i) < s.len() ==> is_space(s[word_end(s, i)]),
        forall|k: int| i <= k < word_end(s, i) ==> !is_space(#[trigger] s[k]),
    decreases s.len() - i,
{
    if i < s.len() && !is_space(s[i]) {
        lemma_word_end(s, i + 1);
    }
}

/// The whitespace-separated words of `s` from position `i` on, as
/// `str::split_whitespace` yields them: maximal runs of non-whitespace.
pub open spec fn words_from(s: Seq<char>, i: int) -> Seq<Seq<char>>
    decreases s.len() - i,
{
    if 0 <= i <= s.len() {
        let j = skip_space(s, i);
        proof {
            lemma_skip_space(s, i);
        }
        if j >= s.len() {
            seq![]
        } else {
            let k = word_end(s, j);
            proof {
                lemma_word_end(s, j);
            }
            seq![s.subrange(j, k)] + words_from(s, k)
        }
    } else {
        seq![]
    }
}

/// The whitespace-separated words of `s`.
pub open spec fn words(s: Seq<char>) -> Seq<Seq<char>> {
    words_from(s, 0)
}

/// Splits characters into their whitespace-separated words.
pub fn split_words(s: &Vec<char>) -> (r: Vec<Vec<char>>)
    ensures
        r@.len() == words(s@).len(),
        forall|k: int| 0 <= k < r@.len() ==> (#[trigger] r@[k])@ == words(s@)[k],
{
    let mut out: Vec<Vec<char>> = Vec::new();
    let mut i: usize = 0;
    let n = s.len();
    loop
        invariant
            n == s@.len(),
            i <= n,
            out@.len() + words_from(s@, i as int).len() == words(s@).len(),
            forall|k: int| 0 <= k < out@.len() ==> (#[trigger] out@[k])@ == words(s@)[k],
            forall|k: int|
                0 <= k < words_from(s@, i as int).len() ==> words(s@)[out@.len() + k]
                    == #[trigger] words_from(s@, i as int)[k],
        decreases n - i,
    {
        proof {
            lemma_skip_space(s@, i as int);
        }
        let mut j = i;
        while j < n && is_space_char(s[j])
            invariant
                n == s@.len(),
                i <= j <= n,
                skip_space(s@, i as int) == skip_space(s@, j as int),
            decreases n - j,
        {
            j = j + 1;
        }
        if j >= n {
            return out;
        }
        proof {
            lemma_word_end(s@, j as int);
        }
        let mut k = j;
        let mut word: Vec<char> = Vec::new();
        while k < n && !is_space_char(s[k])
            invariant
                n == s@.len(),
                j <= k <= n,
                word_end(s@, j as int) == word_end(s@, k as int),
                word@ == s@.subrange(j as int, k as int),
            decreases n - k,
        {
            word.push(s[k]);
            assert(s@.subrange(j as int, k + 1) =~= s@.subrange(j as int, k as int).push(
                s@[k as int],
            ));
            k = k + 1;
        }
        let ghost rest = words_from(s@, i as int);
        assert(rest == seq![s@.subrange(j as int, k as int)] + words_from(s@, k as int));
        assert(words(s@)[out@.len() as int] == rest[0]);
        out.push(word);
        assert forall|m: int| 0 <= m < words_from(s@, k as int).len() implies words(
            s@,
        )[out@.len() + m] == #[trigger] words_from(s@, k as int)[m] by {
            assert(rest[m + 1] == words_from(s@, k as int)[m]);
        }
        i = k;
    }
}

// ---------------------------------------------------------------------------
// Searching

/// The position of the first occurrence of `c` in `s`, if any.
pub open spec fn first_index_of(s: Seq<char>, c: char) -> Option<int> {
    if exists|i: int| 0 <= i < s.len() && s[i] == c {
        Some(choose|i: int| 0 <= i < s.len() && s[i] == c && forall|j: int| 0 <= j < i ==> s[j] != c)
    } else {
        None
    }
}

/// Finds the first occurrence of a character.
pub fn find_char(s: &Vec<char>, c: char) -> (r: Option<usize>)
    ensures
        match r {
            Some(i) => i < s@.len() && s@[i as int] == c && forall|j: int|
                0 <= j < i ==> s@[j] != c,
            None => forall|j: int| 0 <= j < s@.len() ==> s@[j] != c,
        },
        r matches Some(i) ==> first_index_of(s@, c) == Some(i as int),
        r is None ==> first_index_of(s@, c) is None,
{
    let mut i: usize = 0;
    while i < s.len()
        invariant
            i <= s@.len(),
            forall|j: int| 0 <= j < i ==> s@[j] != c,
        decreases s@.len() - i,
    {
        if s[i] == c {
            proof {
                let w = choose|w: int|
                    0 <= w < s@.len() && s@[w] == c && forall|j: int| 0 <= j < w ==> s@[j] != c;
                assert(0 <= i < s@.len() && s@[i as int] == c && forall|j: int|
                    0 <= j < i ==> s@[j] != c);
                if w < i {
                } else if w > i {
                    assert(s@[i as int] != c);
                }
            }
            return Some(i);
        }
        i = i + 1;
    }
    None
}

/// Whether `t` occurs in `s` as a contiguous run, as `str::contains` tests
/// for a string pattern.
pub open spec fn has_infix(s: Seq<char>, t: Seq<char>) -> bool {
    exists|i: int| 0 <= i && i + t.len() <= s.len() && #[trigger] s.subrange(i, i + t.len()) == t
}

/// Whether `s` ends with `t`.
pub open spec fn has_suffix(s: Seq<char>, t: Seq<char>) -> bool {
    t.len() <= s.len() && s.subrange(s.len() - t.len(), s.len() as int) == t
}

fn matches_at(s: &Vec<char>, t: &Vec<char>, at: usize) -> (r: bool)
    requires
        at + t@.len() <= s@.len(),
    ensures
        r == (s@.subrange(at as int, at + t@.len()) == t@),
{
    let mut k: usize = 0;
    while k < t.len()
        invariant
            at + t@.len() <= s@.len(),
            s@.len() == s.len(),
            k <= t@.len(),
            forall|m: int| 0 <= m < k ==> s@[at + m] == t@[m],
        decreases t@.len() - k,
    {
        if s[at + k] != t[k] {
            assert(s@.subrange(at as int, at + t@.len())[k as int] != t@[k as int]);
            return false;
        }
        k = k + 1;
    }
    assert(s@.subrange(at as int, at + t@.len()) =~= t@);
    true
}

/// Whether `t` occurs in `s`.
pub fn contains_chars(s: &Vec<char>, t: &Vec<char>) -> (r: bool)
    ensures
        r == has_infix(s@, t@),
{
    if t.len() > s.len() {
        return false;
    }
    let last = s.len() - t.len();
    let mut i: usize = 0;
    loop
        invariant
            last + t@.len() == s@.len(),
            i <= last,
            forall|m: int| 0 <= m < i ==> #[trigger] s@.subrange(m, m + t@.len()) != t@,
        decreases last - i,
    {
        if matches_at(s, t, i) {
            return true;
        }
        if i == last {
            return false;
        }
        i = i + 1;
    }
}

/// Whether `s` ends with `t`.
pub fn ends_with_chars(s: &Vec<char>, t: &Vec<char>) -> (r: bool)
    ensures
        r == has_suffix(s@, t@),
{
    if t.len() > s.len() {
        return false;
    }
    matches_at(s, t, s.len() - t.len())
}

/// The characters of `s` between two positions.
pub fn slice_chars(s: &Vec<char>, from: usize, to: usize) -> (r: Vec<char>)
    requires
        from <= to <= s@.len(),
    ensures
        r@ == s@.subrange(from as int, to as int),
{
    let mut out: Vec<char> = Vec::new();
    let mut i = from;
    while i < to
        invariant
            from <= i <= to <= s@.len(),
            out@ == s@.subrange(from as int, i as int),
        decreases to - i,
    {
        out.push(s[i]);
        assert(s@.subrange(from as int, i + 1) =~= s@.subrange(from as int, i as int).push(
            s@[i as int],
        ));
        i = i + 1;
    }
    out
}

} // verus!

verus! {

// ---------------------------------------------------------------------------
// Parsing unsigned numbers

/// Whether every character is an ASCII digit.
pub open spec fn all_digits(s: Seq<char>) -> bool {
    forall|i: int| 0 <= i < s.len() ==> '0' <= #[trigger] s[i] <= '9'
}

/// The value of a run of ASCII digits read in base ten.
pub open spec fn digits_value(s: Seq<char>) -> nat
    decreases s.len(),
{
    if s.len() == 0 {
        0
    } else {
        digits_value(s.drop_last()) * 10 + ((s.last() as u32) - 48) as nat
    }
}

/// What `str::parse::<u16>` yields: an optional `+` followed by at least one
/// ASCII digit, whose value fits in 16 bits; anything else is an error.
pub open spec fn parse_u16_text(s: Seq<char>) -> Option<u16> {
    let d = if s.len() > 0 && s[0] == '+' {
        s.drop_first()
    } else {
        s
    };
    if d.len() > 0 && all_digits(d) && digits_value(d) <= 65535 {
        Some(digits_value(d) as u16)
    } else {
        None
    }
}

proof fn lemma_digits_value_grows(s: Seq<char>, k: int)
    requires
        all_digits(s),
        0 <= k <= s.len(),
    ensures
        digits_value(s.subrange(0, k)) <= digits_value(s),
    decreases s.len() - k,
{
    if k < s.len() {
        lemma_digits_value_grows(s, k + 1);
        let p = s.subrange(0, k + 1);
        assert(p.drop_last() =~= s.subrange(0, k));
        assert('0' <= p.last() <= '9');
    } else {
        assert(s.subrange(0, k) =~= s);
    }
}

/// Parses a 16-bit unsigned number.
pub fn parse_u16(s: &Vec<char>) -> (r: Option<u16>)
    ensures
        r == parse_u16_text(s@),
{
    let start: usize = if s.len() > 0 && s[0] == '+' {
        1
    } else {
        0
    };
    let ghost d = if s@.len() > 0 && s@[0] == '+' {
        s@.drop_first()
    } else {
        s@
    };
    assert(d =~= s@.subrange(start as int, s@.len() as int));
    if start >= s.len() {
        return None;
    }
    let mut value: u32 = 0;
    let mut i = start;
    while i < s.len()
        invariant
            start <= i <= s@.len(),
            start < s@.len(),
            d == s@.subrange(start as int, s@.len() as int),
            d == (if s@.len() > 0 && s@[0] == '+' {
                s@.drop_first()
            } else {
                s@
            }),
            all_digits(s@.subrange(start as int, i as int)),
            value == digits_value(s@.subrange(start as int, i as int)),
            value <= 65535,
        decreases s@.len() - i,
    {
        let c = s[i];
        let ghost prefix = s@.subrange(start as int, i + 1);
        assert(prefix.drop_last() =~= s@.subrange(start as int, i as int));
        if c < '0' || c > '9' {
            assert(d[i - start] == c);
            return None;
        }
        let next: u32 = value * 10 + ((c as u32) - 48);
        assert(all_digits(prefix));
        if next > 65535 {
            proof {
                assert forall|m: int| 0 <= m < d.len() implies '0' <= #[trigger] d[m] <= '9'
                    || !all_digits(d) by {}
                if all_digits(d) {
                    assert(d.subrange(0, i + 1 - start) =~= prefix);
                    lemma_digits_value_grows(d, i + 1 - start);
                }
            }
            return None;
        }
        value = next;
        i = i + 1;
    }
    assert(s@.subrange(start as int, i as int) =~= d);
    Some(value as u16)
}

// ---------------------------------------------------------------------------
// Trimming

/// The position just past the last non-whitespace character before `j`.
pub open spec fn trim_end_at(s: Seq<char>, j: int) -> int
    decreases j,
{
    if 0 < j <= s.len() && is_space(s[j - 1]) {
        trim_end_at(s, j - 1)
    } else {
        j
    }
}

/// `s` without leading and trailing whitespace, as `str::trim` yields it.
pub open spec fn trimmed(s: Seq<char>) -> Seq<char> {
    let from = skip_space(s, 0);
    if from >= s.len() {
        Seq::empty()
    } else {
        s.subrange(from, trim_end_at(s, s.len() as int))
    }
}

proof fn lemma_trim_end_bound(s: Seq<char>, j: int)
    requires
        0 <= j <= s.len(),
    ensures
        trim_end_at(s, j) <= j,
    decreases j,
{
    if 0 < j && is_space(s[j - 1]) {
        lemma_trim_end_bound(s, j - 1);
    }
}

proof fn lemma_trim_end(s: Seq<char>, j: int, from: int)
    requires
        0 <= from < j <= s.len(),
        !is_space(s[from]),
    ensures
        from < trim_end_at(s, j) <= j,
    decreases j,
{
    if is_space(s[j - 1]) {
        lemma_trim_end(s, j - 1, from);
    }
}

/// Removes leading and trailing whitespace.
pub fn trim_chars(s: &Vec<char>) -> (r: Vec<char>)
    ensures
        r@ == trimmed(s@),
{
    proof {
        lemma_skip_space(s@, 0);
    }
    let mut from: usize = 0;
    while from < s.len() && is_space_char(s[from])
        invariant
            from <= s@.len(),
            skip_space(s@, 0) == skip_space(s@, from as int),
        decreases s@.len() - from,
    {
        from = from + 1;
    }
    if from >= s.len() {
        return Vec::new();
    }
    proof {
        lemma_trim_end(s@, s@.len() as int, from as int);
    }
    let mut to: usize = s.len();
    while to > from && is_space_char(s[to - 1])
        invariant
            from < s@.len(),
            !is_space(s@[from as int]),
            from <= to <= s@.len(),
            skip_space(s@, 0) == from as int,
            from < trim_end_at(s@, s@.len() as int),
            trim_end_at(s@, s@.len() as int) == trim_end_at(s@, to as int),
        decreases to,
    {
        to = to - 1;
    }
    proof {
        lemma_trim_end_bound(s@, to as int);
    }
    slice_chars(s, from, to)
}

} // verus!
