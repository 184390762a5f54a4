//! Text, as sequences of characters.
//!
//! The protocol this crate speaks is textual: requests are lines, replies are groups of lines, and
//! most fields are a fixed prefix followed by a value. This module states, and carries out, the few
//! operations on text that the rest of the crate is written in terms of.

use vstd::prelude::*;

verus! {

// ---------------------------------------------------------------------------------------------
// Outside functions
// ---------------------------------------------------------------------------------------------

/// [`String::push`]: appends the character to the end of the string.
pub assume_specification[ String::push ](s: &mut String, c: char)
    ensures
        final(s)@ == old(s)@.push(c),
;

/// Whether `c` has the Unicode `White_Space` property.
pub open spec fn is_whitespace(c: char) -> bool {
    ||| '\u{9}' <= c <= '\u{d}'
    ||| c == ' '
    ||| c == '\u{85}'
    ||| c == '\u{a0}'
    ||| c == '\u{1680}'
    ||| '\u{2000}' <= c <= '\u{200a}'
    ||| c == '\u{2028}'
    ||| c == '\u{2029}'
    ||| c == '\u{202f}'
    ||| c == '\u{205f}'
    ||| c == '\u{3000}'
}

/// [`char::is_whitespace`]: whether the character has the `White_Space` property.
pub assume_specification[ char::is_whitespace ](c: char) -> (r: bool)
    ensures
        r == is_whitespace(c),
;

/// Whether `c` is an ASCII letter or digit.
pub open spec fn is_ascii_alphanumeric(c: char) -> bool {
    'a' <= c <= 'z' || 'A' <= c <= 'Z' || '0' <= c <= '9'
}

/// Whether a character beyond ASCII has the Unicode `Alphabetic` property or is in one of the numeric
/// categories.
pub uninterp spec fn is_wide_alphanumeric(c: char) -> bool;

/// Whether `c` is alphabetic or numeric.
pub open spec fn is_alphanumeric(c: char) -> bool {
    if c >= '\u{80}' {
        is_wide_alphanumeric(c)
    } else {
        is_ascii_alphanumeric(c)
    }
}

/// [`char::is_alphanumeric`]: whether the character is alphabetic or numeric, a fixed function of
/// the character. In ASCII, the letters & digits are.
pub assume_specification[ char::is_alphanumeric ](c: char) -> (r: bool)
    ensures
        c <= '\u{7f}' ==> r == is_ascii_alphanumeric(c),
        c >= '\u{80}' ==> r == is_wide_alphanumeric(c),
;

/// Whether a text is ASCII.
pub open spec fn is_ascii(s: Seq<char>) -> bool {
    forall|i: int| 0 <= i < s.len() ==> #[trigger] s[i] <= '\u{7f}'
}

/// The lower case equivalent of an ASCII character.
pub open spec fn ascii_lower(c: char) -> char {
    if 'A' <= c <= 'Z' {
        (c as u32 + 0x20) as char
    } else {
        c
    }
}

/// The lower case equivalent of a text that is not ASCII.
pub uninterp spec fn wide_lowercase(s: Seq<char>) -> Seq<char>;

/// The lower case equivalent of a text.
pub open spec fn lowercase(s: Seq<char>) -> Seq<char> {
    if is_ascii(s) {
        s.map_values(|c: char| ascii_lower(c))
    } else {
        wide_lowercase(s)
    }
}

/// [`str::to_lowercase`]: the lower case equivalent of the text, a fixed function of the text. That
/// of an ASCII text has a lower case letter for each upper case one.
pub assume_specification[ str::to_lowercase ](s: &str) -> (r: String)
    ensures
        is_ascii(s@) ==> r@ == s@.map_values(|c: char| ascii_lower(c)),
        !is_ascii(s@) ==> r@ == wide_lowercase(s@),
;

/// The account that is given of bytes that are not valid UTF-8.
pub uninterp spec fn utf8_fault(bytes: Seq<u8>) -> Seq<char>;

/// [`String::from_utf8`]: the text that the bytes encode, where they are valid UTF-8, and otherwise
/// an account of the fault, which is a fixed function of the bytes.
#[verifier::external_body]
pub(crate) fn decode(bytes: Vec<u8>) -> (r: Result<String, String>)
    ensures
        r is Ok == vstd::utf8::valid_utf8(bytes@),
        r is Ok ==> r->Ok_0@ == vstd::utf8::decode_utf8(bytes@),
        r is Err ==> r->Err_0@ == utf8_fault(bytes@),
{
    String::from_utf8(bytes).map_err(|err| err.to_string())
}

/// The text that bytes encode, or the account of why they encode none.
pub open spec fn decoded(bytes: Seq<u8>) -> Result<Seq<char>, Seq<char>> {
    if vstd::utf8::valid_utf8(bytes) {
        Ok(vstd::utf8::decode_utf8(bytes))
    } else {
        Err(utf8_fault(bytes))
    }
}

// ---------------------------------------------------------------------------------------------
// Outcomes
// ---------------------------------------------------------------------------------------------

/// What a result holds, as mathematical values.
pub open spec fn outcome<T: DeepView, E: DeepView>(r: Result<T, E>) -> Result<T::V, E::V> {
    match r {
        Ok(t) => Ok(t.deep_view()),
        Err(e) => Err(e.deep_view()),
    }
}

/// Whether a result is the error.
pub open spec fn outcome_err<T, E: DeepView>(r: Result<T, E>, e: E::V) -> bool {
    r is Err && r->Err_0.deep_view() == e
}

// ---------------------------------------------------------------------------------------------
// Strings and characters
// ---------------------------------------------------------------------------------------------

/// The texts in `v`.
pub open spec fn texts(v: Seq<String>) -> Seq<Seq<char>> {
    v.map_values(|s: String| s@)
}

/// How text is written with escapes, between double quotes.
pub uninterp spec fn debug_text(s: Seq<char>) -> Seq<char>;

/// `Debug` of `str`: the text between double quotes, with characters that are not to be shown as they
/// are escaped; a fixed function of the text.
#[verifier::external_body]
pub(crate) fn debug_str(s: &str) -> (r: String)
    ensures
        r@ == debug_text(s@),
{
    format!("{:?}", s)
}

/// The characters of `s`.
pub fn chars_of(s: &str) -> (v: Vec<char>)
    ensures
        v@ == s@,
{
    let mut v: Vec<char> = Vec::new();
    for c in it: s.chars()
        invariant
            v@ == it.seq().take(it.index() as int),
            it.seq() == s@,
    {
        v.push(c);
    }
    v
}

/// The text of the characters from `from` up to, and not including, `to`.
pub fn slice_of(v: &[char], from: usize, to: usize) -> (s: String)
    requires
        from <= to <= v@.len(),
    ensures
        s@ == v@.subrange(from as int, to as int),
{
    let mut s = String::new();
    let mut i: usize = from;
    while i < to
        invariant
            from <= i <= to <= v@.len(),
            s@ == v@.subrange(from as int, i as int),
        decreases to - i,
    {
        s.push(v[i]);
        i = i + 1;
    }
    s
}

/// The text of the characters.
pub fn string_of(v: &[char]) -> (s: String)
    ensures
        s@ == v@,
{
    let s = slice_of(v, 0, v.len());
    assert(v@.subrange(0, v@.len() as int) == v@);
    s
}

/// A copy of `s`.
pub fn owned(s: &str) -> (r: String)
    ensures
        r@ == s@,
{
    s.to_owned()
}

/// `a` followed by `b`.
pub fn join2(a: &str, b: &str) -> (r: String)
    ensures
        r@ == a@ + b@,
{
    let mut r = a.to_owned();
    r.append(b);
    r
}

/// `a` followed by `b` and `c`.
pub fn join3(a: &str, b: &str, c: &str) -> (r: String)
    ensures
        r@ == a@ + b@ + c@,
{
    let mut r = a.to_owned();
    r.append(b);
    r.append(c);
    r
}

/// Whether the two texts are the same.
pub fn same(a: &str, b: &str) -> (r: bool)
    ensures
        r == (a@ == b@),
{
    let x = chars_of(a);
    let y = chars_of(b);
    if x.len() != y.len() {
        return false;
    }
    let mut i: usize = 0;
    while i < x.len()
        invariant
            x@.len() == y@.len(),
            i <= x@.len(),
            x@ == a@,
            y@ == b@,
            forall|j: int| 0 <= j < i ==> x@[j] == y@[j],
        decreases x@.len() - i,
    {
        if x[i] != y[i] {
            assert(a@[i as int] != b@[i as int]);
            return false;
        }
        i = i + 1;
    }
    assert(a@ =~= b@);
    true
}

/// Copies of the texts.
pub fn copies(v: &Vec<String>) -> (r: Vec<String>)
    ensures
        texts(r@) == texts(v@),
        r@.len() == v@.len(),
{
    let mut r: Vec<String> = Vec::new();
    let mut i: usize = 0;
    while i < v.len()
        invariant
            i <= v@.len(),
            r@.len() == i,
            forall|j: int| 0 <= j < i ==> r@[j]@ == v@[j]@,
        decreases v@.len() - i,
    {
        r.push(v[i].clone());
        i = i + 1;
    }
    assert(texts(r@) =~= texts(v@));
    r
}

// ---------------------------------------------------------------------------------------------
// Prefixes
// ---------------------------------------------------------------------------------------------

/// What follows `prefix` in `s`, if `s` starts with it.
pub open spec fn after(s: Seq<char>, prefix: Seq<char>) -> Option<Seq<char>> {
    if prefix.is_prefix_of(s) {
        Some(s.skip(prefix.len() as int))
    } else {
        None
    }
}

/// Whether `v` starts with `prefix`.
fn begins_with(v: &[char], prefix: &[char]) -> (r: bool)
    ensures
        r == prefix@.is_prefix_of(v@),
{
    if prefix.len() > v.len() {
        return false;
    }
    let mut i: usize = 0;
    while i < prefix.len()
        invariant
            i <= prefix@.len() <= v@.len(),
            forall|j: int| 0 <= j < i ==> prefix@[j] == v@[j],
        decreases prefix@.len() - i,
    {
        if prefix[i] != v[i] {
            assert(v@.subrange(0, prefix@.len() as int)[i as int] != prefix@[i as int]);
            return false;
        }
        i = i + 1;
    }
    assert(prefix@ =~= v@.subrange(0, prefix@.len() as int));
    true
}

/// Whether `s` starts with `prefix`.
pub fn starts_with(s: &str, prefix: &str) -> (r: bool)
    ensures
        r == prefix@.is_prefix_of(s@),
{
    let v = chars_of(s);
    let p = chars_of(prefix);
    begins_with(&v, &p)
}

/// What follows `prefix` in `s`, if `s` starts with it.
pub fn strip_prefix(s: &str, prefix: &str) -> (r: Option<String>)
    ensures
        r.deep_view() == after(s@, prefix@),
{
    let v = chars_of(s);
    let p = chars_of(prefix);
    if begins_with(&v, &p) {
        assert(s@.skip(p@.len() as int) =~= v@.subrange(p@.len() as int, v@.len() as int));
        Some(slice_of(&v, p.len(), v.len()))
    } else {
        None
    }
}

/// The number of bytes in the UTF-8 encoding of a text.
pub open spec fn byte_count(s: Seq<char>) -> nat {
    vstd::utf8::encode_utf8(s).len()
}

/// A text without its first `n` bytes in UTF-8, if a character ends there.
pub open spec fn after_bytes(s: Seq<char>, n: int) -> Option<Seq<char>> {
    let bytes = vstd::utf8::encode_utf8(s);
    if vstd::utf8::is_char_boundary(bytes, n) {
        Some(vstd::utf8::decode_utf8(bytes.subrange(n, bytes.len() as int)))
    } else {
        None
    }
}

/// No character ends beyond the end of a text.
pub proof fn lemma_after_bytes_short(s: Seq<char>, n: int)
    requires
        n > byte_count(s),
    ensures
        after_bytes(s, n) is None,
{
    vstd::utf8::encode_utf8_valid_utf8(s);
}

/// The number of bytes in the UTF-8 encoding of `s`.
pub fn byte_len(s: &str) -> (r: usize)
    ensures
        r == byte_count(s@),
{
    s.as_bytes().len()
}

/// `s` without its first `n` bytes in UTF-8, if a character ends there.
pub fn skip_bytes(s: &str, n: usize) -> (r: Option<String>)
    ensures
        r.deep_view() == after_bytes(s@, n as int),
{
    if s.is_char_boundary(n) {
        let (_, rest) = s.split_at(n);
        proof {
            vstd::utf8::encode_utf8_decode_utf8(rest@);
        }
        Some(rest.to_owned())
    } else {
        None
    }
}

// ---------------------------------------------------------------------------------------------
// Lines
// ---------------------------------------------------------------------------------------------

/// The first index from `i` on at which `s` holds `c`; the length of `s` if there is none.
pub open spec fn find_from(s: Seq<char>, c: char, i: int) -> int
    decreases s.len() - i,
{
    if i >= s.len() {
        s.len() as int
    } else if s[i] == c {
        i
    } else {
        find_from(s, c, i + 1)
    }
}

/// `find_from` answers an index between where it starts and the length.
pub proof fn lemma_find_from(s: Seq<char>, c: char, i: int)
    requires
        0 <= i <= s.len(),
    ensures
        i <= find_from(s, c, i) <= s.len(),
        find_from(s, c, i) < s.len() ==> s[find_from(s, c, i)] == c,
        forall|j: int| i <= j < find_from(s, c, i) ==> s[j] != c,
    decreases s.len() - i,
{
    if i < s.len() && s[i] != c {
        lemma_find_from(s, c, i + 1);
    }
}

/// The first index from `from` on at which `v` holds `c`, or its length.
pub fn find_char(v: &[char], c: char, from: usize) -> (r: usize)
    requires
        from <= v@.len(),
    ensures
        r == find_from(v@, c, from as int),
        from <= r <= v@.len(),
        r < v@.len() ==> v@[r as int] == c,
{
    let mut i: usize = from;
    while i < v.len()
        invariant
            from <= i <= v@.len(),
            find_from(v@, c, from as int) == find_from(v@, c, i as int),
        decreases v@.len() - i,
    {
        if v[i] == c {
            return i;
        }
        i = i + 1;
    }
    i
}

/// A line without its terminator's carriage return.
pub open spec fn chomp(line: Seq<char>) -> Seq<char> {
    if line.len() > 0 && line.last() == '\r' {
        line.drop_last()
    } else {
        line
    }
}

/// The lines of `s` from index `i` on. A line ends at a line feed, which may have a carriage return
/// before it and belongs to no line; the last line need not be terminated.
pub open spec fn lines_from(s: Seq<char>, i: int) -> Seq<Seq<char>>
    decreases s.len() - i,
{
    if i < 0 || i >= s.len() {
        Seq::empty()
    } else {
        let j = find_from(s, '\n', i);
        if i <= j < s.len() {
            seq![chomp(s.subrange(i, j))] + lines_from(s, j + 1)
        } else {
            seq![s.subrange(i, s.len() as int)]
        }
    }
}

/// The lines of `s`.
pub open spec fn lines_of(s: Seq<char>) -> Seq<Seq<char>> {
    lines_from(s, 0)
}

/// The lines of `s`.
pub fn lines(s: &str) -> (r: Vec<String>)
    ensures
        texts(r@) == lines_of(s@),
{
    let v = chars_of(s);
    let mut r: Vec<String> = Vec::new();
    let mut i: usize = 0;
    while i < v.len()
        invariant
            v@ == s@,
            i <= v@.len(),
            texts(r@) + lines_from(v@, i as int) == lines_of(s@),
        decreases v@.len() - i,
    {
        let ghost before = texts(r@);
        let j: usize = find_char(&v, '\n', i);
        if j < v.len() {
            let k: usize = if i < j && v[j - 1] == '\r' {
                j - 1
            } else {
                j
            };
            assert(chomp(v@.subrange(i as int, j as int)) =~= v@.subrange(i as int, k as int));
            r.push(slice_of(&v, i, k));
            assert(texts(r@) =~= before.push(v@.subrange(i as int, k as int)));
            i = j + 1;
        } else {
            r.push(slice_of(&v, i, j));
            assert(texts(r@) =~= before.push(v@.subrange(i as int, j as int)));
            i = j;
        }
        assert(texts(r@) + lines_from(v@, i as int) =~= lines_of(s@));
    }
    assert(texts(r@) =~= lines_of(s@));
    r
}

/// The text of `s` up to its first line feed.
pub open spec fn first_row(s: Seq<char>) -> Seq<char> {
    s.take(find_from(s, '\n', 0))
}

/// The text of `s` up to its first line feed.
pub fn up_to_newline(s: &str) -> (r: String)
    ensures
        r@ == first_row(s@),
{
    let v = chars_of(s);
    let j: usize = find_char(&v, '\n', 0);
    assert(v@.subrange(0, j as int) =~= v@.take(j as int));
    slice_of(&v, 0, j)
}

// ---------------------------------------------------------------------------------------------
// Whitespace
// ---------------------------------------------------------------------------------------------

/// The first index from `i` on at which `s` holds whitespace; the length of `s` if there is none.
pub open spec fn space_from(s: Seq<char>, i: int) -> int
    decreases s.len() - i,
{
    if i >= s.len() {
        s.len() as int
    } else if is_whitespace(s[i]) {
        i
    } else {
        space_from(s, i + 1)
    }
}

/// The first index from `i` on at which `s` holds anything but whitespace; the length of `s` if
/// there is none.
pub open spec fn word_from(s: Seq<char>, i: int) -> int
    decreases s.len() - i,
{
    if i >= s.len() {
        s.len() as int
    } else if !is_whitespace(s[i]) {
        i
    } else {
        word_from(s, i + 1)
    }
}

/// One past the last index below `j` at which `s` holds anything but whitespace; zero if there is
/// none.
pub open spec fn word_end(s: Seq<char>, j: int) -> int
    decreases j,
{
    if j <= 0 {
        0
    } else if !is_whitespace(s[j - 1]) {
        j
    } else {
        word_end(s, j - 1)
    }
}

/// `s` without the whitespace at its two ends.
pub open spec fn trimmed(s: Seq<char>) -> Seq<char> {
    let i = word_from(s, 0);
    let j = word_end(s, s.len() as int);
    if i < j {
        s.subrange(i, j)
    } else {
        Seq::empty()
    }
}

/// The first index from `from` on at which `v` holds anything but whitespace, or its length.
pub fn skip_whitespace(v: &[char], from: usize) -> (r: usize)
    requires
        from <= v@.len(),
    ensures
        r == word_from(v@, from as int),
        from <= r <= v@.len(),
        r < v@.len() ==> !is_whitespace(v@[r as int]),
{
    let mut i: usize = from;
    while i < v.len()
        invariant
            from <= i <= v@.len(),
            word_from(v@, from as int) == word_from(v@, i as int),
        decreases v@.len() - i,
    {
        if !v[i].is_whitespace() {
            return i;
        }
        i = i + 1;
    }
    i
}

/// The first index from `from` on at which `v` holds whitespace, or its length.
pub fn find_whitespace(v: &[char], from: usize) -> (r: usize)
    requires
        from <= v@.len(),
    ensures
        r == space_from(v@, from as int),
        from <= r <= v@.len(),
        r < v@.len() ==> is_whitespace(v@[r as int]),
{
    let mut i: usize = from;
    while i < v.len()
        invariant
            from <= i <= v@.len(),
            space_from(v@, from as int) == space_from(v@, i as int),
        decreases v@.len() - i,
    {
        if v[i].is_whitespace() {
            return i;
        }
        i = i + 1;
    }
    i
}

/// `s` without the whitespace at its two ends.
pub fn trim(s: &str) -> (r: String)
    ensures
        r@ == trimmed(s@),
{
    let v = chars_of(s);
    let i: usize = skip_whitespace(&v, 0);
    let mut j: usize = v.len();
    while j > 0 && v[j - 1].is_whitespace()
        invariant
            j <= v@.len(),
            word_end(v@, v@.len() as int) == word_end(v@, j as int),
        decreases j,
    {
        j = j - 1;
    }
    if i < j {
        slice_of(&v, i, j)
    } else {
        String::new()
    }
}

/// A text split at its first whitespace character, which belongs to neither part; the second part is
/// empty where there is none.
pub open spec fn split_word(s: Seq<char>) -> (Seq<char>, Seq<char>) {
    let i = space_from(s, 0);
    if i < s.len() {
        (s.take(i), s.skip(i + 1))
    } else {
        (s, Seq::empty())
    }
}

/// `s` split at its first whitespace character.
pub fn split_at_whitespace(s: &str) -> (r: (String, String))
    ensures
        (r.0@, r.1@) == split_word(s@),
{
    let v = chars_of(s);
    let i: usize = find_whitespace(&v, 0);
    if i < v.len() {
        assert(v@.subrange(0, i as int) =~= v@.take(i as int));
        assert(v@.subrange(i + 1, v@.len() as int) =~= v@.skip(i + 1));
        (slice_of(&v, 0, i), slice_of(&v, i + 1, v.len()))
    } else {
        (string_of(&v), String::new())
    }
}

/// The parts that `s` from index `i` on is split into by whitespace. Each whitespace character ends a
/// part, which may be empty.
pub open spec fn parts_from(s: Seq<char>, i: int) -> Seq<Seq<char>>
    decreases s.len() - i,
{
    let j = space_from(s, i);
    if 0 <= i <= j < s.len() {
        seq![s.subrange(i, j)] + parts_from(s, j + 1)
    } else {
        seq![s.skip(i)]
    }
}

/// The parts that `s` is split into by whitespace.
pub open spec fn parts_of(s: Seq<char>) -> Seq<Seq<char>> {
    parts_from(s, 0)
}

/// The parts that `s` is split into by whitespace.
pub fn split(s: &str) -> (r: Vec<String>)
    ensures
        texts(r@) == parts_of(s@),
        r@.len() > 0,
{
    let v = chars_of(s);
    let mut r: Vec<String> = Vec::new();
    let mut i: usize = 0;
    let mut j: usize = find_whitespace(&v, 0);
    while j < v.len()
        invariant
            v@ == s@,
            i <= j <= v@.len(),
            j == space_from(v@, i as int),
            texts(r@) + parts_from(v@, i as int) == parts_of(s@),
        decreases v@.len() - j,
    {
        let ghost before = texts(r@);
        r.push(slice_of(&v, i, j));
        assert(texts(r@) =~= before.push(v@.subrange(i as int, j as int)));
        i = j + 1;
        assert(texts(r@) + parts_from(v@, i as int) =~= parts_of(s@));
        j = find_whitespace(&v, i);
    }
    let ghost before = texts(r@);
    r.push(slice_of(&v, i, v.len()));
    assert(v@.subrange(i as int, v@.len() as int) =~= v@.skip(i as int));
    assert(texts(r@) =~= before.push(v@.skip(i as int)));
    assert(texts(r@) =~= parts_of(s@));
    r
}

} // verus!
