//! Fields of a reply.
//!
//! The replies that describe the player & its tracks are lines of the form `name: value`, any of
//! which may be missing & which come in no particular order. A field is looked up with a regular
//! expression that matches one whole line.

use vstd::prelude::*;

use crate::text;

verus! {

/// What the value of a field may be.
#[derive(Clone, Copy, PartialEq, Eq, Structural)]
pub enum Shape {
    /// One of the states that the player can be in
    State,
    /// One or more decimal digits
    Digits,
    /// One or more decimal digits & points
    Decimal,
    /// Anything
    Any,
}

/// The regular expression for a shape.
pub open spec fn shape_pattern(shape: Shape) -> Seq<char> {
    match shape {
        Shape::State => "play|pause|stop"@,
        Shape::Digits => "[0-9]+"@,
        Shape::Decimal => "[.0-9]+"@,
        Shape::Any => ".*"@,
    }
}

/// Whether a value, which is part of one line, has a shape.
pub open spec fn has_shape(shape: Shape, value: Seq<char>) -> bool {
    match shape {
        Shape::State => value == "play"@ || value == "pause"@ || value == "stop"@,
        Shape::Digits => value.len() > 0 && forall|i: int|
            0 <= i < value.len() ==> '0' <= #[trigger] value[i] <= '9',
        Shape::Decimal => value.len() > 0 && forall|i: int|
            0 <= i < value.len() ==> (#[trigger] value[i] == '.' || '0' <= value[i] <= '9'),
        Shape::Any => true,
    }
}

/// Whether a name is made of a few lower case letters, each of which stands for itself in a regular
/// expression.
pub open spec fn plain(name: Seq<char>) -> bool {
    &&& name.len() <= 32
    &&& forall|i: int| 0 <= i < name.len() ==> 'a' <= #[trigger] name[i] <= 'z'
}

/// The regular expression for the line of a field.
pub open spec fn field_pattern(name: Seq<char>, shape: Shape) -> Seq<char> {
    "(?m)^"@ + name + ": ("@ + shape_pattern(shape) + ")$"@
}

/// The value of a field: that of the first line from index `i` on that is the field's name, a colon,
/// a space & a value of the shape. Lines are separated by line feeds.
pub open spec fn field_from(s: Seq<char>, name: Seq<char>, shape: Shape, i: int) -> Option<
    Seq<char>,
>
    decreases s.len() - i,
{
    if i < 0 || i > s.len() {
        None
    } else {
        let j = text::find_from(s, '\n', i);
        match text::after(s.subrange(i, j), name + ": "@) {
            Some(value) if has_shape(shape, value) => Some(value),
            _ => if i <= j < s.len() {
                field_from(s, name, shape, j + 1)
            } else {
                None
            },
        }
    }
}

/// The value of a field in a reply.
pub open spec fn field(s: Seq<char>, name: Seq<char>, shape: Shape) -> Option<Seq<char>> {
    field_from(s, name, shape, 0)
}

/// `regex::Regex::captures`: what the expression's first group matches at the leftmost match in the
/// text, and nothing where there is no match. In multi-line mode `^` & `$` match at the start & the
/// end of each line, lines being separated by line feeds alone, and `.` matches anything but a line
/// feed; hence the leftmost match of a field's expression is the first line of the field's form, and
/// the group is the value on it. An expression whose name is no longer than a few letters is far from the
/// size at which there would be none.
#[verifier::external_body]
fn capture(pattern: &str, text: &str) -> (r: Option<String>)
    requires
        exists|name: Seq<char>, shape: Shape|
            plain(name) && pattern@ == #[trigger] field_pattern(name, shape),
    ensures
        forall|name: Seq<char>, shape: Shape|
            plain(name) && pattern@ == #[trigger] field_pattern(name, shape) ==> r.deep_view()
                == field(text@, name, shape),
{
    let expression = regex::Regex::new(pattern).unwrap();
    let captures = expression.captures(text)?;
    Some(captures.get(1)?.as_str().to_string())
}

/// The state of the player.
pub fn state(reply: &str) -> (r: Option<String>)
    ensures
        r.deep_view() == field(reply@, "state"@, Shape::State),
{
    proof {
        reveal_strlit("(?m)^state: (play|pause|stop)$");
        reveal_strlit("(?m)^");
        reveal_strlit("state");
        reveal_strlit(": (");
        reveal_strlit("play|pause|stop");
        reveal_strlit(")$");
        assert("(?m)^state: (play|pause|stop)$"@ =~= field_pattern("state"@, Shape::State));
    }
    capture("(?m)^state: (play|pause|stop)$", reply)
}

/// The identifier of the current song in the play queue.
pub fn songid(reply: &str) -> (r: Option<String>)
    ensures
        r.deep_view() == field(reply@, "songid"@, Shape::Digits),
{
    proof {
        reveal_strlit("(?m)^songid: ([0-9]+)$");
        reveal_strlit("(?m)^");
        reveal_strlit("songid");
        reveal_strlit(": (");
        reveal_strlit("[0-9]+");
        reveal_strlit(")$");
        assert("(?m)^songid: ([0-9]+)$"@ =~= field_pattern("songid"@, Shape::Digits));
    }
    capture("(?m)^songid: ([0-9]+)$", reply)
}

/// The time, in seconds, for which the current song has been playing.
pub fn elapsed(reply: &str) -> (r: Option<String>)
    ensures
        r.deep_view() == field(reply@, "elapsed"@, Shape::Decimal),
{
    proof {
        reveal_strlit("(?m)^elapsed: ([.0-9]+)$");
        reveal_strlit("(?m)^");
        reveal_strlit("elapsed");
        reveal_strlit(": (");
        reveal_strlit("[.0-9]+");
        reveal_strlit(")$");
        assert("(?m)^elapsed: ([.0-9]+)$"@ =~= field_pattern("elapsed"@, Shape::Decimal));
    }
    capture("(?m)^elapsed: ([.0-9]+)$", reply)
}

/// The path of a track.
pub fn file(reply: &str) -> (r: Option<String>)
    ensures
        r.deep_view() == field(reply@, "file"@, Shape::Any),
{
    proof {
        reveal_strlit("(?m)^file: (.*)$");
        reveal_strlit("(?m)^");
        reveal_strlit("file");
        reveal_strlit(": (");
        reveal_strlit(".*");
        reveal_strlit(")$");
        assert("(?m)^file: (.*)$"@ =~= field_pattern("file"@, Shape::Any));
    }
    capture("(?m)^file: (.*)$", reply)
}

/// The duration of a track, in seconds.
pub fn duration(reply: &str) -> (r: Option<String>)
    ensures
        r.deep_view() == field(reply@, "duration"@, Shape::Any),
{
    proof {
        reveal_strlit("(?m)^duration: (.*)$");
        reveal_strlit("(?m)^");
        reveal_strlit("duration");
        reveal_strlit(": (");
        reveal_strlit(".*");
        reveal_strlit(")$");
        assert("(?m)^duration: (.*)$"@ =~= field_pattern("duration"@, Shape::Any));
    }
    capture("(?m)^duration: (.*)$", reply)
}

// ---------------------------------------------------------------------------------------------
// Rows
// ---------------------------------------------------------------------------------------------

/// The rows of a reply from index `i` on: what line feeds separate.
pub open spec fn rows_from(s: Seq<char>, i: int) -> Seq<Seq<char>>
    decreases s.len() - i,
{
    if i < 0 || i > s.len() {
        Seq::empty()
    } else {
        let j = text::find_from(s, '\n', i);
        if i <= j < s.len() {
            seq![s.subrange(i, j)] + rows_from(s, j + 1)
        } else {
            seq![s.subrange(i, j)]
        }
    }
}

/// The rows of a reply.
pub open spec fn rows(s: Seq<char>) -> Seq<Seq<char>> {
    rows_from(s, 0)
}

/// Whether a row is that of a field.
pub open spec fn is_field(row: Seq<char>, name: Seq<char>) -> bool {
    (name + ": "@).is_prefix_of(row)
}

/// Whether a row gives a field a value.
pub open spec fn gives(row: Seq<char>, name: Seq<char>, shape: Shape, value: Seq<char>) -> bool {
    row == name + ": "@ + value && has_shape(shape, value)
}

/// Whether a reply has a field once, at most.
pub open spec fn at_most_once(s: Seq<char>, name: Seq<char>) -> bool {
    forall|i: int, j: int|
        0 <= i < rows(s).len() && 0 <= j < rows(s).len() && #[trigger] is_field(rows(s)[i], name)
            && #[trigger] is_field(rows(s)[j], name) ==> i == j
}

/// Whether two replies have the same rows, in whatever order.
pub open spec fn same_rows(a: Seq<char>, b: Seq<char>) -> bool {
    rows(a).to_multiset() == rows(b).to_multiset()
}

/// What is before the rest of a text, & the rest.
proof fn lemma_after(row: Seq<char>, prefix: Seq<char>)
    ensures
        text::after(row, prefix) matches Some(value) ==> row == prefix + value,
        forall|value: Seq<char>|
            row == #[trigger] (prefix + value) ==> text::after(row, prefix) == Some(value),
{
    if prefix.is_prefix_of(row) {
        assert(row =~= prefix + row.skip(prefix.len() as int));
    }
    assert forall|value: Seq<char>| row == #[trigger] (prefix + value) implies text::after(
        row,
        prefix,
    ) == Some(value) by {
        assert(row.subrange(0, prefix.len() as int) =~= prefix);
        assert(row.skip(prefix.len() as int) =~= value);
    }
}

/// A field is found wherever the row that gives it stands, & only if there is one.
proof fn lemma_field_from(s: Seq<char>, name: Seq<char>, shape: Shape, i: int)
    requires
        0 <= i <= s.len(),
    ensures
        match field_from(s, name, shape, i) {
            Some(value) => exists|k: int|
                0 <= k < rows_from(s, i).len() && gives(
                    #[trigger] rows_from(s, i)[k],
                    name,
                    shape,
                    value,
                ),
            None => forall|k: int, value: Seq<char>|
                0 <= k < rows_from(s, i).len() ==> !#[trigger] gives(
                    rows_from(s, i)[k],
                    name,
                    shape,
                    value,
                ),
        },
    decreases s.len() - i,
{
    let all = rows_from(s, i);
    let j = text::find_from(s, '\n', i);
    text::lemma_find_from(s, '\n', i);
    let row = s.subrange(i, j);
    lemma_after(row, name + ": "@);
    assert(all[0] == row);
    match text::after(row, name + ": "@) {
        Some(value) if has_shape(shape, value) => {
            assert(gives(all[0], name, shape, value));
        },
        _ => {
            if j < s.len() {
                let rest = rows_from(s, j + 1);
                assert(all == seq![row] + rest);
                lemma_field_from(s, name, shape, j + 1);
                match field_from(s, name, shape, j + 1) {
                    Some(value) => {
                        let k = choose|k: int|
                            0 <= k < rest.len() && gives(#[trigger] rest[k], name, shape, value);
                        assert(all[k + 1] == rest[k]);
                    },
                    None => {
                        assert forall|k: int, value: Seq<char>|
                            0 <= k < all.len() implies !#[trigger] gives(
                            all[k],
                            name,
                            shape,
                            value,
                        ) by {
                            if k > 0 {
                                assert(all[k] == rest[k - 1]);
                                assert(!gives(rest[k - 1], name, shape, value));
                            }
                        }
                    },
                }
            }
        },
    }
}

/// A reply gives a field a value just when one of its rows does, provided that it has the field once, at most.
pub proof fn law_field(s: Seq<char>, name: Seq<char>, shape: Shape, value: Seq<char>)
    requires
        at_most_once(s, name),
    ensures
        field(s, name, shape) == Some(value) <==> exists|k: int|
            0 <= k < rows(s).len() && gives(#[trigger] rows(s)[k], name, shape, value),
{
    lemma_field_from(s, name, shape, 0);
    if exists|k: int| 0 <= k < rows(s).len() && gives(#[trigger] rows(s)[k], name, shape, value) {
        let k = choose|k: int|
            0 <= k < rows(s).len() && gives(#[trigger] rows(s)[k], name, shape, value);
        match field(s, name, shape) {
            None => {
                assert(!gives(rows(s)[k], name, shape, value));
            },
            Some(other) => {
                let l = choose|l: int|
                    0 <= l < rows(s).len() && gives(#[trigger] rows(s)[l], name, shape, other);
                let prefix = name + ": "@;
                lemma_after(rows(s)[k], prefix);
                lemma_after(rows(s)[l], prefix);
                assert(text::after(rows(s)[k], prefix) == Some(value));
                assert(text::after(rows(s)[l], prefix) == Some(other));
                assert(is_field(rows(s)[k], name) && is_field(rows(s)[l], name));
            },
        }
    }
}

/// The order of the rows of a reply does not matter to a field that it has once, at most.
pub proof fn law_row_order(a: Seq<char>, b: Seq<char>, name: Seq<char>, shape: Shape)
    requires
        same_rows(a, b),
        at_most_once(a, name),
        at_most_once(b, name),
    ensures
        field(a, name, shape) == field(b, name, shape),
{
    lemma_same_field(a, b, name, shape);
    lemma_same_field(b, a, name, shape);
}

proof fn lemma_same_field(a: Seq<char>, b: Seq<char>, name: Seq<char>, shape: Shape)
    requires
        same_rows(a, b),
        at_most_once(a, name),
        at_most_once(b, name),
    ensures
        field(a, name, shape) matches Some(value) ==> field(b, name, shape) == Some(value),
{
    if let Some(value) = field(a, name, shape) {
        law_field(a, name, shape, value);
        let k = choose|k: int|
            0 <= k < rows(a).len() && gives(#[trigger] rows(a)[k], name, shape, value);
        let row = rows(a)[k];
        assert(rows(a).contains(row));
        rows(a).to_multiset_ensures();
        rows(b).to_multiset_ensures();
        assert(rows(a).to_multiset().count(row) > 0);
        assert(rows(b).contains(row));
        let l = rows(b).index_of(row);
        assert(rows(b)[l] == row);
        assert(gives(rows(b)[l], name, shape, value));
        law_field(b, name, shape, value);
    }
}

/// The state of the player is found unless no row gives it.
pub proof fn lemma_state_rows(s: Seq<char>)
    ensures
        field(s, "state"@, Shape::State) is None <==> forall|k: int|
            0 <= k < rows(s).len() ==> {
                &&& #[trigger] rows(s)[k] != "state: play"@
                &&& rows(s)[k] != "state: pause"@
                &&& rows(s)[k] != "state: stop"@
            },
{
    reveal_strlit("state");
    reveal_strlit(": ");
    reveal_strlit("play");
    reveal_strlit("pause");
    reveal_strlit("stop");
    reveal_strlit("state: play");
    reveal_strlit("state: pause");
    reveal_strlit("state: stop");
    assert("state"@ + ": "@ + "play"@ =~= "state: play"@);
    assert("state"@ + ": "@ + "pause"@ =~= "state: pause"@);
    assert("state"@ + ": "@ + "stop"@ =~= "state: stop"@);
    lemma_field_from(s, "state"@, Shape::State, 0);
    match field(s, "state"@, Shape::State) {
        Some(value) => {
            let k = choose|k: int|
                0 <= k < rows(s).len() && gives(
                    #[trigger] rows(s)[k],
                    "state"@,
                    Shape::State,
                    value,
                );
            assert(rows(s)[k] == "state: play"@ || rows(s)[k] == "state: pause"@ || rows(s)[k]
                == "state: stop"@);
        },
        None => {
            assert forall|k: int| 0 <= k < rows(s).len() implies {
                &&& #[trigger] rows(s)[k] != "state: play"@
                &&& rows(s)[k] != "state: pause"@
                &&& rows(s)[k] != "state: stop"@
            } by {
                assert(!gives(rows(s)[k], "state"@, Shape::State, "play"@));
                assert(!gives(rows(s)[k], "state"@, Shape::State, "pause"@));
                assert(!gives(rows(s)[k], "state"@, Shape::State, "stop"@));
            }
        },
    }
}

// ---------------------------------------------------------------------------------------------
// Floating point numbers as text
// ---------------------------------------------------------------------------------------------

/// The first index from `i` on at which there is no decimal digit.
pub open spec fn digits_end(s: Seq<char>, i: int) -> int
    decreases s.len() - i,
{
    if 0 <= i < s.len() && '0' <= s[i] <= '9' {
        digits_end(s, i + 1)
    } else {
        i
    }
}

/// Whether there is a sign at index `i`.
pub open spec fn sign_at(s: Seq<char>, i: int) -> bool {
    0 <= i < s.len() && (s[i] == '+' || s[i] == '-')
}

/// Whether what follows index `i` is nothing, or an exponent: an `e`, perhaps a sign, and one or
/// more digits.
pub open spec fn exponent_at(s: Seq<char>, i: int) -> bool {
    ||| i == s.len()
    ||| {
        &&& 0 <= i < s.len() && (s[i] == 'e' || s[i] == 'E')
        &&& {
            let j = if sign_at(s, i + 1) {
                i + 2
            } else {
                i + 1
            };
            j < s.len() && digits_end(s, j) == s.len()
        }
    }
}

/// Whether what follows index `i` is digits with at most one point among them, at least one digit,
/// and perhaps an exponent.
pub open spec fn number_at(s: Seq<char>, i: int) -> bool {
    let j = digits_end(s, i);
    if j < s.len() && s[j] == '.' {
        let k = digits_end(s, j + 1);
        (j > i || k > j + 1) && exponent_at(s, k)
    } else {
        j > i && exponent_at(s, j)
    }
}

/// Whether two characters are the same letter.
pub open spec fn same_letter(c: char, lower: char, upper: char) -> bool {
    c == lower || c == upper
}

/// Whether what follows index `i` is the word `inf`, `infinity` or `nan`, in any case.
pub open spec fn word_at(s: Seq<char>, i: int) -> bool {
    let w = s.skip(i);
    ||| {
        &&& w.len() == 3
        &&& same_letter(w[0], 'n', 'N')
        &&& same_letter(w[1], 'a', 'A')
        &&& same_letter(w[2], 'n', 'N')
    }
    ||| {
        &&& w.len() == 3 || w.len() == 8
        &&& same_letter(w[0], 'i', 'I')
        &&& same_letter(w[1], 'n', 'N')
        &&& same_letter(w[2], 'f', 'F')
        &&& w.len() == 8 ==> {
            &&& same_letter(w[3], 'i', 'I')
            &&& same_letter(w[4], 'n', 'N')
            &&& same_letter(w[5], 'i', 'I')
            &&& same_letter(w[6], 't', 'T')
            &&& same_letter(w[7], 'y', 'Y')
        }
    }
}

/// Whether a text writes a floating point number.
pub open spec fn is_float(s: Seq<char>) -> bool {
    let i: int = if sign_at(s, 0) {
        1
    } else {
        0
    };
    word_at(s, i) || number_at(s, i)
}

/// The first index from `from` on at which there is no decimal digit.
pub fn skip_digits(v: &[char], from: usize) -> (r: usize)
    requires
        from <= v@.len(),
    ensures
        r == digits_end(v@, from as int),
        from <= r <= v@.len(),
{
    let mut i: usize = from;
    while i < v.len() && '0' <= v[i] && v[i] <= '9'
        invariant
            from <= i <= v@.len(),
            digits_end(v@, from as int) == digits_end(v@, i as int),
        decreases v@.len() - i,
    {
        i = i + 1;
    }
    i
}

/// Whether what follows index `i` is nothing, or an exponent.
fn exponent(v: &[char], i: usize) -> (r: bool)
    requires
        i <= v@.len(),
    ensures
        r == exponent_at(v@, i as int),
{
    if i == v.len() {
        return true;
    }
    if v[i] != 'e' && v[i] != 'E' {
        return false;
    }
    let j: usize = if i + 1 < v.len() && (v[i + 1] == '+' || v[i + 1] == '-') {
        i + 2
    } else {
        i + 1
    };
    j < v.len() && skip_digits(v, j) == v.len()
}

/// Whether what follows index `i` is a word that stands for a number.
fn word(v: &[char], i: usize) -> (r: bool)
    requires
        i <= v@.len(),
    ensures
        r == word_at(v@, i as int),
{
    let n: usize = v.len() - i;
    if n != 3 && n != 8 {
        return false;
    }
    assert(forall|k: int| 0 <= k < n ==> v@.skip(i as int)[k] == v@[i + k]);
    if n == 3 && (v[i] == 'n' || v[i] == 'N') && (v[i + 1] == 'a' || v[i + 1] == 'A') && (v[i + 2]
        == 'n' || v[i + 2] == 'N') {
        return true;
    }
    let inf = (v[i] == 'i' || v[i] == 'I') && (v[i + 1] == 'n' || v[i + 1] == 'N') && (v[i + 2]
        == 'f' || v[i + 2] == 'F');
    if n == 3 {
        inf
    } else {
        inf && (v[i + 3] == 'i' || v[i + 3] == 'I') && (v[i + 4] == 'n' || v[i + 4] == 'N') && (v[i
            + 5] == 'i' || v[i + 5] == 'I') && (v[i + 6] == 't' || v[i + 6] == 'T') && (v[i + 7]
            == 'y' || v[i + 7] == 'Y')
    }
}

/// Whether the text writes a floating point number.
pub fn is_float_text(s: &str) -> (r: bool)
    ensures
        r == is_float(s@),
{
    let v = text::chars_of(s);
    let i: usize = if v.len() > 0 && (v[0] == '+' || v[0] == '-') {
        1
    } else {
        0
    };
    if word(&v, i) {
        return true;
    }
    let j: usize = skip_digits(&v, i);
    if j < v.len() && v[j] == '.' {
        let k: usize = skip_digits(&v, j + 1);
        (j > i || k > j + 1) && exponent(&v, k)
    } else {
        j > i && exponent(&v, j)
    }
}

/// Whether a text is made of decimal digits.
pub open spec fn is_digits(s: Seq<char>) -> bool {
    forall|i: int| 0 <= i < s.len() ==> '0' <= #[trigger] s[i] <= '9'
}

pub(crate) proof fn lemma_digits_end(s: Seq<char>, i: int, j: int)
    requires
        0 <= i <= j <= s.len(),
        forall|k: int| i <= k < j ==> '0' <= #[trigger] s[k] <= '9',
        j < s.len() ==> !('0' <= s[j] <= '9'),
    ensures
        digits_end(s, i) == j,
    decreases j - i,
{
    if i < j {
        lemma_digits_end(s, i + 1, j);
    }
}

/// Digits are a floating point number, as are digits with one point among them, but not with two, & neither
/// is nothing nor a point alone.
pub proof fn law_floats(a: Seq<char>, b: Seq<char>, c: Seq<char>)
    requires
        is_digits(a),
        is_digits(b),
        is_digits(c),
    ensures
        is_float(a) <==> a.len() > 0,
        is_float(a.push('.') + b) <==> a.len() > 0 || b.len() > 0,
        !is_float(a.push('.') + b.push('.') + c),
{
    lemma_digits_end(a, 0, a.len() as int);
    assert(a.skip(0) =~= a);
    let s = a.push('.') + b;
    let n = a.len() as int;
    assert(s[n] == '.');
    assert forall|k: int| 0 <= k < n implies '0' <= #[trigger] s[k] <= '9' by {
        assert(s[k] == a[k]);
    }
    assert forall|k: int| n < k < s.len() implies '0' <= #[trigger] s[k] <= '9' by {
        assert(s[k] == b[k - n - 1]);
    }
    lemma_digits_end(s, 0, n);
    lemma_digits_end(s, n + 1, s.len() as int);
    assert(s.skip(0) =~= s);
    assert(s[0] == '.' || '0' <= s[0] <= '9');
    let t = a.push('.') + b.push('.') + c;
    let m = n + 1 + b.len() as int;
    assert(t[n] == '.' && t[m] == '.');
    assert forall|k: int| 0 <= k < n implies '0' <= #[trigger] t[k] <= '9' by {
        assert(t[k] == a[k]);
    }
    assert forall|k: int| n < k < m implies '0' <= #[trigger] t[k] <= '9' by {
        assert(t[k] == b[k - n - 1]);
    }
    lemma_digits_end(t, 0, n);
    lemma_digits_end(t, n + 1, m);
    assert(t.skip(0) =~= t);
    assert(t[0] == '.' || '0' <= t[0] <= '9');
}

} // verus!
