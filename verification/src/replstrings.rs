//! Utilities for strings with replacement parameters.

use vstd::prelude::*;

use crate::collections;
use crate::collections::StringMap;
use crate::text;

verus! {

/// Why a replacement string could not be processed.
#[derive(Debug)]
pub enum Error {
    /// The string ends in a lone percent sign
    TrailingPercent { template: String },
    /// The string names a parameter that is not in the table
    UnknownParameter { param: String },
}

/// An [`Error`], as a mathematical value.
pub enum ErrorView {
    TrailingPercent { template: Seq<char> },
    UnknownParameter { param: Seq<char> },
}

impl DeepView for Error {
    type V = ErrorView;

    open spec fn deep_view(&self) -> ErrorView {
        match self {
            Error::TrailingPercent { template } => ErrorView::TrailingPercent {
                template: template@,
            },
            Error::UnknownParameter { param } => ErrorView::UnknownParameter { param: param@ },
        }
    }
}

/// The words in which an error is reported.
pub open spec fn error_message(e: ErrorView) -> Seq<char> {
    match e {
        ErrorView::TrailingPercent { template } => "The template string `"@ + template
            + "' has a trailing `%' character, which is illegal"@,
        ErrorView::UnknownParameter { param } => "Unknown replacement parameter `"@ + param + "'"@,
    }
}

impl Error {
    /// The words in which the error is reported.
    pub fn message(&self) -> (r: String)
        ensures
            r@ == error_message(self.deep_view()),
    {
        match self {
            Error::TrailingPercent { template } => text::join3(
                "The template string `",
                template.as_str(),
                "' has a trailing `%' character, which is illegal",
            ),
            Error::UnknownParameter { param } => text::join3(
                "Unknown replacement parameter `",
                param.as_str(),
                "'",
            ),
        }
    }
}

/// A table of replacement parameters: their names & what they are to be replaced with.
pub type Params = Seq<(Seq<char>, Seq<char>)>;

/// Whether `c` can be part of a parameter's name.
pub open spec fn is_name_char(c: char) -> bool {
    text::is_alphanumeric(c) || c == '-' || c == '_'
}

/// The first index from `i` on at which there is no character of a name.
pub open spec fn name_end(s: Seq<char>, i: int) -> int
    decreases s.len() - i,
{
    if 0 <= i < s.len() && is_name_char(s[i]) {
        name_end(s, i + 1)
    } else {
        i
    }
}

/// A text before the rest of an expansion.
pub open spec fn before(start: Seq<char>, rest: Result<Seq<char>, ErrorView>) -> Result<
    Seq<char>,
    ErrorView,
> {
    match rest {
        Ok(rest) => Ok(start + rest),
        Err(e) => Err(e),
    }
}

/// What a replacement string from index `i` on expands to. A percent sign is written as two; any
/// other starts the name of a parameter, which goes as far as it can & stands for the parameter's
/// replacement.
pub open spec fn expand_from(templ: Seq<char>, i: int, params: Params) -> Result<
    Seq<char>,
    ErrorView,
>
    decreases templ.len() - i,
{
    if i < 0 || i >= templ.len() {
        Ok(Seq::empty())
    } else if templ[i] != '%' {
        before(seq![templ[i]], expand_from(templ, i + 1, params))
    } else if i + 1 >= templ.len() {
        Err(ErrorView::TrailingPercent { template: templ })
    } else if templ[i + 1] == '%' {
        before(seq!['%'], expand_from(templ, i + 2, params))
    } else {
        let j = name_end(templ, i + 1);
        let name = templ.subrange(i + 1, j);
        match collections::lookup(params, name) {
            None => Err(ErrorView::UnknownParameter { param: name }),
            Some(value) => {
                proof {
                    lemma_name_end_after(templ, i + 1);
                }
                before(value, expand_from(templ, j, params))
            },
        }
    }
}

/// What a replacement string expands to.
pub open spec fn expansion(templ: Seq<char>, params: Params) -> Result<Seq<char>, ErrorView> {
    expand_from(templ, 0, params)
}

/// The first index from `from` on at which there is no character of a name.
fn skip_name(v: &[char], from: usize) -> (r: usize)
    requires
        from <= v@.len(),
    ensures
        r == name_end(v@, from as int),
        from <= r <= v@.len(),
{
    let mut i: usize = from;
    while i < v.len()
        invariant
            from <= i <= v@.len(),
            name_end(v@, from as int) == name_end(v@, i as int),
        decreases v@.len() - i,
    {
        let c = v[i];
        if !(c.is_alphanumeric() || c == '-' || c == '_') {
            return i;
        }
        i = i + 1;
    }
    i
}

/// Process a replacement string with replacement parameters of the form "%param" given a lookup
/// table for parameter replacements. Literal `%'-s can be expressed as "%%".
pub fn process_replacements(templ: &str, params: &StringMap<String>) -> (r: Result<String, Error>)
    ensures
        text::outcome(r) == expansion(templ@, params.deep_view()),
{
    let v = text::chars_of(templ);
    let mut out = String::new();
    let mut i: usize = 0;
    let ghost table = params.deep_view();
    assert(out@ + expansion(v@, table)->Ok_0 =~= expansion(v@, table)->Ok_0);
    while i < v.len()
        invariant
            v@ == templ@,
            table == params.deep_view(),
            i <= v@.len(),
            expansion(v@, table) == before(out@, expand_from(v@, i as int, table)),
        decreases v@.len() - i,
    {
        let ghost done = out@;
        let a = v[i];
        if a != '%' {
            out.push(a);
            proof {
                lemma_before(done, seq![a], expand_from(v@, i + 1, table));
                assert(out@ =~= done + seq![a]);
            }
            i = i + 1;
        } else if i + 1 >= v.len() {
            return Err(Error::TrailingPercent { template: text::owned(templ) });
        } else if v[i + 1] == '%' {
            out.push('%');
            proof {
                lemma_before(done, seq!['%'], expand_from(v@, i + 2, table));
                assert(out@ =~= done + seq!['%']);
            }
            i = i + 2;
        } else {
            let j: usize = skip_name(&v, i + 1);
            let name = text::slice_of(&v, i + 1, j);
            proof {
                if let Some(x) = collections::lookup(params@, name@) {
                    collections::lemma_deep_entries(params@, name@, x);
                } else {
                    collections::lemma_deep_entries(params@, name@, name);
                }
            }
            match params.get(name.as_str()) {
                None => {
                    return Err(Error::UnknownParameter { param: name });
                },
                Some(value) => {
                    out.append(value.as_str());
                    proof {
                        lemma_before(done, value@, expand_from(v@, j as int, table));
                    }
                    i = j;
                },
            }
        }
    }
    assert(out@ + Seq::empty() =~= out@);
    Ok(out)
}

/// Whether a replacement string names a parameter from index `i` on.
pub open spec fn names_from(templ: Seq<char>, i: int, name: Seq<char>) -> bool
    decreases templ.len() - i,
{
    if i < 0 || i + 1 >= templ.len() {
        false
    } else if templ[i] != '%' {
        names_from(templ, i + 1, name)
    } else if templ[i + 1] == '%' {
        names_from(templ, i + 2, name)
    } else {
        let j = name_end(templ, i + 1);
        proof {
            lemma_name_end_after(templ, i + 1);
        }
        templ.subrange(i + 1, j) == name || names_from(templ, j, name)
    }
}

/// Whether a replacement string names a parameter.
pub open spec fn names(templ: Seq<char>, name: Seq<char>) -> bool {
    names_from(templ, 0, name)
}

/// Whether a replacement string names a parameter.
pub fn names_parameter(templ: &str, name: &str) -> (r: bool)
    ensures
        r == names(templ@, name@),
{
    let v = text::chars_of(templ);
    let mut i: usize = 0;
    while i < v.len() && v.len() - i > 1
        invariant
            v@ == templ@,
            names(templ@, name@) == names_from(templ@, i as int, name@),
        decreases v@.len() - i,
    {
        if v[i] != '%' {
            i = i + 1;
        } else if v[i + 1] == '%' {
            i = i + 2;
        } else {
            let j: usize = skip_name(&v, i + 1);
            if text::same(text::slice_of(&v, i + 1, j).as_str(), name) {
                return true;
            }
            i = j;
        }
    }
    false
}

proof fn lemma_before(a: Seq<char>, b: Seq<char>, rest: Result<Seq<char>, ErrorView>)
    ensures
        before(a, before(b, rest)) == before(a + b, rest),
{
    if let Ok(r) = rest {
        assert(a + (b + r) =~= (a + b) + r);
    }
}

// ---------------------------------------------------------------------------------------------
// Laws
// ---------------------------------------------------------------------------------------------

/// A text without percent signs is its own expansion, whatever the parameters.
pub proof fn law_no_percent(templ: Seq<char>, params: Params)
    requires
        forall|i: int| 0 <= i < templ.len() ==> templ[i] != '%',
    ensures
        expansion(templ, params) == Ok::<Seq<char>, ErrorView>(templ),
{
    lemma_plain_from(templ, 0, params);
    assert(templ.skip(0) =~= templ);
}

proof fn lemma_plain_from(templ: Seq<char>, i: int, params: Params)
    requires
        0 <= i <= templ.len(),
        forall|j: int| 0 <= j < templ.len() ==> templ[j] != '%',
    ensures
        expand_from(templ, i, params) == Ok::<Seq<char>, ErrorView>(templ.skip(i)),
    decreases templ.len() - i,
{
    if i < templ.len() {
        lemma_plain_from(templ, i + 1, params);
        assert(seq![templ[i]] + templ.skip(i + 1) =~= templ.skip(i));
    } else {
        assert(templ.skip(i) =~= Seq::empty());
    }
}

/// A text with each of its percent signs doubled.
pub open spec fn doubled(s: Seq<char>) -> Seq<char>
    decreases s.len(),
{
    if s.len() == 0 {
        Seq::empty()
    } else if s[0] == '%' {
        seq!['%', '%'] + doubled(s.drop_first())
    } else {
        seq![s[0]] + doubled(s.drop_first())
    }
}

/// Any text at all can be written as a replacement string: doubling its percent signs gives one that
/// expands to it, whatever the parameters.
pub proof fn law_doubled_percent(s: Seq<char>, params: Params)
    ensures
        expansion(doubled(s), params) == Ok::<Seq<char>, ErrorView>(s),
{
    lemma_doubled(Seq::empty(), s, params);
    assert(Seq::<char>::empty() + doubled(s) =~= doubled(s));
}

proof fn lemma_doubled(start: Seq<char>, s: Seq<char>, params: Params)
    ensures
        expand_from(start + doubled(s), start.len() as int, params) == Ok::<Seq<char>, ErrorView>(
            s,
        ),
    decreases s.len(),
{
    let t = start + doubled(s);
    if s.len() == 0 {
        assert(s =~= Seq::empty());
    } else if s[0] == '%' {
        lemma_doubled(start + seq!['%', '%'], s.drop_first(), params);
        assert(start + seq!['%', '%'] + doubled(s.drop_first()) =~= t);
        assert(t[start.len() as int] == '%');
        assert(t[start.len() as int + 1] == '%');
        assert(seq!['%'] + s.drop_first() =~= s);
    } else {
        lemma_doubled(start + seq![s[0]], s.drop_first(), params);
        assert(start + seq![s[0]] + doubled(s.drop_first()) =~= t);
        assert(t[start.len() as int] == s[0]);
        assert(seq![s[0]] + s.drop_first() =~= s);
    }
}

/// A percent sign & the name of a parameter, alone, expand to the parameter's replacement.
pub proof fn law_parameter(name: Seq<char>, params: Params)
    requires
        name.len() > 0,
        forall|i: int| 0 <= i < name.len() ==> is_name_char(#[trigger] name[i]),
    ensures
        expansion(seq!['%'] + name, params) == (match collections::lookup(params, name) {
            Some(value) => Ok(value),
            None => Err(ErrorView::UnknownParameter { param: name }),
        }),
{
    let t = seq!['%'] + name;
    assert(t[0] == '%' && t[1] == name[0]);
    assert forall|i: int| 1 <= i < t.len() implies is_name_char(#[trigger] t[i]) by {
        assert(t[i] == name[i - 1]);
    }
    lemma_name_end_at(t, 1, t.len() as int);
    assert(t.subrange(1, t.len() as int) =~= name);
    if let Some(value) = collections::lookup(params, name) {
        assert(expand_from(t, t.len() as int, params) == Ok::<Seq<char>, ErrorView>(Seq::empty()));
        assert(value + Seq::<char>::empty() =~= value);
    }
}

/// What follows a parameter is expanded as if it stood alone, provided that it does not go on with the
/// parameter's name: a parameter may follow another, & so may a percent sign that is written as two.
pub proof fn law_parameter_then(name: Seq<char>, rest: Seq<char>, params: Params)
    requires
        name.len() > 0,
        forall|i: int| 0 <= i < name.len() ==> is_name_char(#[trigger] name[i]),
        rest.len() > 0 ==> !is_name_char(rest[0]),
        collections::lookup(params, name) is Some,
    ensures
        match expansion(rest, params) {
            Ok(r) => expansion(seq!['%'] + name + rest, params) == Ok::<Seq<char>, ErrorView>(
                collections::lookup(params, name)->0 + r,
            ),
            Err(_) => expansion(seq!['%'] + name + rest, params) is Err,
        },
{
    let start = seq!['%'] + name;
    let t = start + rest;
    let n = start.len() as int;
    assert(t[0] == '%' && t[1] == name[0]);
    assert forall|i: int| 1 <= i < n implies is_name_char(#[trigger] t[i]) by {
        assert(t[i] == name[i - 1]);
    }
    assert(rest.len() > 0 ==> t[n] == rest[0]);
    lemma_name_end_at(t, 1, n);
    assert(t.subrange(1, n) =~= name);
    lemma_shifted(start, rest, 0, params);
}

/// A text that follows another is expanded as if it stood alone.
proof fn lemma_shifted(start: Seq<char>, rest: Seq<char>, i: int, params: Params)
    requires
        0 <= i <= rest.len(),
    ensures
        match expand_from(rest, i, params) {
            Ok(r) => expand_from(start + rest, start.len() + i, params) == Ok::<
                Seq<char>,
                ErrorView,
            >(r),
            Err(_) => expand_from(start + rest, start.len() + i, params) is Err,
        },
    decreases rest.len() - i,
{
    let t = start + rest;
    let n = start.len() as int;
    if i < rest.len() {
        assert(t[n + i] == rest[i]);
        if rest[i] != '%' {
            lemma_shifted(start, rest, i + 1, params);
        } else if i + 1 < rest.len() {
            assert(t[n + i + 1] == rest[i + 1]);
            if rest[i + 1] == '%' {
                lemma_shifted(start, rest, i + 2, params);
            } else {
                let j = name_end(rest, i + 1);
                lemma_name_end_after(rest, i + 1);
                lemma_name_end_shifted(start, rest, i + 1);
                assert(t.subrange(n + i + 1, n + j) =~= rest.subrange(i + 1, j));
                lemma_shifted(start, rest, j, params);
            }
        }
    }
}

/// A name goes as far in a text that follows another as it would if it stood alone.
proof fn lemma_name_end_shifted(start: Seq<char>, rest: Seq<char>, i: int)
    requires
        0 <= i <= rest.len(),
    ensures
        name_end(start + rest, start.len() + i) == start.len() + name_end(rest, i),
        name_end(rest, i) <= rest.len(),
    decreases rest.len() - i,
{
    if i < rest.len() {
        assert((start + rest)[start.len() + i] == rest[i]);
        if is_name_char(rest[i]) {
            lemma_name_end_shifted(start, rest, i + 1);
        }
    }
}

/// A name goes up to the first character that is not part of one.
pub(crate) proof fn lemma_name_end_at(s: Seq<char>, i: int, n: int)
    requires
        0 <= i <= n <= s.len(),
        forall|j: int| i <= j < n ==> is_name_char(#[trigger] s[j]),
        n == s.len() || !is_name_char(s[n]),
    ensures
        name_end(s, i) == n,
    decreases n - i,
{
    if i < n {
        lemma_name_end_at(s, i + 1, n);
    }
}

/// A text without percent signs, or a percent sign that is written as two, stands before the expansion of what
/// follows it.
pub proof fn law_text_then(s: Seq<char>, rest: Seq<char>, params: Params)
    requires
        forall|i: int| 0 <= i < s.len() ==> s[i] != '%',
    ensures
        match expansion(rest, params) {
            Ok(r) => {
                &&& expansion(s + rest, params) == Ok::<Seq<char>, ErrorView>(s + r)
                &&& expansion(seq!['%', '%'] + rest, params) == Ok::<Seq<char>, ErrorView>(
                    seq!['%'] + r,
                )
            },
            Err(_) => {
                &&& expansion(s + rest, params) is Err
                &&& expansion(seq!['%', '%'] + rest, params) is Err
            },
        },
{
    lemma_text_from(s, rest, 0, params);
    assert(s.skip(0) =~= s);
    let t = seq!['%', '%'] + rest;
    assert(t[0] == '%' && t[1] == '%');
    lemma_shifted(seq!['%', '%'], rest, 0, params);
}

proof fn lemma_text_from(s: Seq<char>, rest: Seq<char>, i: int, params: Params)
    requires
        0 <= i <= s.len(),
        forall|j: int| 0 <= j < s.len() ==> s[j] != '%',
    ensures
        match expansion(rest, params) {
            Ok(r) => expand_from(s + rest, i, params) == Ok::<Seq<char>, ErrorView>(s.skip(i) + r),
            Err(_) => expand_from(s + rest, i, params) is Err,
        },
    decreases s.len() - i,
{
    let t = s + rest;
    if i < s.len() {
        assert(t[i] == s[i]);
        lemma_text_from(s, rest, i + 1, params);
        if let Ok(r) = expansion(rest, params) {
            assert(seq![s[i]] + (s.skip(i + 1) + r) =~= s.skip(i) + r);
        }
    } else {
        lemma_shifted(s, rest, 0, params);
        if let Ok(r) = expansion(rest, params) {
            assert(s.skip(i) + r =~= r);
        }
    }
}

/// Letters, digits, hyphens & underscores make up the names of parameters, & no other ASCII character does.
pub proof fn law_name_chars(c: char)
    ensures
        c <= '~' ==> (is_name_char(c) <==> ('a' <= c <= 'z' || 'A' <= c <= 'Z' || '0' <= c <= '9' || c
            == '-' || c == '_')),
{
}

/// A parameter that a replacement string does not name has no bearing on what the string expands to.
pub proof fn law_unnamed(templ: Seq<char>, params: Params, name: Seq<char>, value: Seq<char>)
    requires
        !names(templ, name),
    ensures
        expansion(templ, collections::put(params, name, value)) == expansion(templ, params),
{
    lemma_unnamed_from(templ, 0, params, name, value);
}

proof fn lemma_unnamed_from(
    templ: Seq<char>,
    i: int,
    params: Params,
    name: Seq<char>,
    value: Seq<char>,
)
    requires
        0 <= i,
        !names_from(templ, i, name),
    ensures
        expand_from(templ, i, collections::put(params, name, value)) == expand_from(
            templ,
            i,
            params,
        ),
    decreases templ.len() - i,
{
    if i + 1 < templ.len() {
        if templ[i] != '%' {
            lemma_unnamed_from(templ, i + 1, params, name, value);
        } else if templ[i + 1] == '%' {
            lemma_unnamed_from(templ, i + 2, params, name, value);
        } else {
            let j = name_end(templ, i + 1);
            lemma_name_end_after(templ, i + 1);
            collections::law_put_lookup(params, name, value, templ.subrange(i + 1, j));
            lemma_unnamed_from(templ, j, params, name, value);
        }
    } else if i < templ.len() {
        assert(expand_from(templ, i + 1, params) == Ok::<Seq<char>, ErrorView>(Seq::empty()));
        assert(expand_from(templ, i + 1, collections::put(params, name, value)) == Ok::<
            Seq<char>,
            ErrorView,
        >(Seq::empty()));
    }
}

/// A name does not end before it starts, nor after the text.
pub proof fn lemma_name_end_after(s: Seq<char>, i: int)
    ensures
        i <= name_end(s, i),
        i <= s.len() ==> name_end(s, i) <= s.len(),
    decreases s.len() - i,
{
    if 0 <= i < s.len() && is_name_char(s[i]) {
        lemma_name_end_after(s, i + 1);
    }
}

} // verus!
