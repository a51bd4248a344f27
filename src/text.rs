use vstd::prelude::*;

verus! {

/// Whether `c` has the Unicode `White_Space` property.
pub uninterp spec fn white_space(c: char) -> bool;

/// Relies on `char::is_whitespace`: true exactly for the characters with the
/// Unicode `White_Space` property.
#[verifier::external_body]
pub(crate) fn is_white(c: char) -> (r: bool)
    ensures
        r == white_space(c),
{
    c.is_whitespace()
}

/// Relies on `str::chars` collected into a `Vec`: the characters of `s`, in order.
#[verifier::external_body]
pub(crate) fn chars_of(s: &str) -> (r: Vec<char>)
    ensures
        r@ == s@,
{
    s.chars().collect()
}

/// Relies on `String: FromIterator<&char>`: the string made of `cs`, in order.
#[verifier::external_body]
pub(crate) fn string_of(cs: &[char]) -> (r: String)
    ensures
        r@ == cs@,
{
    cs.iter().collect()
}

/// `s` without its leading white space.
pub open spec fn trim_start(s: Seq<char>) -> Seq<char>
    decreases s.len(),
{
    if s.len() > 0 && white_space(s[0]) {
        trim_start(s.drop_first())
    } else {
        s
    }
}

/// `s` without its trailing white space.
pub open spec fn trim_end(s: Seq<char>) -> Seq<char>
    decreases s.len(),
{
    if s.len() > 0 && white_space(s.last()) {
        trim_end(s.drop_last())
    } else {
        s
    }
}

/// `s` without white space at either end.
pub open spec fn trimmed(s: Seq<char>) -> Seq<char> {
    trim_end(trim_start(s))
}

/// The pieces of `s` between occurrences of `sep`, empty ones included.
pub open spec fn split_on(s: Seq<char>, sep: char) -> Seq<Seq<char>>
    decreases s.len(),
{
    if s.len() == 0 {
        seq![Seq::empty()]
    } else {
        let init = split_on(s.drop_last(), sep);
        if s.last() == sep {
            init.push(Seq::empty())
        } else {
            init.update(init.len() - 1, init.last().push(s.last()))
        }
    }
}

pub proof fn lemma_split_on_nonempty(s: Seq<char>, sep: char)
    ensures
        split_on(s, sep).len() >= 1,
    decreases s.len(),
{
    if s.len() > 0 {
        lemma_split_on_nonempty(s.drop_last(), sep);
    }
}

/// The characters of `p` without white space at either end.
pub(crate) fn trim(p: &[char]) -> (r: Vec<char>)
    ensures
        r@ == trimmed(p@),
{
    let n = p.len();
    let mut a: usize = 0;
    assert(p@.subrange(0, n as int) =~= p@);
    loop
        invariant
            a <= n,
            n == p@.len(),
            trim_start(p@) == trim_start(p@.subrange(a as int, n as int)),
        ensures
            a <= n,
            trim_start(p@) == trim_start(p@.subrange(a as int, n as int)),
            a == n || !white_space(p@[a as int]),
        decreases n - a,
    {
        if a == n || !is_white(p[a]) {
            break;
        }
        assert(p@.subrange(a as int, n as int).drop_first() =~= p@.subrange(a + 1, n as int));
        a = a + 1;
    }
    if a < n {
        assert(p@.subrange(a as int, n as int)[0] == p@[a as int]);
    }
    assert(trim_start(p@) == p@.subrange(a as int, n as int));
    let mut b: usize = n;
    loop
        invariant
            a <= b <= n,
            n == p@.len(),
            trimmed(p@) == trim_end(p@.subrange(a as int, b as int)),
        ensures
            a <= b <= n,
            trimmed(p@) == trim_end(p@.subrange(a as int, b as int)),
            b == a || !white_space(p@[b - 1]),
        decreases b - a,
    {
        if b == a || !is_white(p[b - 1]) {
            break;
        }
        assert(p@.subrange(a as int, b as int).drop_last() =~= p@.subrange(a as int, b - 1));
        b = b - 1;
    }
    if b > a {
        assert(p@.subrange(a as int, b as int).last() == p@[b - 1]);
    }
    assert(trimmed(p@) == p@.subrange(a as int, b as int));
    let mut r: Vec<char> = Vec::new();
    let mut j: usize = a;
    while j < b
        invariant
            a <= j <= b <= n,
            n == p@.len(),
            r@ == p@.subrange(a as int, j as int),
            trimmed(p@) == p@.subrange(a as int, b as int),
        decreases b - j,
    {
        r.push(p[j]);
        assert(r@ =~= p@.subrange(a as int, j + 1));
        j = j + 1;
    }
    r
}

} // verus!
