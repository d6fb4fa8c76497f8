use vstd::prelude::*;

verus! {

/// `String::push` appends one character to the end of the string.
pub assume_specification[ String::push ](s: &mut String, ch: char)
    ensures
        final(s)@ == old(s)@.push(ch),
;

/// The decimal digit character for `d` (0 ..= 9).
pub open spec fn digit_char(d: int) -> char {
    (48 + d) as char
}

/// The decimal notation of a natural number, most significant digit first,
/// as `{}` prints an unsigned integer.
pub open spec fn decimal(n: nat) -> Seq<char>
    decreases n,
{
    if n < 10 {
        seq![digit_char(n as int)]
    } else {
        decimal(n / 10).push(digit_char((n % 10) as int))
    }
}

/// Appends the decimal digits of `n` to `s`.
pub fn push_decimal(s: &mut String, n: u8)
    ensures
        final(s)@ == old(s)@ + decimal(n as nat),
{
    proof {
        reveal_with_fuel(decimal, 3);
    }
    if n < 10 {
        s.push((48 + n) as char);
    } else if n < 100 {
        s.push((48 + n / 10) as char);
        s.push((48 + n % 10) as char);
        assert(decimal(n as nat) == seq![digit_char((n / 10) as int), digit_char((n % 10) as int)]);
    } else {
        s.push((48 + n / 100) as char);
        s.push((48 + (n / 10) % 10) as char);
        s.push((48 + n % 10) as char);
        assert(decimal((n / 10) as nat) == seq![digit_char((n / 100) as int), digit_char(((n / 10) % 10) as int)]);
    }
}

/// Appends every character of `t` to `s`.
pub fn push_chars(s: &mut String, t: &str)
    ensures
        final(s)@ == old(s)@ + t@,
{
    let ghost start = s@;
    for ch in it: t.chars()
        invariant
            s@ == start + it.seq().take(it.index() as int),
    {
        s.push(ch);
    }
}

/// The characters of a text, in order.
pub fn chars_of(s: &str) -> (r: Vec<char>)
    ensures
        r@ == s@,
{
    let mut v: Vec<char> = Vec::new();
    for ch in it: s.chars()
        invariant
            v@ == it.seq().take(it.index() as int),
    {
        v.push(ch);
    }
    v
}

/// A text made of the given characters.
pub fn string_of(v: &Vec<char>) -> (s: String)
    ensures
        s@ == v@,
{
    let mut s = String::new();
    let n = v.len();
    let mut i: usize = 0;
    while i < n
        invariant
            n == v@.len(),
            i <= n,
            s@ == v@.take(i as int),
        decreases n - i,
    {
        s.push(v[i]);
        assert(v@.take(i + 1) =~= v@.take(i as int).push(v@[i as int]));
        i = i + 1;
    }
    assert(v@.take(n as int) =~= v@);
    s
}

/// Whether a character has the Unicode `White_Space` property (the test that
/// `char::is_whitespace` makes).
pub uninterp spec fn white_space(c: char) -> bool;

/// `char::is_whitespace` tells whether a character has the Unicode `White_Space`
/// property; which characters have it is named, not spelled out.
pub assume_specification[ char::is_whitespace ](c: char) -> (r: bool)
    ensures
        r == white_space(c),
;

/// The text without its leading white space.
pub open spec fn trim_start(s: Seq<char>) -> Seq<char>
    decreases s.len(),
{
    if s.len() > 0 && white_space(s[0]) {
        trim_start(s.drop_first())
    } else {
        s
    }
}

/// The text without its trailing white space.
pub open spec fn trim_end(s: Seq<char>) -> Seq<char>
    decreases s.len(),
{
    if s.len() > 0 && white_space(s.last()) {
        trim_end(s.drop_last())
    } else {
        s
    }
}

/// The text without leading and trailing white space (what `str::trim` gives).
pub open spec fn trimmed(s: Seq<char>) -> Seq<char> {
    trim_end(trim_start(s))
}

/// The characters without leading and trailing white space.
pub fn trim_chars(v: &Vec<char>) -> (r: Vec<char>)
    ensures
        r@ == trimmed(v@),
{
    let n = v.len();
    let mut i: usize = 0;
    assert(v@.skip(0) =~= v@);
    while i < n && v[i].is_whitespace()
        invariant
            n == v@.len(),
            i <= n,
            trim_start(v@) == trim_start(v@.skip(i as int)),
        decreases n - i,
    {
        assert(v@.skip(i as int).drop_first() =~= v@.skip(i + 1));
        i = i + 1;
    }
    assert(trim_start(v@.skip(i as int)) == v@.skip(i as int));
    let mut j: usize = n;
    assert(v@.subrange(i as int, n as int) =~= v@.skip(i as int));
    while j > i && v[j - 1].is_whitespace()
        invariant
            n == v@.len(),
            i <= j <= n,
            trim_start(v@) == v@.subrange(i as int, n as int),
            trimmed(v@) == trim_end(v@.subrange(i as int, j as int)),
        decreases j,
    {
        assert(v@.subrange(i as int, j as int).drop_last() =~= v@.subrange(i as int, j - 1));
        j = j - 1;
    }
    assert(trim_end(v@.subrange(i as int, j as int)) == v@.subrange(i as int, j as int));
    let mut r: Vec<char> = Vec::new();
    let mut k: usize = i;
    while k < j
        invariant
            n == v@.len(),
            i <= k <= j <= n,
            r@ == v@.subrange(i as int, k as int),
        decreases j - k,
    {
        r.push(v[k]);
        assert(v@.subrange(i as int, k + 1) =~= v@.subrange(i as int, k as int).push(v@[k as int]));
        k = k + 1;
    }
    r
}

} // verus!
