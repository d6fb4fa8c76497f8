//! Reading the color variables of a theme's CSS text.
use vstd::prelude::*;

use crate::text::{chars_of, string_of, trim_chars, trim_end, trim_start, trimmed, white_space};

verus! {

/// `regex::Error`, the error of compiling a regular expression; carried, never inspected.
#[verifier::external_type_specification]
#[verifier::external_body]
pub struct ExRegexError(regex::Error);

/// What the regular expression `pattern` finds in `haystack`: for each match, in order,
/// the text of capture groups 1 and 2 (`None` for a group that took no part in the match);
/// `None` as a whole when `pattern` is not a valid regular expression.
pub uninterp spec fn regex_group_pairs(pattern: Seq<char>, haystack: Seq<char>) -> Option<
    Seq<(Option<Seq<char>>, Option<Seq<char>>)>,
>;

pub open spec fn opt_view(o: Option<String>) -> Option<Seq<char>> {
    match o {
        Some(s) => Some(s@),
        None => None,
    }
}

pub open spec fn pair_views(v: Seq<(Option<String>, Option<String>)>) -> Seq<(Option<Seq<char>>, Option<Seq<char>>)> {
    Seq::new(v.len(), |i: int| (opt_view(v[i].0), opt_view(v[i].1)))
}

/// Compiles `pattern` with `regex::Regex::new` and collects, with `Regex::captures_iter`,
/// the text of groups 1 and 2 of every match in `haystack`. The contract claims only that
/// the result is the named one (`regex_group_pairs`) of the pattern and the haystack, and
/// that an error comes exactly when that names no matches; what a regular expression
/// matches is left unsaid.
#[verifier::external_body]
fn capture_group_pairs(pattern: &str, haystack: &str) -> (r: Result<
    Vec<(Option<String>, Option<String>)>,
    regex::Error,
>)
    ensures
        match r {
            Ok(v) => regex_group_pairs(pattern@, haystack@) == Some(pair_views(v@)),
            Err(_) => regex_group_pairs(pattern@, haystack@) is None,
        },
{
    let re = regex::Regex::new(pattern)?;
    Ok(
        re.captures_iter(haystack).map(
            |c| (c.get(1).map(|m| m.as_str().to_string()), c.get(2).map(|m| m.as_str().to_string())),
        ).collect(),
    )
}

/// Why a theme's CSS text could not be read.
#[derive(Debug, Clone, Copy, PartialEq, Eq, Structural)]
pub enum ThemeError {
    /// The pattern for CSS variables did not compile.
    InvalidPattern,
    /// A match lacked the variable's name or value.
    MissingGroup,
}

/// The pattern of a CSS variable declaration `--name: value;`.
pub open spec fn css_variable_pattern() -> Seq<char> {
    "--([a-zA-Z0-9\\-]+):\\s*([^;]+);"@
}

/// `p` is a prefix of `s`.
pub open spec fn has_prefix(s: Seq<char>, p: Seq<char>) -> bool {
    p.len() <= s.len() && s.take(p.len() as int) == p
}

/// The declarations whose value, without surrounding white space, starts with "oklch",
/// in order, as pairs of name and trimmed value; `None` when a match lacks a group.
pub open spec fn oklch_entries(caps: Seq<(Option<Seq<char>>, Option<Seq<char>>)>) -> Option<
    Seq<(Seq<char>, Seq<char>)>,
>
    decreases caps.len(),
{
    if caps.len() == 0 {
        Some(Seq::empty())
    } else {
        match oklch_entries(caps.drop_last()) {
            None => None,
            Some(prev) => match caps.last() {
                (Some(k), Some(v)) => if has_prefix(trimmed(v), "oklch"@) {
                    Some(prev.push((k, trimmed(v))))
                } else {
                    Some(prev)
                },
                _ => None,
            },
        }
    }
}

pub open spec fn entry_views(v: Seq<(String, String)>) -> Seq<(Seq<char>, Seq<char>)> {
    Seq::new(v.len(), |i: int| (v[i].0@, v[i].1@))
}

/// Whether the characters start with "oklch".
fn starts_with_oklch(v: &Vec<char>) -> (r: bool)
    ensures
        r == has_prefix(v@, "oklch"@),
{
    proof {
        reveal_strlit("oklch");
    }
    let ok = v.len() >= 5 && v[0] == 'o' && v[1] == 'k' && v[2] == 'l' && v[3] == 'c' && v[4] == 'h';
    if ok {
        assert(v@.take(5) =~= "oklch"@);
    } else if v.len() >= 5 {
        assert(v@.take(5) != "oklch"@) by {
            if v@.take(5) == "oklch"@ {
                assert(v@.take(5)[0] == v@[0]);
                assert(v@.take(5)[1] == v@[1]);
                assert(v@.take(5)[2] == v@[2]);
                assert(v@.take(5)[3] == v@[3]);
                assert(v@.take(5)[4] == v@[4]);
            }
        }
    }
    ok
}

/// From the groups of the CSS variable matches, the variables whose trimmed value starts
/// with "oklch", with that trimmed value.
pub fn select_oklch(caps: &Vec<(Option<String>, Option<String>)>) -> (r: Result<Vec<(String, String)>, ThemeError>)
    ensures
        match oklch_entries(pair_views(caps@)) {
            Some(e) => r matches Ok(v) && entry_views(v@) == e,
            None => r == Err::<Vec<(String, String)>, ThemeError>(ThemeError::MissingGroup),
        },
{
    let ghost cs = pair_views(caps@);
    let mut out: Vec<(String, String)> = Vec::new();
    let n = caps.len();
    let mut i: usize = 0;
    assert(cs.take(0) =~= Seq::<(Option<Seq<char>>, Option<Seq<char>>)>::empty());
    assert(entry_views(out@) =~= Seq::<(Seq<char>, Seq<char>)>::empty());
    while i < n
        invariant
            cs == pair_views(caps@),
            n == caps@.len(),
            i <= n,
            oklch_entries(cs.take(i as int)) == Some(entry_views(out@)),
        decreases n - i,
    {
        assert(cs.take(i + 1).drop_last() =~= cs.take(i as int));
        assert(cs.take(i + 1).last() == cs[i as int]);
        match &caps[i] {
            (Some(key), Some(value)) => {
                let chars = chars_of(value.as_str());
                let t = trim_chars(&chars);
                if starts_with_oklch(&t) {
                    let ghost before = entry_views(out@);
                    let k = string_of(&chars_of(key.as_str()));
                    out.push((k, string_of(&t)));
                    assert(entry_views(out@) =~= before.push((key@, trimmed(value@))));
                }
            },
            _ => {
                proof {
                    assert(oklch_entries(cs.take(i + 1)) is None);
                    lemma_entries_none_stays(cs, i as int + 1);
                    assert(cs.take(n as int) =~= cs);
                }
                return Err(ThemeError::MissingGroup);
            },
        }
        i = i + 1;
    }
    assert(cs.take(n as int) =~= cs);
    Ok(out)
}

proof fn lemma_entries_none_stays(cs: Seq<(Option<Seq<char>>, Option<Seq<char>>)>, k: int)
    requires
        0 <= k <= cs.len(),
        oklch_entries(cs.take(k)) is None,
    ensures
        oklch_entries(cs) is None,
    decreases cs.len() - k,
{
    if k == cs.len() {
        assert(cs.take(k) =~= cs);
    } else {
        assert(cs.take(k + 1).drop_last() =~= cs.take(k));
        lemma_entries_none_stays(cs, k + 1);
    }
}

/// The CSS variables of a theme whose value starts with "oklch": pairs of the variable's
/// name and its value without surrounding white space, in the order of the text.
pub fn oklch_variables(css: &str) -> (r: Result<Vec<(String, String)>, ThemeError>)
    ensures
        match regex_group_pairs(css_variable_pattern(), css@) {
            None => r == Err::<Vec<(String, String)>, ThemeError>(ThemeError::InvalidPattern),
            Some(caps) => match oklch_entries(caps) {
                Some(e) => r matches Ok(v) && entry_views(v@) == e,
                None => r == Err::<Vec<(String, String)>, ThemeError>(ThemeError::MissingGroup),
            },
        },
{
    match capture_group_pairs("--([a-zA-Z0-9\\-]+):\\s*([^;]+);", css) {
        Ok(caps) => select_oklch(&caps),
        Err(_) => Err(ThemeError::InvalidPattern),
    }
}

/// The runs of characters without white space, in order (what `str::split_whitespace` gives).
pub open spec fn words(s: Seq<char>) -> Seq<Seq<char>>
    decreases s.len(),
{
    if s.len() == 0 {
        Seq::empty()
    } else {
        let w = words(s.drop_last());
        let c = s.last();
        if white_space(c) {
            w
        } else if s.len() >= 2 && !white_space(s[s.len() - 2]) {
            w.update(w.len() - 1, w.last().push(c))
        } else {
            w.push(seq![c])
        }
    }
}

/// The text without its trailing copies of `c`.
pub open spec fn strip_end_char(s: Seq<char>, c: char) -> Seq<char>
    decreases s.len(),
{
    if s.len() > 0 && s.last() == c {
        strip_end_char(s.drop_last(), c)
    } else {
        s
    }
}

/// The text without its trailing copies of "deg".
pub open spec fn strip_end_deg(s: Seq<char>) -> Seq<char>
    decreases s.len(),
{
    if s.len() >= 3 && s.subrange(s.len() - 3, s.len() as int) == "deg"@ {
        strip_end_deg(s.subrange(0, s.len() - 3))
    } else {
        s
    }
}

/// The text between "oklch(" and a final ")", if the value has that form.
pub open spec fn oklch_inner(v: Seq<char>) -> Option<Seq<char>> {
    if v.len() >= 7 && v.take(6) == "oklch("@ && v.last() == ')' {
        Some(v.subrange(6, v.len() - 1))
    } else {
        None
    }
}

/// The three fields of a value `oklch(L C H)`: the first three words inside the brackets,
/// each without trailing '%', the third also without trailing "deg"; `None` when the value
/// lacks the brackets or has fewer than three words.
pub open spec fn oklch_field_texts(v: Seq<char>) -> Option<(Seq<char>, Seq<char>, Seq<char>)> {
    match oklch_inner(v) {
        None => None,
        Some(inner) => {
            let ws = words(inner);
            if ws.len() < 3 {
                None
            } else {
                Some(
                    (
                        strip_end_char(ws[0], '%'),
                        strip_end_char(ws[1], '%'),
                        strip_end_deg(strip_end_char(ws[2], '%')),
                    ),
                )
            }
        },
    }
}

/// The words of the characters.
fn words_of(v: &Vec<char>) -> (r: Vec<Vec<char>>)
    ensures
        crate::layout::views(r@) == words(v@),
{
    let mut list: Vec<Vec<char>> = Vec::new();
    let mut cur: Vec<char> = Vec::new();
    let n = v.len();
    let mut i: usize = 0;
    assert(v@.take(0) =~= Seq::<char>::empty());
    assert(crate::layout::views(list@) =~= Seq::<Seq<char>>::empty());
    while i < n
        invariant
            n == v@.len(),
            i <= n,
            cur@.len() > 0 <==> (i > 0 && !white_space(v@[i - 1])),
            words(v@.take(i as int)) == if cur@.len() > 0 {
                crate::layout::views(list@).push(cur@)
            } else {
                crate::layout::views(list@)
            },
        decreases n - i,
    {
        let c = v[i];
        let ghost prev = v@.take(i as int);
        assert(v@.take(i + 1).drop_last() =~= prev);
        assert(v@.take(i + 1).last() == c);
        if i > 0 {
            assert(v@.take(i + 1)[i - 1] == v@[i - 1]);
        }
        if c.is_whitespace() {
            if cur.len() > 0 {
                let done = cur;
                let ghost dv = done@;
                let ghost lv = crate::layout::views(list@);
                list.push(done);
                assert(crate::layout::views(list@) =~= lv.push(dv));
                cur = Vec::new();
            }
        } else {
            let ghost lv = crate::layout::views(list@);
            let ghost cv = cur@;
            cur.push(c);
            proof {
                if cv.len() > 0 {
                    assert(lv.push(cv).update(lv.len() as int, cv.push(c)) =~= lv.push(cur@));
                } else {
                    assert(cur@ =~= seq![c]);
                }
            }
        }
        i = i + 1;
    }
    if cur.len() > 0 {
        list.push(cur);
    }
    assert(v@.take(n as int) =~= v@);
    assert(crate::layout::views(list@) =~= words(v@));
    list
}

/// The characters without trailing copies of `c`.
fn strip_end_char_exec(v: &Vec<char>, c: char) -> (r: Vec<char>)
    ensures
        r@ == strip_end_char(v@, c),
{
    let mut j: usize = v.len();
    assert(v@.take(j as int) =~= v@);
    while j > 0 && v[j - 1] == c
        invariant
            j <= v@.len(),
            strip_end_char(v@, c) == strip_end_char(v@.take(j as int), c),
        decreases j,
    {
        assert(v@.take(j as int).drop_last() =~= v@.take(j - 1));
        j = j - 1;
    }
    let mut r: Vec<char> = Vec::new();
    let mut k: usize = 0;
    while k < j
        invariant
            j <= v@.len(),
            k <= j,
            r@ == v@.take(k as int),
        decreases j - k,
    {
        r.push(v[k]);
        assert(v@.take(k + 1) =~= v@.take(k as int).push(v@[k as int]));
        k = k + 1;
    }
    r
}

proof fn lemma_no_deg_suffix(t: Seq<char>)
    requires
        !(t.len() >= 3 && t[t.len() - 3] == 'd' && t[t.len() - 2] == 'e' && t[t.len() - 1] == 'g'),
    ensures
        strip_end_deg(t) == t,
{
    reveal_strlit("deg");
    if t.len() >= 3 {
        let tail = t.subrange(t.len() - 3, t.len() as int);
        if tail == "deg"@ {
            assert(tail[0] == t[t.len() - 3]);
            assert(tail[1] == t[t.len() - 2]);
            assert(tail[2] == t[t.len() - 1]);
        }
    }
}

/// The characters without trailing copies of "deg".
fn strip_end_deg_exec(v: &Vec<char>) -> (r: Vec<char>)
    ensures
        r@ == strip_end_deg(v@),
{
    proof {
        reveal_strlit("deg");
    }
    let mut j: usize = v.len();
    assert(v@.take(j as int) =~= v@);
    while j >= 3 && v[j - 3] == 'd' && v[j - 2] == 'e' && v[j - 1] == 'g'
        invariant
            j <= v@.len(),
            strip_end_deg(v@) == strip_end_deg(v@.take(j as int)),
        decreases j,
    {
        proof {
            reveal_strlit("deg");
            let t = v@.take(j as int);
            assert(t.subrange(t.len() - 3, t.len() as int) =~= "deg"@);
            assert(t.subrange(0, t.len() - 3) =~= v@.take(j - 3));
        }
        j = j - 3;
    }
    proof {
        lemma_no_deg_suffix(v@.take(j as int));
    }
    let mut r: Vec<char> = Vec::new();
    let mut k: usize = 0;
    while k < j
        invariant
            j <= v@.len(),
            k <= j,
            r@ == v@.take(k as int),
        decreases j - k,
    {
        r.push(v[k]);
        assert(v@.take(k + 1) =~= v@.take(k as int).push(v@[k as int]));
        k = k + 1;
    }
    r
}

/// The three field texts of an "oklch(L C H)" color value (see `oklch_field_texts`).
pub fn oklch_fields(value: &str) -> (r: Option<(String, String, String)>)
    ensures
        match oklch_field_texts(value@) {
            None => r is None,
            Some((l, c, h)) => r matches Some(t) && t.0@ == l && t.1@ == c && t.2@ == h,
        },
{
    proof {
        reveal_strlit("oklch(");
    }
    let v = chars_of(value);
    let n = v.len();
    let prefixed = n >= 7 && v[0] == 'o' && v[1] == 'k' && v[2] == 'l' && v[3] == 'c' && v[4] == 'h'
        && v[5] == '(' && v[n - 1] == ')';
    if !prefixed {
        proof {
            if n >= 7 && v@.take(6) == "oklch("@ {
                assert(v@.take(6)[0] == v@[0]);
                assert(v@.take(6)[1] == v@[1]);
                assert(v@.take(6)[2] == v@[2]);
                assert(v@.take(6)[3] == v@[3]);
                assert(v@.take(6)[4] == v@[4]);
                assert(v@.take(6)[5] == v@[5]);
            }
        }
        return None;
    }
    assert(v@.take(6) =~= "oklch("@);
    let mut inner: Vec<char> = Vec::new();
    let mut k: usize = 6;
    while k < n - 1
        invariant
            n == v@.len(),
            n >= 7,
            6 <= k <= n - 1,
            inner@ == v@.subrange(6, k as int),
        decreases n - k,
    {
        inner.push(v[k]);
        assert(v@.subrange(6, k + 1) =~= v@.subrange(6, k as int).push(v@[k as int]));
        k = k + 1;
    }
    let parts = words_of(&inner);
    if parts.len() < 3 {
        return None;
    }
    assert(parts@[0]@ == words(inner@)[0]);
    assert(parts@[1]@ == words(inner@)[1]);
    assert(parts@[2]@ == words(inner@)[2]);
    let l = strip_end_char_exec(&parts[0], '%');
    let c = strip_end_char_exec(&parts[1], '%');
    let h0 = strip_end_char_exec(&parts[2], '%');
    let h = strip_end_deg_exec(&h0);
    Some((string_of(&l), string_of(&c), string_of(&h)))
}

proof fn lemma_trim_start(s: Seq<char>)
    ensures
        exists|i: int|
            0 <= i <= s.len() && trim_start(s) == s.skip(i) && (forall|j: int|
                0 <= j < i ==> white_space(#[trigger] s[j])) && (i < s.len() ==> !white_space(s[i])),
    decreases s.len(),
{
    if s.len() > 0 && white_space(s[0]) {
        let t = s.drop_first();
        lemma_trim_start(t);
        let i = choose|i: int|
            0 <= i <= t.len() && trim_start(t) == t.skip(i) && (forall|j: int|
                0 <= j < i ==> white_space(#[trigger] t[j])) && (i < t.len() ==> !white_space(t[i]));
        assert(t.skip(i) =~= s.skip(i + 1));
        assert forall|j: int| 0 <= j < i + 1 implies white_space(#[trigger] s[j]) by {
            if j > 0 {
                assert(s[j] == t[j - 1]);
            }
        }
    } else {
        assert(s.skip(0) =~= s);
    }
}

proof fn lemma_trim_end(s: Seq<char>)
    ensures
        exists|j: int|
            0 <= j <= s.len() && trim_end(s) == s.take(j) && (forall|m: int|
                j <= m < s.len() ==> white_space(#[trigger] s[m])) && (j > 0 ==> !white_space(s[j - 1])),
    decreases s.len(),
{
    if s.len() > 0 && white_space(s.last()) {
        let t = s.drop_last();
        lemma_trim_end(t);
        let j = choose|j: int|
            0 <= j <= t.len() && trim_end(t) == t.take(j) && (forall|m: int|
                j <= m < t.len() ==> white_space(#[trigger] t[m])) && (j > 0 ==> !white_space(t[j - 1]));
        assert(t.take(j) =~= s.take(j));
        assert forall|m: int| j <= m < s.len() implies white_space(#[trigger] s[m]) by {
            if m < t.len() {
                assert(s[m] == t[m]);
            }
        }
    } else {
        assert(s.take(s.len() as int) =~= s);
    }
}

/// Trimming keeps a stretch of the text and drops only white space around it: the result
/// is the text from some `i` to some `j`, everything before `i` and from `j` on is white
/// space, and the result neither starts nor ends with white space.
pub proof fn lemma_trimmed(s: Seq<char>)
    ensures
        exists|i: int, j: int|
            0 <= i <= j <= s.len() && trimmed(s) == s.subrange(i, j) && (forall|m: int|
                0 <= m < i || j <= m < s.len() ==> white_space(#[trigger] s[m])),
        trimmed(s).len() > 0 ==> !white_space(trimmed(s)[0]) && !white_space(trimmed(s).last()),
{
    lemma_trim_start(s);
    let i = choose|i: int|
        0 <= i <= s.len() && trim_start(s) == s.skip(i) && (forall|j: int|
            0 <= j < i ==> white_space(#[trigger] s[j])) && (i < s.len() ==> !white_space(s[i]));
    let u = s.skip(i);
    lemma_trim_end(u);
    let j = choose|j: int|
        0 <= j <= u.len() && trim_end(u) == u.take(j) && (forall|m: int|
            j <= m < u.len() ==> white_space(#[trigger] u[m])) && (j > 0 ==> !white_space(u[j - 1]));
    assert(u.take(j) =~= s.subrange(i, i + j));
    assert forall|m: int| 0 <= m < i || i + j <= m < s.len() implies white_space(#[trigger] s[m]) by {
        if m >= i + j {
            assert(s[m] == u[m - i]);
        }
    }
    if trimmed(s).len() > 0 {
        assert(trimmed(s)[0] == s[i]);
        assert(trimmed(s).last() == u[j - 1]);
    }
}

/// Every word is a nonempty run of characters none of which is white space.
pub proof fn lemma_words(s: Seq<char>)
    ensures
        forall|k: int|
            0 <= k < words(s).len() ==> (#[trigger] words(s)[k]).len() > 0 && forall|m: int|
                0 <= m < words(s)[k].len() ==> !white_space(#[trigger] words(s)[k][m]),
        s.len() > 0 && !white_space(s.last()) ==> words(s).len() > 0 && words(s).last().last() == s.last(),
    decreases s.len(),
{
    if s.len() > 0 {
        let t = s.drop_last();
        lemma_words(t);
        let w = words(t);
        let c = s.last();
        if !white_space(c) && s.len() >= 2 && !white_space(s[s.len() - 2]) {
            assert(t.last() == s[s.len() - 2]);
            let nw = w.update(w.len() - 1, w.last().push(c));
            assert forall|k: int| 0 <= k < nw.len() implies (#[trigger] nw[k]).len() > 0 && forall|m: int|
                0 <= m < nw[k].len() ==> !white_space(#[trigger] nw[k][m]) by {
                if k == w.len() - 1 {
                    assert forall|m: int| 0 <= m < nw[k].len() implies !white_space(#[trigger] nw[k][m]) by {
                        if m < w[k].len() {
                            assert(nw[k][m] == w[k][m]);
                        }
                    }
                } else {
                    assert(nw[k] == w[k]);
                }
            }
        } else if !white_space(c) {
            let nw = w.push(seq![c]);
            assert forall|k: int| 0 <= k < nw.len() implies (#[trigger] nw[k]).len() > 0 && forall|m: int|
                0 <= m < nw[k].len() ==> !white_space(#[trigger] nw[k][m]) by {
                if k < w.len() {
                    assert(nw[k] == w[k]);
                }
            }
        }
    }
}

/// The entries kept from the matches are exactly the matches whose value, without
/// surrounding white space, starts with "oklch", each with that trimmed value, in order.
pub proof fn lemma_oklch_entries(caps: Seq<(Option<Seq<char>>, Option<Seq<char>>)>)
    requires
        forall|i: int| 0 <= i < caps.len() ==> (#[trigger] caps[i]).0 is Some && caps[i].1 is Some,
    ensures
        oklch_entries(caps) is Some,
        forall|e: int|
            0 <= e < oklch_entries(caps).unwrap().len() ==> exists|i: int|
                0 <= i < caps.len() && caps[i].0 == Some((#[trigger] oklch_entries(caps).unwrap()[e]).0)
                    && oklch_entries(caps).unwrap()[e].1 == trimmed(caps[i].1.unwrap())
                    && has_prefix(oklch_entries(caps).unwrap()[e].1, "oklch"@),
        forall|i: int|
            0 <= i < caps.len() && has_prefix(trimmed((#[trigger] caps[i]).1.unwrap()), "oklch"@)
                ==> exists|e: int|
                0 <= e < oklch_entries(caps).unwrap().len() && oklch_entries(caps).unwrap()[e] == (
                    caps[i].0.unwrap(),
                    trimmed(caps[i].1.unwrap()),
                ),
    decreases caps.len(),
{
    if caps.len() > 0 {
        let init = caps.drop_last();
        assert forall|i: int| 0 <= i < init.len() implies (#[trigger] init[i]).0 is Some && init[i].1 is Some by {
            assert(init[i] == caps[i]);
        }
        lemma_oklch_entries(init);
        let prev = oklch_entries(init).unwrap();
        let last = caps.last();
        assert(caps[caps.len() - 1] == last);
        let cur = oklch_entries(caps).unwrap();
        assert forall|e: int| 0 <= e < cur.len() implies exists|i: int|
            0 <= i < caps.len() && caps[i].0 == Some((#[trigger] cur[e]).0) && cur[e].1 == trimmed(
                caps[i].1.unwrap(),
            ) && has_prefix(cur[e].1, "oklch"@) by {
            if e < prev.len() {
                assert(cur[e] == prev[e]);
                let i = choose|i: int|
                    0 <= i < init.len() && init[i].0 == Some((#[trigger] prev[e]).0) && prev[e].1 == trimmed(
                        init[i].1.unwrap(),
                    ) && has_prefix(prev[e].1, "oklch"@);
                assert(init[i] == caps[i]);
            }
        }
        assert forall|i: int|
            0 <= i < caps.len() && has_prefix(trimmed((#[trigger] caps[i]).1.unwrap()), "oklch"@) implies exists|e: int|
            0 <= e < cur.len() && cur[e] == (caps[i].0.unwrap(), trimmed(caps[i].1.unwrap())) by {
            if i < init.len() {
                assert(init[i] == caps[i]);
                let e = choose|e: int|
                    0 <= e < prev.len() && prev[e] == (init[i].0.unwrap(), trimmed(init[i].1.unwrap()));
                assert(cur[e] == prev[e]);
            } else {
                assert(cur[prev.len() as int] == (caps[i].0.unwrap(), trimmed(caps[i].1.unwrap())));
            }
        }
    }
}

} // verus!
