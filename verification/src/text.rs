//! Text building blocks shared by the prompt and transcript builders:
//! decimal rendering of integers, joining with a separator, and trimming of
//! Unicode white space.

use vstd::prelude::*;

verus! {

/// The character of a decimal digit.
pub open spec fn digit_char(d: nat) -> char {
    if d == 0 {
        '0'
    } else if d == 1 {
        '1'
    } else if d == 2 {
        '2'
    } else if d == 3 {
        '3'
    } else if d == 4 {
        '4'
    } else if d == 5 {
        '5'
    } else if d == 6 {
        '6'
    } else if d == 7 {
        '7'
    } else if d == 8 {
        '8'
    } else {
        '9'
    }
}

/// The decimal representation of `n`, without sign or leading zeros.
pub open spec fn decimal(n: nat) -> Seq<char>
    decreases n,
{
    if n < 10 {
        seq![digit_char(n)]
    } else {
        decimal(n / 10).push(digit_char(n % 10))
    }
}

fn digit_str(d: u64) -> (r: &'static str)
    requires
        d < 10,
    ensures
        r@ == seq![digit_char(d as nat)],
{
    if d == 0 {
        proof { reveal_strlit("0"); }
        "0"
    } else if d == 1 {
        proof { reveal_strlit("1"); }
        "1"
    } else if d == 2 {
        proof { reveal_strlit("2"); }
        "2"
    } else if d == 3 {
        proof { reveal_strlit("3"); }
        "3"
    } else if d == 4 {
        proof { reveal_strlit("4"); }
        "4"
    } else if d == 5 {
        proof { reveal_strlit("5"); }
        "5"
    } else if d == 6 {
        proof { reveal_strlit("6"); }
        "6"
    } else if d == 7 {
        proof { reveal_strlit("7"); }
        "7"
    } else if d == 8 {
        proof { reveal_strlit("8"); }
        "8"
    } else {
        proof { reveal_strlit("9"); }
        "9"
    }
}

/// Appends the decimal representation of `n` to `out`.
pub fn push_decimal(out: &mut String, n: u64)
    ensures
        final(out)@ == old(out)@ + decimal(n as nat),
    decreases n,
{
    if n < 10 {
        out.append(digit_str(n));
    } else {
        push_decimal(out, n / 10);
        out.append(digit_str(n % 10));
        assert(decimal(n as nat) == decimal((n / 10) as nat).push(digit_char((n % 10) as nat)));
    }
}


/// Whether `c` has the Unicode `White_Space` property, the notion of white
/// space that `str::trim` and `char::is_whitespace` use.
pub open spec fn is_white_space(c: char) -> bool {
    let u = c as u32;
    ||| 0x09 <= u <= 0x0d
    ||| u == 0x20
    ||| u == 0x85
    ||| u == 0xa0
    ||| u == 0x1680
    ||| 0x2000 <= u <= 0x200a
    ||| u == 0x2028
    ||| u == 0x2029
    ||| u == 0x202f
    ||| u == 0x205f
    ||| u == 0x3000
}

/// Executable test for [`is_white_space`].
pub fn char_is_white_space(c: char) -> (r: bool)
    ensures
        r == is_white_space(c),
{
    let u = c as u32;
    (0x09 <= u && u <= 0x0d) || u == 0x20 || u == 0x85 || u == 0xa0 || u == 0x1680 || (0x2000 <= u
        && u <= 0x200a) || u == 0x2028 || u == 0x2029 || u == 0x202f || u == 0x205f || u == 0x3000
}

/// `s[i..j]` is what remains of `s` once leading and trailing white space is
/// removed.
pub open spec fn trims_to(s: Seq<char>, i: int, j: int) -> bool {
    &&& 0 <= i <= j <= s.len()
    &&& forall|k: int| 0 <= k < i ==> is_white_space(#[trigger] s[k])
    &&& forall|k: int| j <= k < s.len() ==> is_white_space(#[trigger] s[k])
    &&& i < j ==> !is_white_space(s[i]) && !is_white_space(s[j - 1])
}

/// `s` without its leading and trailing white space.
pub open spec fn trimmed(s: Seq<char>) -> Seq<char> {
    let (i, j) = choose|i: int, j: int| trims_to(s, i, j);
    s.subrange(i, j)
}

proof fn lemma_trims_to_unique(s: Seq<char>, i: int, j: int, i2: int, j2: int)
    requires
        trims_to(s, i, j),
        trims_to(s, i2, j2),
    ensures
        s.subrange(i, j) == s.subrange(i2, j2),
{
    if i < j {
        assert(!is_white_space(s[i]));
        if i2 < j2 {
            assert(!is_white_space(s[i2]));
            if i2 < i {
                assert(is_white_space(s[i2]));
            }
            if i < i2 {
                assert(is_white_space(s[i]));
            }
            assert(!is_white_space(s[j2 - 1]));
            if j2 < j {
                assert(is_white_space(s[j - 1]));
            }
            if j < j2 {
                assert(is_white_space(s[j2 - 1]));
            }
        } else {
            if i < i2 {
                assert(is_white_space(s[i]));
            } else {
                assert(is_white_space(s[i]));
            }
        }
    } else {
        if i2 < j2 {
            assert(!is_white_space(s[i2]));
            if i2 < i {
                assert(is_white_space(s[i2]));
            } else {
                assert(is_white_space(s[i2]));
            }
        }
        assert(s.subrange(i, j) =~= s.subrange(i2, j2));
    }
}

/// A witness `(i, j)` of [`trims_to`] fixes [`trimmed`].
pub proof fn lemma_trimmed(s: Seq<char>, i: int, j: int)
    requires
        trims_to(s, i, j),
    ensures
        trimmed(s) == s.subrange(i, j),
{
    let (a, b) = choose|a: int, b: int| trims_to(s, a, b);
    lemma_trims_to_unique(s, a, b, i, j);
}

/// `s` with leading and trailing white space removed, as `str::trim` does.
pub fn trim(s: &str) -> (r: &str)
    ensures
        r@ == trimmed(s@),
{
    let n = s.unicode_len();
    let mut i: usize = 0;
    while i < n
        invariant
            i <= n,
            n == s@.len(),
            forall|k: int| 0 <= k < i ==> is_white_space(#[trigger] s@[k]),
        ensures
            i <= n,
            forall|k: int| 0 <= k < i ==> is_white_space(#[trigger] s@[k]),
            i < n ==> !is_white_space(s@[i as int]),
        decreases n - i,
    {
        if !char_is_white_space(s.get_char(i)) {
            break;
        }
        i += 1;
    }
    let mut j: usize = n;
    while j > i
        invariant
            i <= j <= n,
            n == s@.len(),
            forall|k: int| j <= k < n ==> is_white_space(#[trigger] s@[k]),
        ensures
            i <= j <= n,
            forall|k: int| j <= k < n ==> is_white_space(#[trigger] s@[k]),
            i < j ==> !is_white_space(s@[j - 1]),
        decreases j,
    {
        if !char_is_white_space(s.get_char(j - 1)) {
            break;
        }
        j -= 1;
    }
    proof {
        lemma_trimmed(s@, i as int, j as int);
    }
    s.substring_char(i, j)
}

/// `parts` joined with `sep` between consecutive parts, as `[String]::join`
/// does.
pub open spec fn joined(parts: Seq<Seq<char>>, sep: Seq<char>) -> Seq<char>
    decreases parts.len(),
{
    if parts.len() == 0 {
        Seq::empty()
    } else if parts.len() == 1 {
        parts[0]
    } else {
        joined(parts.drop_last(), sep) + sep + parts.last()
    }
}

/// The character sequences of a list of strings.
pub open spec fn views(v: Seq<String>) -> Seq<Seq<char>> {
    v.map_values(|s: String| s@)
}

/// `parts` joined with `sep`.
pub fn join(parts: &[String], sep: &str) -> (r: String)
    ensures
        r@ == joined(views(parts@), sep@),
{
    let mut r = String::new();
    push_joined(&mut r, parts, sep);
    r
}

/// Appends `parts` joined with `sep` to `out`.
pub fn push_joined(out: &mut String, parts: &[String], sep: &str)
    ensures
        final(out)@ == old(out)@ + joined(views(parts@), sep@),
{
    let ghost start = out@;
    let ghost all = views(parts@);
    let mut i: usize = 0;
    while i < parts.len()
        invariant
            i <= parts@.len(),
            all == views(parts@),
            out@ == start + joined(all.take(i as int), sep@),
        decreases parts@.len() - i,
    {
        proof {
            assert(all.take(i + 1).drop_last() =~= all.take(i as int));
            assert(all.take(i + 1).last() == parts@[i as int]@);
        }
        if i > 0 {
            out.append(sep);
        } else {
            assert(all.take(1) =~= seq![parts@[0]@]);
        }
        out.append(parts[i].as_str());
        i += 1;
    }
    assert(all.take(parts@.len() as int) =~= all);
}


/// `s` starts with `p`.
pub open spec fn starts_with(s: Seq<char>, p: Seq<char>) -> bool {
    p.len() <= s.len() && s.take(p.len() as int) == p
}

/// `s` ends with `p`.
pub open spec fn ends_with(s: Seq<char>, p: Seq<char>) -> bool {
    p.len() <= s.len() && s.skip(s.len() - p.len()) == p
}

/// `s[..i]` is the longest prefix of `s` made only of `c`.
pub open spec fn leading_run(s: Seq<char>, c: char, i: int) -> bool {
    &&& 0 <= i <= s.len()
    &&& forall|k: int| 0 <= k < i ==> #[trigger] s[k] == c
    &&& i < s.len() ==> s[i] != c
}

/// `s[j..]` is the longest suffix of `s` made only of `c`.
pub open spec fn trailing_run(s: Seq<char>, c: char, j: int) -> bool {
    &&& 0 <= j <= s.len()
    &&& forall|k: int| j <= k < s.len() ==> #[trigger] s[k] == c
    &&& j > 0 ==> s[j - 1] != c
}

/// `s` with every leading `c` removed, as `str::trim_start_matches(c)` does.
pub open spec fn without_leading(s: Seq<char>, c: char) -> Seq<char> {
    s.skip(choose|i: int| leading_run(s, c, i))
}

/// `s` with every trailing `c` removed, as `str::trim_end_matches(c)` does.
pub open spec fn without_trailing(s: Seq<char>, c: char) -> Seq<char> {
    s.take(choose|j: int| trailing_run(s, c, j))
}

pub proof fn lemma_without_leading(s: Seq<char>, c: char, i: int)
    requires
        leading_run(s, c, i),
    ensures
        without_leading(s, c) == s.skip(i),
{
    let a = choose|a: int| leading_run(s, c, a);
    if a < i {
        assert(s[a] == c);
    }
    if i < a {
        assert(s[i] == c);
    }
}

pub proof fn lemma_without_trailing(s: Seq<char>, c: char, j: int)
    requires
        trailing_run(s, c, j),
    ensures
        without_trailing(s, c) == s.take(j),
{
    let b = choose|b: int| trailing_run(s, c, b);
    if b < j {
        assert(s[j - 1] == c);
    }
    if j < b {
        assert(s[b - 1] == c);
    }
}

/// Whether `s` (of `n` characters) holds `p` at position `at`.
pub fn matches_at(s: &str, n: usize, at: usize, p: &[char]) -> (r: bool)
    requires
        n == s@.len(),
    ensures
        r == (at + p@.len() <= n && s@.subrange(at as int, at + p@.len()) == p@),
{
    if at > n || p.len() > n - at {
        return false;
    }
    let mut k: usize = 0;
    while k < p.len()
        invariant
            k <= p@.len(),
            at + p@.len() <= n,
            n == s@.len(),
            forall|m: int| 0 <= m < k ==> s@[at + m] == p@[m],
        decreases p@.len() - k,
    {
        if s.get_char(at + k) != p[k] {
            assert(s@.subrange(at as int, at + p@.len())[k as int] != p@[k as int]);
            return false;
        }
        k += 1;
    }
    assert(s@.subrange(at as int, at + p@.len()) =~= p@);
    true
}

} // verus!
