//! Line normalization: splitting source text on newlines and trimming each
//! line of leading and trailing white space.

use vstd::prelude::*;

verus! {

/// A character that trimming removes: the Unicode white-space set, the same
/// set that `str::trim` strips.
pub open spec fn is_space_char(c: char) -> bool {
    let u = c as u32;
    u == 0x09 || u == 0x0A || u == 0x0B || u == 0x0C || u == 0x0D || u == 0x20 || u == 0x85
        || u == 0xA0 || u == 0x1680 || (0x2000 <= u && u <= 0x200A) || u == 0x2028 || u == 0x2029
        || u == 0x202F || u == 0x205F || u == 0x3000
}

/// The first position at or after `i` where `c` occurs in `s`, or `s.len()`
/// when there is none.
pub open spec fn find_char(s: Seq<char>, c: char, i: int) -> int
    decreases s.len() - i,
{
    if i < 0 || i >= s.len() {
        s.len() as int
    } else if s[i] == c {
        i
    } else {
        find_char(s, c, i + 1)
    }
}

pub proof fn lemma_find_char(s: Seq<char>, c: char, i: int)
    requires
        0 <= i <= s.len(),
    ensures
        i <= find_char(s, c, i) <= s.len(),
        find_char(s, c, i) < s.len() ==> s[find_char(s, c, i)] == c,
        forall|j: int| i <= j < find_char(s, c, i) ==> s[j] != c,
    decreases s.len() - i,
{
    if i < s.len() && s[i] != c {
        lemma_find_char(s, c, i + 1);
    }
}

/// The first position at or after `i` holding a non-space character, or
/// `s.len()` when the rest of `s` is all white space.
pub open spec fn skip_spaces(s: Seq<char>, i: int) -> int
    decreases s.len() - i,
{
    if i < 0 || i >= s.len() {
        s.len() as int
    } else if is_space_char(s[i]) {
        skip_spaces(s, i + 1)
    } else {
        i
    }
}

/// One past the last non-space position strictly below `i`, or 0 when all of
/// `s` below `i` is white space.
pub open spec fn rskip_spaces(s: Seq<char>, i: int) -> int
    decreases i,
{
    if i <= 0 {
        0
    } else if is_space_char(s[i - 1]) {
        rskip_spaces(s, i - 1)
    } else {
        i
    }
}

pub proof fn lemma_skip_spaces(s: Seq<char>, i: int)
    requires
        0 <= i <= s.len(),
    ensures
        i <= skip_spaces(s, i) <= s.len(),
        skip_spaces(s, i) < s.len() ==> !is_space_char(s[skip_spaces(s, i)]),
        forall|j: int| i <= j < skip_spaces(s, i) ==> is_space_char(s[j]),
    decreases s.len() - i,
{
    if i < s.len() && is_space_char(s[i]) {
        lemma_skip_spaces(s, i + 1);
    }
}

pub proof fn lemma_rskip_spaces(s: Seq<char>, i: int)
    requires
        0 <= i <= s.len(),
    ensures
        0 <= rskip_spaces(s, i) <= i,
        rskip_spaces(s, i) > 0 ==> !is_space_char(s[rskip_spaces(s, i) - 1]),
        forall|j: int| rskip_spaces(s, i) <= j < i ==> is_space_char(s[j]),
    decreases i,
{
    if i > 0 && is_space_char(s[i - 1]) {
        lemma_rskip_spaces(s, i - 1);
    }
}

/// `s` with leading and trailing white space removed.
pub open spec fn trim_spec(s: Seq<char>) -> Seq<char> {
    let a = skip_spaces(s, 0);
    let b = rskip_spaces(s, s.len() as int);
    if a <= b {
        s.subrange(a, b)
    } else {
        Seq::empty()
    }
}

/// The pieces of `s` between occurrences of `sep`, in order. Splitting the
/// empty sequence yields one empty piece, as splitting on a delimiter does.
pub open spec fn split_at_char(s: Seq<char>, sep: char) -> Seq<Seq<char>>
    decreases s.len(),
{
    let p = find_char(s, sep, 0);
    if 0 <= p < s.len() {
        seq![s.subrange(0, p)] + split_at_char(s.subrange(p + 1, s.len() as int), sep)
    } else {
        seq![s]
    }
}

/// Each line of `lines`, trimmed.
pub open spec fn trim_all(lines: Seq<Seq<char>>) -> Seq<Seq<char>> {
    lines.map_values(|line: Seq<char>| trim_spec(line))
}

/// What `split_and_trim` yields: the source split on newlines, each line
/// trimmed, in source order.
pub open spec fn split_and_trim_spec(s: Seq<char>) -> Seq<Seq<char>> {
    trim_all(split_at_char(s, '\n'))
}

pub proof fn lemma_find_char_subrange(s: Seq<char>, c: char, i: int, j: int)
    requires
        0 <= i <= j <= s.len(),
    ensures
        find_char(s.subrange(i, s.len() as int), c, j - i) == find_char(s, c, j) - i,
    decreases s.len() - j,
{
    let t = s.subrange(i, s.len() as int);
    if j >= s.len() {
        assert(find_char(t, c, j - i) == t.len());
    } else if s[j] == c {
        assert(t[j - i] == c);
    } else {
        assert(t[j - i] != c);
        lemma_find_char_subrange(s, c, i, j + 1);
    }
}

/// How one splitting step relates the split of the tail of `s` from `i` on
/// to the split of the tail after the next separator.
pub proof fn lemma_split_at_char_step(s: Seq<char>, sep: char, i: int)
    requires
        0 <= i <= s.len(),
    ensures
        ({
            let p = find_char(s, sep, i);
            split_at_char(s.subrange(i, s.len() as int), sep) == (if p < s.len() {
                seq![s.subrange(i, p)] + split_at_char(s.subrange(p + 1, s.len() as int), sep)
            } else {
                seq![s.subrange(i, s.len() as int)]
            })
        }),
{
    let t = s.subrange(i, s.len() as int);
    lemma_find_char(s, sep, i);
    lemma_find_char_subrange(s, sep, i, i);
    let p = find_char(s, sep, i);
    let pt = find_char(t, sep, 0);
    assert(pt == p - i);
    if p < s.len() {
        assert(0 <= pt < t.len());
        assert(t.subrange(0, pt) =~= s.subrange(i, p));
        assert(t.subrange(pt + 1, t.len() as int) =~= s.subrange(p + 1, s.len() as int));
    } else {
        assert(pt == t.len());
    }
}

/// Splits `source` on newline characters and trims each resulting line.
pub fn split_and_trim<'a>(source: &'a str) -> (r: Vec<&'a str>)
    ensures
        r.deep_view() == split_and_trim_spec(source@),
{
    let n = source.unicode_len();
    let mut r: Vec<&'a str> = Vec::new();
    let mut i: usize = 0;
    proof {
        assert(source@.subrange(0, n as int) =~= source@);
        assert(r.deep_view() + split_and_trim_spec(source@) =~= split_and_trim_spec(source@));
    }
    loop
        invariant_except_break
            split_and_trim_spec(source@) == r.deep_view() + trim_all(
                split_at_char(source@.subrange(i as int, n as int), '\n'),
            ),
        invariant
            i <= n,
            n == source@.len(),
        ensures
            r.deep_view() == split_and_trim_spec(source@),
        decreases n - i,
    {
        let p = find_char_from(source, '\n', i, n);
        let line = source.substring_char(i, p);
        let t = trim_str(line, p - i);
        let ghost prev = r.deep_view();
        r.push(t);
        proof {
            assert(r.deep_view() =~= prev.push(t@));
            lemma_split_at_char_step(source@, '\n', i as int);
            if p < n {
                let rest = trim_all(split_at_char(source@.subrange(p + 1, n as int), '\n'));
                assert(trim_all(
                    seq![source@.subrange(i as int, p as int)] + split_at_char(
                        source@.subrange(p + 1, n as int),
                        '\n',
                    ),
                ) =~= seq![t@] + rest);
                assert(prev + (seq![t@] + rest) =~= prev.push(t@) + rest);
            } else {
                assert(trim_all(seq![source@.subrange(i as int, n as int)]) =~= seq![t@]);
                assert(prev + seq![t@] =~= prev.push(t@));
            }
        }
        if p == n {
            break;
        }
        i = p + 1;
    }
    r
}

/// Whether `c` is removed by trimming.
pub fn char_is_space(c: char) -> (r: bool)
    ensures
        r == is_space_char(c),
{
    let u = c as u32;
    u == 0x09 || u == 0x0A || u == 0x0B || u == 0x0C || u == 0x0D || u == 0x20 || u == 0x85
        || u == 0xA0 || u == 0x1680 || (0x2000 <= u && u <= 0x200A) || u == 0x2028 || u == 0x2029
        || u == 0x202F || u == 0x205F || u == 0x3000
}

/// The first position at or after `from` where `c` occurs in `s`, or `n`,
/// the length of `s`, when there is none.
pub fn find_char_from(s: &str, c: char, from: usize, n: usize) -> (p: usize)
    requires
        n == s@.len(),
        from <= n,
    ensures
        p == find_char(s@, c, from as int),
        from <= p <= n,
        p < n ==> s@[p as int] == c,
        forall|j: int| from <= j < p ==> s@[j] != c,
{
    let mut j = from;
    while j < n && s.get_char(j) != c
        invariant
            from <= j <= n,
            n == s@.len(),
            find_char(s@, c, from as int) == find_char(s@, c, j as int),
        decreases n - j,
    {
        j += 1;
    }
    proof {
        lemma_find_char(s@, c, from as int);
    }
    j
}

/// Whether two strings hold the same characters.
pub fn str_eq(a: &str, b: &str) -> (r: bool)
    ensures
        r == (a@ == b@),
{
    let na = a.unicode_len();
    let nb = b.unicode_len();
    if na != nb {
        return false;
    }
    let mut j: usize = 0;
    while j < na
        invariant
            j <= na,
            na == a@.len(),
            na == b@.len(),
            forall|k: int| 0 <= k < j ==> a@[k] == b@[k],
        decreases na - j,
    {
        if a.get_char(j) != b.get_char(j) {
            return false;
        }
        j += 1;
    }
    proof {
        assert(a@ =~= b@);
    }
    true
}

/// `s` without leading or trailing white space, as a borrowed substring;
/// `n` is the character length of `s`.
pub fn trim_str<'a>(s: &'a str, n: usize) -> (r: &'a str)
    requires
        n == s@.len(),
    ensures
        r@ == trim_spec(s@),
{
    let mut a: usize = 0;
    while a < n && char_is_space(s.get_char(a))
        invariant
            a <= n,
            n == s@.len(),
            skip_spaces(s@, 0) == skip_spaces(s@, a as int),
        decreases n - a,
    {
        a += 1;
    }
    assert(a as int == skip_spaces(s@, 0));
    let mut b: usize = n;
    while b > a && char_is_space(s.get_char(b - 1))
        invariant
            a <= b <= n,
            n == s@.len(),
            a as int == skip_spaces(s@, 0),
            a < n ==> !is_space_char(s@[a as int]),
            a < n ==> b > a,
            rskip_spaces(s@, n as int) == rskip_spaces(s@, b as int),
        decreases b,
    {
        b -= 1;
    }
    proof {
        lemma_skip_spaces(s@, 0);
        lemma_rskip_spaces(s@, n as int);
        if a < n {
            assert(!is_space_char(s@[b - 1]));
            assert(rskip_spaces(s@, b as int) == b as int);
            assert(trim_spec(s@) == s@.subrange(a as int, b as int));
        } else {
            assert(a == n && b == n);
            let bs = rskip_spaces(s@, n as int);
            if bs > 0 {
                assert(is_space_char(s@[bs - 1]));
                assert(false);
            }
            assert(s@.subrange(n as int, n as int) =~= trim_spec(s@));
        }
    }
    s.substring_char(a, b)
}

} // verus!
