//! Character-level helpers on strings, each stated over `Seq<char>`.
use vstd::prelude::*;

verus! {

/// The characters with the Unicode `White_Space` property.
pub open spec fn is_white_space_spec(c: char) -> bool {
    ('\u{9}' <= c && c <= '\u{d}') || c == ' ' || c == '\u{85}' || c == '\u{a0}'
        || c == '\u{1680}' || ('\u{2000}' <= c && c <= '\u{200a}') || c == '\u{2028}'
        || c == '\u{2029}' || c == '\u{202f}' || c == '\u{205f}' || c == '\u{3000}'
}

/// `s` without its leading white space.
pub open spec fn trim_start(s: Seq<char>) -> Seq<char>
    decreases s.len(),
{
    if s.len() > 0 && is_white_space_spec(s[0]) {
        trim_start(s.drop_first())
    } else {
        s
    }
}

/// `s` without its trailing white space.
pub open spec fn trim_end(s: Seq<char>) -> Seq<char>
    decreases s.len(),
{
    if s.len() > 0 && is_white_space_spec(s.last()) {
        trim_end(s.drop_last())
    } else {
        s
    }
}

/// `s` without leading and trailing white space.
pub open spec fn trimmed(s: Seq<char>) -> Seq<char> {
    trim_end(trim_start(s))
}

/// Index of the first `c` in `s`, or `s.len()` when there is none.
pub open spec fn index_of(s: Seq<char>, c: char) -> int
    decreases s.len(),
{
    if s.len() == 0 {
        0
    } else if s[0] == c {
        0
    } else {
        1 + index_of(s.drop_first(), c)
    }
}

/// Every non-overlapping occurrence of `pat` in `s`, found left to right,
/// replaced by `rep`.
pub open spec fn replace_all(s: Seq<char>, pat: Seq<char>, rep: Seq<char>) -> Seq<char>
    decreases s.len(),
{
    if pat.len() == 0 || s.len() < pat.len() {
        s
    } else if s.subrange(0, pat.len() as int) == pat {
        rep + replace_all(s.subrange(pat.len() as int, s.len() as int), pat, rep)
    } else {
        seq![s[0]] + replace_all(s.drop_first(), pat, rep)
    }
}

pub fn is_white_space(c: char) -> (r: bool)
    ensures
        r == is_white_space_spec(c),
{
    ('\u{9}' <= c && c <= '\u{d}') || c == ' ' || c == '\u{85}' || c == '\u{a0}'
        || c == '\u{1680}' || ('\u{2000}' <= c && c <= '\u{200a}') || c == '\u{2028}'
        || c == '\u{2029}' || c == '\u{202f}' || c == '\u{205f}' || c == '\u{3000}'
}

proof fn lemma_trim_end_stops(s: Seq<char>, j: int)
    requires
        0 <= j <= s.len(),
        forall|k: int| j <= k < s.len() ==> is_white_space_spec(#[trigger] s[k]),
    ensures
        trim_end(s) == trim_end(s.subrange(0, j)),
    decreases s.len() - j,
{
    if j < s.len() {
        assert(s.drop_last() == s.subrange(0, s.len() - 1));
        lemma_trim_end_stops(s.drop_last(), j);
        assert(s.drop_last().subrange(0, j) == s.subrange(0, j));
    } else {
        assert(s.subrange(0, j) == s);
    }
}

/// `s` with leading and trailing white space removed.
pub fn trim(s: &str) -> (r: String)
    ensures
        r@ == trimmed(s@),
{
    let n = s.unicode_len();
    let mut i: usize = 0;
    assert(s@.subrange(0, n as int) == s@);
    while i < n && is_white_space(s.get_char(i))
        invariant
            n == s@.len(),
            i <= n,
            trim_start(s@) == trim_start(s@.subrange(i as int, n as int)),
        decreases n - i,
    {
        assert(s@.subrange(i as int, n as int).drop_first() == s@.subrange(i + 1, n as int));
        i = i + 1;
    }
    assert(trim_start(s@) == s@.subrange(i as int, n as int));
    let mut j: usize = n;
    while j > i && is_white_space(s.get_char(j - 1))
        invariant
            n == s@.len(),
            i <= j <= n,
            forall|k: int| j <= k < n ==> is_white_space_spec(#[trigger] s@[k]),
        decreases j,
    {
        j = j - 1;
    }
    proof {
        let t = s@.subrange(i as int, n as int);
        assert forall|k: int| (j - i) <= k < t.len() implies is_white_space_spec(#[trigger] t[k]) by {
            assert(t[k] == s@[k + i]);
        }
        lemma_trim_end_stops(t, j - i);
        let u = t.subrange(0, j - i);
        assert(u == s@.subrange(i as int, j as int));
        if u.len() > 0 {
            assert(u.last() == s@[j - 1]);
        }
        assert(trim_end(u) == u);
    }
    String::from_str(s.substring_char(i, j))
}

/// Index, in characters, of the first space of `s`; its length when there is none.
pub fn first_space(s: &str) -> (r: usize)
    ensures
        r == index_of(s@, ' '),
{
    let n = s.unicode_len();
    let mut i: usize = 0;
    assert(s@.subrange(0, n as int) == s@);
    while i < n && s.get_char(i) != ' '
        invariant
            n == s@.len(),
            i <= n,
            index_of(s@, ' ') == i + index_of(s@.subrange(i as int, n as int), ' '),
        decreases n - i,
    {
        assert(s@.subrange(i as int, n as int).drop_first() == s@.subrange(i + 1, n as int));
        i = i + 1;
    }
    i
}

/// Whether two strings hold the same characters.
pub fn same_text(a: &str, b: &str) -> (r: bool)
    ensures
        r == (a@ == b@),
{
    let n = a.unicode_len();
    if n != b.unicode_len() {
        return false;
    }
    let mut i: usize = 0;
    while i < n
        invariant
            n == a@.len(),
            n == b@.len(),
            i <= n,
            forall|k: int| 0 <= k < i ==> a@[k] == b@[k],
        decreases n - i,
    {
        if a.get_char(i) != b.get_char(i) {
            return false;
        }
        i = i + 1;
    }
    assert(a@ == b@);
    true
}

/// `s` with every non-overlapping occurrence of `pat`, left to right,
/// replaced by `rep`.
pub fn replace_literal(s: &str, pat: &str, rep: &str) -> (r: String)
    ensures
        r@ == replace_all(s@, pat@, rep@),
{
    let n = s.unicode_len();
    let m = pat.unicode_len();
    let mut out = String::new();
    if m == 0 {
        out.append(s);
        return out;
    }
    let mut i: usize = 0;
    assert(s@.subrange(0, n as int) == s@);
    while i < n
        invariant
            n == s@.len(),
            m == pat@.len(),
            m > 0,
            i <= n,
            out@ + replace_all(s@.subrange(i as int, n as int), pat@, rep@)
                == replace_all(s@, pat@, rep@),
        decreases n - i,
    {
        let ghost rest = s@.subrange(i as int, n as int);
        if n - i < m {
            assert(replace_all(rest, pat@, rep@) == rest);
            out.append(s.substring_char(i, n));
            i = n;
            assert(s@.subrange(i as int, n as int) == Seq::<char>::empty());
            assert(replace_all(Seq::<char>::empty(), pat@, rep@) == Seq::<char>::empty());
            assert(out@ + Seq::<char>::empty() == out@);
        } else {
            let cand = s.substring_char(i, i + m);
            assert(cand@ == rest.subrange(0, m as int));
            if same_text(cand, pat) {
                assert(rest.subrange(m as int, rest.len() as int) == s@.subrange(i + m, n as int));
                out.append(rep);
                i = i + m;
            } else {
                assert(rest.drop_first() == s@.subrange(i + 1, n as int));
                assert(s@.subrange(i as int, i + 1) == seq![rest[0]]);
                out.append(s.substring_char(i, i + 1));
                i = i + 1;
            }
        }
    }
    assert(s@.subrange(n as int, n as int) == Seq::<char>::empty());
    assert(replace_all(Seq::<char>::empty(), pat@, rep@) == Seq::<char>::empty());
    assert(out@ + Seq::<char>::empty() == out@);
    out
}

/// The first space of `a + [' '] + b`, where `a` holds none, is at `a.len()`;
/// a sequence without a space has its first one at its length.
pub proof fn lemma_index_of_space(a: Seq<char>, b: Seq<char>)
    ensures
        !a.contains(' ') ==> index_of(a + seq![' '] + b, ' ') == a.len(),
        !a.contains(' ') ==> index_of(a, ' ') == a.len(),
    decreases a.len(),
{
    if a.len() > 0 && !a.contains(' ') {
        let t = a.drop_first();
        assert(!t.contains(' ')) by {
            if t.contains(' ') {
                let k = choose|k: int| 0 <= k < t.len() && t[k] == ' ';
                assert(a[k + 1] == ' ');
            }
        }
        lemma_index_of_space(t, b);
        assert((a + seq![' '] + b).drop_first() =~= t + seq![' '] + b);
        assert(a[0] != ' ');
    }
    if a.len() == 0 {
        assert((a + seq![' '] + b)[0] == ' ');
    }
}

} // verus!
