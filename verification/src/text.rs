//! Character sequences: the operations on text that the protocol needs, with
//! their meaning stated over `Seq<char>`.

use vstd::prelude::*;

verus! {

/// `pat` stands in `s` at position `i`.
pub open spec fn occurs_at(s: Seq<char>, pat: Seq<char>, i: int) -> bool {
    0 <= i && i + pat.len() <= s.len() && s.subrange(i, i + pat.len()) == pat
}

/// `pat` stands in `s` at position `i` and nowhere before it.
pub open spec fn is_first_occurrence(s: Seq<char>, pat: Seq<char>, i: int) -> bool {
    occurs_at(s, pat, i) && forall|j: int| 0 <= j < i ==> !#[trigger] occurs_at(s, pat, j)
}

/// The position of the leftmost occurrence of `pat` in `s`.
pub open spec fn first_occurrence(s: Seq<char>, pat: Seq<char>) -> Option<int> {
    if exists|i: int| is_first_occurrence(s, pat, i) {
        Some(choose|i: int| is_first_occurrence(s, pat, i))
    } else {
        None
    }
}

/// What stands before and after the leftmost occurrence of `pat` in `s`.
pub open spec fn split_once_spec(s: Seq<char>, pat: Seq<char>) -> Option<(Seq<char>, Seq<char>)> {
    match first_occurrence(s, pat) {
        Some(i) => Some((s.take(i), s.skip(i + pat.len()))),
        None => None,
    }
}

/// The characters with the Unicode property `White_Space`.
pub open spec fn whitespace(c: char) -> bool {
    let n = c as u32;
    ||| 0x09 <= n <= 0x0d
    ||| n == 0x20
    ||| n == 0x85
    ||| n == 0xa0
    ||| n == 0x1680
    ||| 0x2000 <= n <= 0x200a
    ||| n == 0x2028
    ||| n == 0x2029
    ||| n == 0x202f
    ||| n == 0x205f
    ||| n == 0x3000
}

/// `s` without its leading white space.
pub open spec fn trim_start_spec(s: Seq<char>) -> Seq<char>
    decreases s.len(),
{
    if s.len() > 0 && whitespace(s[0]) {
        trim_start_spec(s.skip(1))
    } else {
        s
    }
}

/// `s` without its trailing white space.
pub open spec fn trim_end_spec(s: Seq<char>) -> Seq<char>
    decreases s.len(),
{
    if s.len() > 0 && whitespace(s.last()) {
        trim_end_spec(s.drop_last())
    } else {
        s
    }
}

/// `s` without leading and trailing white space.
pub open spec fn trim_spec(s: Seq<char>) -> Seq<char> {
    trim_end_spec(trim_start_spec(s))
}

/// `s` without the line feed that may end it.
pub open spec fn strip_newline(s: Seq<char>) -> Seq<char> {
    if s.len() > 0 && s.last() == '\n' {
        s.drop_last()
    } else {
        s
    }
}

/// `s` without the carriage return that may end it.
pub open spec fn strip_cr(s: Seq<char>) -> Seq<char> {
    if s.len() > 0 && s.last() == '\r' {
        s.drop_last()
    } else {
        s
    }
}

/// The lines of a text. A line ends with a line feed, which does not belong
/// to it, nor does a carriage return just before that line feed. What
/// follows the last line feed is a line too, unless it is empty.
pub open spec fn lines_spec(s: Seq<char>) -> Seq<Seq<char>>
    decreases s.len(),
{
    if s.len() == 0 {
        Seq::empty()
    } else {
        match first_occurrence(s, seq!['\n']) {
            Some(i) => if 0 <= i < s.len() {
                seq![strip_cr(s.take(i))] + lines_spec(s.skip(i + 1))
            } else {
                seq![s]
            },
            None => seq![s],
        }
    }
}

/// The texts that a vector of character vectors holds.
pub open spec fn views(v: Seq<Vec<char>>) -> Seq<Seq<char>> {
    Seq::new(v.len(), |i: int| v[i]@)
}

/// An occurrence with none before it is the leftmost one.
pub proof fn lemma_first_occurrence(s: Seq<char>, pat: Seq<char>, i: int)
    requires
        is_first_occurrence(s, pat, i),
    ensures
        first_occurrence(s, pat) == Some(i),
{
    let c = choose|c: int| is_first_occurrence(s, pat, c);
    if c < i {
        assert(!occurs_at(s, pat, c));
    } else if i < c {
        assert(!occurs_at(s, pat, i));
    }
}

/// The leftmost occurrence is an occurrence with none before it.
pub proof fn lemma_first_occurrence_found(s: Seq<char>, pat: Seq<char>, i: int)
    requires
        first_occurrence(s, pat) == Some(i),
    ensures
        is_first_occurrence(s, pat, i),
{
    let c = choose|c: int| is_first_occurrence(s, pat, c);
    assert(is_first_occurrence(s, pat, c));
}

/// Where `pat` stands nowhere, there is no leftmost occurrence.
pub proof fn lemma_no_occurrence(s: Seq<char>, pat: Seq<char>)
    requires
        forall|j: int| !#[trigger] occurs_at(s, pat, j),
    ensures
        first_occurrence(s, pat) is None,
{
}

/// Where `pat` stands at a position, its first character stands there.
pub proof fn lemma_occurrence_starts(s: Seq<char>, pat: Seq<char>, j: int)
    requires
        occurs_at(s, pat, j),
        pat.len() > 0,
    ensures
        s[j] == pat[0],
{
    assert(s.subrange(j, j + pat.len())[0] == s[j]);
}

/// A text put together from `a`, `pat` and `b` splits into `a` and `b` again,
/// where `pat` does not stand in it before the end of `a`.
pub proof fn lemma_split_once_concat(a: Seq<char>, pat: Seq<char>, b: Seq<char>)
    requires
        forall|j: int| 0 <= j < a.len() ==> !#[trigger] occurs_at(a + pat + b, pat, j),
    ensures
        split_once_spec(a + pat + b, pat) == Some((a, b)),
{
    let s = a + pat + b;
    assert(s.subrange(a.len() as int, (a.len() + pat.len()) as int) == pat);
    lemma_first_occurrence(s, pat, a.len() as int);
    assert(s.take(a.len() as int) == a);
    assert(s.skip((a.len() + pat.len()) as int) == b);
}

/// Appends one character to a string. Trusted: `String::push` puts the
/// character at the end and leaves the rest as it was.
#[verifier::external_body]
pub(crate) fn push_char(s: &mut String, c: char)
    ensures
        final(s)@ == old(s)@.push(c),
{
    s.push(c)
}

/// The characters of a string, in order.
pub fn to_chars(s: &str) -> (v: Vec<char>)
    ensures
        v@ == s@,
{
    let mut v: Vec<char> = Vec::new();
    for c in it: s.chars()
        invariant
            v@ == it.seq().take(it.index() as int),
            it.seq() == s@,
    {
        v.push(c);
    }
    v
}

/// The string made of the given characters.
pub fn string_of(v: &[char]) -> (s: String)
    ensures
        s@ == v@,
{
    let mut s = String::new();
    let mut i: usize = 0;
    while i < v.len()
        invariant
            i <= v@.len(),
            s@ == v@.take(i as int),
        decreases v@.len() - i,
    {
        push_char(&mut s, v[i]);
        i += 1;
    }
    s
}

/// The characters of `v` from position `from` up to, not including, `to`.
pub fn subrange(v: &[char], from: usize, to: usize) -> (r: Vec<char>)
    requires
        from <= to <= v@.len(),
    ensures
        r@ == v@.subrange(from as int, to as int),
{
    let mut r: Vec<char> = Vec::new();
    let mut i: usize = from;
    while i < to
        invariant
            from <= i <= to <= v@.len(),
            r@ == v@.subrange(from as int, i as int),
        decreases to - i,
    {
        r.push(v[i]);
        i += 1;
    }
    r
}

/// Whether `pat` stands in `s` at position `i`.
pub fn matches_at(s: &[char], pat: &[char], i: usize) -> (r: bool)
    ensures
        r == occurs_at(s@, pat@, i as int),
{
    if pat.len() > s.len() || i > s.len() - pat.len() {
        return false;
    }
    let mut k: usize = 0;
    while k < pat.len()
        invariant
            k <= pat@.len(),
            i + pat@.len() <= s@.len() <= usize::MAX,
            s@.subrange(i as int, i + k) == pat@.take(k as int),
        decreases pat@.len() - k,
    {
        if s[i + k] != pat[k] {
            assert(s@.subrange(i as int, i + pat@.len())[k as int] != pat@[k as int]);
            return false;
        }
        assert(s@.subrange(i as int, i + k + 1) == s@.subrange(i as int, i + k).push(s@[i + k]));
        assert(pat@.take(k + 1) == pat@.take(k as int).push(pat@[k as int]));
        k += 1;
    }
    assert(pat@.take(pat@.len() as int) == pat@);
    true
}

/// Whether `a` and `b` hold the same characters.
pub fn equal(a: &[char], b: &[char]) -> (r: bool)
    ensures
        r == (a@ == b@),
{
    if a.len() != b.len() {
        return false;
    }
    let r = matches_at(a, b, 0);
    assert(a@.subrange(0, a@.len() as int) == a@);
    r
}

/// Whether `s` begins with `pat`.
pub fn starts_with(s: &[char], pat: &[char]) -> (r: bool)
    ensures
        r == pat@.is_prefix_of(s@),
{
    matches_at(s, pat, 0)
}

/// The position of the leftmost occurrence of `pat` in `s`.
pub fn find(s: &[char], pat: &[char]) -> (r: Option<usize>)
    ensures
        match r {
            Some(i) => first_occurrence(s@, pat@) == Some(i as int),
            None => first_occurrence(s@, pat@) is None,
        },
{
    if pat.len() > s.len() {
        proof {
            lemma_no_occurrence(s@, pat@);
        }
        return None;
    }
    let last: usize = s.len() - pat.len();
    let mut i: usize = 0;
    while i <= last
        invariant
            i <= last + 1,
            last == s@.len() - pat@.len(),
            s@.len() <= usize::MAX,
            forall|j: int| 0 <= j < i ==> !#[trigger] occurs_at(s@, pat@, j),
        decreases last + 1 - i,
    {
        if matches_at(s, pat, i) {
            proof {
                lemma_first_occurrence(s@, pat@, i as int);
            }
            return Some(i);
        }
        assert(pat@.len() > 0) by {
            if pat@.len() == 0 {
                assert(s@.subrange(i as int, i as int) =~= pat@);
            }
        }
        i += 1;
    }
    proof {
        lemma_no_occurrence(s@, pat@);
    }
    None
}

/// Splits `s` at the leftmost occurrence of `pat`, which goes to neither part.
pub fn split_once(s: &[char], pat: &[char]) -> (r: Option<(Vec<char>, Vec<char>)>)
    ensures
        match r {
            Some((head, tail)) => split_once_spec(s@, pat@) == Some((head@, tail@)),
            None => split_once_spec(s@, pat@) is None,
        },
{
    match find(s, pat) {
        Some(i) => {
            proof {
                lemma_first_occurrence_found(s@, pat@, i as int);
            }
            let n: usize = s.len();
            let head = subrange(s, 0, i);
            let tail = subrange(s, i + pat.len(), n);
            Some((head, tail))
        },
        None => None,
    }
}

/// The lines of a text.
pub fn lines(s: &[char]) -> (r: Vec<Vec<char>>)
    ensures
        views(r@) == lines_spec(s@),
{
    let n: usize = s.len();
    let mut out: Vec<Vec<char>> = Vec::new();
    let mut cur: Vec<char> = Vec::new();
    let mut start: usize = 0;
    let mut i: usize = 0;
    assert(s@.skip(0) == s@);
    assert(views(out@) + lines_spec(s@) == lines_spec(s@));
    while i < n
        invariant
            start <= i <= n,
            n == s@.len(),
            cur@ == s@.subrange(start as int, i as int),
            forall|j: int| start <= j < i ==> s@[j] != '\n',
            lines_spec(s@) == views(out@) + lines_spec(s@.skip(start as int)),
        decreases n - i,
    {
        if s[i] == '\n' {
            let ghost rest = s@.skip(start as int);
            let ghost at = i - start;
            proof {
                assert(rest.subrange(at, at + 1) == seq!['\n']);
                assert forall|j: int| 0 <= j < at implies !#[trigger] occurs_at(
                    rest,
                    seq!['\n'],
                    j,
                ) by {
                    if occurs_at(rest, seq!['\n'], j) {
                        lemma_occurrence_starts(rest, seq!['\n'], j);
                    }
                }
                lemma_first_occurrence(rest, seq!['\n'], at);
                assert(rest.take(at) == cur@);
                assert(rest.skip(at + 1) == s@.skip(i + 1));
            }
            let m: usize = cur.len();
            if m > 0 && cur[m - 1] == '\r' {
                cur.pop();
            }
            assert(cur@ == strip_cr(rest.take(at)));
            let ghost before = out@;
            out.push(cur);
            assert(views(out@) == views(before) + seq![strip_cr(rest.take(at))]);
            cur = Vec::new();
            start = i + 1;
        } else {
            cur.push(s[i]);
        }
        i += 1;
    }
    let ghost rest = s@.skip(start as int);
    if start < n {
        proof {
            assert forall|j: int| !#[trigger] occurs_at(rest, seq!['\n'], j) by {
                if occurs_at(rest, seq!['\n'], j) {
                    lemma_occurrence_starts(rest, seq!['\n'], j);
                }
            }
            lemma_no_occurrence(rest, seq!['\n']);
            assert(rest == cur@);
        }
        let ghost before = out@;
        out.push(cur);
        assert(views(out@) == views(before) + seq![rest]);
    } else {
        assert(views(out@) + Seq::<Seq<char>>::empty() == views(out@));
    }
    out
}

/// `s` without the line feed that may end it.
pub fn without_newline(s: &[char]) -> (r: Vec<char>)
    ensures
        r@ == strip_newline(s@),
{
    let n: usize = s.len();
    if n > 0 && s[n - 1] == '\n' {
        subrange(s, 0, n - 1)
    } else {
        let r = subrange(s, 0, n);
        assert(s@.subrange(0, n as int) == s@);
        r
    }
}

/// Whether `c` has the Unicode property `White_Space`.
pub fn is_whitespace(c: char) -> (r: bool)
    ensures
        r == whitespace(c),
{
    let n: u32 = c as u32;
    (0x09 <= n && n <= 0x0d) || n == 0x20 || n == 0x85 || n == 0xa0 || n == 0x1680 || (0x2000 <= n
        && n <= 0x200a) || n == 0x2028 || n == 0x2029 || n == 0x202f || n == 0x205f || n == 0x3000
}

/// `s` without leading and trailing white space.
pub fn trim(s: &[char]) -> (r: Vec<char>)
    ensures
        r@ == trim_spec(s@),
{
    let mut a: usize = 0;
    assert(s@.skip(0) == s@);
    while a < s.len() && is_whitespace(s[a])
        invariant
            a <= s@.len(),
            trim_start_spec(s@) == trim_start_spec(s@.skip(a as int)),
        decreases s@.len() - a,
    {
        assert(s@.skip(a as int).skip(1) == s@.skip(a + 1));
        a += 1;
    }
    assert(trim_start_spec(s@) == s@.skip(a as int));
    let mut b: usize = s.len();
    while b > a && is_whitespace(s[b - 1])
        invariant
            a <= b <= s@.len(),
            trim_spec(s@) == trim_end_spec(s@.subrange(a as int, b as int)),
        decreases b,
    {
        assert(s@.subrange(a as int, b as int).drop_last() == s@.subrange(a as int, b - 1));
        b -= 1;
    }
    subrange(s, a, b)
}

} // verus!
