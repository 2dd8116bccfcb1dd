//! Operations on character sequences, stated over `Seq<char>` and carried out
//! over slices of `char`.
use vstd::prelude::*;
use crate::chars::{
    char_len_utf8, is_ascii_alpha, is_ascii_upper_alpha, is_unicode_whitespace, spec_is_ascii_alpha,
    spec_is_ascii_upper_alpha, spec_is_unicode_whitespace, utf8_size,
};
use crate::input::{lemma_utf8_size_take_mono, lemma_utf8_size_take_step};

verus! {

/// Every character of `s` is `c`.
pub open spec fn all_eq(s: Seq<char>, c: char) -> bool {
    forall|i: int| 0 <= i < s.len() ==> s[i] == c
}

/// Some character of `s` is `c`.
pub open spec fn has_char(s: Seq<char>, c: char) -> bool {
    exists|i: int| 0 <= i < s.len() && s[i] == c
}

/// The number of copies of `c` at the start of `s`.
pub open spec fn leading_count(s: Seq<char>, c: char) -> nat
    decreases s.len(),
{
    if s.len() == 0 || s[0] != c {
        0
    } else {
        1 + leading_count(s.drop_first(), c)
    }
}

/// The number of copies of `c` at the end of `s`.
pub open spec fn trailing_count(s: Seq<char>, c: char) -> nat
    decreases s.len(),
{
    if s.len() == 0 || s.last() != c {
        0
    } else {
        1 + trailing_count(s.drop_last(), c)
    }
}

/// `s` with the whitespace at its end removed.
pub open spec fn trim_end(s: Seq<char>) -> Seq<char>
    decreases s.len(),
{
    if s.len() > 0 && spec_is_unicode_whitespace(s.last()) {
        trim_end(s.drop_last())
    } else {
        s
    }
}

/// `s` with the whitespace at its start removed.
pub open spec fn trim_start(s: Seq<char>) -> Seq<char>
    decreases s.len(),
{
    if s.len() > 0 && spec_is_unicode_whitespace(s[0]) {
        trim_start(s.drop_first())
    } else {
        s
    }
}

/// `s` with the whitespace at both ends removed.
pub open spec fn trim(s: Seq<char>) -> Seq<char> {
    trim_end(trim_start(s))
}

/// The index of the first line feed in `s`, or its length when it has none.
pub open spec fn first_lf(s: Seq<char>) -> nat
    decreases s.len(),
{
    if s.len() == 0 {
        0
    } else if s[0] == '\n' {
        0
    } else {
        1 + first_lf(s.drop_first())
    }
}

/// `s` without one carriage return at its end.
pub open spec fn strip_cr(s: Seq<char>) -> Seq<char> {
    if s.len() > 0 && s.last() == '\r' {
        s.drop_last()
    } else {
        s
    }
}

/// The lines of `s`: the pieces between line feeds, each without a carriage
/// return that ends it before its line feed, and no empty last line after a
/// final line feed.
pub open spec fn lines(s: Seq<char>) -> Seq<Seq<char>>
    decreases s.len(),
{
    if s.len() == 0 {
        Seq::empty()
    } else {
        let k = first_lf(s);
        if k >= s.len() {
            seq![s]
        } else {
            seq![strip_cr(s.take(k as int))] + lines(s.skip(k as int + 1))
        }
    }
}

/// The lines of `ls` joined by line feeds.
pub open spec fn join_lines(ls: Seq<Seq<char>>) -> Seq<char>
    decreases ls.len(),
{
    if ls.len() == 0 {
        Seq::empty()
    } else if ls.len() == 1 {
        ls[0]
    } else {
        join_lines(ls.drop_last()) + seq!['\n'] + ls.last()
    }
}

/// The ASCII lowercase form of `c`.
pub open spec fn ascii_lower(c: char) -> char {
    if spec_is_ascii_upper_alpha(c) {
        ((c as u32) + 32) as char
    } else {
        c
    }
}

/// The ASCII lowercase form of `s`.
pub open spec fn ascii_lower_seq(s: Seq<char>) -> Seq<char> {
    s.map_values(|c: char| ascii_lower(c))
}

/// The longest run of ASCII letters at the end of `s`.
pub open spec fn trailing_alpha(s: Seq<char>) -> Seq<char>
    decreases s.len(),
{
    if s.len() > 0 && spec_is_ascii_alpha(s.last()) {
        trailing_alpha(s.drop_last()).push(s.last())
    } else {
        Seq::empty()
    }
}

pub proof fn lemma_leading_count_step(s: Seq<char>, i: int, c: char)
    requires
        0 <= i < s.len(),
    ensures
        leading_count(s.skip(i), c) == if s[i] != c {
            0
        } else {
            1 + leading_count(s.skip(i + 1), c)
        },
{
    assert(s.skip(i).drop_first() =~= s.skip(i + 1));
}

pub proof fn lemma_trailing_count_step(s: Seq<char>, i: int, c: char)
    requires
        0 < i <= s.len(),
    ensures
        trailing_count(s.take(i), c) == if s[i - 1] != c {
            0
        } else {
            1 + trailing_count(s.take(i - 1), c)
        },
{
    assert(s.take(i).drop_last() =~= s.take(i - 1));
}

pub proof fn lemma_leading_count_bound(s: Seq<char>, c: char)
    ensures
        leading_count(s, c) <= s.len(),
        all_eq(s.take(leading_count(s, c) as int), c),
        leading_count(s, c) < s.len() ==> s[leading_count(s, c) as int] != c,
    decreases s.len(),
{
    if s.len() > 0 && s[0] == c {
        lemma_leading_count_bound(s.drop_first(), c);
        let n = leading_count(s.drop_first(), c) as int;
        assert forall|i: int| 0 <= i < n + 1 implies #[trigger] s.take(n + 1)[i] == c by {
            if i > 0 {
                assert(s.take(n + 1)[i] == s.drop_first().take(n)[i - 1]);
            }
        }
    }
}

pub proof fn lemma_all_eq_leading_count(s: Seq<char>, c: char)
    requires
        all_eq(s, c),
    ensures
        leading_count(s, c) == s.len(),
    decreases s.len(),
{
    if s.len() > 0 {
        lemma_all_eq_leading_count(s.drop_first(), c);
    }
}

pub proof fn lemma_trailing_count_bound(s: Seq<char>, c: char)
    ensures
        trailing_count(s, c) <= s.len(),
        all_eq(s.skip(s.len() - trailing_count(s, c)), c),
    decreases s.len(),
{
    if s.len() > 0 && s.last() == c {
        lemma_trailing_count_bound(s.drop_last(), c);
        let n = trailing_count(s.drop_last(), c) as int;
        let m = s.len() - 1;
        assert forall|i: int| 0 <= i < n + 1 implies #[trigger] s.skip(s.len() - (n + 1))[i] == c by {
            if i < n {
                assert(s.skip(s.len() - (n + 1))[i] == s.drop_last().skip(m - n)[i]);
            }
        }
        assert(trailing_count(s, c) == n + 1);
    } else {
        assert(trailing_count(s, c) == 0);
        assert(s.skip(s.len() as int).len() == 0);
    }
}

/// Whether every character of `s` is `c`.
pub fn chars_all_eq(s: &[char], c: char) -> (r: bool)
    ensures
        r == all_eq(s@, c),
{
    let mut i: usize = 0;
    while i < s.len()
        invariant
            i <= s@.len(),
            all_eq(s@.take(i as int), c),
        decreases s@.len() - i,
    {
        if s[i] != c {
            return false;
        }
        i += 1;
        assert forall|j: int| 0 <= j < i implies #[trigger] s@.take(i as int)[j] == c by {
            if j < i - 1 {
                assert(s@.take(i as int)[j] == s@.take(i - 1)[j]);
            }
        }
    }
    assert(s@.take(i as int) =~= s@);
    true
}

/// Whether `c` occurs in `s`.
pub fn chars_contain(s: &[char], c: char) -> (r: bool)
    ensures
        r == has_char(s@, c),
{
    let mut i: usize = 0;
    while i < s.len()
        invariant
            i <= s@.len(),
            forall|j: int| 0 <= j < i ==> s@[j] != c,
        decreases s@.len() - i,
    {
        if s[i] == c {
            return true;
        }
        i += 1;
    }
    false
}

/// The number of copies of `c` at the start of `s`.
pub fn count_leading(s: &[char], c: char) -> (r: usize)
    ensures
        r == leading_count(s@, c),
        r <= s@.len(),
{
    let mut i: usize = 0;
    proof {
        assert(s@.skip(0) =~= s@);
    }
    while i < s.len() && s[i] == c
        invariant
            i <= s@.len(),
            leading_count(s@, c) == i + leading_count(s@.skip(i as int), c),
        decreases s@.len() - i,
    {
        proof {
            lemma_leading_count_step(s@, i as int, c);
        }
        i += 1;
    }
    proof {
        if i < s@.len() {
            lemma_leading_count_step(s@, i as int, c);
        } else {
            assert(s@.skip(i as int).len() == 0);
        }
    }
    i
}

/// The number of copies of `c` at the end of `s`.
pub fn count_trailing(s: &[char], c: char) -> (r: usize)
    ensures
        r == trailing_count(s@, c),
        r <= s@.len(),
{
    let mut i: usize = s.len();
    proof {
        assert(s@.take(s@.len() as int) =~= s@);
    }
    while i > 0 && s[i - 1] == c
        invariant
            i <= s@.len(),
            trailing_count(s@, c) == (s@.len() - i) + trailing_count(s@.take(i as int), c),
        decreases i,
    {
        proof {
            lemma_trailing_count_step(s@, i as int, c);
        }
        i -= 1;
    }
    proof {
        if i > 0 {
            lemma_trailing_count_step(s@, i as int, c);
        } else {
            assert(s@.take(0).len() == 0);
        }
    }
    s.len() - i
}

} // verus!

verus! {

/// Whether `t` and `w` hold the same characters.
pub fn chars_eq(t: &[char], w: &[char]) -> (r: bool)
    ensures
        r == (t@ =~= w@),
{
    if t.len() != w.len() {
        return false;
    }
    let mut i: usize = 0;
    while i < t.len()
        invariant
            i <= t@.len(),
            t@.len() == w@.len(),
            forall|j: int| 0 <= j < i ==> t@[j] == w@[j],
        decreases t@.len() - i,
    {
        if t[i] != w[i] {
            return false;
        }
        i += 1;
    }
    proof {
        assert(t@ =~= w@);
    }
    true
}


/// Collects characters into a `String`: `String::from_iter` over a slice of
/// `char` gives the string of exactly those characters, in order.
#[verifier::external_body]
pub fn string_from_chars(v: &[char]) -> (r: String)
    ensures
        r@ == v@,
{
    String::from_iter(v)
}

} // verus!

verus! {

/// The number of bytes that the UTF-8 encoding of `v` takes, or `cap` when
/// that is more.
pub fn utf8_len_capped(v: &[char], cap: usize) -> (r: usize)
    requires
        cap <= 1000,
    ensures
        r == (if utf8_size(v@) < cap {
            utf8_size(v@)
        } else {
            cap as nat
        }),
{
    if cap == 0 {
        return 0;
    }
    let mut acc: usize = 0;
    let mut i: usize = 0;
    proof {
        assert(v@.take(0).len() == 0);
    }
    while i < v.len()
        invariant
            i <= v@.len(),
            acc == utf8_size(v@.take(i as int)),
            acc < cap,
            cap <= 1000,
        decreases v@.len() - i,
    {
        proof {
            lemma_utf8_size_take_step(v@, i as int);
        }
        acc = acc + char_len_utf8(v[i]) as usize;
        i += 1;
        if acc >= cap {
            proof {
                lemma_utf8_size_take_mono(v@, i as int, v@.len() as int);
                assert(v@.take(v@.len() as int) =~= v@);
            }
            return cap;
        }
    }
    proof {
        assert(v@.take(i as int) =~= v@);
    }
    acc
}

/// A copy of `v` without its first `n` characters.
pub fn chars_skip(v: &[char], n: usize) -> (r: Vec<char>)
    requires
        n <= v@.len(),
    ensures
        r@ == v@.skip(n as int),
{
    let s = vstd::slice::slice_subrange(v, n, v.len());
    let r = vstd::slice::slice_to_vec(s);
    assert(r@ =~= v@.skip(n as int));
    r
}

/// A copy of `v`.
pub fn chars_copy(v: &[char]) -> (r: Vec<char>)
    ensures
        r@ == v@,
{
    vstd::slice::slice_to_vec(v)
}

} // verus!

verus! {

/// The character sequences of a list of character vectors.
pub open spec fn views(ls: Seq<Vec<char>>) -> Seq<Seq<char>> {
    ls.map_values(|v: Vec<char>| v@)
}

pub proof fn lemma_first_lf(s: Seq<char>, j: int)
    requires
        0 <= j <= s.len(),
        forall|i: int| 0 <= i < j ==> s[i] != '\n',
        j == s.len() || s[j] == '\n',
    ensures
        first_lf(s) == j,
    decreases j,
{
    if j > 0 {
        lemma_first_lf(s.drop_first(), j - 1);
    }
}

/// `v` without one carriage return at its end.
pub fn strip_cr_chars(v: Vec<char>) -> (r: Vec<char>)
    ensures
        r@ == strip_cr(v@),
{
    let mut v = v;
    let n = v.len();
    if n > 0 && v[n - 1] == '\r' {
        v.pop();

    }
    v
}

/// The lines of `s`.
pub fn lines_of(s: &[char]) -> (r: Vec<Vec<char>>)
    ensures
        views(r@) == lines(s@),
{
    let mut out: Vec<Vec<char>> = Vec::new();
    let mut pos: usize = 0;
    proof {
        assert(s@.skip(0) =~= s@);
        assert(views(out@) + lines(s@.skip(0)) =~= lines(s@));
    }
    while pos < s.len()
        invariant
            pos <= s@.len(),
            views(out@) + lines(s@.skip(pos as int)) == lines(s@),
        decreases s@.len() - pos,
    {
        let mut j: usize = pos;
        while j < s.len() && s[j] != '\n'
            invariant
                pos <= j <= s@.len(),
                forall|i: int| pos <= i < j ==> s@[i] != '\n',
            decreases s@.len() - j,
        {
            j += 1;
        }
        let ghost t = s@.skip(pos as int);
        proof {
            lemma_first_lf(t, j - pos);
        }
        let piece = vstd::slice::slice_to_vec(vstd::slice::slice_subrange(s, pos, j));
        proof {
            assert(piece@ =~= t.take(j - pos));
        }
        let ghost before = views(out@);
        if j == s.len() {
            proof {
                assert(t.take(j - pos) =~= t);
                assert(lines(t) == seq![t]);
            }
            out.push(piece);
            pos = j;
            proof {
                assert(views(out@) =~= before.push(t));
                assert(s@.skip(pos as int).len() == 0);
                assert(lines(s@.skip(pos as int)) =~= Seq::<Seq<char>>::empty());
                assert(views(out@) + lines(s@.skip(pos as int)) =~= before + lines(t));
            }
        } else {
            let line = strip_cr_chars(piece);
            out.push(line);
            let ghost p0 = pos;
            pos = j + 1;
            proof {
                assert(t.skip(j - p0 + 1) =~= s@.skip(j + 1));
                assert(views(out@) =~= before.push(strip_cr(t.take(j - p0))));
                assert(lines(t) == seq![strip_cr(t.take(j - p0))] + lines(t.skip(j - p0 + 1)));
                assert(views(out@) + lines(s@.skip(pos as int)) =~= before + lines(t));
            }
        }
    }
    proof {
        assert(s@.skip(pos as int).len() == 0);
        assert(lines(s@.skip(pos as int)) =~= Seq::<Seq<char>>::empty());
        assert(views(out@) + lines(s@.skip(pos as int)) =~= views(out@));
    }
    out
}

/// `v` with the whitespace at both ends removed.
pub fn trim_chars(v: &[char]) -> (r: Vec<char>)
    ensures
        r@ == trim(v@),
{
    let mut i: usize = 0;
    proof {
        assert(v@.skip(0) =~= v@);
    }
    while i < v.len() && is_unicode_whitespace(v[i])
        invariant
            i <= v@.len(),
            trim_start(v@) == trim_start(v@.skip(i as int)),
        decreases v@.len() - i,
    {
        proof {
            assert(v@.skip(i as int).drop_first() =~= v@.skip(i + 1));
        }
        i += 1;
    }
    let start = vstd::slice::slice_to_vec(vstd::slice::slice_subrange(v, i, v.len()));
    proof {
        assert(start@ =~= v@.skip(i as int));
        assert(trim_start(v@) == start@);
    }
    trim_end_chars(start.as_slice())
}

/// `v` with the whitespace at its end removed.
pub fn trim_end_chars(v: &[char]) -> (r: Vec<char>)
    ensures
        r@ == trim_end(v@),
{
    let mut i: usize = v.len();
    proof {
        assert(v@.take(v@.len() as int) =~= v@);
    }
    while i > 0 && is_unicode_whitespace(v[i - 1])
        invariant
            i <= v@.len(),
            trim_end(v@) == trim_end(v@.take(i as int)),
        decreases i,
    {
        proof {
            assert(v@.take(i as int).drop_last() =~= v@.take(i - 1));
        }
        i -= 1;
    }
    let r = vstd::slice::slice_to_vec(vstd::slice::slice_subrange(v, 0, i));
    proof {
        assert(r@ =~= v@.take(i as int));
    }
    r
}

/// The lines `ls[lo..hi]` joined by line feeds.
pub fn join_line_range(ls: &Vec<Vec<char>>, lo: usize, hi: usize) -> (r: Vec<char>)
    requires
        lo <= hi <= ls@.len(),
    ensures
        r@ == join_lines(views(ls@).subrange(lo as int, hi as int)),
{
    let mut out: Vec<char> = Vec::new();
    let mut i: usize = lo;
    proof {
        assert(views(ls@).subrange(lo as int, lo as int) =~= Seq::<Seq<char>>::empty());
    }
    while i < hi
        invariant
            lo <= i <= hi <= ls@.len(),
            out@ == join_lines(views(ls@).subrange(lo as int, i as int)),
        decreases hi - i,
    {
        let ghost prev = views(ls@).subrange(lo as int, i as int);
        let ghost next = views(ls@).subrange(lo as int, i + 1);
        proof {
            assert(next.drop_last() =~= prev);
            assert(next.last() == ls@[i as int]@);
        }
        if i > lo {
            out.push('\n');
        }
        let line = &ls[i];
        let mut j: usize = 0;
        let ghost base = out@;
        while j < line.len()
            invariant
                j <= line@.len(),
                out@ == base + line@.take(j as int),
            decreases line@.len() - j,
        {
            out.push(line[j]);
            j += 1;
            proof {
                assert(line@.take(j as int) =~= line@.take(j - 1).push(line@[j - 1]));
                assert(out@ =~= base + line@.take(j as int));
            }
        }
        proof {
            assert(line@.take(j as int) =~= line@);
            if i == lo {
                assert(next.len() == 1);
                assert(out@ =~= next[0]);
            } else {
                assert(out@ =~= join_lines(prev) + seq!['\n'] + next.last());
            }
        }
        i += 1;
    }
    out
}

} // verus!

verus! {

/// The number of ASCII letters at the end of `v`.
pub fn count_trailing_alpha(v: &[char]) -> (r: usize)
    ensures
        r <= v@.len(),
        trailing_alpha(v@) == v@.skip(v@.len() - r),
{
    let mut i: usize = v.len();
    proof {
        assert(v@.take(v@.len() as int) =~= v@);
        assert(v@.skip(v@.len() as int) =~= Seq::<char>::empty());
        assert(trailing_alpha(v@) =~= trailing_alpha(v@.take(i as int)) + v@.skip(i as int));
    }
    while i > 0 && is_ascii_alpha(v[i - 1])
        invariant
            i <= v@.len(),
            trailing_alpha(v@) == trailing_alpha(v@.take(i as int)) + v@.skip(i as int),
        decreases i,
    {
        proof {
            assert(v@.take(i as int).drop_last() =~= v@.take(i - 1));
            assert(v@.skip(i - 1) =~= seq![v@[i - 1]] + v@.skip(i as int));
            assert(trailing_alpha(v@.take(i - 1)).push(v@[i - 1]) + v@.skip(i as int)
                =~= trailing_alpha(v@.take(i - 1)) + v@.skip(i - 1));
        }
        i -= 1;
    }
    proof {
        assert(trailing_alpha(v@.take(i as int)) =~= Seq::<char>::empty());
        assert(trailing_alpha(v@) =~= v@.skip(i as int));
    }
    v.len() - i
}

/// The ASCII lowercase form of `v`.
pub fn ascii_lower_chars(v: &[char]) -> (r: Vec<char>)
    ensures
        r@ == ascii_lower_seq(v@),
{
    let mut out: Vec<char> = Vec::new();
    let mut i: usize = 0;
    while i < v.len()
        invariant
            i <= v@.len(),
            out@ == ascii_lower_seq(v@.take(i as int)),
        decreases v@.len() - i,
    {
        let c = v[i];
        let l = if is_ascii_upper_alpha(c) {
            ((c as u8) + 32) as char
        } else {
            c
        };
        proof {
            assert(l == ascii_lower(c));
        }
        out.push(l);
        i += 1;
        proof {
            assert(out@ =~= ascii_lower_seq(v@.take(i as int)));
        }
    }
    proof {
        assert(v@.take(i as int) =~= v@);
    }
    out
}

} // verus!
