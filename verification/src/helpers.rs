//! String and text utilities the planners and parsers are built on.
//!
//! All text is reasoned about as its sequence of characters (`Seq<char>`).

use vstd::prelude::*;
use vstd::string::StrSliceExecFns;

verus! {

// region character sequences

/// The characters of a string slice, as a vector.
pub fn to_chars(s: &str) -> (v: Vec<char>)
    ensures
        v@ == s@,
{
    let n = s.unicode_len();
    let mut v: Vec<char> = Vec::new();
    let mut i: usize = 0;
    while i < n
        invariant
            i <= n,
            n == s@.len(),
            v@ == s@.subrange(0, i as int),
        decreases n - i,
    {
        let c = s.get_char(i);
        v.push(c);
        proof {
            assert(v@ =~= s@.subrange(0, i + 1 as int));
        }
        i += 1;
    }
    proof {
        assert(v@ =~= s@);
    }
    v
}

/// Relies on String::push: appends exactly one character.
#[verifier::external_body]
fn push_char(s: &mut String, c: char)
    ensures
        final(s)@ == old(s)@.push(c),
{
    s.push(c);
}

/// Builds a string out of a vector of characters.
pub fn from_chars(v: &Vec<char>) -> (s: String)
    ensures
        s@ == v@,
{
    let mut s = String::new();
    let mut i: usize = 0;
    while i < v.len()
        invariant
            i <= v@.len(),
            s@ == v@.subrange(0, i as int),
        decreases v@.len() - i,
    {
        push_char(&mut s, v[i]);
        proof {
            assert(s@ =~= v@.subrange(0, i + 1 as int));
        }
        i += 1;
    }
    proof {
        assert(s@ =~= v@);
    }
    s
}

// endregion

// region substring search

/// The pattern `p` occurs in `t` starting at position `i`.
pub open spec fn has_sub_at(t: Seq<char>, p: Seq<char>, i: int) -> bool {
    0 <= i && i + p.len() <= t.len() && t.subrange(i, i + p.len()) == p
}

/// `i` is the leftmost occurrence of `p` in `t`.
pub open spec fn is_first_match(t: Seq<char>, p: Seq<char>, i: int) -> bool {
    has_sub_at(t, p, i) && forall|j: int| 0 <= j < i ==> !has_sub_at(t, p, j)
}

/// `i` is the rightmost occurrence of `p` in `t`.
pub open spec fn is_last_match(t: Seq<char>, p: Seq<char>, i: int) -> bool {
    has_sub_at(t, p, i) && forall|j: int| i < j ==> !has_sub_at(t, p, j)
}

/// Whether `p` occurs anywhere in `t`.
pub open spec fn contains_sub(t: Seq<char>, p: Seq<char>) -> bool {
    exists|i: int| has_sub_at(t, p, i)
}

fn match_at(t: &Vec<char>, p: &Vec<char>, i: usize) -> (r: bool)
    requires
        i + p@.len() <= t@.len(),
    ensures
        r == has_sub_at(t@, p@, i as int),
{
    let tl = t.len();
    let mut j: usize = 0;
    while j < p.len()
        invariant
            j <= p@.len(),
            i + p@.len() <= t@.len(),
            tl == t@.len(),
            forall|k: int| 0 <= k < j ==> t@[i + k] == p@[k],
        decreases p@.len() - j,
    {
        if t[i + j] != p[j] {
            proof {
                assert(t@.subrange(i as int, i + p@.len())[j as int] == t@[i + j]);
            }
            return false;
        }
        j += 1;
    }
    proof {
        assert(t@.subrange(i as int, i + p@.len()) =~= p@);
    }
    true
}

/// Position of the leftmost occurrence of `p` in `t`, if any.
pub fn find_first(t: &Vec<char>, p: &Vec<char>) -> (r: Option<usize>)
    requires
        p@.len() >= 1,
    ensures
        match r {
            Some(i) => is_first_match(t@, p@, i as int),
            None => !contains_sub(t@, p@),
        },
{
    if p.len() > t.len() {
        return None;
    }
    let count = t.len() - p.len() + 1;
    let mut i: usize = 0;
    while i < count
        invariant
            p@.len() >= 1,
            p@.len() <= t@.len(),
            count == t@.len() - p@.len() + 1,
            i <= count,
            forall|j: int| 0 <= j < i ==> !has_sub_at(t@, p@, j),
        decreases count - i,
    {
        if match_at(t, p, i) {
            return Some(i);
        }
        i += 1;
    }
    None
}

/// Position of the rightmost occurrence of `p` in `t`, if any.
pub fn find_last(t: &Vec<char>, p: &Vec<char>) -> (r: Option<usize>)
    requires
        p@.len() >= 1,
    ensures
        match r {
            Some(i) => is_last_match(t@, p@, i as int),
            None => !contains_sub(t@, p@),
        },
{
    if p.len() > t.len() {
        proof {
            assert(forall|j: int| j > t@.len() - p@.len() ==> !has_sub_at(t@, p@, j));
        }
        return None;
    }
    let mut i: usize = t.len() - p.len() + 1;
    while i > 0
        invariant
            p@.len() >= 1,
            p@.len() <= t@.len(),
            i <= t@.len() - p@.len() + 1,
            forall|j: int| i <= j ==> !has_sub_at(t@, p@, j),
        decreases i,
    {
        i -= 1;
        if match_at(t, p, i) {
            return Some(i);
        }
    }
    None
}

/// Position of the leftmost occurrence of `p` in `t` at or after `from`.
pub fn find_first_from(t: &Vec<char>, p: &Vec<char>, from: usize) -> (r: Option<usize>)
    requires
        p@.len() >= 1,
        from <= t@.len(),
    ensures
        match r {
            Some(i) => from <= i && has_sub_at(t@, p@, i as int) && forall|j: int|
                from <= j < i ==> !has_sub_at(t@, p@, j),
            None => forall|j: int| from <= j ==> !has_sub_at(t@, p@, j),
        },
{
    if p.len() > t.len() - from {
        return None;
    }
    let count = t.len() - p.len() + 1;
    let mut i: usize = from;
    while i < count
        invariant
            p@.len() >= 1,
            from + p@.len() <= t@.len(),
            count == t@.len() - p@.len() + 1,
            from <= i <= count,
            forall|j: int| from <= j < i ==> !has_sub_at(t@, p@, j),
        decreases count - i,
    {
        if match_at(t, p, i) {
            return Some(i);
        }
        i += 1;
    }
    None
}

/// Every occurrence has a leftmost one.
pub proof fn lemma_exists_first_match(t: Seq<char>, p: Seq<char>, k: int)
    requires
        has_sub_at(t, p, k),
    ensures
        exists|i: int| is_first_match(t, p, i),
    decreases k,
{
    if forall|j: int| 0 <= j < k ==> !has_sub_at(t, p, j) {
        assert(is_first_match(t, p, k));
    } else {
        let j = choose|j: int| 0 <= j < k && has_sub_at(t, p, j);
        lemma_exists_first_match(t, p, j);
    }
}

/// Every occurrence has a rightmost one.
pub proof fn lemma_exists_last_match(t: Seq<char>, p: Seq<char>, k: int)
    requires
        has_sub_at(t, p, k),
    ensures
        exists|i: int| is_last_match(t, p, i),
    decreases t.len() - k,
{
    if forall|j: int| j > k ==> !has_sub_at(t, p, j) {
        assert(is_last_match(t, p, k));
    } else {
        let j = choose|j: int| j > k && has_sub_at(t, p, j);
        lemma_exists_last_match(t, p, j);
    }
}

/// `p` is a prefix of `t`.
pub open spec fn is_prefix(t: Seq<char>, p: Seq<char>) -> bool {
    has_sub_at(t, p, 0)
}

/// `p` is a suffix of `t`.
pub open spec fn is_suffix(t: Seq<char>, p: Seq<char>) -> bool {
    has_sub_at(t, p, t.len() - p.len())
}

/// Whether the string `s` starts with `p`.
pub fn starts_with_str(s: &str, p: &str) -> (r: bool)
    ensures
        r == is_prefix(s@, p@),
{
    let sv = to_chars(s);
    let pv = to_chars(p);
    if pv.len() > sv.len() {
        return false;
    }
    match_at(&sv, &pv, 0)
}

/// Whether the string `s` ends with `p`.
pub fn ends_with_str(s: &str, p: &str) -> (r: bool)
    ensures
        r == is_suffix(s@, p@),
{
    let sv = to_chars(s);
    let pv = to_chars(p);
    if pv.len() > sv.len() {
        return false;
    }
    match_at(&sv, &pv, sv.len() - pv.len())
}

/// Whether `s` contains `p` anywhere (`p` non-empty).
pub fn contains_str(s: &str, p: &str) -> (r: bool)
    requires
        p@.len() >= 1,
    ensures
        r == contains_sub(s@, p@),
{
    let sv = to_chars(s);
    let pv = to_chars(p);
    match find_first(&sv, &pv) {
        Some(_) => true,
        None => false,
    }
}

// endregion

// region building strings

/// Whether two strings hold the same characters.
pub fn str_eq(a: &str, b: &str) -> (r: bool)
    ensures
        r == (a@ == b@),
{
    let av = to_chars(a);
    let bv = to_chars(b);
    if av.len() != bv.len() {
        return false;
    }
    let mut i: usize = 0;
    while i < av.len()
        invariant
            i <= av@.len(),
            av@.len() == bv@.len(),
            av@ == a@,
            bv@ == b@,
            forall|k: int| 0 <= k < i ==> av@[k] == bv@[k],
        decreases av@.len() - i,
    {
        if av[i] != bv[i] {
            return false;
        }
        i += 1;
    }
    proof {
        assert(a@ =~= b@);
    }
    true
}

/// `s` followed by `suffix`.
pub fn append(s: &str, suffix: &str) -> (r: String)
    ensures
        r@ == s@ + suffix@,
{
    let mut r = s.to_owned();
    r.append(suffix);
    r
}

/// The concatenation of a sequence of strings.
pub open spec fn cat_all(ss: Seq<&str>) -> Seq<char>
    decreases ss.len(),
{
    if ss.len() == 0 {
        Seq::empty()
    } else {
        cat_all(ss.drop_last()) + ss.last()@
    }
}

/// `s` followed by every string of `suffixes` in order.
pub fn append_all(s: &str, suffixes: &Vec<&str>) -> (r: String)
    ensures
        r@ == s@ + cat_all(suffixes@),
{
    let mut r = s.to_owned();
    let mut i: usize = 0;
    while i < suffixes.len()
        invariant
            i <= suffixes@.len(),
            r@ == s@ + cat_all(suffixes@.subrange(0, i as int)),
        decreases suffixes@.len() - i,
    {
        r.append(suffixes[i]);
        proof {
            let sub1 = suffixes@.subrange(0, i + 1 as int);
            assert(sub1.drop_last() =~= suffixes@.subrange(0, i as int));
            assert(sub1.last() == suffixes@[i as int]);
            assert(r@ =~= s@ + cat_all(sub1));
        }
        i += 1;
    }
    proof {
        assert(suffixes@.subrange(0, suffixes@.len() as int) =~= suffixes@);
    }
    r
}

/// What `with_prefix` yields: `s` unchanged when empty or already starting
/// with `p`, else `p + s`.
pub open spec fn with_prefix_spec(s: Seq<char>, p: Seq<char>) -> Seq<char> {
    if s.len() == 0 || is_prefix(s, p) {
        s
    } else {
        p + s
    }
}

/// What `with_suffix` yields: `s` unchanged when empty or already ending
/// with `p`, else `s + p`.
pub open spec fn with_suffix_spec(s: Seq<char>, p: Seq<char>) -> Seq<char> {
    if s.len() == 0 || is_suffix(s, p) {
        s
    } else {
        s + p
    }
}

/// `s` unchanged when empty or already starting with `prefix`, else `prefix + s`.
pub fn with_prefix(s: &str, prefix: &str) -> (r: String)
    ensures
        r@ == with_prefix_spec(s@, prefix@),
{
    if s.is_empty() || starts_with_str(s, prefix) {
        s.to_owned()
    } else {
        append(prefix, s)
    }
}

/// `s` unchanged when empty or already ending with `suffix`, else `s + suffix`.
pub fn with_suffix(s: &str, suffix: &str) -> (r: String)
    ensures
        r@ == with_suffix_spec(s@, suffix@),
{
    if s.is_empty() || ends_with_str(s, suffix) {
        s.to_owned()
    } else {
        append(s, suffix)
    }
}

/// How many fill characters a field of width `pad` needs for content of length `len`.
pub open spec fn fill_len(len: int, pad: int) -> int {
    if pad > len {
        pad - len
    } else {
        0
    }
}

/// A run of `n` copies of `c`.
pub open spec fn char_run(c: char, n: int) -> Seq<char> {
    Seq::new(if n >= 0 {
        n as nat
    } else {
        0
    }, |i: int| c)
}

fn push_run(out: &mut String, c: char, n: usize)
    ensures
        final(out)@ == old(out)@ + char_run(c, n as int),
{
    let mut k: usize = 0;
    while k < n
        invariant
            k <= n,
            out@ == old(out)@ + char_run(c, k as int),
        decreases n - k,
    {
        push_char(out, c);
        proof {
            assert(out@ =~= old(out)@ + char_run(c, k + 1 as int));
        }
        k += 1;
    }
}

/// `s` padded on the right with `padchar` up to width `pad` (in characters).
pub fn pad_with(s: &str, pad: usize, padchar: char) -> (r: String)
    ensures
        r@ == s@ + char_run(padchar, fill_len(s@.len() as int, pad as int)),
{
    let mut out = s.to_owned();
    let len = s.unicode_len();
    if pad > len {
        push_run(&mut out, padchar, pad - len);
    } else {
        proof {
            assert(out@ =~= s@ + char_run(padchar, 0));
        }
    }
    out
}

/// `s` padded on the left with `padchar` up to width `pad` (in characters).
pub fn lpad_with(s: &str, pad: usize, padchar: char) -> (r: String)
    ensures
        r@ == char_run(padchar, fill_len(s@.len() as int, pad as int)) + s@,
{
    let mut out = String::new();
    let len = s.unicode_len();
    if pad > len {
        push_run(&mut out, padchar, pad - len);
    }
    proof {
        assert(out@ =~= char_run(padchar, fill_len(s@.len() as int, pad as int)));
    }
    out.append(s);
    out
}

/// `s` padded on the right with spaces up to width `pad`.
pub fn pad(s: &str, width: usize) -> (r: String)
    ensures
        r@ == s@ + char_run(' ', fill_len(s@.len() as int, width as int)),
{
    pad_with(s, width, ' ')
}

/// `s` padded on the right with zeroes up to width `pad`.
pub fn pad_0(s: &str, width: usize) -> (r: String)
    ensures
        r@ == s@ + char_run('0', fill_len(s@.len() as int, width as int)),
{
    pad_with(s, width, '0')
}

/// `s` padded on the left with spaces up to width `pad`.
pub fn lpad(s: &str, width: usize) -> (r: String)
    ensures
        r@ == char_run(' ', fill_len(s@.len() as int, width as int)) + s@,
{
    lpad_with(s, width, ' ')
}

/// `s` padded on the left with zeroes up to width `pad`.
pub fn lpad_0(s: &str, width: usize) -> (r: String)
    ensures
        r@ == char_run('0', fill_len(s@.len() as int, width as int)) + s@,
{
    lpad_with(s, width, '0')
}

/// An ASCII whitespace character.
pub open spec fn is_ws(c: char) -> bool {
    c == ' ' || c == '\t' || c == '\n' || c == '\r' || c == '\x0b' || c == '\x0c'
}

pub fn is_ws_char(c: char) -> (r: bool)
    ensures
        r == is_ws(c),
{
    c == ' ' || c == '\t' || c == '\n' || c == '\r' || c == '\x0b' || c == '\x0c'
}

/// `s` with every ASCII whitespace character removed.
pub fn remove_whitespace(s: &str) -> (r: String)
    ensures
        r@ == s@.filter(|c: char| !is_ws(c)),
{
    let v = to_chars(s);
    let mut out: Vec<char> = Vec::new();
    let mut i: usize = 0;
    proof {
        reveal(Seq::filter);
    }
    while i < v.len()
        invariant
            i <= v@.len(),
            v@ == s@,
            out@ == s@.subrange(0, i as int).filter(|c: char| !is_ws(c)),
        decreases v@.len() - i,
    {
        let keep = !is_ws_char(v[i]);
        proof {
            reveal(Seq::filter);
            let sub1 = s@.subrange(0, i + 1 as int);
            assert(sub1.drop_last() =~= s@.subrange(0, i as int));
            assert(sub1.last() == s@[i as int]);
        }
        if keep {
            out.push(v[i]);
        }
        i += 1;
    }
    proof {
        assert(s@.subrange(0, s@.len() as int) =~= s@);
    }
    from_chars(&out)
}

// endregion

// region replace

/// `t` with every occurrence of `p` replaced by `r`, scanning left to right
/// over non-overlapping matches; unchanged when `p` is empty.
pub open spec fn replaced(t: Seq<char>, p: Seq<char>, r: Seq<char>) -> Seq<char>
    decreases t.len(),
{
    if p.len() == 0 || t.len() < p.len() {
        t
    } else if t.subrange(0, p.len() as int) == p {
        r + replaced(t.skip(p.len() as int), p, r)
    } else {
        seq![t[0]] + replaced(t.skip(1), p, r)
    }
}

fn replace_chars(t: &Vec<char>, p: &Vec<char>, r: &Vec<char>) -> (out: Vec<char>)
    requires
        p@.len() >= 1,
    ensures
        out@ == replaced(t@, p@, r@),
{
    let mut out: Vec<char> = Vec::new();
    let mut i: usize = 0;
    proof {
        assert(t@.skip(0) =~= t@);
        assert(out@ + replaced(t@, p@, r@) =~= replaced(t@, p@, r@));
    }
    while i < t.len()
        invariant
            i <= t@.len(),
            p@.len() >= 1,
            out@ + replaced(t@.skip(i as int), p@, r@) == replaced(t@, p@, r@),
        decreases t@.len() - i,
    {
        let ghost rest = t@.skip(i as int);
        let hit = if p.len() <= t.len() - i {
            match_at(t, p, i)
        } else {
            false
        };
        if hit {
            proof {
                assert(rest.subrange(0, p@.len() as int) =~= t@.subrange(
                    i as int,
                    i + p@.len(),
                ));
                assert(rest.skip(p@.len() as int) =~= t@.skip(i + p@.len()));
                assert(replaced(rest, p@, r@) == r@ + replaced(t@.skip(i + p@.len()), p@, r@));
            }
            let ghost snap = out@;
            let mut k: usize = 0;
            while k < r.len()
                invariant
                    k <= r@.len(),
                    out@ == snap + r@.subrange(0, k as int),
                decreases r@.len() - k,
            {
                out.push(r[k]);
                proof {
                    assert(out@ =~= snap + r@.subrange(0, k + 1 as int));
                }
                k += 1;
            }
            proof {
                assert(r@.subrange(0, r@.len() as int) =~= r@);
                assert(out@ + replaced(t@.skip(i + p@.len()), p@, r@) =~= snap + replaced(
                    rest,
                    p@,
                    r@,
                ));
            }
            i += p.len();
        } else {
            proof {
                if rest.len() >= p@.len() {
                    assert(rest.subrange(0, p@.len() as int) =~= t@.subrange(
                        i as int,
                        i + p@.len(),
                    ));
                    assert(rest.subrange(0, p@.len() as int) != p@);
                    assert(rest.skip(1) =~= t@.skip(i + 1));
                    assert(replaced(rest, p@, r@) == seq![t@[i as int]] + replaced(
                        t@.skip(i + 1),
                        p@,
                        r@,
                    ));
                } else {
                    assert(replaced(rest, p@, r@) == rest);
                    assert(t@.skip(i + 1).len() < p@.len());
                    assert(replaced(t@.skip(i + 1), p@, r@) == t@.skip(i + 1));
                    assert(seq![t@[i as int]] + t@.skip(i + 1) =~= rest);
                }
                let snap2 = out@;
                assert((snap2 + seq![t@[i as int]]) + replaced(t@.skip(i + 1), p@, r@) =~= snap2
                    + replaced(rest, p@, r@));
            }
            out.push(t[i]);
            i += 1;
        }
    }
    proof {
        assert(t@.skip(t@.len() as int) =~= Seq::<char>::empty());
        assert(replaced(t@.skip(t@.len() as int), p@, r@) =~= Seq::<char>::empty());
        assert(out@ + Seq::<char>::empty() =~= out@);
    }
    out
}

/// `s` with every occurrence of `pat` replaced by `rep`.
pub fn replace(s: &str, pat: &str, rep: &str) -> (r: String)
    ensures
        r@ == replaced(s@, pat@, rep@),
{
    let sv = to_chars(s);
    let pv = to_chars(pat);
    let rv = to_chars(rep);
    if pv.len() == 0 {
        return s.to_owned();
    }
    let out = replace_chars(&sv, &pv, &rv);
    from_chars(&out)
}

// endregion

// region text extraction

/// The view of an optional string.
pub open spec fn opt_str_view(o: Option<String>) -> Option<Seq<char>> {
    match o {
        Some(s) => Some(s@),
        None => None,
    }
}

/// `i` is the position of the leftmost occurrence of `p` in `t`, where an
/// empty pattern matches at position zero.
pub open spec fn eff_first(t: Seq<char>, p: Seq<char>, i: int) -> bool {
    if p.len() == 0 {
        i == 0
    } else {
        is_first_match(t, p, i)
    }
}

/// `i` is the position of the rightmost occurrence of `p` in `t`, where an
/// empty pattern matches at the end.
pub open spec fn eff_last(t: Seq<char>, p: Seq<char>, i: int) -> bool {
    if p.len() == 0 {
        i == t.len()
    } else {
        is_last_match(t, p, i)
    }
}

/// What the snippet after a match at `starts` is, for a length request `k`:
/// non-negative `k` takes `k` characters (clamped to the end), negative `k`
/// stops `|k|` characters before the end; a `|k|` of at least the whole text
/// length means "to the end"; an empty range yields nothing.
pub open spec fn text_from_at(t: Seq<char>, starts: int, k: int) -> Option<Seq<char>> {
    let ulast = if k >= 0 {
        k
    } else {
        -k
    };
    let finish = if k >= 0 && ulast < t.len() {
        if starts + ulast <= t.len() {
            starts + ulast
        } else {
            t.len() as int
        }
    } else if k < 0 && ulast < t.len() {
        t.len() - ulast
    } else {
        t.len() as int
    };
    if finish <= starts {
        None
    } else {
        Some(t.subrange(starts, finish))
    }
}

fn snippet(v: &Vec<char>, starts: usize, num_chars: i64) -> (r: Option<String>)
    requires
        starts <= v@.len(),
    ensures
        opt_str_view(r) == text_from_at(v@, starts as int, num_chars as int),
{
    let text_len = v.len();
    let ulast: u64 = if num_chars >= 0 {
        num_chars as u64
    } else if num_chars == i64::MIN {
        9223372036854775808u64
    } else {
        (-num_chars) as u64
    };
    let positive = num_chars >= 0;
    let smaller = ulast < (text_len as u64);
    let finish: usize = if positive && smaller {
        let ul = ulast as usize;
        if ul <= text_len - starts {
            starts + ul
        } else {
            text_len
        }
    } else if !positive && smaller {
        text_len - (ulast as usize)
    } else {
        text_len
    };
    if finish <= starts {
        None
    } else {
        let mut out: Vec<char> = Vec::new();
        let mut i: usize = starts;
        while i < finish
            invariant
                starts <= i <= finish <= v@.len(),
                out@ == v@.subrange(starts as int, i as int),
            decreases finish - i,
        {
            out.push(v[i]);
            proof {
                assert(out@ =~= v@.subrange(starts as int, i + 1 as int));
            }
            i += 1;
        }
        Some(from_chars(&out))
    }
}

/// The text that follows the first occurrence of `pat` in `s`, cut down as
/// `num_chars` asks (a count from the match when non-negative, a count off the
/// end of `s` when negative).
pub fn find_text_from(s: &str, pat: &str, num_chars: i64) -> (r: Option<String>)
    ensures
        pat@.len() >= 1 && !contains_sub(s@, pat@) ==> r is None,
        forall|i: int|
            eff_first(s@, pat@, i) ==> opt_str_view(r) == text_from_at(
                s@,
                i + pat@.len(),
                num_chars as int,
            ),
{
    let sv = to_chars(s);
    let pv = to_chars(pat);
    if pv.len() == 0 {
        return snippet(&sv, 0, num_chars);
    }
    let n = sv.len();
    match find_first(&sv, &pv) {
        None => None,
        Some(i) => {
            proof {
                assert(i + pv@.len() <= n);
            }
            snippet(&sv, i + pv.len(), num_chars)
        },
    }
}

/// The text strictly between the first occurrence of `starts_text` and the
/// last occurrence of `ends_text`, when both occur in that order.
pub fn find_text_between(s: &str, starts_text: &str, ends_text: &str) -> (r: Option<String>)
    ensures
        starts_text@.len() >= 1 && !contains_sub(s@, starts_text@) ==> r is None,
        ends_text@.len() >= 1 && !contains_sub(s@, ends_text@) ==> r is None,
        forall|i: int, j: int|
            eff_first(s@, starts_text@, i) && eff_last(s@, ends_text@, j) ==> opt_str_view(r) == (
            if i + starts_text@.len() < j {
                Some(s@.subrange(i + starts_text@.len(), j))
            } else {
                None
            }),
{
    let sv = to_chars(s);
    let av = to_chars(starts_text);
    let bv = to_chars(ends_text);
    let n = sv.len();
    let start_pos: usize = if av.len() == 0 {
        0
    } else {
        match find_first(&sv, &av) {
            None => {
                return None;
            },
            Some(i) => i,
        }
    };
    let ends_pos: usize = if bv.len() == 0 {
        sv.len()
    } else {
        match find_last(&sv, &bv) {
            None => {
                return None;
            },
            Some(j) => j,
        }
    };
    proof {
        assert(start_pos + av@.len() <= n);
    }
    let starting = start_pos + av.len();
    if starting < ends_pos {
        let mut out: Vec<char> = Vec::new();
        let mut i: usize = starting;
        while i < ends_pos
            invariant
                starting <= i <= ends_pos <= sv@.len(),
                out@ == sv@.subrange(starting as int, i as int),
            decreases ends_pos - i,
        {
            out.push(sv[i]);
            proof {
                assert(out@ =~= sv@.subrange(starting as int, i + 1 as int));
            }
            i += 1;
        }
        Some(from_chars(&out))
    } else {
        None
    }
}

// endregion

// region any-pattern tests

/// Whether `s` contains any of the patterns.
pub fn contains_any(s: &str, patterns: &Vec<&str>) -> (r: bool)
    ensures
        r == exists|i: int| 0 <= i < patterns@.len() && contains_sub(s@, patterns@[i]@),
{
    let mut i: usize = 0;
    while i < patterns.len()
        invariant
            i <= patterns@.len(),
            forall|j: int| 0 <= j < i ==> !contains_sub(s@, patterns@[j]@),
        decreases patterns@.len() - i,
    {
        let p = patterns[i];
        if p.is_empty() {
            proof {
                assert(has_sub_at(s@, p@, 0)) by {
                    assert(s@.subrange(0, 0) =~= p@);
                }
            }
            return true;
        }
        if contains_str(s, p) {
            return true;
        }
        i += 1;
    }
    false
}

/// Whether `s` starts with any of the patterns.
pub fn starts_with_any(s: &str, patterns: &Vec<&str>) -> (r: bool)
    ensures
        r == exists|i: int| 0 <= i < patterns@.len() && is_prefix(s@, patterns@[i]@),
{
    let mut i: usize = 0;
    while i < patterns.len()
        invariant
            i <= patterns@.len(),
            forall|j: int| 0 <= j < i ==> !is_prefix(s@, patterns@[j]@),
        decreases patterns@.len() - i,
    {
        if starts_with_str(s, patterns[i]) {
            return true;
        }
        i += 1;
    }
    false
}

/// Whether `s` ends with any of the patterns.
pub fn ends_with_any(s: &str, patterns: &Vec<&str>) -> (r: bool)
    ensures
        r == exists|i: int| 0 <= i < patterns@.len() && is_suffix(s@, patterns@[i]@),
{
    let mut i: usize = 0;
    while i < patterns.len()
        invariant
            i <= patterns@.len(),
            forall|j: int| 0 <= j < i ==> !is_suffix(s@, patterns@[j]@),
        decreases patterns@.len() - i,
    {
        if ends_with_str(s, patterns[i]) {
            return true;
        }
        i += 1;
    }
    false
}

/// Decimal notation holds only digits.
pub proof fn lemma_dec_str_digits(n: nat)
    ensures
        all_digits(dec_str(n)),
        dec_str(n).len() >= 1,
    decreases n,
{
    if n < 10 {
    } else {
        lemma_dec_str_digits(n / 10);
        assert forall|i: int| 0 <= i < dec_str(n).len() implies is_digit_char(
            #[trigger] dec_str(n)[i],
        ) by {
            if i < dec_str(n).len() - 1 {
                assert(dec_str(n)[i] == dec_str(n / 10)[i]);
            }
        }
    }
}

/// Decimal notation denotes the number it was made from.
pub proof fn lemma_dec_str_value(n: nat)
    ensures
        digits_val(dec_str(n)) == n,
    decreases n,
{
    if n < 10 {
        assert(dec_str(n).drop_last() =~= Seq::<char>::empty());
        assert(dec_str(n).last() == digit_char(n as int));
        assert(digit_val(digit_char(n as int)) == n);
        assert(digits_val(dec_str(n)) == digits_val(Seq::<char>::empty()) * 10 + n);
    } else {
        lemma_dec_str_value(n / 10);
        assert(dec_str(n).drop_last() =~= dec_str(n / 10));
        assert(dec_str(n).last() == digit_char((n % 10) as int));
        assert(digit_val(digit_char((n % 10) as int)) == n % 10);
        vstd::arithmetic::div_mod::lemma_fundamental_div_mod(n as int, 10);
    }
}

/// A number below ten to the `k` needs at most `k` digits.
pub proof fn lemma_dec_str_len(n: nat, k: nat)
    requires
        k >= 1,
        n < pow10(k),
    ensures
        dec_str(n).len() <= k,
    decreases n,
{
    if n >= 10 {
        assert(pow10(k) == 10 * pow10((k - 1) as nat));
        assert(k >= 2) by {
            if k == 1 {
                reveal_with_fuel(pow10, 2);
            }
        }
        assert(n / 10 < pow10((k - 1) as nat)) by {
            vstd::arithmetic::div_mod::lemma_fundamental_div_mod(n as int, 10);
        }
        lemma_dec_str_len(n / 10, (k - 1) as nat);
    }
}

/// Leading zeroes do not change what a digit string denotes.
pub proof fn lemma_digits_val_zeros(z: int, s: Seq<char>)
    ensures
        digits_val(char_run('0', z) + s) == digits_val(s),
    decreases s.len(),
{
    if s.len() == 0 {
        assert(char_run('0', z) + s =~= char_run('0', z));
        lemma_digits_val_zero_run(z);
    } else {
        assert((char_run('0', z) + s).drop_last() =~= char_run('0', z) + s.drop_last());
        lemma_digits_val_zeros(z, s.drop_last());
        assert((char_run('0', z) + s).last() == s.last());
    }
}

proof fn lemma_digits_val_zero_run(z: int)
    ensures
        digits_val(char_run('0', z)) == 0,
    decreases z,
{
    if z > 0 {
        assert(char_run('0', z).drop_last() =~= char_run('0', z - 1));
        lemma_digits_val_zero_run(z - 1);
        assert(char_run('0', z).last() == '0');
    } else {
        assert(char_run('0', z) =~= Seq::<char>::empty());
    }
}

/// The leading digit carries the bulk of the value: splitting it off leaves
/// the value of the rest.
pub proof fn lemma_digits_val_first(s: Seq<char>)
    requires
        s.len() >= 1,
    ensures
        digits_val(s) == digit_val(s[0]) * pow10((s.len() - 1) as nat) + digits_val(s.skip(1)),
    decreases s.len(),
{
    if s.len() == 1 {
        assert(s.drop_last() =~= Seq::<char>::empty());
        assert(s.skip(1) =~= Seq::<char>::empty());
        assert(pow10(0) == 1);
        assert(s.last() == s[0]);
        assert(digits_val(s) == digits_val(Seq::<char>::empty()) * 10 + digit_val(s[0]));
        assert(digit_val(s[0]) * 1 == digit_val(s[0]));
    } else {
        lemma_digits_val_first(s.drop_last());
        assert(s.drop_last().skip(1) =~= s.skip(1).drop_last());
        assert(s.drop_last()[0] == s[0]);
        let p = pow10((s.len() - 2) as nat);
        assert(digits_val(s) == (digit_val(s[0]) * p + digits_val(s.skip(1).drop_last())) * 10
            + digit_val(s.last()));
        assert((digit_val(s[0]) * p) * 10 == digit_val(s[0]) * (p * 10)) by {
            vstd::arithmetic::mul::lemma_mul_is_associative(
                digit_val(s[0]) as int,
                p as int,
                10,
            );
        }
        assert(pow10((s.len() - 1) as nat) == 10 * p);
        assert(digits_val(s.skip(1)) == digits_val(s.skip(1).drop_last()) * 10 + digit_val(
            s.skip(1).last(),
        ));
        assert(s.skip(1).last() == s.last());
        vstd::arithmetic::mul::lemma_mul_is_distributive_add(
            10,
            digit_val(s[0]) * p as int,
            digits_val(s.skip(1).drop_last()) as int,
        );
    }
}

// endregion

// region case mapping, trimming, scanning

/// The ASCII lowercase counterpart of a character.
pub open spec fn lower_char(c: char) -> char {
    if 65 <= c as u32 <= 90 {
        ((c as u32 + 32) as u8) as char
    } else {
        c
    }
}

/// The ASCII uppercase counterpart of a character.
pub open spec fn upper_char(c: char) -> char {
    if 97 <= c as u32 <= 122 {
        ((c as u32 - 32) as u8) as char
    } else {
        c
    }
}

fn lower_char_of(c: char) -> (r: char)
    ensures
        r == lower_char(c),
{
    let u = c as u32;
    if 65 <= u && u <= 90 {
        ((u + 32) as u8) as char
    } else {
        c
    }
}

fn upper_char_of(c: char) -> (r: char)
    ensures
        r == upper_char(c),
{
    let u = c as u32;
    if 97 <= u && u <= 122 {
        ((u - 32) as u8) as char
    } else {
        c
    }
}

/// `s` with every ASCII letter lowercased.
pub fn to_ascii_lower(s: &str) -> (r: String)
    ensures
        r@ == s@.map_values(|c: char| lower_char(c)),
{
    let v = to_chars(s);
    let mut out: Vec<char> = Vec::new();
    let mut i: usize = 0;
    while i < v.len()
        invariant
            i <= v@.len(),
            v@ == s@,
            out@ == s@.subrange(0, i as int).map_values(|c: char| lower_char(c)),
        decreases v@.len() - i,
    {
        out.push(lower_char_of(v[i]));
        proof {
            assert(out@ =~= s@.subrange(0, i + 1 as int).map_values(|c: char| lower_char(c)));
        }
        i += 1;
    }
    proof {
        assert(s@.subrange(0, s@.len() as int) =~= s@);
    }
    from_chars(&out)
}

/// `s` with every ASCII letter uppercased.
pub fn to_ascii_upper(s: &str) -> (r: String)
    ensures
        r@ == s@.map_values(|c: char| upper_char(c)),
{
    let v = to_chars(s);
    let mut out: Vec<char> = Vec::new();
    let mut i: usize = 0;
    while i < v.len()
        invariant
            i <= v@.len(),
            v@ == s@,
            out@ == s@.subrange(0, i as int).map_values(|c: char| upper_char(c)),
        decreases v@.len() - i,
    {
        out.push(upper_char_of(v[i]));
        proof {
            assert(out@ =~= s@.subrange(0, i + 1 as int).map_values(|c: char| upper_char(c)));
        }
        i += 1;
    }
    proof {
        assert(s@.subrange(0, s@.len() as int) =~= s@);
    }
    from_chars(&out)
}

/// The length of the run of characters satisfying `p` that starts at `i`.
pub open spec fn run_len(s: Seq<char>, i: int, p: spec_fn(char) -> bool) -> int
    decreases s.len() - i,
{
    if i < 0 || i >= s.len() || !p(s[i]) {
        0
    } else {
        1 + run_len(s, i + 1, p)
    }
}

/// A scan that saw `p` hold from `i` up to `j` and fail (or the text end) at
/// `j` has found the run length.
pub proof fn lemma_run_len(s: Seq<char>, i: int, j: int, p: spec_fn(char) -> bool)
    requires
        0 <= i <= j <= s.len(),
        forall|k: int| i <= k < j ==> p(#[trigger] s[k]),
        j == s.len() || !p(s[j]),
    ensures
        run_len(s, i, p) == j - i,
    decreases j - i,
{
    if i < j {
        lemma_run_len(s, i + 1, j, p);
    }
}

/// What a run length means: the characters inside the run satisfy `p` and
/// the character just past it (if any) does not.
pub proof fn lemma_run_len_props(s: Seq<char>, i: int, p: spec_fn(char) -> bool)
    requires
        0 <= i <= s.len(),
    ensures
        ({
            let r = run_len(s, i, p);
            0 <= r && i + r <= s.len() && (forall|k: int| i <= k < i + r ==> p(#[trigger] s[k])) && (
            i + r == s.len() || !p(s[i + r]))
        }),
    decreases s.len() - i,
{
    if i < s.len() && p(s[i]) {
        lemma_run_len_props(s, i + 1, p);
    }
}

/// How many ASCII whitespace characters `s` begins with.
pub open spec fn lead_ws(s: Seq<char>) -> int {
    run_len(s, 0, |c: char| is_ws(c))
}

/// `s` without its leading and trailing ASCII whitespace runs.
pub open spec fn trimmed(s: Seq<char>) -> Seq<char> {
    let a = lead_ws(s);
    let rest = s.skip(a);
    let b = run_len(rest.reverse(), 0, |c: char| is_ws(c));
    rest.take(rest.len() - b)
}

/// `s` with ASCII whitespace removed from both ends.
pub fn trim_str(s: &str) -> (r: String)
    ensures
        r@ == trimmed(s@),
{
    let v = to_chars(s);
    let n = v.len();
    let mut a: usize = 0;
    while a < n && is_ws_char(v[a])
        invariant
            a <= n,
            n == v@.len(),
            v@ == s@,
            forall|k: int| 0 <= k < a ==> is_ws(#[trigger] s@[k]),
        decreases n - a,
    {
        a += 1;
    }
    proof {
        lemma_run_len(s@, 0, a as int, |c: char| is_ws(c));
    }
    let ghost rest = s@.skip(a as int);
    let mut b: usize = 0;
    while b < n - a && is_ws_char(v[n - 1 - b])
        invariant
            a <= n,
            b <= n - a,
            n == v@.len(),
            v@ == s@,
            rest == s@.skip(a as int),
            forall|k: int| 0 <= k < b ==> is_ws(#[trigger] rest.reverse()[k]),
        decreases n - a - b,
    {
        proof {
            assert(rest.reverse()[b as int] == s@[n - 1 - b]);
        }
        b += 1;
    }
    proof {
        if (b as int) < rest.len() {
            assert(rest.reverse()[b as int] == s@[n - 1 - b]);
        }
        lemma_run_len(rest.reverse(), 0, b as int, |c: char| is_ws(c));
    }
    let mut out: Vec<char> = Vec::new();
    let mut i: usize = a;
    while i < n - b
        invariant
            a <= i <= n - b,
            b <= n - a,
            n == v@.len(),
            v@ == s@,
            out@ == s@.subrange(a as int, i as int),
        decreases n - b - i,
    {
        out.push(v[i]);
        proof {
            assert(out@ =~= s@.subrange(a as int, i + 1 as int));
        }
        i += 1;
    }
    proof {
        assert(out@ =~= trimmed(s@));
    }
    from_chars(&out)
}

// endregion

// region decimal digits

/// A decimal digit character.
pub open spec fn is_digit_char(c: char) -> bool {
    48 <= c as u32 <= 57
}

/// The value of one decimal digit character.
pub open spec fn digit_val(c: char) -> nat {
    if is_digit_char(c) {
        (c as u32 - 48) as nat
    } else {
        0
    }
}

/// The digit character for a value below ten.
pub open spec fn digit_char(d: int) -> char {
    if d == 0 {
        '0'
    } else if d == 1 {
        '1'
    } else if d == 2 {
        '2'
    } else if d == 3 {
        '3'
    } else if d == 4 {
        '4'
    } else if d == 5 {
        '5'
    } else if d == 6 {
        '6'
    } else if d == 7 {
        '7'
    } else if d == 8 {
        '8'
    } else {
        '9'
    }
}

fn digit_char_of(d: u64) -> (c: char)
    requires
        d < 10,
    ensures
        c == digit_char(d as int),
{
    if d == 0 {
        '0'
    } else if d == 1 {
        '1'
    } else if d == 2 {
        '2'
    } else if d == 3 {
        '3'
    } else if d == 4 {
        '4'
    } else if d == 5 {
        '5'
    } else if d == 6 {
        '6'
    } else if d == 7 {
        '7'
    } else if d == 8 {
        '8'
    } else {
        '9'
    }
}

/// Every character is a decimal digit.
pub open spec fn all_digits(s: Seq<char>) -> bool {
    forall|i: int| 0 <= i < s.len() ==> is_digit_char(#[trigger] s[i])
}

/// The number a sequence of digit characters denotes.
pub open spec fn digits_val(s: Seq<char>) -> nat
    decreases s.len(),
{
    if s.len() == 0 {
        0
    } else {
        digits_val(s.drop_last()) * 10 + digit_val(s.last())
    }
}

/// The decimal notation of a number, without leading zeroes (a single zero
/// for zero itself).
pub open spec fn dec_str(n: nat) -> Seq<char>
    decreases n,
{
    if n < 10 {
        seq![digit_char(n as int)]
    } else {
        dec_str(n / 10).push(digit_char((n % 10) as int))
    }
}

/// The decimal notation of `n`.
pub fn u64_to_string(n: u64) -> (r: String)
    ensures
        r@ == dec_str(n as nat),
    decreases n,
{
    if n < 10 {
        let mut s = String::new();
        push_char(&mut s, digit_char_of(n));
        proof {
            assert(s@ =~= dec_str(n as nat));
        }
        s
    } else {
        let mut s = u64_to_string(n / 10);
        push_char(&mut s, digit_char_of(n % 10));
        s
    }
}

proof fn lemma_digits_val_prefix_mono(s: Seq<char>, i: int, j: int)
    requires
        0 <= i <= j <= s.len(),
    ensures
        digits_val(s.subrange(0, i)) <= digits_val(s.subrange(0, j)),
    decreases j - i,
{
    if i < j {
        lemma_digits_val_prefix_mono(s, i, j - 1);
        let a = s.subrange(0, j - 1);
        let b = s.subrange(0, j);
        assert(b.drop_last() =~= a);
        assert(digits_val(b) == digits_val(a) * 10 + digit_val(b.last()));
    }
}

/// The slice of a character vector between two positions, as a new vector.
pub fn subvec(v: &Vec<char>, from: usize, to: usize) -> (r: Vec<char>)
    requires
        from <= to <= v@.len(),
    ensures
        r@ == v@.subrange(from as int, to as int),
{
    let mut out: Vec<char> = Vec::new();
    let mut i: usize = from;
    while i < to
        invariant
            from <= i <= to <= v@.len(),
            out@ == v@.subrange(from as int, i as int),
        decreases to - i,
    {
        out.push(v[i]);
        proof {
            assert(out@ =~= v@.subrange(from as int, i + 1 as int));
        }
        i += 1;
    }
    out
}

/// Ten to the `n`.
pub open spec fn pow10(n: nat) -> nat
    decreases n,
{
    if n == 0 {
        1
    } else {
        10 * pow10((n - 1) as nat)
    }
}

/// A digit string of length `n` denotes less than ten to the `n`.
pub proof fn lemma_digits_val_upper(s: Seq<char>)
    requires
        all_digits(s),
    ensures
        digits_val(s) < pow10(s.len()),
    decreases s.len(),
{
    if s.len() > 0 {
        assert(all_digits(s.drop_last()));
        lemma_digits_val_upper(s.drop_last());
        assert(digit_val(s.last()) <= 9);
    }
}

/// The length of the run of decimal digits starting at `from`.
pub fn scan_digit_run(v: &Vec<char>, from: usize) -> (r: usize)
    requires
        from <= v@.len(),
    ensures
        from <= from + r <= v@.len(),
        r == run_len(v@, from as int, |c: char| is_digit_char(c)),
{
    let mut i: usize = from;
    while i < v.len() && digit_char_exec(v[i])
        invariant
            from <= i <= v@.len(),
            forall|k: int| from <= k < i ==> is_digit_char(#[trigger] v@[k]),
        decreases v@.len() - i,
    {
        i += 1;
    }
    proof {
        lemma_run_len(v@, from as int, i as int, |c: char| is_digit_char(c));
    }
    i - from
}

fn digit_char_exec(c: char) -> (r: bool)
    ensures
        r == is_digit_char(c),
{
    let u = c as u32;
    48 <= u && u <= 57
}

/// The number denoted by a string of decimal digits; `None` when the string
/// is empty, holds a non-digit, or denotes more than `u64::MAX`.
pub fn parse_digits(v: &Vec<char>) -> (r: Option<u64>)
    ensures
        match r {
            Some(x) => v@.len() >= 1 && all_digits(v@) && digits_val(v@) == x,
            None => v@.len() == 0 || !all_digits(v@) || digits_val(v@) > u64::MAX,
        },
{
    if v.len() == 0 {
        return None;
    }
    let mut acc: u64 = 0;
    let mut i: usize = 0;
    proof {
        assert(v@.subrange(0, 0).len() == 0);
    }
    while i < v.len()
        invariant
            i <= v@.len(),
            acc as nat == digits_val(v@.subrange(0, i as int)),
            all_digits(v@.subrange(0, i as int)),
        decreases v@.len() - i,
    {
        let c = v[i];
        let u = c as u32;
        proof {
            let b = v@.subrange(0, i + 1 as int);
            assert(b.drop_last() =~= v@.subrange(0, i as int));
            assert(b.last() == v@[i as int]);
        }
        if u < 48 || u > 57 {
            return None;
        }
        let d = (u - 48) as u64;
        let wide: u128 = (acc as u128) * 10 + (d as u128);
        if wide > 0xffff_ffff_ffff_ffffu128 {
            proof {
                lemma_digits_val_prefix_mono(v@, i + 1, v@.len() as int);
                assert(v@.subrange(0, v@.len() as int) =~= v@);
            }
            return None;
        }
        acc = wide as u64;
        i += 1;
    }
    proof {
        assert(v@.subrange(0, v@.len() as int) =~= v@);
    }
    Some(acc)
}

/// The number denoted by a string of decimal digits.
pub fn parse_u64(s: &str) -> (r: Option<u64>)
    ensures
        match r {
            Some(x) => s@.len() >= 1 && all_digits(s@) && digits_val(s@) == x,
            None => s@.len() == 0 || !all_digits(s@) || digits_val(s@) > u64::MAX,
        },
{
    let v = to_chars(s);
    parse_digits(&v)
}

// endregion

// region query text

/// What a raw user query looks like on the wire: the word operators
/// uppercased and spaces percent-encoded.
pub open spec fn solr_query_spec(q: Seq<char>) -> Seq<char> {
    let step1 = replaced(q, " or "@, " OR "@);
    let step2 = replaced(step1, " and "@, " AND "@);
    let step3 = replaced(step2, " not "@, " NOT "@);
    replaced(step3, " "@, "%20"@)
}

/// Encodes a user query for a Solr URL: uppercases the word operators
/// ` or `, ` and `, ` not ` and percent-encodes every space.
pub fn solr_query(query: &str) -> (r: String)
    ensures
        r@ == solr_query_spec(query@),
{
    let step1 = replace(query, " or ", " OR ");
    let step2 = replace(step1.as_str(), " and ", " AND ");
    let step3 = replace(step2.as_str(), " not ", " NOT ");
    replace(step3.as_str(), " ", "%20")
}

/// The moment-of-midnight tail that completes a prefix of an ISO timestamp of
/// the shape `yyyy-mm-ddTHH:MM:SSZ`.
pub open spec fn iso_tail(n: int) -> Seq<char> {
    if 0 <= n <= 20 {
        "2020-01-01T00:00:00Z"@.skip(n)
    } else {
        Seq::empty()
    }
}

/// Replaces `pattern` in `query` by `value` completed to a full ISO timestamp
/// (a plain date gains `T00:00:00Z`, a date with time gains `Z`).
pub fn replace_solr_date(query: &str, pattern: &str, value: &str) -> (r: String)
    ensures
        r@ == replaced(query@, pattern@, value@ + iso_tail(value@.len() as int)),
{
    let iso = "2020-01-01T00:00:00Z";
    proof {
        reveal_strlit("2020-01-01T00:00:00Z");
    }
    let iso_chars = to_chars(iso);
    let mut vc = to_chars(value);
    let vlen = vc.len();
    if vlen <= 20 {
        let mut k: usize = vlen;
        while k < 20
            invariant
                vlen <= k <= 20,
                iso_chars@ == "2020-01-01T00:00:00Z"@,
                iso_chars@.len() == 20,
                vc@ == value@ + iso_chars@.subrange(vlen as int, k as int),
            decreases 20 - k,
        {
            vc.push(iso_chars[k]);
            proof {
                assert(vc@ =~= value@ + iso_chars@.subrange(vlen as int, k + 1 as int));
            }
            k += 1;
        }
        proof {
            assert(iso_chars@.subrange(vlen as int, 20) =~= iso_tail(vlen as int));
        }
    } else {
        proof {
            assert(vc@ =~= value@ + iso_tail(value@.len() as int));
        }
    }
    let value2 = from_chars(&vc);
    replace(query, pattern, value2.as_str())
}

/// The file-name component of a path: what follows the last `/`, the whole
/// path when there is none; an empty component is an error.
pub fn get_filename(path: &str) -> (r: Result<String, ()>)
    ensures
        (forall|j: int| !has_sub_at(path@, seq!['/'], j)) ==> (if path@.len() == 0 {
            r is Err
        } else {
            r is Ok && r->Ok_0@ == path@
        }),
        forall|j: int|
            is_last_match(path@, seq!['/'], j) ==> (if j + 1 < path@.len() {
                r is Ok && r->Ok_0@ == path@.subrange(j + 1, path@.len() as int)
            } else {
                r is Err
            }),
{
    let v = to_chars(path);
    let slash: Vec<char> = vec!['/'];
    proof {
        assert(slash@ =~= seq!['/']);
    }
    match find_last(&v, &slash) {
        None => {
            if v.len() == 0 {
                Err(())
            } else {
                Ok(path.to_owned())
            }
        },
        Some(j) => {
            let n = v.len();
            proof {
                assert(j + 1 <= n);
            }
            if j + 1 < n {
                let mut out: Vec<char> = Vec::new();
                let mut i: usize = j + 1;
                while i < v.len()
                    invariant
                        j + 1 <= i <= v@.len(),
                        out@ == v@.subrange(j + 1 as int, i as int),
                    decreases v@.len() - i,
                {
                    out.push(v[i]);
                    proof {
                        assert(out@ =~= v@.subrange(j + 1 as int, i + 1 as int));
                    }
                    i += 1;
                }
                Ok(from_chars(&out))
            } else {
                Err(())
            }
        },
    }
}

// endregion

} // verus!
