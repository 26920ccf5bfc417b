//! Character-level text helpers: searching, splitting, trimming and the
//! conversions between `str`, `String` and `Vec<char>` that the protocol
//! code is written against.
use vstd::prelude::*;

verus! {

/// The characters with Unicode's White_Space property.
pub open spec fn is_space(c: char) -> bool {
    ('\u{9}' <= c && c <= '\u{d}') || c == ' ' || c == '\u{85}' || c == '\u{a0}' || c == '\u{1680}'
        || ('\u{2000}' <= c && c <= '\u{200a}') || c == '\u{2028}' || c == '\u{2029}'
        || c == '\u{202f}' || c == '\u{205f}' || c == '\u{3000}'
}

/// `p` occurs in `t` starting at index `i`.
pub open spec fn occurs_at(t: Seq<char>, p: Seq<char>, i: int) -> bool {
    0 <= i && i + p.len() <= t.len() && t.subrange(i, i + p.len()) == p
}

/// `i` is the first index at which `p` occurs in `t`.
pub open spec fn first_at(t: Seq<char>, p: Seq<char>, i: int) -> bool {
    occurs_at(t, p, i) && forall|j: int| 0 <= j < i ==> !occurs_at(t, p, j)
}

/// The first index at which `p` occurs in `t`, or -1 where it does not occur.
pub open spec fn find(t: Seq<char>, p: Seq<char>) -> int {
    if exists|i: int| first_at(t, p, i) {
        choose|i: int| first_at(t, p, i)
    } else {
        -1
    }
}

pub proof fn lemma_find_is(t: Seq<char>, p: Seq<char>, i: int)
    requires
        first_at(t, p, i),
    ensures
        find(t, p) == i,
{
    let k = choose|k: int| first_at(t, p, k);
    assert(first_at(t, p, k));
    if k < i {
        assert(!occurs_at(t, p, k));
    }
    if i < k {
        assert(!occurs_at(t, p, i));
    }
}

pub proof fn lemma_find_none(t: Seq<char>, p: Seq<char>)
    requires
        forall|j: int| 0 <= j ==> !occurs_at(t, p, j),
    ensures
        find(t, p) == -1,
{
    if exists|i: int| first_at(t, p, i) {
        let k = choose|k: int| first_at(t, p, k);
        assert(occurs_at(t, p, k));
    }
}

pub proof fn lemma_find_bounds(t: Seq<char>, p: Seq<char>)
    ensures
        find(t, p) == -1 || occurs_at(t, p, find(t, p)),
        find(t, p) >= 0 ==> find(t, p) + p.len() <= t.len(),
        find(t, p) >= 0 ==> first_at(t, p, find(t, p)),
{
}

/// `t` cut at every occurrence of `sep`, scanning from the left.
pub open spec fn split(t: Seq<char>, sep: Seq<char>) -> Seq<Seq<char>>
    decreases t.len(),
{
    let i = find(t, sep);
    if sep.len() > 0 && i >= 0 && i + sep.len() <= t.len() {
        seq![t.take(i)] + split(t.skip(i + sep.len()), sep)
    } else {
        seq![t]
    }
}

pub proof fn lemma_split_nonempty(t: Seq<char>, sep: Seq<char>)
    ensures
        split(t, sep).len() > 0,
{
}

/// `t` without the White_Space characters at its start.
pub open spec fn trim_start(t: Seq<char>) -> Seq<char>
    decreases t.len(),
{
    if t.len() > 0 && is_space(t[0]) {
        trim_start(t.drop_first())
    } else {
        t
    }
}

/// `t` without the White_Space characters at its end.
pub open spec fn trim_end(t: Seq<char>) -> Seq<char>
    decreases t.len(),
{
    if t.len() > 0 && is_space(t.last()) {
        trim_end(t.drop_last())
    } else {
        t
    }
}

/// `t` without White_Space characters at either end.
pub open spec fn trim(t: Seq<char>) -> Seq<char> {
    trim_end(trim_start(t))
}

/// The maximal runs of non-White_Space characters of `t`, in order.
pub open spec fn words(t: Seq<char>) -> Seq<Seq<char>>
    decreases t.len(),
{
    if t.len() == 0 {
        seq![]
    } else {
        let w = words(t.drop_last());
        let c = t.last();
        if is_space(c) {
            w
        } else if t.len() >= 2 && !is_space(t[t.len() - 2]) && w.len() > 0 {
            w.update(w.len() - 1, w.last().push(c))
        } else {
            w.push(seq![c])
        }
    }
}

/// Whether `c` has Unicode's White_Space property.
pub(crate) fn char_is_space(c: char) -> (r: bool)
    ensures
        r == is_space(c),
{
    ('\u{9}' <= c && c <= '\u{d}') || c == ' ' || c == '\u{85}' || c == '\u{a0}' || c == '\u{1680}'
        || ('\u{2000}' <= c && c <= '\u{200a}') || c == '\u{2028}' || c == '\u{2029}'
        || c == '\u{202f}' || c == '\u{205f}' || c == '\u{3000}'
}

/// A name for what `str::to_lowercase` returns on the given characters.
pub uninterp spec fn lower_of(s: Seq<char>) -> Seq<char>;

/// A name for what `str::to_uppercase` returns on the given characters.
pub uninterp spec fn upper_of(s: Seq<char>) -> Seq<char>;

/// Made only of ASCII capital letters.
pub open spec fn is_ascii_upper(s: Seq<char>) -> bool {
    forall|i: int| 0 <= i < s.len() ==> 'A' <= #[trigger] s[i] && s[i] <= 'Z'
}

/// Relies on `str::to_lowercase`: the result depends on the characters alone.
#[verifier::external_body]
pub(crate) fn lowercase(s: &str) -> (r: String)
    ensures
        r@ == lower_of(s@),
{
    s.to_lowercase()
}

/// Relies on `str::to_uppercase`: the result depends on the characters alone,
/// and text of capital letters is left as it is.
#[verifier::external_body]
pub(crate) fn uppercase(s: &str) -> (r: String)
    ensures
        r@ == upper_of(s@),
        is_ascii_upper(s@) ==> r@ == s@,
{
    s.to_uppercase()
}

/// Relies on `FromIterator<char>` for `String`: the characters in order.
#[verifier::external_body]
pub(crate) fn string_of(cs: &[char]) -> (r: String)
    ensures
        r@ == cs@,
{
    cs.iter().collect()
}

/// The characters of `s`, in order.
pub fn chars_of(s: &str) -> (r: Vec<char>)
    ensures
        r@ == s@,
{
    let mut r: Vec<char> = Vec::new();
    for c in it: s.chars()
        invariant
            r@ == it.seq().take(it.index() as int),
    {
        r.push(c);
    }
    r
}

/// The characters of `s` from index `lo` up to `hi`, as a `String`.
pub fn substring(s: &Vec<char>, lo: usize, hi: usize) -> (r: String)
    requires
        lo <= hi <= s@.len(),
    ensures
        r@ == s@.subrange(lo as int, hi as int),
{
    string_of(slice_range(s, lo, hi).as_slice())
}

/// A copy of the characters of `s` from index `lo` up to `hi`.
pub fn slice_range(s: &Vec<char>, lo: usize, hi: usize) -> (r: Vec<char>)
    requires
        lo <= hi <= s@.len(),
    ensures
        r@ == s@.subrange(lo as int, hi as int),
{
    let mut r: Vec<char> = Vec::new();
    let mut i = lo;
    while i < hi
        invariant
            lo <= i <= hi <= s@.len(),
            r@ == s@.subrange(lo as int, i as int),
        decreases hi - i,
    {
        r.push(s[i]);
        i = i + 1;
        proof {
            assert(r@ =~= s@.subrange(lo as int, i as int));
        }
    }
    r
}

/// Whether two character sequences are equal.
pub fn chars_eq(a: &Vec<char>, b: &Vec<char>) -> (r: bool)
    ensures
        r == (a@ == b@),
{
    if a.len() != b.len() {
        return false;
    }
    let mut i: usize = 0;
    while i < a.len()
        invariant
            a@.len() == b@.len(),
            i <= a@.len(),
            forall|j: int| 0 <= j < i ==> a@[j] == b@[j],
        decreases a.len() - i,
    {
        if a[i] != b[i] {
            return false;
        }
        i = i + 1;
    }
    assert(a@ =~= b@);
    true
}

/// Whether two strings hold the same characters.
pub fn str_eq(a: &str, b: &str) -> (r: bool)
    ensures
        r == (a@ == b@),
{
    chars_eq(&chars_of(a), &chars_of(b))
}

/// Whether `p` occurs in `s` at index `i`.
pub fn occurs_here(s: &Vec<char>, i: usize, hi: usize, p: &Vec<char>) -> (r: bool)
    requires
        i <= hi <= s@.len(),
    ensures
        r == (i + p@.len() <= hi && s@.subrange(i as int, i + p@.len()) == p@),
{
    if p.len() > hi - i {
        return false;
    }
    let mut k: usize = 0;
    while k < p.len()
        invariant
            i + p@.len() <= hi <= s@.len(),
            k <= p@.len(),
            forall|j: int| 0 <= j < k ==> s@[i + j] == p@[j],
        decreases p.len() - k,
    {
        if s[i + k] != p[k] {
            assert(s@.subrange(i as int, i + p@.len())[k as int] != p@[k as int]);
            return false;
        }
        k = k + 1;
    }
    assert(s@.subrange(i as int, i + p@.len()) =~= p@);
    true
}

/// The first index at or after `lo` and before `hi` at which `p` occurs in
/// `s[lo..hi]`, as an index into `s`.
pub fn find_in(s: &Vec<char>, lo: usize, hi: usize, p: &Vec<char>) -> (r: Option<usize>)
    requires
        lo <= hi <= s@.len(),
    ensures
        r is None ==> find(s@.subrange(lo as int, hi as int), p@) == -1,
        r is Some ==> lo <= r->0 && r->0 + p@.len() <= hi && r->0 - lo == find(
            s@.subrange(lo as int, hi as int),
            p@,
        ),
{
    let ghost t = s@.subrange(lo as int, hi as int);
    let mut i = lo;
    while i <= hi
        invariant
            lo <= i <= hi + 1,
            hi <= s@.len(),
            t == s@.subrange(lo as int, hi as int),
            forall|j: int| 0 <= j < i - lo ==> !occurs_at(t, p@, j),
        decreases hi + 1 - i,
    {
        let here = occurs_here(s, i, hi, p);
        proof {
            if i + p@.len() <= hi {
                assert(t.subrange(i - lo, i - lo + p@.len()) =~= s@.subrange(
                    i as int,
                    i + p@.len(),
                ));
            }
        }
        if here {
            proof {
                lemma_find_is(t, p@, i - lo);
            }
            return Some(i);
        }
        if i == hi {
            proof {
                assert forall|j: int| 0 <= j implies !occurs_at(t, p@, j) by {
                    if j < i - lo + 1 {
                    }
                }
                lemma_find_none(t, p@);
            }
            return None;
        }
        i = i + 1;
    }
    proof {
        lemma_find_none(t, p@);
    }
    None
}

/// Index of the first character at or after `lo` that is not White_Space.
pub fn skip_spaces(s: &Vec<char>, lo: usize, hi: usize) -> (r: usize)
    requires
        lo <= hi <= s@.len(),
    ensures
        lo <= r <= hi,
        trim_start(s@.subrange(lo as int, hi as int)) == s@.subrange(r as int, hi as int),
{
    let mut i = lo;
    while i < hi && char_is_space(s[i])
        invariant
            lo <= i <= hi <= s@.len(),
            trim_start(s@.subrange(lo as int, hi as int)) == trim_start(
                s@.subrange(i as int, hi as int),
            ),
        decreases hi - i,
    {
        assert(s@.subrange(i as int, hi as int).drop_first() =~= s@.subrange(i + 1, hi as int));
        i = i + 1;
    }
    i
}

/// One past the index of the last character before `hi` that is not
/// White_Space, or `lo`.
pub fn trim_back(s: &Vec<char>, lo: usize, hi: usize) -> (r: usize)
    requires
        lo <= hi <= s@.len(),
    ensures
        lo <= r <= hi,
        trim_end(s@.subrange(lo as int, hi as int)) == s@.subrange(lo as int, r as int),
{
    let mut i = hi;
    while i > lo && char_is_space(s[i - 1])
        invariant
            lo <= i <= hi <= s@.len(),
            trim_end(s@.subrange(lo as int, hi as int)) == trim_end(
                s@.subrange(lo as int, i as int),
            ),
        decreases i - lo,
    {
        assert(s@.subrange(lo as int, i as int).drop_last() =~= s@.subrange(lo as int, i - 1));
        i = i - 1;
    }
    i
}

/// The characters of `s[lo..hi]` with White_Space removed at both ends.
pub fn trimmed(s: &Vec<char>, lo: usize, hi: usize) -> (r: String)
    requires
        lo <= hi <= s@.len(),
    ensures
        r@ == trim(s@.subrange(lo as int, hi as int)),
{
    let a = skip_spaces(s, lo, hi);
    let b = trim_back(s, a, hi);
    substring(s, a, b)
}

/// The spans of `s` that the pairs of indices mark.
pub open spec fn spans(s: Seq<char>, b: Seq<(usize, usize)>) -> Seq<Seq<char>> {
    b.map_values(|p: (usize, usize)| s.subrange(p.0 as int, p.1 as int))
}

/// The bounds of the pieces of `s` cut at every `sep`.
pub fn split_bounds(s: &Vec<char>, sep: char) -> (r: Vec<(usize, usize)>)
    ensures
        spans(s@, r@) == split(s@, seq![sep]),
        forall|k: int| 0 <= k < r@.len() ==> (#[trigger] r@[k]).0 <= r@[k].1 <= s@.len(),
{
    let sepv = vec![sep];
    let hi = s.len();
    let mut out: Vec<(usize, usize)> = Vec::new();
    let mut pos: usize = 0;
    let mut done = false;
    assert(s@.subrange(0, hi as int) =~= s@);
    while !done
        invariant
            pos <= hi == s@.len(),
            sepv@ == seq![sep],
            forall|k: int| 0 <= k < out@.len() ==> (#[trigger] out@[k]).0 <= out@[k].1 <= s@.len(),
            done ==> split(s@, seq![sep]) == spans(s@, out@),
            !done ==> split(s@, seq![sep]) == spans(s@, out@) + split(
                s@.subrange(pos as int, hi as int),
                seq![sep],
            ),
        decreases (hi - pos) as int + if done {
            0int
        } else {
            1int
        },
    {
        let ghost rest = s@.subrange(pos as int, hi as int);
        let ghost before = out@;
        let found = find_in(s, pos, hi, &sepv);
        let end = match found {
            Some(a) => a,
            None => hi,
        };
        let ghost piece = s@.subrange(pos as int, end as int);
        out.push((pos, end));
        proof {
            lemma_find_bounds(rest, seq![sep]);
            assert(spans(s@, out@) =~= spans(s@, before).push(piece));
            if found is Some {
                assert(rest.take(end - pos) =~= piece);
                assert(rest.skip(end - pos + 1) =~= s@.subrange(end + 1, hi as int));
                let tail = split(s@.subrange(end + 1, hi as int), seq![sep]);
                assert(split(rest, seq![sep]) == seq![piece] + tail);
                assert(spans(s@, before) + (seq![piece] + tail) =~= spans(s@, out@) + tail);
            } else {
                assert(piece =~= rest);
                assert(split(rest, seq![sep]) == seq![piece]);
                assert(spans(s@, before) + seq![piece] =~= spans(s@, out@));
            }
        }
        match found {
            Some(a) => {
                pos = a + 1;
            },
            None => {
                done = true;
            },
        }
    }
    out
}

/// The characters of `a` followed by those of `b`.
pub fn concat(a: &str, b: &str) -> (r: String)
    ensures
        r@ == a@ + b@,
{
    let mut x = chars_of(a);
    let y = chars_of(b);
    let mut i: usize = 0;
    let ghost x0 = x@;
    while i < y.len()
        invariant
            i <= y@.len(),
            x@ == x0 + y@.subrange(0, i as int),
        decreases y.len() - i,
    {
        x.push(y[i]);
        i = i + 1;
        assert(x@ =~= x0 + y@.subrange(0, i as int));
    }
    assert(y@.subrange(0, y@.len() as int) =~= y@);
    string_of(x.as_slice())
}

} // verus!
