//! Character-level pieces of the header grammar: whitespace, trimming,
//! case-insensitive keywords and inline `" # "` notes.
use vstd::prelude::*;
use vstd::std_specs::iter::IteratorSpec;

verus! {

/// Whether `c` has the Unicode `White_Space` property (what `\s` and
/// `str::trim` treat as whitespace).
pub open spec fn is_space(c: char) -> bool {
    let u = c as u32;
    (0x9 <= u <= 0xd) || u == 0x20 || u == 0x85 || u == 0xa0 || u == 0x1680 || (0x2000 <= u
        <= 0x200a) || u == 0x2028 || u == 0x2029 || u == 0x202f || u == 0x205f || u == 0x3000
}

/// `s` without its leading whitespace.
pub open spec fn trim_start(s: Seq<char>) -> Seq<char>
    decreases s.len(),
{
    if s.len() > 0 && is_space(s[0]) {
        trim_start(s.drop_first())
    } else {
        s
    }
}

/// `s` without its trailing whitespace.
pub open spec fn trim_end(s: Seq<char>) -> Seq<char>
    decreases s.len(),
{
    if s.len() > 0 && is_space(s.last()) {
        trim_end(s.drop_last())
    } else {
        s
    }
}

/// `s` without leading and trailing whitespace.
pub open spec fn trim(s: Seq<char>) -> Seq<char> {
    trim_end(trim_start(s))
}

/// Whether the three characters `" # "` start at index `i` of `s`.
pub open spec fn note_at(s: Seq<char>, i: int) -> bool {
    0 <= i && i + 3 <= s.len() && s[i] == ' ' && s[i + 1] == '#' && s[i + 2] == ' '
}

/// The first index at or after `i` where `" # "` starts, or `s.len()` if none does.
pub open spec fn note_from(s: Seq<char>, i: int) -> int
    decreases s.len() - i,
{
    if i < 0 || i + 3 > s.len() {
        s.len() as int
    } else if note_at(s, i) {
        i
    } else {
        note_from(s, i + 1)
    }
}

/// The text of `s` before its first inline note `" # "` (all of `s` if it has none).
pub open spec fn before_note(s: Seq<char>) -> Seq<char> {
    s.take(note_from(s, 0))
}

/// Whether `c` equals the lowercase keyword character `p` under simple
/// Unicode case folding (the long s folds to `s`).
pub open spec fn folds_to(c: char, p: char) -> bool {
    ||| c == p
    ||| ('a' as u32 <= p as u32 <= 'z' as u32 && c as u32 == p as u32 - 32)
    ||| (p == 's' && c as u32 == 0x17f)
}

/// Whether `s` begins with keyword `w`, compared case-insensitively.
pub open spec fn starts_folded(s: Seq<char>, w: Seq<char>) -> bool {
    w.len() <= s.len() && forall|k: int| 0 <= k < w.len() ==> #[trigger] folds_to(s[k], w[k])
}

pub fn is_space_char(c: char) -> (r: bool)
    ensures
        r == is_space(c),
{
    let u = c as u32;
    (0x9 <= u && u <= 0xd) || u == 0x20 || u == 0x85 || u == 0xa0 || u == 0x1680 || (0x2000 <= u
        && u <= 0x200a) || u == 0x2028 || u == 0x2029 || u == 0x202f || u == 0x205f || u == 0x3000
}

pub fn folds_to_char(c: char, p: char) -> (r: bool)
    ensures
        r == folds_to(c, p),
{
    let cu = c as u32;
    let pu = p as u32;
    c == p || ('a' as u32 <= pu && pu <= 'z' as u32 && cu == pu - 32) || (p == 's' && cu == 0x17f)
}

/// The characters of `s`, in order.
pub fn chars_of(s: &str) -> (r: Vec<char>)
    ensures
        r@ == s@,
{
    broadcast use vstd::string::group_string_axioms;

    let mut it = s.chars();
    let mut r: Vec<char> = Vec::new();
    loop
        invariant
            it.obeys_prophetic_iter_laws(),
            r@ + it.remaining() == s@,
            it.decrease() is Some,
        decreases it.decrease()->0,
    {
        match it.next() {
            Some(c) => {
                r.push(c);
            },
            None => {
                assert(r@ =~= s@);
                return r;
            },
        }
    }
}

/// Start of the non-blank part of `cs[lo..hi]`.
pub fn skip_spaces(cs: &Vec<char>, lo: usize, hi: usize) -> (i: usize)
    requires
        lo <= hi <= cs@.len(),
    ensures
        lo <= i <= hi,
        cs@.subrange(i as int, hi as int) == trim_start(cs@.subrange(lo as int, hi as int)),
{
    let mut i = lo;
    while i < hi && is_space_char(cs[i])
        invariant
            lo <= i <= hi <= cs@.len(),
            trim_start(cs@.subrange(i as int, hi as int)) == trim_start(
                cs@.subrange(lo as int, hi as int),
            ),
        decreases hi - i,
    {
        assert(cs@.subrange(i as int, hi as int).drop_first() =~= cs@.subrange(
            i + 1,
            hi as int,
        ));
        i = i + 1;
    }
    i
}

/// End of the non-blank part of `cs[lo..hi]`.
pub fn drop_trailing_spaces(cs: &Vec<char>, lo: usize, hi: usize) -> (j: usize)
    requires
        lo <= hi <= cs@.len(),
    ensures
        lo <= j <= hi,
        cs@.subrange(lo as int, j as int) == trim_end(cs@.subrange(lo as int, hi as int)),
{
    let mut j = hi;
    while j > lo && is_space_char(cs[j - 1])
        invariant
            lo <= j <= hi <= cs@.len(),
            trim_end(cs@.subrange(lo as int, j as int)) == trim_end(
                cs@.subrange(lo as int, hi as int),
            ),
        decreases j - lo,
    {
        assert(cs@.subrange(lo as int, j as int).drop_last() =~= cs@.subrange(
            lo as int,
            j - 1,
        ));
        j = j - 1;
    }
    j
}

/// Where the first inline note `" # "` of `cs[lo..hi]` starts (`hi` if none).
pub fn find_note(cs: &Vec<char>, lo: usize, hi: usize) -> (k: usize)
    requires
        lo <= hi <= cs@.len(),
    ensures
        lo <= k <= hi,
        cs@.subrange(lo as int, k as int) == before_note(cs@.subrange(lo as int, hi as int)),
{
    let ghost s = cs@.subrange(lo as int, hi as int);
    let mut i = lo;
    while hi - i >= 3
        invariant
            lo <= i <= hi <= cs@.len(),
            s == cs@.subrange(lo as int, hi as int),
            note_from(s, (i - lo) as int) == note_from(s, 0),
        decreases hi - i,
    {
        if cs[i] == ' ' && cs[i + 1] == '#' && cs[i + 2] == ' ' {
            assert(note_at(s, (i - lo) as int));
            assert(cs@.subrange(lo as int, i as int) =~= s.take((i - lo) as int));
            return i;
        }
        assert(!note_at(s, (i - lo) as int));
        i = i + 1;
    }
    assert(note_from(s, (i - lo) as int) == s.len());
    assert(cs@.subrange(lo as int, hi as int) =~= s.take(s.len() as int));
    hi
}

/// Whether `cs[at..]` begins with keyword `w`, compared case-insensitively.
pub fn starts_folded_at(cs: &Vec<char>, at: usize, w: &Vec<char>) -> (r: bool)
    requires
        at <= cs@.len(),
    ensures
        r == starts_folded(cs@.skip(at as int), w@),
{
    if w.len() > cs.len() - at {
        return false;
    }
    let n = cs.len();
    let mut k: usize = 0;
    while k < w.len()
        invariant
            n == cs@.len(),
            at + w@.len() <= n,
            k <= w@.len(),
            forall|m: int| 0 <= m < k ==> #[trigger] folds_to(cs@.skip(at as int)[m], w@[m]),
        decreases w@.len() - k,
    {
        if !folds_to_char(cs[at + k], w[k]) {
            assert(!folds_to(cs@.skip(at as int)[k as int], w@[k as int]));
            return false;
        }
        k = k + 1;
    }
    true
}

} // verus!
