//! The comment-line forms of a script header: the `# Script Dependencies:`
//! block opener, the `# X-Requires-Python: <value>` declaration and the
//! dependency entries inside a block.
use vstd::prelude::*;
use crate::text::{
    before_note, drop_trailing_spaces, find_note, is_space, is_space_char, skip_spaces, starts_folded,
    starts_folded_at, trim, trim_start,
};

verus! {

pub open spec fn word_script() -> Seq<char> {
    seq!['s', 'c', 'r', 'i', 'p', 't']
}

pub open spec fn word_dependencies() -> Seq<char> {
    seq!['d', 'e', 'p', 'e', 'n', 'd', 'e', 'n', 'c', 'i', 'e', 's', ':']
}

pub open spec fn word_requires_python() -> Seq<char> {
    seq!['x', '-', 'r', 'e', 'q', 'u', 'i', 'r', 'e', 's', '-', 'p', 'y', 't', 'h', 'o', 'n', ':']
}

/// Whether `l` is a comment line: it starts with `#`.
pub open spec fn is_comment(l: Seq<char>) -> bool {
    l.len() > 0 && l[0] == '#'
}

/// Whether `l` starts with `#` followed by at least one whitespace character.
pub open spec fn opens_with_gap(l: Seq<char>) -> bool {
    l.len() >= 2 && l[0] == '#' && is_space(l[1])
}

/// What follows the `#` and the whitespace after it.
pub open spec fn after_gap(l: Seq<char>) -> Seq<char> {
    trim_start(l.drop_first())
}

/// `^#\s+script\s+dependencies:\s*$`, case-insensitive.
pub open spec fn is_header_line(l: Seq<char>) -> bool {
    &&& opens_with_gap(l)
    &&& starts_folded(after_gap(l), word_script())
    &&& {
        let r = after_gap(l).skip(6);
        &&& r.len() > 0
        &&& is_space(r[0])
        &&& starts_folded(trim_start(r), word_dependencies())
        &&& trim_start(trim_start(r).skip(13)).len() == 0
    }
}

/// What follows `x-requires-python:` on a line.
pub open spec fn version_tail(l: Seq<char>) -> Seq<char> {
    after_gap(l).skip(18)
}

/// Where the value starts in `r`: after the longest run of leading whitespace
/// that still leaves at least one character.
pub open spec fn value_start(r: Seq<char>) -> int {
    let k = r.len() - trim_start(r).len();
    if k < r.len() {
        k
    } else {
        r.len() - 1
    }
}

/// `^#\s+x-requires-python:\s+(.+)$`, case-insensitive; `.` is any
/// character but a line feed.
pub open spec fn is_version_line(l: Seq<char>) -> bool {
    &&& opens_with_gap(l)
    &&& starts_folded(after_gap(l), word_requires_python())
    &&& {
        let r = version_tail(l);
        &&& r.len() >= 2
        &&& is_space(r[0])
        &&& forall|i: int| value_start(r) <= i < r.len() ==> r[i] != '\n'
    }
}

/// The value captured by a version line.
pub open spec fn version_value(l: Seq<char>) -> Seq<char> {
    version_tail(l).skip(value_start(version_tail(l)))
}

/// The version recorded for a version line: its value up to an inline note.
pub open spec fn declared_version(l: Seq<char>) -> Seq<char> {
    before_note(version_value(l))
}

/// The trimmed text after the `#` of a dependency line.
pub open spec fn payload(l: Seq<char>) -> Seq<char> {
    trim(l.drop_first())
}

/// The dependency recorded for a dependency line: its payload up to an inline
/// note, trimmed.
pub open spec fn dependency_entry(l: Seq<char>) -> Seq<char> {
    trim(before_note(payload(l)))
}

/// Whether the line `cs` opens a dependency block.
pub fn header_line(cs: &Vec<char>) -> (r: bool)
    ensures
        r == is_header_line(cs@),
{
    let n = cs.len();
    if n < 2 || cs[0] != '#' || !is_space_char(cs[1]) {
        return false;
    }
    let ghost l = cs@;
    let i = skip_spaces(cs, 1, n);
    assert(cs@.subrange(1, n as int) =~= l.drop_first());
    assert(cs@.skip(i as int) =~= after_gap(l));
    let script: Vec<char> = vec!['s', 'c', 'r', 'i', 'p', 't'];
    assert(script@ =~= word_script());
    if !starts_folded_at(cs, i, &script) {
        return false;
    }
    let j = i + 6;
    assert(cs@.subrange(j as int, n as int) =~= after_gap(l).skip(6));
    if j >= n || !is_space_char(cs[j]) {
        return false;
    }
    let k = skip_spaces(cs, j, n);
    assert(cs@.skip(k as int) =~= cs@.subrange(k as int, n as int));
    let deps: Vec<char> = vec!['d', 'e', 'p', 'e', 'n', 'd', 'e', 'n', 'c', 'i', 'e', 's', ':'];
    assert(deps@ =~= word_dependencies());
    if !starts_folded_at(cs, k, &deps) {
        return false;
    }
    assert(cs@.subrange(k + 13, n as int) =~= cs@.subrange(k as int, n as int).skip(13));
    let m = skip_spaces(cs, k + 13, n);
    m == n
}

/// Where the value of the version line `cs` starts, if `cs` is one.
pub fn version_start(cs: &Vec<char>) -> (r: Option<usize>)
    ensures
        r is Some <==> is_version_line(cs@),
        r is Some ==> r->0 <= cs@.len() && cs@.skip(r->0 as int) == version_value(cs@),
{
    let n = cs.len();
    if n < 2 || cs[0] != '#' || !is_space_char(cs[1]) {
        return None;
    }
    let ghost l = cs@;
    let i = skip_spaces(cs, 1, n);
    assert(cs@.subrange(1, n as int) =~= l.drop_first());
    assert(cs@.skip(i as int) =~= after_gap(l));
    let word: Vec<char> = vec![
        'x', '-', 'r', 'e', 'q', 'u', 'i', 'r', 'e', 's', '-', 'p', 'y', 't', 'h', 'o', 'n', ':'
    ];
    assert(word@ =~= word_requires_python());
    if !starts_folded_at(cs, i, &word) {
        return None;
    }
    let j = i + 18;
    let ghost r = version_tail(l);
    assert(cs@.subrange(j as int, n as int) =~= r);
    if n - j < 2 || !is_space_char(cs[j]) {
        return None;
    }
    let k = skip_spaces(cs, j, n);
    let v = if k < n { k } else { n - 1 };
    assert(v - j == value_start(r));
    let mut p = v;
    while p < n
        invariant
            v <= p <= n == cs@.len(),
            j <= v,
            r == cs@.subrange(j as int, n as int),
            l == cs@,
            r == version_tail(l),
            starts_folded(after_gap(l), word_requires_python()),
            opens_with_gap(l),
            r.len() >= 2,
            is_space(r[0]),
            v - j == value_start(r),
            forall|q: int| v <= q < p ==> cs@[q] != '\n',
        decreases n - p,
    {
        if cs[p] == '\n' {
            assert(r[p - j] == '\n');
            assert(value_start(r) <= p - j < r.len());
            assert(r == version_tail(l));
            return None;
        }
        p = p + 1;
    }
    assert(cs@.skip(v as int) =~= r.skip(value_start(r)));
    Some(v)
}

/// Where the entry of the dependency line `cs` lies, or `None` when its
/// payload is blank.
pub fn entry_span(cs: &Vec<char>) -> (r: Option<(usize, usize)>)
    requires
        cs@.len() > 0,
    ensures
        r is None <==> payload(cs@).len() == 0,
        r matches Some((a, b)) ==> a <= b <= cs@.len() && cs@.subrange(a as int, b as int)
            == dependency_entry(cs@),
{
    let n = cs.len();
    let ghost l = cs@;
    let i = skip_spaces(cs, 1, n);
    assert(cs@.subrange(1, n as int) =~= l.drop_first());
    let j = drop_trailing_spaces(cs, i, n);
    if i == j {
        return None;
    }
    let k = find_note(cs, i, j);
    let a = skip_spaces(cs, i, k);
    let b = drop_trailing_spaces(cs, a, k);
    Some((a, b))
}

} // verus!
