//! What holds of every scan.
use vstd::prelude::*;
use crate::header::{
    after_gap, declared_version, dependency_entry, is_comment, is_header_line, is_version_line,
    payload, word_requires_python, word_script,
};
use crate::scan::{
    outcome_view, run, scan, start, step, strings_view, MetadataError, ScanModel, ScanResult, Step,
};
use crate::text::{before_note, folds_to, is_space, note_at, note_from, trim, trim_end, trim_start};

verus! {

/// No line of `a` opens a block or declares a version.
pub open spec fn plain(a: Seq<Seq<char>>) -> bool {
    forall|i: int| 0 <= i < a.len() ==> !is_header_line(#[trigger] a[i]) && !is_version_line(a[i])
}

/// Every line of `a` is a comment line.
pub open spec fn all_comments(a: Seq<Seq<char>>) -> bool {
    forall|i: int| 0 <= i < a.len() ==> is_comment(#[trigger] a[i])
}

/// `c` ends a block that comes before it: it is empty or its first line is no comment.
pub open spec fn closes_block(c: Seq<Seq<char>>) -> bool {
    c.len() == 0 || !is_comment(c[0])
}

/// The dependencies that the lines of a block contribute, in order.
pub open spec fn entries(blk: Seq<Seq<char>>) -> Seq<Seq<char>>
    decreases blk.len(),
{
    if blk.len() == 0 {
        Seq::empty()
    } else if payload(blk[0]).len() > 0 {
        seq![dependency_entry(blk[0])] + entries(blk.drop_first())
    } else {
        entries(blk.drop_first())
    }
}

proof fn lemma_forms_exclusive(l: Seq<char>)
    ensures
        !(is_header_line(l) && is_version_line(l)),
{
    if is_header_line(l) && is_version_line(l) {
        let g = after_gap(l);
        assert(folds_to(g[0], word_script()[0]));
        assert(folds_to(g[0], word_requires_python()[0]));
    }
}

/// A scan with both values found and no block open reads no further line.
proof fn lemma_done(m: ScanModel, rest: Seq<Seq<char>>)
    requires
        !m.in_block,
        m.version is Some,
        m.deps.len() > 0,
    ensures
        run(m, rest) == Ok::<ScanModel, MetadataError>(m),
{
}

proof fn lemma_plain(m: ScanModel, a: Seq<Seq<char>>, b: Seq<Seq<char>>)
    requires
        !m.in_block,
        plain(a),
    ensures
        run(m, a + b) == run(m, b),
    decreases a.len(),
{
    if a.len() > 0 {
        if m.version is Some && m.deps.len() > 0 {
            lemma_done(m, a + b);
            lemma_done(m, b);
        } else {
            assert((a + b)[0] == a[0]);
            assert((a + b).drop_first() =~= a.drop_first() + b);
            lemma_plain(m, a.drop_first(), b);
        }
    } else {
        assert(a + b =~= b);
    }
}

proof fn lemma_block(m: ScanModel, blk: Seq<Seq<char>>, b: Seq<Seq<char>>)
    requires
        m.in_block,
        all_comments(blk),
    ensures
        run(m, blk + b) == run(
            ScanModel { in_block: true, version: m.version, deps: m.deps + entries(blk) },
            b,
        ),
    decreases blk.len(),
{
    if blk.len() > 0 {
        assert((blk + b)[0] == blk[0]);
        assert((blk + b).drop_first() =~= blk.drop_first() + b);
        assert(is_comment(blk[0]));
        if payload(blk[0]).len() > 0 {
            let m2 = ScanModel {
                in_block: true,
                version: m.version,
                deps: m.deps.push(dependency_entry(blk[0])),
            };
            lemma_block(m2, blk.drop_first(), b);
            assert(m2.deps + entries(blk.drop_first()) =~= m.deps + entries(blk));
        } else {
            lemma_block(m, blk.drop_first(), b);
        }
    } else {
        assert(blk + b =~= b);
        assert(m.deps + entries(blk) =~= m.deps);
    }
}

/// Runs a block and the line that closes it, from a state with the block open.
proof fn lemma_block_closed(m: ScanModel, blk: Seq<Seq<char>>, t: Seq<char>, b: Seq<Seq<char>>)
    requires
        m.in_block,
        all_comments(blk),
        !is_comment(t),
    ensures
        run(m, blk + (seq![t] + b)) == run(
            ScanModel { in_block: false, version: m.version, deps: m.deps + entries(blk) },
            b,
        ),
{
    lemma_block(m, blk, seq![t] + b);
    assert((seq![t] + b)[0] == t);
    assert((seq![t] + b).drop_first() =~= b);
}

/// A file in which no line opens a block or declares a version has no
/// version and no dependencies.
pub proof fn law_no_header_lines(lines: Seq<Seq<char>>)
    requires
        plain(lines),
    ensures
        scan(lines) == Ok::<(Option<Seq<char>>, Seq<Seq<char>>), MetadataError>(
            (None, Seq::empty()),
        ),
{
    lemma_plain(start(), lines, Seq::empty());
    assert(lines + Seq::<Seq<char>>::empty() =~= lines);
}

/// A version line followed later by one populated block gives that version and
/// the block's entries; whatever follows the block is never read.
pub proof fn law_version_then_block(
    a: Seq<Seq<char>>,
    v: Seq<char>,
    b: Seq<Seq<char>>,
    h: Seq<char>,
    blk: Seq<Seq<char>>,
    c: Seq<Seq<char>>,
)
    requires
        plain(a),
        plain(b),
        is_version_line(v),
        is_header_line(h),
        all_comments(blk),
        entries(blk).len() > 0,
        closes_block(c),
    ensures
        scan(a + seq![v] + b + seq![h] + blk + c) == Ok::<
            (Option<Seq<char>>, Seq<Seq<char>>),
            MetadataError,
        >((Some(declared_version(v)), entries(blk))),
{
    let lines = a + seq![v] + b + seq![h] + blk + c;
    let x3 = blk + c;
    let x2 = seq![h] + x3;
    let x1 = b + x2;
    let x0 = seq![v] + x1;
    assert(lines =~= a + x0);
    lemma_plain(start(), a, x0);
    lemma_forms_exclusive(v);
    assert(x0[0] == v);
    assert(x0.drop_first() =~= x1);
    let m1 = ScanModel { in_block: false, version: Some(declared_version(v)), deps: Seq::empty() };
    lemma_plain(m1, b, x2);
    assert(x2[0] == h);
    assert(x2.drop_first() =~= x3);
    let m2 = ScanModel { in_block: true, version: m1.version, deps: Seq::empty() };
    lemma_block(m2, blk, c);
    assert(Seq::<Seq<char>>::empty() + entries(blk) =~= entries(blk));
    let m3 = ScanModel { in_block: true, version: m1.version, deps: entries(blk) };
    if c.len() > 0 {
        let m4 = ScanModel { in_block: false, version: m1.version, deps: entries(blk) };
        assert(step(m3, c[0]) == Step::Next(m4));
        lemma_done(m4, c.drop_first());
    }
}

/// One populated block, closed, followed later by a version line gives that
/// version and the block's entries; whatever follows the version line is
/// never read.
pub proof fn law_block_then_version(
    a: Seq<Seq<char>>,
    h: Seq<char>,
    blk: Seq<Seq<char>>,
    t: Seq<char>,
    b: Seq<Seq<char>>,
    v: Seq<char>,
    c: Seq<Seq<char>>,
)
    requires
        plain(a),
        plain(b),
        is_header_line(h),
        all_comments(blk),
        entries(blk).len() > 0,
        !is_comment(t),
        is_version_line(v),
    ensures
        scan(a + seq![h] + blk + seq![t] + b + seq![v] + c) == Ok::<
            (Option<Seq<char>>, Seq<Seq<char>>),
            MetadataError,
        >((Some(declared_version(v)), entries(blk))),
{
    let lines = a + seq![h] + blk + seq![t] + b + seq![v] + c;
    let x4 = seq![v] + c;
    let x3 = b + x4;
    let x2 = seq![t] + x3;
    let x1 = blk + x2;
    let x0 = seq![h] + x1;
    assert(lines =~= a + x0);
    lemma_plain(start(), a, x0);
    assert(x0[0] == h);
    assert(x0.drop_first() =~= x1);
    let m1 = ScanModel { in_block: true, version: None, deps: Seq::empty() };
    lemma_block_closed(m1, blk, t, x3);
    assert(Seq::<Seq<char>>::empty() + entries(blk) =~= entries(blk));
    let m2 = ScanModel { in_block: false, version: None, deps: entries(blk) };
    lemma_plain(m2, b, x4);
    lemma_forms_exclusive(v);
    assert(x4[0] == v);
    assert(x4.drop_first() =~= c);
    let m3 = ScanModel { in_block: false, version: Some(declared_version(v)), deps: entries(blk) };
    lemma_done(m3, c);
}

/// A second version line reached by the scan is an error.
pub proof fn law_repeated_version(
    a: Seq<Seq<char>>,
    v1: Seq<char>,
    b: Seq<Seq<char>>,
    v2: Seq<char>,
    c: Seq<Seq<char>>,
)
    requires
        plain(a),
        plain(b),
        is_version_line(v1),
        is_version_line(v2),
    ensures
        scan(a + seq![v1] + b + seq![v2] + c) == Err::<
            (Option<Seq<char>>, Seq<Seq<char>>),
            MetadataError,
        >(MetadataError::RepeatedPythonVersion),
{
    let lines = a + seq![v1] + b + seq![v2] + c;
    let x2 = seq![v2] + c;
    let x1 = b + x2;
    let x0 = seq![v1] + x1;
    assert(lines =~= a + x0);
    lemma_plain(start(), a, x0);
    lemma_forms_exclusive(v1);
    lemma_forms_exclusive(v2);
    assert(x0[0] == v1);
    assert(x0.drop_first() =~= x1);
    let m1 = ScanModel { in_block: false, version: Some(declared_version(v1)), deps: Seq::empty() };
    lemma_plain(m1, b, x2);
    assert(x2[0] == v2);
}

/// A second block header after a populated block is an error.
pub proof fn law_repeated_block(
    a: Seq<Seq<char>>,
    h1: Seq<char>,
    blk: Seq<Seq<char>>,
    t: Seq<char>,
    b: Seq<Seq<char>>,
    h2: Seq<char>,
    c: Seq<Seq<char>>,
)
    requires
        plain(a),
        plain(b),
        is_header_line(h1),
        all_comments(blk),
        entries(blk).len() > 0,
        !is_comment(t),
        is_header_line(h2),
    ensures
        scan(a + seq![h1] + blk + seq![t] + b + seq![h2] + c) == Err::<
            (Option<Seq<char>>, Seq<Seq<char>>),
            MetadataError,
        >(MetadataError::RepeatedDependencies),
{
    let lines = a + seq![h1] + blk + seq![t] + b + seq![h2] + c;
    let x4 = seq![h2] + c;
    let x3 = b + x4;
    let x2 = seq![t] + x3;
    let x1 = blk + x2;
    let x0 = seq![h1] + x1;
    assert(lines =~= a + x0);
    lemma_plain(start(), a, x0);
    assert(x0[0] == h1);
    assert(x0.drop_first() =~= x1);
    let m1 = ScanModel { in_block: true, version: None, deps: Seq::empty() };
    lemma_block_closed(m1, blk, t, x3);
    assert(Seq::<Seq<char>>::empty() + entries(blk) =~= entries(blk));
    let m2 = ScanModel { in_block: false, version: None, deps: entries(blk) };
    lemma_plain(m2, b, x4);
    assert(x4[0] == h2);
}

/// A block that contributes nothing does not count as defined: a later
/// populated block is read as the only one.
pub proof fn law_empty_block_then_block(
    a: Seq<Seq<char>>,
    h1: Seq<char>,
    e: Seq<Seq<char>>,
    t: Seq<char>,
    b: Seq<Seq<char>>,
    h2: Seq<char>,
    blk: Seq<Seq<char>>,
    c: Seq<Seq<char>>,
)
    requires
        plain(a),
        plain(b),
        plain(c),
        is_header_line(h1),
        all_comments(e),
        entries(e).len() == 0,
        !is_comment(t),
        is_header_line(h2),
        all_comments(blk),
        closes_block(c),
    ensures
        scan(a + seq![h1] + e + seq![t] + b + seq![h2] + blk + c) == Ok::<
            (Option<Seq<char>>, Seq<Seq<char>>),
            MetadataError,
        >((None, entries(blk))),
{
    let lines = a + seq![h1] + e + seq![t] + b + seq![h2] + blk + c;
    let x5 = blk + c;
    let x4 = seq![h2] + x5;
    let x3 = b + x4;
    let x2 = seq![t] + x3;
    let x1 = e + x2;
    let x0 = seq![h1] + x1;
    assert(lines =~= a + x0);
    lemma_plain(start(), a, x0);
    assert(x0[0] == h1);
    assert(x0.drop_first() =~= x1);
    let m1 = ScanModel { in_block: true, version: None, deps: Seq::empty() };
    lemma_block_closed(m1, e, t, x3);
    assert(Seq::<Seq<char>>::empty() + entries(e) =~= Seq::<Seq<char>>::empty());
    lemma_plain(start(), b, x4);
    assert(x4[0] == h2);
    assert(x4.drop_first() =~= x5);
    lemma_block(m1, blk, c);
    assert(Seq::<Seq<char>>::empty() + entries(blk) =~= entries(blk));
    let m3 = ScanModel { in_block: true, version: None, deps: entries(blk) };
    if c.len() > 0 {
        let m4 = ScanModel { in_block: false, version: None, deps: entries(blk) };
        assert(step(m3, c[0]) == Step::Next(m4));
        assert(plain(c.drop_first()));
        lemma_plain(m4, c.drop_first(), Seq::empty());
        assert(c.drop_first() + Seq::<Seq<char>>::empty() =~= c.drop_first());
    }
}

proof fn lemma_stopped(m: ScanModel, a: Seq<Seq<char>>, b: Seq<Seq<char>>)
    requires
        run(m, a) is Ok,
        !run(m, a)->Ok_0.in_block,
        run(m, a)->Ok_0.version is Some,
        run(m, a)->Ok_0.deps.len() > 0,
    ensures
        run(m, a + b) == run(m, a),
    decreases a.len(),
{
    if a.len() == 0 {
        assert(a + b =~= b);
        lemma_done(m, b);
    } else {
        assert((a + b)[0] == a[0]);
        assert((a + b).drop_first() =~= a.drop_first() + b);
        match step(m, a[0]) {
            Step::Next(m2) => lemma_stopped(m2, a.drop_first(), b),
            _ => {},
        }
    }
}

/// Once a version and at least one dependency are collected and no block is
/// open, the rest of the file is never read: appending any lines changes
/// nothing, not even lines that would otherwise be errors.
pub proof fn law_early_exit(a: Seq<Seq<char>>, b: Seq<Seq<char>>)
    requires
        run(start(), a) is Ok,
        !run(start(), a)->Ok_0.in_block,
        run(start(), a)->Ok_0.version is Some,
        run(start(), a)->Ok_0.deps.len() > 0,
    ensures
        scan(a + b) == scan(a),
{
    lemma_stopped(start(), a, b);
}

proof fn lemma_trim_start_suffix(s: Seq<char>)
    ensures
        trim_start(s).len() <= s.len(),
        trim_start(s) == s.skip(s.len() - trim_start(s).len()),
    decreases s.len(),
{
    if s.len() > 0 && is_space(s[0]) {
        lemma_trim_start_suffix(s.drop_first());
        let k = s.len() - trim_start(s).len();
        assert(s.drop_first().skip(k - 1) =~= s.skip(k));
    } else {
        assert(s.skip(0) =~= s);
    }
}

proof fn lemma_trim_start_visible(s: Seq<char>)
    requires
        exists|i: int| 0 <= i < s.len() && !is_space(s[i]),
    ensures
        trim_start(s).len() > 0,
        !is_space(trim_start(s)[0]),
    decreases s.len(),
{
    if is_space(s[0]) {
        let i = choose|i: int| 0 <= i < s.len() && !is_space(s[i]);
        assert(!is_space(s.drop_first()[i - 1]));
        lemma_trim_start_visible(s.drop_first());
    }
}

proof fn lemma_trim_end_visible(s: Seq<char>)
    requires
        exists|i: int| 0 <= i < s.len() && !is_space(s[i]),
    ensures
        trim_end(s).len() > 0,
    decreases s.len(),
{
    if is_space(s.last()) {
        let i = choose|i: int| 0 <= i < s.len() && !is_space(s[i]);
        assert(!is_space(s.drop_last()[i]));
        lemma_trim_end_visible(s.drop_last());
    }
}

proof fn lemma_trim_start_concat(x: Seq<char>, z: Seq<char>)
    requires
        trim_start(x).len() > 0,
    ensures
        trim_start(x + z) == trim_start(x) + z,
    decreases x.len(),
{
    if x.len() > 0 && is_space(x[0]) {
        assert((x + z)[0] == x[0]);
        assert((x + z).drop_first() =~= x.drop_first() + z);
        lemma_trim_start_concat(x.drop_first(), z);
    } else {
        assert((x + z)[0] == x[0]);
    }
}

proof fn lemma_trim_end_concat(z: Seq<char>, y: Seq<char>)
    requires
        trim_end(y).len() > 0,
    ensures
        trim_end(z + y) == z + trim_end(y),
    decreases y.len(),
{
    assert((z + y).last() == y.last());
    if is_space(y.last()) {
        assert((z + y).drop_last() =~= z + y.drop_last());
        lemma_trim_end_concat(z, y.drop_last());
    }
}

proof fn lemma_first_note(p: Seq<char>, n: int, i: int)
    requires
        0 <= i <= n,
        note_at(p, n),
        forall|j: int| 0 <= j < n ==> !note_at(p, j),
    ensures
        note_from(p, i) == n,
    decreases n - i,
{
    if i < n {
        lemma_first_note(p, n, i + 1);
    }
}

/// A dependency line `#<x> # <y>`, where `x` holds no `#` and both `x` and `y`
/// hold some non-blank text, records `x` trimmed: the inline note is dropped.
pub proof fn law_inline_note(x: Seq<char>, y: Seq<char>)
    requires
        forall|i: int| 0 <= i < x.len() ==> x[i] != '#',
        exists|i: int| 0 <= i < x.len() && !is_space(x[i]),
        exists|i: int| 0 <= i < y.len() && !is_space(y[i]),
    ensures
        payload(seq!['#'] + x + seq![' ', '#', ' '] + y).len() > 0,
        dependency_entry(seq!['#'] + x + seq![' ', '#', ' '] + y) == trim(x),
{
    let mk = seq![' ', '#', ' '];
    let l = seq!['#'] + x + mk + y;
    assert(l.drop_first() =~= x + (mk + y));
    lemma_trim_start_visible(x);
    let xs = trim_start(x);
    lemma_trim_start_concat(x, mk + y);
    lemma_trim_end_visible(y);
    assert(xs + (mk + y) =~= (xs + mk) + y);
    lemma_trim_end_concat(xs + mk, y);
    let p = xs + mk + trim_end(y);
    assert(payload(l) == p);
    lemma_trim_start_suffix(x);
    let n = xs.len() as int;
    assert(note_at(p, n));
    assert forall|j: int| 0 <= j < n implies !note_at(p, j) by {
        if j + 1 < n {
            assert(p[j + 1] == x[j + 1 + (x.len() - n)]);
        }
    }
    lemma_first_note(p, n, 0);
    assert(before_note(p) =~= xs);
    assert(trim_start(xs) == xs);
}

/// Scanning the same lines twice gives the same outcome.
pub proof fn law_scan_repeatable(
    a: Seq<String>,
    b: Seq<String>,
    ra: Result<ScanResult, MetadataError>,
    rb: Result<ScanResult, MetadataError>,
)
    requires
        strings_view(a) == strings_view(b),
        outcome_view(ra) == scan(strings_view(a)),
        outcome_view(rb) == scan(strings_view(b)),
    ensures
        outcome_view(ra) == outcome_view(rb),
{
}

} // verus!
