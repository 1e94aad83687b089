//! The single forward pass over a script's lines: the scanner state, one step
//! per line, and the whole scan.
use vstd::prelude::*;
use crate::text::{chars_of, find_note};
use crate::header::{
    declared_version, dependency_entry, entry_span, header_line, is_comment, is_header_line,
    is_version_line, payload, version_start,
};

verus! {

/// Why a header is malformed.
#[derive(Clone, Copy, Debug, PartialEq, Eq, Structural)]
pub enum MetadataError {
    /// A second populated `Script Dependencies:` block was opened.
    RepeatedDependencies,
    /// A second `X-Requires-Python:` declaration was found.
    RepeatedPythonVersion,
}

impl MetadataError {
    /// The fixed description of the error.
    pub fn message(&self) -> (r: String)
        ensures
            *self == MetadataError::RepeatedDependencies ==> r@
                == "Script dependencies block defined multiple times in script."@,
            *self == MetadataError::RepeatedPythonVersion ==> r@
                == "x-requires-python block defined multiple times in script."@,
    {
        match self {
            MetadataError::RepeatedDependencies => {
                "Script dependencies block defined multiple times in script.".to_owned()
            },
            MetadataError::RepeatedPythonVersion => {
                "x-requires-python block defined multiple times in script.".to_owned()
            },
        }
    }
}

/// What a scan extracts from a header.
pub struct ScanResult {
    pub python_version: Option<String>,
    pub dependencies: Vec<String>,
}

/// The state of a scan, as values.
pub struct ScanModel {
    pub in_block: bool,
    pub version: Option<Seq<char>>,
    pub deps: Seq<Seq<char>>,
}

/// What one line does to the scan.
pub enum Step {
    /// The scan goes on to the next line in this state.
    Next(ScanModel),
    /// The scan is over before this line; the state stands.
    Stop(ScanModel),
    /// The header is malformed.
    Fail(MetadataError),
}

pub open spec fn start() -> ScanModel {
    ScanModel { in_block: false, version: None, deps: Seq::empty() }
}

/// The effect of line `l` on a scan in state `m`.
pub open spec fn step(m: ScanModel, l: Seq<char>) -> Step {
    if m.in_block {
        if is_comment(l) {
            if payload(l).len() > 0 {
                Step::Next(
                    ScanModel { in_block: true, version: m.version, deps: m.deps.push(dependency_entry(l)) },
                )
            } else {
                Step::Next(m)
            }
        } else {
            Step::Next(ScanModel { in_block: false, version: m.version, deps: m.deps })
        }
    } else if m.version is Some && m.deps.len() > 0 {
        Step::Stop(m)
    } else if is_header_line(l) {
        if m.deps.len() == 0 {
            Step::Next(ScanModel { in_block: true, version: m.version, deps: m.deps })
        } else {
            Step::Fail(MetadataError::RepeatedDependencies)
        }
    } else if is_version_line(l) {
        if m.version is Some {
            Step::Fail(MetadataError::RepeatedPythonVersion)
        } else {
            Step::Next(ScanModel { in_block: false, version: Some(declared_version(l)), deps: m.deps })
        }
    } else {
        Step::Next(m)
    }
}

/// The scan of `lines` from state `m`: the state it ends in, or its error.
pub open spec fn run(m: ScanModel, lines: Seq<Seq<char>>) -> Result<ScanModel, MetadataError>
    decreases lines.len(),
{
    if lines.len() == 0 {
        Ok(m)
    } else {
        match step(m, lines[0]) {
            Step::Next(m2) => run(m2, lines.drop_first()),
            Step::Stop(m2) => Ok(m2),
            Step::Fail(e) => Err(e),
        }
    }
}

/// The outcome of scanning the lines of a file: the version and the
/// dependencies, or the error.
pub open spec fn scan(lines: Seq<Seq<char>>) -> Result<
    (Option<Seq<char>>, Seq<Seq<char>>),
    MetadataError,
> {
    match run(start(), lines) {
        Ok(m) => Ok((m.version, m.deps)),
        Err(e) => Err(e),
    }
}

pub open spec fn opt_view(o: Option<String>) -> Option<Seq<char>> {
    match o {
        Some(s) => Some(s@),
        None => None,
    }
}

pub open spec fn strings_view(v: Seq<String>) -> Seq<Seq<char>> {
    v.map_values(|s: String| s@)
}

impl View for ScanResult {
    type V = (Option<Seq<char>>, Seq<Seq<char>>);

    open spec fn view(&self) -> (Option<Seq<char>>, Seq<Seq<char>>) {
        (opt_view(self.python_version), strings_view(self.dependencies@))
    }
}

/// The values of a scan's outcome.
pub open spec fn outcome_view(r: Result<ScanResult, MetadataError>) -> Result<
    (Option<Seq<char>>, Seq<Seq<char>>),
    MetadataError,
> {
    match r {
        Ok(v) => Ok(v@),
        Err(e) => Err(e),
    }
}

/// A scan in progress, fed one line at a time.
pub struct HeaderScanner {
    in_block: bool,
    python_version: Option<String>,
    dependencies: Vec<String>,
}

impl View for HeaderScanner {
    type V = ScanModel;

    closed spec fn view(&self) -> ScanModel {
        ScanModel {
            in_block: self.in_block,
            version: opt_view(self.python_version),
            deps: strings_view(self.dependencies@),
        }
    }
}

impl HeaderScanner {
    pub fn new() -> (r: HeaderScanner)
        ensures
            r@ == start(),
    {
        let r = HeaderScanner { in_block: false, python_version: None, dependencies: Vec::new() };
        assert(r@.deps =~= Seq::<Seq<char>>::empty());
        r
    }

    /// Takes the next line. `Ok(true)` says that the scan is over before
    /// `line`, and that no further line can change its result.
    pub fn feed(&mut self, line: &str) -> (r: Result<bool, MetadataError>)
        ensures
            match step(old(self)@, line@) {
                Step::Next(m) => r == Ok::<bool, MetadataError>(false) && final(self)@ == m,
                Step::Stop(m) => r == Ok::<bool, MetadataError>(true) && final(self)@ == m,
                Step::Fail(e) => r == Err::<bool, MetadataError>(e),
            },
    {
        let cs = chars_of(line);
        if self.in_block {
            if cs.len() > 0 && cs[0] == '#' {
                match entry_span(&cs) {
                    Some((a, b)) => {
                        let d = line.substring_char(a, b).to_owned();
                        let ghost before = self.dependencies@;
                        self.dependencies.push(d);
                        assert(strings_view(self.dependencies@) =~= strings_view(before).push(
                            dependency_entry(line@),
                        ));
                    },
                    None => {},
                }
            } else {
                self.in_block = false;
            }
            return Ok(false);
        }
        if self.python_version.is_some() && self.dependencies.len() > 0 {
            return Ok(true);
        }
        if header_line(&cs) {
            if self.dependencies.len() == 0 {
                self.in_block = true;
                return Ok(false);
            } else {
                return Err(MetadataError::RepeatedDependencies);
            }
        }
        match version_start(&cs) {
            Some(k) => {
                if self.python_version.is_some() {
                    return Err(MetadataError::RepeatedPythonVersion);
                }
                let e = find_note(&cs, k, cs.len());
                assert(cs@.skip(k as int) =~= cs@.subrange(k as int, cs@.len() as int));
                self.python_version = Some(line.substring_char(k, e).to_owned());
            },
            None => {},
        }
        Ok(false)
    }

    /// The version and dependencies collected so far.
    pub fn finish(self) -> (r: ScanResult)
        ensures
            r@ == (self@.version, self@.deps),
    {
        ScanResult { python_version: self.python_version, dependencies: self.dependencies }
    }
}

/// Scans the lines of a script's header for its required Python version and
/// its dependencies.
pub fn parse_pep722(lines: &Vec<String>) -> (r: Result<ScanResult, MetadataError>)
    ensures
        outcome_view(r) == scan(strings_view(lines@)),
{
    let ghost all = strings_view(lines@);
    let mut sc = HeaderScanner::new();
    let mut i: usize = 0;
    assert(all.skip(0) =~= all);
    while i < lines.len()
        invariant
            i <= lines@.len(),
            all == strings_view(lines@),
            run(start(), all) == run(sc@, all.skip(i as int)),
        decreases lines@.len() - i,
    {
        let ghost rest = all.skip(i as int);
        assert(rest[0] == lines@[i as int]@);
        assert(rest.drop_first() =~= all.skip(i + 1));
        match sc.feed(lines[i].as_str()) {
            Err(e) => {
                return Err(e);
            },
            Ok(true) => {
                return Ok(sc.finish());
            },
            Ok(false) => {},
        }
        i = i + 1;
    }
    assert(all.skip(i as int) =~= Seq::<Seq<char>>::empty());
    Ok(sc.finish())
}

} // verus!
