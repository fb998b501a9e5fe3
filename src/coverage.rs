//! Per-file line coverage and the sources that produce it.
use crate::cobertura::{self, initial_state, CoverageFileIterator};
use std::collections::BTreeMap;
use vstd::prelude::*;

verus! {

/// What a coverage record holds: a file path and, for each line number,
/// whether the line was covered.
pub struct FileCoverageView {
    pub path: Seq<char>,
    pub lines: Map<u32, bool>,
}

/// Line coverage of one source file.
pub struct FileCoverage {
    path: String,
    /// Maps line number to whether it was covered or not.
    lines: BTreeMap<u32, bool>,
}

impl View for FileCoverage {
    type V = FileCoverageView;

    closed spec fn view(&self) -> FileCoverageView {
        FileCoverageView { path: self.path@, lines: self.lines@ }
    }
}

/// A record with no path and no line.
pub open spec fn empty_file_coverage() -> FileCoverageView {
    FileCoverageView { path: Seq::empty(), lines: Map::empty() }
}

/// Records line `line_number` as covered or not; line number zero is no
/// line and leaves the record as it is.
pub open spec fn add_line_spec(f: FileCoverageView, line_number: u32, covered: bool) -> FileCoverageView {
    if line_number == 0 {
        f
    } else {
        FileCoverageView { lines: f.lines.insert(line_number, covered), ..f }
    }
}

impl FileCoverage {
    /// Line numbers are positive.
    pub open spec fn wf(&self) -> bool {
        forall|l: u32| #[trigger] self@.lines.contains_key(l) ==> l > 0
    }

    /// A record for `path` with no line yet.
    pub fn new_from_path(path: &str) -> (r: FileCoverage)
        ensures
            r.wf(),
            r@ == (FileCoverageView { path: path@, lines: Map::empty() }),
    {
        FileCoverage { path: path.to_owned(), lines: BTreeMap::new() }
    }

    /// Sets the path of the record.
    pub fn set_path(&mut self, path: String)
        ensures
            final(self)@ == (FileCoverageView { path: path@, ..old(self)@ }),
    {
        self.path = path;
    }

    pub fn get_path(&self) -> (r: &str)
        ensures
            r@ == self@.path,
    {
        self.path.as_str()
    }

    pub fn get_lines(&self) -> (r: &BTreeMap<u32, bool>)
        ensures
            r@ == self@.lines,
    {
        &self.lines
    }

    /// Records line `line_number` as covered or not; a line number of zero is
    /// discarded.
    pub fn add_line(&mut self, line_number: u32, covered: bool)
        requires
            old(self).wf(),
        ensures
            final(self).wf(),
            final(self)@ == add_line_spec(old(self)@, line_number, covered),
    {
        if line_number > 0 {
            proof {
                broadcast use vstd::laws_cmp::group_laws_cmp;

                assert(vstd::laws_cmp::obeys_cmp::<u32>());
            }
            self.lines.insert(line_number, covered);
            assert(self@.lines == old(self)@.lines.insert(line_number, covered));
        }
    }

    /// Empties the record: no path, no line.
    pub fn reset(&mut self)
        ensures
            final(self).wf(),
            final(self)@ == empty_file_coverage(),
    {
        self.path = String::new();
        self.lines.clear();
    }
}

impl Default for FileCoverage {
    fn default() -> (r: Self)
        ensures
            r.wf(),
            r@ == empty_file_coverage(),
    {
        FileCoverage { path: String::new(), lines: BTreeMap::new() }
    }
}

/// One line of a coverage record.
pub struct FileCoverageLine {
    line: u32,
    covered: bool,
}

impl FileCoverageLine {
    pub closed spec fn spec_line(&self) -> u32 {
        self.line
    }

    pub closed spec fn spec_covered(&self) -> bool {
        self.covered
    }

    pub fn new(line: u32, covered: bool) -> (r: FileCoverageLine)
        ensures
            r.spec_line() == line,
            r.spec_covered() == covered,
    {
        FileCoverageLine { line, covered }
    }

    pub fn get_line(&self) -> (r: u32)
        ensures
            r == self.spec_line(),
    {
        self.line
    }

    pub fn is_covered(&self) -> (r: bool)
        ensures
            r == self.spec_covered(),
    {
        self.covered
    }
}

/// A source of coverage records: it reads a coverage document into a
/// sequence of per-file records.
pub trait CoverageProvider {
    /// The name of the document format.
    spec fn name(&self) -> Seq<char>;

    /// Whether the provider can read documents at all.
    spec fn reads_documents(&self) -> bool;

    /// The error of a provider that cannot read documents.
    spec fn reader_error(&self) -> Seq<char>;

    /// The name of the document format.
    fn get_name(&self) -> (r: &str)
        ensures
            r@ == self.name(),
    ;

    /// Starts reading `document`, one record per source file.
    fn iter_files<'a>(&self, document: &'a [u8]) -> (r: Result<CoverageFileIterator<'a>, String>)
        ensures
            r is Ok <==> self.reads_documents(),
            r matches Err(e) ==> e@ == self.reader_error(),
            r matches Ok(it) ==> it.wf() && it.document() == document@ && it.state() == initial_state(),
    ;
}

/// A coverage report at a path, with the provider that reads its format.
pub struct Coverage {
    path: String,
    provider: Option<cobertura::Provider>,
}

impl Coverage {
    pub closed spec fn spec_path(&self) -> Seq<char> {
        self.path@
    }

    pub closed spec fn has_provider(&self) -> bool {
        self.provider is Some
    }

    /// A Cobertura report at `path`.
    pub fn new_from_path(path: &str) -> (r: Result<Coverage, String>)
        ensures
            r matches Ok(c) && c.spec_path() == path@ && c.has_provider(),
    {
        let provider = cobertura::Provider::load_from_file(path);
        match provider {
            Ok(p) => Ok(Coverage { path: path.to_owned(), provider: Some(p) }),
            Err(e) => Err(e),
        }
    }

    pub fn get_path(&self) -> (r: &str)
        ensures
            r@ == self.spec_path(),
    {
        self.path.as_str()
    }
}

impl Coverage {
    /// The name of the format of the report's provider.
    pub closed spec fn provider_name(&self) -> Seq<char> {
        match self.provider {
            None => "unknown provider"@,
            Some(p) => p.name(),
        }
    }
}

impl CoverageProvider for Coverage {
    open spec fn name(&self) -> Seq<char> {
        self.provider_name()
    }

    open spec fn reads_documents(&self) -> bool {
        self.has_provider()
    }

    open spec fn reader_error(&self) -> Seq<char> {
        "No provider"@
    }

    fn get_name(&self) -> (r: &str) {
        match &self.provider {
            None => "unknown provider",
            Some(provider) => provider.get_name(),
        }
    }

    fn iter_files<'a>(&self, document: &'a [u8]) -> (r: Result<CoverageFileIterator<'a>, String>) {
        match &self.provider {
            None => Err("No provider".to_owned()),
            Some(provider) => provider.iter_files(document),
        }
    }
}

} // verus!
