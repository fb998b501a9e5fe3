//! Per-line authorship ("blame") of a file.
use std::collections::BTreeMap;
use vstd::prelude::*;
use vstd::utf8::encode_utf8;

verus! {

/// The view of an optional string: its characters, when present.
pub open spec fn opt_view(o: Option<String>) -> Option<Seq<char>> {
    match o {
        Some(s) => Some(s@),
        None => None,
    }
}

/// Copies an optional string.
pub fn clone_opt(o: &Option<String>) -> (r: Option<String>)
    ensures
        r == *o,
{
    match o {
        Some(s) => Some(s.clone()),
        None => None,
    }
}

/// The author of one line: the commit that last changed it and, where they
/// could be resolved, the author's email and name.
pub struct BlameLine {
    line: u32,
    commit: String,
    email: Option<String>,
    name: Option<String>,
}

impl BlameLine {
    pub closed spec fn spec_line(&self) -> u32 {
        self.line
    }

    pub closed spec fn spec_commit(&self) -> Seq<char> {
        self.commit@
    }

    /// The email of the author, the key under which the line is attributed.
    pub closed spec fn spec_email(&self) -> Option<Seq<char>> {
        opt_view(self.email)
    }

    pub closed spec fn spec_name(&self) -> Option<Seq<char>> {
        opt_view(self.name)
    }

    pub fn new(line: u32, commit: &str, email: Option<String>, name: Option<String>) -> (r:
        BlameLine)
        ensures
            r.spec_line() == line,
            r.spec_commit() == commit@,
            r.spec_email() == opt_view(email),
            r.spec_name() == opt_view(name),
    {
        BlameLine { line, commit: commit.to_owned(), email, name }
    }

    pub fn get_line(&self) -> (r: u32)
        ensures
            r == self.spec_line(),
    {
        self.line
    }

    pub fn get_commit(&self) -> (r: &str)
        ensures
            r@ == self.spec_commit(),
    {
        self.commit.as_str()
    }

    pub fn get_email(&self) -> (r: &Option<String>)
        ensures
            opt_view(*r) == self.spec_email(),
    {
        &self.email
    }

    pub fn get_name(&self) -> (r: &Option<String>)
        ensures
            opt_view(*r) == self.spec_name(),
    {
        &self.name
    }

    /// The email, or `unknown` for an author without one.
    pub fn must_get_email(&self) -> (r: String)
        ensures
            r@ == or_unknown(self.spec_email()),
    {
        match &self.email {
            Some(e) => e.clone(),
            None => "unknown".to_owned(),
        }
    }

    /// The name, or `unknown` for an author without one.
    pub fn must_get_name(&self) -> (r: String)
        ensures
            r@ == or_unknown(self.spec_name()),
    {
        match &self.name {
            Some(n) => n.clone(),
            None => "unknown".to_owned(),
        }
    }
}

/// A text, or `unknown` when there is none.
pub open spec fn or_unknown(o: Option<Seq<char>>) -> Seq<char> {
    match o {
        Some(t) => t,
        None => "unknown"@,
    }
}

/// The authorship of the lines of one file.
pub struct BlameFile {
    path: String,
    lines: BTreeMap<u32, BlameLine>,
}

/// What an authorship map holds: a path and the author of each line.
pub struct BlameFileView {
    pub path: Seq<char>,
    pub lines: Map<u32, BlameLine>,
}

impl View for BlameFile {
    type V = BlameFileView;

    closed spec fn view(&self) -> BlameFileView {
        BlameFileView { path: self.path@, lines: self.lines@ }
    }
}

/// `b` gives line `line` to commit `commit` by the author with `email` and
/// `name`.
pub open spec fn is_blame_line(
    b: BlameLine,
    line: u32,
    commit: Seq<char>,
    email: Option<Seq<char>>,
    name: Option<Seq<char>>,
) -> bool {
    &&& b.spec_line() == line
    &&& b.spec_commit() == commit
    &&& b.spec_email() == email
    &&& b.spec_name() == name
}

impl BlameFile {
    /// Each line is kept under its own number.
    pub open spec fn wf(&self) -> bool {
        forall|l: u32| #[trigger] self@.lines.contains_key(l) ==> self@.lines[l].spec_line() == l
    }

    /// An empty authorship map for `path`.
    pub fn new_from_path(path: &str) -> (r: BlameFile)
        ensures
            r.wf(),
            r@.path == path@,
            r@.lines == Map::<u32, BlameLine>::empty(),
    {
        BlameFile { path: path.to_owned(), lines: BTreeMap::new() }
    }

    pub fn get_path(&self) -> (r: &str)
        ensures
            r@ == self@.path,
    {
        self.path.as_str()
    }

    pub fn get_lines(&self) -> (r: &BTreeMap<u32, BlameLine>)
        ensures
            r@ == self@.lines,
    {
        &self.lines
    }

    /// Gives line `line` to commit `commit` by the author with `email` and
    /// `name`, replacing what the line had.
    pub fn add_line(&mut self, line: u32, commit: &str, email: Option<String>, name: Option<String>)
        requires
            old(self).wf(),
        ensures
            final(self).wf(),
            final(self)@.path == old(self)@.path,
            final(self)@.lines.dom() == old(self)@.lines.dom().insert(line),
            is_blame_line(final(self)@.lines[line], line, commit@, opt_view(email), opt_view(name)),
            forall|l: u32| l != line && #[trigger] old(self)@.lines.contains_key(l) ==> final(self)@.lines[l] == old(self)@.lines[l],
    {
        proof {
            broadcast use vstd::laws_cmp::group_laws_cmp;

            assert(vstd::laws_cmp::obeys_cmp::<u32>());
        }
        let b = BlameLine::new(line, commit, email, name);
        self.lines.insert(line, b);
        assert(self@.lines == old(self)@.lines.insert(line, b));
        assert(self@.lines.dom() =~= old(self)@.lines.dom().insert(line));
    }

    /// Replaces the lines by `lines`, each under its own number; of two
    /// lines with one number, the later is kept.
    pub fn set_lines_from_vec(&mut self, lines: Vec<BlameLine>)
        ensures
            final(self).wf(),
            final(self)@.path == old(self)@.path,
            forall|l: u32| #[trigger] final(self)@.lines.contains_key(l) <==> exists|i: int| 0 <= i < lines.len() && lines@[i].spec_line() == l,
            forall|i: int| #![trigger lines@[i]] 0 <= i < lines.len() && (forall|j: int| i < j < lines.len() ==> lines@[j].spec_line() != lines@[i].spec_line())
                ==> final(self)@.lines[lines@[i].spec_line()] == lines@[i],
    {
        proof {
            broadcast use vstd::laws_cmp::group_laws_cmp;

            assert(vstd::laws_cmp::obeys_cmp::<u32>());
        }
        let ghost all = lines@;
        let ghost n = all.len();
        let mut map: BTreeMap<u32, BlameLine> = BTreeMap::new();
        let mut rest = lines;
        while rest.len() > 0
            invariant
                n == all.len(),
                rest.len() <= n,
                rest@ == all.take(rest.len() as int),
                forall|l: u32| #[trigger] map@.contains_key(l) ==> map@[l].spec_line() == l,
                forall|l: u32| #[trigger] map@.contains_key(l) <==> exists|i: int| rest.len() <= i < n && all[i].spec_line() == l,
                forall|i: int| #![trigger all[i]] rest.len() <= i < n && (forall|j: int| i < j < n ==> all[j].spec_line() != all[i].spec_line())
                    ==> map@[all[i].spec_line()] == all[i],
            decreases rest.len(),
        {
            let ghost k = rest.len() - 1;
            assert(rest@[k] == all[k]);
            let line = rest.pop().unwrap();
            assert(rest@ == all.take(k));
            let key = line.get_line();
            let ghost before = map@;
            if !map.contains_key(&key) {
                map.insert(key, line);
                assert(map@ == before.insert(key, line));
                assert forall|i: int| #![trigger all[i]] rest.len() <= i < n && (forall|j: int| i < j < n ==> all[j].spec_line() != all[i].spec_line())
                    implies map@[all[i].spec_line()] == all[i] by {
                    if i > k && all[i].spec_line() == key {
                        assert(before.contains_key(key));
                    }
                }
            } else {
                assert forall|i: int| #![trigger all[i]] rest.len() <= i < n && (forall|j: int| i < j < n ==> all[j].spec_line() != all[i].spec_line())
                    implies map@[all[i].spec_line()] == all[i] by {
                    if i == k {
                        let j = choose|j: int| k < j < n && all[j].spec_line() == key;
                        assert(all[j].spec_line() == all[i].spec_line());
                    }
                }
            }
            assert forall|l: u32| #[trigger] map@.contains_key(l) <==> exists|i: int| k <= i < n && all[i].spec_line() == l by {
                if exists|i: int| k <= i < n && all[i].spec_line() == l {
                    let i = choose|i: int| k <= i < n && all[i].spec_line() == l;
                    if i > k {
                        assert(before.contains_key(l));
                    }
                }
                if map@.contains_key(l) && l != key {
                    assert(before.contains_key(l));
                }
            }
        }
        self.lines = map;
    }

    /// Gives the `lines_in_hunk` lines after line `*line_num` to one commit
    /// by one author, and moves `*line_num` to the last of them.
    pub fn add_hunk(
        &mut self,
        line_num: &mut u32,
        commit: &str,
        email: &Option<String>,
        name: &Option<String>,
        lines_in_hunk: u32,
    )
        requires
            old(self).wf(),
            *old(line_num) + lines_in_hunk <= u32::MAX,
        ensures
            final(self).wf(),
            *final(line_num) == *old(line_num) + lines_in_hunk,
            final(self)@.path == old(self)@.path,
            forall|l: u32| #[trigger] final(self)@.lines.contains_key(l) <==> old(self)@.lines.contains_key(l) || *old(line_num) < l <= *final(line_num),
            forall|l: u32| *old(line_num) < l <= *final(line_num) ==> is_blame_line(#[trigger] final(self)@.lines[l], l, commit@, opt_view(*email), opt_view(*name)),
            forall|l: u32| !(*old(line_num) < l <= *final(line_num)) && #[trigger] old(self)@.lines.contains_key(l) ==> final(self)@.lines[l] == old(self)@.lines[l],
    {
        let ghost first = *line_num;
        let mut i: u32 = 0;
        while i < lines_in_hunk
            invariant
                self.wf(),
                i <= lines_in_hunk,
                first + lines_in_hunk <= u32::MAX,
                *line_num == first + i,
                self@.path == old(self)@.path,
                forall|l: u32| #[trigger] self@.lines.contains_key(l) <==> old(self)@.lines.contains_key(l) || first < l <= *line_num,
                forall|l: u32| first < l <= *line_num ==> is_blame_line(#[trigger] self@.lines[l], l, commit@, opt_view(*email), opt_view(*name)),
                forall|l: u32| !(first < l <= *line_num) && #[trigger] old(self)@.lines.contains_key(l) ==> self@.lines[l] == old(self)@.lines[l],
            decreases lines_in_hunk - i,
        {
            let ghost before = self@.lines;
            *line_num = *line_num + 1;
            self.add_line(*line_num, commit, clone_opt(email), clone_opt(name));
            assert forall|l: u32| first < l < *line_num implies is_blame_line(#[trigger] self@.lines[l], l, commit@, opt_view(*email), opt_view(*name)) by {
                assert(before.contains_key(l));
            }
            assert forall|l: u32| !(first < l <= *line_num) && #[trigger] old(self)@.lines.contains_key(l) implies self@.lines[l] == old(self)@.lines[l] by {
                assert(before.contains_key(l));
            }
            i = i + 1;
        }
    }
}

/// Why the authorship of a file could not be had.
pub enum BlameError {
    /// The file is not tracked by the version-control history: it is skipped.
    NotTracked(String),
    /// Any other failure: the run stops.
    Failed(String),
}

/// `t` occurs in `s`.
pub open spec fn contains_bytes(s: Seq<u8>, t: Seq<u8>) -> bool {
    exists|i: int| 0 <= i && i + t.len() <= s.len() && #[trigger] s.subrange(i, i + t.len()) == t
}

/// Whether `t` occurs in `s`.
pub fn find_bytes(s: &[u8], t: &[u8]) -> (r: bool)
    ensures
        r == contains_bytes(s@, t@),
{
    if t.len() > s.len() {
        return false;
    }
    let last = s.len() - t.len();
    let mut i: usize = 0;
    while i < last
        invariant
            last == s.len() - t.len(),
            t.len() <= s.len(),
            i <= last,
            forall|j: int| 0 <= j < i ==> #[trigger] s@.subrange(j, j + t.len()) != t@,
        decreases last - i,
    {
        let part = vstd::slice::slice_subrange(s, i, i + t.len());
        if crate::cobertura::bytes_equal(part, t) {
            return true;
        }
        i = i + 1;
    }
    let part = vstd::slice::slice_subrange(s, last, s.len());
    if crate::cobertura::bytes_equal(part, t) {
        assert(s@.subrange(last as int, last + t.len()) == t@);
        return true;
    }
    assert forall|j: int| 0 <= j && j + t.len() <= s.len() implies #[trigger] s@.subrange(j, j + t.len()) != t@ by {
        assert(j <= last);
    }
    false
}

/// How libgit2 words the failure to blame a path that is not in the tree.
pub open spec fn not_tracked_wording(message: Seq<char>) -> bool {
    contains_bytes(encode_utf8(message), encode_utf8("not exist in the given tree"@))
}

/// The failure to get the authorship of a file, from the message of the
/// version-control library: a path that is not in the tree is not tracked,
/// and skipped; anything else stops the run.
pub fn blame_error_of(message: String) -> (r: BlameError)
    ensures
        match r {
            BlameError::NotTracked(m) => m@ == message@ && not_tracked_wording(message@),
            BlameError::Failed(m) => m@ == message@ && !not_tracked_wording(message@),
        },
{
    let found = find_bytes(message.as_str().as_bytes(), "not exist in the given tree".as_bytes());
    if found {
        BlameError::NotTracked(message)
    } else {
        BlameError::Failed(message)
    }
}

/// A source of per-line authorship.
pub trait BlameProvider {
    /// The authorship of the lines of the file at `path`.
    fn get_file_blame(&self, path: &str) -> Result<BlameFile, BlameError>;
}

} // verus!
