//! Per-author coverage statistics and the fold that builds them.
use crate::cobertura::{initial_state, lemma_scan_progress, record_at, records, state_after, work};
use crate::coverage::{empty_file_coverage, CoverageProvider, FileCoverage, FileCoverageView};
use crate::git::{clone_opt, opt_view, BlameError, BlameFile, BlameLine, BlameProvider};
use std::collections::BTreeMap;
use vstd::prelude::*;
use vstd::std_specs::btree::increasing_seq;
use vstd::std_specs::cmp::OrdSpec;
use vstd::std_specs::iter::IteratorSpec;

verus! {

/// Hundredths of a percent in `covered / lines`, rounded to the nearest
/// hundredth (halves up); zero when no line was seen.
pub open spec fn percent_hundredths(covered: nat, lines: nat) -> nat {
    if lines == 0 {
        0
    } else {
        (20000 * covered + lines) / (2 * lines)
    }
}

/// The percentage is `covered / lines * 100` to the nearest hundredth:
/// `p / 100` is within half a hundredth of it, and it is zero when no line
/// was seen.
pub proof fn lemma_percent_is_nearest(covered: nat, lines: nat)
    ensures
        lines == 0 ==> percent_hundredths(covered, lines) == 0,
        lines > 0 ==> 2 * lines * percent_hundredths(covered, lines) <= 20000 * covered + lines,
        lines > 0 ==> 20000 * covered + lines < 2 * lines * (percent_hundredths(covered, lines) + 1),
{
    if lines > 0 {
        let n = 20000 * covered + lines;
        let d = 2 * lines;
        let q = n / d;
        vstd::arithmetic::div_mod::lemma_fundamental_div_mod(n as int, d as int);
        assert(0 <= n % d < d) by {
            vstd::arithmetic::div_mod::lemma_mod_bound(n as int, d as int);
        }
        assert(d * q <= n < d * (q + 1)) by (nonlinear_arith)
            requires
                n == d * q + n % d,
                0 <= n % d < d,
        ;
    }
}

/// Computes [`percent_hundredths`] on machine integers.
pub fn percent_of(covered: u32, lines: u32) -> (r: u64)
    ensures
        r == percent_hundredths(covered as nat, lines as nat),
{
    if lines == 0 {
        0
    } else {
        let num: u64 = 20000 * (covered as u64) + lines as u64;
        let den: u64 = 2 * (lines as u64);
        num / den
    }
}

/// The identity under which lines are attributed: the author's email, or
/// `None` for lines whose author has no email.
pub type AuthorKey = Option<Seq<char>>;

/// What the summary holds for one author.
pub struct AuthorView {
    pub name: Option<Seq<char>>,
    pub lines: nat,
    pub covered: nat,
}

/// What a summary holds: global totals and the per-author totals.
pub struct SummaryView {
    pub lines: nat,
    pub covered: nat,
    pub authors: Map<AuthorKey, AuthorView>,
}

pub open spec fn bool_count(b: bool) -> nat {
    if b {
        1
    } else {
        0
    }
}

/// One more line seen for `key`, covered or not, in the author's totals and
/// in the global totals.
pub open spec fn incr_spec(s: SummaryView, key: AuthorKey, covered: bool) -> SummaryView {
    let a = s.authors[key];
    SummaryView {
        lines: s.lines + 1,
        covered: s.covered + bool_count(covered),
        authors: s.authors.insert(
            key,
            AuthorView { name: a.name, lines: a.lines + 1, covered: a.covered + bool_count(covered) },
        ),
    }
}

/// Adds an author with zero counts unless the key is already there.
pub open spec fn create_spec(s: SummaryView, key: AuthorKey, name: Option<Seq<char>>) -> SummaryView {
    if s.authors.contains_key(key) {
        s
    } else {
        SummaryView {
            authors: s.authors.insert(key, AuthorView { name, lines: 0, covered: 0 }),
            ..s
        }
    }
}

/// A name that is present and not empty.
pub open spec fn is_real_name(name: Option<Seq<char>>) -> bool {
    name matches Some(n) && n.len() > 0
}

/// Gives a present author the name `name` if it is not empty and they have
/// none that is not empty yet.
pub open spec fn adopt_name_spec(s: SummaryView, key: AuthorKey, name: Option<Seq<char>>) -> SummaryView {
    let a = s.authors[key];
    if !is_real_name(a.name) && is_real_name(name) {
        SummaryView { authors: s.authors.insert(key, AuthorView { name, ..a }), ..s }
    } else {
        s
    }
}

/// Attributes one line, covered or not, to the author of `blame`: the author
/// is created on first sight, keeps the first name that is not empty, and
/// their counts and the global counts grow by one line.
pub open spec fn attribute_spec(s: SummaryView, covered: bool, blame: BlameLine) -> SummaryView {
    let key = blame.spec_email();
    let s1 = create_spec(s, key, blame.spec_name());
    let s2 = adopt_name_spec(s1, key, blame.spec_name());
    incr_spec(s2, key, covered)
}

/// Folds coverage entries `(line, covered)`, in order, into `s`: each line that
/// `blame` knows is attributed to its author; the others are skipped.
pub open spec fn fold_spec(s: SummaryView, entries: Seq<(u32, bool)>, blame: Map<u32, BlameLine>) -> SummaryView
    decreases entries.len(),
{
    if entries.len() == 0 {
        s
    } else {
        let prev = fold_spec(s, entries.drop_last(), blame);
        let (line, covered) = entries.last();
        if blame.contains_key(line) {
            attribute_spec(prev, covered, blame[line])
        } else {
            prev
        }
    }
}

/// Room for one more line, covered or not, in the global counts and in
/// those of `key`.
pub open spec fn room_for_line(s: SummaryView, key: AuthorKey, covered: bool) -> bool {
    &&& s.lines < u32::MAX
    &&& covered ==> s.covered < u32::MAX
    &&& s.authors.contains_key(key) ==> s.authors[key].lines < u32::MAX && (covered ==> s.authors[key].covered
        < u32::MAX)
}

/// How many entries `blame` attributes.
pub open spec fn attributed_count(e: Seq<(u32, bool)>, blame: Map<u32, BlameLine>) -> nat
    decreases e.len(),
{
    if e.len() == 0 {
        0
    } else {
        attributed_count(e.drop_last(), blame) + if blame.contains_key(e.last().0) {
            1nat
        } else {
            0nat
        }
    }
}

/// How many covered entries `blame` attributes.
pub open spec fn covered_count(e: Seq<(u32, bool)>, blame: Map<u32, BlameLine>) -> nat
    decreases e.len(),
{
    if e.len() == 0 {
        0
    } else {
        covered_count(e.drop_last(), blame) + if blame.contains_key(e.last().0) && e.last().1 {
            1nat
        } else {
            0nat
        }
    }
}

/// How many entries `blame` attributes to the author `key`.
pub open spec fn author_count(e: Seq<(u32, bool)>, blame: Map<u32, BlameLine>, key: AuthorKey) -> nat
    decreases e.len(),
{
    if e.len() == 0 {
        0
    } else {
        author_count(e.drop_last(), blame, key) + if blame.contains_key(e.last().0) && blame[e.last().0].spec_email()
            == key {
            1nat
        } else {
            0nat
        }
    }
}

/// How many covered entries `blame` attributes to the author `key`.
pub open spec fn author_covered_count(e: Seq<(u32, bool)>, blame: Map<u32, BlameLine>, key: AuthorKey) -> nat
    decreases e.len(),
{
    if e.len() == 0 {
        0
    } else {
        author_covered_count(e.drop_last(), blame, key) + if blame.contains_key(e.last().0) && e.last().1
            && blame[e.last().0].spec_email() == key {
            1nat
        } else {
            0nat
        }
    }
}

/// The lines, then the covered lines, the summary holds for `key`; zero
/// for an author it does not hold.
pub open spec fn base_counts(s: SummaryView, key: AuthorKey) -> (nat, nat) {
    if s.authors.contains_key(key) {
        (s.authors[key].lines, s.authors[key].covered)
    } else {
        (0, 0)
    }
}

/// Room in every count for what folding the entries `e` adds.
pub open spec fn fits_entries(s: SummaryView, e: Seq<(u32, bool)>, blame: Map<u32, BlameLine>) -> bool {
    &&& s.lines + attributed_count(e, blame) <= u32::MAX
    &&& s.covered + covered_count(e, blame) <= u32::MAX
    &&& forall|k: AuthorKey| #[trigger]
        s.authors.contains_key(k) ==> s.authors[k].lines + author_count(e, blame, k) <= u32::MAX
            && s.authors[k].covered + author_covered_count(e, blame, k) <= u32::MAX
}

/// Coverage statistics of one author.
pub struct CommitterCoverageUserStat {
    email: Option<String>,
    name: Option<String>,
    lines: u32,
    covered: u32,
}

impl CommitterCoverageUserStat {
    pub closed spec fn key(&self) -> AuthorKey {
        opt_view(self.email)
    }

    pub closed spec fn author(&self) -> AuthorView {
        AuthorView { name: opt_view(self.name), lines: self.lines as nat, covered: self.covered as nat }
    }

    pub fn new(email: &str, name: Option<String>, lines: u32, covered: u32) -> (r: Self)
        ensures
            r.key() == Some(email@),
            r.author() == (AuthorView { name: opt_view(name), lines: lines as nat, covered: covered as nat }),
    {
        CommitterCoverageUserStat { email: Some(email.to_owned()), name, lines, covered }
    }

    pub closed spec fn author_name(&self) -> Option<String> {
        self.name
    }

    /// The email the stat is kept under; `None` for authors without one.
    pub fn get_email(&self) -> (r: &Option<String>)
        ensures
            opt_view(*r) == self.key(),
    {
        &self.email
    }

    pub fn get_name(&self) -> (r: &Option<String>)
        ensures
            opt_view(*r) == self.author().name,
            *r == self.author_name(),
    {
        &self.name
    }

    pub fn get_lines(&self) -> (r: u32)
        ensures
            r == self.author().lines,
    {
        self.lines
    }

    pub fn get_covered(&self) -> (r: u32)
        ensures
            r == self.author().covered,
    {
        self.covered
    }

    /// Coverage of the author, in hundredths of a percent.
    pub fn get_percent_covered(&self) -> (r: u64)
        ensures
            r == percent_hundredths(self.author().covered, self.author().lines),
    {
        percent_of(self.covered, self.lines)
    }
}

/// The authors held by a list of stats, the later entry winning on a repeated
/// key (keys are unique in a well-formed summary).
pub open spec fn stats_map(s: Seq<CommitterCoverageUserStat>) -> Map<AuthorKey, AuthorView>
    decreases s.len(),
{
    if s.len() == 0 {
        Map::empty()
    } else {
        stats_map(s.drop_last()).insert(s.last().key(), s.last().author())
    }
}

pub open spec fn keys_unique(s: Seq<CommitterCoverageUserStat>) -> bool {
    forall|i: int, j: int| 0 <= i < j < s.len() ==> s[i].key() != s[j].key()
}

proof fn lemma_stats_map_index(s: Seq<CommitterCoverageUserStat>, i: int)
    requires
        keys_unique(s),
        0 <= i < s.len(),
    ensures
        stats_map(s).contains_key(s[i].key()),
        stats_map(s)[s[i].key()] == s[i].author(),
    decreases s.len(),
{
    if i < s.len() - 1 {
        lemma_stats_map_index(s.drop_last(), i);
    }
}

proof fn lemma_stats_map_keys(s: Seq<CommitterCoverageUserStat>, k: AuthorKey)
    ensures
        stats_map(s).contains_key(k) <==> exists|i: int| 0 <= i < s.len() && s[i].key() == k,
    decreases s.len(),
{
    if s.len() > 0 {
        lemma_stats_map_keys(s.drop_last(), k);
        if stats_map(s).contains_key(k) && k != s.last().key() {
            let i = choose|i: int| 0 <= i < s.len() - 1 && s.drop_last()[i].key() == k;
            assert(s[i].key() == k);
        }
        if exists|i: int| 0 <= i < s.len() && s[i].key() == k {
            let i = choose|i: int| 0 <= i < s.len() && s[i].key() == k;
            if i < s.len() - 1 {
                assert(s.drop_last()[i].key() == k);
            }
        }
    }
}

proof fn lemma_stats_map_len(s: Seq<CommitterCoverageUserStat>)
    requires
        keys_unique(s),
    ensures
        stats_map(s).dom().finite(),
        stats_map(s).len() == s.len(),
    decreases s.len(),
{
    if s.len() > 0 {
        lemma_stats_map_len(s.drop_last());
        lemma_stats_map_keys(s.drop_last(), s.last().key());
        assert(!stats_map(s.drop_last()).contains_key(s.last().key()));
    }
}

proof fn lemma_stats_map_update(s: Seq<CommitterCoverageUserStat>, i: int, v: CommitterCoverageUserStat)
    requires
        0 <= i < s.len(),
        v.key() == s[i].key(),
        keys_unique(s),
    ensures
        keys_unique(s.update(i, v)),
        stats_map(s.update(i, v)) == stats_map(s).insert(v.key(), v.author()),
    decreases s.len(),
{
    let t = s.update(i, v);
    if i == s.len() - 1 {
        assert(t.drop_last() == s.drop_last());
        lemma_stats_map_keys(s.drop_last(), v.key());
        assert(!stats_map(s.drop_last()).contains_key(v.key()));
        assert(stats_map(t) =~= stats_map(s).insert(v.key(), v.author()));
    } else {
        assert(t.drop_last() == s.drop_last().update(i, v));
        lemma_stats_map_update(s.drop_last(), i, v);
        assert(stats_map(t) =~= stats_map(s).insert(v.key(), v.author()));
    }
}

proof fn lemma_stats_map_push(s: Seq<CommitterCoverageUserStat>, v: CommitterCoverageUserStat)
    requires
        keys_unique(s),
        !stats_map(s).contains_key(v.key()),
    ensures
        keys_unique(s.push(v)),
        stats_map(s.push(v)) == stats_map(s).insert(v.key(), v.author()),
{
    assert(s.push(v).drop_last() == s);
    assert forall|i: int| 0 <= i < s.len() implies s[i].key() != v.key() by {
        lemma_stats_map_index(s, i);
    }
}

/// Whether two optional emails name the same author.
fn same_key(a: &Option<String>, b: &Option<String>) -> (r: bool)
    ensures
        r == (opt_view(*a) == opt_view(*b)),
{
    match a {
        Some(x) => match b {
            Some(y) => {
                let eq = *x == *y;
                eq
            },
            None => false,
        },
        None => b.is_none(),
    }
}

/// The lines of all the stats together.
pub open spec fn lines_sum(s: Seq<CommitterCoverageUserStat>) -> nat
    decreases s.len(),
{
    if s.len() == 0 {
        0
    } else {
        lines_sum(s.drop_last()) + s.last().author().lines
    }
}

/// The covered lines of all the stats together.
pub open spec fn covered_sum(s: Seq<CommitterCoverageUserStat>) -> nat
    decreases s.len(),
{
    if s.len() == 0 {
        0
    } else {
        covered_sum(s.drop_last()) + s.last().author().covered
    }
}

proof fn lemma_sums_update(s: Seq<CommitterCoverageUserStat>, i: int, v: CommitterCoverageUserStat)
    requires
        0 <= i < s.len(),
    ensures
        lines_sum(s.update(i, v)) + s[i].author().lines == lines_sum(s) + v.author().lines,
        covered_sum(s.update(i, v)) + s[i].author().covered == covered_sum(s) + v.author().covered,
    decreases s.len(),
{
    if i == s.len() - 1 {
        assert(s.update(i, v).drop_last() == s.drop_last());
    } else {
        assert(s.update(i, v).drop_last() == s.drop_last().update(i, v));
        lemma_sums_update(s.drop_last(), i, v);
    }
}

/// Coverage summary over all authors: global totals and one stat per author.
pub struct CommitterCoverageSummary {
    lines: u32,
    covered: u32,
    user_stats: Vec<CommitterCoverageUserStat>,
}

impl View for CommitterCoverageSummary {
    type V = SummaryView;

    closed spec fn view(&self) -> SummaryView {
        SummaryView {
            lines: self.lines as nat,
            covered: self.covered as nat,
            authors: stats_map(self.user_stats@),
        }
    }
}

impl CommitterCoverageSummary {
    /// Each author appears once.
    pub closed spec fn wf(&self) -> bool {
        keys_unique(self.user_stats@)
    }

    /// The global counts are the sums of the per-author counts, as they are
    /// in a summary built by folding records (and not by setting counts).
    pub open spec fn totals_are_sums(&self) -> bool {
        &&& self@.lines == lines_sum(self.stats())
        &&& self@.covered == covered_sum(self.stats())
    }

    /// An empty summary.
    pub fn new() -> (r: Self)
        ensures
            r.wf(),
            r.totals_are_sums(),
            r@.lines == 0,
            r@.covered == 0,
            r@.authors == Map::<AuthorKey, AuthorView>::empty(),
    {
        CommitterCoverageSummary { lines: 0, covered: 0, user_stats: Vec::new() }
    }

    /// Position of the stat kept under `key`.
    fn find(&self, key: &Option<String>) -> (r: Option<usize>)
        requires
            self.wf(),
        ensures
            match r {
                Some(i) => i < self.user_stats.len() && self.user_stats@[i as int].key() == opt_view(
                    *key,
                ),
                None => !self@.authors.contains_key(opt_view(*key)),
            },
    {
        let mut i: usize = 0;
        while i < self.user_stats.len()
            invariant
                i <= self.user_stats.len(),
                forall|j: int| 0 <= j < i ==> self.user_stats@[j].key() != opt_view(*key),
            decreases self.user_stats.len() - i,
        {
            if same_key(&self.user_stats[i].email, key) {
                return Some(i);
            }
            i = i + 1;
        }
        proof {
            lemma_stats_map_keys(self.user_stats@, opt_view(*key));
        }
        None
    }

    /// Adds an author kept under `key` with zero counts, unless present.
    fn create_for_key(&mut self, key: &Option<String>, name: Option<String>)
        requires
            old(self).wf(),
        ensures
            final(self).wf(),
            final(self)@ == create_spec(old(self)@, opt_view(*key), opt_view(name)),
            old(self).totals_are_sums() ==> final(self).totals_are_sums(),
    {
        match self.find(key) {
            Some(i) => {
                proof {
                    lemma_stats_map_index(self.user_stats@, i as int);
                }
            },
            None => {
                let stat = CommitterCoverageUserStat { email: clone_opt(key), name, lines: 0, covered: 0 };
                proof {
                    lemma_stats_map_push(self.user_stats@, stat);
                }
                self.user_stats.push(stat);
                assert(self@.authors == old(self)@.authors.insert(opt_view(*key), stat.author()));
                assert(self.user_stats@.drop_last() == old(self).user_stats@);
            },
        }
    }

    /// Adds a stat for `email` with zero counts, unless one is already kept
    /// under that email, which is then left as it is.
    pub fn create_user_stat_if_not_exists(&mut self, email: &str, name: Option<String>)
        requires
            old(self).wf(),
        ensures
            final(self).wf(),
            final(self)@ == create_spec(old(self)@, Some(email@), opt_view(name)),
            old(self).totals_are_sums() ==> final(self).totals_are_sums(),
    {
        let key = Some(email.to_owned());
        self.create_for_key(&key, name);
    }

    /// Sets the counts of the author at `i`, keeping the key and the name.
    fn set_at(&mut self, i: usize, lines: u32, covered: u32)
        requires
            old(self).wf(),
            i < old(self).user_stats.len(),
        ensures
            final(self).wf(),
            final(self).user_stats.len() == old(self).user_stats.len(),
            lines_sum(final(self).stats()) + old(self).stats()[i as int].author().lines == lines_sum(old(self).stats())
                + lines,
            covered_sum(final(self).stats()) + old(self).stats()[i as int].author().covered == covered_sum(
                old(self).stats(),
            ) + covered,
            final(self)@ == (SummaryView {
                authors: old(self)@.authors.insert(
                    old(self).user_stats@[i as int].key(),
                    AuthorView { lines: lines as nat, covered: covered as nat, ..old(self).user_stats@[i as int].author() },
                ),
                ..old(self)@
            }),
    {
        let ghost before = self.user_stats@;
        let name = clone_opt(&self.user_stats[i].name);
        let email = clone_opt(&self.user_stats[i].email);
        let stat = CommitterCoverageUserStat { email, name, lines, covered };
        proof {
            lemma_stats_map_update(before, i as int, stat);
            lemma_sums_update(before, i as int, stat);
        }
        self.user_stats.set(i, stat);
        assert(self.user_stats@ == before.update(i as int, stat));
    }

    /// Overwrites the counts of the author kept under `email`. Fails, leaving
    /// the summary as it is, when there is no such author.
    pub fn set_user_stat(&mut self, email: &str, lines: u32, covered: u32) -> (r: Result<(), String>)
        requires
            old(self).wf(),
        ensures
            final(self).wf(),
            r is Ok <==> old(self)@.authors.contains_key(Some(email@)),
            r is Ok ==> final(self)@ == (SummaryView {
                authors: old(self)@.authors.insert(
                    Some(email@),
                    AuthorView { lines: lines as nat, covered: covered as nat, ..old(self)@.authors[Some(email@)] },
                ),
                ..old(self)@
            }),
            r matches Err(e) ==> e@ == "User "@ + email@ + " does not exist. Create new one"@ && final(self)@
                == old(self)@,
    {
        let key = Some(email.to_owned());
        match self.find(&key) {
            None => Err(missing_user_message(email)),
            Some(i) => {
                proof {
                    lemma_stats_map_index(self.user_stats@, i as int);
                }
                self.set_at(i, lines, covered);
                Ok(())
            },
        }
    }

    /// Sets both counts of the author kept under `email` to zero. Fails,
    /// leaving the summary as it is, when there is no such author.
    pub fn reset_user(&mut self, email: &str) -> (r: Result<(), String>)
        requires
            old(self).wf(),
        ensures
            final(self).wf(),
            r is Ok <==> old(self)@.authors.contains_key(Some(email@)),
            r is Ok ==> final(self)@ == (SummaryView {
                authors: old(self)@.authors.insert(
                    Some(email@),
                    AuthorView { lines: 0, covered: 0, ..old(self)@.authors[Some(email@)] },
                ),
                ..old(self)@
            }),
            r matches Err(e) ==> e@ == "User "@ + email@ + " does not exist"@ && final(self)@ == old(self)@,
    {
        let key = Some(email.to_owned());
        match self.find(&key) {
            None => {
                let mut m = message("User ", email);
                m.append(" does not exist");
                Err(m)
            },
            Some(i) => {
                proof {
                    lemma_stats_map_index(self.user_stats@, i as int);
                }
                self.set_at(i, 0, 0);
                Ok(())
            },
        }
    }

    /// Counts one more line, covered or not, for the author kept under `key`
    /// and in the global totals.
    fn incr_for_key(&mut self, key: &Option<String>, covered: bool)
        requires
            old(self).wf(),
            old(self)@.authors.contains_key(opt_view(*key)),
            room_for_line(old(self)@, opt_view(*key), covered),
        ensures
            final(self).wf(),
            final(self)@ == incr_spec(old(self)@, opt_view(*key), covered),
            old(self).totals_are_sums() ==> final(self).totals_are_sums(),
    {
        match self.find(key) {
            None => {},
            Some(i) => {
                proof {
                    lemma_stats_map_index(self.user_stats@, i as int);
                }
                let c: u32 = if covered { 1 } else { 0 };
                let lines = self.user_stats[i].lines + 1;
                let cov = self.user_stats[i].covered + c;
                self.set_at(i, lines, cov);
                self.lines = self.lines + 1;
                self.covered = self.covered + c;
            },
        }
    }

    /// Counts one more line, covered or not, for the author kept under
    /// `email` and in the global totals.
    pub fn incr_user_line_cover(&mut self, email: &str, covered: bool)
        requires
            old(self).wf(),
            old(self)@.authors.contains_key(Some(email@)),
            room_for_line(old(self)@, Some(email@), covered),
        ensures
            final(self).wf(),
            final(self)@ == incr_spec(old(self)@, Some(email@), covered),
            old(self).totals_are_sums() ==> final(self).totals_are_sums(),
    {
        let key = Some(email.to_owned());
        self.incr_for_key(&key, covered);
    }

    /// Gives the author kept under `key` the name `name` if they have none.
    fn adopt_name_for_key(&mut self, key: &Option<String>, name: &Option<String>)
        requires
            old(self).wf(),
            old(self)@.authors.contains_key(opt_view(*key)),
        ensures
            final(self).wf(),
            final(self)@ == adopt_name_spec(old(self)@, opt_view(*key), opt_view(*name)),
            old(self).totals_are_sums() ==> final(self).totals_are_sums(),
    {
        match self.find(key) {
            None => {},
            Some(i) => {
                proof {
                    lemma_stats_map_index(self.user_stats@, i as int);
                }
                let has_name = match &self.user_stats[i].name {
                    Some(n) => !n.as_str().is_empty(),
                    None => false,
                };
                let given = match name {
                    Some(n) => !n.as_str().is_empty(),
                    None => false,
                };
                if !has_name && given {
                    let ghost before = self.user_stats@;
                    let stat = CommitterCoverageUserStat {
                        email: clone_opt(&self.user_stats[i].email),
                        name: clone_opt(name),
                        lines: self.user_stats[i].lines,
                        covered: self.user_stats[i].covered,
                    };
                    proof {
                        lemma_stats_map_update(before, i as int, stat);
                        lemma_sums_update(before, i as int, stat);
                    }
                    self.user_stats.set(i, stat);
                    assert(self.user_stats@ == before.update(i as int, stat));
                }
            },
        }
    }

    /// Attributes one line, covered or not, to the author of `blame`.
    fn attribute_line(&mut self, covered: bool, blame: &BlameLine)
        requires
            old(self).wf(),
            room_for_line(old(self)@, blame.spec_email(), covered),
        ensures
            final(self).wf(),
            final(self)@ == attribute_spec(old(self)@, covered, *blame),
            old(self).totals_are_sums() ==> final(self).totals_are_sums(),
    {
        let key = blame.get_email();
        let name = blame.get_name();
        self.create_for_key(key, clone_opt(name));
        self.adopt_name_for_key(key, name);
        self.incr_for_key(key, covered);
    }

    /// The per-author stats in the order the summary keeps them.
    pub closed spec fn stats(&self) -> Seq<CommitterCoverageUserStat> {
        self.user_stats@
    }

    /// All per-author stats, each author once.
    pub fn get_user_stats(&self) -> (r: &Vec<CommitterCoverageUserStat>)
        requires
            self.wf(),
        ensures
            r@ == self.stats(),
            keys_unique(r@),
            r@.len() == self@.authors.len(),
            forall|i: int| #![trigger r@[i]] 0 <= i < r@.len() ==> self@.authors.contains_key(r@[i].key())
                && self@.authors[r@[i].key()] == r@[i].author(),
            forall|k: AuthorKey| #[trigger] self@.authors.contains_key(k) ==> exists|i: int| 0 <= i < r@.len() && r@[i].key() == k,
    {
        proof {
            lemma_stats_map_len(self.user_stats@);
            assert forall|i: int| #![trigger self.user_stats@[i]] 0 <= i < self.user_stats@.len() implies self@.authors.contains_key(self.user_stats@[i].key())
                && self@.authors[self.user_stats@[i].key()] == self.user_stats@[i].author() by {
                lemma_stats_map_index(self.user_stats@, i);
            }
            assert forall|k: AuthorKey| #[trigger] self@.authors.contains_key(k) implies exists|i: int| 0 <= i < self.user_stats@.len() && self.user_stats@[i].key() == k by {
                lemma_stats_map_keys(self.user_stats@, k);
            }
        }
        &self.user_stats
    }

    /// The stat kept under `email`, if any.
    pub fn get_user_stat(&self, email: &str) -> (r: Option<&CommitterCoverageUserStat>)
        requires
            self.wf(),
        ensures
            r is Some <==> self@.authors.contains_key(Some(email@)),
            r matches Some(stat) ==> stat.key() == Some(email@) && stat.author() == self@.authors[Some(email@)],
    {
        let key = Some(email.to_owned());
        match self.find(&key) {
            Some(i) => {
                proof {
                    lemma_stats_map_index(self.user_stats@, i as int);
                }
                Some(&self.user_stats[i])
            },
            None => None,
        }
    }

    pub fn get_lines(&self) -> (r: u32)
        ensures
            r == self@.lines,
    {
        self.lines
    }

    pub fn get_covered(&self) -> (r: u32)
        ensures
            r == self@.covered,
    {
        self.covered
    }

    /// Global coverage, in hundredths of a percent.
    pub fn get_percent_covered(&self) -> (r: u64)
        ensures
            r == percent_hundredths(self@.covered, self@.lines),
    {
        percent_of(self.covered, self.lines)
    }
}

/// `entries` lists the entries of `m` once each, in ascending line order.
pub open spec fn is_ascending_listing(entries: Seq<(u32, bool)>, m: Map<u32, bool>) -> bool {
    &&& forall|i: int, j: int| 0 <= i < j < entries.len() ==> entries[i].0 < entries[j].0
    &&& forall|i: int| 0 <= i < entries.len() ==> #[trigger] m.contains_key(entries[i].0) && m[entries[i].0] == entries[i].1
    &&& forall|k: u32| #[trigger] m.contains_key(k) ==> exists|i: int| 0 <= i < entries.len() && entries[i].0 == k
}

/// The entries of `m` in ascending line order.
pub open spec fn ascending_entries(m: Map<u32, bool>) -> Seq<(u32, bool)> {
    choose|e: Seq<(u32, bool)>| is_ascending_listing(e, m)
}

/// A map has one ascending listing at most.
proof fn lemma_ascending_listing_unique(a: Seq<(u32, bool)>, b: Seq<(u32, bool)>, m: Map<u32, bool>)
    requires
        is_ascending_listing(a, m),
        is_ascending_listing(b, m),
    ensures
        a == b,
    decreases a.len(),
{
    if a.len() == 0 {
        if b.len() > 0 {
            assert(m.contains_key(b[0].0));
        }
        assert(a =~= b);
    } else {
        assert(m.contains_key(a[0].0));
        if b.len() == 0 {
            assert(false);
        }
        assert(m.contains_key(b[0].0));
        let j = choose|j: int| 0 <= j < b.len() && b[j].0 == a[0].0;
        let i = choose|i: int| 0 <= i < a.len() && a[i].0 == b[0].0;
        if i > 0 {
            assert(a[0].0 < a[i].0);
        }
        if j > 0 {
            assert(b[0].0 < b[j].0);
        }
        let k = a[0].0;
        assert(b[0].0 == k);
        let rest = m.remove(k);
        let a1 = a.drop_first();
        let b1 = b.drop_first();
        assert forall|x: int| 0 <= x < a1.len() implies #[trigger] rest.contains_key(a1[x].0) && rest[a1[x].0] == a1[x].1 by {
            assert(a[0].0 < a[x + 1].0);
            assert(m.contains_key(a[x + 1].0));
        }
        assert forall|x: int| 0 <= x < b1.len() implies #[trigger] rest.contains_key(b1[x].0) && rest[b1[x].0] == b1[x].1 by {
            assert(b[0].0 < b[x + 1].0);
            assert(m.contains_key(b[x + 1].0));
        }
        assert forall|key: u32| #[trigger] rest.contains_key(key) implies exists|x: int| 0 <= x < a1.len() && a1[x].0 == key by {
            assert(m.contains_key(key));
            let x = choose|x: int| 0 <= x < a.len() && a[x].0 == key;
            assert(a1[x - 1].0 == key);
        }
        assert forall|key: u32| #[trigger] rest.contains_key(key) implies exists|x: int| 0 <= x < b1.len() && b1[x].0 == key by {
            assert(m.contains_key(key));
            let x = choose|x: int| 0 <= x < b.len() && b[x].0 == key;
            assert(b1[x - 1].0 == key);
        }
        lemma_ascending_listing_unique(a1, b1, rest);
        assert(a[0] == b[0]);
        assert(a =~= seq![a[0]] + a1);
        assert(b =~= seq![b[0]] + b1);
    }
}

/// Folding entries adds to each count exactly the entries it attributes: to
/// the global counts all attributed (and covered) entries, to each author
/// those attributed to them; an author is held afterwards exactly when held
/// before or given a line.
pub proof fn lemma_fold_per_author(s: SummaryView, e: Seq<(u32, bool)>, blame: Map<u32, BlameLine>, k: AuthorKey)
    ensures
        fold_spec(s, e, blame).lines == s.lines + attributed_count(e, blame),
        fold_spec(s, e, blame).covered == s.covered + covered_count(e, blame),
        fold_spec(s, e, blame).authors.contains_key(k) <==> s.authors.contains_key(k) || author_count(e, blame, k)
            > 0,
        fold_spec(s, e, blame).authors.contains_key(k) ==> fold_spec(s, e, blame).authors[k].lines == base_counts(
            s,
            k,
        ).0 + author_count(e, blame, k) && fold_spec(s, e, blame).authors[k].covered == base_counts(s, k).1
            + author_covered_count(e, blame, k),
    decreases e.len(),
{
    if e.len() > 0 {
        lemma_fold_per_author(s, e.drop_last(), blame, k);
        let p = fold_spec(s, e.drop_last(), blame);
        let (l, c) = e.last();
        if blame.contains_key(l) {
            let b = blame[l];
            let kb = b.spec_email();
            let s1 = create_spec(p, kb, b.spec_name());
            let s2 = adopt_name_spec(s1, kb, b.spec_name());
            assert(s1.authors.contains_key(kb));
            assert(s2.authors.contains_key(kb));
            assert(s2.authors[kb].lines == s1.authors[kb].lines);
            assert(s2.authors[kb].covered == s1.authors[kb].covered);
            assert(s2.authors.dom() == s1.authors.dom());
            let t = fold_spec(s, e, blame);
            assert(t == incr_spec(s2, kb, c));
            assert(author_count(e, blame, k) == author_count(e.drop_last(), blame, k) + if kb == k {
                1nat
            } else {
                0nat
            });
            assert(author_covered_count(e, blame, k) == author_covered_count(e.drop_last(), blame, k) + if kb == k
                && c {
                1nat
            } else {
                0nat
            });
            if k == kb {
                assert(t.authors[k].lines == s2.authors[k].lines + 1);
                assert(t.authors[k].covered == s2.authors[k].covered + bool_count(c));
                if p.authors.contains_key(k) {
                    assert(s1 == p);
                } else {
                    assert(s1.authors[k].lines == 0);
                }
            }
            if k != kb {
                assert(s2.authors.contains_key(k) == p.authors.contains_key(k));
                if p.authors.contains_key(k) {
                    assert(s2.authors[k] == p.authors[k]);
                }
            } else if !p.authors.contains_key(k) {
                lemma_counts_bounded(e.drop_last(), blame, k);
                assert(author_count(e.drop_last(), blame, k) == 0);
                assert(!s.authors.contains_key(k));
            }
        } else {
            assert(fold_spec(s, e, blame) == p);
            assert(author_count(e, blame, k) == author_count(e.drop_last(), blame, k));
            assert(author_covered_count(e, blame, k) == author_covered_count(e.drop_last(), blame, k));
        }
    }
}

proof fn lemma_counts_bounded(e: Seq<(u32, bool)>, blame: Map<u32, BlameLine>, k: AuthorKey)
    ensures
        attributed_count(e, blame) <= e.len(),
        covered_count(e, blame) <= e.len(),
        author_count(e, blame, k) <= e.len(),
        author_covered_count(e, blame, k) <= e.len(),
        author_covered_count(e, blame, k) <= author_count(e, blame, k),
    decreases e.len(),
{
    if e.len() > 0 {
        lemma_counts_bounded(e.drop_last(), blame, k);
    }
}

proof fn lemma_counts_grow(e: Seq<(u32, bool)>, blame: Map<u32, BlameLine>, k: AuthorKey, i: int)
    requires
        0 <= i <= e.len(),
    ensures
        attributed_count(e.take(i), blame) <= attributed_count(e, blame),
        covered_count(e.take(i), blame) <= covered_count(e, blame),
        author_count(e.take(i), blame, k) <= author_count(e, blame, k),
        author_covered_count(e.take(i), blame, k) <= author_covered_count(e, blame, k),
        author_count(e, blame, k) <= attributed_count(e, blame),
        author_covered_count(e, blame, k) <= covered_count(e, blame),
    decreases e.len(),
{
    if e.len() > 0 {
        if i < e.len() {
            assert(e.drop_last().take(i) == e.take(i));
            lemma_counts_grow(e.drop_last(), blame, k, i);
        } else {
            assert(e.take(i) == e);
            lemma_counts_grow(e.drop_last(), blame, k, 0);
        }
    } else {
        assert(e.take(i) == e);
    }
}

/// Before the entry at `i`, the summary has room for it.
proof fn lemma_room_at(s: SummaryView, e: Seq<(u32, bool)>, blame: Map<u32, BlameLine>, i: int)
    requires
        fits_entries(s, e, blame),
        0 <= i < e.len(),
        blame.contains_key(e[i].0),
    ensures
        room_for_line(fold_spec(s, e.take(i), blame), blame[e[i].0].spec_email(), e[i].1),
{
    let k = blame[e[i].0].spec_email();
    let t = fold_spec(s, e.take(i), blame);
    lemma_fold_per_author(s, e.take(i), blame, k);
    lemma_counts_grow(e, blame, k, i + 1);
    assert(e.take(i + 1).drop_last() == e.take(i));
    assert(e.take(i + 1).last() == e[i]);
    if t.authors.contains_key(k) && !s.authors.contains_key(k) {
        lemma_counts_grow(e, blame, k, 0);
    }
}

/// The lines of a coverage record that an authorship map attributes.
pub open spec fn attributed_lines(coverage: Map<u32, bool>, blame: Map<u32, BlameLine>) -> Set<u32> {
    coverage.dom().intersect(blame.dom())
}

/// The covered lines of a coverage record that an authorship map attributes.
pub open spec fn attributed_covered_lines(coverage: Map<u32, bool>, blame: Map<u32, BlameLine>) -> Set<u32> {
    attributed_lines(coverage, blame).filter(|l: u32| coverage[l])
}

pub open spec fn entry_lines(entries: Seq<(u32, bool)>) -> Set<u32> {
    entries.map_values(|e: (u32, bool)| e.0).to_set()
}

proof fn lemma_fold_counts(
    s: SummaryView,
    entries: Seq<(u32, bool)>,
    coverage: Map<u32, bool>,
    blame: Map<u32, BlameLine>,
)
    requires
        forall|i: int, j: int| 0 <= i < j < entries.len() ==> entries[i].0 < entries[j].0,
        forall|i: int| 0 <= i < entries.len() ==> #[trigger] coverage.contains_key(entries[i].0) && coverage[entries[i].0] == entries[i].1,
    ensures
        entry_lines(entries).finite(),
        fold_spec(s, entries, blame).lines == s.lines + entry_lines(entries).intersect(blame.dom()).len(),
        fold_spec(s, entries, blame).covered == s.covered + entry_lines(entries).intersect(
            blame.dom(),
        ).filter(|l: u32| coverage[l]).len(),
    decreases entries.len(),
{
    let ks = entries.map_values(|e: (u32, bool)| e.0);
    vstd::seq_lib::seq_to_set_is_finite(ks);
    if entries.len() > 0 {
        let prev = entries.drop_last();
        let (line, covered) = entries.last();
        lemma_fold_counts(s, prev, coverage, blame);
        let kp = prev.map_values(|e: (u32, bool)| e.0);
        assert(ks == kp.push(line));
        assert(!kp.to_set().contains(line)) by {
            if kp.to_set().contains(line) {
                let i = choose|i: int| 0 <= i < kp.len() && kp[i] == line;
                assert(entries[i].0 == line);
            }
        }
        assert(ks.to_set() =~= kp.to_set().insert(line)) by {
            assert forall|l: u32| ks.to_set().contains(l) implies kp.to_set().insert(line).contains(l) by {
                let i = choose|i: int| 0 <= i < ks.len() && ks[i] == l;
                if i < kp.len() {
                    assert(kp[i] == l);
                }
            }
            assert forall|l: u32| kp.to_set().insert(line).contains(l) implies ks.to_set().contains(l) by {
                if l == line {
                    assert(ks[ks.len() - 1] == l);
                } else {
                    let i = choose|i: int| 0 <= i < kp.len() && kp[i] == l;
                    assert(ks[i] == l);
                }
            }
        }
        let old_set = kp.to_set().intersect(blame.dom());
        let new_set = ks.to_set().intersect(blame.dom());
        let cov = |l: u32| coverage[l];
        assert(coverage.contains_key(entries[entries.len() - 1].0));
        assert(coverage[line] == covered);
        vstd::seq_lib::seq_to_set_is_finite(kp);
        assert(old_set.finite());
        vstd::set_lib::lemma_set_subset_finite(old_set, old_set.filter(cov));
        assert(!old_set.contains(line));
        assert(!old_set.filter(cov).contains(line));
        if blame.contains_key(line) {
            assert(new_set =~= old_set.insert(line));
            if covered {
                assert(new_set.filter(cov) =~= old_set.filter(cov).insert(line));
            } else {
                assert(new_set.filter(cov) =~= old_set.filter(cov));
            }
        } else {
            assert(new_set =~= old_set);
            assert(new_set.filter(cov) =~= old_set.filter(cov));
        }
    } else {
        assert(entry_lines(entries) =~= Set::empty());
        assert(entry_lines(entries).intersect(blame.dom()) =~= Set::empty());
        assert(entry_lines(entries).intersect(blame.dom()).filter(|l: u32| coverage[l]) =~= Set::empty());
    }
}

proof fn lemma_ascending_listing(v: Seq<(u32, bool)>, m: Map<u32, bool>)
    requires
        v.to_set() == m.kv_pairs(),
        forall|i: int, j: int| 0 <= i < j < v.len() ==> v[i].0 < v[j].0,
    ensures
        is_ascending_listing(v, m),
{
    assert forall|i: int| 0 <= i < v.len() implies #[trigger] m.contains_key(v[i].0) && m[v[i].0] == v[i].1 by {
        assert(v.to_set().contains(v[i]));
    }
    assert forall|k: u32| #[trigger] m.contains_key(k) implies exists|i: int| 0 <= i < v.len() && v[i].0 == k by {
        assert(m.kv_pairs().contains((k, m[k])));
        assert(v.to_set().contains((k, m[k])));
        let i = choose|i: int| 0 <= i < v.len() && v[i] == (k, m[k]);
        assert(v[i].0 == k);
    }
}

impl CommitterCoverageSummary {
    /// Folds one file into `summary`: every line present both in
    /// `coverage_lines` and in `blame_lines` is attributed to its author, in
    /// ascending line order, and the other lines are skipped.
    pub fn calculate_by_lines(
        coverage_lines: &BTreeMap<u32, bool>,
        blame_lines: &BTreeMap<u32, BlameLine>,
        summary: &mut CommitterCoverageSummary,
    )
        requires
            old(summary).wf(),
            fits_entries(old(summary)@, ascending_entries(coverage_lines@), blame_lines@),
        ensures
            final(summary).wf(),
            old(summary).totals_are_sums() ==> final(summary).totals_are_sums(),
            final(summary)@ == fold_spec(old(summary)@, ascending_entries(coverage_lines@), blame_lines@),
            forall|k: AuthorKey| #[trigger]
                final(summary)@.authors.contains_key(k) ==> final(summary)@.authors[k].lines == base_counts(
                    old(summary)@,
                    k,
                ).0 + author_count(ascending_entries(coverage_lines@), blame_lines@, k)
                    && final(summary)@.authors[k].covered == base_counts(old(summary)@, k).1
                    + author_covered_count(ascending_entries(coverage_lines@), blame_lines@, k),
            final(summary)@.lines == old(summary)@.lines + attributed_lines(coverage_lines@, blame_lines@).len(),
            final(summary)@.covered == old(summary)@.covered + attributed_covered_lines(
                coverage_lines@,
                blame_lines@,
            ).len(),
    {
        let ghost s0 = summary@;
        let ghost mut seen: Seq<(u32, bool)> = Seq::empty();
        let entries_iter = coverage_lines.iter();
        proof {
            broadcast use vstd::std_specs::btree::axiom_increasing_seq_meaning;
            broadcast use vstd::laws_cmp::group_laws_cmp;

            assert(vstd::laws_cmp::obeys_cmp::<u32>());
            assert(vstd::std_specs::btree::key_obeys_cmp_spec::<u32>());
            let rest = entries_iter.remaining();
            let ks = rest.map_values(|kv: (&u32, &bool)| *kv.0);
            assert(increasing_seq(ks));
            assert forall|i: int, j: int| 0 <= i < j < rest.len() implies *rest[i].0 < *rest[j].0 by {
                assert(ks[i] == *rest[i].0);
                assert(ks[j] == *rest[j].0);
                assert(ks[i].cmp_spec(&ks[j]) is Less);
            }
            lemma_ascending_listing(rest.unref(), coverage_lines@);
            lemma_ascending_listing_unique(rest.unref(), ascending_entries(coverage_lines@), coverage_lines@);
        }
        for item in it: entries_iter
            invariant
                summary.wf(),
                old(summary).totals_are_sums() ==> summary.totals_are_sums(),
                it.seq().len() == coverage_lines@.len(),
                it.seq().unref().to_set() == coverage_lines@.kv_pairs(),
                is_ascending_listing(it.seq().unref(), coverage_lines@),
                seen == it.seq().unref().take(it.index()),
                it.index() == it.seq().len() ==> is_ascending_listing(seen, coverage_lines@),
                summary@ == fold_spec(s0, seen, blame_lines@),
                it.seq().unref() == ascending_entries(coverage_lines@),
                fits_entries(s0, ascending_entries(coverage_lines@), blame_lines@),
        {
            let (line_num, covered) = item;
            let ghost before = summary@;
            match blame_lines.get(line_num) {
                Some(blame_line) => {
                    proof {
                        lemma_room_at(s0, ascending_entries(coverage_lines@), blame_lines@, it.index());
                    }
                    summary.attribute_line(*covered, blame_line);
                },
                None => {},
            }
            proof {
                let next = seen.push((*line_num, *covered));
                assert(next.drop_last() == seen);
                seen = next;
            }
            assert(it.index() + 1 == it.seq().len() ==> seen =~= it.seq().unref());
        }
        proof {
            lemma_ascending_listing_unique(seen, ascending_entries(coverage_lines@), coverage_lines@);
            lemma_fold_counts(s0, seen, coverage_lines@, blame_lines@);
            assert forall|k: AuthorKey| #[trigger] summary@.authors.contains_key(k) implies summary@.authors[k].lines
                == base_counts(s0, k).0 + author_count(seen, blame_lines@, k) && summary@.authors[k].covered
                == base_counts(s0, k).1 + author_covered_count(seen, blame_lines@, k) by {
                lemma_fold_per_author(s0, seen, blame_lines@, k);
            }
            assert(entry_lines(seen) =~= coverage_lines@.dom()) by {
                assert forall|l: u32| entry_lines(seen).contains(l) implies coverage_lines@.contains_key(l) by {
                    let ks = seen.map_values(|e: (u32, bool)| e.0);
                    let i = choose|i: int| 0 <= i < ks.len() && ks[i] == l;
                    assert(coverage_lines@.contains_key(seen[i].0));
                }
                assert forall|l: u32| coverage_lines@.contains_key(l) implies entry_lines(seen).contains(l) by {
                    let i = choose|i: int| 0 <= i < seen.len() && seen[i].0 == l;
                    let ks = seen.map_values(|e: (u32, bool)| e.0);
                    assert(ks[i] == l);
                }
            }
        }
    }
}

impl Default for CommitterCoverageSummary {
    fn default() -> (r: Self)
        ensures
            r.wf(),
            r@.lines == 0,
            r@.covered == 0,
            r@.authors == Map::<AuthorKey, AuthorView>::empty(),
    {
        CommitterCoverageSummary::new()
    }
}

/// Percentages are a function of the counts alone: two increments, in either
/// order, leave the same counts and so the same percentages.
pub proof fn lemma_increments_commute(s: SummaryView, k1: AuthorKey, c1: bool, k2: AuthorKey, c2: bool)
    requires
        s.authors.contains_key(k1),
        s.authors.contains_key(k2),
    ensures
        incr_spec(incr_spec(s, k1, c1), k2, c2) == incr_spec(incr_spec(s, k2, c2), k1, c1),
        percent_hundredths(incr_spec(incr_spec(s, k1, c1), k2, c2).covered, incr_spec(incr_spec(s, k1, c1), k2, c2).lines)
            == percent_hundredths(incr_spec(incr_spec(s, k2, c2), k1, c1).covered, incr_spec(incr_spec(s, k2, c2), k1, c1).lines),
        forall|k: AuthorKey| #[trigger] incr_spec(incr_spec(s, k1, c1), k2, c2).authors.contains_key(k) ==> {
            let a = incr_spec(incr_spec(s, k1, c1), k2, c2).authors[k];
            let b = incr_spec(incr_spec(s, k2, c2), k1, c1).authors[k];
            percent_hundredths(a.covered, a.lines) == percent_hundredths(b.covered, b.lines)
        },
{
    let x = incr_spec(incr_spec(s, k1, c1), k2, c2);
    let y = incr_spec(incr_spec(s, k2, c2), k1, c1);
    assert(x.authors =~= y.authors);
}

/// Creating the stat of an author a second time changes nothing: no second
/// entry, no reset of the counts, no change of name.
pub proof fn lemma_create_twice(s: SummaryView, key: AuthorKey, first: Option<Seq<char>>, second: Option<Seq<char>>)
    ensures
        create_spec(create_spec(s, key, first), key, second) == create_spec(s, key, first),
        create_spec(s, key, first).authors.dom() == s.authors.dom().insert(key),
{
    assert(create_spec(s, key, first).authors.dom() =~= s.authors.dom().insert(key));
}

/// `prefix` followed by `detail`.
fn message(prefix: &str, detail: &str) -> (r: String)
    ensures
        r@ == prefix@ + detail@,
{
    let mut m = prefix.to_owned();
    m.append(detail);
    m
}

impl CommitterCoverageSummary {
    /// Whether every count has room for what folding `coverage_lines`
    /// with `blame_lines` adds.
    pub fn fits_record(&self, coverage_lines: &BTreeMap<u32, bool>, blame_lines: &BTreeMap<u32, BlameLine>) -> (r:
        bool)
        requires
            self.wf(),
        ensures
            r == fits_entries(self@, ascending_entries(coverage_lines@), blame_lines@),
    {
        let ghost e = ascending_entries(coverage_lines@);
        let ghost blame = blame_lines@;
        let total: usize = coverage_lines.len();
        let n_stats = self.user_stats.len();
        let mut per: Vec<(u64, u64)> = Vec::new();
        let mut j: usize = 0;
        while j < n_stats
            invariant
                j <= n_stats,
                n_stats == self.user_stats.len(),
                per.len() == j,
                forall|x: int| 0 <= x < j ==> #[trigger] per@[x] == (0u64, 0u64),
            decreases n_stats - j,
        {
            per.push((0, 0));
            j = j + 1;
        }
        let mut lines: u64 = 0;
        let mut covered: u64 = 0;
        let entries_iter = coverage_lines.iter();
        proof {
            broadcast use vstd::std_specs::btree::axiom_increasing_seq_meaning;
            broadcast use vstd::laws_cmp::group_laws_cmp;

            assert(vstd::laws_cmp::obeys_cmp::<u32>());
            assert(vstd::std_specs::btree::key_obeys_cmp_spec::<u32>());
            let rest = entries_iter.remaining();
            let ks = rest.map_values(|kv: (&u32, &bool)| *kv.0);
            assert(increasing_seq(ks));
            assert forall|i: int, j: int| 0 <= i < j < rest.len() implies *rest[i].0 < *rest[j].0 by {
                assert(ks[i] == *rest[i].0);
                assert(ks[j] == *rest[j].0);
                assert(ks[i].cmp_spec(&ks[j]) is Less);
            }
            lemma_ascending_listing(rest.unref(), coverage_lines@);
            lemma_ascending_listing_unique(rest.unref(), e, coverage_lines@);
            assert(e.take(0) =~= Seq::<(u32, bool)>::empty());
        }
        for item in it: entries_iter
            invariant
                it.seq().unref() == e,
                it.seq().len() == total,
                e == ascending_entries(coverage_lines@),
                blame == blame_lines@,
                self.wf(),
                n_stats == self.user_stats.len(),
                per.len() == n_stats,
                lines == attributed_count(e.take(it.index()), blame),
                covered == covered_count(e.take(it.index()), blame),
                lines <= it.index(),
                covered <= it.index(),
                forall|x: int| #![trigger per@[x]] 0 <= x < n_stats ==> per@[x].0 == author_count(
                    e.take(it.index()),
                    blame,
                    self.user_stats@[x].key(),
                ) && per@[x].1 == author_covered_count(e.take(it.index()), blame, self.user_stats@[x].key())
                    && per@[x].0 <= it.index() && per@[x].1 <= it.index(),
        {
            let (line_num, is_covered) = item;
            let ghost i = it.index();
            assert(e.take(i + 1).drop_last() == e.take(i));
            assert(e.take(i + 1).last() == (*line_num, *is_covered));
            match blame_lines.get(line_num) {
                Some(b) => {
                    lines = lines + 1;
                    if *is_covered {
                        covered = covered + 1;
                    }
                    match self.find(b.get_email()) {
                        Some(x) => {
                            let (pl, pc) = per[x];
                            let pc2 = if *is_covered {
                                pc + 1
                            } else {
                                pc
                            };
                            per.set(x, (pl + 1, pc2));
                            proof {
                                assert forall|y: int| 0 <= y < n_stats && y != x implies self.user_stats@[y].key()
                                    != b.spec_email() by {
                                    assert(keys_unique(self.user_stats@));
                                }
                            }
                        },
                        None => {
                            proof {
                                assert forall|y: int| 0 <= y < n_stats implies self.user_stats@[y].key()
                                    != b.spec_email() by {
                                    lemma_stats_map_index(self.user_stats@, y);
                                }
                            }
                        },
                    }
                },
                None => {},
            }
        }
        assert(e.take(total as int) == e);
        if lines > (u32::MAX - self.lines) as u64 || covered > (u32::MAX - self.covered) as u64 {
            return false;
        }
        let mut x: usize = 0;
        while x < n_stats
            invariant
                x <= n_stats,
                n_stats == self.user_stats.len(),
                per.len() == n_stats,
                self.wf(),
                e == ascending_entries(coverage_lines@),
                blame == blame_lines@,
                lines == attributed_count(e, blame),
                covered == covered_count(e, blame),
                self.lines + lines <= u32::MAX,
                self.covered + covered <= u32::MAX,
                forall|y: int| #![trigger per@[y]] 0 <= y < n_stats ==> per@[y].0 == author_count(e, blame, self.user_stats@[y].key())
                    && per@[y].1 == author_covered_count(e, blame, self.user_stats@[y].key()),
                forall|y: int| #![trigger self.user_stats@[y]] 0 <= y < x ==> self.user_stats@[y].lines + author_count(e, blame, self.user_stats@[y].key()) <= u32::MAX
                    && self.user_stats@[y].covered + author_covered_count(e, blame, self.user_stats@[y].key()) <= u32::MAX,
            decreases n_stats - x,
        {
            let (pl, pc) = per[x];
            if pl > (u32::MAX - self.user_stats[x].lines) as u64 || pc > (u32::MAX - self.user_stats[x].covered) as u64 {
                proof {
                    lemma_stats_map_index(self.user_stats@, x as int);
                    let k = self.user_stats@[x as int].key();
                    assert(self@.authors.contains_key(k));
                    assert(self@.authors[k] == self.user_stats@[x as int].author());
                    assert(per@[x as int] == (pl, pc));
                    assert(!(self@.authors[k].lines + author_count(e, blame, k) <= u32::MAX && self@.authors[k].covered
                        + author_covered_count(e, blame, k) <= u32::MAX));
                }
                return false;
            }
            assert(self.user_stats@[x as int].lines + author_count(e, blame, self.user_stats@[x as int].key()) <= u32::MAX);
            x = x + 1;
        }
        proof {
            assert forall|k: AuthorKey| #[trigger] self@.authors.contains_key(k) implies self@.authors[k].lines
                + author_count(e, blame, k) <= u32::MAX && self@.authors[k].covered + author_covered_count(e, blame, k)
                <= u32::MAX by {
                lemma_stats_map_keys(self.user_stats@, k);
                let y = choose|y: int| 0 <= y < self.user_stats@.len() && self.user_stats@[y].key() == k;
                lemma_stats_map_index(self.user_stats@, y);
            }
        }
        true
    }

    /// Folds one file into `summary` according to what its authorship lookup
    /// gave: the lines are attributed when the lookup succeeded (`Ok(true)`);
    /// a file that is not tracked is skipped (`Ok(false)`); any other failure,
    /// or counts that would overflow, is an error. Only a fold changes the
    /// summary.
    pub fn fold_file(
        summary: &mut CommitterCoverageSummary,
        file: &FileCoverage,
        blame: &Result<BlameFile, BlameError>,
    ) -> (r: Result<bool, String>)
        requires
            old(summary).wf(),
        ensures
            final(summary).wf(),
            old(summary).totals_are_sums() ==> final(summary).totals_are_sums(),
            match blame {
                Ok(b) => if fits_entries(old(summary)@, ascending_entries(file@.lines), b@.lines) {
                    &&& r == Ok::<bool, String>(true)
                    &&& final(summary)@ == fold_spec(old(summary)@, ascending_entries(file@.lines), b@.lines)
                    &&& final(summary)@.lines == old(summary)@.lines + attributed_lines(file@.lines, b@.lines).len()
                    &&& final(summary)@.covered == old(summary)@.covered + attributed_covered_lines(file@.lines, b@.lines).len()
                } else {
                    r matches Err(e) && e@ == "Too many lines to count in file: "@ + file@.path && final(summary)@
                        == old(summary)@
                },
                Err(BlameError::NotTracked(_)) => r == Ok::<bool, String>(false) && final(summary)@ == old(summary)@,
                Err(BlameError::Failed(m)) => r matches Err(e) && e@ == "Failed to get blame file "@ + file@.path
                    + ": "@ + m@ && final(summary)@ == old(summary)@,
            },
            match file_step(old(summary)@, file@, lookup_of(*blame)) {
                Ok(s) => r is Ok && final(summary)@ == s,
                Err(m) => r matches Err(e) && e@ == m && final(summary)@ == old(summary)@,
            },
    {
        match blame {
            Ok(b) => {
                if !summary.fits_record(file.get_lines(), b.get_lines()) {
                    return Err(message("Too many lines to count in file: ", file.get_path()));
                }
                CommitterCoverageSummary::calculate_by_lines(file.get_lines(), b.get_lines(), summary);
                Ok(true)
            },
            Err(BlameError::NotTracked(_)) => Ok(false),
            Err(BlameError::Failed(e)) => {
                let mut m = message("Failed to get blame file ", file.get_path());
                m.append(": ");
                m.append(e.as_str());
                Err(m)
            },
        }
    }
}

/// What the lookup of a file's authorship gave, as the fold reads it.
pub enum Lookup {
    Found(Map<u32, BlameLine>),
    NotTracked,
    Failed(Seq<char>),
}

pub open spec fn lookup_of(r: Result<BlameFile, BlameError>) -> Lookup {
    match r {
        Ok(b) => Lookup::Found(b@.lines),
        Err(BlameError::NotTracked(_)) => Lookup::NotTracked,
        Err(BlameError::Failed(m)) => Lookup::Failed(m@),
    }
}

pub open spec fn empty_summary() -> SummaryView {
    SummaryView { lines: 0, covered: 0, authors: Map::empty() }
}

/// One file folded into `s` according to its lookup, or the error that
/// stops the run there: a failed lookup, named with the file and its cause,
/// or counts that would overflow.
pub open spec fn file_step(s: SummaryView, f: FileCoverageView, l: Lookup) -> Result<SummaryView, Seq<char>> {
    match l {
        Lookup::Found(b) => if fits_entries(s, ascending_entries(f.lines), b) {
            Ok(fold_spec(s, ascending_entries(f.lines), b))
        } else {
            Err("Too many lines to count in file: "@ + f.path)
        },
        Lookup::NotTracked => Ok(s),
        Lookup::Failed(m) => Err("Failed to get blame file "@ + f.path + ": "@ + m),
    }
}

/// The files folded one after another with their lookups (the second part
/// of each log entry).
pub open spec fn run_spec(s: SummaryView, files: Seq<FileCoverageView>, log: Seq<(Seq<char>, Lookup)>) -> Result<
    SummaryView,
    Seq<char>,
>
    decreases files.len(),
{
    if files.len() == 0 || log.len() == 0 {
        Ok(s)
    } else {
        match run_spec(s, files.drop_last(), log.drop_last()) {
            Ok(p) => file_step(p, files.last(), log.last().1),
            Err(e) => Err(e),
        }
    }
}

/// The paths of the files whose lookup said they are not tracked, in order.
pub open spec fn skipped_paths(files: Seq<FileCoverageView>, log: Seq<(Seq<char>, Lookup)>) -> Seq<Seq<char>>
    decreases files.len(),
{
    if files.len() == 0 || log.len() == 0 {
        Seq::empty()
    } else {
        skipped_paths(files.drop_last(), log.drop_last()) + if log.last().1 is NotTracked {
            seq![files.last().path]
        } else {
            Seq::empty()
        }
    }
}

/// A run over `doc` whose log holds, for each record in document order, the
/// path its lookup was asked for (the record's path) and what the lookup
/// gave, ended with `result`. A provider that cannot read documents ends it
/// at once with its error. Otherwise the run succeeds once every record is
/// folded, and fails with the error of the first record whose lookup failed
/// or whose counts would overflow; no lookup follows that record.
pub open spec fn is_run(
    reads: bool,
    reader_error: Seq<char>,
    doc: Seq<u8>,
    log: Seq<(Seq<char>, Lookup)>,
    result: Result<SummaryView, Seq<char>>,
) -> bool {
    if !reads {
        result == Err::<SummaryView, Seq<char>>("Failed to get coverage files: "@ + reader_error) && log.len() == 0
    } else {
        let n = log.len();
        let files = records(doc, initial_state(), n);
        &&& forall|i: nat| i < n ==> #[trigger] record_at(doc, initial_state(), i) is Some
        &&& forall|i: int| 0 <= i < n ==> #[trigger] log[i].0 == files[i].path
        &&& match result {
            Ok(s) => record_at(doc, initial_state(), n) is None && run_spec(empty_summary(), files, log) == Ok::<
                SummaryView,
                Seq<char>,
            >(s),
            Err(e) => n > 0 && run_spec(empty_summary(), files.drop_last(), log.drop_last()) is Ok && file_step(
                run_spec(empty_summary(), files.drop_last(), log.drop_last())->Ok_0,
                files.last(),
                log.last().1,
            ) == Err::<SummaryView, Seq<char>>(e),
        }
    }
}

/// The summary of a run, or its error.
pub open spec fn summary_of(r: Result<CommitterCoverageSummary, String>) -> Result<SummaryView, Seq<char>> {
    match r {
        Ok(s) => Ok(s@),
        Err(e) => Err(e@),
    }
}

/// The summary of a report, or the error of the run.
pub open spec fn report_of(r: Result<AttributionReport, String>) -> Result<SummaryView, Seq<char>> {
    match r {
        Ok(rep) => Ok(rep.summary@),
        Err(e) => Err(e@),
    }
}

/// The outcome of a run: the summary, the files that were skipped because
/// they are not tracked, and whether the coverage document ended early.
pub struct AttributionReport {
    pub summary: CommitterCoverageSummary,
    pub skipped: Vec<String>,
    pub truncated: bool,
}

proof fn lemma_records_push(doc: Seq<u8>, n: nat, f: FileCoverageView)
    requires
        record_at(doc, initial_state(), n) == Some(f),
    ensures
        records(doc, initial_state(), n + 1).drop_last() == records(doc, initial_state(), n),
        records(doc, initial_state(), n + 1).last() == f,
{
    assert(records(doc, initial_state(), n + 1).drop_last() =~= records(doc, initial_state(), n));
}

/// Attributes the coverage of every file of `document`, read by `coverage`,
/// to the authors that `blame` gives, record after record in document order,
/// each lookup asked for the record's path. Files that are not tracked are
/// skipped and listed; any other lookup failure stops the run with an error
/// naming the file. The second part of the result is the log of the lookups:
/// the path asked and what the lookup gave.
pub fn attribute_document<A: CoverageProvider, B: BlameProvider>(
    coverage: &A,
    document: &[u8],
    blame: &B,
) -> (out: (Result<AttributionReport, String>, Ghost<Seq<(Seq<char>, Lookup)>>))
    ensures
        is_run(coverage.reads_documents(), coverage.reader_error(), document@, out.1@, report_of(out.0)),
        out.0 matches Ok(report) ==> {
            &&& report.summary.wf()
            &&& report.summary.totals_are_sums()
            &&& report.skipped@.map_values(|p: String| p@) == skipped_paths(
                records(document@, initial_state(), out.1@.len()),
                out.1@,
            )
            &&& report.truncated == state_after(document@, initial_state(), out.1@.len() + 1).truncated
        },
{
    let ghost doc = document@;
    let ghost st0 = initial_state();
    let ghost mut log: Seq<(Seq<char>, Lookup)> = Seq::empty();
    let mut files = match coverage.iter_files(document) {
        Ok(it) => it,
        Err(e) => {
            return (Err(message("Failed to get coverage files: ", e.as_str())), Ghost(log));
        },
    };
    let mut summary = CommitterCoverageSummary::new();
    let mut skipped: Vec<String> = Vec::new();
    assert(records(doc, st0, 0) =~= Seq::<FileCoverageView>::empty());
    assert(skipped@.map_values(|p: String| p@) =~= Seq::<Seq<char>>::empty());
    loop
        invariant
            coverage.reads_documents(),
            files.wf(),
            files.document() == doc,
            doc == document@,
            st0 == initial_state(),
            summary.wf(),
            summary.totals_are_sums(),
            files.state() == state_after(doc, st0, log.len()),
            forall|i: nat| i < log.len() ==> #[trigger] record_at(doc, st0, i) is Some,
            forall|i: int| 0 <= i < log.len() ==> #[trigger] log[i].0 == records(doc, st0, log.len())[i].path,
            run_spec(empty_summary(), records(doc, st0, log.len()), log) == Ok::<SummaryView, Seq<char>>(summary@),
            skipped@.map_values(|p: String| p@) == skipped_paths(records(doc, st0, log.len()), log),
        decreases work(doc, files.state()),
    {
        let ghost before = files.state();
        proof {
            files.lemma_position_in_document();
            if !before.finished {
                lemma_scan_progress(doc, before, empty_file_coverage());
            }
        }
        match files.next_file() {
            None => {
                let truncated = files.is_truncated();
                assert(files.state() == state_after(doc, st0, log.len() + 1));
                return (Ok(AttributionReport { summary, skipped, truncated }), Ghost(log));
            },
            Some(file) => {
                let ghost n = log.len();
                proof {
                    lemma_records_push(doc, n, file@);
                }
                let (step, entry) = attribute_record(&mut summary, &mut skipped, &file, blame);
                proof {
                    let files_n = records(doc, st0, n + 1);
                    assert(log.push(entry@).drop_last() == log);
                    assert(files_n.drop_last() == records(doc, st0, n));
                    assert forall|i: int| 0 <= i < n + 1 implies #[trigger] log.push(entry@)[i].0 == files_n[i].path by {
                        if i < n {
                            assert(files_n[i] == records(doc, st0, n)[i]);
                        }
                    }
                    log = log.push(entry@);
                }
                match step {
                    Ok(()) => {},
                    Err(e) => {
                        return (Err(e), Ghost(log));
                    },
                }
            },
        }
    }
}

/// Looks up the authorship of one record, asking for its path, and folds it
/// into `summary`, listing it in `skipped` when it is not tracked. The second
/// part of the result is the path asked and what the lookup gave.
fn attribute_record<B: BlameProvider>(
    summary: &mut CommitterCoverageSummary,
    skipped: &mut Vec<String>,
    file: &FileCoverage,
    blame: &B,
) -> (out: (Result<(), String>, Ghost<(Seq<char>, Lookup)>))
    requires
        old(summary).wf(),
    ensures
        final(summary).wf(),
        old(summary).totals_are_sums() ==> final(summary).totals_are_sums(),
        out.1@.0 == file@.path,
        match file_step(old(summary)@, file@, out.1@.1) {
            Ok(s) => out.0 is Ok && final(summary)@ == s && final(skipped)@.map_values(|p: String| p@)
                == old(skipped)@.map_values(|p: String| p@) + if out.1@.1 is NotTracked {
                seq![file@.path]
            } else {
                Seq::empty()
            },
            Err(m) => out.0 matches Err(e) && e@ == m,
        },
{
    let path = file.get_path();
    let result = blame.get_file_blame(path);
    let ghost entry = (path@, lookup_of(result));
    let ghost before = skipped@;
    match CommitterCoverageSummary::fold_file(summary, file, &result) {
        Ok(true) => {
            assert(skipped@.map_values(|p: String| p@) =~= before.map_values(|p: String| p@) + Seq::empty());
            (Ok(()), Ghost(entry))
        },
        Ok(false) => {
            skipped.push(file.get_path().to_owned());
            assert(skipped@.map_values(|p: String| p@) =~= before.map_values(|p: String| p@) + seq![file@.path]);
            (Ok(()), Ghost(entry))
        },
        Err(e) => (Err(e), Ghost(entry)),
    }
}

impl CommitterCoverageSummary {
    /// The summary of every file of `document`; see [`attribute_document`].
    /// The second part of the result is the log of the lookups.
    pub fn from_coverage_file_and_blame<A: CoverageProvider, B: BlameProvider>(
        coverage: &A,
        document: &[u8],
        blame: &B,
    ) -> (out: (Result<CommitterCoverageSummary, String>, Ghost<Seq<(Seq<char>, Lookup)>>))
        ensures
            is_run(coverage.reads_documents(), coverage.reader_error(), document@, out.1@, summary_of(out.0)),
            out.0 matches Ok(s) ==> s.wf() && s.totals_are_sums(),
    {
        let (result, log) = attribute_document(coverage, document, blame);
        match result {
            Ok(report) => (Ok(report.summary), log),
            Err(e) => (Err(e), log),
        }
    }
}

/// The error of a mutation on an author that the summary does not hold.
fn missing_user_message(email: &str) -> (r: String)
    ensures
        r@ == "User "@ + email@ + " does not exist. Create new one"@,
{
    let mut m = message("User ", email);
    m.append(" does not exist. Create new one");
    m
}

} // verus!
