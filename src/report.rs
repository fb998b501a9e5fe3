//! The coverage report posted on a pull request.
use crate::analysis::{percent_hundredths, CommitterCoverageSummary, CommitterCoverageUserStat};
use crate::github::{
    decimal_string, decimal_text, digit_char, digit_str, unknown_user_display_text, user_display_text, GitHubClient,
    GithubUser,
};
use email_address::EmailAddress;
use vstd::prelude::*;

verus! {

/// A percentage given in hundredths, written with two decimals.
pub open spec fn percent_text(p: nat) -> Seq<char> {
    decimal_text(p / 100) + "."@ + seq![digit_char((p / 10) % 10), digit_char(p % 10)]
}

/// Writes a percentage given in hundredths with two decimals: `6667` is
/// `66.67`.
pub fn format_percent(p: u64) -> (r: String)
    ensures
        r@ == percent_text(p as nat),
{
    let mut s = decimal_string(p / 100);
    s.append(".");
    s.append(digit_str((p / 10) % 10));
    s.append(digit_str(p % 10));
    assert(seq![digit_char(((p / 10) % 10) as nat)] + seq![digit_char((p % 10) as nat)] =~= seq![
        digit_char(((p / 10) % 10) as nat),
        digit_char((p % 10) as nat),
    ]);
    s
}

/// The coverage of a stat, in hundredths of a percent.
pub open spec fn stat_percent(s: CommitterCoverageUserStat) -> nat {
    percent_hundredths(s.author().covered, s.author().lines)
}

/// `order` lists every position of `stats` once, best coverage first.
pub open spec fn is_best_first(order: Seq<usize>, stats: Seq<CommitterCoverageUserStat>) -> bool {
    &&& order.len() == stats.len()
    &&& forall|i: int| 0 <= i < order.len() ==> #[trigger] order[i] < stats.len()
    &&& forall|i: int, j: int| 0 <= i < j < order.len() ==> order[i] != order[j]
    &&& forall|i: int, j: int| 0 <= i < j < order.len() ==> stat_percent(stats[order[i] as int]) >= stat_percent(
        stats[order[j] as int],
    )
    &&& forall|i: int, j: int|
        0 <= i < j < order.len() && stat_percent(stats[order[i] as int]) == stat_percent(stats[order[j] as int])
            ==> order[i] < order[j]
}

/// The positions of `stats`, best coverage first; of two stats with the
/// same coverage, the earlier comes first.
pub fn best_first(stats: &Vec<CommitterCoverageUserStat>) -> (r: Vec<usize>)
    ensures
        is_best_first(r@, stats@),
{
    let mut order: Vec<usize> = Vec::new();
    let mut percents: Vec<u64> = Vec::new();
    let mut k: usize = 0;
    while k < stats.len()
        invariant
            k <= stats.len(),
            order.len() == k,
            percents.len() == k,
            forall|i: int| 0 <= i < k ==> #[trigger] order@[i] < k,
            forall|i: int, j: int| 0 <= i < j < k ==> order@[i] != order@[j],
            forall|i: int| 0 <= i < k ==> #[trigger] percents@[i] == stat_percent(stats@[order@[i] as int]),
            forall|i: int, j: int| 0 <= i < j < k ==> percents@[i] >= percents@[j],
            forall|i: int, j: int| 0 <= i < j < k && percents@[i] == percents@[j] ==> order@[i] < order@[j],
        decreases stats.len() - k,
    {
        let p = stats[k].get_percent_covered();
        let mut at: usize = 0;
        while at < order.len() && percents[at] >= p
            invariant
                at <= order.len(),
                order.len() == k,
                percents.len() == k,
                forall|i: int| 0 <= i < at ==> percents@[i] >= p,
            decreases order.len() - at,
        {
            at = at + 1;
        }
        let ghost old_order = order@;
        let ghost old_percents = percents@;
        order.insert(at, k);
        percents.insert(at, p);
        assert(order@ == old_order.insert(at as int, k));
        assert(percents@ == old_percents.insert(at as int, p));
        assert forall|i: int, j: int| 0 <= i < j < k + 1 implies percents@[i] >= percents@[j] by {
            if j == at {
                assert(percents@[i] == old_percents[i]);
            } else if i == at {
                assert(percents@[j] == old_percents[j - 1]);
                if at < k {
                    assert(old_percents[at as int] < p);
                    assert(old_percents[at as int] >= old_percents[j - 1] || at == j - 1);
                }
            }
        }
        assert forall|i: int, j: int| 0 <= i < j < k + 1 && percents@[i] == percents@[j] implies order@[i]
            < order@[j] by {
            if j == at {
                assert(old_order[i] < k);
            } else if i == at {
                assert(percents@[j] == old_percents[j - 1]);
                if at < k {
                    assert(old_percents[at as int] < p);
                    assert(old_percents[at as int] >= old_percents[j - 1] || at == j - 1);
                }
            } else if i < at && j > at {
                assert(order@[i] == old_order[i]);
                assert(order@[j] == old_order[j - 1]);
            } else if j < at {
                assert(order@[i] == old_order[i]);
            } else {
                assert(order@[i] == old_order[i - 1]);
                assert(order@[j] == old_order[j - 1]);
            }
        }
        assert forall|i: int, j: int| 0 <= i < j < k + 1 implies order@[i] != order@[j] by {
            if i == at {
                assert(old_order[j - 1] < k);
            } else if j == at {
                assert(old_order[i] < k);
            }
        }
        k = k + 1;
    }
    assert forall|i: int, j: int| 0 <= i < j < order.len() implies stat_percent(stats@[order@[i] as int]) >= stat_percent(
        stats@[order@[j] as int],
    ) by {
        assert(percents@[i] >= percents@[j]);
    }
    assert forall|i: int, j: int|
        0 <= i < j < order.len() && stat_percent(stats@[order@[i] as int]) == stat_percent(stats@[order@[j] as int])
        implies order@[i] < order@[j] by {
        assert(percents@[i] == percents@[j]);
    }
    order
}

/// Whether a text is an email address.
pub uninterp spec fn valid_email(address: Seq<char>) -> bool;

/// Relies on email_address's EmailAddress::is_valid: whether the text parses
/// as an email address, which depends on the text alone.
#[verifier::external_body]
fn email_is_valid(address: &str) -> (r: bool)
    ensures
        r == valid_email(address@),
{
    EmailAddress::is_valid(address)
}

/// Whether `address` is an email address worth looking up.
pub fn is_valid_email(address: &str) -> (r: bool)
    ensures
        r == valid_email(address@),
{
    email_is_valid(address)
}

/// How the author of a stat appears in the report, given what the lookup of
/// their email gave: their account when the email is valid and the lookup
/// found one, a generic entry with their name otherwise.
pub open spec fn row_user_text(
    email: Option<Seq<char>>,
    name: Option<String>,
    lookup: Result<Option<GithubUser>, String>,
) -> Seq<char> {
    match lookup {
        Ok(Some(u)) => if email is Some && valid_email(email->0) {
            user_display_text(u.username@, u.url@, u.avatar_url@)
        } else {
            unknown_user_display_text(name)
        },
        _ => unknown_user_display_text(name),
    }
}

/// Whether `covered / lines * 100` reaches `threshold` hundredths of a
/// percent, compared exactly; no line seen counts as zero coverage.
pub open spec fn meets_threshold(covered: nat, lines: nat, threshold: nat) -> bool {
    if lines == 0 {
        threshold == 0
    } else {
        10000 * covered >= threshold * lines
    }
}

/// `✅` when the coverage reaches the threshold, `❌` otherwise.
pub open spec fn status_text(met: bool) -> Seq<char> {
    if met {
        "✅"@
    } else {
        "❌"@
    }
}

/// One row of the table: the user, the lines, the covered lines, the
/// percentage and its status.
pub open spec fn row_text(user: Seq<char>, s: CommitterCoverageUserStat, threshold: nat) -> Seq<char> {
    "| "@ + user + " | "@ + decimal_text(s.author().lines) + " | "@ + decimal_text(s.author().covered) + " | "@
        + percent_text(stat_percent(s)) + " "@ + status_text(
            meets_threshold(s.author().covered, s.author().lines, threshold),
        ) + " |\n"@
}

pub open spec fn table_header_text() -> Seq<char> {
    "|  | **User** | **Lines** | **Covered** | **% Covered** |\n|--|------|-------:|---------:|-----------|\n"@
}

/// The rows of the stats at the positions of `order`, in that order, each
/// with the user text at the same position in `users`.
pub open spec fn rows_text(
    stats: Seq<CommitterCoverageUserStat>,
    order: Seq<usize>,
    users: Seq<String>,
    threshold: nat,
) -> Seq<char>
    decreases order.len(),
{
    if order.len() == 0 {
        Seq::empty()
    } else {
        rows_text(stats, order.drop_last(), users, threshold) + row_text(
            users[order.last() as int]@,
            stats[order.last() as int],
            threshold,
        )
    }
}

pub open spec fn header_text(lines: nat, covered: nat) -> Seq<char> {
    "# Committer Coverage Report\n"@ + "Total coverage: "@ + decimal_text(covered) + " / "@ + decimal_text(lines)
        + " ("@ + percent_text(percent_hundredths(covered, lines)) + "%)\n\n"@
}

pub open spec fn footer_text() -> Seq<char> {
    "\n⭐ [github-action-committer-coverage-stats](https://github.com/petrabarus/github-action-committer-coverage-stats)"@
}

impl GitHubClient {
    /// How the author of `user_stat` appears in the report; `lookup` is what
    /// the search of their email gave.
    pub fn create_summary_content_table_row_user_display(
        &self,
        user_stat: &CommitterCoverageUserStat,
        lookup: &Result<Option<GithubUser>, String>,
    ) -> (r: String)
        ensures
            r@ == row_user_text(user_stat.key(), user_stat.author_name(), *lookup),
    {
        let valid = match user_stat.get_email() {
            Some(email) => is_valid_email(email.as_str()),
            None => false,
        };
        if valid {
            match lookup {
                Ok(Some(user)) => {
                    return self.create_user_display(user.username.as_str(), user.url.as_str(), user.avatar_url.as_str());
                },
                _ => {},
            }
        }
        self.create_unknown_user_display(user_stat.get_name())
    }

    fn create_summary_content_table_row(
        &self,
        user: &str,
        user_stat: &CommitterCoverageUserStat,
        min_threshold: u64,
    ) -> (r: String)
        ensures
            r@ == row_text(user@, *user_stat, min_threshold as nat),
    {
        let percent = user_stat.get_percent_covered();
        let covered = user_stat.get_covered();
        let lines = user_stat.get_lines();
        let met = if lines == 0 {
            min_threshold == 0
        } else {
            let lhs: u128 = 10000 * (covered as u128);
            assert((min_threshold as u128) * (lines as u128) <= u64::MAX as u128 * u32::MAX as u128) by (nonlinear_arith)
                requires
                    min_threshold <= u64::MAX,
                    lines <= u32::MAX,
            ;
            let rhs: u128 = (min_threshold as u128) * (lines as u128);
            lhs >= rhs
        };
        let status = if met {
            "✅"
        } else {
            "❌"
        };
        let mut row = "| ".to_owned();
        row.append(user);
        row.append(" | ");
        row.append(decimal_string(user_stat.get_lines() as u64).as_str());
        row.append(" | ");
        row.append(decimal_string(user_stat.get_covered() as u64).as_str());
        row.append(" | ");
        row.append(format_percent(percent).as_str());
        row.append(" ");
        row.append(status);
        row.append(" |\n");
        row
    }

    /// The title and the global coverage of the report.
    pub fn create_summary_content_header(&self, summary: &CommitterCoverageSummary) -> (r: String)
        ensures
            r@ == header_text(summary@.lines, summary@.covered),
    {
        let mut header = "# Committer Coverage Report\n".to_owned();
        header.append("Total coverage: ");
        header.append(decimal_string(summary.get_covered() as u64).as_str());
        header.append(" / ");
        header.append(decimal_string(summary.get_lines() as u64).as_str());
        header.append(" (");
        header.append(format_percent(summary.get_percent_covered()).as_str());
        header.append("%)\n\n");
        header
    }

    /// The table of the authors, best coverage first in the order `order`;
    /// `users[i]` is how the
    /// author of the stat at position `i` appears. `min_threshold` is in
    /// hundredths of a percent.
    pub fn create_summary_content_table(
        &self,
        stats: &Vec<CommitterCoverageUserStat>,
        order: &Vec<usize>,
        users: &Vec<String>,
        min_threshold: u64,
    ) -> (r: String)
        requires
            users.len() == stats.len(),
            is_best_first(order@, stats@),
        ensures
            r@ == table_header_text() + rows_text(stats@, order@, users@, min_threshold as nat),
    {
        let mut table = "|  | **User** | **Lines** | **Covered** | **% Covered** |\n|--|------|-------:|---------:|-----------|\n".to_owned();
        let mut k: usize = 0;
        while k < order.len()
            invariant
                k <= order.len(),
                users.len() == stats.len(),
                forall|i: int| 0 <= i < order.len() ==> #[trigger] order@[i] < stats.len(),
                table@ == table_header_text() + rows_text(stats@, order@.take(k as int), users@, min_threshold as nat),
            decreases order.len() - k,
        {
            let at = order[k];
            let row = self.create_summary_content_table_row(users[at].as_str(), &stats[at], min_threshold);
            table.append(row.as_str());
            assert(order@.take(k + 1).drop_last() == order@.take(k as int));
            k = k + 1;
        }
        assert(order@.take(order.len() as int) == order@);
        table
    }

    /// The report: title and global coverage, then one row per author, best
    /// coverage first. `users[i]` is how the author of the `i`-th stat of
    /// the summary appears; `min_threshold` is in hundredths of a percent.
    pub fn create_summary_content(
        &self,
        summary: &CommitterCoverageSummary,
        min_threshold: u64,
        users: &Vec<String>,
    ) -> (r: String)
        requires
            summary.wf(),
            users.len() == summary.stats().len(),
        ensures
            exists|order: Seq<usize>|
                is_best_first(order, summary.stats()) && r@ == header_text(summary@.lines, summary@.covered)
                    + table_header_text() + rows_text(summary.stats(), order, users@, min_threshold as nat)
                    + footer_text(),
    {
        let stats = summary.get_user_stats();
        let order = best_first(stats);
        let mut content = self.create_summary_content_header(summary);
        let table = self.create_summary_content_table(stats, &order, users, min_threshold);
        content.append(table.as_str());
        content.append("\n⭐ [github-action-committer-coverage-stats](https://github.com/petrabarus/github-action-committer-coverage-stats)");
        content
    }
}

} // verus!
