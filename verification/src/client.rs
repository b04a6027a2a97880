//! Filesystem client utilities: address validation, capacity reporting and
//! health interpretation. Every operation that the original utilities
//! answer by running a program is split here into a command builder and a
//! verified interpreter of the command's output.

use vstd::prelude::*;
use vstd::string::StrSliceExecFns;
use vstd::string::StringExecFns;
use crate::strutil::{
    contains_char,
    str_contains_char,
    split_on,
    split_ws,
    split_str_on,
    split_whitespace_str,
};
use crate::size::{spec_parse_size, parse_size_string};
use crate::command::CommandResult;

verus! {

/// Reasons a filesystem address is rejected, in the order they are
/// checked: no `@`, no `:/`, more than one `:/`, an empty side.
#[derive(Debug, Clone, Copy, PartialEq, Eq, Structural)]
pub enum SourceError {
    MissingAt,
    MissingSeparator,
    MalformedSplit,
    EmptySide,
}

/// The `:/` separator stands at position `i` of `s`.
pub open spec fn sep_at(s: Seq<char>, i: int) -> bool {
    0 <= i && i + 1 < s.len() && s[i] == ':' && s[i + 1] == '/'
}

/// `s` contains the `:/` separator somewhere.
pub open spec fn has_sep(s: Seq<char>) -> bool {
    exists|i: int| sep_at(s, i)
}

/// `s` contains the `:/` separator at most once.
pub open spec fn unique_sep(s: Seq<char>) -> bool {
    forall|i: int, j: int| sep_at(s, i) && sep_at(s, j) ==> i == j
}

/// The first failed check of an address, or nothing when it is valid:
/// it must contain `@`, exactly one `:/`, and non-empty parts on both
/// sides of the separator.
pub open spec fn source_check(s: Seq<char>) -> Option<SourceError> {
    if !contains_char(s, '@') {
        Some(SourceError::MissingAt)
    } else if !has_sep(s) {
        Some(SourceError::MissingSeparator)
    } else if !unique_sep(s) {
        Some(SourceError::MalformedSplit)
    } else {
        let i = choose|i: int| sep_at(s, i);
        if i == 0 || i + 2 == s.len() {
            Some(SourceError::EmptySide)
        } else {
            None
        }
    }
}

/// A well-formed filesystem address: management part, `:/`, name, with
/// both parts non-empty and an `@` present.
pub open spec fn valid_source(s: Seq<char>) -> bool {
    source_check(s) is None
}

/// Client-side utilities around the remote filesystem.
#[derive(Debug, Clone)]
pub struct LustreClient;

/// Capacity figures of a mounted filesystem. The available count is the
/// total less the used count, floored at zero.
#[derive(Debug, Clone, PartialEq, Eq)]
pub struct LustreFilesystemInfo {
    pub total_bytes: u64,
    pub used_bytes: u64,
    pub available_bytes: u64,
}

/// What one report line contributes to the capacity sums: its second and
/// third whitespace-separated fields as parsed sizes, when it has at least
/// four fields and they parse.
pub open spec fn line_total(line: Seq<char>) -> nat {
    let fields = split_ws(line);
    if fields.len() >= 4 {
        match spec_parse_size(fields[1]) {
            Some(b) => b as nat,
            None => 0,
        }
    } else {
        0
    }
}

pub open spec fn line_used(line: Seq<char>) -> nat {
    let fields = split_ws(line);
    if fields.len() >= 4 {
        match spec_parse_size(fields[2]) {
            Some(b) => b as nat,
            None => 0,
        }
    } else {
        0
    }
}

/// The exact sums of the per-line contributions.
pub open spec fn sum_total(lines: Seq<Seq<char>>) -> nat
    decreases lines.len(),
{
    if lines.len() == 0 {
        0
    } else {
        sum_total(lines.drop_last()) + line_total(lines.last())
    }
}

pub open spec fn sum_used(lines: Seq<Seq<char>>) -> nat
    decreases lines.len(),
{
    if lines.len() == 0 {
        0
    } else {
        sum_used(lines.drop_last()) + line_used(lines.last())
    }
}

/// The report lines of a capacity query, header excluded.
pub open spec fn df_report_lines(out: Seq<char>) -> Seq<Seq<char>> {
    split_on(out, '\n').subrange(1, split_on(out, '\n').len() as int)
}

/// A sum held to the `u64` range.
pub open spec fn clamp_u64(x: nat) -> u64 {
    if x > u64::MAX {
        u64::MAX
    } else {
        x as u64
    }
}

impl LustreClient {
    pub fn new() -> (r: Self) {
        Self
    }

    /// Validate a filesystem address of the form `mgs@network:/fsname`:
    /// report the first failed check, or nothing when the address is
    /// well formed.
    pub fn validate_source(&self, source: &str) -> (r: Result<(), SourceError>)
        ensures
            r == match source_check(source@) {
                Some(e) => Err::<(), SourceError>(e),
                None => Ok::<(), SourceError>(()),
            },
            r is Ok <==> valid_source(source@),
    {
        let n = source.unicode_len();
        if !str_contains_char(source, '@') {
            return Err(SourceError::MissingAt);
        }
        // find the first separator
        let mut i: usize = 0;
        let mut found: bool = false;
        while !found && i < n && i + 1 < n
            invariant
                0 <= i,
                i <= n,
                n == source@.len(),
                found ==> i + 1 < n && sep_at(source@, i as int),
                forall|j: int| 0 <= j < i ==> !sep_at(source@, j),
            decreases n - i, if found { 0int } else { 1int },
        {
            if source.get_char(i) == ':' && source.get_char(i + 1) == '/' {
                found = true;
            } else {
                i += 1;
            }
        }
        if !found {
            proof {
                assert(forall|j: int| sep_at(source@, j) ==> 0 <= j && j + 1 < n);
                assert(!has_sep(source@));
            }
            return Err(SourceError::MissingSeparator);
        }
        let sep = i;
        // look for a second separator
        let mut j: usize = sep + 1;
        let mut second: bool = false;
        while !second && j < n && j + 1 < n
            invariant
                sep < j,
                j <= n,
                n == source@.len(),
                second ==> j + 1 < n && sep_at(source@, j as int) && j != sep,
                forall|m: int| sep < m < j ==> !sep_at(source@, m),
            decreases n - j, if second { 0int } else { 1int },
        {
            if source.get_char(j) == ':' && source.get_char(j + 1) == '/' {
                second = true;
            } else {
                j += 1;
            }
        }
        if second {
            proof {
                assert(!unique_sep(source@));
            }
            return Err(SourceError::MalformedSplit);
        }
        proof {
            assert forall|m: int| sep_at(source@, m) implies m == sep as int by {
                if m < sep as int {
                    assert(!sep_at(source@, m));
                }
                if m > sep as int {
                    if m < j as int {
                        assert(!sep_at(source@, m));
                    } else {
                        assert(m + 1 >= n);
                        assert(!sep_at(source@, m));
                    }
                }
            }
            assert(unique_sep(source@));
            let c = choose|m: int| sep_at(source@, m);
            assert(sep_at(source@, c));
            assert(c == sep as int);
        }
        if sep == 0 || sep + 2 == n {
            return Err(SourceError::EmptySide);
        }
        Ok(())
    }

    /// Aggregate the output of a capacity query: skip the header line, and
    /// on every later line with at least four whitespace-separated fields
    /// add the second field to the total and the third to the used count,
    /// skipping fields that do not parse. Sums saturate at `u64::MAX`; the
    /// available count is their difference floored at zero.
    pub fn parse_lfs_df_output(&self, output: &str) -> (info: LustreFilesystemInfo)
        ensures
            info.total_bytes == clamp_u64(sum_total(df_report_lines(output@))),
            info.used_bytes == clamp_u64(sum_used(df_report_lines(output@))),
            info.available_bytes == if info.used_bytes > info.total_bytes {
                0u64
            } else {
                (info.total_bytes - info.used_bytes) as u64
            },
    {
        let lines = split_str_on(output, '\n');
        let mut total: u64 = 0;
        let mut used: u64 = 0;
        let mut i: usize = 1;
        let ghost report = df_report_lines(output@);
        proof {
            assert(report.subrange(0, 0) =~~= Seq::<Seq<char>>::empty());
            assert(sum_total(report.subrange(0, 0)) == 0);
            assert(sum_used(report.subrange(0, 0)) == 0);
        }
        while i < lines.len()
            invariant
                1 <= i <= lines.len(),
                lines.deep_view() == split_on(output@, '\n'),
                report == df_report_lines(output@),
                report.len() == lines.len() - 1,
                forall|m: int| 0 <= m < report.len() ==> report[m] == lines.deep_view()[m + 1],
                total == clamp_u64(sum_total(report.subrange(0, i - 1))),
                used == clamp_u64(sum_used(report.subrange(0, i - 1))),
            decreases lines.len() - i,
        {
            let fields = split_whitespace_str(lines[i].as_str());
            let ghost prefix = report.subrange(0, i - 1);
            let ghost line = report[i - 1];
            proof {
                assert(lines.deep_view()[i as int] == lines[i as int]@);
                assert(line == lines[i as int]@);
                assert(report.subrange(0, i as int) =~~= prefix.push(line));
                lemma_sum_push(prefix, line);
            }
            if fields.len() >= 4 {
                proof {
                    assert(fields.deep_view() == split_ws(line));
                    assert(fields.deep_view()[1] == fields[1]@);
                    assert(fields.deep_view()[2] == fields[2]@);
                }
                if let Some(b) = parse_size_string(fields[1].as_str()) {
                    total = saturating_add_u64(total, b);
                }
                if let Some(b) = parse_size_string(fields[2].as_str()) {
                    used = saturating_add_u64(used, b);
                }
            }
            i += 1;
        }
        proof {
            assert(report.subrange(0, lines.len() - 1) =~~= report);
        }
        filesystem_info_from_counts(total, used)
    }

    /// Interpret the output of a capacity query: a failed query carries
    /// its error text, a successful one is aggregated.
    pub fn interpret_df_result(&self, result: &CommandResult) -> (r: Result<
        LustreFilesystemInfo,
        String,
    >)
        ensures
            !result.exit_ok ==> (r matches Err(e) && e@ == result.stderr@),
            result.exit_ok ==> (r matches Ok(info) && info.total_bytes == clamp_u64(
                sum_total(df_report_lines(result.stdout@)),
            ) && info.used_bytes == clamp_u64(sum_used(df_report_lines(result.stdout@)))
                && info.available_bytes == if info.used_bytes > info.total_bytes {
                0u64
            } else {
                (info.total_bytes - info.used_bytes) as u64
            }),
    {
        if !result.exit_ok {
            Err(result.stderr.clone())
        } else {
            Ok(self.parse_lfs_df_output(result.stdout.as_str()))
        }
    }

    /// Does module-listing output show the filesystem's kernel module?
    /// True exactly when the text `lustre` occurs in it.
    pub fn module_listed(&self, stdout: &str) -> (r: bool)
        ensures
            r == has_lustre_substring(stdout@),
    {
        let n = stdout.unicode_len();
        if n < 6 {
            proof {
                assert(forall|i: int| !lustre_at(stdout@, i));
            }
            return false;
        }
        let mut i: usize = 0;
        while i <= n - 6
            invariant
                0 <= i <= n - 6 + 1,
                n == stdout@.len(),
                n >= 6,
                forall|m: int| 0 <= m < i ==> !lustre_at(stdout@, m),
            decreases n - i,
        {
            let mut k: usize = 0;
            let mut all: bool = true;
            while k < 6
                invariant
                    0 <= k <= 6,
                    i + 6 <= n == stdout@.len(),
                    all ==> forall|m: int| 0 <= m < k ==> stdout@[i + m] == lustre_pat()[m],
                    !all ==> !lustre_at(stdout@, i as int),
                decreases 6 - k,
            {
                let c = stdout.get_char(i + k);
                let e = lustre_char(k);
                if c != e {
                    all = false;
                }
                k += 1;
            }
            if all {
                proof {
                    assert(lustre_at(stdout@, i as int));
                }
                return true;
            }
            i += 1;
        }
        proof {
            assert(forall|m: int| 0 <= m && m + 6 <= n ==> !lustre_at(stdout@, m));
        }
        false
    }

    /// Interpret a module-load attempt: success when the loader exited
    /// cleanly, otherwise its error text.
    pub fn interpret_load_result(&self, result: &CommandResult) -> (r: Result<(), String>)
        ensures
            result.exit_ok <==> r is Ok,
            !result.exit_ok ==> (r matches Err(e) && e@ == result.stderr@),
    {
        if result.exit_ok {
            Ok(())
        } else {
            Err(result.stderr.clone())
        }
    }

    /// The version a version query reports: its first output line, or the
    /// word `unknown` when there was no output at all.
    pub fn version_from_output(&self, stdout: &str) -> (r: String)
        ensures
            r@ == spec_version_of(stdout@),
    {
        let n = stdout.unicode_len();
        if n == 0 {
            return String::from_str("unknown");
        }
        let mut i: usize = 0;
        while i < n && stdout.get_char(i) != '\n'
            invariant
                0 <= i <= n,
                n == stdout@.len(),
                forall|j: int| 0 <= j < i ==> stdout@[j] != '\n',
            decreases n - i,
        {
            i += 1;
        }
        proof {
            if i < n {
                crate::strutil::lemma_split_on_first(stdout@, '\n', i as int);
                crate::strutil::lemma_split_on_len(
                    stdout@.subrange(i + 1, stdout@.len() as int),
                    '\n',
                );
            } else {
                crate::strutil::lemma_split_on_whole(stdout@, '\n');
            }
        }
        let line_end: usize = if i < n && i > 0 && stdout.get_char(i - 1) == '\r' {
            i - 1
        } else {
            i
        };
        proof {
            let line = split_on(stdout@, '\n')[0];
            if i < n {
                assert(line == stdout@.subrange(0, i as int));
            } else {
                assert(line == stdout@);
                assert(stdout@.subrange(0, i as int) =~= stdout@);
            }
            if i < n && i > 0 && stdout@[i - 1] == '\r' {
                assert(line.drop_last() =~= stdout@.subrange(0, line_end as int));
            }
        }
        stdout.substring_char(0, line_end).to_owned()
    }

    /// A mount point is healthy exactly when both its status probe and its
    /// listing probe exited cleanly.
    pub fn mount_healthy(&self, stat_result: &CommandResult, list_result: &CommandResult) -> (r:
        bool)
        ensures
            r == (stat_result.exit_ok && list_result.exit_ok),
    {
        stat_result.exit_ok && list_result.exit_ok
    }

    /// The module-listing command.
    pub fn lsmod_command(&self) -> (r: Vec<String>)
        ensures
            r.deep_view() == seq!["lsmod"@],
    {
        let mut v: Vec<String> = Vec::new();
        v.push(String::from_str("lsmod"));
        proof {
            assert(v.deep_view() =~~= seq!["lsmod"@]);
        }
        v
    }

    /// The module-loading command.
    pub fn modprobe_command(&self) -> (r: Vec<String>)
        ensures
            r.deep_view() == seq!["modprobe"@, "lustre"@],
    {
        let mut v: Vec<String> = Vec::new();
        v.push(String::from_str("modprobe"));
        v.push(String::from_str("lustre"));
        proof {
            assert(v.deep_view() =~~= seq!["modprobe"@, "lustre"@]);
        }
        v
    }

    /// The capacity query for a mount point.
    pub fn df_command(&self, mount_point: &str) -> (r: Vec<String>)
        ensures
            r.deep_view() == seq!["lfs"@, "df"@, "-h"@, mount_point@],
    {
        let mut v: Vec<String> = Vec::new();
        v.push(String::from_str("lfs"));
        v.push(String::from_str("df"));
        v.push(String::from_str("-h"));
        v.push(String::from_str(mount_point));
        proof {
            assert(v.deep_view() =~~= seq!["lfs"@, "df"@, "-h"@, mount_point@]);
        }
        v
    }

    /// The status probe of a mount point.
    pub fn stat_command(&self, mount_point: &str) -> (r: Vec<String>)
        ensures
            r.deep_view() == seq!["stat"@, mount_point@],
    {
        let mut v: Vec<String> = Vec::new();
        v.push(String::from_str("stat"));
        v.push(String::from_str(mount_point));
        proof {
            assert(v.deep_view() =~~= seq!["stat"@, mount_point@]);
        }
        v
    }

    /// The listing probe of a mount point.
    pub fn list_command(&self, mount_point: &str) -> (r: Vec<String>)
        ensures
            r.deep_view() == seq!["ls"@, "-la"@, mount_point@],
    {
        let mut v: Vec<String> = Vec::new();
        v.push(String::from_str("ls"));
        v.push(String::from_str("-la"));
        v.push(String::from_str(mount_point));
        proof {
            assert(v.deep_view() =~~= seq!["ls"@, "-la"@, mount_point@]);
        }
        v
    }

    /// The version query.
    pub fn version_command(&self) -> (r: Vec<String>)
        ensures
            r.deep_view() == seq!["lfs"@, "--version"@],
    {
        let mut v: Vec<String> = Vec::new();
        v.push(String::from_str("lfs"));
        v.push(String::from_str("--version"));
        proof {
            assert(v.deep_view() =~~= seq!["lfs"@, "--version"@]);
        }
        v
    }
}

/// The characters of the module name looked for in listing output.
pub open spec fn lustre_pat() -> Seq<char> {
    seq!['l', 'u', 's', 't', 'r', 'e']
}

/// The module name occurs at position `i`.
pub open spec fn lustre_at(s: Seq<char>, i: int) -> bool {
    0 <= i && i + 6 <= s.len() && (forall|m: int| 0 <= m < 6 ==> s[i + m] == lustre_pat()[m])
}

/// The module name occurs somewhere in `s`.
pub open spec fn has_lustre_substring(s: Seq<char>) -> bool {
    exists|i: int| lustre_at(s, i)
}

/// The character of the module name at position `k`.
fn lustre_char(k: usize) -> (c: char)
    requires
        k < 6,
    ensures
        c == lustre_pat()[k as int],
{
    if k == 0 {
        'l'
    } else if k == 1 {
        'u'
    } else if k == 2 {
        's'
    } else if k == 3 {
        't'
    } else if k == 4 {
        'r'
    } else {
        'e'
    }
}

/// The version text a query's output denotes: the first line — with the
/// carriage return of a CRLF ending removed — or `unknown` for empty
/// output.
pub open spec fn spec_version_of(out: Seq<char>) -> Seq<char> {
    if out.len() == 0 {
        "unknown"@
    } else {
        let parts = split_on(out, '\n');
        let line = parts[0];
        if parts.len() > 1 && line.len() > 0 && line[line.len() - 1] == '\r' {
            line.drop_last()
        } else {
            line
        }
    }
}

/// Every well-formed address validates: writing a management part that
/// contains an `@` and a non-empty filesystem name around one `:/`
/// separator — neither part containing the separator itself — yields a
/// valid source. Conversely, `validate_source` reports a distinct reason
/// whenever the `@` or the separator is missing, the separator is
/// repeated, or a side is empty.
pub proof fn lemma_wellformed_address_validates(mgs: Seq<char>, name: Seq<char>)
    requires
        mgs.len() > 0,
        name.len() > 0,
        contains_char(mgs, '@'),
        forall|i: int| 0 <= i && i + 1 < mgs.len() ==> !(#[trigger] mgs[i] == ':' && mgs[i + 1]
            == '/'),
        forall|i: int| 0 <= i && i + 1 < name.len() ==> !(#[trigger] name[i] == ':' && name[i + 1]
            == '/'),
    ensures
        valid_source(mgs + seq![':', '/'] + name),
{
    let s = mgs + seq![':', '/'] + name;
    let m = mgs.len() as int;
    assert(s.len() == mgs.len() + 2 + name.len());
    assert(s[m] == ':' && s[m + 1] == '/');
    assert(sep_at(s, m));
    // the '@' of the management part is an '@' of the whole address
    let w = choose|i: int| 0 <= i < mgs.len() && mgs[i] == '@';
    assert(s[w] == '@');
    assert(contains_char(s, '@'));
    // no other position carries the separator
    assert forall|i: int| sep_at(s, i) implies i == m by {
        if i < m - 1 {
            assert(s[i] == mgs[i] && s[i + 1] == mgs[i + 1]);
        } else if i == m - 1 {
            assert(s[i + 1] == ':');
        } else if i == m + 1 {
            assert(s[i] == '/');
        } else if i > m + 1 {
            assert(s[i] == name[i - m - 2]);
            assert(s[i + 1] == name[i + 1 - m - 2]);
        }
    }
    assert(unique_sep(s));
    let c = choose|i: int| sep_at(s, i);
    assert(sep_at(s, c));
    assert(c == m);
    assert(m > 0 && m + 2 < s.len());
}

/// Extending the report by one line extends both sums by its contribution.
pub proof fn lemma_sum_push(lines: Seq<Seq<char>>, l: Seq<char>)
    ensures
        sum_total(lines.push(l)) == sum_total(lines) + line_total(l),
        sum_used(lines.push(l)) == sum_used(lines) + line_used(l),
{
    assert(lines.push(l).drop_last() =~~= lines);
    assert(lines.push(l).last() == l);
}

/// Construct a filesystem report from total and used counts; available is
/// their difference, floored at zero.
pub fn filesystem_info_from_counts(total_bytes: u64, used_bytes: u64) -> (info:
    LustreFilesystemInfo)
    ensures
        info.total_bytes == total_bytes,
        info.used_bytes == used_bytes,
        info.available_bytes == if used_bytes > total_bytes {
            0u64
        } else {
            (total_bytes - used_bytes) as u64
        },
{
    let available: u64 = if used_bytes > total_bytes {
        0
    } else {
        total_bytes - used_bytes
    };
    LustreFilesystemInfo { total_bytes, used_bytes, available_bytes: available }
}

/// Saturating addition on byte counts.
pub fn saturating_add_u64(a: u64, b: u64) -> (r: u64)
    ensures
        r == if a + b > u64::MAX {
            u64::MAX
        } else {
            (a + b) as u64
        },
{
    if a > u64::MAX - b {
        u64::MAX
    } else {
        a + b
    }
}

} // verus!
