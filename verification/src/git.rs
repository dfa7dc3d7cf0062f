//! Parsing of git's plumbing output: porcelain status lines, branch
//! listings, ahead/behind counts and log records.
//!
//! The embedding application runs the git commands; every byte of their
//! output is interpreted here.

use vstd::prelude::*;
use vstd::string::*;
use crate::text::{
    parse_u32, spec_lines, spec_parse_u32, spec_split, spec_trim, spec_trim_end_char, split_char,
    split_lines, starts_with, trim, trim_end_char,
};

verus! {

/// One changed file in a repository's status.
#[derive(Debug, Clone)]
pub struct GitFileStatus {
    pub path: String,
    pub status: String,
    pub staged: bool,
    pub status_text: String,
}

/// A repository's status summary.
#[derive(Debug)]
pub struct GitStatus {
    pub is_repo: bool,
    pub branch: Option<String>,
    pub ahead: u32,
    pub behind: u32,
    pub staged_count: u32,
    pub unstaged_count: u32,
    pub untracked_count: u32,
    pub files: Vec<GitFileStatus>,
    pub has_conflicts: bool,
}

/// One branch of a repository.
#[derive(Debug)]
pub struct GitBranch {
    pub name: String,
    pub is_current: bool,
    pub is_remote: bool,
}

/// One commit of a repository's log.
#[derive(Debug)]
pub struct GitCommit {
    pub hash: String,
    pub short_hash: String,
    pub message: String,
    pub author: String,
    pub date: String,
}

/// Whether a porcelain line is long enough to parse.
pub open spec fn line_parses(l: Seq<char>) -> bool {
    l.len() >= 4
}

/// Whether the staged column decides the line's status: anything but a
/// blank or an untracked marker there counts as staged.
pub open spec fn spec_status_staged(l: Seq<char>) -> bool {
    l[0] != ' ' && l[0] != '?'
}

/// The status character a porcelain line reports.
pub open spec fn spec_status_char(l: Seq<char>) -> char {
    if spec_status_staged(l) {
        l[0]
    } else {
        l[1]
    }
}

/// The human-readable name of a status character.
pub open spec fn spec_status_text(c: char) -> Seq<char> {
    if c == 'M' {
        "modified"@
    } else if c == 'A' {
        "added"@
    } else if c == 'D' {
        "deleted"@
    } else if c == 'R' {
        "renamed"@
    } else if c == 'C' {
        "copied"@
    } else if c == 'U' {
        "unmerged"@
    } else if c == '?' {
        "untracked"@
    } else if c == '!' {
        "ignored"@
    } else {
        "unknown"@
    }
}

/// How a parsed file record relates to the porcelain line it came from.
pub open spec fn file_matches_line(f: GitFileStatus, l: Seq<char>) -> bool {
    &&& f.path@ == l.skip(3)
    &&& f.staged == spec_status_staged(l)
    &&& f.status@ == seq![spec_status_char(l)]
    &&& f.status_text@ == spec_status_text(spec_status_char(l))
}

fn status_text_of(c: char) -> (t: String)
    ensures
        t@ == spec_status_text(c),
{
    if c == 'M' {
        String::from_str("modified")
    } else if c == 'A' {
        String::from_str("added")
    } else if c == 'D' {
        String::from_str("deleted")
    } else if c == 'R' {
        String::from_str("renamed")
    } else if c == 'C' {
        String::from_str("copied")
    } else if c == 'U' {
        String::from_str("unmerged")
    } else if c == '?' {
        String::from_str("untracked")
    } else if c == '!' {
        String::from_str("ignored")
    } else {
        String::from_str("unknown")
    }
}

/// Parses one `git status --porcelain` line: the two status columns, then
/// a space, then the path.  Lines too short to carry that are rejected.
pub fn parse_status_line(line: &str) -> (r: Option<GitFileStatus>)
    ensures
        line@.len() < 4 ==> r is None,
        line@.len() >= 4 ==> (r matches Some(f) && file_matches_line(f, line@)),
{
    let n = line.unicode_len();
    if n < 4 {
        return None;
    }
    let staged = line.get_char(0) != ' ' && line.get_char(0) != '?';
    let status = if staged {
        line.substring_char(0, 1)
    } else {
        line.substring_char(1, 2)
    };
    proof {
        if staged {
            assert(line@.subrange(0, 1) =~= seq![line@[0]]);
        } else {
            assert(line@.subrange(1, 2) =~= seq![line@[1]]);
        }
    }
    let path = line.substring_char(3, n);
    proof {
        assert(path@ =~= line@.skip(3));
    }
    let c = line.get_char(if staged { 0 } else { 1 });
    Some(GitFileStatus {
        path: String::from_str(path),
        status: String::from_str(status),
        staged,
        status_text: status_text_of(c),
    })
}

/// The classes of porcelain lines the summary counts.
pub enum LineClass {
    Staged,
    Unstaged,
    Untracked,
    Conflict,
}

/// Which class a porcelain line falls in.
pub open spec fn line_is(class: LineClass, l: Seq<char>) -> bool {
    match class {
        LineClass::Untracked => line_parses(l) && spec_status_char(l) == '?',
        LineClass::Staged => line_parses(l) && spec_status_char(l) != '?'
            && spec_status_staged(l),
        LineClass::Unstaged => line_parses(l) && spec_status_char(l) != '?'
            && !spec_status_staged(l),
        LineClass::Conflict => line_parses(l) && spec_status_char(l) == 'U',
    }
}

/// How many of the lines fall in a class.
pub open spec fn count_class(lines: Seq<Seq<char>>, class: LineClass) -> int
    decreases lines.len(),
{
    if lines.len() == 0 {
        0
    } else {
        count_class(lines.drop_last(), class) + if line_is(class, lines.last()) {
            1int
        } else {
            0int
        }
    }
}

/// The lines long enough to parse, in order.
pub open spec fn parsed_lines(lines: Seq<Seq<char>>) -> Seq<Seq<char>>
    decreases lines.len(),
{
    if lines.len() == 0 {
        Seq::empty()
    } else if line_parses(lines.last()) {
        parsed_lines(lines.drop_last()).push(lines.last())
    } else {
        parsed_lines(lines.drop_last())
    }
}

proof fn lemma_count_class_bound(lines: Seq<Seq<char>>, class: LineClass)
    ensures
        0 <= count_class(lines, class) <= lines.len(),
    decreases lines.len(),
{
    if lines.len() > 0 {
        lemma_count_class_bound(lines.drop_last(), class);
    }
}

proof fn lemma_lines_count_le(s: Seq<char>)
    ensures
        spec_lines(s).len() <= s.len(),
    decreases s.len(),
{
    if s.len() > 0 {
        let i = crate::text::spec_find(s, '\n');
        if 0 <= i < s.len() {
            lemma_lines_count_le(s.skip(i + 1));
        }
    }
}

/// The file records and counters a porcelain status output summarizes to.
#[derive(Debug)]
pub struct StatusSummary {
    pub files: Vec<GitFileStatus>,
    pub staged_count: u32,
    pub unstaged_count: u32,
    pub untracked_count: u32,
    pub has_conflicts: bool,
}

/// Summarizes `git status --porcelain` output: one file record per
/// parseable line in order, the class counts, and whether any line
/// reports an unmerged path.
pub fn summarize_status(porcelain: &str) -> (s: StatusSummary)
    requires
        porcelain@.len() < u32::MAX,
    ensures
        s.files@.len() == parsed_lines(spec_lines(porcelain@)).len(),
        forall|k: int|
            0 <= k < s.files@.len()
                ==> file_matches_line(#[trigger] s.files@[k], parsed_lines(spec_lines(porcelain@))[k]),
        s.staged_count == count_class(spec_lines(porcelain@), LineClass::Staged),
        s.unstaged_count == count_class(spec_lines(porcelain@), LineClass::Unstaged),
        s.untracked_count == count_class(spec_lines(porcelain@), LineClass::Untracked),
        s.has_conflicts <==> count_class(spec_lines(porcelain@), LineClass::Conflict) > 0,
{
    let ghost all = spec_lines(porcelain@);
    proof {
        lemma_lines_count_le(porcelain@);
    }
    let lines = split_lines(porcelain);
    let n = lines.len();
    let mut files: Vec<GitFileStatus> = Vec::new();
    let mut staged_count: u32 = 0;
    let mut unstaged_count: u32 = 0;
    let mut untracked_count: u32 = 0;
    let mut has_conflicts = false;
    let mut j: usize = 0;
    proof {
        assert(all.take(0) =~= Seq::<Seq<char>>::empty());
    }
    while j < n
        invariant
            n == lines@.len(),
            lines@.len() == all.len(),
            all.len() < u32::MAX,
            forall|i: int| 0 <= i < lines@.len() ==> lines@[i]@ == all[i],
            0 <= j <= n,
            files@.len() == parsed_lines(all.take(j as int)).len(),
            forall|k: int|
                0 <= k < files@.len()
                    ==> file_matches_line(#[trigger] files@[k], parsed_lines(all.take(j as int))[k]),
            staged_count == count_class(all.take(j as int), LineClass::Staged),
            unstaged_count == count_class(all.take(j as int), LineClass::Unstaged),
            untracked_count == count_class(all.take(j as int), LineClass::Untracked),
            has_conflicts <==> count_class(all.take(j as int), LineClass::Conflict) > 0,
        decreases n - j,
    {
        proof {
            assert(all.take(j + 1).drop_last() =~= all.take(j as int));
            assert(all.take(j + 1).last() == all[j as int]);
            lemma_count_class_bound(all.take(j as int), LineClass::Staged);
            lemma_count_class_bound(all.take(j as int), LineClass::Unstaged);
            lemma_count_class_bound(all.take(j as int), LineClass::Untracked);
            lemma_count_class_bound(all.take(j as int), LineClass::Conflict);
        }
        let line = lines[j].as_str();
        match parse_status_line(line) {
            Some(file_status) => {
                proof {
                    let l = all[j as int];
                    assert(seq![spec_status_char(l)][0] == spec_status_char(l));
                    assert(seq!['?'][0] == '?');
                    assert(seq!['U'][0] == 'U');
                    if spec_status_char(l) == '?' {
                        assert(seq![spec_status_char(l)] =~= seq!['?']);
                    }
                    if spec_status_char(l) == 'U' {
                        assert(seq![spec_status_char(l)] =~= seq!['U']);
                    }
                }
                let is_conflict = str_is_one_char(&file_status.status, 'U');
                let is_untracked = str_is_one_char(&file_status.status, '?');
                if is_conflict {
                    has_conflicts = true;
                }
                if is_untracked {
                    untracked_count = untracked_count + 1;
                } else if file_status.staged {
                    staged_count = staged_count + 1;
                } else {
                    unstaged_count = unstaged_count + 1;
                }
                files.push(file_status);
            },
            None => {},
        }
        j += 1;
    }
    proof {
        assert(all.take(n as int) =~= all);
    }
    StatusSummary { files, staged_count, unstaged_count, untracked_count, has_conflicts }
}

/// Whether the string is exactly the one given character.
fn str_is_one_char(s: &String, c: char) -> (r: bool)
    ensures
        r <==> s@ == seq![c],
{
    if s.as_str().unicode_len() == 1 && s.as_str().get_char(0) == c {
        proof {
            assert(s@ =~= seq![c]);
        }
        true
    } else {
        proof {
            if s@ == seq![c] {
                assert(s@.len() == 1);
            }
        }
        false
    }
}

/// A missing value parses as zero, as the status summary wants it.
pub open spec fn or_zero(o: Option<u32>) -> u32 {
    match o {
        Some(v) => v,
        None => 0,
    }
}

/// Parses `git rev-list --left-right --count` output: two tab-separated
/// counters; anything else counts as zero ahead and zero behind.
pub fn parse_ahead_behind(out: &str) -> (r: (u32, u32))
    ensures
        ({
            let parts = spec_split(spec_trim(out@), '\t');
            if parts.len() == 2 {
                r.0 == or_zero(spec_parse_u32(parts[0])) && r.1 == or_zero(
                    spec_parse_u32(parts[1]),
                )
            } else {
                r.0 == 0 && r.1 == 0
            }
        }),
{
    let trimmed = trim(out);
    let parts = split_char(trimmed, '\t');
    if parts.len() == 2 {
        let ahead = match parse_u32(parts[0].as_str()) {
            Some(v) => v,
            None => 0,
        };
        let behind = match parse_u32(parts[1].as_str()) {
            Some(v) => v,
            None => 0,
        };
        (ahead, behind)
    } else {
        (0, 0)
    }
}

/// What `git branch --show-current` output yields for the status summary:
/// the trimmed branch name if the command succeeded and printed one.
pub fn branch_from_output(ok: bool, stdout: &str) -> (r: Option<String>)
    ensures
        ok && spec_trim(stdout@).len() > 0 ==> (r matches Some(b) && b@ == spec_trim(stdout@)),
        !(ok && spec_trim(stdout@).len() > 0) ==> r is None,
{
    if !ok {
        return None;
    }
    let t = trim(stdout);
    if t.unicode_len() == 0 {
        None
    } else {
        Some(String::from_str(t))
    }
}

/// What a branch query decides next: a branch name was found, the head is
/// detached and the short hash must be asked for, or nothing can be said.
pub enum BranchQuery {
    Found(String),
    Detached,
    Unknown,
}

/// Classifies `git branch --show-current` output for the branch lookup:
/// a nonempty trimmed name is the branch; an empty one means a detached
/// head; a failed command means the branch cannot be determined.
pub fn classify_branch_output(ok: bool, stdout: &str) -> (r: BranchQuery)
    ensures
        match r {
            BranchQuery::Found(b) => ok && b@ == spec_trim(stdout@) && b@.len() > 0,
            BranchQuery::Detached => ok && spec_trim(stdout@).len() == 0,
            BranchQuery::Unknown => !ok,
        },
{
    if !ok {
        return BranchQuery::Unknown;
    }
    let t = trim(stdout);
    if t.unicode_len() == 0 {
        BranchQuery::Detached
    } else {
        BranchQuery::Found(String::from_str(t))
    }
}

/// The label a detached head is reported under: the trimmed short hash
/// behind a fixed prefix.
pub fn detached_label(short_hash: &str) -> (r: String)
    ensures
        r@ == "HEAD:"@ + spec_trim(short_hash@),
{
    String::from_str("HEAD:").concat(trim(short_hash))
}

/// How a parsed branch record relates to its listing line.
pub open spec fn branch_matches_line(b: GitBranch, l: Seq<char>) -> bool {
    &&& b.name@ == spec_trim_end_char(l, '*')
    &&& b.is_current == (l.len() > 0 && l.last() == '*')
    &&& b.is_remote == (is_prefix(b.name@, "remotes/"@) || is_prefix(b.name@, "origin/"@))
}

/// Whether `p` is a prefix of `s`.
pub open spec fn is_prefix(s: Seq<char>, p: Seq<char>) -> bool {
    s.len() >= p.len() && s.subrange(0, p.len() as int) == p
}

/// Parses one `git branch -a` listing line: a trailing star marks the
/// current branch and is stripped from the name, and remote branches are
/// recognized by their prefix.
pub fn parse_branch_line(line: &str) -> (b: GitBranch)
    ensures
        branch_matches_line(b, line@),
{
    let n = line.unicode_len();
    let is_current = n > 0 && line.get_char(n - 1) == '*';
    let name = trim_end_char(line, '*');
    let is_remote = starts_with(name, "remotes/") || starts_with(name, "origin/");
    GitBranch { name: String::from_str(name), is_current, is_remote }
}

/// The nonempty lines of a listing, in order.
pub open spec fn nonempty_lines(lines: Seq<Seq<char>>) -> Seq<Seq<char>>
    decreases lines.len(),
{
    if lines.len() == 0 {
        Seq::empty()
    } else if lines.last().len() > 0 {
        nonempty_lines(lines.drop_last()).push(lines.last())
    } else {
        nonempty_lines(lines.drop_last())
    }
}

/// Parses a whole `git branch -a` listing: one record per nonempty line,
/// in order.
pub fn parse_branches(stdout: &str) -> (r: Vec<GitBranch>)
    ensures
        r@.len() == nonempty_lines(spec_lines(stdout@)).len(),
        forall|k: int|
            0 <= k < r@.len()
                ==> branch_matches_line(#[trigger] r@[k], nonempty_lines(spec_lines(stdout@))[k]),
{
    let ghost all = spec_lines(stdout@);
    let lines = split_lines(stdout);
    let n = lines.len();
    let mut out: Vec<GitBranch> = Vec::new();
    let mut j: usize = 0;
    proof {
        assert(all.take(0) =~= Seq::<Seq<char>>::empty());
    }
    while j < n
        invariant
            n == lines@.len(),
            lines@.len() == all.len(),
            forall|i: int| 0 <= i < lines@.len() ==> lines@[i]@ == all[i],
            0 <= j <= n,
            out@.len() == nonempty_lines(all.take(j as int)).len(),
            forall|k: int|
                0 <= k < out@.len()
                    ==> branch_matches_line(#[trigger] out@[k], nonempty_lines(all.take(j as int))[k]),
        decreases n - j,
    {
        proof {
            assert(all.take(j + 1).drop_last() =~= all.take(j as int));
            assert(all.take(j + 1).last() == all[j as int]);
        }
        let line = lines[j].as_str();
        if line.unicode_len() > 0 {
            out.push(parse_branch_line(line));
        }
        j += 1;
    }
    proof {
        assert(all.take(n as int) =~= all);
    }
    out
}

/// The pieces `s` falls into when split at `sep` at most `k - 1` times;
/// the last piece keeps any further separators.
pub open spec fn spec_splitn(s: Seq<char>, sep: char, k: int) -> Seq<Seq<char>>
    decreases k,
{
    if k <= 1 {
        seq![s]
    } else {
        let i = crate::text::spec_find(s, sep);
        if i < 0 || i >= s.len() {
            seq![s]
        } else {
            seq![s.take(i)] + spec_splitn(s.skip(i + 1), sep, k - 1)
        }
    }
}

/// Splits at `sep` into at most `k` pieces, as `str::splitn` does with a
/// character pattern.
pub fn splitn_char(s: &str, sep: char, k: usize) -> (r: Vec<String>)
    ensures
        r@.len() == spec_splitn(s@, sep, k as int).len(),
        forall|i: int| 0 <= i < r@.len() ==> r@[i]@ == spec_splitn(s@, sep, k as int)[i],
    decreases k,
{
    let n = s.unicode_len();
    if k <= 1 {
        let mut out: Vec<String> = Vec::new();
        out.push(String::from_str(s));
        return out;
    }
    match crate::text::find_char(s, sep) {
        None => {
            let mut out: Vec<String> = Vec::new();
            out.push(String::from_str(s));
            out
        },
        Some(i) => {
            proof {
                crate::text::lemma_find_is_first(s@, sep);
            }
            let head = s.substring_char(0, i);
            let tail = s.substring_char(i + 1, n);
            proof {
                assert(head@ =~= s@.take(i as int));
                assert(tail@ =~= s@.skip(i + 1));
            }
            let mut out = splitn_char(tail, sep, k - 1);
            out.insert(0, String::from_str(head));
            out
        },
    }
}

/// Whether a log line carries all five fields.
pub open spec fn commit_line_ok(l: Seq<char>) -> bool {
    spec_splitn(l, '|', 5).len() == 5
}

/// How a parsed commit record relates to its log line.
pub open spec fn commit_matches_line(c: GitCommit, l: Seq<char>) -> bool {
    let parts = spec_splitn(l, '|', 5);
    &&& parts.len() == 5
    &&& c.hash@ == parts[0]
    &&& c.short_hash@ == parts[1]
    &&& c.message@ == parts[2]
    &&& c.author@ == parts[3]
    &&& c.date@ == parts[4]
}

/// Parses one log line of the form hash, short hash, subject, author and
/// date, separated by pipes; a line with fewer fields is rejected.
pub fn parse_commit_line(line: &str) -> (r: Option<GitCommit>)
    ensures
        commit_line_ok(line@) ==> (r matches Some(c) && commit_matches_line(c, line@)),
        !commit_line_ok(line@) ==> r is None,
{
    let parts = splitn_char(line, '|', 5);
    if parts.len() == 5 {
        Some(GitCommit {
            hash: parts[0].clone(),
            short_hash: parts[1].clone(),
            message: parts[2].clone(),
            author: parts[3].clone(),
            date: parts[4].clone(),
        })
    } else {
        None
    }
}

/// The lines that carry all five log fields, in order.
pub open spec fn commit_lines(lines: Seq<Seq<char>>) -> Seq<Seq<char>>
    decreases lines.len(),
{
    if lines.len() == 0 {
        Seq::empty()
    } else if commit_line_ok(lines.last()) {
        commit_lines(lines.drop_last()).push(lines.last())
    } else {
        commit_lines(lines.drop_last())
    }
}

/// Parses a whole log listing: one record per well-formed line, in order.
pub fn parse_commits(stdout: &str) -> (r: Vec<GitCommit>)
    ensures
        r@.len() == commit_lines(spec_lines(stdout@)).len(),
        forall|k: int|
            0 <= k < r@.len()
                ==> commit_matches_line(#[trigger] r@[k], commit_lines(spec_lines(stdout@))[k]),
{
    let ghost all = spec_lines(stdout@);
    let lines = split_lines(stdout);
    let n = lines.len();
    let mut out: Vec<GitCommit> = Vec::new();
    let mut j: usize = 0;
    proof {
        assert(all.take(0) =~= Seq::<Seq<char>>::empty());
    }
    while j < n
        invariant
            n == lines@.len(),
            lines@.len() == all.len(),
            forall|i: int| 0 <= i < lines@.len() ==> lines@[i]@ == all[i],
            0 <= j <= n,
            out@.len() == commit_lines(all.take(j as int)).len(),
            forall|k: int|
                0 <= k < out@.len()
                    ==> commit_matches_line(#[trigger] out@[k], commit_lines(all.take(j as int))[k]),
        decreases n - j,
    {
        proof {
            assert(all.take(j + 1).drop_last() =~= all.take(j as int));
            assert(all.take(j + 1).last() == all[j as int]);
        }
        match parse_commit_line(lines[j].as_str()) {
            Some(c) => {
                out.push(c);
            },
            None => {},
        }
        j += 1;
    }
    proof {
        assert(all.take(n as int) =~= all);
    }
    out
}

/// The status reported for a directory that is no git repository:
/// everything empty, nothing counted.
pub fn non_repo_status() -> (g: GitStatus)
    ensures
        !g.is_repo,
        g.branch is None,
        g.ahead == 0,
        g.behind == 0,
        g.staged_count == 0,
        g.unstaged_count == 0,
        g.untracked_count == 0,
        g.files@.len() == 0,
        !g.has_conflicts,
{
    GitStatus {
        is_repo: false,
        branch: None,
        ahead: 0,
        behind: 0,
        staged_count: 0,
        unstaged_count: 0,
        untracked_count: 0,
        files: Vec::new(),
        has_conflicts: false,
    }
}

/// Assembles the status of a repository from the branch lookup, the
/// ahead/behind counters and the porcelain output.
pub fn git_status_from(branch: Option<String>, ahead: u32, behind: u32, porcelain: &str)
    -> (g: GitStatus)
    requires
        porcelain@.len() < u32::MAX,
    ensures
        g.is_repo,
        g.branch == branch,
        g.ahead == ahead,
        g.behind == behind,
        g.files@.len() == parsed_lines(spec_lines(porcelain@)).len(),
        forall|k: int|
            0 <= k < g.files@.len()
                ==> file_matches_line(#[trigger] g.files@[k], parsed_lines(spec_lines(porcelain@))[k]),
        g.staged_count == count_class(spec_lines(porcelain@), LineClass::Staged),
        g.unstaged_count == count_class(spec_lines(porcelain@), LineClass::Unstaged),
        g.untracked_count == count_class(spec_lines(porcelain@), LineClass::Untracked),
        g.has_conflicts <==> count_class(spec_lines(porcelain@), LineClass::Conflict) > 0,
{
    let summary = summarize_status(porcelain);
    GitStatus {
        is_repo: true,
        branch,
        ahead,
        behind,
        staged_count: summary.staged_count,
        unstaged_count: summary.unstaged_count,
        untracked_count: summary.untracked_count,
        files: summary.files,
        has_conflicts: summary.has_conflicts,
    }
}

} // verus!
