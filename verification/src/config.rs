//! Configuration handling: path expansion, the outcome of reading and
//! writing a config file, and the markdown frontmatter that describes the
//! user's commands and agents.
//!
//! The embedding application does the actual file reads and writes and
//! hands their outcomes in as plain values; every decision about what a
//! caller gets back is made and proved here.

use vstd::prelude::*;
use vstd::string::*;
use crate::result::CommandResult;
use crate::text::{
    find_str, opt_view, spec_find_str, spec_lines, spec_trim, spec_trim_char, split_lines,
    starts_with, trim, trim_char,
};

verus! {

/// Relies on `dirs::home_dir`: the user's home directory, rendered as a
/// string, if the platform reports one.  Nothing is assumed about which
/// directory comes back.
#[verifier::external_body]
fn home_dir_string() -> (r: Option<String>) {
    dirs::home_dir().map(|p| p.to_string_lossy().into_owned())
}

/// What tilde expansion makes of a path: a leading `~/` is replaced by the
/// home directory and a separator when a home directory is known, and the
/// path is untouched otherwise.
pub open spec fn spec_expand(path: Seq<char>, home: Option<Seq<char>>) -> Seq<char> {
    if path.len() >= 2 && path[0] == '~' && path[1] == '/' && home is Some {
        home->0 + "/"@ + path.skip(2)
    } else {
        path
    }
}

/// Expands a leading `~/` against a given home directory.
pub fn expand_path_with(path: &str, home: &Option<String>) -> (r: String)
    ensures
        r@ == spec_expand(path@, opt_view(*home)),
{
    let n = path.unicode_len();
    if n >= 2 && path.get_char(0) == '~' && path.get_char(1) == '/' {
        match home {
            Some(h) => {
                let rest = path.substring_char(2, n);
                proof {
                    assert(rest@ =~= path@.skip(2));
                }
                return h.clone().concat("/").concat(rest);
            },
            None => {},
        }
    }
    String::from_str(path)
}

/// Expands a leading `~/` against the home directory the platform
/// reports; a path that does not start with `~/` always comes back
/// unchanged.
pub fn expand_path(path: &str) -> (r: String)
    ensures
        exists|home: Option<Seq<char>>| r@ == spec_expand(path@, home),
        !(path@.len() >= 2 && path@[0] == '~' && path@[1] == '/') ==> r@ == path@,
{
    let home = home_dir_string();
    let r = expand_path_with(path, &home);
    proof {
        assert(r@ == spec_expand(path@, opt_view(home)));
    }
    r
}

/// How reading a config file ended: its text, a missing file, or another
/// error.
pub enum ReadFileOutcome {
    Content(String),
    Missing,
    Failed(String),
}

/// What the caller gets for each read outcome: the file's text, an empty
/// JSON object for a file that does not exist, and an error naming the
/// path otherwise.
pub fn read_config_outcome(path: &str, o: ReadFileOutcome) -> (r: CommandResult<String>)
    ensures
        match o {
            ReadFileOutcome::Content(c) => r.success && r.data == Some(c) && r.error is None,
            ReadFileOutcome::Missing => r.success
                && (r.data matches Some(v) && v@ == "{}"@) && r.error is None,
            ReadFileOutcome::Failed(d) => !r.success && r.data is None
                && (r.error matches Some(e)
                    && e@ == "Failed to read "@ + path@ + ": "@ + d@),
        },
{
    match o {
        ReadFileOutcome::Content(c) => CommandResult::ok(c),
        ReadFileOutcome::Missing => CommandResult::ok(String::from_str("{}")),
        ReadFileOutcome::Failed(d) => CommandResult::err(
            String::from_str("Failed to read ").concat(path).concat(": ").concat(d.as_str()),
        ),
    }
}

/// How writing a config file ended: written, the parent directory could
/// not be created, or the write itself failed.
pub enum WriteFileOutcome {
    Written,
    DirFailed(String),
    Failed(String),
}

/// What the caller gets for each write outcome.
pub fn write_config_outcome(path: &str, o: WriteFileOutcome) -> (r: CommandResult<()>)
    ensures
        match o {
            WriteFileOutcome::Written => r.success && r.data == Some(()) && r.error is None,
            WriteFileOutcome::DirFailed(d) => !r.success && r.data is None
                && (r.error matches Some(e)
                    && e@ == "Failed to create directory: "@ + d@),
            WriteFileOutcome::Failed(d) => !r.success && r.data is None
                && (r.error matches Some(e)
                    && e@ == "Failed to write "@ + path@ + ": "@ + d@),
        },
{
    match o {
        WriteFileOutcome::Written => CommandResult::ok(()),
        WriteFileOutcome::DirFailed(d) => CommandResult::err(
            String::from_str("Failed to create directory: ").concat(d.as_str()),
        ),
        WriteFileOutcome::Failed(d) => CommandResult::err(
            String::from_str("Failed to write ").concat(path).concat(": ").concat(d.as_str()),
        ),
    }
}

/// Whether the text opens a frontmatter block: it starts with `---` and
/// the marker occurs again further on.
pub open spec fn has_frontmatter(c: Seq<char>) -> bool {
    c.len() >= 3 && c.subrange(0, 3) == "---"@ && spec_find_str(c.skip(3), "---"@) >= 0
}

/// Where the closing marker stands, counted from the end of the opening
/// one.
pub open spec fn fm_end(c: Seq<char>) -> int {
    spec_find_str(c.skip(3), "---"@)
}

/// The text between the two markers.
pub open spec fn fm_text(c: Seq<char>) -> Seq<char> {
    c.skip(3).take(fm_end(c))
}

/// The body a frontmatter parse returns: everything after the closing
/// marker, trimmed; the whole text when there is no frontmatter block.
pub open spec fn spec_frontmatter_body(c: Seq<char>) -> Seq<char> {
    if has_frontmatter(c) {
        spec_trim(c.skip(3).skip(fm_end(c) + 3))
    } else {
        c
    }
}

/// The description a frontmatter parse returns: from the first
/// frontmatter line that opens with the description key, its value with
/// whitespace and surrounding quotes removed.
pub open spec fn spec_frontmatter_desc(c: Seq<char>) -> Option<Seq<char>> {
    if has_frontmatter(c) {
        first_desc_in(spec_lines(fm_text(c)))
    } else {
        None
    }
}

/// A frontmatter line that opens with the description key.
pub open spec fn line_starts_desc(l: Seq<char>) -> bool {
    l.len() >= 12 && l.subrange(0, 12) == "description:"@
}

/// The value of a description line: what follows the key, trimmed, with
/// surrounding quotes removed.
pub open spec fn desc_of_line(l: Seq<char>) -> Seq<char> {
    spec_trim_char(spec_trim(l.skip(12)), '"')
}

/// The first description among the lines, if any.
pub open spec fn first_desc_in(lines: Seq<Seq<char>>) -> Option<Seq<char>>
    decreases lines.len(),
{
    if lines.len() == 0 {
        None
    } else if line_starts_desc(lines[0]) {
        Some(desc_of_line(lines[0]))
    } else {
        first_desc_in(lines.skip(1))
    }
}

/// Finds the first description line among the frontmatter lines and
/// extracts its value.
fn first_description(fm: &str) -> (r: Option<String>)
    ensures
        opt_view(r) == first_desc_in(spec_lines(fm@)),
{
    let lines = split_lines(fm);
    proof {
        reveal_strlit("description:");
        assert(spec_lines(fm@).skip(0) =~= spec_lines(fm@));
    }
    let n = lines.len();
    let mut j: usize = 0;
    while j < n
        invariant
            n == lines@.len(),
            lines@.len() == spec_lines(fm@).len(),
            forall|i: int| 0 <= i < lines@.len() ==> lines@[i]@ == spec_lines(fm@)[i],
            0 <= j <= n,
            "description:"@.len() == 12,
            first_desc_in(spec_lines(fm@)) == first_desc_in(spec_lines(fm@).skip(j as int)),
        decreases n - j,
    {
        let line = lines[j].as_str();
        let ln = line.unicode_len();
        if starts_with(line, "description:") {
            let tail = line.substring_char(12, ln);
            proof {
                assert(tail@ =~= line@.skip(12));
                assert(spec_lines(fm@).skip(j as int)[0] == line@);
                assert(line_starts_desc(line@));
            }
            let d = trim_char(trim(tail), '"');
            return Some(String::from_str(d));
        }
        proof {
            assert(spec_lines(fm@).skip(j as int)[0] == line@);
            assert(!line_starts_desc(line@));
            assert(spec_lines(fm@).skip(j as int).skip(1) =~= spec_lines(fm@).skip(j + 1));
        }
        j += 1;
    }
    proof {
        assert(spec_lines(fm@).skip(n as int).len() == 0);
    }
    None
}

/// One user-defined command, read from a markdown file.
#[derive(Debug)]
pub struct CommandInfo {
    pub name: String,
    pub description: Option<String>,
    pub content: String,
    pub enabled: bool,
}

/// One user-defined agent, read from a markdown file.
#[derive(Debug)]
pub struct AgentInfo {
    pub name: String,
    pub description: Option<String>,
    pub system_prompt: String,
    pub tools: Vec<String>,
    pub enabled: bool,
}

/// Builds the command entry for one markdown file: the file's stem as the
/// name, and description and content from its frontmatter.
pub fn command_info_from_file(name: String, content: &str) -> (c: CommandInfo)
    ensures
        c.name == name,
        opt_view(c.description) == spec_frontmatter_desc(content@),
        c.content@ == spec_frontmatter_body(content@),
        c.enabled,
{
    let (description, body) = parse_frontmatter(content);
    CommandInfo { name, description, content: body, enabled: true }
}

/// Builds the agent entry for one markdown file: the file's stem as the
/// name, the frontmatter description, the body as the system prompt, and
/// no tools.
pub fn agent_info_from_file(name: String, content: &str) -> (a: AgentInfo)
    ensures
        a.name == name,
        opt_view(a.description) == spec_frontmatter_desc(content@),
        a.system_prompt@ == spec_frontmatter_body(content@),
        a.tools@.len() == 0,
        a.enabled,
{
    let (description, body) = parse_frontmatter(content);
    AgentInfo { name, description, system_prompt: body, tools: Vec::new(), enabled: true }
}

/// Splits markdown content into an optional frontmatter description and a
/// body.
///
/// Content that opens with a `---` marker that is closed further on has
/// the block between the markers scanned for a description line; the body
/// is what follows the closing marker, trimmed.  Anything else comes back
/// as a body only, untouched.
pub fn parse_frontmatter(content: &str) -> (r: (Option<String>, String))
    ensures
        opt_view(r.0) == spec_frontmatter_desc(content@),
        r.1@ == spec_frontmatter_body(content@),
{
    let n = content.unicode_len();
    if starts_with(content, "---") {
        proof {
            reveal_strlit("---");
        }
        let after = content.substring_char(3, n);
        proof {
            assert(after@ =~= content@.skip(3));
        }
        match find_str(after, "---") {
            Some(e) => {
                proof {
                    crate::text::lemma_find_str_is_first(after@, "---"@);
                    assert(crate::text::match_at(after@, "---"@, e as int));
                }
                let m = after.unicode_len();
                let fm = after.substring_char(0, e);
                let rest = after.substring_char(e + 3, m);
                proof {
                    assert(fm@ =~= after@.take(e as int));
                    assert(rest@ =~= after@.skip(e + 3));
                }
                let body = String::from_str(trim(rest));
                let desc = first_description(fm);
                return (desc, body);
            },
            None => {},
        }
    }
    (None, String::from_str(content))
}

} // verus!
