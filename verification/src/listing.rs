//! Directory listings: per-entry metadata derived from a file's name, and
//! the ordering a listing is presented in.
//!
//! The embedding application walks the directory and reads each entry's
//! metadata; which entries count as hidden, what their extension is, and
//! how the listing is sorted is decided and proved here.

use vstd::prelude::*;
use vstd::string::*;
use vstd::seq_lib::lemma_multiset_commutative;
use crate::text::opt_view;

verus! {

/// One entry of a directory listing.
#[derive(Debug, Clone)]
pub struct FileEntry {
    pub name: String,
    pub path: String,
    pub is_dir: bool,
    pub is_file: bool,
    pub is_hidden: bool,
    pub size: Option<u64>,
    pub extension: Option<String>,
}

/// A directory listing: the directory, its entries in presentation order,
/// and its parent.
#[derive(Debug)]
pub struct DirectoryListing {
    pub path: String,
    pub entries: Vec<FileEntry>,
    pub parent: Option<String>,
}

/// The index of the last occurrence of `c` in `s`, or `-1` if there is
/// none.
pub open spec fn spec_rfind(s: Seq<char>, c: char) -> int
    decreases s.len(),
{
    if s.len() == 0 {
        -1
    } else if s.last() == c {
        s.len() - 1
    } else {
        spec_rfind(s.drop_last(), c)
    }
}

/// The extension of a file name: what follows the last dot, unless the
/// name has no dot or only its leading character is one.
pub open spec fn spec_extension(name: Seq<char>) -> Option<Seq<char>> {
    let i = spec_rfind(name, '.');
    if i <= 0 {
        None
    } else {
        Some(name.skip(i + 1))
    }
}

/// The stem of a file name: everything before the extension; the whole
/// name when there is no extension.
pub open spec fn spec_file_stem(name: Seq<char>) -> Seq<char> {
    let i = spec_rfind(name, '.');
    if i <= 0 {
        name
    } else {
        name.take(i)
    }
}

proof fn lemma_rfind_is_last(s: Seq<char>, c: char)
    ensures
        spec_rfind(s, c) == -1 ==> forall|j: int| 0 <= j < s.len() ==> s[j] != c,
        spec_rfind(s, c) != -1 ==> 0 <= spec_rfind(s, c) < s.len()
            && s[spec_rfind(s, c)] == c
            && forall|j: int| spec_rfind(s, c) < j < s.len() ==> s[j] != c,
    decreases s.len(),
{
    if s.len() == 0 {
    } else if s.last() == c {
    } else {
        lemma_rfind_is_last(s.drop_last(), c);
        let r = spec_rfind(s, c);
        if r == -1 {
            assert forall|j: int| 0 <= j < s.len() implies s[j] != c by {
                if j < s.len() - 1 {
                    assert(s.drop_last()[j] == s[j]);
                }
            }
        } else {
            assert(s.drop_last()[r] == s[r]);
            assert forall|j: int| r < j < s.len() implies s[j] != c by {
                if j < s.len() - 1 {
                    assert(s.drop_last()[j] == s[j]);
                }
            }
        }
    }
}

/// The last occurrence of `c` in `s`, if any.
fn rfind_char(s: &str, c: char) -> (r: Option<usize>)
    ensures
        match r {
            Some(i) => i as int == spec_rfind(s@, c),
            None => spec_rfind(s@, c) == -1,
        },
{
    let n = s.unicode_len();
    let mut b: usize = n;
    while b > 0
        invariant
            n == s@.len(),
            0 <= b <= n,
            forall|j: int| b <= j < n ==> s@[j] != c,
        decreases b,
    {
        if s.get_char(b - 1) == c {
            proof {
                lemma_rfind_is_last(s@, c);
            }
            return Some(b - 1);
        }
        b -= 1;
    }
    proof {
        lemma_rfind_is_last(s@, c);
    }
    None
}

/// The extension of a file name, as the path library reports it.
pub fn extension_of(name: &str) -> (r: Option<String>)
    ensures
        opt_view(r) == spec_extension(name@),
{
    let n = name.unicode_len();
    match rfind_char(name, '.') {
        Some(i) if i > 0 => {
            proof {
                lemma_rfind_is_last(name@, '.');
            }
            let ext = name.substring_char(i + 1, n);
            proof {
                assert(ext@ =~= name@.skip(i + 1));
            }
            Some(String::from_str(ext))
        },
        _ => None,
    }
}

/// The stem of a file name, as the path library reports it.
pub fn file_stem_of(name: &str) -> (r: String)
    ensures
        r@ == spec_file_stem(name@),
{
    match rfind_char(name, '.') {
        Some(i) if i > 0 => {
            proof {
                lemma_rfind_is_last(name@, '.');
            }
            let stem = name.substring_char(0, i);
            proof {
                assert(stem@ =~= name@.take(i as int));
            }
            String::from_str(stem)
        },
        _ => String::from_str(name),
    }
}

/// Builds the listing entry for one directory member: a leading dot marks
/// it hidden, and only files carry a size and an extension.
pub fn make_file_entry(name: String, path: String, is_dir: bool, is_file: bool, len: u64)
    -> (e: FileEntry)
    ensures
        e.name == name,
        e.path == path,
        e.is_dir == is_dir,
        e.is_file == is_file,
        e.is_hidden == (name@.len() > 0 && name@[0] == '.'),
        e.size == (if is_file { Some(len) } else { None::<u64> }),
        opt_view(e.extension) == (if is_file { spec_extension(name@) } else { None::<Seq<char>> }),
{
    let is_hidden = name.as_str().unicode_len() > 0 && name.as_str().get_char(0) == '.';
    let size = if is_file { Some(len) } else { None };
    let extension = if is_file { extension_of(name.as_str()) } else { None };
    FileEntry { name, path, is_dir, is_file, is_hidden, size, extension }
}

/// The lower-case folding of a name, as `str::to_lowercase` computes it:
/// a function of the characters alone.
pub uninterp spec fn lower_of(s: Seq<char>) -> Seq<char>;

/// Relies on `str::to_lowercase`: the folding depends on the characters
/// alone.
#[verifier::external_body]
fn lowercase(s: &str) -> (r: String)
    ensures
        r@ == lower_of(s@),
{
    s.to_lowercase()
}

/// Code-point order on text, which for UTF-8 encoded strings agrees with
/// the standard library's byte-wise string order.
pub open spec fn lex_le(x: Seq<char>, y: Seq<char>) -> bool
    decreases x.len(),
{
    if x.len() == 0 {
        true
    } else if y.len() == 0 {
        false
    } else if (x[0] as u32) < (y[0] as u32) {
        true
    } else if (x[0] as u32) > (y[0] as u32) {
        false
    } else {
        lex_le(x.skip(1), y.skip(1))
    }
}

/// Any two texts are ordered one way or the other.
pub proof fn lemma_lex_le_total(x: Seq<char>, y: Seq<char>)
    ensures
        lex_le(x, y) || lex_le(y, x),
    decreases x.len(),
{
    if x.len() > 0 && y.len() > 0 && (x[0] as u32) == (y[0] as u32) {
        lemma_lex_le_total(x.skip(1), y.skip(1));
    }
}

/// Code-point order is transitive.
pub proof fn lemma_lex_le_trans(x: Seq<char>, y: Seq<char>, z: Seq<char>)
    requires
        lex_le(x, y),
        lex_le(y, z),
    ensures
        lex_le(x, z),
    decreases x.len(),
{
    if x.len() == 0 {
    } else {
        assert(y.len() > 0);
        assert(z.len() > 0);
        let a = x[0] as u32;
        let b = y[0] as u32;
        let c = z[0] as u32;
        if a == b && b == c {
            lemma_lex_le_trans(x.skip(1), y.skip(1), z.skip(1));
        }
    }
}

/// If two texts agree on their first `i` code points, their order is the
/// order of their tails.
proof fn lemma_lex_le_skip(x: Seq<char>, y: Seq<char>, i: int)
    requires
        0 <= i <= x.len(),
        i <= y.len(),
        forall|j: int| 0 <= j < i ==> (x[j] as u32) == (y[j] as u32),
    ensures
        lex_le(x, y) == lex_le(x.skip(i), y.skip(i)),
    decreases i,
{
    if i == 0 {
        assert(x.skip(0) =~= x);
        assert(y.skip(0) =~= y);
    } else {
        lemma_lex_le_skip(x.skip(1), y.skip(1), i - 1);
        assert(x.skip(1).skip(i - 1) =~= x.skip(i));
        assert(y.skip(1).skip(i - 1) =~= y.skip(i));
    }
}

/// Decides the code-point order of two texts.
fn lex_le_exec(x: &str, y: &str) -> (r: bool)
    ensures
        r == lex_le(x@, y@),
{
    let n = x.unicode_len();
    let m = y.unicode_len();
    let mut i: usize = 0;
    while i < n && i < m
        invariant
            n == x@.len(),
            m == y@.len(),
            0 <= i <= n,
            i <= m,
            forall|j: int| 0 <= j < i ==> (x@[j] as u32) == (y@[j] as u32),
        decreases n - i,
    {
        let cx = x.get_char(i) as u32;
        let cy = y.get_char(i) as u32;
        if cx < cy {
            proof {
                lemma_lex_le_skip(x@, y@, i as int);
            }
            return true;
        }
        if cx > cy {
            proof {
                lemma_lex_le_skip(x@, y@, i as int);
            }
            return false;
        }
        i += 1;
    }
    proof {
        lemma_lex_le_skip(x@, y@, i as int);
    }
    i >= n
}

/// The order a listing is presented in: directories before files, and
/// within each group the lower-cased names in code-point order.
pub open spec fn spec_entry_le(a: FileEntry, b: FileEntry) -> bool {
    if a.is_dir != b.is_dir {
        a.is_dir
    } else {
        lex_le(lower_of(a.name@), lower_of(b.name@))
    }
}

/// Any two entries are ordered one way or the other.
pub proof fn lemma_entry_le_total(a: FileEntry, b: FileEntry)
    ensures
        spec_entry_le(a, b) || spec_entry_le(b, a),
{
    if a.is_dir == b.is_dir {
        lemma_lex_le_total(lower_of(a.name@), lower_of(b.name@));
    }
}

/// The listing order is transitive.
pub proof fn lemma_entry_le_trans(a: FileEntry, b: FileEntry, c: FileEntry)
    requires
        spec_entry_le(a, b),
        spec_entry_le(b, c),
    ensures
        spec_entry_le(a, c),
{
    if a.is_dir == b.is_dir && b.is_dir == c.is_dir {
        lemma_lex_le_trans(lower_of(a.name@), lower_of(b.name@), lower_of(c.name@));
    }
}

/// Decides the listing order of two entries.
fn entry_le_exec(a: &FileEntry, b: &FileEntry) -> (r: bool)
    ensures
        r == spec_entry_le(*a, *b),
{
    if a.is_dir != b.is_dir {
        a.is_dir
    } else {
        let la = lowercase(a.name.as_str());
        let lb = lowercase(b.name.as_str());
        lex_le_exec(la.as_str(), lb.as_str())
    }
}

/// The entries stand in presentation order.
pub open spec fn entries_sorted(s: Seq<FileEntry>) -> bool {
    forall|i: int, j: int| 0 <= i < j < s.len() ==> spec_entry_le(s[i], s[j])
}

/// Inserting an element between its lower and upper neighbours keeps a
/// sequence sorted.
proof fn lemma_insert_keeps_sorted(s: Seq<FileEntry>, p: int, e: FileEntry)
    requires
        entries_sorted(s),
        0 <= p <= s.len(),
        forall|j: int| 0 <= j < p ==> spec_entry_le(s[j], e),
        p < s.len() ==> spec_entry_le(e, s[p]),
    ensures
        entries_sorted(s.insert(p, e)),
{
    s.insert_ensures(p, e);
    let t = s.insert(p, e);
    assert forall|i: int, j: int| 0 <= i < j < t.len() implies spec_entry_le(t[i], t[j]) by {
        if i < p {
            if j < p {
            } else if j == p {
                assert(t[j] == e);
            } else {
                assert(t[j] == s[j - 1]);
            }
        } else if i == p {
            assert(t[i] == e);
            if j > p {
                assert(t[j] == s[j - 1]);
                if j - 1 > p {
                    lemma_entry_le_trans(e, s[p], s[j - 1]);
                }
            }
        } else {
            assert(t[i] == s[i - 1]);
            assert(t[j] == s[j - 1]);
        }
    }
}

/// Inserting anywhere adds exactly that element to the sequence's
/// contents.
proof fn lemma_insert_to_multiset(s: Seq<FileEntry>, p: int, e: FileEntry)
    requires
        0 <= p <= s.len(),
    ensures
        s.insert(p, e).to_multiset() =~= s.to_multiset().insert(e),
{
    broadcast use vstd::seq_lib::group_to_multiset_ensures;
    broadcast use vstd::multiset::group_multiset_axioms;

    let a = s.subrange(0, p);
    let b = s.subrange(p, s.len() as int);
    lemma_multiset_commutative(a.push(e), b);
    lemma_multiset_commutative(a, b);
    assert(s =~= a + b);
    assert(a.push(e).to_multiset() =~= a.to_multiset().insert(e));
}

/// Sorts a listing: directories first, then files, each group in
/// case-folded name order; no entry is lost, duplicated or invented.
pub fn sort_entries(entries: Vec<FileEntry>) -> (r: Vec<FileEntry>)
    ensures
        entries_sorted(r@),
        r@.to_multiset() == entries@.to_multiset(),
        r@.len() == entries@.len(),
{
    broadcast use vstd::seq_lib::group_to_multiset_ensures;
    broadcast use vstd::multiset::group_multiset_axioms;

    let ghost orig = entries@;
    let mut rest = entries;
    let mut out: Vec<FileEntry> = Vec::new();
    while rest.len() > 0
        invariant
            entries_sorted(out@),
            out@.to_multiset().add(rest@.to_multiset()) =~= orig.to_multiset(),
            out@.len() + rest@.len() == orig.len(),
        decreases rest@.len(),
    {
        let ghost before = rest@;
        let e = rest.pop().unwrap();
        proof {
            assert(before =~= rest@.push(e));
            vstd::seq_lib::to_multiset_build(rest@, e);
        }
        let n = out.len();
        let mut p: usize = 0;
        while p < n && entry_le_exec(&out[p], &e)
            invariant
                n == out@.len(),
                0 <= p <= n,
                forall|j: int| 0 <= j < p ==> spec_entry_le(out@[j], e),
            decreases n - p,
        {
            p += 1;
        }
        proof {
            if p < n {
                lemma_entry_le_total(out@[p as int], e);
            }
            lemma_insert_keeps_sorted(out@, p as int, e);
            lemma_insert_to_multiset(out@, p as int, e);
        }
        out.insert(p, e);
    }
    proof {
        assert(rest@.to_multiset().len() == 0);
        assert(out@.to_multiset() =~= orig.to_multiset());
        assert(out@.to_multiset().len() == out@.len());
        assert(orig.to_multiset().len() == orig.len());
    }
    out
}

/// Assembles a directory listing, its entries sorted into presentation
/// order.
pub fn make_directory_listing(path: String, entries: Vec<FileEntry>, parent: Option<String>)
    -> (d: DirectoryListing)
    ensures
        d.path == path,
        d.parent == parent,
        entries_sorted(d.entries@),
        d.entries@.to_multiset() == entries@.to_multiset(),
        d.entries@.len() == entries@.len(),
{
    let sorted = sort_entries(entries);
    DirectoryListing { path, entries: sorted, parent }
}

} // verus!
