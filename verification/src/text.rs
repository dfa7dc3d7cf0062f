//! Verified text utilities shared by the parsing and registry modules.

use vstd::prelude::*;
use vstd::string::*;

verus! {

/// The view of an optional string.
pub open spec fn opt_view(o: Option<String>) -> Option<Seq<char>> {
    match o {
        Some(s) => Some(s@),
        None => None,
    }
}

/// Character-for-character string equality.
pub fn str_eq(a: &str, b: &str) -> (r: bool)
    ensures
        r <==> a@ == b@,
{
    let n = a.unicode_len();
    if n != b.unicode_len() {
        return false;
    }
    let mut i: usize = 0;
    while i < n
        invariant
            n == a@.len(),
            n == b@.len(),
            0 <= i <= n,
            forall|j: int| 0 <= j < i ==> a@[j] == b@[j],
        decreases n - i,
    {
        if a.get_char(i) != b.get_char(i) {
            return false;
        }
        i += 1;
    }
    proof {
        assert(a@ =~= b@);
    }
    true
}

/// The characters the standard library counts as whitespace: the ASCII
/// whitespace controls and the Unicode `White_Space` code points.
pub open spec fn is_ws(c: char) -> bool {
    c == ' ' || c == '\t' || c == '\n' || c == '\r'
        || c as u32 == 0x0B || c as u32 == 0x0C || c as u32 == 0x85
        || c as u32 == 0xA0 || c as u32 == 0x1680
        || (0x2000 <= c as u32 && c as u32 <= 0x200A)
        || c as u32 == 0x2028 || c as u32 == 0x2029 || c as u32 == 0x202F
        || c as u32 == 0x205F || c as u32 == 0x3000
}

fn is_whitespace_char(c: char) -> (r: bool)
    ensures
        r == is_ws(c),
{
    c == ' ' || c == '\t' || c == '\n' || c == '\r'
        || c as u32 == 0x0B || c as u32 == 0x0C || c as u32 == 0x85
        || c as u32 == 0xA0 || c as u32 == 0x1680
        || (0x2000 <= c as u32 && c as u32 <= 0x200A)
        || c as u32 == 0x2028 || c as u32 == 0x2029 || c as u32 == 0x202F
        || c as u32 == 0x205F || c as u32 == 0x3000
}

/// The sequence with its leading characters matching `p` removed.
pub open spec fn trim_start_if(s: Seq<char>, p: spec_fn(char) -> bool) -> Seq<char>
    decreases s.len(),
{
    if s.len() > 0 && p(s[0]) {
        trim_start_if(s.skip(1), p)
    } else {
        s
    }
}

/// The sequence with its trailing characters matching `p` removed.
pub open spec fn trim_end_if(s: Seq<char>, p: spec_fn(char) -> bool) -> Seq<char>
    decreases s.len(),
{
    if s.len() > 0 && p(s.last()) {
        trim_end_if(s.drop_last(), p)
    } else {
        s
    }
}

/// The sequence with matching characters removed from both ends.
pub open spec fn trim_if(s: Seq<char>, p: spec_fn(char) -> bool) -> Seq<char> {
    trim_end_if(trim_start_if(s, p), p)
}

/// What `str::trim` leaves: the text without leading and trailing
/// whitespace.
pub open spec fn spec_trim(s: Seq<char>) -> Seq<char> {
    trim_if(s, |c: char| is_ws(c))
}

/// The sequence with leading copies of `q` removed.
pub open spec fn trim_start_ch(s: Seq<char>, q: char) -> Seq<char>
    decreases s.len(),
{
    if s.len() > 0 && s[0] == q {
        trim_start_ch(s.skip(1), q)
    } else {
        s
    }
}

/// The sequence with trailing copies of `q` removed.
pub open spec fn trim_end_ch(s: Seq<char>, q: char) -> Seq<char>
    decreases s.len(),
{
    if s.len() > 0 && s.last() == q {
        trim_end_ch(s.drop_last(), q)
    } else {
        s
    }
}

/// What trimming all copies of one character from both ends leaves.
pub open spec fn spec_trim_char(s: Seq<char>, q: char) -> Seq<char> {
    trim_end_ch(trim_start_ch(s, q), q)
}

/// What trimming all trailing copies of one character leaves.
pub open spec fn spec_trim_end_char(s: Seq<char>, q: char) -> Seq<char> {
    trim_end_ch(s, q)
}

proof fn lemma_trim_start_ch(s: Seq<char>, q: char, a: int)
    requires
        0 <= a <= s.len(),
        forall|j: int| 0 <= j < a ==> s[j] == q,
        a < s.len() ==> s[a] != q,
    ensures
        trim_start_ch(s, q) == s.skip(a),
    decreases a,
{
    if a == 0 {
        assert(s.skip(0) =~= s);
    } else {
        lemma_trim_start_ch(s.skip(1), q, a - 1);
        assert(s.skip(1).skip(a - 1) =~= s.skip(a));
    }
}

proof fn lemma_trim_end_ch(s: Seq<char>, q: char, b: int)
    requires
        -1 <= b < s.len(),
        forall|j: int| b < j < s.len() ==> s[j] == q,
        b >= 0 ==> s[b] != q,
    ensures
        trim_end_ch(s, q) == s.take(b + 1),
    decreases s.len(),
{
    if b == s.len() - 1 {
        assert(s.take(s.len() as int) =~= s);
    } else {
        assert(s.len() > 0 && s.last() == q);
        lemma_trim_end_ch(s.drop_last(), q, b);
        assert(s.drop_last().take(b + 1) =~= s.take(b + 1));
    }
}

proof fn lemma_trim_start_if(s: Seq<char>, p: spec_fn(char) -> bool, a: int)
    requires
        0 <= a <= s.len(),
        forall|j: int| 0 <= j < a ==> p(s[j]),
        a < s.len() ==> !p(s[a]),
    ensures
        trim_start_if(s, p) == s.skip(a),
    decreases a,
{
    if a == 0 {
        assert(s.skip(0) =~= s);
    } else {
        lemma_trim_start_if(s.skip(1), p, a - 1);
        assert(s.skip(1).skip(a - 1) =~= s.skip(a));
    }
}

proof fn lemma_trim_end_if(s: Seq<char>, p: spec_fn(char) -> bool, b: int)
    requires
        -1 <= b < s.len(),
        forall|j: int| b < j < s.len() ==> p(s[j]),
        b >= 0 ==> !p(s[b]),
    ensures
        trim_end_if(s, p) == s.take(b + 1),
    decreases s.len(),
{
    if b == s.len() - 1 {
        assert(s.take(s.len() as int) =~= s);
    } else {
        assert(s.len() > 0 && p(s.last()));
        lemma_trim_end_if(s.drop_last(), p, b);
        assert(s.drop_last().take(b + 1) =~= s.take(b + 1));
    }
}

/// Removes leading and trailing whitespace, as `str::trim` does.
pub fn trim<'a>(s: &'a str) -> (r: &'a str)
    ensures
        r@ == spec_trim(s@),
{
    let n = s.unicode_len();
    let mut a: usize = 0;
    while a < n && is_whitespace_char(s.get_char(a))
        invariant
            n == s@.len(),
            0 <= a <= n,
            forall|j: int| 0 <= j < a ==> is_ws(s@[j]),
        decreases n - a,
    {
        a += 1;
    }
    let mut b: usize = n;
    while b > a && is_whitespace_char(s.get_char(b - 1))
        invariant
            n == s@.len(),
            a <= b <= n,
            forall|j: int| b <= j < n ==> is_ws(s@[j]),
        decreases b,
    {
        b -= 1;
    }
    let r = s.substring_char(a, b);
    proof {
        lemma_trim_start_if(s@, |c: char| is_ws(c), a as int);
        lemma_trim_end_if(s@.skip(a as int), |c: char| is_ws(c), b - a - 1);
        assert(s@.skip(a as int).take(b - a) =~= s@.subrange(a as int, b as int));
    }
    r
}

/// Removes every leading and trailing copy of `q`, as `str::trim_matches`
/// does for a single pattern character.
pub fn trim_char<'a>(s: &'a str, q: char) -> (r: &'a str)
    ensures
        r@ == spec_trim_char(s@, q),
{
    let n = s.unicode_len();
    let mut a: usize = 0;
    while a < n && s.get_char(a) == q
        invariant
            n == s@.len(),
            0 <= a <= n,
            forall|j: int| 0 <= j < a ==> s@[j] == q,
        decreases n - a,
    {
        a += 1;
    }
    let mut b: usize = n;
    while b > a && s.get_char(b - 1) == q
        invariant
            n == s@.len(),
            a <= b <= n,
            forall|j: int| b <= j < n ==> s@[j] == q,
        decreases b,
    {
        b -= 1;
    }
    let r = s.substring_char(a, b);
    proof {
        lemma_trim_start_ch(s@, q, a as int);
        lemma_trim_end_ch(s@.skip(a as int), q, b - a - 1);
        assert(s@.skip(a as int).take(b - a) =~= s@.subrange(a as int, b as int));
    }
    r
}

/// Removes every trailing copy of `q`, as `str::trim_end_matches` does for
/// a single pattern character.
pub fn trim_end_char<'a>(s: &'a str, q: char) -> (r: &'a str)
    ensures
        r@ == spec_trim_end_char(s@, q),
{
    let n = s.unicode_len();
    let mut b: usize = n;
    while b > 0 && s.get_char(b - 1) == q
        invariant
            n == s@.len(),
            0 <= b <= n,
            forall|j: int| b <= j < n ==> s@[j] == q,
        decreases b,
    {
        b -= 1;
    }
    let r = s.substring_char(0, b);
    proof {
        lemma_trim_end_ch(s@, q, b - 1);
        assert(s@.take(b as int) =~= s@.subrange(0, b as int));
    }
    r
}

/// Whether `s` begins with `prefix`.
pub fn starts_with(s: &str, prefix: &str) -> (r: bool)
    ensures
        r <==> (s@.len() >= prefix@.len()
            && s@.subrange(0, prefix@.len() as int) == prefix@),
{
    let n = s.unicode_len();
    let m = prefix.unicode_len();
    if n < m {
        return false;
    }
    let mut i: usize = 0;
    while i < m
        invariant
            n == s@.len(),
            m == prefix@.len(),
            m <= n,
            0 <= i <= m,
            forall|j: int| 0 <= j < i ==> s@[j] == prefix@[j],
        decreases m - i,
    {
        if s.get_char(i) != prefix.get_char(i) {
            proof {
                assert(s@.subrange(0, m as int)[i as int] != prefix@[i as int]);
            }
            return false;
        }
        i += 1;
    }
    proof {
        assert(s@.subrange(0, m as int) =~= prefix@);
    }
    true
}

/// The index of the first occurrence of `c` in `s`, or `-1` if there is
/// none.
pub open spec fn spec_find(s: Seq<char>, c: char) -> int
    decreases s.len(),
{
    if s.len() == 0 {
        -1
    } else if s[0] == c {
        0
    } else {
        let r = spec_find(s.skip(1), c);
        if r == -1 {
            -1
        } else {
            r + 1
        }
    }
}

/// `spec_find` names the first occurrence: it is in range and points at
/// `c`, nothing before it is `c`, and `-1` means `c` does not occur.
pub proof fn lemma_find_is_first(s: Seq<char>, c: char)
    ensures
        spec_find(s, c) == -1 ==> forall|j: int| 0 <= j < s.len() ==> s[j] != c,
        spec_find(s, c) != -1 ==> 0 <= spec_find(s, c) < s.len()
            && s[spec_find(s, c)] == c
            && forall|j: int| 0 <= j < spec_find(s, c) ==> s[j] != c,
    decreases s.len(),
{
    if s.len() == 0 {
    } else if s[0] == c {
    } else {
        lemma_find_is_first(s.skip(1), c);
        let r = spec_find(s.skip(1), c);
        if r == -1 {
            assert forall|j: int| 0 <= j < s.len() implies s[j] != c by {
                if j > 0 {
                    assert(s.skip(1)[j - 1] != c);
                }
            }
        } else {
            assert(s[r + 1] == s.skip(1)[r]);
            assert forall|j: int| 0 <= j < r + 1 implies s[j] != c by {
                if j > 0 {
                    assert(s.skip(1)[j - 1] != c);
                }
            }
        }
    }
}

/// The first occurrence of `c` in `s`, if any.
pub fn find_char(s: &str, c: char) -> (r: Option<usize>)
    ensures
        match r {
            Some(i) => i as int == spec_find(s@, c),
            None => spec_find(s@, c) == -1,
        },
{
    let n = s.unicode_len();
    let mut i: usize = 0;
    while i < n
        invariant
            n == s@.len(),
            0 <= i <= n,
            forall|j: int| 0 <= j < i ==> s@[j] != c,
        decreases n - i,
    {
        if s.get_char(i) == c {
            proof {
                lemma_find_is_first(s@, c);
            }
            return Some(i);
        }
        i += 1;
    }
    proof {
        lemma_find_is_first(s@, c);
    }
    None
}

/// The pieces `s` falls into when split at every occurrence of `sep`,
/// separators dropped, empty pieces kept.
pub open spec fn spec_split(s: Seq<char>, sep: char) -> Seq<Seq<char>>
    decreases s.len(),
{
    let i = spec_find(s, sep);
    if i < 0 || i >= s.len() {
        seq![s]
    } else {
        seq![s.take(i)] + spec_split(s.skip(i + 1), sep)
    }
}

/// Splits at every occurrence of `sep`, as `str::split` does with a
/// character pattern.
pub fn split_char(s: &str, sep: char) -> (r: Vec<String>)
    ensures
        r@.len() == spec_split(s@, sep).len(),
        forall|i: int| 0 <= i < r@.len() ==> r@[i]@ == spec_split(s@, sep)[i],
    decreases s@.len(),
{
    let n = s.unicode_len();
    match find_char(s, sep) {
        None => {
            let mut out: Vec<String> = Vec::new();
            out.push(String::from_str(s));
            out
        },
        Some(i) => {
            proof {
                lemma_find_is_first(s@, sep);
            }
            let head = s.substring_char(0, i);
            let tail = s.substring_char(i + 1, n);
            proof {
                assert(tail@ =~= s@.skip(i + 1));
                assert(head@ =~= s@.take(i as int));
            }
            let mut out = split_char(tail, sep);
            out.insert(0, String::from_str(head));
            out
        },
    }
}

/// One line as `str::lines` yields it: a trailing carriage return that was
/// part of a `\r\n` ending is dropped.
pub open spec fn strip_cr(l: Seq<char>) -> Seq<char> {
    if l.len() > 0 && l.last() == '\r' {
        l.drop_last()
    } else {
        l
    }
}

/// The lines of `s`, as `str::lines` yields them: split at every newline,
/// `\r\n` endings stripped, and no empty piece after a final newline.
pub open spec fn spec_lines(s: Seq<char>) -> Seq<Seq<char>>
    decreases s.len(),
{
    if s.len() == 0 {
        Seq::empty()
    } else {
        let i = spec_find(s, '\n');
        if i < 0 || i >= s.len() {
            seq![s]
        } else {
            seq![strip_cr(s.take(i))] + spec_lines(s.skip(i + 1))
        }
    }
}

/// Splits into lines, as `str::lines` does.
pub fn split_lines(s: &str) -> (r: Vec<String>)
    ensures
        r@.len() == spec_lines(s@).len(),
        forall|i: int| 0 <= i < r@.len() ==> r@[i]@ == spec_lines(s@)[i],
    decreases s@.len(),
{
    let n = s.unicode_len();
    if n == 0 {
        return Vec::new();
    }
    match find_char(s, '\n') {
        None => {
            let mut out: Vec<String> = Vec::new();
            out.push(String::from_str(s));
            out
        },
        Some(i) => {
            proof {
                lemma_find_is_first(s@, '\n');
            }
            let hend = if i > 0 && s.get_char(i - 1) == '\r' {
                i - 1
            } else {
                i
            };
            let head = s.substring_char(0, hend);
            let tail = s.substring_char(i + 1, n);
            proof {
                assert(tail@ =~= s@.skip(i + 1));
                if i > 0 && s@[i - 1] == '\r' {
                    assert(s@.take(i as int).drop_last() =~= s@.subrange(0, i - 1));
                } else {
                    assert(s@.take(i as int) =~= s@.subrange(0, i as int));
                }
                assert(head@ == strip_cr(s@.take(i as int)));
            }
            let mut out = split_lines(tail);
            out.insert(0, String::from_str(head));
            out
        },
    }
}

/// Whether `p` occurs in `s` starting at position `i`.
pub open spec fn match_at(s: Seq<char>, p: Seq<char>, i: int) -> bool {
    0 <= i && i + p.len() <= s.len() && s.subrange(i, i + p.len()) == p
}

/// The index of the first occurrence of `p` in `s`, or `-1` if there is
/// none.
pub open spec fn spec_find_str(s: Seq<char>, p: Seq<char>) -> int
    decreases s.len(),
{
    if s.len() < p.len() {
        -1
    } else if s.subrange(0, p.len() as int) == p {
        0
    } else if s.len() == 0 {
        -1
    } else {
        let r = spec_find_str(s.skip(1), p);
        if r == -1 {
            -1
        } else {
            r + 1
        }
    }
}

/// `spec_find_str` names the first match: it is a match and nothing
/// earlier is, and `-1` means no position matches.
pub proof fn lemma_find_str_is_first(s: Seq<char>, p: Seq<char>)
    ensures
        spec_find_str(s, p) == -1 ==> forall|i: int| !match_at(s, p, i),
        spec_find_str(s, p) != -1 ==> match_at(s, p, spec_find_str(s, p))
            && forall|i: int| 0 <= i < spec_find_str(s, p) ==> !match_at(s, p, i),
    decreases s.len(),
{
    if s.len() < p.len() {
        assert forall|i: int| !match_at(s, p, i) by {}
    } else if s.subrange(0, p.len() as int) == p {
    } else {
        assert(s.len() > 0) by {
            if p.len() == 0 {
                assert(s.subrange(0, 0) =~= p);
            }
        }
        lemma_find_str_is_first(s.skip(1), p);
        assert forall|i: int| 1 <= i && i + p.len() <= s.len()
            implies match_at(s, p, i) == match_at(s.skip(1), p, i - 1) by {
            assert(s.subrange(i, i + p.len() as int)
                =~= s.skip(1).subrange(i - 1, i - 1 + p.len() as int));
        }
        let r = spec_find_str(s.skip(1), p);
        if r == -1 {
            assert forall|i: int| !match_at(s, p, i) by {
                if 1 <= i && i + p.len() <= s.len() {
                    assert(!match_at(s.skip(1), p, i - 1));
                }
            }
        } else {
            assert(match_at(s.skip(1), p, r));
            assert(match_at(s, p, r + 1));
            assert forall|i: int| 0 <= i < r + 1 implies !match_at(s, p, i) by {
                if i >= 1 {
                    assert(!match_at(s.skip(1), p, i - 1));
                }
            }
        }
    }
}

/// The first occurrence of `needle` in `s`, if any, as `str::find` with a
/// string pattern gives it.
pub fn find_str(s: &str, needle: &str) -> (r: Option<usize>)
    ensures
        match r {
            Some(i) => i as int == spec_find_str(s@, needle@),
            None => spec_find_str(s@, needle@) == -1,
        },
{
    let n = s.unicode_len();
    let m = needle.unicode_len();
    if m > n {
        proof {
            lemma_find_str_is_first(s@, needle@);
        }
        return None;
    }
    if m == 0 {
        proof {
            assert(s@.subrange(0, 0) =~= needle@);
        }
        return Some(0);
    }
    let mut i: usize = 0;
    while i <= n - m
        invariant
            n == s@.len(),
            m == needle@.len(),
            1 <= m <= n,
            0 <= i <= n - m + 1,
            forall|j: int| 0 <= j < i ==> !match_at(s@, needle@, j),
        decreases n + 1 - m - i,
    {
        let mut k: usize = 0;
        let mut all = true;
        while k < m
            invariant
                n == s@.len(),
                m == needle@.len(),
                m <= n,
                i + m <= n,
                0 <= k <= m,
                all ==> forall|j: int| 0 <= j < k ==> s@[i + j] == needle@[j],
                !all ==> !match_at(s@, needle@, i as int),
            decreases m - k,
        {
            if s.get_char(i + k) != needle.get_char(k) {
                proof {
                    assert(s@.subrange(i as int, i + m as int)[k as int] != needle@[k as int]);
                }
                all = false;
            }
            k += 1;
        }
        if all {
            proof {
                assert(s@.subrange(i as int, i + m as int) =~= needle@);
                assert(match_at(s@, needle@, i as int));
                lemma_find_str_is_first(s@, needle@);
                let f = spec_find_str(s@, needle@);
                if f == -1 {
                    assert(!match_at(s@, needle@, i as int));
                }
                assert(match_at(s@, needle@, f));
                if f < i {
                    assert(!match_at(s@, needle@, f));
                }
                if f > i {
                    assert(!match_at(s@, needle@, i as int));
                }
            }
            return Some(i);
        }
        i += 1;
    }
    proof {
        assert forall|j: int| !match_at(s@, needle@, j) by {
            if 0 <= j && j + needle@.len() <= s@.len() {
                assert(j < n - m + 1);
            }
        }
        lemma_find_str_is_first(s@, needle@);
    }
    None
}

/// A decimal digit.
pub open spec fn is_digit(c: char) -> bool {
    0x30 <= c as u32 <= 0x39
}

/// The value of a decimal digit.
pub open spec fn digit_val(c: char) -> int {
    c as u32 - 0x30
}

/// Every character is a decimal digit.
pub open spec fn all_digits(s: Seq<char>) -> bool {
    forall|i: int| 0 <= i < s.len() ==> is_digit(s[i])
}

/// The number a digit string denotes.
pub open spec fn digits_val(s: Seq<char>) -> int
    decreases s.len(),
{
    if s.len() == 0 {
        0
    } else {
        digits_val(s.drop_last()) * 10 + digit_val(s.last())
    }
}

/// What `str::parse::<u32>` accepts and returns: an optional leading plus
/// sign, then one or more digits whose value fits.
pub open spec fn spec_parse_u32(s: Seq<char>) -> Option<u32> {
    let t = if s.len() > 0 && s[0] == '+' {
        s.skip(1)
    } else {
        s
    };
    if t.len() > 0 && all_digits(t) && digits_val(t) <= u32::MAX {
        Some(digits_val(t) as u32)
    } else {
        None
    }
}

proof fn lemma_digits_val_nonneg(s: Seq<char>)
    requires
        all_digits(s),
    ensures
        digits_val(s) >= 0,
    decreases s.len(),
{
    if s.len() > 0 {
        assert(all_digits(s.drop_last()));
        lemma_digits_val_nonneg(s.drop_last());
    }
}

/// Extending a digit string never shrinks its value.
proof fn lemma_digits_val_monotone(s: Seq<char>, i: int, j: int)
    requires
        all_digits(s),
        0 <= i <= j <= s.len(),
    ensures
        digits_val(s.take(i)) <= digits_val(s.take(j)),
    decreases j - i,
{
    if i < j {
        lemma_digits_val_monotone(s, i, j - 1);
        let t = s.take(j);
        assert(all_digits(t));
        assert(t.drop_last() =~= s.take(j - 1));
        assert(all_digits(s.take(j - 1)));
        lemma_digits_val_nonneg(s.take(j - 1));
    }
}

/// Parses a decimal number, as `str::parse::<u32>` does.
pub fn parse_u32(s: &str) -> (r: Option<u32>)
    ensures
        r == spec_parse_u32(s@),
{
    let n = s.unicode_len();
    let st: usize = if n > 0 && s.get_char(0) == '+' {
        1
    } else {
        0
    };
    let ghost t = if st == 1 { s@.skip(1) } else { s@ };
    proof {
        if st == 0 {
            assert(t =~= s@.skip(0));
        }
        assert(t == s@.skip(st as int));
        assert(t.len() == n - st);
    }
    if n == st {
        return None;
    }
    let mut acc: u64 = 0;
    let mut i: usize = st;
    while i < n
        invariant
            n == s@.len(),
            st <= i <= n,
            st <= 1,
            (st == 1) == (s@.len() > 0 && s@[0] == '+'),
            t == s@.skip(st as int),
            t.len() == n - st,
            forall|j: int| 0 <= j < i - st ==> is_digit(t[j]),
            acc <= u32::MAX,
            acc as int == digits_val(t.take(i - st)),
        decreases n - i,
    {
        let c = s.get_char(i);
        proof {
            assert(t[i - st] == s@[i as int]);
        }
        if !(c as u32 >= 0x30 && c as u32 <= 0x39) {
            proof {
                assert(!is_digit(t[i - st]));
            }
            return None;
        }
        let d: u64 = (c as u32 - 0x30) as u64;
        let next: u64 = acc * 10 + d;
        proof {
            assert(t.take(i - st + 1).drop_last() =~= t.take(i - st));
            assert(t.take(i - st + 1).last() == t[i - st]);
            assert(next as int == digits_val(t.take(i - st + 1)));
        }
        if next > 0xFFFF_FFFF {
            proof {
                if all_digits(t) {
                    lemma_digits_val_monotone(t, i - st + 1, t.len() as int);
                    assert(t.take(t.len() as int) =~= t);
                    assert(digits_val(t) > u32::MAX);
                    assert(t == (if s@.len() > 0 && s@[0] == '+' { s@.skip(1) } else { s@ }));
                }
            }
            return None;
        }
        acc = next;
        i += 1;
    }
    proof {
        assert(t.take(n - st) =~= t);
    }
    Some(acc as u32)
}

} // verus!
