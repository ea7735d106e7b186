//! Verified text utilities: substring search, path decomposition and line
//! counting, all specified over character sequences.

use vstd::prelude::*;

verus! {

/// `n` occurs as a contiguous run inside `h`.
pub open spec fn seq_contains_sub(h: Seq<char>, n: Seq<char>) -> bool {
    exists|i: int| 0 <= i && i + n.len() <= h.len() && #[trigger] h.subrange(i, i + n.len()) == n
}

/// `p` is a prefix of `h`.
pub open spec fn seq_starts_with(h: Seq<char>, p: Seq<char>) -> bool {
    p.len() <= h.len() && h.subrange(0, p.len() as int) == p
}

/// Compares `needle` against the run of `hay` starting at `at`.
fn match_at(hay: &String, needle: &String, at: usize, hay_len: usize, needle_len: usize) -> (r:
    bool)
    requires
        hay_len == hay@.len(),
        needle_len == needle@.len(),
        at + needle_len <= hay_len,
    ensures
        r == (hay@.subrange(at as int, at + needle@.len()) == needle@),
{
    let mut j: usize = 0;
    while j < needle_len
        invariant
            hay_len == hay@.len(),
            needle_len == needle@.len(),
            at + needle_len <= hay_len,
            j <= needle_len,
            forall|k: int| 0 <= k < j ==> hay@[at + k] == needle@[k],
        decreases needle_len - j,
    {
        let hc = hay.as_str().get_char(at + j);
        let nc = needle.as_str().get_char(j);
        if hc != nc {
            assert(hay@.subrange(at as int, at + needle@.len())[j as int] == hay@[at + j]);
            return false;
        }
        j = j + 1;
    }
    assert(hay@.subrange(at as int, at + needle@.len()) =~= needle@);
    true
}

/// Substring search: does `hay` contain `needle` anywhere?
pub fn str_contains(hay: &String, needle: &String) -> (r: bool)
    ensures
        r == seq_contains_sub(hay@, needle@),
{
    let h = hay.as_str().unicode_len();
    let n = needle.as_str().unicode_len();
    if n > h {
        return false;
    }
    if n == 0 {
        assert(seq_contains_sub(hay@, needle@)) by {
            assert(hay@.subrange(0, 0 + needle@.len() as int) =~= needle@);
        }
        return true;
    }
    let mut i: usize = 0;
    while i <= h - n
        invariant
            h == hay@.len(),
            n == needle@.len(),
            0 < n <= h,
            i <= h - n + 1,
            forall|k: int|
                0 <= k < i ==> #[trigger] hay@.subrange(k, k + needle@.len()) != needle@,
        decreases h - i,
    {
        if match_at(hay, needle, i, h, n) {
            return true;
        }
        i = i + 1;
    }
    false
}

/// Prefix test: does `hay` start with `prefix`?
pub fn str_starts_with(hay: &String, prefix: &String) -> (r: bool)
    ensures
        r == seq_starts_with(hay@, prefix@),
{
    let h = hay.as_str().unicode_len();
    let n = prefix.as_str().unicode_len();
    if n > h {
        return false;
    }
    match_at(hay, prefix, 0, h, n)
}

/// A path has a hidden segment: some `.` stands at the start or right
/// after a separator.
pub open spec fn has_hidden_segment(p: Seq<char>) -> bool {
    exists|i: int| 0 <= i < p.len() && #[trigger] p[i] == '.' && (i == 0 || p[i - 1] == '/')
}

/// Does any segment of `path` start with a dot?
pub fn path_has_hidden_segment(path: &String) -> (r: bool)
    ensures
        r == has_hidden_segment(path@),
{
    let n = path.as_str().unicode_len();
    let mut i: usize = 0;
    while i < n
        invariant
            n == path@.len(),
            i <= n,
            forall|k: int| 0 <= k < i ==> !(#[trigger] path@[k] == '.' && (k == 0 || path@[k - 1] == '/')),
        decreases n - i,
    {
        let c = path.as_str().get_char(i);
        if c == '.' {
            if i == 0 {
                return true;
            }
            let prev = path.as_str().get_char(i - 1);
            if prev == '/' {
                return true;
            }
        }
        i = i + 1;
    }
    false
}

/// Index of the last occurrence of `c` in `p`, or `-1` if absent.
pub open spec fn last_index_of(p: Seq<char>, c: char) -> int
    decreases p.len(),
{
    if p.len() == 0 {
        -1
    } else if p[p.len() - 1] == c {
        p.len() - 1
    } else {
        last_index_of(p.drop_last(), c)
    }
}

proof fn lemma_last_index_bounds(p: Seq<char>, c: char)
    ensures
        -1 <= last_index_of(p, c) < p.len(),
        last_index_of(p, c) >= 0 ==> p[last_index_of(p, c)] == c,
        forall|j: int| last_index_of(p, c) < j < p.len() ==> p[j] != c,
    decreases p.len(),
{
    if p.len() > 0 && p[p.len() - 1] != c {
        lemma_last_index_bounds(p.drop_last(), c);
        assert(forall|j: int| 0 <= j < p.len() - 1 ==> p.drop_last()[j] == p[j]);
    }
}

/// Finds the last occurrence of `c`, scanning from the end.
pub fn find_last(s: &String, c: char) -> (r: Option<usize>)
    ensures
        match r {
            Some(i) => last_index_of(s@, c) == i as int,
            None => last_index_of(s@, c) == -1,
        },
{
    let n = s.as_str().unicode_len();
    let mut i: usize = n;
    assert(s@.take(n as int) =~= s@);
    while i > 0
        invariant
            n == s@.len(),
            i <= n,
            last_index_of(s@, c) == last_index_of(s@.take(i as int), c),
        decreases i,
    {
        let ch = s.as_str().get_char(i - 1);
        proof {
            assert(s@.take(i as int)[i - 1] == s@[i - 1]);
            assert(s@.take(i as int).drop_last() =~= s@.take(i - 1));
        }
        if ch == c {
            return Some(i - 1);
        }
        i = i - 1;
    }
    assert(s@.take(0).len() == 0);
    None
}

/// The final path component: everything after the last separator.
pub open spec fn basename_of(p: Seq<char>) -> Seq<char> {
    p.subrange(last_index_of(p, '/') + 1, p.len() as int)
}

/// The parent prefix: everything before the last separator, empty when the
/// path has no separator.
pub open spec fn parent_of(p: Seq<char>) -> Seq<char> {
    if last_index_of(p, '/') < 0 {
        Seq::empty()
    } else {
        p.subrange(0, last_index_of(p, '/'))
    }
}

/// Returns the final path component of `path`.
pub fn basename(path: &String) -> (r: String)
    ensures
        r@ == basename_of(path@),
{
    proof {
        lemma_last_index_bounds(path@, '/');
    }
    let n = path.as_str().unicode_len();
    match find_last(path, '/') {
        Some(i) => path.as_str().substring_char(i + 1, n).to_owned(),
        None => {
            let r = path.as_str().substring_char(0, n).to_owned();
            assert(r@ =~= basename_of(path@));
            r
        },
    }
}

/// Returns the parent prefix of `path`.
pub fn parent_path(path: &String) -> (r: String)
    ensures
        r@ == parent_of(path@),
{
    proof {
        lemma_last_index_bounds(path@, '/');
    }
    match find_last(path, '/') {
        Some(i) => path.as_str().substring_char(0, i).to_owned(),
        None => {
            let r = String::new();
            assert(r@ =~= parent_of(path@));
            r
        },
    }
}

/// The extension of a path: what follows the last dot of the basename,
/// empty when the basename has no dot or starts with its only dot.
pub open spec fn extension_of(p: Seq<char>) -> Seq<char> {
    let b = basename_of(p);
    let d = last_index_of(b, '.');
    if d <= 0 {
        Seq::empty()
    } else {
        b.subrange(d + 1, b.len() as int)
    }
}

/// Returns the extension of `path`.
pub fn extension(path: &String) -> (r: String)
    ensures
        r@ == extension_of(path@),
{
    let base = basename(path);
    proof {
        lemma_last_index_bounds(base@, '.');
    }
    let n = base.as_str().unicode_len();
    match find_last(&base, '.') {
        Some(i) => {
            if i == 0 {
                let r = String::new();
                assert(r@ =~= extension_of(path@));
                r
            } else {
                base.as_str().substring_char(i + 1, n).to_owned()
            }
        },
        None => {
            let r = String::new();
            assert(r@ =~= extension_of(path@));
            r
        },
    }
}

/// `s` ends with `suf`.
pub open spec fn seq_ends_with(h: Seq<char>, suf: Seq<char>) -> bool {
    suf.len() <= h.len() && h.subrange(h.len() - suf.len(), h.len() as int) == suf
}

/// Suffix test: does `hay` end with `suffix`?
pub fn str_ends_with(hay: &String, suffix: &String) -> (r: bool)
    ensures
        r == seq_ends_with(hay@, suffix@),
{
    let h = hay.as_str().unicode_len();
    let n = suffix.as_str().unicode_len();
    if n > h {
        return false;
    }
    match_at(hay, suffix, h - n, h, n)
}

/// Lowercases one ASCII capital letter; every other character is kept.
pub open spec fn spec_lower_char(c: char) -> char {
    if c == 'A' {
        'a'
    } else if c == 'B' {
        'b'
    } else if c == 'C' {
        'c'
    } else if c == 'D' {
        'd'
    } else if c == 'E' {
        'e'
    } else if c == 'F' {
        'f'
    } else if c == 'G' {
        'g'
    } else if c == 'H' {
        'h'
    } else if c == 'I' {
        'i'
    } else if c == 'J' {
        'j'
    } else if c == 'K' {
        'k'
    } else if c == 'L' {
        'l'
    } else if c == 'M' {
        'm'
    } else if c == 'N' {
        'n'
    } else if c == 'O' {
        'o'
    } else if c == 'P' {
        'p'
    } else if c == 'Q' {
        'q'
    } else if c == 'R' {
        'r'
    } else if c == 'S' {
        's'
    } else if c == 'T' {
        't'
    } else if c == 'U' {
        'u'
    } else if c == 'V' {
        'v'
    } else if c == 'W' {
        'w'
    } else if c == 'X' {
        'x'
    } else if c == 'Y' {
        'y'
    } else if c == 'Z' {
        'z'
    } else {
        c
    }
}

/// Lowercases one character as the rule above says.
pub fn lower_char(c: char) -> (r: char)
    ensures
        r == spec_lower_char(c),
{
    match c {
        'A' => 'a',
        'B' => 'b',
        'C' => 'c',
        'D' => 'd',
        'E' => 'e',
        'F' => 'f',
        'G' => 'g',
        'H' => 'h',
        'I' => 'i',
        'J' => 'j',
        'K' => 'k',
        'L' => 'l',
        'M' => 'm',
        'N' => 'n',
        'O' => 'o',
        'P' => 'p',
        'Q' => 'q',
        'R' => 'r',
        'S' => 's',
        'T' => 't',
        'U' => 'u',
        'V' => 'v',
        'W' => 'w',
        'X' => 'x',
        'Y' => 'y',
        'Z' => 'z',
        _ => c,
    }
}

/// The ASCII-lowercased character sequence.
pub open spec fn spec_ascii_lower(s: Seq<char>) -> Seq<char> {
    s.map_values(|c: char| spec_lower_char(c))
}

/// Does `s`, ASCII-lowercased, equal the already-lowercase `pat`?
pub fn eq_lowercase(s: &String, pat: &String) -> (r: bool)
    ensures
        r == (spec_ascii_lower(s@) == pat@),
{
    let n = s.as_str().unicode_len();
    let m = pat.as_str().unicode_len();
    if n != m {
        assert(spec_ascii_lower(s@).len() == s@.len());
        return false;
    }
    let mut i: usize = 0;
    while i < n
        invariant
            n == s@.len(),
            n == pat@.len(),
            i <= n,
            forall|k: int| 0 <= k < i ==> spec_lower_char(#[trigger] s@[k]) == pat@[k],
        decreases n - i,
    {
        let c = lower_char(s.as_str().get_char(i));
        let pc = pat.as_str().get_char(i);
        if c != pc {
            assert(spec_ascii_lower(s@)[i as int] == spec_lower_char(s@[i as int]));
            return false;
        }
        i = i + 1;
    }
    assert(spec_ascii_lower(s@) =~= pat@);
    true
}

/// Number of occurrences of `c` in `s`.
pub open spec fn count_char(s: Seq<char>, c: char) -> nat
    decreases s.len(),
{
    if s.len() == 0 {
        0
    } else {
        count_char(s.drop_last(), c) + (if s[s.len() - 1] == c {
            1nat
        } else {
            0nat
        })
    }
}

proof fn lemma_count_char_le_len(s: Seq<char>, c: char)
    ensures
        count_char(s, c) <= s.len(),
    decreases s.len(),
{
    if s.len() > 0 {
        lemma_count_char_le_len(s.drop_last(), c);
    }
}

/// Number of display lines of a text: one per newline, plus a final
/// unterminated line when the text does not end in a newline.
pub open spec fn line_count(s: Seq<char>) -> nat {
    count_char(s, '\n') + (if s.len() > 0 && s[s.len() - 1] != '\n' {
        1nat
    } else {
        0nat
    })
}

/// Counts the lines of `content`.
pub fn count_lines(content: &String) -> (r: usize)
    ensures
        r as nat == line_count(content@),
{
    let n = content.as_str().unicode_len();
    let mut i: usize = 0;
    let mut cnt: usize = 0;
    while i < n
        invariant
            n == content@.len(),
            i <= n,
            cnt as nat == count_char(content@.take(i as int), '\n'),
            cnt <= i,
        decreases n - i,
    {
        let c = content.as_str().get_char(i);
        proof {
            assert(content@.take(i + 1).drop_last() =~= content@.take(i as int));
            assert(content@.take(i + 1)[i as int] == content@[i as int]);
            lemma_count_char_le_len(content@.take(i + 1), '\n');
        }
        if c == '\n' {
            cnt = cnt + 1;
        }
        i = i + 1;
    }
    assert(content@.take(n as int) =~= content@);
    if n > 0 {
        let last = content.as_str().get_char(n - 1);
        if last != '\n' {
            proof {
                lemma_count_char_le_len(content@.drop_last(), '\n');
            }
            return cnt + 1;
        }
    }
    cnt
}

/// Concatenation of two string slices.
pub fn concat2(a: &str, b: &str) -> (r: String)
    ensures
        r@ == a@ + b@,
{
    let mut s = a.to_owned();
    s.append(b);
    s
}

/// Concatenation of three string slices.
pub fn concat3(a: &str, b: &str, c: &str) -> (r: String)
    ensures
        r@ == a@ + b@ + c@,
{
    let mut s = a.to_owned();
    s.append(b);
    s.append(c);
    s
}

} // verus!
