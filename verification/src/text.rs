//! Verified string helpers: equality, lexicographic comparison, substring
//! search, suffix tests, and the path-shaped pieces (base name, extension)
//! the rest of the crate builds on. Paths are modelled as `/`-separated
//! character sequences.

use vstd::prelude::*;
use vstd::string::{StrSliceExecFns, StringExecFns, StringSliceAdditionalSpecFns};

verus! {

broadcast use vstd::utf8::encode_utf8_decode_utf8;

/// `a` sorts strictly after `b` byte-wise, the first `i` positions being
/// equal.
pub open spec fn lex_gt_from(a: Seq<u8>, b: Seq<u8>, i: int) -> bool
    decreases a.len() - i,
{
    if i >= b.len() {
        i < a.len()
    } else if i >= a.len() {
        false
    } else if a[i] == b[i] {
        lex_gt_from(a, b, i + 1)
    } else {
        a[i] > b[i]
    }
}

/// `a` sorts strictly after `b` in byte-wise lexicographic order — the
/// order `>` on Rust strings uses. For RFC3339 timestamps of equal shape it
/// coincides with chronological order.
pub open spec fn lex_gt(a: Seq<u8>, b: Seq<u8>) -> bool {
    lex_gt_from(a, b, 0)
}

/// Mirror of `lex_gt_from` over byte slices.
fn lex_gt_bytes_from(a: &[u8], b: &[u8], i: usize) -> (r: bool)
    requires
        i <= a@.len(),
        i <= b@.len(),
    ensures
        r == lex_gt_from(a@, b@, i as int),
    decreases a@.len() - i,
{
    if i >= b.len() {
        i < a.len()
    } else if i >= a.len() {
        false
    } else {
        let x = *vstd::slice::slice_index_get(a, i);
        let y = *vstd::slice::slice_index_get(b, i);
        if x == y {
            lex_gt_bytes_from(a, b, i + 1)
        } else {
            x > y
        }
    }
}

/// Byte-wise lexicographic `>` on strings.
pub fn str_lex_gt(a: &str, b: &str) -> (r: bool)
    ensures
        r == lex_gt(a.spec_bytes(), b.spec_bytes()),
{
    lex_gt_bytes_from(a.as_bytes(), b.as_bytes(), 0)
}

/// Mirror of byte-sequence equality over slices.
fn bytes_eq(a: &[u8], b: &[u8]) -> (r: bool)
    ensures
        r == (a@ == b@),
{
    if a.len() != b.len() {
        return false;
    }
    let mut i: usize = 0;
    while i < a.len()
        invariant
            a@.len() == b@.len(),
            i <= a@.len(),
            forall|j: int| 0 <= j < i ==> a@[j] == b@[j],
        decreases a@.len() - i,
    {
        if *vstd::slice::slice_index_get(a, i) != *vstd::slice::slice_index_get(b, i) {
            return false;
        }
        i = i + 1;
    }
    proof {
        assert(a@ =~= b@);
    }
    true
}

/// Character-for-character string equality.
pub fn str_eq(a: &str, b: &str) -> (r: bool)
    ensures
        r == (a@ == b@),
{
    let r = bytes_eq(a.as_bytes(), b.as_bytes());
    proof {
        if a.spec_bytes() == b.spec_bytes() {
            assert(vstd::utf8::decode_utf8(vstd::utf8::encode_utf8(a@)) == a@);
            assert(vstd::utf8::decode_utf8(vstd::utf8::encode_utf8(b@)) == b@);
        }
    }
    r
}

/// `needle` occurs in `hay` starting at position `i`.
pub open spec fn matches_at(hay: Seq<char>, needle: Seq<char>, i: int) -> bool {
    0 <= i && i + needle.len() <= hay.len() && hay.subrange(i, i + needle.len()) == needle
}

/// `needle` occurs somewhere in `hay`.
pub open spec fn contains_sub(hay: Seq<char>, needle: Seq<char>) -> bool {
    exists|i: int| matches_at(hay, needle, i)
}

/// Check one candidate position of `needle` in `hay`.
fn matches_at_exec(hay: &str, hay_len: usize, needle: &str, needle_len: usize, i: usize) -> (r:
    bool)
    requires
        hay_len == hay@.len(),
        needle_len == needle@.len(),
        i + needle_len <= hay_len,
    ensures
        r == matches_at(hay@, needle@, i as int),
{
    let mut j: usize = 0;
    while j < needle_len
        invariant
            hay_len == hay@.len(),
            needle_len == needle@.len(),
            i + needle_len <= hay_len,
            j <= needle_len,
            forall|k: int| 0 <= k < j ==> hay@[i + k] == needle@[k],
        decreases needle_len - j,
    {
        if hay.get_char(i + j) != needle.get_char(j) {
            proof {
                if matches_at(hay@, needle@, i as int) {
                    assert(hay@.subrange(i as int, i + needle@.len())[j as int] == needle@[
                    j as int]);
                }
            }
            return false;
        }
        j = j + 1;
    }
    proof {
        assert(hay@.subrange(i as int, i + needle@.len()) =~= needle@);
    }
    true
}

/// Substring search.
pub fn str_contains(hay: &str, needle: &str) -> (r: bool)
    ensures
        r == contains_sub(hay@, needle@),
{
    let hay_len = hay.unicode_len();
    let needle_len = needle.unicode_len();
    if needle_len > hay_len {
        return false;
    }
    if needle_len == 0 {
        proof {
            assert(hay@.subrange(0, 0) =~= needle@);
            assert(matches_at(hay@, needle@, 0));
        }
        return true;
    }
    let mut i: usize = 0;
    while i <= hay_len - needle_len
        invariant
            hay_len == hay@.len(),
            needle_len == needle@.len(),
            1 <= needle_len <= hay_len,
            i <= hay_len - needle_len + 1,
            forall|k: int| 0 <= k < i ==> !matches_at(hay@, needle@, k),
        decreases hay_len - needle_len - i + 1,
    {
        if matches_at_exec(hay, hay_len, needle, needle_len, i) {
            proof {
                assert(matches_at(hay@, needle@, i as int));
            }
            return true;
        }
        i = i + 1;
    }
    false
}

/// `suffix` closes `s`.
pub open spec fn ends_with(s: Seq<char>, suffix: Seq<char>) -> bool {
    suffix.len() <= s.len() && s.subrange(s.len() - suffix.len(), s.len() as int) == suffix
}

/// Suffix test.
pub fn str_ends_with(s: &str, suffix: &str) -> (r: bool)
    ensures
        r == ends_with(s@, suffix@),
{
    let s_len = s.unicode_len();
    let suffix_len = suffix.unicode_len();
    if suffix_len > s_len {
        return false;
    }
    matches_at_exec(s, s_len, suffix, suffix_len, s_len - suffix_len)
}

/// The last index below `i` where `c` occurs in `s`, or -1 when there is
/// none.
pub open spec fn last_before(s: Seq<char>, c: char, i: int) -> int
    decreases i,
{
    if i <= 0 {
        -1
    } else if s[i - 1] == c {
        i - 1
    } else {
        last_before(s, c, i - 1)
    }
}

/// Mirror of `last_before` over a string.
fn last_before_exec(s: &str, c: char, i: usize) -> (r: Option<usize>)
    requires
        i <= s@.len(),
    ensures
        r is None <==> last_before(s@, c, i as int) == -1,
        r matches Some(v) ==> v == last_before(s@, c, i as int) && v < i,
    decreases i,
{
    if i == 0 {
        None
    } else if s.get_char(i - 1) == c {
        Some(i - 1)
    } else {
        last_before_exec(s, c, i - 1)
    }
}

/// `last_before` stays within the scanned range.
pub proof fn lemma_last_before_bounds(s: Seq<char>, c: char, i: int)
    requires
        0 <= i,
    ensures
        -1 <= last_before(s, c, i) < i,
    decreases i,
{
    if i > 0 && s[i - 1] != c {
        lemma_last_before_bounds(s, c, i - 1);
    }
}

/// Past the last occurrence, `c` occurs no more.
pub proof fn lemma_last_before_after(s: Seq<char>, c: char, i: int)
    ensures
        forall|j: int| last_before(s, c, i) < j < i ==> s[j] != c,
    decreases i,
{
    if i > 0 && s[i - 1] != c {
        lemma_last_before_after(s, c, i - 1);
    }
}

/// The index of the last path separator in `p` — `/` or `\\`, as on the
/// platforms the save formats come from — or -1 when there is none.
pub open spec fn last_separator(p: Seq<char>) -> int {
    let slash = last_before(p, '/', p.len() as int);
    let backslash = last_before(p, '\\', p.len() as int);
    if slash >= backslash {
        slash
    } else {
        backslash
    }
}

/// Where the base file name starts: one past the last separator.
fn name_start(p: &str, len: usize) -> (r: usize)
    requires
        len == p@.len(),
    ensures
        r == last_separator(p@) + 1,
        r <= len,
{
    let slash: usize = match last_before_exec(p, '/', len) {
        Some(v) => v + 1,
        None => 0,
    };
    let backslash: usize = match last_before_exec(p, '\\', len) {
        Some(v) => v + 1,
        None => 0,
    };
    if slash >= backslash {
        slash
    } else {
        backslash
    }
}

/// The base file name of a path: the part after the last separator;
/// `None` when that part is empty, `.`, or `..`.
pub open spec fn base_name_of(p: Seq<char>) -> Option<Seq<char>> {
    let name = p.subrange(last_separator(p) + 1, p.len() as int);
    if name.len() == 0 || name == seq!['.'] || name == seq!['.', '.'] {
        None
    } else {
        Some(name)
    }
}

/// Extract the base file name of a path.
pub fn base_name(p: &str) -> (r: Option<String>)
    ensures
        r is Some <==> base_name_of(p@) is Some,
        r matches Some(v) ==> Some(v@) == base_name_of(p@),
{
    proof {
        reveal_strlit(".");
        reveal_strlit("..");
        assert("."@ =~= seq!['.']);
        assert(".."@ =~= seq!['.', '.']);
    }
    let len = p.unicode_len();
    let cut = name_start(p, len);
    let name = p.substring_char(cut, len);
    let name_len = name.unicode_len();
    if name_len == 0 {
        return None;
    }
    if str_eq(name, ".") || str_eq(name, "..") {
        return None;
    }
    Some(String::from_str(name))
}

/// The extension of a path: what follows the last dot of the base name,
/// unless the dot is absent or leads the name.
pub open spec fn extension_of(p: Seq<char>) -> Option<Seq<char>> {
    let name = p.subrange(last_separator(p) + 1, p.len() as int);
    let dot = last_before(name, '.', name.len() as int);
    if dot <= 0 {
        None
    } else {
        Some(name.subrange(dot + 1, name.len() as int))
    }
}

/// The path's extension is `zip`, in any letter case.
pub open spec fn has_zip_extension_spec(p: Seq<char>) -> bool {
    match extension_of(p) {
        None => false,
        Some(e) => e.len() == 3 && (e[0] == 'z' || e[0] == 'Z') && (e[1] == 'i' || e[1] == 'I')
            && (e[2] == 'p' || e[2] == 'P'),
    }
}

/// Case-insensitive test for a `zip` extension.
pub fn has_zip_extension(p: &str) -> (r: bool)
    ensures
        r == has_zip_extension_spec(p@),
{
    let len = p.unicode_len();
    let cut = name_start(p, len);
    let name = p.substring_char(cut, len);
    let name_len = name.unicode_len();
    let dot: usize = match last_before_exec(name, '.', name_len) {
        Some(v) => v,
        None => {
            return false;
        },
    };
    if dot == 0 {
        return false;
    }
    if name_len - dot - 1 != 3 {
        return false;
    }
    let c0 = name.get_char(dot + 1);
    let c1 = name.get_char(dot + 2);
    let c2 = name.get_char(dot + 3);
    (c0 == 'z' || c0 == 'Z') && (c1 == 'i' || c1 == 'I') && (c2 == 'p' || c2 == 'P')
}

/// Whether the path has an extension at all.
pub fn has_extension(p: &str) -> (r: bool)
    ensures
        r == (extension_of(p@) is Some),
{
    let len = p.unicode_len();
    let cut = name_start(p, len);
    let name = p.substring_char(cut, len);
    let name_len = name.unicode_len();
    match last_before_exec(name, '.', name_len) {
        Some(v) => v > 0,
        None => false,
    }
}

/// The stem a converted save file is named after: the base name up to its
/// last dot (the whole name when the dot is absent or leads it), or
/// `converted` for a path without a usable base name.
pub open spec fn input_stem_of(p: Seq<char>) -> Seq<char> {
    match base_name_of(p) {
        None => "converted"@,
        Some(name) => {
            let dot = last_before(name, '.', name.len() as int);
            if dot <= 0 {
                name
            } else {
                name.subrange(0, dot)
            }
        },
    }
}

/// The output stem for a converted save file.
pub fn get_input_filename(input_path: &str) -> (r: String)
    ensures
        r@ == input_stem_of(input_path@),
{
    match base_name(input_path) {
        None => "converted".to_owned(),
        Some(name) => {
            let name_len = name.as_str().unicode_len();
            let dot_opt = last_before_exec(name.as_str(), '.', name_len);
            match dot_opt {
                Some(dot) => {
                    if dot > 0 {
                        String::from_str(name.as_str().substring_char(0, dot))
                    } else {
                        name
                    }
                },
                None => name,
            }
        },
    }
}

} // verus!
