//! A model of the path operations the supervisor performs, for Unix paths
//! (`/` separators, a leading `/` as root) and Windows paths (`/` or `\`
//! separators, `X:` drive prefixes and `\\server\share` prefixes).

use vstd::prelude::*;
use vstd::string::*;

verus! {

/// The path conventions of the platform.
#[derive(Debug, Clone, Copy, PartialEq, Eq, Structural)]
pub enum PathStyle {
    Unix,
    Windows,
}

/// Whether `c` separates path components.
pub open spec fn is_sep(style: PathStyle, c: char) -> bool {
    c == '/' || (style == PathStyle::Windows && c == '\\')
}

/// The separator inserted between joined components.
pub open spec fn main_sep(style: PathStyle) -> char {
    match style {
        PathStyle::Unix => '/',
        PathStyle::Windows => '\\',
    }
}

pub open spec fn is_drive_letter(c: char) -> bool {
    ('a' <= c <= 'z') || ('A' <= c <= 'Z')
}

/// The path starts with a drive, `X:`.
pub open spec fn has_drive(p: Seq<char>) -> bool {
    p.len() >= 2 && is_drive_letter(p[0]) && p[1] == ':'
}

/// Position of the first Windows separator in `p` at or after `i`, or `p.len()`.
pub open spec fn sep_from(p: Seq<char>, i: nat) -> nat
    decreases p.len() - i,
{
    if i >= p.len() {
        p.len()
    } else if is_sep(PathStyle::Windows, p[i as int]) {
        i
    } else {
        sep_from(p, i + 1)
    }
}

/// The length of a `\\server\share` prefix (both names non-empty), or 0.
pub open spec fn unc_prefix_len(p: Seq<char>) -> nat {
    if p.len() >= 2 && is_sep(PathStyle::Windows, p[0]) && is_sep(PathStyle::Windows, p[1]) {
        let a = sep_from(p, 2);
        if a > 2 && a < p.len() {
            let b = sep_from(p, a + 1);
            if b > a + 1 {
                b
            } else {
                0
            }
        } else {
            0
        }
    } else {
        0
    }
}

/// The length of the path's prefix: a drive or a `\\server\share` on
/// Windows; Unix paths have none.
pub open spec fn prefix_len(style: PathStyle, p: Seq<char>) -> nat {
    match style {
        PathStyle::Unix => 0,
        PathStyle::Windows => if has_drive(p) {
            2
        } else {
            unc_prefix_len(p)
        },
    }
}

/// A path is absolute when it starts at the root: on Unix with `/`; on
/// Windows with a drive followed by a separator, or with a `\\server\share`
/// prefix.
pub open spec fn spec_is_absolute(style: PathStyle, p: Seq<char>) -> bool {
    match style {
        PathStyle::Unix => p.len() > 0 && p[0] == '/',
        PathStyle::Windows => if has_drive(p) {
            p.len() > 2 && is_sep(style, p[2])
        } else {
            unc_prefix_len(p) > 0
        },
    }
}

/// Appending `p` to `base`, as a path buffer push does it: an absolute `p`,
/// or one with a prefix, replaces `base`; a `p` that starts at the root keeps
/// only the prefix of `base`; otherwise the separator is inserted unless
/// `base` is empty, ends with a separator or is a bare drive.
pub open spec fn spec_push_path(style: PathStyle, base: Seq<char>, p: Seq<char>) -> Seq<char> {
    if spec_is_absolute(style, p) || prefix_len(style, p) > 0 {
        p
    } else if p.len() > 0 && is_sep(style, p[0]) {
        base.take(prefix_len(style, base) as int) + p
    } else if base.len() == 0 || is_sep(style, base.last()) || (style == PathStyle::Windows
        && has_drive(base) && base.len() == 2) {
        base + p
    } else {
        base + seq![main_sep(style)] + p
    }
}

/// A joined path always ends with the part that was appended.
pub proof fn lemma_push_path_ends_with(style: PathStyle, base: Seq<char>, p: Seq<char>)
    ensures
        spec_push_path(style, base, p).len() >= p.len(),
        spec_push_path(style, base, p).subrange(
            spec_push_path(style, base, p).len() - p.len(),
            spec_push_path(style, base, p).len() as int,
        ) == p,
{
    let r = spec_push_path(style, base, p);
    lemma_prefix_len_bound(style, base);
    assert(r.subrange(r.len() - p.len(), r.len() as int) =~= p);
}

/// Copies the characters of a string slice into a vector.
pub fn chars_of(s: &str) -> (r: Vec<char>)
    ensures
        r@ == s@,
{
    let n = s.unicode_len();
    let mut r: Vec<char> = Vec::new();
    let mut i: usize = 0;
    while i < n
        invariant
            n == s@.len(),
            i <= n,
            r@ == s@.subrange(0, i as int),
        decreases n - i,
    {
        let c = s.get_char(i);
        r.push(c);
        i = i + 1;
    }
    assert(r@ =~= s@);
    r
}

fn is_sep_char(style: PathStyle, c: char) -> (r: bool)
    ensures
        r == is_sep(style, c),
{
    c == '/' || (style == PathStyle::Windows && c == '\\')
}

fn has_drive_chars(p: &Vec<char>) -> (r: bool)
    ensures
        r == has_drive(p@),
{
    p.len() >= 2 && (('a' <= p[0] && p[0] <= 'z') || ('A' <= p[0] && p[0] <= 'Z')) && p[1] == ':'
}

fn sep_from_chars(p: &Vec<char>, i: usize) -> (r: usize)
    requires
        i <= p@.len(),
    ensures
        r == sep_from(p@, i as nat),
        i <= r <= p@.len(),
{
    let n = p.len();
    let mut j: usize = i;
    while j < n && !is_sep_char(PathStyle::Windows, p[j])
        invariant
            n == p@.len(),
            i <= j <= n,
            sep_from(p@, i as nat) == sep_from(p@, j as nat),
        decreases n - j,
    {
        j = j + 1;
    }
    j
}

fn unc_prefix_len_chars(p: &Vec<char>) -> (r: usize)
    ensures
        r == unc_prefix_len(p@),
{
    let n = p.len();
    if n >= 2 && is_sep_char(PathStyle::Windows, p[0]) && is_sep_char(PathStyle::Windows, p[1]) {
        let a = sep_from_chars(p, 2);
        if a > 2 && a < n {
            let b = sep_from_chars(p, a + 1);
            if b > a + 1 {
                b
            } else {
                0
            }
        } else {
            0
        }
    } else {
        0
    }
}

fn prefix_len_chars(style: PathStyle, p: &Vec<char>) -> (r: usize)
    ensures
        r == prefix_len(style, p@),
        r <= p@.len(),
{
    match style {
        PathStyle::Unix => 0,
        PathStyle::Windows => if has_drive_chars(p) {
            2
        } else {
            let k = unc_prefix_len_chars(p);
            proof {
                lemma_prefix_len_bound(style, p@);
            }
            k
        },
    }
}

/// A path's prefix lies within the path.
pub proof fn lemma_prefix_len_bound(style: PathStyle, p: Seq<char>)
    ensures
        prefix_len(style, p) <= p.len(),
{
    if p.len() >= 2 && is_sep(PathStyle::Windows, p[0]) && is_sep(PathStyle::Windows, p[1]) {
        lemma_sep_from_bound(p, 2);
        let a = sep_from(p, 2);
        if a > 2 && a < p.len() {
            lemma_sep_from_bound(p, a + 1);
        }
    }
}

proof fn lemma_sep_from_bound(p: Seq<char>, i: nat)
    requires
        i <= p.len(),
    ensures
        i <= sep_from(p, i) <= p.len(),
    decreases p.len() - i,
{
    if i < p.len() && !is_sep(PathStyle::Windows, p[i as int]) {
        lemma_sep_from_bound(p, i + 1);
    }
}

fn is_absolute_chars(style: PathStyle, p: &Vec<char>) -> (r: bool)
    ensures
        r == spec_is_absolute(style, p@),
{
    match style {
        PathStyle::Unix => p.len() > 0 && p[0] == '/',
        PathStyle::Windows => if has_drive_chars(p) {
            p.len() > 2 && is_sep_char(style, p[2])
        } else {
            unc_prefix_len_chars(p) > 0
        },
    }
}

/// Whether the path is absolute.
pub fn is_absolute(style: PathStyle, p: &str) -> (r: bool)
    ensures
        r == spec_is_absolute(style, p@),
{
    let cs = chars_of(p);
    is_absolute_chars(style, &cs)
}

/// `base` joined with `p`, as a path buffer push does it.
pub fn push_path(style: PathStyle, base: &str, p: &str) -> (r: String)
    ensures
        r@ == spec_push_path(style, base@, p@),
{
    let pc = chars_of(p);
    if is_absolute_chars(style, &pc) || prefix_len_chars(style, &pc) > 0 {
        return p.to_string();
    }
    let bc = chars_of(base);
    if pc.len() > 0 && is_sep_char(style, pc[0]) {
        let k = prefix_len_chars(style, &bc);
        let mut r = base.substring_char(0, k).to_string();
        assert(base@.subrange(0, k as int) =~= base@.take(k as int));
        r.append(p);
        return r;
    }
    let n = bc.len();
    let mut r = base.to_string();
    if n != 0 && !is_sep_char(style, bc[n - 1]) && !(style == PathStyle::Windows && has_drive_chars(&bc)
        && n == 2) {
        assert(bc@.last() == base@.last());
        r.append(main_sep_str(style));
    }
    r.append(p);
    r
}

/// The separator of the platform as text.
pub fn main_sep_str(style: PathStyle) -> (r: &'static str)
    ensures
        r@ == seq![main_sep(style)],
{
    match style {
        PathStyle::Unix => {
            proof {
                reveal_strlit("/");
                assert("/"@ =~= seq![main_sep(style)]);
            }
            "/"
        },
        PathStyle::Windows => {
            proof {
                reveal_strlit("\\");
                assert("\\"@ =~= seq![main_sep(style)]);
            }
            "\\"
        },
    }
}

} // verus!
