//! File paths as text.
//!
//! Paths of files are written with `/` between their components, which every platform
//! takes as a separator. A command that the user wrote may also name its program as
//! its platform does; [`program_name`] reads that.

use vstd::prelude::*;
use vstd::string::StrSliceExecFns;
use vstd::string::StringExecFns;

use crate::models::Platform;
use crate::split;
use crate::text;
use crate::text::{chars_of, str_eq, string_of};

verus! {

/// Whether the path starts at the root.
pub open spec fn is_rooted(p: Seq<char>) -> bool {
    p.len() > 0 && p[0] == '/'
}

/// `base` extended by `rest`; a rooted `rest` replaces `base`.
pub open spec fn extended(base: Seq<char>, rest: Seq<char>) -> Seq<char> {
    if is_rooted(rest) {
        rest
    } else if base.len() > 0 && base.last() != '/' {
        base.push('/') + rest
    } else {
        base + rest
    }
}

/// `base` extended by `rest`; a rooted `rest` replaces `base`.
pub fn join(base: &str, rest: &str) -> (r: String)
    ensures
        r@ == extended(base@, rest@),
{
    if text::starts_with_char(rest, '/') {
        return rest.to_owned();
    }
    let n: usize = base.unicode_len();
    let mut out = base.to_owned();
    if n > 0 && base.get_char(n - 1) != '/' {
        out.push('/');
    }
    out.append(rest);
    out
}

/// The path without trailing separators and trailing `.` components; the root,
/// and a `.` that begins the path, stay.
pub open spec fn tail_trimmed(p: Seq<char>) -> Seq<char>
    decreases p.len(),
{
    if p.len() >= 2 && (p.last() == '/' || (p.last() == '.' && p[p.len() - 2] == '/')) {
        tail_trimmed(p.drop_last())
    } else {
        p
    }
}

/// Where the last component of `p` begins: after its last separator.
pub open spec fn last_start(p: Seq<char>) -> int
    decreases p.len(),
{
    if p.len() == 0 || p.last() == '/' {
        p.len() as int
    } else {
        last_start(p.drop_last())
    }
}

/// The path without its last component; none of the root and of the empty path.
pub open spec fn parent_of(p: Seq<char>) -> Option<Seq<char>> {
    let t = tail_trimmed(p);
    if t.len() == 0 || t == seq!['/'] {
        None
    } else {
        Some(tail_trimmed(t.take(last_start(t))))
    }
}

/// The last component of the path, unless that is the root, `.` or `..`.
pub open spec fn file_name_of(p: Seq<char>) -> Option<Seq<char>> {
    let t = tail_trimmed(p);
    let last = t.skip(last_start(t));
    if last.len() == 0 || last == seq!['.'] || last == seq!['.', '.'] {
        None
    } else {
        Some(last)
    }
}

/// The index of the last `.` of a file name, if there is one after its start.
pub open spec fn dot_index(f: Seq<char>) -> Option<int>
    decreases f.len(),
{
    if f.len() <= 1 {
        None
    } else if f.last() == '.' {
        Some(f.len() - 1)
    } else {
        dot_index(f.drop_last())
    }
}

/// The file name up to its last `.`.
pub open spec fn stem_of(p: Seq<char>) -> Option<Seq<char>> {
    match file_name_of(p) {
        None => None,
        Some(f) => match dot_index(f) {
            None => Some(f),
            Some(i) => Some(f.take(i)),
        },
    }
}

/// What follows the last `.` of the file name.
pub open spec fn extension_of(p: Seq<char>) -> Option<Seq<char>> {
    match file_name_of(p) {
        None => None,
        Some(f) => match dot_index(f) {
            None => None,
            Some(i) => Some(f.skip(i + 1)),
        },
    }
}

/// The last component of the path, or the empty text where it has none.
pub open spec fn base_name(p: Seq<char>) -> Seq<char> {
    match file_name_of(p) {
        Some(f) => f,
        None => Seq::<char>::empty(),
    }
}

/// The file name up to its last `.`, or the empty text where there is none.
pub open spec fn stem_or_empty(p: Seq<char>) -> Seq<char> {
    match stem_of(p) {
        Some(f) => f,
        None => Seq::<char>::empty(),
    }
}

pub proof fn lemma_last_start(p: Seq<char>)
    ensures
        0 <= last_start(p) <= p.len(),
        last_start(p) > 0 ==> p[last_start(p) - 1] == '/',
        forall|i: int| last_start(p) <= i < p.len() ==> p[i] != '/',
    decreases p.len(),
{
    if p.len() > 0 && p.last() != '/' {
        lemma_last_start(p.drop_last());
        assert forall|i: int| last_start(p) <= i < p.len() implies p[i] != '/' by {
            if i < p.len() - 1 {
                assert(p.drop_last()[i] == p[i]);
            }
        }
    }
}

pub proof fn lemma_tail_trimmed_len(p: Seq<char>)
    ensures
        tail_trimmed(p).len() <= p.len(),
    decreases p.len(),
{
    if p.len() >= 2 && (p.last() == '/' || (p.last() == '.' && p[p.len() - 2] == '/')) {
        lemma_tail_trimmed_len(p.drop_last());
    }
}

/// A parent is shorter than the path, so that walking up ends.
pub proof fn lemma_parent_shorter(p: Seq<char>)
    ensures
        parent_of(p) matches Some(q) ==> q.len() < p.len(),
{
    lemma_tail_trimmed_len(p);
    let t = tail_trimmed(p);
    lemma_last_start(t);
    lemma_tail_trimmed_stable(p);
    if parent_of(p) is Some {
        lemma_tail_trimmed_len(t.take(last_start(t)));
        if last_start(t) == t.len() {
            assert(t.last() == '/');
            if t.len() == 1 {
                assert(t =~= seq!['/']);
            }
        }
    }
}

proof fn lemma_tail_trimmed_stable(p: Seq<char>)
    ensures
        ({
            let t = tail_trimmed(p);
            !(t.len() >= 2 && (t.last() == '/' || (t.last() == '.' && t[t.len() - 2] == '/')))
        }),
    decreases p.len(),
{
    if p.len() >= 2 && (p.last() == '/' || (p.last() == '.' && p[p.len() - 2] == '/')) {
        lemma_tail_trimmed_stable(p.drop_last());
    }
}

/// The length of the path without its trailing separators and `.` components.
fn trim_tail(cs: &Vec<char>, end: usize) -> (r: usize)
    requires
        end <= cs.len(),
    ensures
        r <= end,
        cs@.take(r as int) == tail_trimmed(cs@.take(end as int)),
{
    let mut n: usize = end;
    while n >= 2 && (cs[n - 1] == '/' || (cs[n - 1] == '.' && cs[n - 2] == '/'))
        invariant
            n <= end <= cs.len(),
            tail_trimmed(cs@.take(n as int)) == tail_trimmed(cs@.take(end as int)),
        decreases n,
    {
        assert(cs@.take(n as int).drop_last() =~= cs@.take(n - 1));
        n -= 1;
    }
    n
}

/// Where the last component of `cs[..end]` begins.
fn find_last_start(cs: &Vec<char>, end: usize) -> (r: usize)
    requires
        end <= cs.len(),
    ensures
        r == last_start(cs@.take(end as int)),
        r <= end,
{
    let mut n: usize = end;
    while n > 0 && cs[n - 1] != '/'
        invariant
            n <= end <= cs.len(),
            last_start(cs@.take(n as int)) == last_start(cs@.take(end as int)),
        decreases n,
    {
        assert(cs@.take(n as int).drop_last() =~= cs@.take(n - 1));
        n -= 1;
    }
    n
}

/// The path without its last component; none of the root and of the empty path.
pub fn parent(p: &str) -> (r: Option<String>)
    ensures
        text::ostr(r) == parent_of(p@),
{
    let cs = chars_of(p);
    assert(cs@.take(cs.len() as int) =~= p@);
    let n: usize = trim_tail(&cs, cs.len());
    let ghost t = cs@.take(n as int);
    if n == 0 {
        return None;
    }
    if n == 1 && cs[0] == '/' {
        assert(t =~= seq!['/']);
        return None;
    }
    let i: usize = find_last_start(&cs, n);
    assert(t.take(i as int) =~= cs@.take(i as int));
    let m: usize = trim_tail(&cs, i);
    assert(cs@.subrange(0, m as int) =~= cs@.take(m as int));
    proof {
        if t == seq!['/'] {
            assert(t[0] == '/');
        }
    }
    Some(string_of(&cs, 0, m))
}

/// The last component of the path, unless that is the root, `.` or `..`.
pub fn file_name(p: &str) -> (r: Option<String>)
    ensures
        text::ostr(r) == file_name_of(p@),
{
    let cs = chars_of(p);
    assert(cs@.take(cs.len() as int) =~= p@);
    let n: usize = trim_tail(&cs, cs.len());
    let ghost t = cs@.take(n as int);
    let i: usize = find_last_start(&cs, n);
    let name = string_of(&cs, i, n);
    assert(cs@.subrange(i as int, n as int) =~= t.skip(i as int));
    proof {
        reveal_strlit(".");
        reveal_strlit("..");
        assert("."@ =~= seq!['.']);
        assert(".."@ =~= seq!['.', '.']);
    }
    if n == i || str_eq(&name, ".") || str_eq(&name, "..") {
        None
    } else {
        Some(name)
    }
}

/// The last component of the path, or the empty text where it has none.
pub fn file_name_or_empty(p: &str) -> (r: String)
    ensures
        r@ == base_name(p@),
{
    match file_name(p) {
        Some(f) => f,
        None => String::new(),
    }
}

/// The index of the last `.` of a file name, if there is one after its start.
fn find_dot(cs: &Vec<char>) -> (r: Option<usize>)
    ensures
        match r {
            Some(i) => dot_index(cs@) == Some(i as int) && i < cs.len(),
            None => dot_index(cs@) is None,
        },
{
    let mut n: usize = cs.len();
    assert(cs@.take(n as int) =~= cs@);
    while n > 1
        invariant
            n <= cs.len(),
            dot_index(cs@.take(n as int)) == dot_index(cs@),
        decreases n,
    {
        if cs[n - 1] == '.' {
            return Some(n - 1);
        }
        assert(cs@.take(n as int).drop_last() =~= cs@.take(n - 1));
        n -= 1;
    }
    None
}

/// The file name up to its last `.`.
pub fn file_stem(p: &str) -> (r: Option<String>)
    ensures
        text::ostr(r) == stem_of(p@),
{
    match file_name(p) {
        None => None,
        Some(f) => {
            let cs = chars_of(&f);
            match find_dot(&cs) {
                None => Some(f),
                Some(i) => {
                    assert(cs@.subrange(0, i as int) =~= cs@.take(i as int));
                    Some(string_of(&cs, 0, i))
                },
            }
        },
    }
}

/// The file name up to its last `.`, or the empty text where there is none.
pub fn file_stem_or_empty(p: &str) -> (r: String)
    ensures
        r@ == stem_or_empty(p@),
{
    match file_stem(p) {
        Some(f) => f,
        None => String::new(),
    }
}

/// What follows the last `.` of the file name.
pub fn extension(p: &str) -> (r: Option<String>)
    ensures
        text::ostr(r) == extension_of(p@),
{
    match file_name(p) {
        None => None,
        Some(f) => {
            let cs = chars_of(&f);
            match find_dot(&cs) {
                None => None,
                Some(i) => {
                    assert(cs@.subrange(i + 1, cs.len() as int) =~= cs@.skip(i + 1));
                    Some(string_of(&cs, i + 1, cs.len()))
                },
            }
        },
    }
}

/// Whether the extension of the path is `ext`.
pub fn has_extension(p: &str, ext: &str) -> (r: bool)
    ensures
        r == (extension_of(p@) == Some(ext@)),
{
    match extension(p) {
        Some(e) => str_eq(&e, ext),
        None => false,
    }
}

// ---------------------------------------------------------------------------
// Equality of paths
// ---------------------------------------------------------------------------

/// The components that a piece of a path contributes: none where it is empty
/// or `.`.
pub open spec fn kept_pieces(s: Seq<Seq<char>>) -> Seq<Seq<char>>
    decreases s.len(),
{
    if s.len() == 0 {
        Seq::<Seq<char>>::empty()
    } else {
        let rest = kept_pieces(s.drop_last());
        if s.last().len() == 0 || s.last() == seq!['.'] {
            rest
        } else {
            rest.push(s.last())
        }
    }
}

/// The text under which a path is compared: the root or a leading `.` if it has
/// one, and its components, with single separators.
pub open spec fn normal_form(p: Seq<char>) -> Seq<char> {
    let ps = split::pieces(p, '/');
    let body = split::joined(kept_pieces(ps), seq!['/']);
    if is_rooted(p) {
        seq!['/'] + body
    } else if ps[0] == seq!['.'] {
        seq!['.', '/'] + body
    } else {
        body
    }
}

/// Whether two texts name the same path, component by component.
pub open spec fn same_path(a: Seq<char>, b: Seq<char>) -> bool {
    normal_form(a) == normal_form(b)
}

/// The text under which a path is compared.
pub fn normalize(p: &str) -> (r: String)
    ensures
        r@ == normal_form(p@),
{
    let ps = split::split(p, '/');
    let ghost all = text::strs(ps@);
    let mut kept: Vec<String> = Vec::new();
    let mut i: usize = 0;
    proof {
        reveal_strlit(".");
        reveal_strlit("/");
        reveal_strlit("./");
        assert("."@ =~= seq!['.']);
        assert("/"@ =~= seq!['/']);
        assert("./"@ =~= seq!['.', '/']);
        assert(text::strs(kept@) =~= kept_pieces(all.take(0)));
    }
    while i < ps.len()
        invariant
            all == text::strs(ps@),
            "."@ == seq!['.'],
            i <= ps.len(),
            text::strs(kept@) == kept_pieces(all.take(i as int)),
        decreases ps.len() - i,
    {
        assert(all.take(i + 1).drop_last() =~= all.take(i as int));
        assert(all[i as int] == ps@[i as int]@);
        if !ps[i].as_str().is_empty() && !str_eq(&ps[i], ".") {
            let ghost k = text::strs(kept@);
            kept.push(ps[i].clone());
            assert(text::strs(kept@) =~= k.push(ps@[i as int]@));
        }
        i += 1;
    }
    assert(all.take(i as int) =~= all);
    let body = split::join(&kept, "/");
    assert(all[0] == ps@[0]@);
    if text::starts_with_char(p, '/') {
        text::cat2("/", &body)
    } else if str_eq(&ps[0], ".") {
        text::cat2("./", &body)
    } else {
        body
    }
}

/// Whether two texts name the same path, component by component.
pub fn path_eq(a: &str, b: &str) -> (r: bool)
    ensures
        r == same_path(a@, b@),
{
    normalize(a) == normalize(b)
}

// ---------------------------------------------------------------------------
// Programs in commands
// ---------------------------------------------------------------------------

/// A character of a path on Windows, with `/` as the only separator.
pub open spec fn slashed_char(c: char) -> char {
    if c == '\\' {
        '/'
    } else {
        c
    }
}

/// A path on Windows, with `/` as the only separator.
pub open spec fn slashed(p: Seq<char>) -> Seq<char> {
    p.map_values(|c: char| slashed_char(c))
}

/// Whether a path begins with the letter of a drive.
pub open spec fn has_drive(p: Seq<char>) -> bool {
    p.len() >= 2 && ('a' <= p[0] <= 'z' || 'A' <= p[0] <= 'Z') && p[1] == ':'
}

/// Whether a path begins with the name of a server and of a share on it.
pub open spec fn has_share(p: Seq<char>) -> bool {
    p.len() >= 2 && p[0] == '/' && p[1] == '/' && {
        let s = split::pieces(p.skip(2), '/');
        s.len() >= 2 && s[0].len() > 0 && s[1].len() > 0
    }
}

/// A path on Windows without its drive, or without the server and the share.
pub open spec fn without_volume(p: Seq<char>) -> Seq<char> {
    if has_drive(p) {
        p.skip(2)
    } else if has_share(p) {
        let s = split::pieces(p.skip(2), '/');
        p.skip((3 + s[0].len() + s[1].len()) as int)
    } else {
        p
    }
}

/// The name of the program at a path, as a platform reads the path: its last
/// component, or the empty text where it has none.
pub open spec fn program_name_of(p: Seq<char>, platform: Platform) -> Seq<char> {
    if platform == Platform::Windows {
        base_name(without_volume(slashed(p)))
    } else {
        base_name(p)
    }
}

fn to_slashed(p: &str) -> (r: String)
    ensures
        r@ == slashed(p@),
{
    let cs = chars_of(p);
    let mut out = String::new();
    let mut i: usize = 0;
    assert(out@ =~= slashed(p@.take(0)));
    while i < cs.len()
        invariant
            cs@ == p@,
            i <= cs.len(),
            out@ == slashed(p@.take(i as int)),
        decreases cs.len() - i,
    {
        let ghost before = out@;
        if cs[i] == '\\' {
            out.push('/');
        } else {
            out.push(cs[i]);
        }
        assert(slashed(p@.take(i + 1)) =~= before.push(slashed_char(p@[i as int])));
        i += 1;
    }
    assert(p@.take(i as int) =~= p@);
    out
}

fn strip_volume(p: &str) -> (r: String)
    ensures
        r@ == without_volume(p@),
{
    let n: usize = p.unicode_len();
    if n < 2 {
        return p.to_owned();
    }
    let a = p.get_char(0);
    let b = p.get_char(1);
    assert(p@.subrange(2, n as int) =~= p@.skip(2));
    let rest = p.substring_char(2, n);
    if (('a' <= a && a <= 'z') || ('A' <= a && a <= 'Z')) && b == ':' {
        return rest.to_owned();
    }
    if a == '/' && b == '/' {
        let s = split::split(rest, '/');
        let ghost v = split::pieces(rest@, '/');
        if s.len() >= 2 {
            assert(v[0] == s@[0]@);
            assert(v[1] == s@[1]@);
            if !s[0].as_str().is_empty() && !s[1].as_str().is_empty() {
                let server: usize = s[0].as_str().unicode_len();
                let share: usize = s[1].as_str().unicode_len();
                proof {
                    split::lemma_first_pieces_fit(rest@, '/');
                }
                let k: usize = 3 + server + share;
                assert(p@.subrange(k as int, n as int) =~= p@.skip(k as int));
                return p.substring_char(k, n).to_owned();
            }
        }
    }
    p.to_owned()
}

/// The name of the program at a path, as a platform reads the path: its last
/// component, or the empty text where it has none. On Windows `\\` parts components
/// too, and the drive, or the server and the share, are no components.
pub fn program_name(p: &str, platform: Platform) -> (r: String)
    ensures
        r@ == program_name_of(p@, platform),
{
    if platform == Platform::Windows {
        let t = to_slashed(p);
        let q = strip_volume(&t);
        file_name_or_empty(&q)
    } else {
        file_name_or_empty(p)
    }
}

} // verus!
