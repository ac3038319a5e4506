//! Packs: the `owner/repo` that extensions are grouped under, and the addresses
//! that they are read from.

use vstd::prelude::*;

use crate::models::{InstallMeta, InstallMetaView};
use crate::split;
use crate::text;
use crate::text::Class;

verus! {

/// The first two parts of a text parted by `/`, if neither is empty.
pub open spec fn owner_repo(s: Seq<char>) -> Option<Seq<char>> {
    let p = split::pieces(s, '/');
    if p.len() >= 2 && p[0].len() > 0 && p[1].len() > 0 {
        Some(p[0] + seq!['/'] + p[1])
    } else {
        None
    }
}

/// `owner/repo` of a text without a host, which refuses an owner that looks
/// like a host.
pub open spec fn short_pack(s: Seq<char>) -> Option<Seq<char>> {
    let owner = split::pieces(s, '/')[0];
    if owner.contains('.') || owner.contains(':') {
        None
    } else {
        owner_repo(s)
    }
}

/// `owner/repo` of what follows the host in an address, with a `.git` at its
/// end ignored.
pub open spec fn path_pack(path: Seq<char>) -> Option<Seq<char>> {
    owner_repo(text::without_suffixes(path, ".git"@))
}

/// `owner/repo` of an address with a scheme; of one without, as a short text.
pub open spec fn scheme_pack(url: Seq<char>) -> Option<Seq<char>> {
    match split::found(url, "://"@) {
        None => short_pack(url),
        Some(i) => match split::after_first(url.skip(i + 3), '/') {
            None => None,
            Some(path) => if path_pack(path) is Some {
                path_pack(path)
            } else {
                short_pack(url)
            },
        },
    }
}

/// `owner/repo` of the address of a repository: `git@host:owner/repo.git`,
/// `https://host/owner/repo.git`, or `owner/repo` itself, each with further
/// parts ignored.
pub open spec fn pack_of(url: Seq<char>) -> Option<Seq<char>> {
    match text::after_prefix(url, "git@"@) {
        None => scheme_pack(url),
        Some(rest) => match split::after_first(rest, ':') {
            None => None,
            Some(path) => if path_pack(path) is Some {
                path_pack(path)
            } else {
                scheme_pack(url)
            },
        },
    }
}

fn owner_and_repo(s: &str) -> (r: Option<String>)
    ensures
        text::ostr(r) == owner_repo(s@),
{
    let parts = split::split(s, '/');
    let ghost p = split::pieces(s@, '/');
    proof {
        reveal_strlit("/");
        assert("/"@ =~= seq!['/']);
    }
    if parts.len() >= 2 {
        assert(p[0] == parts@[0]@);
        assert(p[1] == parts@[1]@);
        if !parts[0].as_str().is_empty() && !parts[1].as_str().is_empty() {
            return Some(text::cat3(&parts[0], "/", &parts[1]));
        }
    }
    None
}

fn without_git<'a>(s: &'a str) -> (r: &'a str)
    ensures
        r@ == text::without_suffixes(s@, ".git"@),
{
    text::trim_end_matches(s, ".git")
}

/// `owner/repo` of the address of a repository, if it has one.
pub fn extract_pack_from_url(url: &str) -> (r: Option<String>)
    ensures
        text::ostr(r) == pack_of(url@),
{
    if let Some(rest) = text::strip_prefix(url, "git@") {
        match split::rest_after(rest, ':') {
            None => {
                return None;
            },
            Some(path) => {
                let clean = without_git(path);
                let p = owner_and_repo(clean);
                if p.is_some() {
                    return p;
                }
            },
        }
    }
    if let Some(i) = split::find(url, "://") {
        proof {
            reveal_strlit("://");
        }
        let n: usize = vstd::string::StrSliceExecFns::unicode_len(url);
        assert(url@.subrange(i + 3, n as int) =~= url@.skip(i + 3));
        let after = vstd::string::StrSliceExecFns::substring_char(url, i + 3, n);
        match split::rest_after(after, '/') {
            None => {
                return None;
            },
            Some(path) => {
                let clean = without_git(path);
                let p = owner_and_repo(clean);
                if p.is_some() {
                    return p;
                }
            },
        }
    }
    let parts = split::split(url, '/');
    assert(split::pieces(url@, '/')[0] == parts@[0]@);
    if split::contains_char(&parts[0], '.') || split::contains_char(&parts[0], ':') {
        return None;
    }
    owner_and_repo(url)
}

// ---------------------------------------------------------------------------
// The form of a pack
// ---------------------------------------------------------------------------

/// Letters and digits of ASCII, `-` and `_`.
pub open spec fn is_owner_char(c: char) -> bool {
    'a' <= c <= 'z' || 'A' <= c <= 'Z' || '0' <= c <= '9' || c == '-' || c == '_'
}

/// The characters of an owner, and `.`.
pub open spec fn is_repo_char(c: char) -> bool {
    is_owner_char(c) || c == '.'
}

/// Whether a text has the form `owner/repo`.
pub open spec fn is_pack(s: Seq<char>) -> bool {
    let p = split::pieces(s, '/');
    &&& p.len() == 2
    &&& p[0].len() > 0
    &&& p[1].len() > 0
    &&& forall|i: int| 0 <= i < p[0].len() ==> is_owner_char(#[trigger] p[0][i])
    &&& forall|i: int| 0 <= i < p[1].len() ==> is_repo_char(#[trigger] p[1][i])
}

fn all_pack_chars(s: &str, dots: bool) -> (r: bool)
    ensures
        r == forall|i: int|
            0 <= i < s@.len() ==> is_owner_char(#[trigger] s@[i]) || (dots && s@[i] == '.'),
{
    let cs = text::chars_of(s);
    let mut i: usize = 0;
    while i < cs.len()
        invariant
            cs@ == s@,
            i <= cs.len(),
            forall|j: int|
                0 <= j < i ==> is_owner_char(#[trigger] s@[j]) || (dots && s@[j] == '.'),
        decreases cs.len() - i,
    {
        let c = cs[i];
        let ok = ('a' <= c && c <= 'z') || ('A' <= c && c <= 'Z') || ('0' <= c && c <= '9') || c
            == '-' || c == '_' || (dots && c == '.');
        if !ok {
            assert(!(is_owner_char(s@[i as int]) || (dots && s@[i as int] == '.')));
            return false;
        }
        i += 1;
    }
    true
}

/// Whether `pack` has the form `owner/repo`. The owner holds no `.`, so that a
/// host name is no owner; the name of a repository may.
pub fn is_valid_pack_format(pack: &str) -> (r: bool)
    ensures
        r == is_pack(pack@),
{
    let parts = split::split(pack, '/');
    let ghost p = split::pieces(pack@, '/');
    if parts.len() != 2 {
        return false;
    }
    assert(p[0] == parts@[0]@);
    assert(p[1] == parts@[1]@);
    if parts[0].as_str().is_empty() || parts[1].as_str().is_empty() {
        return false;
    }
    let a = all_pack_chars(&parts[0], false);
    let b = all_pack_chars(&parts[1], true);
    assert(b == forall|i: int| 0 <= i < p[1].len() ==> is_repo_char(#[trigger] p[1][i])) by {
        if b {
            assert forall|i: int| 0 <= i < p[1].len() implies is_repo_char(#[trigger] p[1][i]) by {
                assert(is_owner_char(parts@[1]@[i]) || (parts@[1]@[i] == '.'));
            }
        } else {
            let i = choose|i: int|
                0 <= i < p[1].len() && !(is_owner_char(#[trigger] p[1][i]) || p[1][i] == '.');
            assert(!is_repo_char(p[1][i]));
        }
    }
    a && b
}

// ---------------------------------------------------------------------------
// What the user typed
// ---------------------------------------------------------------------------

/// What follows the host in an address on GitHub: with a scheme, without one, or for
/// cloning over SSH.
pub open spec fn github_path(t: Seq<char>) -> Option<Seq<char>> {
    if text::has_prefix(t, "https://github.com/"@) {
        text::after_prefix(t, "https://github.com/"@)
    } else if text::has_prefix(t, "http://github.com/"@) {
        text::after_prefix(t, "http://github.com/"@)
    } else if text::has_prefix(t, "github.com/"@) {
        text::after_prefix(t, "github.com/"@)
    } else {
        text::after_prefix(t, "git@github.com:"@)
    }
}

/// `owner/repo` of the path of an address: its first two parts, the second without
/// `.git` at its end, if neither is then empty.
pub open spec fn repo_pack(path: Seq<char>) -> Option<Seq<char>> {
    let p = split::pieces(path, '/');
    let repo = text::without_suffixes(p[1], ".git"@);
    if p.len() >= 2 && p[0].len() > 0 && repo.len() > 0 {
        Some(p[0] + seq!['/'] + repo)
    } else {
        None
    }
}

/// Whether a text is the address of something: it has a scheme, or the form for
/// cloning over SSH.
pub open spec fn is_address(t: Seq<char>) -> bool {
    split::has_text(t, "://"@) || text::has_prefix(t, "git@"@)
}

/// The pack that a trimmed text stands for, if it is an address on GitHub or begins
/// like a pack.
pub open spec fn typed_pack(t: Seq<char>) -> Option<Seq<char>> {
    match github_path(t) {
        Some(path) => repo_pack(path),
        None => if is_address(t) {
            None
        } else {
            short_pack(t)
        },
    }
}

/// The pack that a text typed by the user stands for: `owner/repo` of a GitHub
/// address or of a text without a host, else the trimmed text.
pub open spec fn normal_pack(input: Seq<char>) -> Seq<char> {
    let t = text::trimmed(input);
    match typed_pack(t) {
        Some(p) => p,
        None => t,
    }
}

fn find_github_path<'a>(t: &'a str) -> (r: Option<&'a str>)
    ensures
        (match r {
            Some(p) => Some(p@),
            None => None,
        }) == github_path(t@),
{
    if text::starts_with(t, "https://github.com/") {
        text::strip_prefix(t, "https://github.com/")
    } else if text::starts_with(t, "http://github.com/") {
        text::strip_prefix(t, "http://github.com/")
    } else if text::starts_with(t, "github.com/") {
        text::strip_prefix(t, "github.com/")
    } else {
        text::strip_prefix(t, "git@github.com:")
    }
}

fn read_repo_pack(path: &str) -> (r: Option<String>)
    ensures
        text::ostr(r) == repo_pack(path@),
{
    let parts = split::split(path, '/');
    let ghost p = split::pieces(path@, '/');
    proof {
        reveal_strlit("/");
        assert("/"@ =~= seq!['/']);
    }
    if parts.len() < 2 {
        return None;
    }
    assert(p[0] == parts@[0]@);
    assert(p[1] == parts@[1]@);
    let repo = without_git(&parts[1]);
    if parts[0].as_str().is_empty() || repo.is_empty() {
        return None;
    }
    Some(text::cat3(&parts[0], "/", repo))
}

/// The pack that a text typed by the user stands for: `owner/repo` of a GitHub
/// address or of a text without a host, else the trimmed text. The host of an
/// address must be `github.com`, since that is where a pack is looked for.
pub fn normalize_pack(input: &str) -> (r: String)
    ensures
        r@ == normal_pack(input@),
{
    let t = text::trim(input);
    let parsed = match find_github_path(t) {
        Some(path) => read_repo_pack(path),
        None => {
            if split::contains(t, "://") || text::starts_with(t, "git@") {
                None
            } else {
                proof {
                    split::lemma_found(t@, "://"@);
                }
                extract_pack_from_url(t)
            }
        },
    };
    match parsed {
        Some(p) => p,
        None => t.to_owned(),
    }
}

// ---------------------------------------------------------------------------
// Manual binding
// ---------------------------------------------------------------------------

/// The repository address that is made up for a pack.
pub open spec fn github_url(pack: Seq<char>) -> Seq<char> {
    "https://github.com/"@ + pack + ".git"@
}

/// The install record of an extension that the user bound to a pack.
pub open spec fn manual_meta(pack: Seq<char>) -> InstallMetaView {
    InstallMetaView {
        install_type: "manual"@,
        url: Some(github_url(pack)),
        url_resolved: None,
        branch: None,
        subpath: None,
        revision: None,
        remote_revision: None,
        checked_at: None,
        check_error: None,
    }
}

/// The install record of an extension that the user bound to a pack.
pub fn synthesize_manual_install_meta(pack: &str) -> (r: InstallMeta)
    ensures
        r@ == manual_meta(pack@),
{
    InstallMeta {
        install_type: "manual".to_owned(),
        url: Some(text::cat3("https://github.com/", pack, ".git")),
        url_resolved: None,
        branch: None,
        subpath: None,
        revision: None,
        remote_revision: None,
        checked_at: None,
        check_error: None,
    }
}

// ---------------------------------------------------------------------------
// Laws
// ---------------------------------------------------------------------------

/// Splitting a text and joining the pieces again gives the text.
pub proof fn joined_pieces_give_text(s: Seq<char>, sep: char)
    ensures
        split::joined(split::pieces(s, sep), seq![sep]) == s,
    decreases s.len(),
{
    let p = split::pieces(s, sep);
    if s.len() == 0 {
        assert(p.len() == 1);
        assert(split::joined(p, seq![sep]) =~= s);
    } else {
        let t = s.drop_last();
        let q = split::pieces(t, sep);
        joined_pieces_give_text(t, sep);
        split::lemma_pieces_nonempty(t, sep);
        assert(s =~= t.push(s.last()));
        if s.last() == sep {
            assert(p.drop_last() =~= q);
            assert(split::joined(p, seq![sep]) =~= t.push(sep));
        } else {
            assert(p.drop_last() =~= q.drop_last());
            assert(split::joined(p, seq![sep]) =~= split::joined(q, seq![sep]).push(s.last()));
        }
    }
}

proof fn lemma_pack_parts(p: Seq<char>)
    requires
        is_pack(p),
    ensures
        owner_repo(p) == Some(p),
        p.len() > 0,
        is_owner_char(p[0]),
        is_repo_char(p.last()),
        forall|i: int| 0 <= i < p.len() ==> is_repo_char(#[trigger] p[i]) || p[i] == '/',
        !split::pieces(p, '/')[0].contains('.'),
        !split::pieces(p, '/')[0].contains(':'),
{
    let q = split::pieces(p, '/');
    joined_pieces_give_text(p, '/');
    assert(q.drop_last() =~= seq![q[0]]);
    assert(split::joined(q.drop_last(), seq!['/']) == q[0]);
    assert(p =~= q[0] + seq!['/'] + q[1]);
    assert(p[0] == q[0][0]);
    assert(p.last() == q[1].last());
    assert forall|i: int| 0 <= i < p.len() implies is_repo_char(#[trigger] p[i]) || p[i] == '/' by {
        if i < q[0].len() {
            assert(p[i] == q[0][i]);
        } else if i > q[0].len() {
            assert(p[i] == q[1][i - q[0].len() - 1]);
        }
    }
    if q[0].contains('.') {
        let i = choose|i: int| 0 <= i < q[0].len() && q[0][i] == '.';
        assert(is_owner_char(q[0][i]));
    }
    if q[0].contains(':') {
        let i = choose|i: int| 0 <= i < q[0].len() && q[0][i] == ':';
        assert(is_owner_char(q[0][i]));
    }
}

proof fn lemma_pack_is_no_address(p: Seq<char>)
    requires
        is_pack(p),
    ensures
        split::found(p, "://"@) is None,
        !split::has_text(p, "://"@),
        text::after_prefix(p, "git@"@) is None,
        github_path(p) is None,
{
    lemma_pack_parts(p);
    reveal_strlit("://");
    reveal_strlit("git@");
    reveal_strlit("github.com/");
    split::lemma_found(p, "://"@);
    if split::has_text(p, "://"@) {
        let i = choose|i: int| split::occurs_at(p, "://"@, i);
        assert(p.subrange(i, i + 3)[0] == ':');
        assert(p[i] == ':');
    }
    if text::has_prefix(p, "git@"@) {
        assert(p.take(4)[3] == '@');
        assert(p[3] == '@');
    }
    reveal_strlit("https://github.com/");
    reveal_strlit("http://github.com/");
    reveal_strlit("git@github.com:");
    if text::has_prefix(p, "https://github.com/"@) {
        assert(p.take(19)[5] == ':');
        assert(p[5] == ':');
    }
    if text::has_prefix(p, "http://github.com/"@) {
        assert(p.take(18)[4] == ':');
        assert(p[4] == ':');
    }
    if text::has_prefix(p, "git@github.com:"@) {
        assert(p.take(15)[14] == ':');
        assert(p[14] == ':');
    }
    if text::has_prefix(p, "github.com/"@) {
        let q = split::pieces(p, '/');
        joined_pieces_give_text(p, '/');
        assert(q.drop_last() =~= seq![q[0]]);
        assert(split::joined(q.drop_last(), seq!['/']) == q[0]);
        assert(p =~= q[0] + seq!['/'] + q[1]);
        assert(p.take(11)[6] == '.');
        assert(p.take(11)[10] == '/');
        split::lemma_pieces_without_sep(p, '/');
        if q[0].len() > 6 {
            assert(q[0][6] == '.');
        } else {
            let n = q[0].len() as int;
            assert(p[n] == '/');
            assert(p.take(11)[n] == "github.com/"@[n]);
        }
    }
}

/// A text in the form `owner/repo` stands for itself.
pub proof fn valid_pack_is_normal(p: Seq<char>)
    requires
        is_pack(p),
    ensures
        normal_pack(p) == p,
        pack_of(p) == Some(p),
{
    lemma_pack_parts(p);
    lemma_pack_is_no_address(p);
    assert(text::trimmed(p) == p) by {
        assert(!text::is_white(p[0]));
        assert(!text::is_white(p.last()));
        assert(text::trimmed_start(p, Class::White) == p);
        assert(text::trimmed_end(p, Class::White) == p);
    }
}

/// What may follow a pack in the path of an address: `.git` or not, and then further
/// parts or none.
pub open spec fn may_follow(tail: Seq<char>) -> bool {
    ||| tail.len() == 0
    ||| tail == ".git"@
    ||| tail[0] == '/'
    ||| text::has_prefix(tail, ".git/"@)
}

/// The beginnings of addresses on GitHub.
pub open spec fn is_github_start(s: Seq<char>) -> bool {
    ||| s == "https://github.com/"@
    ||| s == "http://github.com/"@
    ||| s == "github.com/"@
    ||| s == "git@github.com:"@
}

/// The address of a repository on GitHub stands for the pack in it: with or without
/// a scheme, with or without `.git`, a `/` at the end or further parts, or for cloning
/// over SSH; white space around it does not matter. (The name of a repository does not
/// itself end in `.git`.)
pub proof fn pasted_addresses_are_recognized(
    input: Seq<char>,
    start: Seq<char>,
    p: Seq<char>,
    tail: Seq<char>,
)
    requires
        is_pack(p),
        !text::has_suffix(p, ".git"@),
        may_follow(tail),
        is_github_start(start),
        text::trimmed(input) == start + p + tail,
    ensures
        normal_pack(input) == p,
{
    let t = text::trimmed(input);
    let path = p + tail;
    assert(t =~= start + path);
    assert(t.take(start.len() as int) =~= start);
    assert(t.skip(start.len() as int) =~= path);
    lemma_repo_pack(p, tail);
    reveal_strlit("https://github.com/");
    reveal_strlit("http://github.com/");
    reveal_strlit("github.com/");
    reveal_strlit("git@github.com:");
    if text::has_prefix(t, "https://github.com/"@) && start != "https://github.com/"@ {
        assert(t.take(19)[0] == 'h' && t.take(19)[4] == 's');
        assert(t[0] == start[0] && t[4] == start[4]);
    }
    if text::has_prefix(t, "http://github.com/"@) && start != "http://github.com/"@ {
        assert(t.take(18)[0] == 'h' && t.take(18)[4] == ':');
        assert(t[0] == start[0] && t[4] == start[4]);
    }
    if text::has_prefix(t, "github.com/"@) && start != "github.com/"@ {
        assert(t.take(11)[0] == 'g' && t.take(11)[3] == 'h');
        assert(t[0] == start[0] && t[3] == start[3]);
    }
    assert(github_path(t) == Some(path));
}

/// An address with another host, with a scheme or for cloning over SSH, stands for no
/// pack: the trimmed text stays.
pub proof fn foreign_addresses_stay(input: Seq<char>)
    requires
        is_address(text::trimmed(input)),
        forall|start: Seq<char>|
            is_github_start(start) ==> !#[trigger] text::has_prefix(text::trimmed(input), start),
    ensures
        normal_pack(input) == text::trimmed(input),
{
    let t = text::trimmed(input);
    assert(is_github_start("https://github.com/"@));
    assert(is_github_start("http://github.com/"@));
    assert(is_github_start("github.com/"@));
    assert(is_github_start("git@github.com:"@));
}

/// The address that is made up for a pack is read back as that pack, unless the
/// pack itself ends in `.git`.
pub proof fn github_url_reads_back(p: Seq<char>)
    requires
        is_pack(p),
        !text::has_suffix(p, ".git"@),
    ensures
        pack_of(github_url(p)) == Some(p),
{
    reveal_strlit("https://github.com/");
    reveal_strlit("https");
    reveal_strlit("://");
    reveal_strlit("github.com/");
    lemma_path_pack(p);
    assert(github_url(p) =~= "https"@ + "://"@ + "github.com/"@ + (p + ".git"@));
    lemma_scheme_pack("https"@, p + ".git"@);
}

proof fn lemma_scheme_pack(scheme: Seq<char>, path: Seq<char>)
    requires
        scheme.len() > 0,
        scheme[0] == 'h',
        !scheme.contains(':'),
        path_pack(path) is Some,
    ensures
        pack_of(scheme + "://"@ + "github.com/"@ + path) == path_pack(path),
{
    let url = scheme + "://"@ + "github.com/"@ + path;
    let n = scheme.len() as int;
    reveal_strlit("://");
    reveal_strlit("git@");
    reveal_strlit("github.com/");
    if text::has_prefix(url, "git@"@) {
        assert(url.take(4)[0] == 'g');
        assert(url[0] == scheme[0]);
    }
    split::lemma_found(url, "://"@);
    assert(url.subrange(n, n + 3) =~= "://"@);
    assert(split::occurs_at(url, "://"@, n));
    assert(split::found(url, "://"@) == Some(n)) by {
        let k = split::found(url, "://"@)->0;
        if k < n {
            assert(url.subrange(k, k + 3)[0] == url[k]);
            assert(url[k] == scheme[k]);
        }
    }
    let rest = url.skip(n + 3);
    assert(rest =~= "github.com/"@ + path);
    lemma_after_first_skip(rest, '/', 10);
    assert(rest.skip(10).drop_first() =~= path);
}

proof fn lemma_path_pack(p: Seq<char>)
    requires
        is_pack(p),
        !text::has_suffix(p, ".git"@),
    ensures
        path_pack(p + ".git"@) == Some(p),
{
    let path = p + ".git"@;
    lemma_pack_parts(p);
    reveal_strlit(".git");
    assert(path.take(path.len() - 4) =~= p);
    assert(path.skip(path.len() - 4) =~= ".git"@);
    assert(text::without_suffixes(p, ".git"@) == p);
}

/// More characters without a separator lengthen the last piece.
proof fn lemma_longer_last_piece(s: Seq<char>, more: Seq<char>, sep: char)
    requires
        !more.contains(sep),
    ensures
        split::pieces(s + more, sep) == split::pieces(s, sep).drop_last().push(
            split::pieces(s, sep).last() + more,
        ),
    decreases more.len(),
{
    let p = split::pieces(s, sep);
    split::lemma_pieces_nonempty(s, sep);
    if more.len() == 0 {
        assert(s + more =~= s);
        assert(p.last() + more =~= p.last());
        assert(p.drop_last().push(p.last()) =~= p);
    } else {
        let less = more.drop_last();
        assert(!less.contains(sep)) by {
            if less.contains(sep) {
                let i = choose|i: int| 0 <= i < less.len() && less[i] == sep;
                assert(more[i] == sep);
            }
        }
        lemma_longer_last_piece(s, less, sep);
        assert((s + more).drop_last() =~= s + less);
        assert(more[more.len() - 1] != sep);
        let q = split::pieces(s + less, sep);
        assert(q.drop_last() =~= p.drop_last());
        assert((p.last() + less).push(more.last()) =~= p.last() + more);
    }
}

/// What follows a pack in a path does not matter.
proof fn lemma_repo_pack(p: Seq<char>, tail: Seq<char>)
    requires
        is_pack(p),
        !text::has_suffix(p, ".git"@),
        may_follow(tail),
    ensures
        repo_pack(p + tail) == Some(p),
{
    reveal_strlit(".git");
    reveal_strlit(".git/");
    let parts = split::pieces(p, '/');
    lemma_pack_parts(p);
    let repo = parts[1];
    assert(!text::has_suffix(repo, ".git"@)) by {
        if text::has_suffix(repo, ".git"@) {
            joined_pieces_give_text(p, '/');
            assert(parts.drop_last() =~= seq![parts[0]]);
            assert(split::joined(parts.drop_last(), seq!['/']) == parts[0]);
            assert(p =~= parts[0] + seq!['/'] + repo);
            assert(p.skip(p.len() - 4) =~= repo.skip(repo.len() - 4));
        }
    }
    let long = repo + ".git"@;
    assert(long.take(long.len() - 4) =~= repo);
    assert(long.skip(long.len() - 4) =~= ".git"@);
    assert(text::without_suffixes(repo, ".git"@) == repo);
    assert(text::without_suffixes(long, ".git"@) == repo);
    let dotted = split::pieces(p + ".git"@, '/');
    lemma_longer_last_piece(p, ".git"@, '/');
    assert(dotted[0] == parts[0] && dotted[1] == long && dotted.len() == 2);
    if tail.len() == 0 {
        assert(p + tail =~= p);
    } else if tail[0] == '/' {
        let more = tail.drop_first();
        assert(p + tail =~= p + seq!['/'] + more);
        split::lemma_pieces_sum(p, more, '/');
        split::lemma_pieces_nonempty(more, '/');
    } else if tail != ".git"@ {
        let more = tail.skip(5);
        assert(tail.take(5) =~= ".git"@ + seq!['/']);
        assert(tail =~= tail.take(5) + more);
        assert(p + tail =~= (p + ".git"@) + seq!['/'] + more);
        split::lemma_pieces_sum(p + ".git"@, more, '/');
        split::lemma_pieces_nonempty(more, '/');
    }
}

proof fn lemma_after_first_skip(s: Seq<char>, c: char, n: int)
    requires
        0 <= n <= s.len(),
        forall|i: int| 0 <= i < n ==> s[i] != c,
    ensures
        split::after_first(s, c) == split::after_first(s.skip(n), c),
    decreases n,
{
    if n == 0 {
        assert(s.skip(0) =~= s);
    } else {
        lemma_after_first_skip(s.drop_first(), c, n - 1);
        assert(s.drop_first().skip(n - 1) =~= s.skip(n));
    }
}

} // verus!
