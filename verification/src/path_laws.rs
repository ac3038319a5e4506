//! How paths are put together and taken apart.

use vstd::prelude::*;

use crate::models::Platform;
use crate::path;
use crate::split;
use crate::text_laws;

verus! {

/// Whether a text can be the name of an entry of a directory.
pub open spec fn is_name(n: Seq<char>) -> bool {
    n.len() > 0 && !n.contains('/') && n != seq!['.'] && n != seq!['.', '.']
}

/// Whether a path ends with a name, and not with a separator or a `.` behind one.
pub open spec fn ends_plainly(d: Seq<char>) -> bool {
    d.len() > 0 && d.last() != '/' && !(d.len() >= 2 && d.last() == '.' && d[d.len() - 2] == '/')
}

proof fn lemma_last_component(d: Seq<char>, n: Seq<char>)
    requires
        n.len() > 0,
        !n.contains('/'),
        n != seq!['.'],
    ensures
        ({
            let p = d + seq!['/'] + n;
            &&& path::tail_trimmed(p) == p
            &&& path::last_start(p) == d.len() + 1
            &&& path::tail_trimmed(n) == n
            &&& path::last_start(n) == 0
        }),
{
    let p = d + seq!['/'] + n;
    assert(n.contains(n[n.len() - 1]));
    assert(p.last() == n.last());
    if n.len() == 1 {
        assert(n =~= seq![n[0]]);
    } else {
        assert(n.contains(n[n.len() - 2]));
        assert(p[p.len() - 2] == n[n.len() - 2]);
    }
    path::lemma_last_start(p);
    path::lemma_last_start(n);
    let at = path::last_start(p);
    assert(p[d.len() as int] == '/');
    if at > d.len() + 1 {
        assert(p[at - 1] == n[at - 1 - d.len() - 1]);
        assert(n.contains(n[at - 1 - d.len() - 1]));
    }
    if path::last_start(n) > 0 {
        assert(n.contains(n[path::last_start(n) - 1]));
    }
}

/// The last part of a path is the name behind its last separator, and what precedes it
/// is the path of the directory; further separators and `.` at its end do not count.
/// The root has neither, nor has the empty path, and `..` is no name.
pub proof fn paths_end_with_names(d: Seq<char>, n: Seq<char>)
    requires
        is_name(n),
    ensures
        path::file_name_of(n) == Some(n),
        path::file_name_of(d + seq!['/'] + n) == Some(n),
        path::parent_of(n) == Some(Seq::<char>::empty()),
        path::parent_of(seq!['/'] + n) == Some(seq!['/']),
        ends_plainly(d) ==> path::parent_of(d + seq!['/'] + n) == Some(d),
        d.len() > 0 ==> path::file_name_of(d + seq!['/']) == path::file_name_of(d)
            && path::parent_of(d + seq!['/']) == path::parent_of(d),
        d.len() > 0 ==> path::file_name_of(d + seq!['/', '.']) == path::file_name_of(d)
            && path::parent_of(d + seq!['/', '.']) == path::parent_of(d),
        path::file_name_of(d + seq!['/', '.', '.']) is None,
        path::parent_of(seq!['/']) is None && path::file_name_of(seq!['/']) is None,
        path::parent_of(Seq::<char>::empty()) is None,
        path::file_name_of(Seq::<char>::empty()) is None,
{
    lemma_name(d, n);
    lemma_bare_name(n);
    lemma_trailing(d);
    lemma_upward(d);
    lemma_nameless();
}

proof fn lemma_name(d: Seq<char>, n: Seq<char>)
    requires
        is_name(n),
    ensures
        path::file_name_of(d + seq!['/'] + n) == Some(n),
        ends_plainly(d) ==> path::parent_of(d + seq!['/'] + n) == Some(d),
        d.len() == 0 ==> path::parent_of(d + seq!['/'] + n) == Some(seq!['/']),
{
    let p = d + seq!['/'] + n;
    lemma_last_component(d, n);
    assert(p.skip(d.len() as int + 1) =~= n);
    assert(p.len() > 1);
    let a = d + seq!['/'];
    assert(p.take(d.len() as int + 1) =~= a);
    if d.len() == 0 {
        assert(a =~= seq!['/']);
        assert(path::tail_trimmed(a) == a);
    } else if ends_plainly(d) {
        assert(a.drop_last() =~= d);
        assert(path::tail_trimmed(d) == d);
        assert(path::tail_trimmed(a) == path::tail_trimmed(d));
    }
}

proof fn lemma_bare_name(n: Seq<char>)
    requires
        is_name(n),
    ensures
        path::file_name_of(n) == Some(n),
        path::parent_of(n) == Some(Seq::<char>::empty()),
        path::parent_of(seq!['/'] + n) == Some(seq!['/']),
{
    let none = Seq::<char>::empty();
    lemma_last_component(none, n);
    lemma_name(none, n);
    assert(none + seq!['/'] + n =~= seq!['/'] + n);
    assert(n.skip(0) =~= n);
    assert(n.take(0) =~= none);
    assert(path::tail_trimmed(none) == none);
    assert(n != seq!['/']) by {
        assert(n.contains(n[0]));
    }
}

proof fn lemma_trailing(d: Seq<char>)
    ensures
        d.len() > 0 ==> path::file_name_of(d + seq!['/']) == path::file_name_of(d)
            && path::parent_of(d + seq!['/']) == path::parent_of(d),
        d.len() > 0 ==> path::file_name_of(d + seq!['/', '.']) == path::file_name_of(d)
            && path::parent_of(d + seq!['/', '.']) == path::parent_of(d),
{
    if d.len() > 0 {
        let a = d + seq!['/'];
        let b = d + seq!['/', '.'];
        assert(a.drop_last() =~= d);
        assert(path::tail_trimmed(a) == path::tail_trimmed(d));
        assert(b.drop_last() =~= a);
        assert(path::tail_trimmed(b) == path::tail_trimmed(a));
    }
}

proof fn lemma_upward(d: Seq<char>)
    ensures
        path::file_name_of(d + seq!['/', '.', '.']) is None,
{
    let up = seq!['.', '.'];
    assert(!up.contains('/'));
    assert(up.len() != seq!['.'].len());
    lemma_last_component(d, up);
    let p = d + seq!['/'] + up;
    assert(d + seq!['/', '.', '.'] =~= p);
    assert(p.skip(d.len() as int + 1) =~= up);
}

proof fn lemma_nameless()
    ensures
        path::parent_of(seq!['/']) is None && path::file_name_of(seq!['/']) is None,
        path::parent_of(Seq::<char>::empty()) is None,
        path::file_name_of(Seq::<char>::empty()) is None,
{
    let none = Seq::<char>::empty();
    let root = seq!['/'];
    assert(path::tail_trimmed(none) == none);
    assert(path::tail_trimmed(root) == root);
    assert(path::last_start(root) == 1);
    assert(root.skip(1).len() == 0);
    assert(path::last_start(none) == 0);
    assert(none.skip(0).len() == 0);
}

proof fn lemma_dot_index(a: Seq<char>, b: Seq<char>)
    requires
        !b.contains('.'),
    ensures
        a.len() > 0 ==> path::dot_index(a + seq!['.'] + b) == Some(a.len() as int),
        path::dot_index(seq!['.'] + b) is None,
        path::dot_index(b) is None,
    decreases b.len(),
{
    let f = a + seq!['.'] + b;
    let g = seq!['.'] + b;
    if b.len() > 0 {
        let t = b.drop_last();
        assert(b.contains(b.last()));
        assert(!t.contains('.')) by {
            if t.contains('.') {
                let i = choose|i: int| 0 <= i < t.len() && t[i] == '.';
                assert(b[i] == '.');
            }
        }
        lemma_dot_index(a, t);
        assert(f.drop_last() =~= a + seq!['.'] + t);
        assert(g.drop_last() =~= seq!['.'] + t);
    }
}

/// The name of a file ends at its last dot, behind which its extension stands. A dot
/// that begins the name does not count.
pub proof fn names_end_at_their_last_dot(p: Seq<char>, a: Seq<char>, b: Seq<char>)
    requires
        !b.contains('.'),
    ensures
        a.len() > 0 && path::file_name_of(p) == Some(a + seq!['.'] + b) ==> path::stem_of(p)
            == Some(a) && path::extension_of(p) == Some(b),
        path::file_name_of(p) == Some(seq!['.'] + b) ==> path::stem_of(p) == Some(seq!['.'] + b)
            && path::extension_of(p) is None,
        path::file_name_of(p) == Some(b) ==> path::stem_of(p) == Some(b) && path::extension_of(
            p,
        ) is None,
        path::file_name_of(p) is None ==> path::stem_of(p) is None && path::extension_of(p) is None,
{
    let f = a + seq!['.'] + b;
    lemma_dot_index(a, b);
    assert(f.take(a.len() as int) =~= a);
    assert(f.skip(a.len() as int + 1) =~= b);
}

/// A path that is put below another one is found there; one that begins at the root
/// stands for itself.
pub proof fn paths_are_put_below_others(d: Seq<char>, n: Seq<char>)
    ensures
        n.len() > 0 && n[0] == '/' ==> path::extended(d, n) == n,
        is_name(n) ==> path::file_name_of(path::extended(d, n)) == Some(n),
        is_name(n) && ends_plainly(d) ==> path::parent_of(path::extended(d, n)) == Some(d),
        !(n.len() > 0 && n[0] == '/') && d.len() > 0 && d.last() != '/' ==> path::extended(d, n)
            == d + seq!['/'] + n,
        !(n.len() > 0 && n[0] == '/') && (d.len() == 0 || d.last() == '/') ==> path::extended(d, n)
            == d + n,
{
    assert(d.push('/') + n =~= d + seq!['/'] + n);
    if is_name(n) {
        assert(n.contains(n[0]));
        paths_end_with_names(d, n);
        if d.len() == 0 {
            assert(d + n =~= n);
        } else if d.last() == '/' {
            assert(d.drop_last() + seq!['/'] =~= d);
            paths_end_with_names(d.drop_last(), n);
        }
    }
}

// ---------------------------------------------------------------------------
// Comparing paths
// ---------------------------------------------------------------------------

/// The parts of a path that count: neither empty nor `.`.
pub open spec fn components(p: Seq<char>) -> Seq<Seq<char>> {
    split::pieces(p, '/').filter(|c: Seq<char>| c.len() > 0 && c != seq!['.'])
}

/// Whether a path begins with `.`, as its first part.
pub open spec fn begins_with_dot(p: Seq<char>) -> bool {
    split::pieces(p, '/')[0] == seq!['.']
}

proof fn lemma_kept(s: Seq<Seq<char>>)
    requires
        forall|i: int| 0 <= i < s.len() ==> !(#[trigger] s[i]).contains('/'),
    ensures
        path::kept_pieces(s) == s.filter(|c: Seq<char>| c.len() > 0 && c != seq!['.']),
        forall|i: int|
            0 <= i < path::kept_pieces(s).len() ==> (#[trigger] path::kept_pieces(s)[i]).len() > 0
                && path::kept_pieces(s)[i] != seq!['.'] && !path::kept_pieces(s)[i].contains('/'),
    decreases s.len(),
{
    reveal(Seq::filter);
    if s.len() > 0 {
        let t = s.drop_last();
        assert forall|i: int| 0 <= i < t.len() implies !(#[trigger] t[i]).contains('/') by {
            assert(!s[i].contains('/'));
        }
        assert(!s[s.len() - 1].contains('/'));
        lemma_kept(t);
    }
}

/// Whether parts can stand in the text under which a path is compared.
spec fn are_kept(k: Seq<Seq<char>>) -> bool {
    forall|i: int|
        0 <= i < k.len() ==> (#[trigger] k[i]).len() > 0 && k[i] != seq!['.'] && !k[i].contains('/')
}

proof fn lemma_body(k: Seq<Seq<char>>)
    requires
        are_kept(k),
    ensures
        ({
            let body = split::joined(k, seq!['/']);
            &&& k.len() == 0 ==> body.len() == 0
            &&& k.len() > 0 ==> body.len() > 0 && split::pieces(body, '/') == k && body[0] != '/'
            &&& !(body.len() >= 2 && body[0] == '.' && body[1] == '/')
        }),
{
    let body = split::joined(k, seq!['/']);
    if k.len() > 0 {
        text_laws::pieces_are_what_was_joined(k, '/', body);
        assert(k[0].len() > 0);
        if body.len() == 0 {
            assert(split::pieces(body, '/') == seq![Seq::<char>::empty()]);
        } else if body[0] == '/' {
            let rest = body.drop_first();
            let none = Seq::<char>::empty();
            assert(body =~= none + seq!['/'] + rest);
            split::lemma_pieces_sum(none, rest, '/');
            assert(split::pieces(body, '/')[0] == none);
        } else if body.len() >= 2 && body[0] == '.' && body[1] == '/' {
            let dot = seq!['.'];
            let rest = body.skip(2);
            assert(body =~= dot + seq!['/'] + rest);
            split::lemma_pieces_sum(dot, rest, '/');
            lemma_dot_piece();
            assert(split::pieces(body, '/')[0] == dot);
        }
    }
}

proof fn lemma_dot_piece()
    ensures
        split::pieces(seq!['.'], '/') == seq![seq!['.']],
{
    assert(!seq!['.'].contains('/'));
    lemma_part(seq!['.']);
}

proof fn lemma_same_body(a: Seq<Seq<char>>, b: Seq<Seq<char>>)
    requires
        are_kept(a),
        are_kept(b),
        split::joined(a, seq!['/']) == split::joined(b, seq!['/']),
    ensures
        a == b,
{
    lemma_body(a);
    lemma_body(b);
    if a.len() == 0 && b.len() == 0 {
        assert(a =~= b);
    }
}

/// Two texts name the same path exactly if both begin at the root or neither does, both
/// begin with `.` or neither does, and their parts are the same, without empty ones and
/// without `.`.
pub proof fn same_paths_have_the_same_parts(a: Seq<char>, b: Seq<char>)
    ensures
        path::same_path(a, b) <==> path::is_rooted(a) == path::is_rooted(b) && (path::is_rooted(a)
            || begins_with_dot(a) == begins_with_dot(b)) && components(a) == components(b),
{
    let ka = path::kept_pieces(split::pieces(a, '/'));
    let kb = path::kept_pieces(split::pieces(b, '/'));
    split::lemma_pieces_without_sep(a, '/');
    split::lemma_pieces_without_sep(b, '/');
    lemma_kept(split::pieces(a, '/'));
    lemma_kept(split::pieces(b, '/'));
    lemma_body(ka);
    lemma_body(kb);
    let ba = split::joined(ka, seq!['/']);
    let bb = split::joined(kb, seq!['/']);
    let root = seq!['/'];
    let dot = seq!['.', '/'];
    if path::normal_form(a) == path::normal_form(b) {
        assert(path::is_rooted(a) ==> path::normal_form(a)[0] == '/');
        assert(path::is_rooted(b) ==> path::normal_form(b)[0] == '/');
        assert(!path::is_rooted(a) && begins_with_dot(a) ==> path::normal_form(a)[0] == '.'
            && path::normal_form(a)[1] == '/' && path::normal_form(a).len() >= 2);
        assert(!path::is_rooted(b) && begins_with_dot(b) ==> path::normal_form(b)[0] == '.'
            && path::normal_form(b)[1] == '/' && path::normal_form(b).len() >= 2);
        assert(path::is_rooted(a) ==> path::normal_form(a).len() >= 1);
        assert(path::is_rooted(b) ==> path::normal_form(b).len() >= 1);
        assert((root + ba).skip(1) =~= ba);
        assert((root + bb).skip(1) =~= bb);
        assert((dot + ba).skip(2) =~= ba);
        assert((dot + bb).skip(2) =~= bb);
        assert(ba == bb);
        lemma_same_body(ka, kb);
    }
}

// ---------------------------------------------------------------------------
// Programs
// ---------------------------------------------------------------------------

proof fn lemma_slashed(a: Seq<char>, b: Seq<char>)
    ensures
        path::slashed(a + b) == path::slashed(a) + path::slashed(b),
{
    assert(path::slashed(a + b) =~= path::slashed(a) + path::slashed(b));
}

/// A program is called by the name behind the last separator of its path, whichever
/// directory it lies in. On Windows a backslash parts a path too, and the letter of a
/// drive before it does not count.
pub proof fn programs_go_by_the_end_of_their_path(
    d: Seq<char>,
    n: Seq<char>,
    letter: char,
    platform: Platform,
)
    requires
        is_name(n),
    ensures
        platform != Platform::Windows ==> path::program_name_of(n, platform) == n
            && path::program_name_of(d + seq!['/'] + n, platform) == n,
        !n.contains('\\') && ('a' <= letter <= 'z' || 'A' <= letter <= 'Z')
            ==> path::program_name_of(seq![letter, ':'] + d + seq!['\\'] + n, Platform::Windows)
            == n && path::program_name_of(
            seq![letter, ':'] + d + seq!['/'] + n,
            Platform::Windows,
        ) == n,
{
    paths_end_with_names(d, n);
    if !n.contains('\\') && ('a' <= letter <= 'z' || 'A' <= letter <= 'Z') {
        let drive = seq![letter, ':'];
        assert(path::slashed(drive) =~= drive);
        assert(path::slashed(seq!['\\']) =~= seq!['/']);
        assert(path::slashed(seq!['/']) =~= seq!['/']);
        assert(path::slashed(n) =~= n) by {
            assert forall|i: int| 0 <= i < n.len() implies path::slashed(n)[i] == n[i] by {
                assert(n.contains(n[i]));
            }
        }
        let e = path::slashed(d);
        lemma_slashed(drive, d);
        lemma_slashed(drive + d, seq!['\\']);
        lemma_slashed(drive + d + seq!['\\'], n);
        lemma_slashed(drive + d, seq!['/']);
        lemma_slashed(drive + d + seq!['/'], n);
        let q = drive + e + seq!['/'] + n;
        assert(q.skip(2) =~= e + seq!['/'] + n);
        assert(q[0] == letter && q[1] == ':');
        paths_end_with_names(e, n);
    }
}

/// A path without a name has the empty one.
pub proof fn missing_names_are_empty(p: Seq<char>)
    ensures
        path::file_name_of(p) matches Some(n) ==> path::base_name(p) == n,
        path::file_name_of(p) is None ==> path::base_name(p).len() == 0,
        path::stem_of(p) matches Some(n) ==> path::stem_or_empty(p) == n,
        path::stem_of(p) is None ==> path::stem_or_empty(p).len() == 0,
{
}

/// Whether a text has neither separator of Windows in it.
pub open spec fn is_unparted(s: Seq<char>) -> bool {
    s.len() > 0 && !s.contains('/') && !s.contains('\\')
}

proof fn lemma_unparted(s: Seq<char>)
    requires
        is_unparted(s),
    ensures
        path::slashed(s) == s,
{
    assert forall|i: int| 0 <= i < s.len() implies path::slashed(s)[i] == s[i] by {
        assert(s.contains(s[i]));
    }
    assert(path::slashed(s) =~= s);
}

/// On Windows a path without a drive, and without a server, goes by its last part too;
/// and of a path on a server neither the server nor the share is a name.
pub proof fn paths_of_windows_end_with_names(
    d: Seq<char>,
    n: Seq<char>,
    server: Seq<char>,
    share: Seq<char>,
)
    requires
        is_name(n),
        is_unparted(n),
        is_unparted(server),
        is_unparted(share),
    ensures
        (n.len() < 2 || n[1] != ':') ==> path::program_name_of(n, Platform::Windows) == n,
        d.len() > 0 && d[0] != '/' && d[0] != '\\' && (d.len() < 2 || d[1] != ':')
            ==> path::program_name_of(d + seq!['\\'] + n, Platform::Windows) == n,
        path::program_name_of(
            seq!['\\', '\\'] + server + seq!['\\'] + share + seq!['\\'] + n,
            Platform::Windows,
        ) == n,
        path::program_name_of(
            seq!['\\', '\\'] + server + seq!['\\'] + share,
            Platform::Windows,
        ).len() == 0,
{
    let none = Seq::<char>::empty();
    lemma_unparted(n);
    lemma_unparted(server);
    lemma_unparted(share);
    assert(n.contains(n[0]));
    paths_end_with_names(none, n);
    assert(path::slashed(seq!['\\']) =~= seq!['/']);
    let e = path::slashed(d);
    lemma_slashed(d, seq!['\\']);
    lemma_slashed(d + seq!['\\'], n);
    paths_end_with_names(e, n);
    if d.len() > 0 && d[0] != '/' && d[0] != '\\' && (d.len() < 2 || d[1] != ':') {
        let q = e + seq!['/'] + n;
        assert(q[0] == d[0]);
        if d.len() >= 2 {
            assert(q[1] == path::slashed_char(d[1]));
        }
        assert(!path::has_drive(q));
        assert(!path::has_share(q));
    }
    let two = seq!['\\', '\\'];
    let sep = seq!['\\'];
    assert(path::slashed(two) =~= seq!['/', '/']);
    lemma_slashed(two, server);
    lemma_slashed(two + server, sep);
    lemma_slashed(two + server + sep, share);
    lemma_slashed(two + server + sep + share, sep);
    lemma_slashed(two + server + sep + share + sep, n);
    let root = seq!['/', '/'] + server + seq!['/'] + share;
    let q = root + seq!['/'] + n;
    let inner = server + seq!['/'] + share;
    assert(root.skip(2) =~= inner);
    assert(q.skip(2) =~= inner + seq!['/'] + n);
    lemma_part(server);
    lemma_part(share);
    lemma_part(n);
    split::lemma_pieces_sum(server, share, '/');
    split::lemma_pieces_sum(inner, n, '/');
    assert(root[0] == '/' && q[0] == '/');
    assert(q.skip((3 + server.len() + share.len()) as int) =~= none + seq!['/'] + n);
    assert(root.skip((3 + server.len() + share.len()) as int) =~= none);
}

proof fn lemma_part(s: Seq<char>)
    requires
        !s.contains('/'),
    ensures
        split::pieces(s, '/') == seq![s],
{
    let parts = seq![s];
    text_laws::pieces_are_what_was_joined(parts, '/', s);
}

} // verus!
