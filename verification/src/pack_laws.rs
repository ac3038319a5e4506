//! Which repository an address names, and what is a pack.

use vstd::prelude::*;

use crate::pack;
use crate::skills;
use crate::split;
use crate::text;
use crate::text_laws;

verus! {

/// Whether a text can be a part of a path: it is not empty and has no separator.
pub open spec fn is_part(s: Seq<char>) -> bool {
    s.len() > 0 && !s.contains('/')
}

/// What may follow `owner/repo` in the path of an address: nothing, `.git`, or further
/// parts that do not end in `.git`.
pub open spec fn may_trail(tail: Seq<char>) -> bool {
    ||| tail.len() == 0
    ||| tail == ".git"@
    ||| tail[0] == '/' && !text::has_suffix(tail, ".git"@)
}

proof fn lemma_no_ending(x: Seq<char>, y: Seq<char>)
    requires
        y.len() > 0,
        y[0] == '/',
        !text::has_suffix(y, ".git"@),
    ensures
        !text::has_suffix(x + y, ".git"@),
{
    reveal_strlit(".git");
    let g = ".git"@;
    let s = x + y;
    if text::has_suffix(s, g) {
        let e = s.skip(s.len() - 4);
        if y.len() >= 4 {
            assert(e =~= y.skip(y.len() - 4));
        } else {
            assert(e[4 - y.len()] == s[s.len() - y.len()]);
            assert(s[s.len() - y.len()] == y[0]);
        }
    }
}

proof fn lemma_one_part(s: Seq<char>)
    requires
        !s.contains('/'),
    ensures
        split::pieces(s, '/') == seq![s],
{
    let parts = seq![s];
    text_laws::pieces_are_what_was_joined(parts, '/', s);
}

proof fn lemma_first_parts(o: Seq<char>, r: Seq<char>, tail: Seq<char>)
    requires
        !o.contains('/'),
        !r.contains('/'),
        tail.len() > 0 ==> tail[0] == '/',
    ensures
        ({
            let p = split::pieces(o + seq!['/'] + r + tail, '/');
            p.len() >= 2 && p[0] == o && p[1] == r && (tail.len() == 0 ==> p.len() == 2)
        }),
{
    lemma_one_part(o);
    lemma_one_part(r);
    if tail.len() == 0 {
        assert(o + seq!['/'] + r + tail =~= o + seq!['/'] + r);
        split::lemma_pieces_sum(o, r, '/');
    } else {
        let rest = tail.drop_first();
        let x = r + seq!['/'] + rest;
        assert(o + seq!['/'] + r + tail =~= o + seq!['/'] + x);
        split::lemma_pieces_sum(o, x, '/');
        split::lemma_pieces_sum(r, rest, '/');
    }
}

proof fn lemma_path_pack(o: Seq<char>, r: Seq<char>, tail: Seq<char>)
    requires
        is_part(o),
        is_part(r),
        !text::has_suffix(r, ".git"@),
        may_trail(tail),
    ensures
        pack::path_pack(o + seq!['/'] + r + tail) == Some(o + seq!['/'] + r),
{
    reveal_strlit(".git");
    let g = ".git"@;
    let base = o + seq!['/'] + r;
    let y = seq!['/'] + r;
    assert(!text::has_suffix(y, g)) by {
        if text::has_suffix(y, g) {
            if r.len() >= 4 {
                assert(y.skip(y.len() - 4) =~= r.skip(r.len() - 4));
            } else {
                assert(y.skip(y.len() - 4)[0] == y[0]);
            }
        }
    }
    lemma_no_ending(o, y);
    assert(base =~= o + y);
    text_laws::endings_are_taken_off(base, g);
    let none = Seq::<char>::empty();
    lemma_first_parts(o, r, none);
    assert(base + none =~= base);
    if tail.len() == 0 {
        assert(base + tail =~= base);
    } else if tail != g {
        lemma_no_ending(base, tail);
        lemma_first_parts(o, r, tail);
    }
}

/// The address of a repository names its owner and itself: for cloning over SSH, from
/// any host; and with any scheme, from any host. A `.git` at its end and further parts
/// behind it do not count.
pub proof fn addresses_name_their_repository(
    scheme: Seq<char>,
    host: Seq<char>,
    o: Seq<char>,
    r: Seq<char>,
    tail: Seq<char>,
)
    requires
        is_part(o),
        is_part(r),
        !text::has_suffix(r, ".git"@),
        may_trail(tail),
    ensures
        !host.contains(':') ==> pack::pack_of("git@"@ + host + seq![':'] + o + seq!['/'] + r + tail)
            == Some(o + seq!['/'] + r),
        !host.contains('/') && !scheme.contains(':') && !scheme.contains('@') ==> pack::pack_of(
            scheme + "://"@ + host + seq!['/'] + o + seq!['/'] + r + tail,
        ) == Some(o + seq!['/'] + r),
{
    let p = o + seq!['/'] + r + tail;
    lemma_path_pack(o, r, tail);
    if !host.contains(':') {
        let git = "git@"@;
        let rest = host + seq![':'] + p;
        assert(git + host + seq![':'] + o + seq!['/'] + r + tail =~= git + rest);
        text_laws::beginnings_and_ends_are_told(git, rest);
        text_laws::text_follows_the_first(host, ':', p);
    }
    if !host.contains('/') && !scheme.contains(':') && !scheme.contains('@') {
        reveal_strlit("://");
        reveal_strlit("git@");
        let sep = "://"@;
        let url = scheme + sep + host + seq!['/'] + o + seq!['/'] + r + tail;
        let rest = host + seq!['/'] + p;
        let n = scheme.len() as int;
        assert(url =~= scheme + sep + rest);
        assert(!text::has_prefix(url, "git@"@)) by {
            if text::has_prefix(url, "git@"@) {
                let t = url.take(4);
                assert(t[3] == '@' && t[0] == 'g');
                assert(url[3] == '@' && url[0] == 'g');
                if n > 3 {
                    assert(scheme.contains(scheme[3]));
                } else if n > 0 {
                    assert(url[3] == sep[3 - n]);
                }
            }
        }
        split::lemma_found(url, sep);
        assert(url.subrange(n, n + 3) =~= sep);
        assert(split::occurs_at(url, sep, n));
        let i = split::found(url, sep)->0;
        if i < n {
            assert(url.subrange(i, i + 3)[0] == url[i]);
            assert(scheme.contains(scheme[i]));
        }
        assert(i == n);
        assert(url.skip(i + 3) =~= rest);
        text_laws::text_follows_the_first(host, '/', p);
    }
}

/// A text without a host names a repository by itself, if it begins with an owner and a
/// repository; an owner with a dot or a colon is a host, and names none. Nor does a text
/// without a separator.
pub proof fn texts_name_repositories(o: Seq<char>, r: Seq<char>, tail: Seq<char>)
    requires
        !o.contains('/'),
        !o.contains('@'),
        !r.contains('/'),
        tail.len() > 0 ==> tail[0] == '/',
        !split::has_text(o + seq!['/'] + r + tail, "://"@),
        !split::has_text(o, "://"@),
    ensures
        pack::pack_of(o) is None,
        o.contains('.') || o.contains(':') ==> pack::pack_of(o + seq!['/'] + r + tail) is None,
        !o.contains('.') && !o.contains(':') && o.len() > 0 && r.len() > 0 ==> pack::pack_of(
            o + seq!['/'] + r + tail,
        ) == Some(o + seq!['/'] + r),
        o.len() == 0 || r.len() == 0 ==> pack::pack_of(o + seq!['/'] + r + tail) is None,
{
    reveal_strlit("git@");
    let url = o + seq!['/'] + r + tail;
    split::lemma_found(url, "://"@);
    split::lemma_found(o, "://"@);
    lemma_first_parts(o, r, tail);
    lemma_one_part(o);
    if text::has_prefix(url, "git@"@) {
        let t = url.take(4);
        assert(t[0] == 'g' && t[1] == 'i' && t[2] == 't' && t[3] == '@');
        if o.len() > 3 {
            assert(url[3] == o[3]);
            assert(o.contains(o[3]));
        } else {
            assert(url[o.len() as int] == '/');
            assert(t[o.len() as int] == '/');
        }
    }
    if text::has_prefix(o, "git@"@) {
        assert(o.take(4)[3] == '@');
        assert(o.contains(o[3]));
    }
}

/// A pack is an owner and a repository with a separator between them: of letters and
/// digits, hyphens and underscores, and in the repository dots.
pub proof fn packs_have_an_owner_and_a_repository(o: Seq<char>, r: Seq<char>)
    requires
        !o.contains('/'),
        !r.contains('/'),
    ensures
        pack::is_pack(o + seq!['/'] + r) <==> o.len() > 0 && r.len() > 0 && (forall|i: int|
            0 <= i < o.len() ==> 'a' <= #[trigger] o[i] <= 'z' || 'A' <= o[i] <= 'Z' || '0' <= o[i]
                <= '9' || o[i] == '-' || o[i] == '_') && (forall|i: int|
            0 <= i < r.len() ==> 'a' <= #[trigger] r[i] <= 'z' || 'A' <= r[i] <= 'Z' || '0' <= r[i]
                <= '9' || r[i] == '-' || r[i] == '_' || r[i] == '.'),
        !pack::is_pack(o),
{
    let none = Seq::<char>::empty();
    lemma_first_parts(o, r, none);
    assert(o + seq!['/'] + r + none =~= o + seq!['/'] + r);
    lemma_one_part(o);
}

/// What the user types for a pack, and is no address, is read without white space
/// around it; of further parts behind `owner/repo` nothing is kept. What does not begin
/// that way stays as it is.
pub proof fn typed_packs_are_shortened(
    input: Seq<char>,
    o: Seq<char>,
    r: Seq<char>,
    tail: Seq<char>,
)
    requires
        pack::github_path(text::trimmed(input)) is None,
        !pack::is_address(text::trimmed(input)),
        !o.contains('/'),
        !r.contains('/'),
        tail.len() > 0 ==> tail[0] == '/',
    ensures
        text::trimmed(input) == o ==> pack::normal_pack(input) == o,
        text::trimmed(input) == o + seq!['/'] + r + tail ==> pack::normal_pack(input) == (if o.len()
            > 0 && r.len() > 0 && !o.contains('.') && !o.contains(':') {
            o + seq!['/'] + r
        } else {
            text::trimmed(input)
        }),
{
    lemma_first_parts(o, r, tail);
    lemma_one_part(o);
}

/// What comes from an address belongs to the pack that the address names; what comes
/// from none belongs to none.
pub proof fn sources_belong_to_the_pack_of_their_address(url: Seq<char>)
    ensures
        skills::pack_of_url(Some(url)) == pack::pack_of(url),
        skills::pack_of_url(None) is None,
{
}

} // verus!
