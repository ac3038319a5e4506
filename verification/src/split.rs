//! Searching, splitting and joining of strings.

use vstd::prelude::*;
use vstd::string::StrSliceExecFns;

use crate::text;
use crate::text::{chars_of, string_of, trim_start_of, Class};

verus! {

// ---------------------------------------------------------------------------
// Searching
// ---------------------------------------------------------------------------

/// Whether `p` stands in `s` at index `i`.
pub open spec fn occurs_at(s: Seq<char>, p: Seq<char>, i: int) -> bool {
    0 <= i && i + p.len() <= s.len() && s.subrange(i, i + p.len()) == p
}

/// Whether `p` stands somewhere in `s`.
pub open spec fn has_text(s: Seq<char>, p: Seq<char>) -> bool {
    exists|i: int| occurs_at(s, p, i)
}

/// The first index from `i` on at which `p` stands in `s`.
pub open spec fn found_from(s: Seq<char>, p: Seq<char>, i: int) -> Option<int>
    decreases s.len() + 1 - i,
{
    if i < 0 || i + p.len() > s.len() {
        None
    } else if occurs_at(s, p, i) {
        Some(i)
    } else {
        found_from(s, p, i + 1)
    }
}

/// The first index at which `p` stands in `s`.
pub open spec fn found(s: Seq<char>, p: Seq<char>) -> Option<int> {
    found_from(s, p, 0)
}

/// `found` names the least index at which the text occurs, and none exactly
/// where it does not occur.
pub proof fn lemma_found(s: Seq<char>, p: Seq<char>)
    ensures
        match found(s, p) {
            Some(i) => occurs_at(s, p, i) && forall|j: int| j < i ==> !occurs_at(s, p, j),
            None => forall|j: int| !occurs_at(s, p, j),
        },
        found(s, p) is Some <==> has_text(s, p),
{
    lemma_found_from(s, p, 0);
}

proof fn lemma_found_from(s: Seq<char>, p: Seq<char>, i: int)
    requires
        0 <= i,
        forall|j: int| j < i ==> !occurs_at(s, p, j),
    ensures
        match found_from(s, p, i) {
            Some(k) => occurs_at(s, p, k) && forall|j: int| j < k ==> !occurs_at(s, p, j),
            None => forall|j: int| !occurs_at(s, p, j),
        },
    decreases s.len() + 1 - i,
{
    if i + p.len() <= s.len() && !occurs_at(s, p, i) {
        lemma_found_from(s, p, i + 1);
    }
}

/// The first index, counted in characters, at which `p` stands in `s`.
pub fn find(s: &str, p: &str) -> (r: Option<usize>)
    ensures
        match r {
            Some(i) => found(s@, p@) == Some(i as int),
            None => found(s@, p@) is None,
        },
        r matches Some(i) ==> i + p@.len() <= s@.len(),
{
    let cs = chars_of(s);
    let ps = chars_of(p);
    if ps.len() > cs.len() {
        return None;
    }
    let mut i: usize = 0;
    let last: usize = cs.len() - ps.len();
    while i <= last
        invariant
            cs@ == s@,
            ps@ == p@,
            last + ps.len() == cs.len(),
            i <= last + 1,
            found(s@, p@) == found_from(s@, p@, i as int),
        decreases last + 1 - i,
    {
        if region_eq(&cs, &ps, i) {
            return Some(i);
        }
        if i == last {
            assert(found_from(s@, p@, i + 1) is None);
            return None;
        }
        i += 1;
    }
    None
}

fn region_eq(s: &Vec<char>, p: &Vec<char>, at: usize) -> (r: bool)
    requires
        at + p.len() <= s.len(),
    ensures
        r == occurs_at(s@, p@, at as int),
{
    let mut i: usize = 0;
    while i < p.len()
        invariant
            i <= p.len(),
            at + p.len() <= s.len(),
            forall|j: int| 0 <= j < i ==> s@[at + j] == #[trigger] p@[j],
        decreases p.len() - i,
    {
        if s[at + i] != p[i] {
            assert(s@.subrange(at as int, at + p.len())[i as int] != p@[i as int]);
            return false;
        }
        i += 1;
    }
    assert(s@.subrange(at as int, at + p.len()) =~= p@);
    true
}

/// Whether `p` stands somewhere in `s`.
pub fn contains(s: &str, p: &str) -> (r: bool)
    ensures
        r == has_text(s@, p@),
{
    proof {
        lemma_found(s@, p@);
    }
    find(s, p).is_some()
}

/// Whether `s` holds the character `c`.
pub fn contains_char(s: &str, c: char) -> (r: bool)
    ensures
        r == s@.contains(c),
{
    let cs = chars_of(s);
    let mut i: usize = 0;
    while i < cs.len()
        invariant
            cs@ == s@,
            i <= cs.len(),
            forall|j: int| 0 <= j < i ==> #[trigger] cs@[j] != c,
        decreases cs.len() - i,
    {
        if cs[i] == c {
            assert(s@[i as int] == c);
            return true;
        }
        i += 1;
    }
    false
}

/// What follows the first `c` of `s`, if there is one.
pub open spec fn after_first(s: Seq<char>, c: char) -> Option<Seq<char>>
    decreases s.len(),
{
    if s.len() == 0 {
        None
    } else if s[0] == c {
        Some(s.drop_first())
    } else {
        after_first(s.drop_first(), c)
    }
}

/// What follows the first `c` of `s`, if there is one.
pub fn rest_after<'a>(s: &'a str, c: char) -> (r: Option<&'a str>)
    ensures
        (match r {
            Some(t) => Some(t@),
            None => None,
        }) == after_first(s@, c),
{
    let cs = chars_of(s);
    let n: usize = cs.len();
    let mut i: usize = 0;
    assert(s@.skip(0) =~= s@);
    while i < n
        invariant
            cs@ == s@,
            i <= n == cs.len(),
            after_first(s@.skip(i as int), c) == after_first(s@, c),
        decreases n - i,
    {
        assert(s@.skip(i as int).drop_first() =~= s@.skip(i + 1));
        if cs[i] == c {
            assert(s@.subrange(i + 1, n as int) =~= s@.skip(i + 1));
            return Some(s.substring_char(i + 1, n));
        }
        i += 1;
    }
    None
}

// ---------------------------------------------------------------------------
// Splitting
// ---------------------------------------------------------------------------

/// The pieces of `s` between its occurrences of `sep`.
pub open spec fn pieces(s: Seq<char>, sep: char) -> Seq<Seq<char>>
    decreases s.len(),
{
    if s.len() == 0 {
        seq![Seq::<char>::empty()]
    } else {
        let p = pieces(s.drop_last(), sep);
        if s.last() == sep {
            p.push(Seq::<char>::empty())
        } else {
            p.drop_last().push(p.last().push(s.last()))
        }
    }
}

/// There is always at least one piece.
pub proof fn lemma_pieces_nonempty(s: Seq<char>, sep: char)
    ensures
        pieces(s, sep).len() >= 1,
    decreases s.len(),
{
    if s.len() > 0 {
        lemma_pieces_nonempty(s.drop_last(), sep);
    }
}

/// No piece holds the separator.
pub proof fn lemma_pieces_without_sep(s: Seq<char>, sep: char)
    ensures
        pieces(s, sep).len() >= 1,
        forall|i: int| 0 <= i < pieces(s, sep).len() ==> !(#[trigger] pieces(s, sep)[i]).contains(
            sep,
        ),
    decreases s.len(),
{
    if s.len() > 0 {
        lemma_pieces_without_sep(s.drop_last(), sep);
        let p = pieces(s.drop_last(), sep);
        let q = pieces(s, sep);
        assert forall|i: int| 0 <= i < q.len() implies !(#[trigger] q[i]).contains(sep) by {
            if s.last() != sep && i == q.len() - 1 {
                assert(!p.last().contains(sep));
                assert forall|k: int| 0 <= k < q[i].len() implies q[i][k] != sep by {
                    if k < p.last().len() {
                        assert(p.last()[k] != sep);
                    }
                }
            } else if i < p.len() {
                assert(q[i] == p[i]);
            }
        }
    }
}

/// The pieces of two texts with a separator between them are those of the one and
/// then those of the other.
pub proof fn lemma_pieces_sum(s: Seq<char>, t: Seq<char>, sep: char)
    ensures
        pieces(s + seq![sep] + t, sep) == pieces(s, sep) + pieces(t, sep),
    decreases t.len(),
{
    let all = s + seq![sep] + t;
    lemma_pieces_nonempty(t, sep);
    if t.len() == 0 {
        assert(all.drop_last() =~= s);
        assert(pieces(all, sep) =~= pieces(s, sep) + pieces(t, sep));
    } else {
        lemma_pieces_sum(s, t.drop_last(), sep);
        lemma_pieces_nonempty(t.drop_last(), sep);
        assert(all.drop_last() =~= s + seq![sep] + t.drop_last());
        assert(all.last() == t.last());
        assert(pieces(all, sep) =~= pieces(s, sep) + pieces(t, sep));
    }
}

/// The first two pieces and the separator between them fit into the text.
pub proof fn lemma_first_pieces_fit(s: Seq<char>, sep: char)
    ensures
        pieces(s, sep).len() >= 1,
        pieces(s, sep)[0].len() <= s.len(),
        pieces(s, sep).len() >= 2 ==> pieces(s, sep)[0].len() + 1 + pieces(s, sep)[1].len()
            <= s.len(),
    decreases s.len(),
{
    if s.len() > 0 {
        lemma_first_pieces_fit(s.drop_last(), sep);
    }
}

/// The pieces of `s` between its occurrences of `sep`.
pub fn split(s: &str, sep: char) -> (r: Vec<String>)
    ensures
        text::strs(r@) == pieces(s@, sep),
        r.len() >= 1,
{
    let cs = chars_of(s);
    let mut out: Vec<String> = Vec::new();
    let mut cur = String::new();
    let mut i: usize = 0;
    assert(text::strs(out@).push(cur@) =~= pieces(s@.take(0), sep));
    while i < cs.len()
        invariant
            cs@ == s@,
            i <= cs.len(),
            text::strs(out@).push(cur@) == pieces(s@.take(i as int), sep),
        decreases cs.len() - i,
    {
        let ghost before = pieces(s@.take(i as int), sep);
        assert(s@.take(i + 1).drop_last() =~= s@.take(i as int));
        let c = cs[i];
        if c == sep {
            let ghost o = out@;
            out.push(cur);
            cur = String::new();
            assert(text::strs(out@) =~= before);
        } else {
            cur.push(c);
            assert(before.drop_last() =~= text::strs(out@));
        }
        i += 1;
    }
    assert(s@.take(i as int) =~= s@);
    let ghost o = text::strs(out@);
    let ghost last = cur@;
    out.push(cur);
    assert(text::strs(out@) =~= o.push(last));
    out
}

/// A line without the carriage return that precedes its line feed.
pub open spec fn without_cr(s: Seq<char>) -> Seq<char> {
    if s.len() > 0 && s.last() == '\r' {
        s.drop_last()
    } else {
        s
    }
}

/// The lines of `s`: the texts that end in a line feed, without it and without
/// a carriage return before it, and what follows the last line feed unless that
/// is empty.
pub open spec fn lines_of(s: Seq<char>) -> Seq<Seq<char>> {
    let p = pieces(s, '\n');
    let ended = p.drop_last().map_values(|l: Seq<char>| without_cr(l));
    if p.last().len() == 0 {
        ended
    } else {
        ended.push(p.last())
    }
}

/// The lines of `s`.
pub fn lines(s: &str) -> (r: Vec<String>)
    ensures
        text::strs(r@) == lines_of(s@),
{
    let parts = split(s, '\n');
    let ghost p = text::strs(parts@);
    let n: usize = parts.len();
    let mut out: Vec<String> = Vec::new();
    let mut i: usize = 0;
    while i < n - 1
        invariant
            1 <= n == parts.len(),
            i <= n - 1,
            p == text::strs(parts@),
            out.len() == i,
            forall|j: int| 0 <= j < i ==> (#[trigger] out@[j])@ == without_cr(p[j]),
        decreases n - i,
    {
        let part: &String = &parts[i];
        assert(p[i as int] == part@);
        let len: usize = part.as_str().unicode_len();
        if len > 0 && part.as_str().get_char(len - 1) == '\r' {
            assert(part@.subrange(0, len - 1) =~= part@.drop_last());
            out.push(part.as_str().substring_char(0, len - 1).to_owned());
        } else {
            out.push(part.clone());
        }
        i += 1;
    }
    let ghost ended = p.drop_last().map_values(|l: Seq<char>| without_cr(l));
    assert(text::strs(out@) =~= ended);
    let last: &String = &parts[n - 1];
    assert(p.last() == last@);
    if !last.as_str().is_empty() {
        let ghost o = text::strs(out@);
        out.push(last.clone());
        assert(text::strs(out@) =~= o.push(last@));
    }
    out
}

/// The leading characters of `s` that are no white space.
pub open spec fn head_token(s: Seq<char>) -> Seq<char>
    decreases s.len(),
{
    if s.len() == 0 || text::is_white(s[0]) {
        Seq::<char>::empty()
    } else {
        seq![s[0]] + head_token(s.drop_first())
    }
}

/// The first word of `s`, words being parted by white space.
pub open spec fn first_word(s: Seq<char>) -> Option<Seq<char>> {
    let t = text::trimmed_start(s, Class::White);
    if t.len() == 0 {
        None
    } else {
        Some(head_token(t))
    }
}

/// The first word of `s`, words being parted by white space.
pub fn first_token(s: &str) -> (r: Option<String>)
    ensures
        text::ostr(r) == first_word(s@),
{
    let t = trim_start_of(s, Class::White);
    if t.is_empty() {
        return None;
    }
    let cs = chars_of(t);
    let mut i: usize = 0;
    let k = Class::White;
    assert(t@.skip(0) =~= t@);
    assert(t@.take(0) + head_token(t@.skip(0)) =~= head_token(t@));
    while i < cs.len() && !k.has(cs[i])
        invariant
            cs@ == t@,
            k == Class::White,
            i <= cs.len(),
            t@.take(i as int) + head_token(t@.skip(i as int)) == head_token(t@),
        decreases cs.len() - i,
    {
        assert(t@.skip(i as int).drop_first() =~= t@.skip(i + 1));
        assert(t@.take(i + 1) + head_token(t@.skip(i + 1)) =~= t@.take(i as int) + (
        seq![t@[i as int]] + head_token(t@.skip(i + 1))));
        i += 1;
    }
    assert(t@.take(i as int) + head_token(t@.skip(i as int)) =~= t@.take(i as int));
    assert(cs@.subrange(0, i as int) =~= t@.take(i as int));
    Some(string_of(&cs, 0, i))
}

// ---------------------------------------------------------------------------
// Replacing and joining
// ---------------------------------------------------------------------------

/// `s` with every character `a` turned into `b`.
pub open spec fn replaced(s: Seq<char>, a: char, b: char) -> Seq<char> {
    Seq::new(s.len(), |i: int| if s[i] == a { b } else { s[i] })
}

/// `s` with every character `a` turned into `b`.
pub fn replace_char(s: &str, a: char, b: char) -> (r: String)
    ensures
        r@ == replaced(s@, a, b),
{
    let cs = chars_of(s);
    let mut out = String::new();
    let mut i: usize = 0;
    while i < cs.len()
        invariant
            cs@ == s@,
            i <= cs.len(),
            out@ =~= replaced(s@, a, b).take(i as int),
        decreases cs.len() - i,
    {
        if cs[i] == a {
            out.push(b);
        } else {
            out.push(cs[i]);
        }
        i += 1;
    }
    assert(replaced(s@, a, b).take(i as int) =~= replaced(s@, a, b));
    out
}

/// The texts of `parts` with `sep` between them.
pub open spec fn joined(parts: Seq<Seq<char>>, sep: Seq<char>) -> Seq<char>
    decreases parts.len(),
{
    if parts.len() == 0 {
        Seq::<char>::empty()
    } else if parts.len() == 1 {
        parts[0]
    } else {
        joined(parts.drop_last(), sep) + sep + parts.last()
    }
}

/// The strings of `parts` with `sep` between them.
pub fn join(parts: &Vec<String>, sep: &str) -> (r: String)
    ensures
        r@ == joined(text::strs(parts@), sep@),
{
    let mut out = String::new();
    let ghost p = text::strs(parts@);
    let mut i: usize = 0;
    while i < parts.len()
        invariant
            p == text::strs(parts@),
            i <= parts.len(),
            out@ == joined(p.take(i as int), sep@),
        decreases parts.len() - i,
    {
        assert(p.take(i + 1).drop_last() =~= p.take(i as int));
        assert(p[i as int] == parts@[i as int]@);
        if i > 0 {
            out.append(sep);
        } else {
            assert(out@ + parts@[0]@ =~= parts@[0]@);
        }
        out.append(&parts[i]);
        i += 1;
    }
    assert(p.take(i as int) =~= p);
    out
}

} // verus!
