//! What parting, joining and trimming do to a text.

use vstd::prelude::*;

use crate::pack;
use crate::split;
use crate::text;
use crate::text::Class;

verus! {

/// Trimming takes exactly the characters of a class off both ends.
pub proof fn trimming_takes_both_ends(s: Seq<char>, k: Class)
    ensures
        exists|i: int, j: int|
            0 <= i <= j <= s.len() && text::trimmed_of(s, k) == #[trigger] s.subrange(i, j)
                && (forall|x: int| 0 <= x < s.len() && !(i <= x < j) ==> k.holds(#[trigger] s[x]))
                && (i < j ==> !k.holds(s[i]) && !k.holds(s[j - 1])),
{
    let i = lemma_trimmed_start(s, k);
    let t = s.subrange(i, s.len() as int);
    let j = lemma_trimmed_end(t, k);
    assert(t.subrange(0, j) =~= s.subrange(i, i + j));
    assert forall|x: int| 0 <= x < s.len() && !(i <= x < i + j) implies k.holds(
        #[trigger] s[x],
    ) by {
        if x >= i + j {
            assert(t[x - i] == s[x]);
        }
    }
    if j > 0 {
        assert(t[j - 1] == s[i + j - 1]);
        if j < t.len() || i < s.len() {
            assert(t[0] == s[i]);
        }
    }
}

proof fn lemma_trimmed_start(s: Seq<char>, k: Class) -> (i: int)
    ensures
        0 <= i <= s.len(),
        text::trimmed_start(s, k) == s.subrange(i, s.len() as int),
        forall|x: int| 0 <= x < i ==> k.holds(#[trigger] s[x]),
        i < s.len() ==> !k.holds(s[i]),
    decreases s.len(),
{
    if s.len() > 0 && k.holds(s[0]) {
        let t = s.drop_first();
        let i = lemma_trimmed_start(t, k);
        assert(t.subrange(i, t.len() as int) =~= s.subrange(i + 1, s.len() as int));
        assert forall|x: int| 0 <= x < i + 1 implies k.holds(#[trigger] s[x]) by {
            if x > 0 {
                assert(t[x - 1] == s[x]);
            }
        }
        if i < t.len() {
            assert(t[i] == s[i + 1]);
        }
        i + 1
    } else {
        assert(s.subrange(0, s.len() as int) =~= s);
        0
    }
}

proof fn lemma_trimmed_end(s: Seq<char>, k: Class) -> (j: int)
    ensures
        0 <= j <= s.len(),
        text::trimmed_end(s, k) == s.subrange(0, j),
        forall|x: int| j <= x < s.len() ==> k.holds(#[trigger] s[x]),
        j > 0 ==> !k.holds(s[j - 1]),
    decreases s.len(),
{
    if s.len() > 0 && k.holds(s.last()) {
        let t = s.drop_last();
        let j = lemma_trimmed_end(t, k);
        assert(t.subrange(0, j) =~= s.subrange(0, j));
        assert forall|x: int| j <= x < s.len() implies k.holds(#[trigger] s[x]) by {
            if x < t.len() {
                assert(t[x] == s[x]);
            }
        }
        j
    } else {
        assert(s.subrange(0, s.len() as int) =~= s);
        s.len() as int
    }
}

/// A text begins with what it was put together from, and ends with it.
pub proof fn beginnings_and_ends_are_told(a: Seq<char>, b: Seq<char>)
    ensures
        text::has_prefix(a + b, a),
        text::has_suffix(a + b, b),
        text::after_prefix(a + b, a) == Some(b),
        text::before_suffix(a + b, b) == Some(a),
        text::has_prefix(a, b) ==> exists|t: Seq<char>| a == #[trigger] (b + t),
        text::has_suffix(a, b) ==> exists|t: Seq<char>| a == #[trigger] (t + b),
{
    assert((a + b).take(a.len() as int) =~= a);
    assert((a + b).skip(a.len() as int) =~= b);
    assert((a + b).take((a + b).len() - b.len()) =~= a);
    if text::has_prefix(a, b) {
        assert(a =~= b + a.skip(b.len() as int));
    }
    if text::has_suffix(a, b) {
        assert(a =~= a.take(a.len() - b.len()) + b);
    }
}

/// An ending that is taken off is taken off as often as it stands there.
pub proof fn endings_are_taken_off(s: Seq<char>, p: Seq<char>)
    requires
        p.len() > 0,
    ensures
        text::without_suffixes(s + p, p) == text::without_suffixes(s, p),
        !text::has_suffix(s, p) ==> text::without_suffixes(s, p) == s,
{
    assert((s + p).skip((s + p).len() - p.len()) =~= p);
    assert((s + p).take((s + p).len() - p.len()) =~= s);
}

/// What follows the first of a character is what follows it there; nothing does where
/// it does not occur.
pub proof fn text_follows_the_first(a: Seq<char>, c: char, b: Seq<char>)
    requires
        !a.contains(c),
    ensures
        split::after_first(a, c) is None,
        split::after_first(a + seq![c] + b, c) == Some(b),
    decreases a.len(),
{
    let s = a + seq![c] + b;
    if a.len() == 0 {
        assert(s.drop_first() =~= b);
    } else {
        let t = a.drop_first();
        assert(a.contains(a[0]));
        assert(!t.contains(c)) by {
            if t.contains(c) {
                let i = choose|i: int| 0 <= i < t.len() && t[i] == c;
                assert(a[i + 1] == c);
            }
        }
        assert(s.drop_first() =~= t + seq![c] + b);
        text_follows_the_first(t, c, b);
    }
}

/// Joining puts the separator between the parts, and nowhere else.
pub proof fn parts_are_joined(a: Seq<Seq<char>>, b: Seq<Seq<char>>, x: Seq<char>, sep: Seq<char>)
    ensures
        split::joined(Seq::<Seq<char>>::empty(), sep).len() == 0,
        split::joined(seq![x], sep) == x,
        a.len() > 0 && b.len() > 0 ==> split::joined(a + b, sep) == split::joined(a, sep) + sep
            + split::joined(b, sep),
    decreases b.len(),
{
    if a.len() > 0 && b.len() > 0 {
        assert((a + b).drop_last() =~= a + b.drop_last());
        if b.len() == 1 {
            assert(a + b.drop_last() =~= a);
        } else {
            parts_are_joined(a, b.drop_last(), x, sep);
            assert(split::joined(a, sep) + sep + split::joined(b.drop_last(), sep) + sep + b.last()
                =~= split::joined(a, sep) + sep + (split::joined(b.drop_last(), sep) + sep
                + b.last()));
        }
    }
}

proof fn lemma_one_piece(s: Seq<char>, sep: char)
    requires
        !s.contains(sep),
    ensures
        split::pieces(s, sep) == seq![s],
    decreases s.len(),
{
    if s.len() > 0 {
        let t = s.drop_last();
        assert(s.contains(s.last()));
        assert(!t.contains(sep)) by {
            if t.contains(sep) {
                let i = choose|i: int| 0 <= i < t.len() && t[i] == sep;
                assert(s[i] == sep);
            }
        }
        lemma_one_piece(t, sep);
        assert(t.push(s.last()) =~= s);
        assert(split::pieces(s, sep) =~= seq![s]);
    } else {
        assert(s =~= Seq::<char>::empty());
    }
}

/// Parting undoes joining, and joining undoes parting: a text has the pieces that were
/// joined to it, if the separator is in none of them.
pub proof fn pieces_are_what_was_joined(parts: Seq<Seq<char>>, sep: char, s: Seq<char>)
    requires
        parts.len() > 0,
        forall|i: int| 0 <= i < parts.len() ==> !(#[trigger] parts[i]).contains(sep),
    ensures
        split::pieces(split::joined(parts, seq![sep]), sep) == parts,
        split::joined(split::pieces(s, sep), seq![sep]) == s,
        forall|i: int|
            0 <= i < split::pieces(s, sep).len() ==> !(#[trigger] split::pieces(s, sep)[i]).contains(
                sep,
            ),
    decreases parts.len(),
{
    pack::joined_pieces_give_text(s, sep);
    split::lemma_pieces_without_sep(s, sep);
    let last = parts.last();
    assert(!parts[parts.len() - 1].contains(sep));
    lemma_one_piece(last, sep);
    if parts.len() > 1 {
        let rest = parts.drop_last();
        assert forall|i: int| 0 <= i < rest.len() implies !(#[trigger] rest[i]).contains(sep) by {
            assert(!parts[i].contains(sep));
        }
        pieces_are_what_was_joined(rest, sep, s);
        split::lemma_pieces_sum(split::joined(rest, seq![sep]), last, sep);
        assert(rest + seq![last] =~= parts);
    } else {
        assert(parts =~= seq![last]);
    }
}

/// A text is read line by line: each line ends with a line feed, which does not belong
/// to it, nor does a carriage return before that. What follows the last line feed is a
/// line too, unless it is empty.
pub proof fn text_is_read_by_lines(line: Seq<char>, rest: Seq<char>)
    requires
        !line.contains('\n'),
    ensures
        split::lines_of(Seq::<char>::empty()).len() == 0,
        line.len() > 0 ==> split::lines_of(line) == seq![line],
        line.len() == 0 || line.last() != '\r' ==> split::lines_of(line + seq!['\n'] + rest)
            == seq![line] + split::lines_of(rest),
        split::lines_of(line + seq!['\r', '\n'] + rest) == seq![line] + split::lines_of(rest),
{
    let none = Seq::<char>::empty();
    lemma_one_piece(none, '\n');
    lemma_one_piece(line, '\n');
    assert(split::lines_of(none) =~= Seq::<Seq<char>>::empty());
    if line.len() > 0 {
        assert(split::lines_of(line) =~= seq![line]);
    }
    lemma_line_before(line, rest);
    let r = line.push('\r');
    assert(!r.contains('\n')) by {
        if r.contains('\n') {
            let i = choose|i: int| 0 <= i < r.len() && r[i] == '\n';
            assert(i < line.len());
            assert(line[i] == '\n');
        }
    }
    lemma_one_piece(r, '\n');
    lemma_line_before(r, rest);
    assert(r.drop_last() =~= line);
    assert(line + seq!['\r', '\n'] + rest =~= r + seq!['\n'] + rest);
}

proof fn lemma_line_before(line: Seq<char>, rest: Seq<char>)
    requires
        !line.contains('\n'),
    ensures
        split::lines_of(line + seq!['\n'] + rest) == seq![split::without_cr(line)]
            + split::lines_of(rest),
{
    lemma_one_piece(line, '\n');
    split::lemma_pieces_sum(line, rest, '\n');
    split::lemma_pieces_nonempty(rest, '\n');
    let p = split::pieces(rest, '\n');
    let q = seq![line] + p;
    let ended = p.drop_last().map_values(|l: Seq<char>| split::without_cr(l));
    assert(q.drop_last() =~= seq![line] + p.drop_last());
    assert(q.drop_last().map_values(|l: Seq<char>| split::without_cr(l)) =~= seq![
        split::without_cr(line),
    ] + ended);
    assert(q.last() == p.last());
    assert((seq![split::without_cr(line)] + ended).push(p.last()) =~= seq![split::without_cr(line)]
        + ended.push(p.last()));
}

/// The first word of a text is what stands between white space: behind that at its
/// start, and up to the next. A text of white space has none.
pub proof fn words_stand_between_white_space(blank: Seq<char>, word: Seq<char>, rest: Seq<char>)
    requires
        forall|i: int| 0 <= i < blank.len() ==> text::is_white(#[trigger] blank[i]),
        forall|i: int| 0 <= i < word.len() ==> !text::is_white(#[trigger] word[i]),
        rest.len() > 0 ==> text::is_white(rest[0]),
    ensures
        split::first_word(blank) is None,
        word.len() > 0 ==> split::first_word(blank + word + rest) == Some(word),
{
    lemma_blank_start(blank, Seq::<char>::empty());
    assert(blank + Seq::<char>::empty() =~= blank);
    if word.len() > 0 {
        lemma_blank_start(blank, word + rest);
        assert(blank + word + rest =~= blank + (word + rest));
        lemma_head_token(word, rest);
    }
}

proof fn lemma_blank_start(blank: Seq<char>, t: Seq<char>)
    requires
        forall|i: int| 0 <= i < blank.len() ==> text::is_white(#[trigger] blank[i]),
        t.len() > 0 ==> !text::is_white(t[0]),
    ensures
        text::trimmed_start(blank + t, Class::White) == t,
    decreases blank.len(),
{
    let s = blank + t;
    if blank.len() > 0 {
        assert(s[0] == blank[0]);
        assert(s.drop_first() =~= blank.drop_first() + t);
        lemma_blank_start(blank.drop_first(), t);
    } else {
        assert(s =~= t);
    }
}

proof fn lemma_head_token(word: Seq<char>, rest: Seq<char>)
    requires
        forall|i: int| 0 <= i < word.len() ==> !text::is_white(#[trigger] word[i]),
        rest.len() > 0 ==> text::is_white(rest[0]),
    ensures
        split::head_token(word + rest) == word,
    decreases word.len(),
{
    let s = word + rest;
    if word.len() > 0 {
        assert(s[0] == word[0]);
        assert(s.drop_first() =~= word.drop_first() + rest);
        lemma_head_token(word.drop_first(), rest);
        assert(seq![word[0]] + word.drop_first() =~= word);
    } else {
        assert(s =~= rest);
        assert(word =~= Seq::<char>::empty());
    }
}

/// Without more said, white space is trimmed; and a class of one character holds that
/// character only.
pub proof fn white_space_is_trimmed(s: Seq<char>, c: char, x: char)
    ensures
        text::trimmed(s) == text::trimmed_of(s, Class::White),
        Class::White.holds(c) <==> text::is_white(c),
        Class::Only(x).holds(c) <==> c == x,
        text::is_white(' ') && text::is_white('\n') && text::is_white('\t') && text::is_white('\r'),
        '!' <= c <= '~' ==> !text::is_white(c),
{
}

/// Replacing turns each of one character into another one, and leaves all else.
pub proof fn characters_are_replaced_in_place(s: Seq<char>, a: char, b: char, i: int)
    requires
        0 <= i < s.len(),
    ensures
        split::replaced(s, a, b).len() == s.len(),
        s[i] == a ==> split::replaced(s, a, b)[i] == b,
        s[i] != a ==> split::replaced(s, a, b)[i] == s[i],
{
}

} // verus!
