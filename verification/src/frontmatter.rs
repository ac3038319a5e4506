//! The block between `---` lines that begins the text of a skill.

use vstd::prelude::*;
use vstd::string::StrSliceExecFns;

use crate::outside;
use crate::split;
use crate::text;
use crate::text::Class;

verus! {

/// What has been read of a block so far.
pub struct Fields {
    /// The value of the last `name:` line.
    pub name: Option<String>,
    /// The value of the last `description:` line.
    pub description: Option<String>,
    /// The binaries listed so far.
    pub bins: Vec<String>,
    /// Whether the items of a list of binaries are being read.
    pub in_list: bool,
}

/// The mathematical value of [`Fields`].
#[verifier::ext_equal]
pub struct FieldsView {
    pub name: Option<Seq<char>>,
    pub description: Option<Seq<char>>,
    pub bins: Seq<Seq<char>>,
    pub in_list: bool,
}

impl View for Fields {
    type V = FieldsView;

    open spec fn view(&self) -> FieldsView {
        FieldsView {
            name: text::ostr(self.name),
            description: text::ostr(self.description),
            bins: text::strs(self.bins@),
            in_list: self.in_list,
        }
    }
}

/// The name in an item of a list of binaries: without white space around it,
/// and without quotes.
pub open spec fn bin_name(item: Seq<char>) -> Seq<char> {
    text::trimmed(
        text::trimmed_of(
            text::trimmed_of(text::trimmed(item), Class::Only('"')),
            Class::Only('\''),
        ),
    )
}

/// A list of names with the name of one more item, unless that is empty.
pub open spec fn with_bin(bins: Seq<Seq<char>>, item: Seq<char>) -> Seq<Seq<char>> {
    if bin_name(item).len() == 0 {
        bins
    } else {
        bins.push(bin_name(item))
    }
}

/// A list of names with the names of further items.
pub open spec fn with_bins(bins: Seq<Seq<char>>, items: Seq<Seq<char>>) -> Seq<Seq<char>>
    decreases items.len(),
{
    if items.len() == 0 {
        bins
    } else {
        with_bin(with_bins(bins, items.drop_last()), items.last())
    }
}

/// The items of a list written on one line: `["a", "b"]`.
pub open spec fn inline_items(value: Seq<char>) -> Seq<Seq<char>> {
    split::pieces(
        text::trimmed_end(text::trimmed_start(value, Class::Only('[')), Class::Only(']')),
        ',',
    )
}

/// What is known of a block after one more line. A list of binaries stands on
/// the `bins:` line itself, or as `- ` lines after it; empty lines and comments
/// do not end such a list, any other line does. The `bins:` line may stand at any
/// depth, so that `metadata:` and `requires:` above it need no notice.
pub open spec fn read_line(f: FieldsView, line: Seq<char>) -> FieldsView {
    let t = text::trimmed(line);
    if text::has_prefix(t, "name:"@) {
        FieldsView {
            name: Some(text::trimmed(t.skip("name:"@.len() as int))),
            in_list: false,
            ..f
        }
    } else if text::has_prefix(t, "description:"@) {
        FieldsView {
            description: Some(text::trimmed(t.skip("description:"@.len() as int))),
            in_list: false,
            ..f
        }
    } else if text::has_prefix(t, "bins:"@) {
        let value = text::trimmed(t.skip("bins:"@.len() as int));
        if value.len() == 0 {
            FieldsView { in_list: true, ..f }
        } else {
            FieldsView { bins: with_bins(f.bins, inline_items(value)), in_list: false, ..f }
        }
    } else if !f.in_list {
        f
    } else if text::has_prefix(t, "- "@) {
        FieldsView { bins: with_bin(f.bins, t.skip("- "@.len() as int)), ..f }
    } else if t.len() == 0 || t[0] == '#' {
        f
    } else {
        FieldsView { in_list: false, ..f }
    }
}

/// What is known of a block before its first line.
pub open spec fn no_fields() -> FieldsView {
    FieldsView {
        name: None,
        description: None,
        bins: Seq::<Seq<char>>::empty(),
        in_list: false,
    }
}

/// What the lines of a block say.
pub open spec fn read_lines(lines: Seq<Seq<char>>) -> FieldsView
    decreases lines.len(),
{
    if lines.len() == 0 {
        no_fields()
    } else {
        read_line(read_lines(lines.drop_last()), lines.last())
    }
}

/// The text from the leading `---` to the next `end`.
pub open spec fn block_until(content: Seq<char>, end: Seq<char>) -> Option<Seq<char>> {
    if !text::has_prefix(content, "---"@) {
        None
    } else {
        let rest = content.skip(3);
        match split::found(rest, end) {
            None => None,
            Some(i) => Some(rest.take(i)),
        }
    }
}

/// The name, the description and the required binaries that the block of a
/// skill gives: none without a block or without a name, and the empty
/// description where none is given.
pub open spec fn frontmatter_of(content: Seq<char>) -> Option<
    (Seq<char>, Seq<char>, Seq<Seq<char>>),
> {
    match block_until(content, "---"@) {
        None => None,
        Some(block) => {
            let f = read_lines(split::lines_of(block));
            match f.name {
                None => None,
                Some(name) => Some(
                    (
                        name,
                        match f.description {
                            Some(d) => d,
                            None => Seq::<char>::empty(),
                        },
                        f.bins,
                    ),
                ),
            }
        },
    }
}

/// The view of what a block gives.
pub open spec fn front_view(o: Option<(String, String, Vec<String>)>) -> Option<
    (Seq<char>, Seq<char>, Seq<Seq<char>>),
> {
    match o {
        Some(x) => Some((x.0@, x.1@, text::strs(x.2@))),
        None => None,
    }
}

fn push_bin(bins: &mut Vec<String>, item: &str)
    ensures
        text::strs(final(bins)@) == with_bin(text::strs(old(bins)@), item@),
{
    let b = text::trim(text::trim_matches(text::trim_matches(text::trim(item), '"'), '\''));
    if !b.is_empty() {
        bins.push(b.to_owned());
        assert(text::strs(bins@) =~= text::strs(old(bins)@).push(b@));
    }
}

fn push_inline(bins: &mut Vec<String>, value: &str)
    ensures
        text::strs(final(bins)@) == with_bins(text::strs(old(bins)@), inline_items(value@)),
{
    let inner = text::trim_end_of(
        text::trim_start_of(value, Class::Only('[')),
        Class::Only(']'),
    );
    let items = split::split(inner, ',');
    let ghost all = inline_items(value@);
    let mut i: usize = 0;
    assert(all.take(0) =~= Seq::<Seq<char>>::empty());
    while i < items.len()
        invariant
            all == text::strs(items@),
            i <= items.len(),
            text::strs(bins@) == with_bins(text::strs(old(bins)@), all.take(i as int)),
        decreases items.len() - i,
    {
        assert(all.take(i + 1).drop_last() =~= all.take(i as int));
        assert(all[i as int] == items@[i as int]@);
        push_bin(bins, &items[i]);
        i += 1;
    }
    assert(all.take(i as int) =~= all);
}

fn apply_line(f: &mut Fields, line: &str)
    ensures
        final(f)@ == read_line(old(f)@, line@),
{
    let t = text::trim(line);
    if let Some(v) = text::strip_prefix(t, "name:") {
        f.name = Some(text::trim(v).to_owned());
        f.in_list = false;
    } else if let Some(v) = text::strip_prefix(t, "description:") {
        f.description = Some(text::trim(v).to_owned());
        f.in_list = false;
    } else if let Some(v) = text::strip_prefix(t, "bins:") {
        let value = text::trim(v);
        if value.is_empty() {
            f.in_list = true;
        } else {
            f.in_list = false;
            push_inline(&mut f.bins, value);
        }
    } else if f.in_list {
        if let Some(item) = text::strip_prefix(t, "- ") {
            push_bin(&mut f.bins, item);
        } else if !t.is_empty() && !text::starts_with_char(t, '#') {
            f.in_list = false;
        }
    }
}

fn find_block<'a>(content: &'a str, end: &str) -> (r: Option<&'a str>)
    ensures
        (match r {
            Some(b) => Some(b@),
            None => None,
        }) == block_until(content@, end@),
{
    proof {
        reveal_strlit("---");
    }
    match text::strip_prefix(content, "---") {
        None => None,
        Some(rest) => match split::find(rest, end) {
            None => None,
            Some(i) => {
                assert(rest@.subrange(0, i as int) =~= rest@.take(i as int));
                Some(rest.substring_char(0, i))
            },
        },
    }
}

/// The name, the description and the required binaries that the block of a
/// skill gives.
pub fn parse_skill_frontmatter(content: &str) -> (r: Option<(String, String, Vec<String>)>)
    ensures
        front_view(r) == frontmatter_of(content@),
{
    let block = match find_block(content, "---") {
        None => {
            return None;
        },
        Some(b) => b,
    };
    let lines = split::lines(block);
    let ghost all = split::lines_of(block@);
    let mut f = Fields { name: None, description: None, bins: Vec::new(), in_list: false };
    let mut i: usize = 0;
    assert(f@ =~= no_fields());
    assert(all.take(0) =~= Seq::<Seq<char>>::empty());
    while i < lines.len()
        invariant
            all == text::strs(lines@),
            i <= lines.len(),
            f@ == read_lines(all.take(i as int)),
        decreases lines.len() - i,
    {
        assert(all.take(i + 1).drop_last() =~= all.take(i as int));
        assert(all[i as int] == lines@[i as int]@);
        apply_line(&mut f, &lines[i]);
        i += 1;
    }
    assert(all.take(i as int) =~= all);
    let Fields { name, description, bins, .. } = f;
    match name {
        None => None,
        Some(n) => {
            let d = match description {
                Some(d) => d,
                None => String::new(),
            };
            Some((n, d, bins))
        },
    }
}

/// The YAML text from the leading `---` to the next line that begins with `---`.
pub open spec fn yaml_block_of(content: Seq<char>) -> Option<Seq<char>> {
    block_until(content, "\n---"@)
}

/// The YAML text from the leading `---` to the next line that begins with `---`.
pub fn yaml_block<'a>(content: &'a str) -> (r: Option<&'a str>)
    ensures
        (match r {
            Some(b) => Some(b@),
            None => None,
        }) == yaml_block_of(content@),
{
    find_block(content, "\n---")
}

/// The `description` that the YAML block of a text gives.
pub open spec fn yaml_description(content: Seq<char>) -> Option<Seq<char>> {
    match yaml_block_of(content) {
        None => None,
        Some(b) => outside::yaml_text_at(b, "description"@),
    }
}

/// The `description` that the YAML block of a text gives.
pub fn frontmatter_description(content: &str) -> (r: Option<String>)
    ensures
        text::ostr(r) == yaml_description(content@),
{
    match yaml_block(content) {
        None => None,
        Some(b) => outside::yaml_text(b, "description"),
    }
}

// ---------------------------------------------------------------------------
// Laws
// ---------------------------------------------------------------------------

/// The value of the last line that begins with `key`, which ends in a colon.
pub open spec fn last_value(lines: Seq<Seq<char>>, key: Seq<char>) -> Option<Seq<char>>
    decreases lines.len(),
{
    if lines.len() == 0 {
        None
    } else {
        let t = text::trimmed(lines.last());
        if text::has_prefix(t, key) {
            Some(text::trimmed(t.skip(key.len() as int)))
        } else {
            last_value(lines.drop_last(), key)
        }
    }
}

/// The name is the value of the last `name:` line, and the description that of
/// the last `description:` line; each is missing exactly where no such line
/// stands in the block.
pub proof fn last_lines_give_name_and_description(lines: Seq<Seq<char>>)
    ensures
        read_lines(lines).name == last_value(lines, "name:"@),
        read_lines(lines).description == last_value(lines, "description:"@),
    decreases lines.len(),
{
    if lines.len() > 0 {
        last_lines_give_name_and_description(lines.drop_last());
        let t = text::trimmed(lines.last());
        if text::has_prefix(t, "name:"@) {
            lemma_keys_differ(t);
        }
    }
}

proof fn lemma_keys_differ(t: Seq<char>)
    requires
        text::has_prefix(t, "name:"@),
    ensures
        !text::has_prefix(t, "description:"@),
{
    reveal_strlit("name:");
    reveal_strlit("description:");
    assert(t.take(5)[0] == 'n');
    if text::has_prefix(t, "description:"@) {
        assert(t.take(12)[0] == 'd');
    }
}

/// No binary that a block lists has an empty name.
pub proof fn listed_bins_have_names(lines: Seq<Seq<char>>)
    ensures
        forall|i: int|
            0 <= i < read_lines(lines).bins.len() ==> (#[trigger] read_lines(lines).bins[i]).len()
                > 0,
    decreases lines.len(),
{
    if lines.len() > 0 {
        listed_bins_have_names(lines.drop_last());
        let f = read_lines(lines.drop_last());
        let t = text::trimmed(lines.last());
        lemma_with_bins_nonempty(
            f.bins,
            inline_items(text::trimmed(t.skip("bins:"@.len() as int))),
        );
    }
}

proof fn lemma_with_bins_nonempty(bins: Seq<Seq<char>>, items: Seq<Seq<char>>)
    requires
        forall|i: int| 0 <= i < bins.len() ==> (#[trigger] bins[i]).len() > 0,
    ensures
        forall|i: int|
            0 <= i < with_bins(bins, items).len() ==> (#[trigger] with_bins(bins, items)[i]).len()
                > 0,
    decreases items.len(),
{
    if items.len() > 0 {
        lemma_with_bins_nonempty(bins, items.drop_last());
        let before = with_bins(bins, items.drop_last());
        let after = with_bin(before, items.last());
        assert forall|i: int| 0 <= i < after.len() implies (#[trigger] after[i]).len() > 0 by {
            if i < before.len() {
                assert(after[i] == before[i]);
            }
        }
    }
}

} // verus!
