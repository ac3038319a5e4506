//! What identifiers are made of.

use vstd::prelude::*;

use crate::ids;
use crate::models::{ConfigScopeView, ExtensionKind};

verus! {

/// The identifier of an extension is made of its kind, its agent and its name, with
/// colons between them; in a project of the path of the project too.
pub proof fn ids_are_made_of_kind_agent_name_and_path(
    name: Seq<char>,
    kind: Seq<char>,
    agent: Seq<char>,
    project: Seq<char>,
    path: Seq<char>,
)
    ensures
        ids::global_id(name, kind, agent) == ids::id_of_key(
            kind + seq![':'] + agent + seq![':'] + name,
        ),
        ids::scoped_id(name, kind, agent, ConfigScopeView::Global) == ids::id_of_key(
            kind + seq![':'] + agent + seq![':'] + name,
        ),
        ids::scoped_id(name, kind, agent, (ConfigScopeView::Project { name: project, path }))
            == ids::id_of_key(kind + seq![':'] + agent + seq![':'] + name + seq![':'] + path),
        ids::cli_id(name) == ids::id_of_key(seq!['c', 'l', 'i', ':', ':'] + name),
{
    reveal_strlit("cli::");
    assert("cli::"@ =~= seq!['c', 'l', 'i', ':', ':']);
}

/// Extensions of the same name have different keys if their agents differ, or their
/// kinds do.
pub proof fn agents_and_kinds_have_distinct_keys(
    name: Seq<char>,
    kind: Seq<char>,
    other_kind: Seq<char>,
    agent: Seq<char>,
    other_agent: Seq<char>,
    scope: ConfigScopeView,
)
    ensures
        ids::scoped_key(name, kind, agent, scope) == ids::scoped_key(name, kind, other_agent, scope)
            <==> agent == other_agent,
        ids::scoped_key(name, kind, agent, scope) == ids::scoped_key(name, other_kind, agent, scope)
            <==> kind == other_kind,
{
    let tail = match scope {
        ConfigScopeView::Global => seq![':'] + name,
        ConfigScopeView::Project { path, .. } => seq![':'] + name + seq![':'] + path,
    };
    let a = ids::scoped_key(name, kind, agent, scope);
    let b = ids::scoped_key(name, kind, other_agent, scope);
    let c = ids::scoped_key(name, other_kind, agent, scope);
    let head = kind + seq![':'];
    assert(a =~= head + agent + tail);
    assert(b =~= head + other_agent + tail);
    let rest = seq![':'] + agent + tail;
    assert(a =~= kind + rest);
    assert(c =~= other_kind + rest);
    if a == b {
        assert(agent.len() == other_agent.len());
        assert(a.subrange(head.len() as int, (head.len() + agent.len()) as int) =~= agent);
        assert(b.subrange(head.len() as int, (head.len() + agent.len()) as int) =~= other_agent);
    }
    if a == c {
        assert(kind.len() == other_kind.len());
        assert(a.take(kind.len() as int) =~= kind);
        assert(c.take(kind.len() as int) =~= other_kind);
    }
}

/// Each kind has a name of its own.
pub proof fn kinds_have_names(kind: ExtensionKind)
    ensures
        kind == ExtensionKind::Skill ==> kind.text() == "skill"@,
        kind == ExtensionKind::Mcp ==> kind.text() == "mcp"@,
        kind == ExtensionKind::Hook ==> kind.text() == "hook"@,
        kind == ExtensionKind::Plugin ==> kind.text() == "plugin"@,
        kind == ExtensionKind::Cli ==> kind.text() == "cli"@,
        kind == ExtensionKind::Subagent ==> kind.text() == "subagent"@,
        kind == ExtensionKind::Command ==> kind.text() == "command"@,
{
}

/// The hash of bytes is that of FNV-1a in 64 bits: it begins with the offset, and each
/// byte is mixed in by exclusive or before the product with the prime is taken.
pub proof fn bytes_are_mixed_in_one_by_one(data: Seq<u8>, byte: u8)
    ensures
        ids::fnv1a_of(Seq::<u8>::empty()) == 0xcbf2_9ce4_8422_2325u64,
        ids::fnv1a_of(data.push(byte)) == ((ids::fnv1a_of(data) ^ (byte as u64))
            * 0x0000_0100_0000_01b3u64) % 0x1_0000_0000_0000_0000,
{
    assert(data.push(byte).drop_last() =~= data);
}

/// The value of a hexadecimal digit.
pub open spec fn digit_value(c: char) -> int {
    if '0' <= c <= '9' {
        c as int - '0' as int
    } else {
        c as int - 'a' as int + 10
    }
}

/// The number that hexadecimal digits write, the most significant one first.
pub open spec fn number_of(s: Seq<char>) -> int
    decreases s.len(),
{
    if s.len() == 0 {
        0
    } else {
        16 * number_of(s.drop_last()) + digit_value(s.last())
    }
}

spec fn power(k: nat) -> int
    decreases k,
{
    if k == 0 {
        1
    } else {
        16 * power((k - 1) as nat)
    }
}

proof fn lemma_digits(n: u64, k: nat)
    requires
        n < power(k),
    ensures
        number_of(ids::hex_digits(n, k)) == n,
    decreases k,
{
    if k > 0 {
        let d = n % 16;
        lemma_digits(n / 16, (k - 1) as nat);
        let before = ids::hex_digits(n / 16, (k - 1) as nat);
        let all = ids::hex_digits(n, k);
        assert(all.drop_last() =~= before);
        assert(digit_value(ids::hex_digit_of(d)) == d);
    }
}

/// An identifier writes the hash of its key in hexadecimal digits.
pub proof fn ids_write_the_hash(key: Seq<char>)
    ensures
        number_of(ids::id_of_key(key)) == ids::fnv1a_of(vstd::utf8::encode_utf8(key)),
{
    reveal_with_fuel(power, 17);
    lemma_digits(ids::fnv1a_of(vstd::utf8::encode_utf8(key)), 16);
}

} // verus!
