//! Stable identifiers of extensions: an FNV-1a hash of a key text, written as
//! sixteen hexadecimal digits.

use vstd::prelude::*;
use vstd::string::StringSliceAdditionalSpecFns;

use crate::models::{ConfigScope, ConfigScopeView};
use crate::text;

verus! {

/// The start value of the hash.
pub const FNV_OFFSET: u64 = 0xcbf29ce484222325;

/// The multiplier of the hash.
pub const FNV_PRIME: u64 = 0x100000001b3;

/// A hash with one more byte: it is mixed in by exclusive or, and the product with
/// the prime is taken modulo two to the sixty-fourth.
pub open spec fn mixed(hash: u64, byte: u64) -> u64 {
    (((hash ^ byte) * FNV_PRIME) % 0x1_0000_0000_0000_0000) as u64
}

/// The FNV-1a hash of `data`.
pub open spec fn fnv1a_of(data: Seq<u8>) -> u64
    decreases data.len(),
{
    if data.len() == 0 {
        FNV_OFFSET
    } else {
        mixed(fnv1a_of(data.drop_last()), data.last() as u64)
    }
}

/// The FNV-1a hash of `data`, the same in every run and on every machine.
pub fn fnv1a(data: &[u8]) -> (r: u64)
    ensures
        r == fnv1a_of(data@),
{
    let mut hash: u64 = FNV_OFFSET;
    let mut i: usize = 0;
    while i < data.len()
        invariant
            i <= data.len(),
            hash == fnv1a_of(data@.take(i as int)),
        decreases data.len() - i,
    {
        assert(data@.take(i + 1).drop_last() =~= data@.take(i as int));
        hash = (hash ^ (data[i] as u64)).wrapping_mul(FNV_PRIME);
        i += 1;
    }
    assert(data@.take(i as int) =~= data@);
    hash
}

/// The hexadecimal digit of a number below sixteen.
pub open spec fn hex_digit_of(d: u64) -> char {
    if d < 10 {
        (('0' as u32) + d) as char
    } else {
        (('a' as u32) + d - 10) as char
    }
}

/// The last `k` hexadecimal digits of `n`, the most significant one first.
pub open spec fn hex_digits(n: u64, k: nat) -> Seq<char>
    decreases k,
{
    if k == 0 {
        Seq::<char>::empty()
    } else {
        hex_digits(n / 16, (k - 1) as nat).push(hex_digit_of(n % 16))
    }
}

fn hex_digit(d: u64) -> (r: char)
    requires
        d < 16,
    ensures
        r == hex_digit_of(d),
{
    if d == 0 {
        '0'
    } else if d == 1 {
        '1'
    } else if d == 2 {
        '2'
    } else if d == 3 {
        '3'
    } else if d == 4 {
        '4'
    } else if d == 5 {
        '5'
    } else if d == 6 {
        '6'
    } else if d == 7 {
        '7'
    } else if d == 8 {
        '8'
    } else if d == 9 {
        '9'
    } else if d == 10 {
        'a'
    } else if d == 11 {
        'b'
    } else if d == 12 {
        'c'
    } else if d == 13 {
        'd'
    } else if d == 14 {
        'e'
    } else {
        'f'
    }
}

fn hex(n: u64, k: usize) -> (r: String)
    ensures
        r@ == hex_digits(n, k as nat),
    decreases k,
{
    if k == 0 {
        return String::new();
    }
    let mut s = hex(n / 16, k - 1);
    s.push(hex_digit(n % 16));
    s
}

/// The identifier that belongs to a key text.
pub open spec fn id_of_key(key: Seq<char>) -> Seq<char> {
    hex_digits(fnv1a_of(vstd::utf8::encode_utf8(key)), 16)
}

fn id_from_key(key: &str) -> (r: String)
    ensures
        r@ == id_of_key(key@),
{
    hex(fnv1a(key.as_bytes()), 16)
}

/// The key text `kind:agent:name`.
pub open spec fn global_key(name: Seq<char>, kind: Seq<char>, agent: Seq<char>) -> Seq<char> {
    kind + seq![':'] + agent + seq![':'] + name
}

/// The key text of an extension: `kind:agent:name`, and in a project
/// `kind:agent:name:path`.
pub open spec fn scoped_key(
    name: Seq<char>,
    kind: Seq<char>,
    agent: Seq<char>,
    scope: ConfigScopeView,
) -> Seq<char> {
    match scope {
        ConfigScopeView::Global => global_key(name, kind, agent),
        ConfigScopeView::Project { path, .. } => global_key(name, kind, agent) + seq![':'] + path,
    }
}

/// The identifier of a global extension.
pub open spec fn global_id(name: Seq<char>, kind: Seq<char>, agent: Seq<char>) -> Seq<char> {
    id_of_key(global_key(name, kind, agent))
}

/// The identifier of an extension in a scope.
pub open spec fn scoped_id(
    name: Seq<char>,
    kind: Seq<char>,
    agent: Seq<char>,
    scope: ConfigScopeView,
) -> Seq<char> {
    id_of_key(scoped_key(name, kind, agent, scope))
}

/// The identifier of the command line tool with the given binary.
pub open spec fn cli_id(binary_name: Seq<char>) -> Seq<char> {
    id_of_key("cli::"@ + binary_name)
}

fn key3(name: &str, kind: &str, agent: &str) -> (r: String)
    ensures
        r@ == global_key(name@, kind@, agent@),
{
    proof {
        reveal_strlit(":");
        assert(":"@ =~= seq![':']);
    }
    text::cat5(kind, ":", agent, ":", name)
}

/// The identifier of a global extension.
pub fn stable_id_for(name: &str, kind: &str, agent: &str) -> (r: String)
    ensures
        r@ == global_id(name@, kind@, agent@),
{
    let key = key3(name, kind, agent);
    id_from_key(&key)
}

/// The identifier of an extension in a scope.
pub fn stable_id_with_scope_for(name: &str, kind: &str, agent: &str, scope: &ConfigScope) -> (r:
    String)
    ensures
        r@ == scoped_id(name@, kind@, agent@, scope@),
{
    match scope {
        ConfigScope::Global => stable_id_for(name, kind, agent),
        ConfigScope::Project { path, .. } => {
            proof {
                reveal_strlit(":");
                assert(":"@ =~= seq![':']);
            }
            let start = key3(name, kind, agent);
            let key = text::cat3(&start, ":", path);
            id_from_key(&key)
        },
    }
}

/// The identifier of the command line tool with the given binary.
pub fn cli_stable_id_for(binary_name: &str) -> (r: String)
    ensures
        r@ == cli_id(binary_name@),
{
    let key = text::cat2("cli::", binary_name);
    id_from_key(&key)
}

// ---------------------------------------------------------------------------
// Laws
// ---------------------------------------------------------------------------

/// Every identifier has sixteen characters, and each of them is a hexadecimal
/// digit in lower case.
pub proof fn id_is_sixteen_hex_digits(key: Seq<char>)
    ensures
        id_of_key(key).len() == 16,
        forall|i: int|
            0 <= i < 16 ==> ({
                let c = #[trigger] id_of_key(key)[i];
                '0' <= c <= '9' || 'a' <= c <= 'f'
            }),
{
    lemma_hex_digits(fnv1a_of(vstd::utf8::encode_utf8(key)), 16);
}

proof fn lemma_hex_digits(n: u64, k: nat)
    ensures
        hex_digits(n, k).len() == k,
        forall|i: int|
            0 <= i < k ==> ({
                let c = #[trigger] hex_digits(n, k)[i];
                '0' <= c <= '9' || 'a' <= c <= 'f'
            }),
    decreases k,
{
    if k > 0 {
        lemma_hex_digits(n / 16, (k - 1) as nat);
    }
}

/// Two keys have the same identifier exactly where their hashes agree: writing
/// the hash as digits loses nothing.
pub proof fn ids_agree_exactly_with_hashes(a: Seq<char>, b: Seq<char>)
    ensures
        id_of_key(a) == id_of_key(b) <==> fnv1a_of(vstd::utf8::encode_utf8(a)) == fnv1a_of(
            vstd::utf8::encode_utf8(b),
        ),
{
    let x = fnv1a_of(vstd::utf8::encode_utf8(a));
    let y = fnv1a_of(vstd::utf8::encode_utf8(b));
    if id_of_key(a) == id_of_key(b) {
        lemma_pow16();
        lemma_hex_injective(x, y, 16);
    }
}

proof fn lemma_pow16()
    ensures
        pow16(16) == 0x1_0000_0000_0000_0000,
{
    assert(pow16(4) == 0x1_0000) by {
        reveal_with_fuel(pow16, 5);
    }
    assert(pow16(8) == 0x1_0000_0000) by {
        reveal_with_fuel(pow16, 5);
    }
    assert(pow16(12) == 0x1_0000_0000_0000) by {
        reveal_with_fuel(pow16, 5);
    }
    assert(pow16(16) == 0x1_0000_0000_0000_0000) by {
        reveal_with_fuel(pow16, 5);
    }
}

spec fn pow16(k: nat) -> nat
    decreases k,
{
    if k == 0 {
        1
    } else {
        16 * pow16((k - 1) as nat)
    }
}

proof fn lemma_hex_injective(x: u64, y: u64, k: nat)
    requires
        hex_digits(x, k) == hex_digits(y, k),
        x < pow16(k),
        y < pow16(k),
    ensures
        x == y,
    decreases k,
{
    if k > 0 {
        let a = hex_digits(x, k);
        let b = hex_digits(y, k);
        lemma_hex_digits(x / 16, (k - 1) as nat);
        lemma_hex_digits(y / 16, (k - 1) as nat);
        assert(a.last() == b.last());
        assert(x % 16 == y % 16);
        assert(a.drop_last() =~= hex_digits(x / 16, (k - 1) as nat));
        assert(b.drop_last() =~= hex_digits(y / 16, (k - 1) as nat));
        lemma_hex_injective(x / 16, y / 16, (k - 1) as nat);
    }
}

/// A hash with the characters of a text behind it, which are one byte each.
pub open spec fn hashed_on(hash: u64, chars: Seq<char>) -> u64
    decreases chars.len(),
{
    if chars.len() == 0 {
        hash
    } else {
        hashed_on(mixed(hash, chars[0] as u64), chars.drop_first())
    }
}

pub proof fn lemma_hash_of_ascii(a: Seq<char>, b: Seq<char>)
    requires
        vstd::utf8::is_ascii_chars(a),
        vstd::utf8::is_ascii_chars(b),
    ensures
        fnv1a_of(vstd::utf8::encode_utf8(a + b)) == hashed_on(
            fnv1a_of(vstd::utf8::encode_utf8(a)),
            b,
        ),
    decreases b.len(),
{
    if b.len() == 0 {
        assert(a + b =~= a);
    } else {
        let c = a.push(b[0]);
        assert(c + b.drop_first() =~= a + b);
        lemma_hash_of_ascii(c, b.drop_first());
        vstd::utf8::is_ascii_chars_encode_utf8(a);
        vstd::utf8::is_ascii_chars_encode_utf8(c);
        let bytes = vstd::utf8::encode_utf8(c);
        assert(bytes.drop_last() =~= vstd::utf8::encode_utf8(a)) by {
            assert forall|i: int| 0 <= i < a.len() implies bytes[i] == vstd::utf8::encode_utf8(
                a,
            )[i] by {
                assert(c[i] == a[i]);
            }
        }
        assert(c[a.len() as int] == b[0]);
        assert(bytes.last() == b[0] as u8);
    }
}

/// The identifier of an extension with global scope is the one that takes no
/// account of a scope.
pub proof fn global_scope_keeps_plain_id(name: Seq<char>, kind: Seq<char>, agent: Seq<char>)
    ensures
        scoped_id(name, kind, agent, ConfigScopeView::Global) == global_id(name, kind, agent),
{
}

/// A command line tool has the identifier of a global extension of kind `cli` that
/// belongs to no agent, and two tools have distinct keys.
pub proof fn tools_belong_to_no_agent(a: Seq<char>, b: Seq<char>)
    ensures
        cli_id(a) == global_id(a, "cli"@, ""@),
        a != b ==> global_key(a, "cli"@, ""@) != global_key(b, "cli"@, ""@),
{
    reveal_strlit("cli");
    reveal_strlit("");
    reveal_strlit("cli::");
    let (x, y) = (global_key(a, "cli"@, ""@), global_key(b, "cli"@, ""@));
    assert(x =~= "cli::"@ + a);
    assert(y =~= "cli::"@ + b);
    assert(x.skip(5) =~= a);
    assert(y.skip(5) =~= b);
}

/// The identifier of an extension in a project depends on the path of the
/// project and not on its name.
pub proof fn project_name_does_not_matter(
    name: Seq<char>,
    kind: Seq<char>,
    agent: Seq<char>,
    first: Seq<char>,
    second: Seq<char>,
    path: Seq<char>,
)
    ensures
        scoped_id(name, kind, agent, (ConfigScopeView::Project { name: first, path }))
            == scoped_id(name, kind, agent, (ConfigScopeView::Project { name: second, path })),
{
}

/// The same extension has distinct keys in the global scope and in a project,
/// and distinct keys in two projects with distinct paths.
pub proof fn scopes_have_distinct_keys(
    name: Seq<char>,
    kind: Seq<char>,
    agent: Seq<char>,
    a: ConfigScopeView,
    b: ConfigScopeView,
)
    ensures
        scoped_key(name, kind, agent, a) == scoped_key(name, kind, agent, b) <==> match (a, b) {
            (ConfigScopeView::Global, ConfigScopeView::Global) => true,
            (
                ConfigScopeView::Project { path: p, .. },
                ConfigScopeView::Project { path: q, .. },
            ) => p == q,
            _ => false,
        },
{
    let g = global_key(name, kind, agent);
    let ka = scoped_key(name, kind, agent, a);
    let kb = scoped_key(name, kind, agent, b);
    if ka == kb {
        match (a, b) {
            (
                ConfigScopeView::Project { path: p, .. },
                ConfigScopeView::Project { path: q, .. },
            ) => {
                assert(p =~= ka.skip(g.len() as int + 1));
                assert(q =~= kb.skip(g.len() as int + 1));
            },
            (ConfigScopeView::Global, ConfigScopeView::Project { path, .. }) => {
                assert(kb.len() > g.len());
            },
            (ConfigScopeView::Project { path, .. }, ConfigScopeView::Global) => {
                assert(ka.len() > g.len());
            },
            _ => {},
        }
    }
}

/// Two extensions of one kind, of one agent and in one scope have the same key
/// exactly where they have the same name.
pub proof fn names_have_distinct_keys(
    a: Seq<char>,
    b: Seq<char>,
    kind: Seq<char>,
    agent: Seq<char>,
    scope: ConfigScopeView,
)
    ensures
        scoped_key(a, kind, agent, scope) == scoped_key(b, kind, agent, scope) <==> a == b,
{
    let ka = scoped_key(a, kind, agent, scope);
    let kb = scoped_key(b, kind, agent, scope);
    if ka == kb {
        let n = kind.len() as int + agent.len() + 2;
        let rest = match scope {
            ConfigScopeView::Global => 0,
            ConfigScopeView::Project { path, .. } => path.len() as int + 1,
        };
        assert(ka.len() == n + a.len() + rest);
        assert(kb.len() == n + b.len() + rest);
        assert(a =~= ka.subrange(n, n + a.len()));
        assert(b =~= kb.subrange(n, n + b.len()));
    }
}

} // verus!
