//! The graph cache fingerprint: a stable serialization of the aliases, the
//! sources and the configuration file content hashes, digested to a hex
//! string. The same inputs always give the same fingerprint.
use vstd::prelude::*;

use crate::args::push_char;
use crate::collections::KeyMap;

verus! {

/// The serialization of one map section: each entry as `key=value`
/// followed by a line break, in the map's order.
pub open spec fn spec_section(keys: Seq<Seq<char>>, vals: Seq<String>, n: int) -> Seq<char>
    decreases n,
{
    if n <= 0 {
        Seq::empty()
    } else {
        spec_section(keys, vals, n - 1) + keys[n - 1] + seq!['='] + vals[n - 1]@ + seq!['\n']
    }
}

/// The serialized content of the fingerprint: the aliases, the sources and
/// the configuration hashes, each section under its marker.
pub open spec fn spec_hash_content(
    aliases: &KeyMap<String>,
    sources: &KeyMap<String>,
    configs: &KeyMap<String>,
) -> Seq<char> {
    "aliases\n"@ + spec_section(aliases.keys(), aliases.vals(), aliases.keys().len() as int)
        + "sources\n"@ + spec_section(sources.keys(), sources.vals(), sources.keys().len() as int)
        + "configs\n"@ + spec_section(configs.keys(), configs.vals(), configs.keys().len() as int)
}

/// One digest step over one character.
pub open spec fn spec_digest_step(h: u64, c: char) -> u64 {
    ((((h ^ (c as u64)) as int) * 0x100000001b3) % 0x1_0000_0000_0000_0000) as u64
}

/// The digest of a character sequence.
pub open spec fn spec_digest(s: Seq<char>, n: int) -> u64
    decreases n,
{
    if n <= 0 {
        0xcbf29ce484222325
    } else {
        spec_digest_step(spec_digest(s, n - 1), s[n - 1])
    }
}

/// The fingerprint: the digest of the serialized content, in hex.
pub open spec fn spec_graph_hash(
    aliases: &KeyMap<String>,
    sources: &KeyMap<String>,
    configs: &KeyMap<String>,
) -> Seq<char> {
    let content = spec_hash_content(aliases, sources, configs);
    spec_hex(spec_digest(content, content.len() as int) as int, 16)
}

/// A value written as `n` hex digits, low digit last.
pub open spec fn spec_hex(v: int, n: int) -> Seq<char>
    decreases n,
{
    if n <= 0 {
        Seq::empty()
    } else {
        spec_hex(v / 16, n - 1).push(spec_hex_digit(v % 16))
    }
}

/// One hex digit.
pub open spec fn spec_hex_digit(d: int) -> char {
    if d == 0 { '0' } else if d == 1 { '1' } else if d == 2 { '2' } else if d == 3 { '3' }
    else if d == 4 { '4' } else if d == 5 { '5' } else if d == 6 { '6' } else if d == 7 { '7' }
    else if d == 8 { '8' } else if d == 9 { '9' } else if d == 10 { 'a' } else if d == 11 { 'b' }
    else if d == 12 { 'c' } else if d == 13 { 'd' } else if d == 14 { 'e' } else { 'f' }
}

/// Append one map section to the content.
fn append_section(out: &mut String, m: &KeyMap<String>)
    ensures
        final(out)@ == old(out)@ + spec_section(m.keys(), m.vals(), m.keys().len() as int),
{
    let ghost base = old(out)@;
    let n = m.len();
    let mut i: usize = 0;
    proof {
        crate::collections::lemma_kv_len(m);
    }
    while i < n
        invariant
            n == m.keys().len(),
            m.vals().len() == n,
            0 <= i <= n,
            out@ == base + spec_section(m.keys(), m.vals(), i as int),
        decreases n - i,
    {
        out.append(m.key_at(i).as_str());
        push_char(out, '=');
        out.append(m.val_at(i).as_str());
        push_char(out, '\n');
        i += 1;
        proof {
            assert(out@ =~= base + spec_section(m.keys(), m.vals(), i as int));
        }
    }
}

/// One digest step.
fn digest_step(h: u64, c: char) -> (r: u64)
    ensures
        r == spec_digest_step(h, c),
{
    let x: u64 = h ^ (c as u64);
    let wide: u128 = (x as u128) * 0x100000001b3u128;
    let r: u64 = #[verifier::truncate] (wide as u64);
    proof {
        assert(wide == (x as int) * 0x100000001b3);
        assert(((wide as u64) as int) == wide as int % 0x1_0000_0000_0000_0000) by (bit_vector);
    }
    r
}

/// Compute the fingerprint of the handed maps.
pub fn graph_hash(
    aliases: &KeyMap<String>,
    sources: &KeyMap<String>,
    configs: &KeyMap<String>,
) -> (r: String)
    ensures
        r@ == spec_graph_hash(aliases, sources, configs),
{
    let mut content = "aliases\n".to_owned();
    append_section(&mut content, aliases);
    content.append("sources\n");
    append_section(&mut content, sources);
    content.append("configs\n");
    append_section(&mut content, configs);
    proof {
        assert(content@ =~= spec_hash_content(aliases, sources, configs));
    }
    let n = content.unicode_len();
    let mut h: u64 = 0xcbf29ce484222325;
    let mut i: usize = 0;
    while i < n
        invariant
            n == content@.len(),
            0 <= i <= n,
            h == spec_digest(content@, i as int),
        decreases n - i,
    {
        h = digest_step(h, content.as_str().get_char(i));
        i += 1;
    }
    let mut digits: Vec<char> = Vec::new();
    let mut v: u64 = h;
    let mut k: usize = 0;
    while k < 16
        invariant
            0 <= k <= 16,
            digits@.len() == k,
            spec_hex(h as int, 16) == spec_hex(v as int, 16 - k as int) + digits@,
            v == spec_shift(h as int, k as int),
        decreases 16 - k,
    {
        let d = v % 16;
        digits.insert(0, hex_digit(d));
        v = v / 16;
        k += 1;
        proof {
            assert(spec_hex(h as int, 16) =~= spec_hex(v as int, 16 - k as int) + digits@);
        }
    }
    proof {
        assert(spec_hex(v as int, 0) =~= Seq::<char>::empty());
        assert(spec_hex(h as int, 16) =~= digits@);
    }
    let mut out = String::new();
    let mut j: usize = 0;
    while j < digits.len()
        invariant
            0 <= j <= digits@.len(),
            out@ == digits@.take(j as int),
        decreases digits@.len() - j,
    {
        push_char(&mut out, digits[j]);
        j += 1;
        proof {
            assert(out@ =~= digits@.take(j as int));
        }
    }
    proof {
        assert(digits@.take(digits@.len() as int) =~= digits@);
        assert(out@ =~= spec_graph_hash(aliases, sources, configs));
    }
    out
}

/// The value after dropping `k` low hex digits.
pub open spec fn spec_shift(h: int, k: int) -> int
    decreases k,
{
    if k <= 0 {
        h
    } else {
        spec_shift(h, k - 1) / 16
    }
}

/// One hex digit.
fn hex_digit(d: u64) -> (r: char)
    requires
        d < 16,
    ensures
        r == spec_hex_digit(d as int),
{
    match d {
        0 => '0',
        1 => '1',
        2 => '2',
        3 => '3',
        4 => '4',
        5 => '5',
        6 => '6',
        7 => '7',
        8 => '8',
        9 => '9',
        10 => 'a',
        11 => 'b',
        12 => 'c',
        13 => 'd',
        14 => 'e',
        _ => 'f',
    }
}

/// The characters of each string of a list.
pub open spec fn str_views(v: Seq<String>) -> Seq<Seq<char>> {
    v.map_values(|s: String| s@)
}

/// Law: the fingerprint is a function of the aliases, the sources and the
/// configuration hashes alone — two runs over the same inputs fingerprint
/// alike.
pub proof fn lemma_graph_hash_deterministic(
    a1: &KeyMap<String>,
    s1: &KeyMap<String>,
    c1: &KeyMap<String>,
    a2: &KeyMap<String>,
    s2: &KeyMap<String>,
    c2: &KeyMap<String>,
)
    requires
        a1.keys() == a2.keys(),
        s1.keys() == s2.keys(),
        c1.keys() == c2.keys(),
        str_views(a1.vals()) == str_views(a2.vals()),
        str_views(s1.vals()) == str_views(s2.vals()),
        str_views(c1.vals()) == str_views(c2.vals()),
    ensures
        spec_graph_hash(a1, s1, c1) == spec_graph_hash(a2, s2, c2),
{
    crate::collections::lemma_kv_len(a1);
    crate::collections::lemma_kv_len(s1);
    crate::collections::lemma_kv_len(c1);
    lemma_section_congruent(a1.keys(), a1.vals(), a2.vals(), a1.keys().len() as int);
    lemma_section_congruent(s1.keys(), s1.vals(), s2.vals(), s1.keys().len() as int);
    lemma_section_congruent(c1.keys(), c1.vals(), c2.vals(), c1.keys().len() as int);
}

/// Sections over values with equal characters serialize alike.
proof fn lemma_section_congruent(
    keys: Seq<Seq<char>>,
    v1: Seq<String>,
    v2: Seq<String>,
    n: int,
)
    requires
        str_views(v1) == str_views(v2),
        n <= v1.len(),
    ensures
        spec_section(keys, v1, n) == spec_section(keys, v2, n),
    decreases n,
{
    if n > 0 {
        lemma_section_congruent(keys, v1, v2, n - 1);
        assert(v1.len() == str_views(v1).len());
        assert(str_views(v1)[n - 1] == v1[n - 1]@);
        assert(str_views(v2)[n - 1] == v2[n - 1]@);
        assert(v1[n - 1]@ == v2[n - 1]@);
        assert(spec_section(keys, v1, n) =~= spec_section(keys, v2, n));
    }
}

} // verus!
