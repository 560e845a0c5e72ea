//! Inline style literals lifted out of a module, each under an id derived
//! from its content and its position.
use vstd::prelude::*;
use vstd::arithmetic::div_mod::lemma_mod_breakdown;
use crate::text::chars_of;

verus! {

/// One extracted style literal.
pub struct InlineStyle {
    pub id: String,
    pub content: String,
}

pub const HASH_OFFSET: u64 = 14695981039346656037;

pub const HASH_PRIME: u64 = 1099511628211;

/// FNV-1a over the code points of `s`.
pub open spec fn content_hash(s: Seq<char>) -> u64
    decreases s.len(),
{
    if s.len() == 0 {
        HASH_OFFSET
    } else {
        (content_hash(s.drop_last()) ^ (s.last() as u32 as u64)).wrapping_mul(HASH_PRIME)
    }
}

pub open spec fn hex_chars() -> Seq<char> {
    seq!['0', '1', '2', '3', '4', '5', '6', '7', '8', '9', 'a', 'b', 'c', 'd', 'e', 'f']
}

/// The `k` lowest hexadecimal digits of `n`, most significant first.
pub open spec fn hex_fixed(n: nat, k: nat) -> Seq<char>
    decreases k,
{
    if k == 0 {
        Seq::empty()
    } else {
        hex_fixed(n / 16, (k - 1) as nat).push(hex_chars()[(n % 16) as int])
    }
}

pub open spec fn pow16(k: nat) -> nat
    decreases k,
{
    if k == 0 {
        1
    } else {
        16 * pow16((k - 1) as nat)
    }
}

/// The id of a style literal with characters `content` at offset `pos`:
/// the position and the content's hash, each as sixteen hex digits.
pub open spec fn style_id(content: Seq<char>, pos: u64) -> Seq<char> {
    hex_fixed(pos as nat, 16) + seq!['-'] + hex_fixed(content_hash(content) as nat, 16)
}

proof fn lemma_hex_fixed_len(n: nat, k: nat)
    ensures
        hex_fixed(n, k).len() == k,
    decreases k,
{
    if k > 0 {
        lemma_hex_fixed_len(n / 16, (k - 1) as nat);
    }
}

proof fn lemma_pow16_pos(k: nat)
    ensures
        pow16(k) > 0,
    decreases k,
{
    if k > 0 {
        lemma_pow16_pos((k - 1) as nat);
    }
}

/// Equal digit strings agree on the number modulo `16^k`.
proof fn lemma_hex_fixed_injective(a: nat, b: nat, k: nat)
    requires
        hex_fixed(a, k) == hex_fixed(b, k),
    ensures
        a % pow16(k) == b % pow16(k),
    decreases k,
{
    if k > 0 {
        let km = (k - 1) as nat;
        lemma_hex_fixed_len(a / 16, km);
        lemma_hex_fixed_len(b / 16, km);
        assert(hex_fixed(a / 16, km) == hex_fixed(a, k).drop_last());
        assert(hex_fixed(b / 16, km) == hex_fixed(b, k).drop_last());
        lemma_hex_fixed_injective(a / 16, b / 16, km);
        assert(hex_fixed(a, k).last() == hex_chars()[(a % 16) as int]);
        assert(hex_fixed(b, k).last() == hex_chars()[(b % 16) as int]);
        assert(a % 16 == b % 16);
        lemma_pow16_pos(km);
        lemma_mod_breakdown(a as int, 16, pow16(km) as int);
        lemma_mod_breakdown(b as int, 16, pow16(km) as int);
    }
}

/// Two ids that are equal were made at the same position.
pub proof fn lemma_style_id_position(c1: Seq<char>, p1: u64, c2: Seq<char>, p2: u64)
    requires
        style_id(c1, p1) == style_id(c2, p2),
    ensures
        p1 == p2,
{
    lemma_hex_fixed_len(p1 as nat, 16);
    lemma_hex_fixed_len(p2 as nat, 16);
    assert(style_id(c1, p1).take(16) =~= hex_fixed(p1 as nat, 16));
    assert(style_id(c2, p2).take(16) =~= hex_fixed(p2 as nat, 16));
    lemma_hex_fixed_injective(p1 as nat, p2 as nat, 16);
    lemma_pow16_16();
}

proof fn lemma_pow16_16()
    ensures
        pow16(16) == 0x10000000000000000nat,
{
    assert(pow16(0) == 1);
    assert(pow16(1) == 0x10);
    assert(pow16(2) == 0x100);
    assert(pow16(3) == 0x1000);
    assert(pow16(4) == 0x10000);
    assert(pow16(5) == 0x100000);
    assert(pow16(6) == 0x1000000);
    assert(pow16(7) == 0x10000000);
    assert(pow16(8) == 0x100000000);
    assert(pow16(9) == 0x1000000000);
    assert(pow16(10) == 0x10000000000);
    assert(pow16(11) == 0x100000000000);
    assert(pow16(12) == 0x1000000000000);
    assert(pow16(13) == 0x10000000000000);
    assert(pow16(14) == 0x100000000000000);
    assert(pow16(15) == 0x1000000000000000);
}

/// Inline-style ids are deterministic: the same content at the same
/// position always gets the same id, and the same content at two different
/// positions gets two different ids.
pub proof fn law_style_id_deterministic(content: Seq<char>, p1: u64, p2: u64)
    ensures
        p1 == p2 ==> style_id(content, p1) == style_id(content, p2),
        p1 != p2 ==> style_id(content, p1) != style_id(content, p2),
{
    if p1 != p2 && style_id(content, p1) == style_id(content, p2) {
        lemma_style_id_position(content, p1, content, p2);
    }
}

fn hex_digit(d: u64) -> (r: &'static str)
    requires
        d < 16,
    ensures
        r@ == seq![hex_chars()[d as int]],
{
    proof {
        reveal_strlit("0");
        reveal_strlit("1");
        reveal_strlit("2");
        reveal_strlit("3");
        reveal_strlit("4");
        reveal_strlit("5");
        reveal_strlit("6");
        reveal_strlit("7");
        reveal_strlit("8");
        reveal_strlit("9");
        reveal_strlit("a");
        reveal_strlit("b");
        reveal_strlit("c");
        reveal_strlit("d");
        reveal_strlit("e");
        reveal_strlit("f");
    }
    if d == 0 {
        "0"
    } else if d == 1 {
        "1"
    } else if d == 2 {
        "2"
    } else if d == 3 {
        "3"
    } else if d == 4 {
        "4"
    } else if d == 5 {
        "5"
    } else if d == 6 {
        "6"
    } else if d == 7 {
        "7"
    } else if d == 8 {
        "8"
    } else if d == 9 {
        "9"
    } else if d == 10 {
        "a"
    } else if d == 11 {
        "b"
    } else if d == 12 {
        "c"
    } else if d == 13 {
        "d"
    } else if d == 14 {
        "e"
    } else {
        "f"
    }
}

fn push_hex_fixed(out: &mut String, n: u64, k: u32)
    ensures
        final(out)@ == old(out)@ + hex_fixed(n as nat, k as nat),
    decreases k,
{
    if k > 0 {
        push_hex_fixed(out, n / 16, k - 1);
        out.append(hex_digit(n % 16));
        assert(final(out)@ =~= old(out)@ + hex_fixed(n as nat, k as nat));
    }
}

/// The hash of a literal's characters.
pub fn hash_content(content: &str) -> (r: u64)
    ensures
        r == content_hash(content@),
{
    let v = chars_of(content);
    let mut h: u64 = HASH_OFFSET;
    let mut i: usize = 0;
    while i < v.len()
        invariant
            v@ == content@,
            i <= v@.len(),
            h == content_hash(v@.take(i as int)),
        decreases v@.len() - i,
    {
        assert(v@.take(i + 1).drop_last() =~= v@.take(i as int));
        h = (h ^ (v[i] as u32 as u64)).wrapping_mul(HASH_PRIME);
        i = i + 1;
    }
    assert(v@.take(v@.len() as int) =~= v@);
    h
}

/// The id of a style literal with text `content` at offset `position`.
pub fn make_style_id(content: &str, position: u64) -> (r: String)
    ensures
        r@ == style_id(content@, position),
{
    let mut r = String::new();
    push_hex_fixed(&mut r, position, 16);
    r.append("-");
    proof {
        reveal_strlit("-");
    }
    let h = hash_content(content);
    push_hex_fixed(&mut r, h, 16);
    assert(r@ =~= style_id(content@, position));
    r
}

} // verus!
