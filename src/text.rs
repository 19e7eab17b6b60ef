//! ASCII text for commands and logs: fixed-width upper-case hex numbers and
//! IPv6 addresses written out in full.
use vstd::prelude::*;

verus! {

/// The upper-case hex digit of a value below sixteen.
pub open spec fn hex_char(d: int) -> u8 {
    if d < 10 {
        (0x30 + d) as u8
    } else {
        (0x41 + d - 10) as u8
    }
}

/// The lowest `width` hex digits of `v`, most significant first.
pub open spec fn hex_text(v: nat, width: nat) -> Seq<u8>
    decreases width,
{
    if width == 0 {
        Seq::empty()
    } else {
        hex_text(v / 16, (width - 1) as nat).push(hex_char((v % 16) as int))
    }
}

/// The lowest `k` groups of sixteen bits of `a`, four hex digits each,
/// separated by colons, most significant first.
pub open spec fn groups_text(a: nat, k: nat) -> Seq<u8>
    decreases k,
{
    if k <= 1 {
        hex_text(a % 65536, 4)
    } else {
        groups_text(a / 65536, (k - 1) as nat) + seq![0x3au8] + hex_text(a % 65536, 4)
    }
}

/// An IPv6 address written out in full: eight groups of four digits.
pub open spec fn ipv6_text(a: u128) -> Seq<u8> {
    groups_text(a as nat, 8)
}

/// Appends the lowest `width` hex digits of `v` to `out`.
pub fn push_hex(out: &mut Vec<u8>, v: u128, width: usize)
    requires
        width <= 32,
    ensures
        final(out)@ == old(out)@ + hex_text(v as nat, width as nat),
    decreases width,
{
    if width > 0 {
        push_hex(out, v / 16, width - 1);
        let d = (v % 16) as u8;
        out.push(if d < 10 { 0x30 + d } else { 0x41 + d - 10 });
    }
}

/// Appends the lowest `k` groups of `a` to `out`.
fn push_groups(out: &mut Vec<u8>, a: u128, k: usize)
    requires
        1 <= k <= 8,
    ensures
        final(out)@ == old(out)@ + groups_text(a as nat, k as nat),
    decreases k,
{
    if k > 1 {
        push_groups(out, a / 65536, k - 1);
        out.push(0x3a);
    }
    push_hex(out, a % 65536, 4);
}

/// Appends the address `a` written out in full to `out`.
pub fn push_ipv6(out: &mut Vec<u8>, a: u128)
    ensures
        final(out)@ == old(out)@ + ipv6_text(a),
{
    push_groups(out, a, 8);
}

/// Appends `text` to `out`.
pub fn push_all(out: &mut Vec<u8>, text: &[u8])
    ensures
        final(out)@ == old(out)@ + text@,
{
    let mut i: usize = 0;
    while i < text.len()
        invariant
            i <= text@.len(),
            out@ == old(out)@ + text@.subrange(0, i as int),
        decreases text@.len() - i,
    {
        out.push(text[i]);
        i = i + 1;
        assert(out@ =~= old(out)@ + text@.subrange(0, i as int));
    }
    assert(text@.subrange(0, i as int) =~= text@);
}

} // verus!
