//! What is sent to the meter: its link-local address and the commands that
//! carry ECHONET Lite frames and renew the session.
use crate::commands::{
    bytes_crlf, bytes_echonet_port, bytes_sksendto, bytes_sreg_s16, text_crlf, text_echonet_port,
    text_sksendto, text_sreg_s16,
};
use crate::frame::{frame_bytes, EchonetliteFrame};
use crate::text::{hex_text, ipv6_text, push_all, push_hex, push_ipv6};
use vstd::prelude::*;

verus! {

/// The universal/local bit of a MAC address: bit 1 of its first octet.
pub const UNIVERSAL_LOCAL_BIT: u64 = 0x0200_0000_0000_0000;

/// The `fe80::/64` prefix, as the upper half of an address.
pub const LINK_LOCAL_PREFIX: u128 = 0xfe80_0000_0000_0000_0000_0000_0000_0000;

/// The UDP port of ECHONET Lite.
pub const ECHONET_LITE_PORT: u16 = 0x0e1a;

/// The UDP port of PANA.
pub const PANA_PORT: u16 = 0x02cc;

/// The link-local address of the node with MAC address `mac`: the
/// `fe80::/64` prefix and the MAC with its universal/local bit inverted.
pub open spec fn link_local(mac: u64) -> u128 {
    (LINK_LOCAL_PREFIX as int + (mac ^ UNIVERSAL_LOCAL_BIT) as int) as u128
}

/// The link-local address of the meter with MAC address `mac`.
pub fn link_local_address(mac: u64) -> (r: u128)
    ensures
        r == link_local(mac),
{
    LINK_LOCAL_PREFIX + (mac ^ UNIVERSAL_LOCAL_BIT) as u128
}

/// The address derived from a MAC holds the `fe80::/64` prefix in its upper
/// half, and inverting the universal/local bit of its lower half gives the
/// MAC back.
pub proof fn lemma_link_local_restores_mac(mac: u64)
    ensures
        link_local(mac) as int / 0x1_0000_0000_0000_0000 == 0xfe80_0000_0000_0000,
        ((link_local(mac) as int % 0x1_0000_0000_0000_0000) as u64) ^ UNIVERSAL_LOCAL_BIT == mac,
{
    let low = mac ^ UNIVERSAL_LOCAL_BIT;
    assert((mac ^ 0x0200_0000_0000_0000u64) ^ 0x0200_0000_0000_0000u64 == mac) by (bit_vector);
    assert(LINK_LOCAL_PREFIX as int + low as int == 0xfe80_0000_0000_0000 * 0x1_0000_0000_0000_0000 + low as int);
    assert((0xfe80_0000_0000_0000 * 0x1_0000_0000_0000_0000 + low as int) / 0x1_0000_0000_0000_0000 == 0xfe80_0000_0000_0000) by (nonlinear_arith)
        requires
            0 <= low as int,
            (low as int) < 0x1_0000_0000_0000_0000,
    ;
    assert((0xfe80_0000_0000_0000 * 0x1_0000_0000_0000_0000 + low as int) % 0x1_0000_0000_0000_0000 == low as int) by (nonlinear_arith)
        requires
            0 <= low as int,
            (low as int) < 0x1_0000_0000_0000_0000,
    ;
}

/// `SKSENDTO 1 <address> 0E1A 1 <length> ` followed by the frame's bytes.
pub open spec fn sendto_command(sender: u128, payload: Seq<u8>) -> Seq<u8> {
    text_sksendto() + ipv6_text(sender) + text_echonet_port() + hex_text(payload.len(), 4) + seq![0x20u8]
        + payload
}

/// The command that sends `frame` to the meter at `sender`, where the
/// frame's encoding is at most 0xFFFF bytes long, as the length field has
/// four hex digits; `None` where it is longer.
pub fn command_from_echonetliteframe(sender: u128, frame: &EchonetliteFrame) -> (r: Option<Vec<u8>>)
    ensures
        frame_bytes(frame@).len() <= 0xffff ==> (r matches Some(c) && c@ == sendto_command(sender, frame_bytes(frame@))),
        frame_bytes(frame@).len() > 0xffff ==> r is None,
{
    let payload = frame.encode();
    if payload.len() > 0xffff {
        return None;
    }
    let mut out = bytes_sksendto();
    push_ipv6(&mut out, sender);
    push_all(&mut out, bytes_echonet_port().as_slice());
    push_hex(&mut out, payload.len() as u128, 4);
    out.push(0x20);
    push_all(&mut out, payload.as_slice());
    Some(out)
}

/// `SKSREG S16 <seconds>`, CRLF: sets the PANA session lifetime.
pub open spec fn session_lifetime_command(seconds: u32) -> Seq<u8> {
    text_sreg_s16() + hex_text(seconds as nat, 8) + text_crlf()
}

/// The command that sets the PANA session lifetime, in seconds.
pub fn session_lifetime_bytes(seconds: u32) -> (r: Vec<u8>)
    ensures
        r@ == session_lifetime_command(seconds),
{
    let mut out = bytes_sreg_s16();
    push_hex(&mut out, seconds as u128, 8);
    push_all(&mut out, bytes_crlf().as_slice());
    out
}

/// The session is renewed after seven tenths of its lifetime.
pub fn rejoin_period_seconds(lifetime: u32) -> (r: u32)
    ensures
        r as int == lifetime as int * 7 / 10,
{
    (lifetime as u64 * 7 / 10) as u32
}

} // verus!
