//! The texts of the commands sent to the module, byte by byte.
use vstd::prelude::*;

verus! {

/// `SKRESET`, CRLF: reset the module.
pub open spec fn text_skreset() -> Seq<u8> {
    seq![0x53u8, 0x4b, 0x52, 0x45, 0x53, 0x45, 0x54, 0x0d, 0x0a]
}

pub fn bytes_skreset() -> (r: Vec<u8>)
    ensures
        r@ == text_skreset(),
{
    let v = vec![0x53u8, 0x4b, 0x52, 0x45, 0x53, 0x45, 0x54, 0x0d, 0x0a];
    assert(v@ =~= text_skreset());
    v
}

/// `SKSREG SFE 0`, CRLF: no command echo.
pub open spec fn text_echo_off() -> Seq<u8> {
    seq![0x53u8, 0x4b, 0x53, 0x52, 0x45, 0x47, 0x20, 0x53, 0x46, 0x45, 0x20, 0x30, 0x0d, 0x0a]
}

pub fn bytes_echo_off() -> (r: Vec<u8>)
    ensures
        r@ == text_echo_off(),
{
    let v = vec![0x53u8, 0x4b, 0x53, 0x52, 0x45, 0x47, 0x20, 0x53, 0x46, 0x45, 0x20, 0x30, 0x0d, 0x0a];
    assert(v@ =~= text_echo_off());
    v
}

/// `SKSETPWD C `, followed by the password.
pub open spec fn text_setpwd() -> Seq<u8> {
    seq![0x53u8, 0x4b, 0x53, 0x45, 0x54, 0x50, 0x57, 0x44, 0x20, 0x43, 0x20]
}

pub fn bytes_setpwd() -> (r: Vec<u8>)
    ensures
        r@ == text_setpwd(),
{
    let v = vec![0x53u8, 0x4b, 0x53, 0x45, 0x54, 0x50, 0x57, 0x44, 0x20, 0x43, 0x20];
    assert(v@ =~= text_setpwd());
    v
}

/// `SKSETRBID `, followed by the identifier.
pub open spec fn text_setrbid() -> Seq<u8> {
    seq![0x53u8, 0x4b, 0x53, 0x45, 0x54, 0x52, 0x42, 0x49, 0x44, 0x20]
}

pub fn bytes_setrbid() -> (r: Vec<u8>)
    ensures
        r@ == text_setrbid(),
{
    let v = vec![0x53u8, 0x4b, 0x53, 0x45, 0x54, 0x52, 0x42, 0x49, 0x44, 0x20];
    assert(v@ =~= text_setrbid());
    v
}

/// `SKSREG S2 `, followed by the channel.
pub open spec fn text_sreg_s2() -> Seq<u8> {
    seq![0x53u8, 0x4b, 0x53, 0x52, 0x45, 0x47, 0x20, 0x53, 0x32, 0x20]
}

pub fn bytes_sreg_s2() -> (r: Vec<u8>)
    ensures
        r@ == text_sreg_s2(),
{
    let v = vec![0x53u8, 0x4b, 0x53, 0x52, 0x45, 0x47, 0x20, 0x53, 0x32, 0x20];
    assert(v@ =~= text_sreg_s2());
    v
}

/// `SKSREG S3 `, followed by the PAN identifier.
pub open spec fn text_sreg_s3() -> Seq<u8> {
    seq![0x53u8, 0x4b, 0x53, 0x52, 0x45, 0x47, 0x20, 0x53, 0x33, 0x20]
}

pub fn bytes_sreg_s3() -> (r: Vec<u8>)
    ensures
        r@ == text_sreg_s3(),
{
    let v = vec![0x53u8, 0x4b, 0x53, 0x52, 0x45, 0x47, 0x20, 0x53, 0x33, 0x20];
    assert(v@ =~= text_sreg_s3());
    v
}

/// `SKSREG S16 `, followed by the session lifetime.
pub open spec fn text_sreg_s16() -> Seq<u8> {
    seq![0x53u8, 0x4b, 0x53, 0x52, 0x45, 0x47, 0x20, 0x53, 0x31, 0x36, 0x20]
}

pub fn bytes_sreg_s16() -> (r: Vec<u8>)
    ensures
        r@ == text_sreg_s16(),
{
    let v = vec![0x53u8, 0x4b, 0x53, 0x52, 0x45, 0x47, 0x20, 0x53, 0x31, 0x36, 0x20];
    assert(v@ =~= text_sreg_s16());
    v
}

/// `SKJOIN `, followed by the address of the meter.
pub open spec fn text_skjoin() -> Seq<u8> {
    seq![0x53u8, 0x4b, 0x4a, 0x4f, 0x49, 0x4e, 0x20]
}

pub fn bytes_skjoin() -> (r: Vec<u8>)
    ensures
        r@ == text_skjoin(),
{
    let v = vec![0x53u8, 0x4b, 0x4a, 0x4f, 0x49, 0x4e, 0x20];
    assert(v@ =~= text_skjoin());
    v
}

/// `SKSCAN 2 FFFFFFFF `, followed by the dwell time.
pub open spec fn text_skscan() -> Seq<u8> {
    seq![0x53u8, 0x4b, 0x53, 0x43, 0x41, 0x4e, 0x20, 0x32, 0x20, 0x46, 0x46, 0x46, 0x46, 0x46, 0x46, 0x46, 0x46, 0x20]
}

pub fn bytes_skscan() -> (r: Vec<u8>)
    ensures
        r@ == text_skscan(),
{
    let v = vec![0x53u8, 0x4b, 0x53, 0x43, 0x41, 0x4e, 0x20, 0x32, 0x20, 0x46, 0x46, 0x46, 0x46, 0x46, 0x46, 0x46, 0x46, 0x20];
    assert(v@ =~= text_skscan());
    v
}

/// `SKSENDTO 1 `, followed by the address of the meter.
pub open spec fn text_sksendto() -> Seq<u8> {
    seq![0x53u8, 0x4b, 0x53, 0x45, 0x4e, 0x44, 0x54, 0x4f, 0x20, 0x31, 0x20]
}

pub fn bytes_sksendto() -> (r: Vec<u8>)
    ensures
        r@ == text_sksendto(),
{
    let v = vec![0x53u8, 0x4b, 0x53, 0x45, 0x4e, 0x44, 0x54, 0x4f, 0x20, 0x31, 0x20];
    assert(v@ =~= text_sksendto());
    v
}

/// ` 0E1A 1 `: the ECHONET Lite port and the security flag.
pub open spec fn text_echonet_port() -> Seq<u8> {
    seq![0x20u8, 0x30, 0x45, 0x31, 0x41, 0x20, 0x31, 0x20]
}

pub fn bytes_echonet_port() -> (r: Vec<u8>)
    ensures
        r@ == text_echonet_port(),
{
    let v = vec![0x20u8, 0x30, 0x45, 0x31, 0x41, 0x20, 0x31, 0x20];
    assert(v@ =~= text_echonet_port());
    v
}

/// `SKREJOIN`, CRLF: renew the session.
pub open spec fn text_skrejoin() -> Seq<u8> {
    seq![0x53u8, 0x4b, 0x52, 0x45, 0x4a, 0x4f, 0x49, 0x4e, 0x0d, 0x0a]
}

pub fn bytes_skrejoin() -> (r: Vec<u8>)
    ensures
        r@ == text_skrejoin(),
{
    let v = vec![0x53u8, 0x4b, 0x52, 0x45, 0x4a, 0x4f, 0x49, 0x4e, 0x0d, 0x0a];
    assert(v@ =~= text_skrejoin());
    v
}

/// CR LF.
pub open spec fn text_crlf() -> Seq<u8> {
    seq![0x0du8, 0x0a]
}

pub fn bytes_crlf() -> (r: Vec<u8>)
    ensures
        r@ == text_crlf(),
{
    let v = vec![0x0du8, 0x0a];
    assert(v@ =~= text_crlf());
    v
}

} // verus!
