//! Small decisions behind the panel's commands.

use vstd::prelude::*;

use crate::text;

verus! {

/// The two lower-case hexadecimal digits of a byte.
pub open spec fn hex_byte(b: u8) -> Seq<char> {
    seq![crate::json::hex_digit((b / 16) as nat), crate::json::hex_digit((b % 16) as nat)]
}

/// The lower-case hexadecimal text of `bytes`.
pub open spec fn hex_text(bytes: Seq<u8>) -> Seq<char>
    decreases bytes.len(),
{
    if bytes.len() == 0 {
        Seq::empty()
    } else {
        hex_text(bytes.drop_last()) + hex_byte(bytes.last())
    }
}

/// `bytes` as lower-case hexadecimal (`to_hex`).
pub fn to_hex(bytes: &[u8]) -> (r: String)
    ensures
        r@ == hex_text(bytes@),
{
    let mut r = String::new();
    let mut i: usize = 0;
    assert(bytes@.take(0) =~= Seq::<u8>::empty());
    while i < bytes.len()
        invariant
            i <= bytes.len(),
            r@ == hex_text(bytes@.take(i as int)),
        decreases bytes.len() - i,
    {
        assert(bytes@.take(i + 1).drop_last() =~= bytes@.take(i as int));
        let b = bytes[i];
        text::push_char(&mut r, crate::json::hex_char((b / 16) as u32));
        text::push_char(&mut r, crate::json::hex_char((b % 16) as u32));
        i = i + 1;
        assert(r@ =~= hex_text(bytes@.take(i as int)));
    }
    assert(bytes@.take(bytes.len() as int) =~= bytes@);
    r
}

/// Whether `c` is a lower-case hexadecimal digit.
pub open spec fn is_hex_char(c: char) -> bool {
    ('0' <= c <= '9') || ('a' <= c <= 'f')
}

/// The hexadecimal text of `n` bytes is `2 * n` lower-case hexadecimal
/// digits, so every API key made from the same number of bytes has the same
/// length and alphabet.
pub proof fn law_hex_text_shape(bytes: Seq<u8>)
    ensures
        hex_text(bytes).len() == 2 * bytes.len(),
        forall|i: int| 0 <= i < hex_text(bytes).len() ==> is_hex_char(#[trigger] hex_text(bytes)[i]),
    decreases bytes.len(),
{
    if bytes.len() > 0 {
        law_hex_text_shape(bytes.drop_last());
        let pre = hex_text(bytes.drop_last());
        let b = bytes.last();
        assert(is_hex_char(crate::json::hex_digit((b / 16) as nat)));
        assert(is_hex_char(crate::json::hex_digit((b % 16) as nat)));
        assert forall|i: int| 0 <= i < hex_text(bytes).len() implies is_hex_char(
            #[trigger] hex_text(bytes)[i],
        ) by {
            if i < pre.len() {
                assert(hex_text(bytes)[i] == pre[i]);
            }
        }
    }
}

/// The API key made from random bytes: `g2c_` and their hexadecimal text
/// (`generate_api_key` once the bytes are read).
pub fn api_key_from_bytes(bytes: &[u8]) -> (r: String)
    ensures
        r@ == "g2c_"@ + hex_text(bytes@),
{
    let mut r = text::owned("g2c_");
    let hex = to_hex(bytes);
    text::push_str(&mut r, hex.as_str());
    r
}

/// What the panel says about a port.
#[derive(Clone, Debug)]
pub struct PortValidation {
    pub port: u16,
    pub available: bool,
    pub message: String,
}

/// The panel's verdict on a port, given the port the running bridge holds
/// (if any) and whether the port could be bound (`validate_port` command).
pub fn port_validation(port: u16, running_port: Option<u16>, bindable: bool) -> (r: PortValidation)
    ensures
        r.port == port,
        port == 0 ==> !r.available && r.message@ == "Port must be between 1 and 65535"@,
        port != 0 && running_port == Some(port) ==> r.available && r.message@
            == "Port is used by the running bridge"@,
        port != 0 && running_port != Some(port) ==> r.available == bindable && r.message@ == if bindable {
            "Port is available"@
        } else {
            "Port is already in use"@
        },
{
    if crate::settings::validate_port(port).is_err() {
        return PortValidation {
            port,
            available: false,
            message: text::owned("Port must be between 1 and 65535"),
        };
    }
    let running = match running_port {
        Some(p) => p == port,
        None => false,
    };
    if running {
        return PortValidation {
            port,
            available: true,
            message: text::owned("Port is used by the running bridge"),
        };
    }
    PortValidation {
        port,
        available: bindable,
        message: if bindable {
            text::owned("Port is available")
        } else {
            text::owned("Port is already in use")
        },
    }
}

} // verus!
