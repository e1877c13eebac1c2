//! Decimal and dotted-quad rendering, and the network configuration handed
//! to the sandboxed unit's runtime.

use vstd::prelude::*;
use vstd::string::*;
use crate::addr::AddressSpace;
use crate::error::VpnError;

verus! {

/// The character of one decimal digit.
pub open spec fn digit_char(d: nat) -> char {
    if d == 0 {
        '0'
    } else if d == 1 {
        '1'
    } else if d == 2 {
        '2'
    } else if d == 3 {
        '3'
    } else if d == 4 {
        '4'
    } else if d == 5 {
        '5'
    } else if d == 6 {
        '6'
    } else if d == 7 {
        '7'
    } else if d == 8 {
        '8'
    } else {
        '9'
    }
}

/// The decimal rendering of a number, most significant digit first, with
/// no leading zeroes.
pub open spec fn dec_digits(n: nat) -> Seq<char>
    decreases n,
{
    if n < 10 {
        seq![digit_char(n)]
    } else {
        dec_digits(n / 10).push(digit_char(n % 10))
    }
}

/// The dotted-quad rendering of an IPv4 address.
pub open spec fn ipv4_chars(ip: nat) -> Seq<char> {
    dec_digits(ip / 0x1000000) + seq!['.'] + dec_digits((ip / 0x10000) % 256) + seq!['.']
        + dec_digits((ip / 0x100) % 256) + seq!['.'] + dec_digits(ip % 256)
}

/// A decimal rendering has one digit exactly for numbers below ten.
pub proof fn lemma_dec_digits_len(n: nat)
    ensures
        dec_digits(n).len() >= 1,
        n >= 10 ==> dec_digits(n).len() >= 2,
    decreases n,
{
    if n >= 10 {
        lemma_dec_digits_len(n / 10);
    }
}

/// Decimal renderings are distinct for distinct numbers.
pub proof fn lemma_dec_digits_injective(a: nat, b: nat)
    requires
        dec_digits(a) == dec_digits(b),
    ensures
        a == b,
    decreases a + b,
{
    lemma_dec_digits_len(a);
    lemma_dec_digits_len(b);
    if a < 10 && b < 10 {
        assert(dec_digits(a)[0] == digit_char(a));
        assert(dec_digits(b)[0] == digit_char(b));
    } else if a >= 10 && b >= 10 {
        assert(dec_digits(a).last() == digit_char(a % 10));
        assert(dec_digits(b).last() == digit_char(b % 10));
        assert(a % 10 == b % 10);
        assert(dec_digits(a).drop_last() =~= dec_digits(a / 10));
        assert(dec_digits(b).drop_last() =~= dec_digits(b / 10));
        lemma_dec_digits_injective(a / 10, b / 10);
        vstd::arithmetic::div_mod::lemma_fundamental_div_mod(a as int, 10);
        vstd::arithmetic::div_mod::lemma_fundamental_div_mod(b as int, 10);
    } else if a < 10 {
        assert(dec_digits(a).len() == 1);
        assert(false);
    } else {
        assert(dec_digits(b).len() == 1);
        assert(false);
    }
}

/// One decimal digit as a string slice.
fn digit_str(d: u8) -> (r: &'static str)
    requires
        d < 10,
    ensures
        r@ == seq![digit_char(d as nat)],
{
    let r: &'static str = match d {
        0 => "0",
        1 => "1",
        2 => "2",
        3 => "3",
        4 => "4",
        5 => "5",
        6 => "6",
        7 => "7",
        8 => "8",
        _ => "9",
    };
    proof {
        reveal_strlit("0");
        reveal_strlit("1");
        reveal_strlit("2");
        reveal_strlit("3");
        reveal_strlit("4");
        reveal_strlit("5");
        reveal_strlit("6");
        reveal_strlit("7");
        reveal_strlit("8");
        reveal_strlit("9");
        assert(r@ =~= seq![digit_char(d as nat)]);
    }
    r
}

/// Appends the decimal rendering of `n`.
fn push_dec(n: u64, out: &mut String)
    ensures
        final(out)@ == old(out)@ + dec_digits(n as nat),
    decreases n,
{
    if n >= 10 {
        push_dec(n / 10, out);
        out.append(digit_str((n % 10) as u8));
        proof {
            assert(final(out)@ =~= old(out)@ + dec_digits(n as nat));
        }
    } else {
        out.append(digit_str(n as u8));
        proof {
            assert(final(out)@ =~= old(out)@ + dec_digits(n as nat));
        }
    }
}

/// The decimal rendering of a number as a fresh string.
pub fn u64_to_string(n: u64) -> (r: String)
    ensures
        r@ == dec_digits(n as nat),
{
    let mut out = String::new();
    push_dec(n, &mut out);
    proof {
        assert(out@ =~= dec_digits(n as nat));
    }
    out
}

/// The dotted-quad rendering of an IPv4 address as a fresh string.
pub fn ip_to_string(ip: u32) -> (r: String)
    ensures
        r@ == ipv4_chars(ip as nat),
{
    let mut out = String::new();
    push_dec((ip / 0x1000000) as u64, &mut out);
    out.append(".");
    push_dec(((ip / 0x10000) % 256) as u64, &mut out);
    out.append(".");
    push_dec(((ip / 0x100) % 256) as u64, &mut out);
    out.append(".");
    push_dec((ip % 256) as u64, &mut out);
    proof {
        reveal_strlit(".");
        assert("."@ =~= seq!['.']);
        assert(out@ =~= ipv4_chars(ip as nat));
    }
    out
}

/// The network configuration handed to the sandboxed unit's runtime: the
/// subnet's own address, the gateway, the netmask and the unit's address,
/// all in dotted-quad form.
#[derive(Debug)]
pub struct RuntimeNetworkConfig {
    pub addr: String,
    pub gateway: String,
    pub mask: String,
    pub if_addr: String,
}

/// Renders the runtime configuration of a node's binding.  A subnet with
/// no room for a gateway beside the network address has its one address
/// already spoken for.
pub fn runtime_config(space: &AddressSpace, node_ip: u32) -> (r: Result<
    RuntimeNetworkConfig,
    VpnError,
>)
    requires
        space.wf(),
    ensures
        space.spec_has_gateway() <==> r is Ok,
        r matches Err(e) ==> e == VpnError::AddressTaken,
        r matches Ok(c) ==> {
            &&& c.addr@ == ipv4_chars(space.spec_network() as nat)
            &&& c.gateway@ == ipv4_chars(space.spec_gateway() as nat)
            &&& c.mask@ == ipv4_chars((0x1_0000_0000 - vstd::arithmetic::power2::pow2(
                (32 - space.spec_prefix()) as nat,
            )) as nat)
            &&& c.if_addr@ == ipv4_chars(node_ip as nat)
        },
{
    let gateway = match space.gateway() {
        Some(g) => g,
        None => {
            return Err(VpnError::AddressTaken);
        },
    };
    proof {
        space.lemma_bounds();
        vstd::arithmetic::power2::lemma2_to64();
    }
    let c = RuntimeNetworkConfig {
        addr: ip_to_string(space.network_addr()),
        gateway: ip_to_string(gateway),
        mask: ip_to_string(space.netmask()),
        if_addr: ip_to_string(node_ip),
    };
    Ok(c)
}

} // verus!
