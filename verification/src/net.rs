use vstd::prelude::*;

verus! {

/// An IP address as a plain number: IPv4 as its 32 bits, IPv6 as its 128 bits (network order).
#[derive(Clone, Copy, Debug, PartialEq, Eq, Structural, Hash)]
pub enum IpAddress {
    V4(u32),
    V6(u128),
}

/// What `cidr::Ipv4Cidr::from_str` makes of `text`: first address and network length.
pub uninterp spec fn ipv4_cidr_parse(text: Seq<char>) -> Option<(u32, u8)>;

/// What `cidr::Ipv6Cidr::from_str` makes of `text`: first address and network length.
pub uninterp spec fn ipv6_cidr_parse(text: Seq<char>) -> Option<(u128, u8)>;

/// `cidr::Ipv4Cidr::from_str`, as first address and network length.
/// Claims that the result is the named parse, and that a parsed network length is at most 32
/// (the crate's `new` refuses longer ones).
#[verifier::external_body]
pub(crate) fn parse_ipv4_cidr(text: &str) -> (res: Option<(u32, u8)>)
    ensures
        res == ipv4_cidr_parse(text@),
        res matches Some((_, len)) ==> len <= 32,
{
    match <cidr::Ipv4Cidr as std::str::FromStr>::from_str(text) {
        Ok(c) => Some((u32::from(c.first_address()), c.network_length())),
        Err(_) => None,
    }
}

/// `cidr::Ipv6Cidr::from_str`, as first address and network length.
/// Claims that the result is the named parse, and that a parsed network length is at most 128.
#[verifier::external_body]
pub(crate) fn parse_ipv6_cidr(text: &str) -> (res: Option<(u128, u8)>)
    ensures
        res == ipv6_cidr_parse(text@),
        res matches Some((_, len)) ==> len <= 128,
{
    match <cidr::Ipv6Cidr as std::str::FromStr>::from_str(text) {
        Ok(c) => Some((u128::from(c.first_address()), c.network_length())),
        Err(_) => None,
    }
}

/// A network given by its first address and prefix length.
#[derive(Clone, Copy, Debug, PartialEq, Eq, Structural)]
pub enum IpRange {
    V4 { network: u32, len: u8 },
    V6 { network: u128, len: u8 },
}

/// Whether the network holds `ip`: same family, and the first `len` bits agree
/// (a zero-length prefix holds every address of its family).
pub open spec fn range_contains(r: IpRange, ip: IpAddress) -> bool {
    match (r, ip) {
        (IpRange::V4 { network, len }, IpAddress::V4(a)) => len == 0 || (len <= 32 && (network >> ((32 - len) as u32)) == (a >> ((32 - len) as u32))),
        (IpRange::V6 { network, len }, IpAddress::V6(a)) => len == 0 || (len <= 128 && (network >> ((128 - len) as u32)) == (a >> ((128 - len) as u32))),
        _ => false,
    }
}

/// The top `len` bits of a `width`-bit number `x`: its quotient by 2^(width - len).
pub open spec fn top_bits(x: nat, width: nat, len: nat) -> nat {
    x / vstd::arithmetic::power2::pow2((width - len) as nat)
}

/// An IPv4 network of prefix length `len` holds exactly the IPv4 addresses that agree with the
/// network on their top `len` bits.
pub proof fn ipv4_range_holds_addresses_with_its_top_bits(network: u32, len: u8, a: u32)
    requires
        len <= 32,
    ensures
        range_contains(IpRange::V4 { network, len }, IpAddress::V4(a))
            == (top_bits(network as nat, 32, len as nat) == top_bits(a as nat, 32, len as nat)),
{
    if len == 0 {
        vstd::arithmetic::power2::lemma_pow2_strictly_increases(0, 32);
        vstd::arithmetic::power2::lemma2_to64();
        assert(network as nat / vstd::arithmetic::power2::pow2(32) == 0);
        assert(a as nat / vstd::arithmetic::power2::pow2(32) == 0);
    } else {
        let s = (32 - len) as u32;
        vstd::bits::lemma_u32_shr_is_div(network, s);
        vstd::bits::lemma_u32_shr_is_div(a, s);
    }
}

/// An IPv6 network of prefix length `len` holds exactly the IPv6 addresses that agree with the
/// network on their top `len` bits.
pub proof fn ipv6_range_holds_addresses_with_its_top_bits(network: u128, len: u8, a: u128)
    requires
        len <= 128,
    ensures
        range_contains(IpRange::V6 { network, len }, IpAddress::V6(a))
            == (top_bits(network as nat, 128, len as nat) == top_bits(a as nat, 128, len as nat)),
{
    if len == 0 {
        assert(network as nat / vstd::arithmetic::power2::pow2(128) == 0) by {
            vstd::bits::lemma_u128_shr_is_div(network, 127);
            vstd::arithmetic::power2::lemma_pow2_adds(127, 1);
            vstd::arithmetic::power2::lemma2_to64();
            assert(network >> 127u128 <= 1) by (bit_vector);
            vstd::arithmetic::power2::lemma_pow2_pos(127);
            vstd::arithmetic::div_mod::lemma_div_denominator(network as int, vstd::arithmetic::power2::pow2(127) as int, 2);
        }
        assert(a as nat / vstd::arithmetic::power2::pow2(128) == 0) by {
            vstd::bits::lemma_u128_shr_is_div(a, 127);
            vstd::arithmetic::power2::lemma_pow2_adds(127, 1);
            vstd::arithmetic::power2::lemma2_to64();
            assert(a >> 127u128 <= 1) by (bit_vector);
            vstd::arithmetic::power2::lemma_pow2_pos(127);
            vstd::arithmetic::div_mod::lemma_div_denominator(a as int, vstd::arithmetic::power2::pow2(127) as int, 2);
        }
    } else {
        let s = (128 - len) as u128;
        vstd::bits::lemma_u128_shr_is_div(network, s);
        vstd::bits::lemma_u128_shr_is_div(a, s);
    }
}

impl IpRange {
    /// Whether the network holds the address.
    pub fn contains(&self, ip: &IpAddress) -> (res: bool)
        ensures
            res == range_contains(*self, *ip),
    {
        match (self, ip) {
            (IpRange::V4 { network, len }, IpAddress::V4(a)) => {
                *len == 0 || (*len <= 32 && (*network >> ((32 - *len) as u32)) == (*a >> ((32 - *len) as u32)))
            },
            (IpRange::V6 { network, len }, IpAddress::V6(a)) => {
                *len == 0 || (*len <= 128 && (*network >> ((128 - *len) as u32)) == (*a >> ((128 - *len) as u32)))
            },
            _ => false,
        }
    }
}

} // verus!
