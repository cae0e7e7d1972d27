//! The address model: IPv4 and IPv6 addresses as their numeric values, a
//! CIDR block as an address and a prefix length, block membership, block
//! expansion, and the dotted-quad grammar.

use vstd::prelude::*;
use crate::textnum::all_dec_digits;
use crate::textnum::dec_val;
use crate::textnum::is_dec_digit;
use crate::textnum::split_on;
use crate::textnum::split_chars;
use vstd::arithmetic::power2::pow2;
use vstd::arithmetic::power2::lemma_pow2_adds;
use vstd::arithmetic::power2::lemma_pow2_pos;
use vstd::arithmetic::power2::lemma_pow2_strictly_increases;
use vstd::arithmetic::power2::lemma2_to64;
use vstd::arithmetic::power2::lemma2_to64_rest;
use vstd::arithmetic::div_mod::lemma_fundamental_div_mod;

verus! {

/// An IP address: a four-byte or a sixteen-byte value.
#[derive(Debug, Clone, Copy, PartialEq, Eq, Structural)]
pub enum Ip {
    V4(u32),
    V6(u128),
}

impl Ip {
    /// The numeric value of the address, widened to sixteen bytes.
    pub open spec fn spec_value(&self) -> nat {
        match self {
            Ip::V4(a) => *a as nat,
            Ip::V6(a) => *a as nat,
        }
    }

    /// Address family width in bits.
    pub open spec fn spec_width(&self) -> nat {
        match self {
            Ip::V4(_) => 32,
            Ip::V6(_) => 128,
        }
    }

    /// Whether this is a four-byte address.
    pub open spec fn spec_is_v4(&self) -> bool {
        self matches Ip::V4(_)
    }

    /// The four-byte address `a.b.c.d`.
    pub fn v4(a: u8, b: u8, c: u8, d: u8) -> (r: Ip)
        ensures
            r == Ip::V4(
                (a as u32 * 0x1000000 + b as u32 * 0x10000 + c as u32 * 0x100 + d as u32) as u32,
            ),
    {
        Ip::V4(a as u32 * 0x1000000 + b as u32 * 0x10000 + c as u32 * 0x100 + d as u32)
    }
}

/// A CIDR block: an address and a prefix length. The address may carry
/// host bits; membership and expansion go by the network part alone.
#[derive(Debug, Clone, Copy, PartialEq, Eq, Structural)]
pub struct Cidr {
    pub ip: Ip,
    pub prefix_len: u8,
}

impl Cidr {
    /// The prefix length does not exceed the family width.
    pub open spec fn wf(&self) -> bool {
        self.prefix_len as nat <= self.ip.spec_width()
    }

    /// Number of host bits.
    pub open spec fn spec_host_bits(&self) -> nat {
        (self.ip.spec_width() - self.prefix_len) as nat
    }

    /// The address carries no host bits, so it names the network itself.
    pub open spec fn spec_canonical(&self) -> bool {
        self.ip.spec_value() % pow2(self.spec_host_bits()) == 0
    }
}

/// Whether `ip` lies inside the block: same family, and the same value
/// once the host bits are divided away.
pub open spec fn cidr_contains(c: Cidr, ip: Ip) -> bool {
    ip.spec_is_v4() == c.ip.spec_is_v4() && ip.spec_value() / pow2(c.spec_host_bits())
        == c.ip.spec_value() / pow2(c.spec_host_bits())
}

/// Whether `ip` lies inside any of the blocks.
pub open spec fn in_any_cidr(ip: Ip, cs: Seq<Cidr>) -> bool {
    exists|i: int| 0 <= i < cs.len() && cidr_contains(cs[i], ip)
}

/// Two raised to the power `k`, executable.
pub fn pow2_u128(k: u8) -> (r: u128)
    requires
        k <= 127,
    ensures
        r as nat == pow2(k as nat),
{
    proof {
        lemma_pow2_128();
        lemma2_to64();
    }
    let mut d: u128 = 1;
    let mut i: u8 = 0;
    while i < k
        invariant
            0 <= i <= k,
            k <= 127,
            d as nat == pow2(i as nat),
            pow2(128) == 0x100000000000000000000000000000000,
        decreases k - i,
    {
        proof {
            lemma_pow2_adds(i as nat, 1);
            lemma2_to64();
            if ((i + 1) as nat) < 128 {
                lemma_pow2_strictly_increases((i + 1) as nat, 128);
            }
        }
        d = d * 2;
        i = i + 1;
    }
    d
}

/// The value of two raised to the bit width of an IPv6 address.
pub proof fn lemma_pow2_128()
    ensures
        pow2(128) == 0x100000000000000000000000000000000,
        pow2(64) == 0x10000000000000000,
        pow2(32) == 0x100000000,
{
    lemma2_to64();
    lemma2_to64_rest();
    lemma_pow2_adds(32, 32);
    lemma_pow2_adds(64, 64);
}

/// Whether `ip` lies inside the block, executably.
pub fn cidr_contains_ip(c: &Cidr, ip: &Ip) -> (r: bool)
    requires
        c.wf(),
    ensures
        r == cidr_contains(*c, *ip),
{
    proof {
        lemma_pow2_128();
    }
    match (c.ip, ip) {
        (Ip::V4(net), Ip::V4(a)) => {
            let k = 32 - c.prefix_len;
            let m = pow2_u128(k);
            proof {
                lemma_pow2_pos(k as nat);
            }
            (*a as u128) / m == (net as u128) / m
        },
        (Ip::V6(net), Ip::V6(a)) => {
            if c.prefix_len == 0 {
                proof {
                    lemma_pow2_pos(128);
                    assert(ip.spec_value() < pow2(128));
                    assert(c.ip.spec_value() < pow2(128));
                    vstd::arithmetic::div_mod::lemma_basic_div(
                        ip.spec_value() as int,
                        pow2(128) as int,
                    );
                    vstd::arithmetic::div_mod::lemma_basic_div(
                        c.ip.spec_value() as int,
                        pow2(128) as int,
                    );
                }
                true
            } else {
                let k = 128 - c.prefix_len;
                let m = pow2_u128(k);
                proof {
                    lemma_pow2_pos(k as nat);
                }
                *a / m == net / m
            }
        },
        _ => false,
    }
}

/// Whether `ip` lies inside any of the blocks, executably.
pub fn ip_in_any_cidr(ip: &Ip, cs: &Vec<Cidr>) -> (r: bool)
    requires
        forall|i: int| 0 <= i < cs@.len() ==> cs@[i].wf(),
    ensures
        r == in_any_cidr(*ip, cs@),
{
    let n = cs.len();
    let mut i: usize = 0;
    while i < n
        invariant
            0 <= i <= n,
            n == cs@.len(),
            forall|j: int| 0 <= j < cs@.len() ==> cs@[j].wf(),
            forall|j: int| 0 <= j < i ==> !cidr_contains(cs@[j], *ip),
        decreases n - i,
    {
        if cidr_contains_ip(&cs[i], ip) {
            return true;
        }
        i = i + 1;
    }
    false
}

/// The addresses of the block, in ascending order: the network base
/// (the address with its host bits cleared) through the last address of
/// the block.
pub open spec fn spec_expand_cidr(c: Cidr) -> Seq<Ip> {
    let k = c.spec_host_bits();
    let base = c.ip.spec_value() / pow2(k) * pow2(k);
    Seq::new(
        pow2(k),
        |i: int|
            if c.ip.spec_is_v4() {
                Ip::V4((base + i) as u32)
            } else {
                Ip::V6((base + i) as u128)
            },
    )
}

/// Materialize the block. The block must fit in memory: a sixteen-byte
/// block needs a prefix that leaves at most 64 host bits.
pub fn expand_cidr(c: &Cidr) -> (r: Vec<Ip>)
    requires
        c.wf(),
        !c.ip.spec_is_v4() ==> c.prefix_len >= 64,
    ensures
        r@ == spec_expand_cidr(*c),
{
    proof {
        lemma_pow2_128();
    }
    let width: u8 = match c.ip {
        Ip::V4(_) => 32,
        Ip::V6(_) => 128,
    };
    let val: u128 = match c.ip {
        Ip::V4(a) => a as u128,
        Ip::V6(a) => a,
    };
    let k = width - c.prefix_len;
    let count = pow2_u128(k);
    proof {
        lemma_pow2_pos(k as nat);
        lemma_pow2_adds(k as nat, (width - k) as nat);
        assert(pow2(width as nat) == pow2(k as nat) * pow2((width - k) as nat));
        lemma_fundamental_div_mod(val as int, count as int);
        vstd::arithmetic::div_mod::lemma_mod_division_less_than_divisor(
            val as int,
            count as int,
        );
        assert((val as nat) < pow2(width as nat));
        assert((val as nat / pow2(k as nat)) < pow2((width - k) as nat)) by {
            if (val as nat / pow2(k as nat)) >= pow2((width - k) as nat) {
                assert(val as nat >= pow2(k as nat) * (val as nat / pow2(k as nat)));
                assert(pow2(k as nat) * (val as nat / pow2(k as nat)) >= pow2(k as nat) * pow2(
                    (width - k) as nat,
                )) by (nonlinear_arith)
                    requires
                        val as nat / pow2(k as nat) >= pow2((width - k) as nat),
                        pow2(k as nat) > 0,
                ;
                assert(false);
            }
        }
    }
    let q = val / count;
    proof {
        assert((q as nat) * (count as nat) + count as nat <= pow2(width as nat))
            by (nonlinear_arith)
            requires
                (q as nat) < pow2((width - k) as nat),
                count as nat == pow2(k as nat),
                pow2(width as nat) == pow2(k as nat) * pow2((width - k) as nat),
                count as nat > 0,
        ;
        if (width as nat) < 128 {
            lemma_pow2_strictly_increases(width as nat, 128);
        }
        assert(pow2(width as nat) <= pow2(128));
    }
    let base = q * count;
    let ghost expected = spec_expand_cidr(*c);
    let mut out: Vec<Ip> = Vec::new();
    let mut i: u128 = 0;
    while i < count
        invariant
            0 <= i <= count,
            count as nat == pow2(c.spec_host_bits()),
            base == c.ip.spec_value() / pow2(c.spec_host_bits()) * pow2(c.spec_host_bits()),
            base + count <= pow2(c.ip.spec_width()),
            c.ip.spec_width() == width as nat,
            width == 32 || width == 128,
            c.ip.spec_is_v4() <==> width == 32,
            pow2(128) == 0x100000000000000000000000000000000,
            expected == spec_expand_cidr(*c),
            out@.len() == i,
            forall|j: int| 0 <= j < i ==> out@[j] == expected[j],
        decreases count - i,
    {
        proof {
            assert(base + i < pow2(c.ip.spec_width()));
            if width == 32 {
                lemma_pow2_128();
            }
        }
        let ip = match c.ip {
            Ip::V4(_) => Ip::V4((base + i) as u32),
            Ip::V6(_) => Ip::V6(base + i),
        };
        out.push(ip);
        i = i + 1;
    }
    proof {
        assert(out@ =~= expected);
    }
    out
}

/// A dotted-quad component: one to three digits, no leading zero, value
/// at most 255.
pub open spec fn is_octet_str(s: Seq<char>) -> bool {
    &&& 1 <= s.len() <= 3
    &&& all_dec_digits(s)
    &&& (s.len() == 1 || s[0] != '0')
    &&& dec_val(s) <= 255
}

/// What a dotted-quad address string denotes: four octet components
/// separated by dots.
pub open spec fn spec_parse_ipv4(s: Seq<char>) -> Option<u32> {
    let parts = split_on(s, '.');
    if parts.len() == 4 && is_octet_str(parts[0]) && is_octet_str(parts[1]) && is_octet_str(
        parts[2],
    ) && is_octet_str(parts[3]) {
        Some(
            (dec_val(parts[0]) * 0x1000000 + dec_val(parts[1]) * 0x10000 + dec_val(parts[2])
                * 0x100 + dec_val(parts[3])) as u32,
        )
    } else {
        None
    }
}

/// A prefix-length component: digits without a leading zero, value at
/// most `max`.
pub open spec fn is_prefix_str(s: Seq<char>, max: nat) -> bool {
    &&& 1 <= s.len() <= 3
    &&& all_dec_digits(s)
    &&& (s.len() == 1 || s[0] != '0')
    &&& dec_val(s) <= max
}

/// What a four-byte CIDR string denotes: a dotted quad, a slash, and a
/// prefix length up to 32.
pub open spec fn spec_parse_ipv4_cidr(s: Seq<char>) -> Option<(u32, u8)> {
    let parts = split_on(s, '/');
    if parts.len() == 2 {
        match spec_parse_ipv4(parts[0]) {
            Some(a) => if is_prefix_str(parts[1], 32) {
                Some((a, dec_val(parts[1]) as u8))
            } else {
                None
            },
            None => None,
        }
    } else {
        None
    }
}

/// Read one dotted-quad component.
fn parse_octet(s: &Vec<char>) -> (r: Option<u8>)
    ensures
        r is Some <==> is_octet_str(s@),
        r is Some ==> r->Some_0 as nat == dec_val(s@),
{
    if s.len() < 1 || s.len() > 3 {
        return None;
    }
    if s.len() > 1 && s[0] == '0' {
        return None;
    }
    let n = s.len();
    let mut acc: u32 = 0;
    let mut i: usize = 0;
    while i < n
        invariant
            0 <= i <= n,
            n == s@.len(),
            n <= 3,
            all_dec_digits(s@.take(i as int)),
            acc as nat == dec_val(s@.take(i as int)),
            i == 0 ==> acc == 0,
            i == 1 ==> acc <= 9,
            i == 2 ==> acc <= 99,
            i == 3 ==> acc <= 999,
        decreases n - i,
    {
        let c = s[i];
        if c < '0' || c > '9' {
            proof {
                assert(!is_dec_digit(s@[i as int]));
            }
            return None;
        }
        proof {
            assert(s@.take(i + 1).drop_last() =~= s@.take(i as int));
            assert(s@.take(i + 1).last() == s@[i as int]);
        }
        acc = acc * 10 + (c as u32 - 48);
        i = i + 1;
    }
    proof {
        assert(s@.take(n as int) =~= s@);
    }
    if acc > 255 {
        return None;
    }
    Some(acc as u8)
}

/// Read a dotted-quad address.
pub fn parse_ipv4(s: &Vec<char>) -> (r: Option<u32>)
    ensures
        r == spec_parse_ipv4(s@),
{
    let parts = split_chars(s, '.');
    if parts.len() != 4 {
        return None;
    }
    proof {
        assert forall|i: int| 0 <= i < 4 implies parts@[i]@ == split_on(s@, '.')[i] by {
            assert(parts.deep_view()[i] == parts@[i].deep_view());
        }
    }
    let a = match parse_octet(&parts[0]) {
        Some(v) => v,
        None => {
            return None;
        },
    };
    let b = match parse_octet(&parts[1]) {
        Some(v) => v,
        None => {
            return None;
        },
    };
    let c = match parse_octet(&parts[2]) {
        Some(v) => v,
        None => {
            return None;
        },
    };
    let d = match parse_octet(&parts[3]) {
        Some(v) => v,
        None => {
            return None;
        },
    };
    Some(a as u32 * 0x1000000 + b as u32 * 0x10000 + c as u32 * 0x100 + d as u32)
}

/// Read one prefix-length component, up to `max`.
fn parse_prefix(s: &Vec<char>, max: u8) -> (r: Option<u8>)
    ensures
        r is Some <==> is_prefix_str(s@, max as nat),
        r is Some ==> r->Some_0 as nat == dec_val(s@),
{
    if s.len() < 1 || s.len() > 3 {
        return None;
    }
    if s.len() > 1 && s[0] == '0' {
        return None;
    }
    let n = s.len();
    let mut acc: u32 = 0;
    let mut i: usize = 0;
    while i < n
        invariant
            0 <= i <= n,
            n == s@.len(),
            n <= 3,
            all_dec_digits(s@.take(i as int)),
            acc as nat == dec_val(s@.take(i as int)),
            i == 0 ==> acc == 0,
            i == 1 ==> acc <= 9,
            i == 2 ==> acc <= 99,
            i == 3 ==> acc <= 999,
        decreases n - i,
    {
        let c = s[i];
        if c < '0' || c > '9' {
            proof {
                assert(!is_dec_digit(s@[i as int]));
            }
            return None;
        }
        proof {
            assert(s@.take(i + 1).drop_last() =~= s@.take(i as int));
            assert(s@.take(i + 1).last() == s@[i as int]);
        }
        acc = acc * 10 + (c as u32 - 48);
        i = i + 1;
    }
    proof {
        assert(s@.take(n as int) =~= s@);
    }
    if acc > max as u32 {
        return None;
    }
    Some(acc as u8)
}

/// Read a four-byte CIDR string: dotted quad, slash, prefix length.
pub fn parse_ipv4_cidr(s: &Vec<char>) -> (r: Option<(u32, u8)>)
    ensures
        r == spec_parse_ipv4_cidr(s@),
{
    let parts = split_chars(s, '/');
    if parts.len() != 2 {
        return None;
    }
    proof {
        assert forall|i: int| 0 <= i < 2 implies parts@[i]@ == split_on(s@, '/')[i] by {
            assert(parts.deep_view()[i] == parts@[i].deep_view());
        }
    }
    let a = match parse_ipv4(&parts[0]) {
        Some(v) => v,
        None => {
            return None;
        },
    };
    let p = match parse_prefix(&parts[1], 32) {
        Some(v) => v,
        None => {
            return None;
        },
    };
    Some((a, p))
}

} // verus!
