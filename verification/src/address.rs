//! Target resolution: classify address strings into literal addresses and
//! CIDR blocks, expand the blocks, parse the exclusion list, and reduce
//! the working set to distinct, non-excluded addresses in first-seen
//! order. Host names and files need the resolver and the file system and
//! are handled by the caller around this module.

use std::str::FromStr;

use vstd::prelude::*;
use crate::input::Opts;
use crate::ip::Cidr;
use crate::ip::Ip;
use crate::ip::expand_cidr;
use crate::ip::in_any_cidr;
use crate::ip::ip_in_any_cidr;
use crate::ip::parse_ipv4;
use crate::ip::parse_ipv4_cidr;
use crate::ip::spec_expand_cidr;
use crate::ip::spec_parse_ipv4;
use crate::ip::spec_parse_ipv4_cidr;
use crate::textnum::chars_of;
use crate::textnum::split_on;
use crate::textnum::split_chars;
use crate::textnum::string_of_chars;

verus! {

/// What the `cidr` crate's reader makes of a string: the family, the
/// address value, and the network length, for either a bare address or
/// an `address/length` form; nothing for any other string.
pub uninterp spec fn inet_of(s: Seq<char>) -> Option<(bool, u128, u8)>;

/// Relies on cidr::IpInet::from_str (re-exported by cidr_utils): a bare
/// address parses as a host with the full network length, an
/// `address/length` form parses with its stated length, which never
/// exceeds the family width; host bits are kept.
#[verifier::external_body]
fn parse_inet_str(s: &str) -> (r: Option<(bool, u128, u8)>)
    ensures
        r == inet_of(s@),
        r matches Some(t) ==> t.2 <= 128 && (t.0 ==> t.1 < 0x100000000 && t.2 <= 32),
{
    match cidr_utils::cidr::IpInet::from_str(s) {
        Ok(cidr_utils::cidr::IpInet::V4(n)) => Some((
            true,
            u32::from(n.address()) as u128,
            n.network_length(),
        )),
        Ok(cidr_utils::cidr::IpInet::V6(n)) => Some((
            false,
            u128::from(n.address()),
            n.network_length(),
        )),
        Err(_) => None,
    }
}

/// The addresses an address string stands for: a four-byte literal is
/// itself; a CIDR string is its whole block; a sixteen-byte block wider
/// than 64 host bits cannot be materialized and yields nothing; any
/// other string yields nothing here and is left to the resolver.
pub open spec fn spec_parse_address(s: Seq<char>) -> Seq<Ip> {
    match spec_parse_ipv4(s) {
        Some(a) => seq![Ip::V4(a)],
        None => match spec_parse_ipv4_cidr(s) {
            Some(ap) => spec_expand_cidr(Cidr { ip: Ip::V4(ap.0), prefix_len: ap.1 }),
            None => match inet_of(s) {
                Some(t) => if t.0 {
                    spec_expand_cidr(Cidr { ip: Ip::V4(t.1 as u32), prefix_len: t.2 })
                } else if t.2 >= 64 {
                    spec_expand_cidr(Cidr { ip: Ip::V6(t.1), prefix_len: t.2 })
                } else {
                    Seq::empty()
                },
                None => Seq::empty(),
            },
        },
    }
}

/// Parse one string as an address, a CIDR block, or neither.
pub fn parse_address(address: &str) -> (r: Vec<Ip>)
    ensures
        r@ == spec_parse_address(address@),
{
    let cs = chars_of(address);
    match parse_ipv4(&cs) {
        Some(a) => {
            let mut out: Vec<Ip> = Vec::new();
            out.push(Ip::V4(a));
            proof {
                assert(out@ =~= spec_parse_address(address@));
            }
            out
        },
        None => {
            match parse_ipv4_cidr(&cs) {
                Some(ap) => expand_cidr(&Cidr { ip: Ip::V4(ap.0), prefix_len: ap.1 }),
                None => {
                    match parse_inet_str(address) {
                        Some(t) => {
                            if t.0 {
                                expand_cidr(&Cidr { ip: Ip::V4(t.1 as u32), prefix_len: t.2 })
                            } else if t.2 >= 64 {
                                expand_cidr(&Cidr { ip: Ip::V6(t.1), prefix_len: t.2 })
                            } else {
                                Vec::new()
                            }
                        },
                        None => Vec::new(),
                    }
                },
            }
        },
    }
}

/// The exclusion blocks one string stands for: a literal address is a
/// host block, a CIDR string with clear host bits is its block, and
/// anything else yields nothing here and is left to the resolver.
pub open spec fn spec_parse_single_excluded(s: Seq<char>) -> Seq<Cidr> {
    match spec_parse_ipv4(s) {
        Some(a) => seq![Cidr { ip: Ip::V4(a), prefix_len: 32 }],
        None => match spec_parse_ipv4_cidr(s) {
            Some(ap) => {
                let c = Cidr { ip: Ip::V4(ap.0), prefix_len: ap.1 };
                if c.spec_canonical() {
                    seq![c]
                } else {
                    Seq::empty()
                }
            },
            None => match inet_of(s) {
                Some(t) => {
                    let c = if t.0 {
                        Cidr { ip: Ip::V4(t.1 as u32), prefix_len: t.2 }
                    } else {
                        Cidr { ip: Ip::V6(t.1), prefix_len: t.2 }
                    };
                    if c.spec_canonical() {
                        seq![c]
                    } else {
                        Seq::empty()
                    }
                },
                None => Seq::empty(),
            },
        },
    }
}

/// Check that a block's address carries no host bits, executably.
fn cidr_is_canonical(c: &Cidr) -> (r: bool)
    requires
        c.wf(),
    ensures
        r == c.spec_canonical(),
{
    proof {
        crate::ip::lemma_pow2_128();
    }
    let (val, k): (u128, u8) = match c.ip {
        Ip::V4(a) => (a as u128, 32 - c.prefix_len),
        Ip::V6(a) => (a, 128 - c.prefix_len),
    };
    if k == 128 {
        proof {
            vstd::arithmetic::power2::lemma_pow2_pos(128);
            vstd::arithmetic::div_mod::lemma_small_mod(c.ip.spec_value(), pow2_128_nat());
        }
        val == 0
    } else {
        let m = crate::ip::pow2_u128(k);
        proof {
            vstd::arithmetic::power2::lemma_pow2_pos(k as nat);
        }
        val % m == 0
    }
}

/// Two raised to the IPv6 width, as a number.
pub open spec fn pow2_128_nat() -> nat {
    vstd::arithmetic::power2::pow2(128)
}

/// Parse one exclusion string.
pub fn parse_single_excluded_address(addr: &str) -> (r: Vec<Cidr>)
    ensures
        r@ == spec_parse_single_excluded(addr@),
        forall|i: int| 0 <= i < r@.len() ==> r@[i].wf(),
{
    let cs = chars_of(addr);
    match parse_ipv4(&cs) {
        Some(a) => {
            let mut out: Vec<Cidr> = Vec::new();
            out.push(Cidr { ip: Ip::V4(a), prefix_len: 32 });
            proof {
                assert(out@ =~= spec_parse_single_excluded(addr@));
            }
            out
        },
        None => {
            let parsed: Option<Cidr> = match parse_ipv4_cidr(&cs) {
                Some(ap) => Some(Cidr { ip: Ip::V4(ap.0), prefix_len: ap.1 }),
                None => {
                    match parse_inet_str(addr) {
                        Some(t) => {
                            if t.0 {
                                Some(Cidr { ip: Ip::V4(t.1 as u32), prefix_len: t.2 })
                            } else {
                                Some(Cidr { ip: Ip::V6(t.1), prefix_len: t.2 })
                            }
                        },
                        None => None,
                    }
                },
            };
            match parsed {
                Some(c) => {
                    if cidr_is_canonical(&c) {
                        let mut out: Vec<Cidr> = Vec::new();
                        out.push(c);
                        proof {
                            assert(out@ =~= spec_parse_single_excluded(addr@));
                        }
                        out
                    } else {
                        let out: Vec<Cidr> = Vec::new();
                        proof {
                            assert(out@ =~= spec_parse_single_excluded(addr@));
                        }
                        out
                    }
                },
                None => Vec::new(),
            }
        },
    }
}

/// The exclusion blocks of a whole list of strings, in order.
pub open spec fn spec_parse_excluded(list: Seq<Seq<char>>) -> Seq<Cidr>
    decreases list.len(),
{
    if list.len() == 0 {
        Seq::empty()
    } else {
        spec_parse_excluded(list.drop_last()) + spec_parse_single_excluded(list.last())
    }
}

/// Parse the exclusion list into blocks. Strings that are neither
/// addresses nor blocks are left to the resolver.
pub fn parse_excluded_networks(exclude_addresses: &Option<Vec<String>>) -> (r: Vec<Cidr>)
    ensures
        exclude_addresses matches Some(xs) ==> r@ == spec_parse_excluded(xs.deep_view()),
        exclude_addresses is None ==> r@ == Seq::<Cidr>::empty(),
        forall|i: int| 0 <= i < r@.len() ==> r@[i].wf(),
{
    let mut out: Vec<Cidr> = Vec::new();
    match exclude_addresses {
        None => out,
        Some(xs) => {
            let n = xs.len();
            let mut i: usize = 0;
            while i < n
                invariant
                    0 <= i <= n,
                    n == xs@.len(),
                    out@ == spec_parse_excluded(xs.deep_view().take(i as int)),
                    forall|j: int| 0 <= j < out@.len() ==> out@[j].wf(),
                decreases n - i,
            {
                let one = parse_single_excluded_address(xs[i].as_str());
                let ghost pre = out@;
                let mut j: usize = 0;
                let m = one.len();
                while j < m
                    invariant
                        0 <= j <= m,
                        m == one@.len(),
                        out@ == pre + one@.take(j as int),
                        forall|t: int| 0 <= t < one@.len() ==> one@[t].wf(),
                        forall|t: int| 0 <= t < pre.len() ==> pre[t].wf(),
                    decreases m - j,
                {
                    proof {
                        assert((pre + one@.take(j as int)).push(one@[j as int]) =~= pre
                            + one@.take(j + 1));
                    }
                    out.push(one[j]);
                    j = j + 1;
                }
                proof {
                    assert(one@.take(m as int) =~= one@);
                    assert(xs.deep_view().take(i + 1).drop_last() =~= xs.deep_view().take(
                        i as int,
                    ));
                    assert(xs.deep_view().take(i + 1).last() == xs@[i as int]@);
                }
                i = i + 1;
            }
            proof {
                assert(xs.deep_view().take(n as int) =~= xs.deep_view());
            }
            out
        },
    }
}

/// The working set: the input addresses kept in first-seen order, with
/// later duplicates and every address inside an exclusion block removed.
pub open spec fn spec_dedup_exclude(s: Seq<Ip>, ex: Seq<Cidr>) -> Seq<Ip>
    decreases s.len(),
{
    if s.len() == 0 {
        Seq::empty()
    } else {
        let rest = spec_dedup_exclude(s.drop_last(), ex);
        if in_any_cidr(s.last(), ex) || s.drop_last().contains(s.last()) {
            rest
        } else {
            rest.push(s.last())
        }
    }
}

/// An address is in the working set exactly when it was in the input and
/// lies in no exclusion block.
pub proof fn lemma_dedup_exclude_membership(s: Seq<Ip>, ex: Seq<Cidr>, x: Ip)
    ensures
        spec_dedup_exclude(s, ex).contains(x) <==> (s.contains(x) && !in_any_cidr(x, ex)),
    decreases s.len(),
{
    if s.len() > 0 {
        lemma_dedup_exclude_membership(s.drop_last(), ex, x);
        let rest = spec_dedup_exclude(s.drop_last(), ex);
        if in_any_cidr(s.last(), ex) || s.drop_last().contains(s.last()) {
            assert(s.contains(x) <==> (s.drop_last().contains(x) || s.last() == x)) by {
                lemma_contains_split(s, x);
            }
        } else {
            assert(rest.push(s.last()).contains(x) <==> (rest.contains(x) || s.last() == x))
                by {
                lemma_contains_split(rest.push(s.last()), x);
                assert(rest.push(s.last()).drop_last() =~= rest);
            }
            assert(s.contains(x) <==> (s.drop_last().contains(x) || s.last() == x)) by {
                lemma_contains_split(s, x);
            }
        }
    }
}

/// Membership in a non-empty sequence splits into the front part and the
/// last element.
pub proof fn lemma_contains_split<A>(s: Seq<A>, x: A)
    requires
        s.len() > 0,
    ensures
        s.contains(x) <==> (s.drop_last().contains(x) || s.last() == x),
{
    if s.drop_last().contains(x) {
        let i = choose|i: int| 0 <= i < s.drop_last().len() && s.drop_last()[i] == x;
        assert(s[i] == x);
    }
    if s.contains(x) {
        let i = choose|i: int| 0 <= i < s.len() && s[i] == x;
        if i < s.len() - 1 {
            assert(s.drop_last()[i] == x);
        }
    }
}

/// The working set holds no duplicates.
pub proof fn lemma_dedup_exclude_distinct(s: Seq<Ip>, ex: Seq<Cidr>)
    ensures
        forall|i: int, j: int|
            0 <= i < j < spec_dedup_exclude(s, ex).len() ==> spec_dedup_exclude(s, ex)[i]
                != spec_dedup_exclude(s, ex)[j],
    decreases s.len(),
{
    if s.len() > 0 {
        lemma_dedup_exclude_distinct(s.drop_last(), ex);
        let rest = spec_dedup_exclude(s.drop_last(), ex);
        let whole = spec_dedup_exclude(s, ex);
        if !(in_any_cidr(s.last(), ex) || s.drop_last().contains(s.last())) {
            assert forall|i: int, j: int| 0 <= i < j < whole.len() implies whole[i] != whole[j] by {
                if j == whole.len() - 1 {
                    assert(whole[j] == s.last());
                    if whole[i] == s.last() {
                        assert(rest[i] == s.last());
                        assert(rest.contains(s.last()));
                        lemma_dedup_exclude_membership(s.drop_last(), ex, s.last());
                    }
                } else {
                    assert(whole[i] == rest[i] && whole[j] == rest[j]);
                }
            }
        }
    }
}

/// No address of the working set lies in an exclusion block.
pub proof fn lemma_dedup_exclude_no_excluded(s: Seq<Ip>, ex: Seq<Cidr>)
    ensures
        forall|i: int|
            0 <= i < spec_dedup_exclude(s, ex).len() ==> !in_any_cidr(
                spec_dedup_exclude(s, ex)[i],
                ex,
            ),
{
    let whole = spec_dedup_exclude(s, ex);
    assert forall|i: int| 0 <= i < whole.len() implies !in_any_cidr(whole[i], ex) by {
        assert(whole.contains(whole[i]));
        lemma_dedup_exclude_membership(s, ex, whole[i]);
    }
}

/// Whether the vector holds the address.
fn contains_ip(v: &Vec<Ip>, ip: &Ip) -> (r: bool)
    ensures
        r == v@.contains(*ip),
{
    let n = v.len();
    let mut i: usize = 0;
    while i < n
        invariant
            0 <= i <= n,
            n == v@.len(),
            forall|j: int| 0 <= j < i ==> v@[j] != *ip,
        decreases n - i,
    {
        if v[i] == *ip {
            return true;
        }
        i = i + 1;
    }
    false
}

/// Remove duplicates and excluded addresses, keeping first-seen order.
pub fn dedup_and_exclude(ips: Vec<Ip>, excluded: &Vec<Cidr>) -> (r: Vec<Ip>)
    requires
        forall|i: int| 0 <= i < excluded@.len() ==> excluded@[i].wf(),
    ensures
        r@ == spec_dedup_exclude(ips@, excluded@),
{
    let mut out: Vec<Ip> = Vec::new();
    let n = ips.len();
    let mut i: usize = 0;
    while i < n
        invariant
            0 <= i <= n,
            n == ips@.len(),
            forall|j: int| 0 <= j < excluded@.len() ==> excluded@[j].wf(),
            out@ == spec_dedup_exclude(ips@.take(i as int), excluded@),
        decreases n - i,
    {
        let ip = ips[i];
        proof {
            assert(ips@.take(i + 1).drop_last() =~= ips@.take(i as int));
            assert(ips@.take(i + 1).last() == ips@[i as int]);
        }
        let excluded_hit = ip_in_any_cidr(&ip, excluded);
        if !excluded_hit {
            let seen = contains_ip(&out, &ip);
            proof {
                lemma_dedup_exclude_membership(ips@.take(i as int), excluded@, ips@[i as int]);
            }
            if !seen {
                out.push(ip);
            }
        }
        i = i + 1;
    }
    proof {
        assert(ips@.take(n as int) =~= ips@);
    }
    out
}

/// The addresses that a whole list of address strings stands for, in
/// order, before deduplication and exclusion.
pub open spec fn spec_expanded_addresses(list: Seq<Seq<char>>) -> Seq<Ip>
    decreases list.len(),
{
    if list.len() == 0 {
        Seq::empty()
    } else {
        spec_expanded_addresses(list.drop_last()) + spec_parse_address(list.last())
    }
}

/// Turn the configured address strings into the working set of
/// addresses: expand literals and blocks, drop what cannot be read here
/// (the caller hands those strings to the resolver or the file system),
/// remove duplicates and excluded addresses, and keep first-seen order.
pub fn parse_addresses(input: &Opts) -> (r: Vec<Ip>)
    ensures
        r@ == spec_dedup_exclude(
            spec_expanded_addresses(input.addresses.deep_view()),
            spec_excluded_of_opts(input),
        ),
{
    let mut ips: Vec<Ip> = Vec::new();
    let n = input.addresses.len();
    let mut i: usize = 0;
    while i < n
        invariant
            0 <= i <= n,
            n == input.addresses@.len(),
            ips@ == spec_expanded_addresses(input.addresses.deep_view().take(i as int)),
        decreases n - i,
    {
        let one = parse_address(input.addresses[i].as_str());
        let ghost pre = ips@;
        let mut j: usize = 0;
        let m = one.len();
        while j < m
            invariant
                0 <= j <= m,
                m == one@.len(),
                ips@ == pre + one@.take(j as int),
            decreases m - j,
        {
            proof {
                assert((pre + one@.take(j as int)).push(one@[j as int]) =~= pre + one@.take(
                    j + 1,
                ));
            }
            ips.push(one[j]);
            j = j + 1;
        }
        proof {
            assert(one@.take(m as int) =~= one@);
            assert(input.addresses.deep_view().take(i + 1).drop_last()
                =~= input.addresses.deep_view().take(i as int));
            assert(input.addresses.deep_view().take(i + 1).last()
                == input.addresses@[i as int]@);
        }
        i = i + 1;
    }
    proof {
        assert(input.addresses.deep_view().take(n as int) =~= input.addresses.deep_view());
    }
    let excluded = parse_excluded_networks(&input.exclude_addresses);
    dedup_and_exclude(ips, &excluded)
}

/// The resolver address one list entry stands for: a bare four-byte or
/// sixteen-byte literal; anything else — including any form with a
/// prefix length — is skipped.
pub open spec fn spec_parse_resolver_entry(s: Seq<char>) -> Option<Ip> {
    match spec_parse_ipv4(s) {
        Some(a) => Some(Ip::V4(a)),
        None => if s.contains('/') {
            None
        } else {
            match inet_of(s) {
                Some(t) => Some(
                    if t.0 {
                        Ip::V4(t.1 as u32)
                    } else {
                        Ip::V6(t.1)
                    },
                ),
                None => None,
            }
        },
    }
}

/// Read one resolver list entry as a bare address.
pub fn parse_resolver_entry(s: &str) -> (r: Option<Ip>)
    ensures
        r == spec_parse_resolver_entry(s@),
{
    let cs = chars_of(s);
    match parse_ipv4(&cs) {
        Some(a) => Some(Ip::V4(a)),
        None => {
            let n = cs.len();
            let mut i: usize = 0;
            while i < n
                invariant
                    0 <= i <= n,
                    n == cs@.len(),
                    cs@ == s@,
                    spec_parse_ipv4(s@) is None,
                    forall|j: int| 0 <= j < i ==> cs@[j] != '/',
                decreases n - i,
            {
                if cs[i] == '/' {
                    proof {
                        assert(s@[i as int] == '/');
                        assert(s@.contains('/'));
                    }
                    return None;
                }
                i = i + 1;
            }
            proof {
                if s@.contains('/') {
                    let j = choose|j: int| 0 <= j < s@.len() && s@[j] == '/';
                    assert(cs@[j] == '/');
                    assert(false);
                }
            }
            match parse_inet_str(s) {
                Some(t) => Some(
                    if t.0 {
                        Ip::V4(t.1 as u32)
                    } else {
                        Ip::V6(t.1)
                    },
                ),
                None => None,
            }
        },
    }
}

/// The resolver addresses of the comma-delimited parts, in order.
pub open spec fn spec_resolver_ips_of_parts(parts: Seq<Seq<char>>) -> Seq<Ip>
    decreases parts.len(),
{
    if parts.len() == 0 {
        Seq::empty()
    } else {
        spec_resolver_ips_of_parts(parts.drop_last()) + (match spec_parse_resolver_entry(
            parts.last(),
        ) {
            Some(ip) => seq![ip],
            None => Seq::empty(),
        })
    }
}

/// The resolver addresses a comma-delimited list stands for.
pub open spec fn spec_parse_resolver_list(s: Seq<char>) -> Seq<Ip> {
    spec_resolver_ips_of_parts(split_on(s, ','))
}

/// Read a comma-delimited resolver list; entries that are not bare
/// addresses are skipped.
pub fn parse_resolver_list(s: &str) -> (r: Vec<Ip>)
    ensures
        r@ == spec_parse_resolver_list(s@),
{
    let cs = chars_of(s);
    let parts = split_chars(&cs, ',');
    let mut out: Vec<Ip> = Vec::new();
    let n = parts.len();
    let mut i: usize = 0;
    while i < n
        invariant
            0 <= i <= n,
            n == parts@.len(),
            parts.deep_view() == split_on(s@, ','),
            out@ == spec_resolver_ips_of_parts(split_on(s@, ',').take(i as int)),
        decreases n - i,
    {
        proof {
            assert(split_on(s@, ',').take(i + 1).drop_last() =~= split_on(s@, ',').take(
                i as int,
            ));
            assert(split_on(s@, ',').take(i + 1).last() == parts.deep_view()[i as int]);
            assert(parts.deep_view()[i as int] == parts@[i as int]@);
        }
        let part = string_of_chars(&parts[i]);
        match parse_resolver_entry(part.as_str()) {
            Some(ip) => {
                out.push(ip);
            },
            None => {},
        }
        i = i + 1;
    }
    proof {
        assert(split_on(s@, ',').take(n as int) =~= split_on(s@, ','));
    }
    out
}

/// The exclusion blocks of the options: those of the configured
/// exclusion strings, or none.
pub open spec fn spec_excluded_of_opts(input: &Opts) -> Seq<Cidr> {
    match input.exclude_addresses {
        Some(xs) => spec_parse_excluded(xs.deep_view()),
        None => Seq::empty(),
    }
}

} // verus!
