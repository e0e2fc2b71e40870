//! Host addresses and the literal part of the host grammar: CIDR blocks and
//! bare addresses, expanded in network order and kept once each.
use vstd::prelude::*;
use vstd::arithmetic::power2::{pow2, lemma2_to64, lemma_pow2_unfold, lemma_pow2_strictly_increases};
use crate::text::{comma_tokens, comma_tokens_of};
use crate::unique::{first_occurrences_of, lemma_unique_seq, unique_seq};

verus! {

/// An IPv4 or IPv6 address, as the integer whose big-endian bytes are its octets.
#[derive(Clone, Copy, Debug, PartialEq, Eq, Structural, Hash)]
pub enum HostAddr {
    V4(u32),
    V6(u128),
}

impl HostAddr {
    /// The IPv4 address `a.b.c.d`.
    pub fn v4(a: u8, b: u8, c: u8, d: u8) -> (r: HostAddr)
        ensures
            r == HostAddr::V4((a as int * 0x1000000 + b as int * 0x10000 + c as int * 0x100
                + d as int) as u32),
    {
        HostAddr::V4((a as u32) * 0x1000000 + (b as u32) * 0x10000 + (c as u32) * 0x100 + d as u32)
    }
}

/// A block of addresses: the first one and the length of the common prefix.
#[derive(Clone, Copy, Debug, PartialEq, Eq, Structural)]
pub struct CidrBlock {
    pub v6: bool,
    pub first: u128,
    pub bits: u8,
}

/// The number of addresses of one family.
pub open spec fn address_space(v6: bool) -> int {
    if v6 {
        u128::MAX + 1
    } else {
        u32::MAX + 1
    }
}

pub open spec fn address_width(v6: bool) -> nat {
    if v6 {
        128
    } else {
        32
    }
}

/// The address of the family `v6` whose integer is `x`.
pub open spec fn host_of(v6: bool, x: int) -> HostAddr {
    if v6 {
        HostAddr::V6(x as u128)
    } else {
        HostAddr::V4(x as u32)
    }
}

impl CidrBlock {
    pub open spec fn host_bits(self) -> nat {
        (address_width(self.v6) - self.bits) as nat
    }

    pub open spec fn size(self) -> nat {
        pow2(self.host_bits())
    }

    /// The prefix length fits the family and the block lies inside its address space.
    pub open spec fn wf(self) -> bool {
        &&& self.bits <= address_width(self.v6)
        &&& self.first + self.size() <= address_space(self.v6)
    }
}

/// The addresses of a block, in network order.
pub open spec fn block_addresses(b: CidrBlock) -> Seq<HostAddr> {
    Seq::new(b.size(), |i: int| host_of(b.v6, b.first + i))
}

/// The block that `cidr_utils::cidr::IpCidr::from_str` reads from a token, if any.
pub uninterp spec fn cidr_of(token: Seq<char>) -> Option<CidrBlock>;

/// Relies on `cidr_utils::cidr::IpCidr::from_str` (0.5), with `get_prefix` and
/// `get_bits` of the block it returns: the prefix is the address masked to its
/// first `bits` bits (`from_prefix_and_bits`, `from_prefix_and_mask`), and `bits`
/// is at most 32 for IPv4 and 128 for IPv6.
#[verifier::external_body]
fn parse_cidr(token: &str) -> (r: Option<CidrBlock>)
    ensures
        r == cidr_of(token@),
        r matches Some(b) ==> b.wf(),
{
    match cidr_utils::cidr::IpCidr::from_str(token) {
        Ok(cidr_utils::cidr::IpCidr::V4(c)) => Some(
            CidrBlock { v6: false, first: c.get_prefix() as u128, bits: c.get_bits() },
        ),
        Ok(cidr_utils::cidr::IpCidr::V6(c)) => Some(
            CidrBlock { v6: true, first: c.get_prefix(), bits: c.get_bits() },
        ),
        Err(_) => None,
    }
}

/// Every address of a block, in network order.
pub fn expand_cidr(block: &CidrBlock) -> (r: Vec<HostAddr>)
    requires
        block.wf(),
    ensures
        r@ == block_addresses(*block),
{
    let k: u8 = if block.v6 {
        128 - block.bits
    } else {
        32 - block.bits
    };
    // last offset of the block: 2^k - 1
    let mut last: u128 = 0;
    let mut j: u8 = 0;
    proof {
        lemma2_to64();
    }
    while j < k
        invariant
            j <= k,
            k == block.host_bits(),
            block.wf(),
            last == pow2(j as nat) - 1,
        decreases k - j,
    {
        proof {
            lemma_pow2_unfold((j + 1) as nat);
        }
        assert(pow2((j + 1) as nat) <= pow2(k as nat)) by {
            if j + 1 < k {
                lemma_pow2_strictly_increases((j + 1) as nat, k as nat);
            }
        }
        last = last * 2 + 1;
        j = j + 1;
    }
    let mut r: Vec<HostAddr> = Vec::new();
    let mut off: u128 = 0;
    loop
        invariant_except_break
            r@ == block_addresses(*block).take(off as int),
        invariant
            off <= last,
            last + 1 == block.size(),
            block.wf(),
        ensures
            r@ == block_addresses(*block),
        decreases last - off,
    {
        let x = block.first + off;
        let h = if block.v6 {
            HostAddr::V6(x)
        } else {
            HostAddr::V4(x as u32)
        };
        r.push(h);
        assert(r@ =~= block_addresses(*block).take(off + 1));
        if off == last {
            assert(r@ =~= block_addresses(*block));
            break;
        }
        off = off + 1;
    }
    r
}

/// Every address that `addr` names as a CIDR block or a bare address, or `None`
/// when it is neither (a host name or a file, which only a lookup can resolve).
pub fn address_parse(addr: &str) -> (r: Option<Vec<HostAddr>>)
    ensures
        r is Some <==> cidr_of(addr@) is Some,
        r is Some ==> r->0@ == block_addresses(cidr_of(addr@)->0),
{
    match parse_cidr(addr) {
        Some(b) => Some(expand_cidr(&b)),
        None => None,
    }
}

/// The outcome of the literal stage for one host token.
#[derive(Debug, PartialEq, Eq)]
pub enum HostTarget {
    /// The token is a CIDR block or an address: these are its addresses.
    Addresses(Vec<HostAddr>),
    /// The token is something else (a host name, a file): it is handed back as
    /// it stands, for a lookup to resolve.
    Lookup(String),
}

/// What the literal stage makes of the token `t`.
pub open spec fn target_of(r: HostTarget, t: Seq<char>) -> bool {
    match cidr_of(t) {
        Some(b) => r matches HostTarget::Addresses(v) && v@ == block_addresses(b),
        None => r matches HostTarget::Lookup(name) && name@ == t,
    }
}

/// The addresses that the tokens name literally, concatenated; other tokens add nothing.
pub open spec fn literal_addresses(ts: Seq<Seq<char>>) -> Seq<HostAddr>
    decreases ts.len(),
{
    if ts.len() == 0 {
        Seq::empty()
    } else {
        literal_addresses(ts.drop_last()) + match cidr_of(ts.last()) {
            Some(b) => block_addresses(b),
            None => Seq::empty(),
        }
    }
}

/// The addresses of the literal tokens of a host specification, each once, in
/// order of first occurrence.
pub open spec fn parsed_literal_hosts(s: Seq<char>) -> Seq<HostAddr> {
    unique_seq(literal_addresses(comma_tokens(s)))
}

/// One entry per non-empty token of `addresses`, in order: its addresses when
/// it is a CIDR block or an address, else the token itself.
pub fn host_targets(addresses: &str) -> (r: Vec<HostTarget>)
    ensures
        r.len() == comma_tokens(addresses@).len(),
        forall|i: int| 0 <= i < r.len() ==> target_of(#[trigger] r[i], comma_tokens(addresses@)[i]),
{
    let tokens = comma_tokens_of(addresses);
    let ghost ts = comma_tokens(addresses@);
    assert(tokens@.map_values(|t: String| t@).len() == tokens.len());
    let mut r: Vec<HostTarget> = Vec::new();
    let mut i: usize = 0;
    while i < tokens.len()
        invariant
            i <= tokens.len(),
            tokens@.map_values(|t: String| t@) == ts,
            r.len() == i,
            forall|k: int| 0 <= k < i ==> target_of(#[trigger] r[k], ts[k]),
        decreases tokens.len() - i,
    {
        assert(tokens@.map_values(|t: String| t@)[i as int] == tokens[i as int]@);
        let t = tokens[i].as_str();
        match address_parse(t) {
            Some(v) => r.push(HostTarget::Addresses(v)),
            None => r.push(HostTarget::Lookup(tokens[i].clone())),
        }
        i = i + 1;
    }
    r
}

/// The addresses of `v` in order, each kept at its first occurrence.
pub fn unique_hosts(v: &Vec<HostAddr>) -> (r: Vec<HostAddr>)
    ensures
        r@ == unique_seq(v@),
{
    broadcast use vstd::std_specs::hash::group_hash_axioms;
    let mut seen4: std::collections::HashSet<u32> = std::collections::HashSet::new();
    let mut seen6: std::collections::HashSet<u128> = std::collections::HashSet::new();
    let mut r: Vec<HostAddr> = Vec::new();
    let mut i: usize = 0;
    while i < v.len()
        invariant
            i <= v.len(),
            r@ == unique_seq(v@.take(i as int)),
            forall|a: u32| seen4@.contains(a) <==> r@.contains(HostAddr::V4(a)),
            forall|a: u128| seen6@.contains(a) <==> r@.contains(HostAddr::V6(a)),
        decreases v.len() - i,
    {
        let x = v[i];
        assert(v@.take(i + 1).drop_last() =~= v@.take(i as int));
        assert(v@.take(i + 1).last() == x);
        let ghost old_r = r@;
        let fresh = match x {
            HostAddr::V4(a) => seen4.insert(a),
            HostAddr::V6(a) => seen6.insert(a),
        };
        if fresh {
            r.push(x);
            assert forall|y: HostAddr| #[trigger] r@.contains(y) <==> (old_r.contains(y) || y == x) by {
                if r@.contains(y) && y != x {
                    let m = choose|m: int| 0 <= m < r@.len() && r@[m] == y;
                    assert(old_r[m] == y);
                }
                if old_r.contains(y) {
                    let m = choose|m: int| 0 <= m < old_r.len() && old_r[m] == y;
                    assert(r@[m] == y);
                }
                if y == x {
                    assert(r@[r@.len() - 1] == x);
                }
            }
        }
        i = i + 1;
    }
    assert(v@.take(v.len() as int) =~= v@);
    r
}

/// The addresses of all groups, concatenated, each kept at its first occurrence.
pub fn merge_host_groups(groups: &Vec<Vec<HostAddr>>) -> (r: Vec<HostAddr>)
    ensures
        r@ == unique_seq(groups@.map_values(|g: Vec<HostAddr>| g@).flatten()),
{
    let ghost gs = groups@.map_values(|g: Vec<HostAddr>| g@);
    let mut all: Vec<HostAddr> = Vec::new();
    let mut i: usize = 0;
    while i < groups.len()
        invariant
            i <= groups.len(),
            gs == groups@.map_values(|g: Vec<HostAddr>| g@),
            all@ == gs.take(i as int).flatten(),
        decreases groups.len() - i,
    {
        let g = &groups[i];
        let mut j: usize = 0;
        let ghost before = all@;
        while j < g.len()
            invariant
                j <= g.len(),
                all@ == before + g@.take(j as int),
            decreases g.len() - j,
        {
            all.push(g[j]);
            assert(all@ =~= before + g@.take(j + 1));
            j = j + 1;
        }
        assert(g@.take(g.len() as int) =~= g@);
        assert(gs.take(i + 1) =~= gs.take(i as int).push(g@));
        proof {
            gs.take(i as int).lemma_flatten_push(g@);
        }
        i = i + 1;
    }
    assert(gs.take(groups.len() as int) =~= gs);
    unique_hosts(&all)
}

/// The addresses that `addresses` names as CIDR blocks or bare addresses, each
/// once, in order of first occurrence. Other tokens (host names, files) are
/// left out: `host_targets` hands them to a lookup.
pub fn addresses_parse(addresses: &str) -> (r: Vec<HostAddr>)
    ensures
        r@ == parsed_literal_hosts(addresses@),
{
    let targets = host_targets(addresses);
    let ghost ts = comma_tokens(addresses@);
    let mut all: Vec<HostAddr> = Vec::new();
    let mut i: usize = 0;
    while i < targets.len()
        invariant
            i <= targets.len(),
            targets.len() == ts.len(),
            forall|k: int| 0 <= k < targets.len() ==> target_of(#[trigger] targets[k], ts[k]),
            all@ == literal_addresses(ts.take(i as int)),
        decreases targets.len() - i,
    {
        assert(ts.take(i + 1).drop_last() =~= ts.take(i as int));
        assert(ts.take(i + 1).last() == ts[i as int]);
        assert(target_of(targets[i as int], ts[i as int]));
        let ghost before = all@;
        match &targets[i] {
            HostTarget::Addresses(v) => {
                let mut j: usize = 0;
                while j < v.len()
                    invariant
                        j <= v.len(),
                        all@ == before + v@.take(j as int),
                    decreases v.len() - j,
                {
                    all.push(v[j]);
                    assert(all@ =~= before + v@.take(j + 1));
                    j = j + 1;
                }
                assert(v@.take(v.len() as int) =~= v@);
            },
            HostTarget::Lookup(_) => {
                assert(all@ =~= before + Seq::<HostAddr>::empty());
            },
        }
        i = i + 1;
    }
    assert(ts.take(ts.len() as int) =~= ts);
    unique_hosts(&all)
}

/// The literal hosts of a specification come out once each, in order of first mention.
pub proof fn lemma_parsed_hosts_first_occurrences(s: Seq<char>)
    ensures
        first_occurrences_of(parsed_literal_hosts(s), literal_addresses(comma_tokens(s))),
{
    lemma_unique_seq(literal_addresses(comma_tokens(s)));
}

/// A block whose prefix covers the whole address (`/32`, `/128`) holds exactly
/// its first address.
pub proof fn lemma_full_prefix_block(b: CidrBlock)
    requires
        b.bits == address_width(b.v6),
    ensures
        block_addresses(b) == seq![host_of(b.v6, b.first as int)],
{
    vstd::arithmetic::power2::lemma2_to64();
    assert(b.host_bits() == 0);
    assert(block_addresses(b) =~= seq![host_of(b.v6, b.first as int)]);
}

} // verus!
