//! LAN address matching: which peers count as local, for the no-auth mode
//! and for the `auto` encryption policy.

use vstd::prelude::*;

use crate::runner::opt_view;
use crate::text::{chars_of, find_char, first_index_of, parse_u32, parse_u32_chars, string_from_chars, sub_chars, trim, trim_chars};

verus! {

/// An IP address: IPv4 as a 32-bit and IPv6 as a 128-bit big-endian number.
#[derive(PartialEq, Eq, Structural, Clone, Copy, Debug)]
pub enum IpAddress {
    V4(u32),
    V6(u128),
}

/// A network: an address and how many leading bits of it count.
#[derive(PartialEq, Eq, Structural, Clone, Copy, Debug)]
pub struct Cidr {
    pub addr: IpAddress,
    pub prefix: u8,
}

/// The prefix fits the address family.
pub open spec fn cidr_wf(c: Cidr) -> bool {
    match c.addr {
        IpAddress::V4(_) => c.prefix <= 32,
        IpAddress::V6(_) => c.prefix <= 128,
    }
}

/// An IPv4-mapped IPv6 address (`::ffff:a.b.c.d`) taken as the IPv4
/// address it carries; any other address as it is.
pub open spec fn normalize_spec(ip: IpAddress) -> IpAddress {
    match ip {
        IpAddress::V6(x) => if x >> 32u128 == 0xffffu128 {
            IpAddress::V4(x as u32)
        } else {
            ip
        },
        IpAddress::V4(_) => ip,
    }
}

/// `ip` lies in `net`: same family and the same leading `prefix` bits.
pub open spec fn in_net(ip: IpAddress, net: Cidr) -> bool {
    match (ip, net.addr) {
        (IpAddress::V4(a), IpAddress::V4(n)) => net.prefix == 0 || a >> ((32 - net.prefix) as u32)
            == n >> ((32 - net.prefix) as u32),
        (IpAddress::V6(a), IpAddress::V6(n)) => net.prefix == 0 || a >> ((128 - net.prefix) as u128)
            == n >> ((128 - net.prefix) as u128),
        _ => false,
    }
}

/// Maps an IPv4-mapped IPv6 address to IPv4.
pub fn normalize_ip(ip: IpAddress) -> (r: IpAddress)
    ensures
        r == normalize_spec(ip),
{
    match ip {
        IpAddress::V6(x) => if x >> 32u128 == 0xffffu128 {
            IpAddress::V4(x as u32)
        } else {
            ip
        },
        IpAddress::V4(_) => ip,
    }
}

impl Cidr {
    /// A network where the prefix fits the family.
    pub fn new(addr: IpAddress, prefix: u32) -> (r: Option<Cidr>)
        ensures
            match r {
                Some(c) => c.addr == addr && c.prefix == prefix && cidr_wf(c),
                None => match addr {
                    IpAddress::V4(_) => prefix > 32,
                    IpAddress::V6(_) => prefix > 128,
                },
            },
    {
        let max: u32 = match addr {
            IpAddress::V4(_) => 32,
            IpAddress::V6(_) => 128,
        };
        if prefix > max {
            None
        } else {
            Some(Cidr { addr, prefix: prefix as u8 })
        }
    }

    /// Whether `ip` lies in this network.
    pub fn contains(&self, ip: IpAddress) -> (b: bool)
        requires
            cidr_wf(*self),
        ensures
            b == in_net(ip, *self),
    {
        if self.prefix == 0 {
            return match (ip, self.addr) {
                (IpAddress::V4(_), IpAddress::V4(_)) => true,
                (IpAddress::V6(_), IpAddress::V6(_)) => true,
                _ => false,
            };
        }
        match (ip, self.addr) {
            (IpAddress::V4(a), IpAddress::V4(n)) => {
                let sh: u32 = (32 - self.prefix) as u32;
                a >> sh == n >> sh
            },
            (IpAddress::V6(a), IpAddress::V6(n)) => {
                let sh: u128 = (128 - self.prefix) as u128;
                a >> sh == n >> sh
            },
            _ => false,
        }
    }
}

/// The LAN networks; every prefix fits its family.
pub struct LanMatcher {
    nets: Vec<Cidr>,
}

impl LanMatcher {
    /// Every prefix fits its family.
    #[verifier::type_invariant]
    spec fn prefixes_fit(&self) -> bool {
        forall|i: int| 0 <= i < self.nets@.len() ==> cidr_wf(#[trigger] self.nets@[i])
    }

    /// The networks, in order.
    pub closed spec fn nets_view(&self) -> Seq<Cidr> {
        self.nets@
    }

    /// A matcher of the given networks.
    pub fn from_nets(nets: Vec<Cidr>) -> (m: LanMatcher)
        requires
            forall|i: int| 0 <= i < nets@.len() ==> cidr_wf(#[trigger] nets@[i]),
        ensures
            m.nets_view() == nets@,
    {
        LanMatcher { nets }
    }

    /// `ip` (IPv4-mapped IPv6 taken as IPv4) lies in one of the networks.
    pub fn lan_matches(&self, ip: IpAddress) -> (b: bool)
        ensures
            b == exists|i: int|
                0 <= i < self.nets_view().len() && in_net(normalize_spec(ip), self.nets_view()[i]),
    {
        proof {
            use_type_invariant(self);
        }
        let n = normalize_ip(ip);
        let mut i: usize = 0;
        while i < self.nets.len()
            invariant
                i <= self.nets@.len(),
                forall|k: int| 0 <= k < self.nets@.len() ==> cidr_wf(#[trigger] self.nets@[k]),
                n == normalize_spec(ip),
                forall|k: int| 0 <= k < i ==> !in_net(n, self.nets@[k]),
            decreases self.nets@.len() - i,
        {
            if self.nets[i].contains(n) {
                proof {
                    assert(self.nets_view()[i as int] == self.nets@[i as int]);
                    assert(in_net(normalize_spec(ip), self.nets_view()[i as int]));
                }
                return true;
            }
            i = i + 1;
        }
        false
    }
}

/// The non-blank items of a comma-separated list, trimmed, in order.
#[verifier::opaque]
pub open spec fn list_items(s: Seq<char>) -> Seq<Seq<char>>
    decreases s.len(),
{
    match first_index_of(s, ',') {
        Some(i) => if 0 <= i < s.len() {
            let head = trim(s.subrange(0, i));
            let rest = list_items(s.subrange(i + 1, s.len() as int));
            if head.len() > 0 {
                seq![head] + rest
            } else {
                rest
            }
        } else {
            Seq::empty()
        },
        None => {
            let head = trim(s);
            if head.len() > 0 {
                seq![head]
            } else {
                Seq::empty()
            }
        },
    }
}

/// The views of a list of strings.
pub open spec fn string_views(v: Seq<String>) -> Seq<Seq<char>> {
    Seq::new(v.len(), |i: int| v[i]@)
}

proof fn lemma_list_items_step(s: Seq<char>, i: int)
    requires
        first_index_of(s, ',') == Some(i),
        0 <= i < s.len(),
    ensures
        list_items(s) == (if trim(s.subrange(0, i)).len() > 0 {
            seq![trim(s.subrange(0, i))] + list_items(s.subrange(i + 1, s.len() as int))
        } else {
            list_items(s.subrange(i + 1, s.len() as int))
        }),
{
    reveal(list_items);
}

proof fn lemma_list_items_last(s: Seq<char>)
    requires
        first_index_of(s, ',') is None,
    ensures
        list_items(s) == (if trim(s).len() > 0 {
            seq![trim(s)]
        } else {
            Seq::<Seq<char>>::empty()
        }),
{
    reveal(list_items);
}

/// Splits a comma-separated list into its trimmed, non-blank items.
pub fn split_list(s: &str) -> (r: Vec<String>)
    ensures
        string_views(r@) == list_items(s@),
{
    let mut rest = chars_of(s);
    let mut out: Vec<String> = Vec::new();
    let mut pos = find_char(&rest, ',');
    while pos.is_some()
        invariant
            string_views(out@) + list_items(rest@) == list_items(s@),
            match pos {
                Some(i) => i < rest@.len() && first_index_of(rest@, ',') == Some(i as int),
                None => first_index_of(rest@, ',') is None,
            },
        decreases rest@.len(),
    {
        let i = pos.unwrap();
        assert(i < rest.len());
        let head = trim_chars(&sub_chars(&rest, 0, i));
        let tail = sub_chars(&rest, i + 1, rest.len());
        proof {
            lemma_list_items_step(rest@, i as int);
        }
        if head.len() > 0 {
            let ghost before = string_views(out@);
            out.push(string_from_chars(&head));
            proof {
                assert(string_views(out@) =~= before.push(head@));
                assert(before + (seq![head@] + list_items(tail@)) =~= before.push(head@)
                    + list_items(tail@));
            }
        }
        rest = tail;
        pos = find_char(&rest, ',');
    }
    let head = trim_chars(&rest);
    proof {
        lemma_list_items_last(rest@);
    }
    if head.len() > 0 {
        let ghost before = string_views(out@);
        out.push(string_from_chars(&head));
        proof {
            assert(string_views(out@) =~= before.push(head@));
            assert(before + seq![head@] =~= before.push(head@));
        }
    } else {
        proof {
            assert(string_views(out@) + Seq::<Seq<char>>::empty() =~= string_views(out@));
        }
    }
    out
}

/// A CIDR item split at its first `/`: the address text, and the prefix
/// text where there is one.
pub open spec fn cidr_parts_spec(item: Seq<char>) -> (Seq<char>, Option<Seq<char>>) {
    match first_index_of(item, '/') {
        Some(i) => (trim(item.subrange(0, i)), Some(trim(item.subrange(i + 1, item.len() as int)))),
        None => (trim(item), None),
    }
}

/// Splits a CIDR item into its address text and its prefix text.
pub fn cidr_parts(item: &str) -> (r: (String, Option<String>))
    ensures
        (r.0@, opt_view(r.1)) == cidr_parts_spec(item@),
{
    let v = chars_of(item);
    match find_char(&v, '/') {
        Some(i) => {
            assert(i < v.len());
            let a = trim_chars(&sub_chars(&v, 0, i));
            let p = trim_chars(&sub_chars(&v, i + 1, v.len()));
            (string_from_chars(&a), Some(string_from_chars(&p)))
        },
        None => {
            let a = trim_chars(&v);
            (string_from_chars(&a), None)
        },
    }
}

/// The network of an address and its prefix text: the whole address where
/// no prefix is given; refused where the prefix is not a number that fits
/// the family.
pub open spec fn network_spec(addr: IpAddress, prefix: Option<Seq<char>>) -> Option<Cidr> {
    let max: u32 = match addr {
        IpAddress::V4(_) => 32,
        IpAddress::V6(_) => 128,
    };
    match prefix {
        None => Some(Cidr { addr, prefix: max as u8 }),
        Some(p) => match parse_u32(p) {
            Some(n) => if n <= max {
                Some(Cidr { addr, prefix: n as u8 })
            } else {
                None
            },
            None => None,
        },
    }
}

/// Builds the network of an address and its prefix text.
pub fn network(addr: IpAddress, prefix: Option<&str>) -> (r: Option<Cidr>)
    ensures
        r == network_spec(addr, opt_str(prefix)),
        r matches Some(c) ==> cidr_wf(c),
{
    let max: u32 = match addr {
        IpAddress::V4(_) => 32,
        IpAddress::V6(_) => 128,
    };
    match prefix {
        None => Some(Cidr { addr, prefix: max as u8 }),
        Some(p) => match parse_u32_chars(&chars_of(p)) {
            Some(n) => if n <= max {
                Some(Cidr { addr, prefix: n as u8 })
            } else {
                None
            },
            None => None,
        },
    }
}

/// The view of an optional string slice.
pub open spec fn opt_str(s: Option<&str>) -> Option<Seq<char>> {
    match s {
        Some(x) => Some(x@),
        None => None,
    }
}

/// The networks of parsed CIDR items (address, prefix text), where every
/// address parsed and every prefix fits.
pub open spec fn nets_spec(items: Seq<(Option<IpAddress>, Option<String>)>) -> Option<Seq<Cidr>>
    decreases items.len(),
{
    if items.len() == 0 {
        Some(Seq::empty())
    } else {
        match (nets_spec(items.drop_last()), items.last().0) {
            (Some(p), Some(a)) => match network_spec(a, opt_view(items.last().1)) {
                Some(c) => Some(p.push(c)),
                None => None,
            },
            _ => None,
        }
    }
}

/// A matcher of parsed CIDR items; `None` where an address did not parse
/// or a prefix does not fit, so that a bad list is refused as a whole.
pub fn lan_matcher_from(items: &[(Option<IpAddress>, Option<String>)]) -> (r: Option<LanMatcher>)
    ensures
        match r {
            Some(m) => nets_spec(items@) == Some(m.nets_view()),
            None => nets_spec(items@) is None,
        },
{
    let mut nets: Vec<Cidr> = Vec::new();
    let mut i: usize = 0;
    while i < items.len()
        invariant
            i <= items@.len(),
            nets_spec(items@.take(i as int)) == Some(nets@),
            forall|k: int| 0 <= k < nets@.len() ==> cidr_wf(#[trigger] nets@[k]),
        decreases items@.len() - i,
    {
        proof {
            assert(items@.take(i + 1).drop_last() =~= items@.take(i as int));
        }
        let addr = match items[i].0 {
            Some(a) => a,
            None => {
                proof {
                    lemma_nets_none_extends(items@, i as int);
                }
                return None;
            },
        };
        let prefix: Option<&str> = match &items[i].1 {
            Some(p) => Some(p.as_str()),
            None => None,
        };
        match network(addr, prefix) {
            Some(c) => {
                nets.push(c);
            },
            None => {
                proof {
                    lemma_nets_none_extends(items@, i as int);
                }
                return None;
            },
        }
        i = i + 1;
    }
    proof {
        assert(items@.take(items@.len() as int) =~= items@);
    }
    Some(LanMatcher::from_nets(nets))
}

proof fn lemma_nets_none_extends(items: Seq<(Option<IpAddress>, Option<String>)>, i: int)
    requires
        0 <= i < items.len(),
        nets_spec(items.take(i + 1)) is None,
    ensures
        nets_spec(items) is None,
    decreases items.len() - i,
{
    if i + 1 < items.len() {
        assert(items.take(i + 2).drop_last() =~= items.take(i + 1));
        lemma_nets_none_extends(items, i + 1);
    } else {
        assert(items.take(i + 1) =~= items);
    }
}

/// An IPv4-mapped IPv6 address is on the LAN exactly when the IPv4
/// address it carries is.
pub proof fn lemma_mapped_matches_as_ipv4(nets: Seq<Cidr>, x: u128)
    requires
        x >> 32u128 == 0xffffu128,
    ensures
        (exists|i: int| 0 <= i < nets.len() && in_net(normalize_spec(IpAddress::V6(x)), nets[i]))
            == (exists|i: int|
            0 <= i < nets.len() && in_net(normalize_spec(IpAddress::V4(x as u32)), nets[i])),
{
}

} // verus!
