//! The route plan: what openconnect's vpnc-script environment says about
//! the tunnel, parsed into plain values.

use vstd::prelude::*;

use crate::error::{error_detail, Error};
use crate::ipv4::{dot_fields, lemma_mask_strict, mask_of, mask_value, quad_value};
use crate::text::{
    chars_of, clone_nonempty, clone_opt, debug_quoted, debug_str, decimal, decimal_string,
    filter_nonempty, in_set, nonempty_pred, nonempty_view, opt_view, parse_bounded, parse_unsigned,
    split_by, split_chars, string_of, strings_of, views, words, words_of, eq_str, debug_opt_string,
    debug_opt_u64, debug_strings, debug_opt_text, debug_opt_num, debug_list,
};

verus! {

/// A netmask given as a prefix length: a number from 0 to 32.
pub open spec fn short_prefix(s: Seq<char>) -> Option<nat> {
    match parse_unsigned(s, 255) {
        Some(p) => if p <= 32 {
            Some(p)
        } else {
            None
        },
        None => None,
    }
}

/// `s` has four dot-separated fields, each a number that fits in a byte.
pub open spec fn octets_ok(s: Seq<char>) -> bool {
    let f = dot_fields(s);
    &&& f.len() == 4
    &&& forall|i: int| 0 <= i < 4 ==> parse_unsigned(#[trigger] f[i], 255) is Some
}

pub open spec fn octet(f: Seq<char>) -> nat {
    parse_unsigned(f, 255)->0
}

/// The 32-bit value of four byte-sized fields.
pub open spec fn octets_value(s: Seq<char>) -> nat {
    let f = dot_fields(s);
    quad_value(octet(f[0]), octet(f[1]), octet(f[2]), octet(f[3]))
}

/// The netmask `s` stands for prefix length `p`: either `s` is `p` itself,
/// or `s` is the dotted mask with `p` leading one bits.
pub open spec fn netmask_denotes(s: Seq<char>, p: nat) -> bool {
    match short_prefix(s) {
        Some(q) => p == q,
        None => octets_ok(s) && p <= 32 && octets_value(s) == mask_value(p),
    }
}

/// A netmask stands for at most one prefix length.
pub proof fn law_netmask_prefix_unique(s: Seq<char>, p: nat, q: nat)
    requires
        netmask_denotes(s, p),
        netmask_denotes(s, q),
    ensures
        p == q,
{
    if short_prefix(s) is None {
        if p < q {
            lemma_mask_strict(p, q);
        } else if q < p {
            lemma_mask_strict(q, p);
        }
    }
}

/// The detail of the error for a netmask that stands for no prefix length.
pub open spec fn netmask_error(s: Seq<char>) -> Seq<char> {
    if short_prefix(s) is None && octets_ok(s) {
        "non-contiguous netmask: "@ + debug_quoted(s)
    } else {
        "bad netmask: "@ + debug_quoted(s)
    }
}

/// `255.255.255.0` -> `24`. Accepts a prefix length string as well (`"24"`).
pub fn netmask_to_prefix(netmask: &str) -> (r: Result<u8, Error>)
    ensures
        match r {
            Ok(p) => netmask_denotes(netmask@, p as nat),
            Err(e) => e is Route && error_detail(e) == netmask_error(netmask@) && forall|p: nat|
                !netmask_denotes(netmask@, p),
        },
{
    let s = chars_of(netmask);
    if let Some(p) = parse_bounded(s.as_slice(), 255) {
        if p <= 32 {
            return Ok(p as u8);
        }
    }
    assert(short_prefix(netmask@) is None);
    let fields = split_chars(s.as_slice(), &['.']);
    assert(seq!['.'] =~= ['.']@);
    let ghost f = dot_fields(netmask@);
    assert(fields.deep_view() == f);
    let mut vals: Vec<u32> = Vec::new();
    let mut i: usize = 0;
    while i < fields.len()
        invariant
            fields.deep_view() == f,
            f == dot_fields(netmask@),
            short_prefix(netmask@) is None,
            i <= fields@.len(),
            vals@.len() == i,
            forall|k: int| 0 <= k < i ==> vals@[k] <= 255,
            forall|k: int| 0 <= k < i ==> parse_unsigned(#[trigger] f[k], 255) == Some(
                vals@[k] as nat,
            ),
        decreases fields.len() - i,
    {
        assert(fields.deep_view()[i as int] =~= fields@[i as int]@);
        match parse_bounded(fields[i].as_slice(), 255) {
            Some(v) => {
                vals.push(v as u32);
            },
            None => {
                assert(parse_unsigned(f[i as int], 255) is None);
                assert(!octets_ok(netmask@));
                return Err(Error::Route(bad_netmask(netmask)));
            },
        }
        i = i + 1;
    }
    if vals.len() != 4 {
        return Err(Error::Route(bad_netmask(netmask)));
    }
    assert(octets_ok(netmask@));
    assert(vals@[0] <= 255 && vals@[1] <= 255 && vals@[2] <= 255 && vals@[3] <= 255);
    let bits: u32 = vals[0] * 16777216 + vals[1] * 65536 + vals[2] * 256 + vals[3];
    assert(bits as nat == octets_value(netmask@));
    let mut p: u32 = 0;
    while p <= 32
        invariant
            forall|q: nat| q < p ==> q <= 32 ==> mask_value(q) != bits as nat,
            bits as nat == octets_value(netmask@),
            octets_ok(netmask@),
            short_prefix(netmask@) is None,
            p <= 33,
        decreases 33 - p,
    {
        if mask_of(p) == bits {
            return Ok(p as u8);
        }
        p = p + 1;
    }
    let detail = String::from_str("non-contiguous netmask: ").concat(debug_str(netmask).as_str());
    Err(Error::Route(detail))
}

fn bad_netmask(netmask: &str) -> (r: String)
    ensures
        r@ == "bad netmask: "@ + debug_quoted(netmask@),
{
    String::from_str("bad netmask: ").concat(debug_str(netmask).as_str())
}


/// One `CISCO_SPLIT_INC_<i>_ADDR` / `_MASKLEN` pair of the environment.
#[derive(Debug, Clone)]
pub struct SplitEntry {
    pub addr: Option<String>,
    pub masklen: Option<String>,
}

/// The vpnc-script environment variables the plan is made from, each absent
/// when unset or not valid Unicode.
#[derive(Debug, Clone)]
pub struct PlanVars {
    pub tundev: Option<String>,
    pub vpngateway: Option<String>,
    pub internal_ip4_address: Option<String>,
    pub internal_ip4_netmask: Option<String>,
    pub internal_ip4_mtu: Option<String>,
    pub internal_ip4_dns: Option<String>,
    pub inode_dns_mode: Option<String>,
    /// The split routes, `CISCO_SPLIT_INC_0` first, as many as
    /// [`split_route_count`] gives for `CISCO_SPLIT_INC`.
    pub split_entries: Vec<SplitEntry>,
    pub inode_preserve_cidrs: Option<String>,
    pub inode_phys_gateway: Option<String>,
    pub inode_phys_iface: Option<String>,
}

/// What openconnect told the vpnc-script about the tunnel, and what the
/// daemon adds for route protection.
#[derive(Debug, Clone, PartialEq, Eq)]
pub struct RoutePlan {
    pub reason: String,
    pub tun_iface: String,
    pub vpn_gateway: Option<String>,
    pub tun_ip: Option<String>,
    pub prefix_len: Option<u8>,
    pub mtu: Option<u16>,
    pub dns: Vec<String>,
    pub dns_mode: String,
    pub split_routes: Vec<String>,
    pub preserve_cidrs: Vec<String>,
    /// Test override: physical default gateway (skips route discovery).
    pub phys_gateway_override: Option<String>,
    /// Test override: physical interface (skips route discovery).
    pub phys_iface_override: Option<String>,
}

/// The number of split routes `CISCO_SPLIT_INC` announces (0 when absent or
/// not a number).
pub open spec fn split_count_of(raw: Option<String>) -> nat {
    match raw {
        Some(s) => match parse_unsigned(s@, usize::MAX as nat) {
            Some(n) => n,
            None => 0,
        },
        None => 0,
    }
}

pub fn split_route_count(raw: &Option<String>) -> (r: usize)
    ensures
        r as nat == split_count_of(*raw),
{
    match raw {
        Some(s) => {
            let c = chars_of(s.as_str());
            match parse_bounded(c.as_slice(), usize::MAX as u64) {
                Some(n) => n as usize,
                None => 0,
            }
        },
        None => 0,
    }
}

pub open spec fn text_or_empty(o: Option<String>) -> Seq<char> {
    match o {
        Some(s) => s@,
        None => Seq::empty(),
    }
}

/// A split route entry is used when both its address and its mask length
/// are non-empty.
pub open spec fn entry_used(e: SplitEntry) -> bool {
    text_or_empty(e.addr).len() > 0 && text_or_empty(e.masklen).len() > 0
}

/// A used entry whose mask length is not a byte-sized number.
pub open spec fn entry_bad(e: SplitEntry) -> bool {
    entry_used(e) && parse_unsigned(text_or_empty(e.masklen), 255) is None
}

/// The route of an entry: `<addr>/<masklen>`.
pub open spec fn entry_route(e: SplitEntry) -> Seq<char> {
    text_or_empty(e.addr) + seq!['/'] + text_or_empty(e.masklen)
}

/// The routes of the used entries, in order.
pub open spec fn split_routes_of(es: Seq<SplitEntry>) -> Seq<Seq<char>>
    decreases es.len(),
{
    if es.len() == 0 {
        Seq::empty()
    } else if entry_used(es.last()) {
        split_routes_of(es.drop_last()).push(entry_route(es.last()))
    } else {
        split_routes_of(es.drop_last())
    }
}

/// The error detail for the bad entry at index `i`.
pub open spec fn split_error(i: nat, e: SplitEntry) -> Seq<char> {
    "bad CISCO_SPLIT_INC_"@ + decimal(i) + "_MASKLEN value: "@ + debug_quoted(
        text_or_empty(e.masklen),
    )
}

/// The index of the first bad entry, if any.
pub open spec fn first_bad_entry(es: Seq<SplitEntry>) -> Option<nat> {
    if exists|i: int| 0 <= i < es.len() && entry_bad(#[trigger] es[i]) {
        Some(
            (choose|i: int|
                0 <= i < es.len() && entry_bad(#[trigger] es[i]) && forall|j: int|
                    0 <= j < i ==> !entry_bad(#[trigger] es[j])) as nat,
        )
    } else {
        None
    }
}

proof fn lemma_first_bad(es: Seq<SplitEntry>, i: int)
    requires
        0 <= i < es.len(),
        entry_bad(es[i]),
        forall|j: int| 0 <= j < i ==> !entry_bad(#[trigger] es[j]),
    ensures
        first_bad_entry(es) == Some(i as nat),
{
    let k = choose|k: int|
        0 <= k < es.len() && entry_bad(#[trigger] es[k]) && forall|j: int|
            0 <= j < k ==> !entry_bad(#[trigger] es[j]);
    assert(0 <= k < es.len() && entry_bad(es[k]) && forall|j: int|
        0 <= j < k ==> !entry_bad(#[trigger] es[j]));
    if k < i {
        assert(!entry_bad(es[k]));
    } else if i < k {
        assert(!entry_bad(es[i]));
    }
}

/// The split routes of the used entries; the first entry with a bad mask
/// length is an error.
pub fn split_routes_from(es: &Vec<SplitEntry>) -> (r: Result<Vec<String>, Error>)
    ensures
        match r {
            Ok(v) => first_bad_entry(es@) is None && views(v@) == split_routes_of(es@),
            Err(e) => e is Route && first_bad_entry(es@) is Some && error_detail(e) == split_error(
                first_bad_entry(es@)->0,
                es@[first_bad_entry(es@)->0 as int],
            ),
        },
{
    let mut routes: Vec<String> = Vec::new();
    let mut i: usize = 0;
    assert(es@.take(0) =~= Seq::<SplitEntry>::empty());
    while i < es.len()
        invariant
            i <= es@.len(),
            forall|j: int| 0 <= j < i ==> !entry_bad(#[trigger] es@[j]),
            views(routes@) == split_routes_of(es@.take(i as int)),
        decreases es.len() - i,
    {
        let e = &es[i];
        assert(es@.take(i + 1).drop_last() =~= es@.take(i as int));
        let addr = match &e.addr {
            Some(a) => a.clone(),
            None => String::new(),
        };
        let masklen = match &e.masklen {
            Some(m) => m.clone(),
            None => String::new(),
        };
        if !addr.as_str().is_empty() && !masklen.as_str().is_empty() {
            let mc = chars_of(masklen.as_str());
            if parse_bounded(mc.as_slice(), 255).is_none() {
                proof {
                    lemma_first_bad(es@, i as int);
                }
                let d = String::from_str("bad CISCO_SPLIT_INC_").concat(
                    decimal_string(i as u64).as_str(),
                ).concat("_MASKLEN value: ").concat(debug_str(masklen.as_str()).as_str());
                return Err(Error::Route(d));
            }
            let route = addr.concat("/").concat(masklen.as_str());
            proof {
                reveal_strlit("/");
            }
            assert(addr@ == text_or_empty(es@[i as int].addr));
            assert(masklen@ == text_or_empty(es@[i as int].masklen));
            assert(route@ =~= entry_route(es@[i as int]));
            let ghost before = routes@;
            routes.push(route);
            assert(views(routes@) =~= views(before).push(entry_route(es@[i as int])));
        }
        i = i + 1;
    }
    assert(es@.take(i as int) =~= es@);
    Ok(routes)
}

/// The interface named by `TUNDEV`, `tun0` when unset.
pub open spec fn plan_tun_iface(v: PlanVars) -> Seq<char> {
    match v.tundev {
        Some(s) => s@,
        None => "tun0"@,
    }
}

pub open spec fn plan_netmask(v: PlanVars) -> Option<Seq<char>> {
    nonempty_view(v.internal_ip4_netmask)
}

/// The netmask is given and stands for no prefix length.
pub open spec fn netmask_fails(v: PlanVars) -> bool {
    plan_netmask(v) is Some && forall|p: nat| !netmask_denotes(plan_netmask(v)->0, p)
}

pub open spec fn plan_mtu(v: PlanVars) -> Option<nat> {
    match v.internal_ip4_mtu {
        Some(m) => parse_unsigned(m@, 65535),
        None => None,
    }
}

pub open spec fn plan_dns(v: PlanVars) -> Seq<Seq<char>> {
    match v.internal_ip4_dns {
        Some(d) => words(d@),
        None => Seq::empty(),
    }
}

pub open spec fn plan_dns_mode(v: PlanVars) -> Seq<char> {
    match nonempty_view(v.inode_dns_mode) {
        Some(m) => m,
        None => "server"@,
    }
}

pub open spec fn cidr_separators() -> Seq<char> {
    seq![',', ';', ' ']
}

pub open spec fn plan_preserve(v: PlanVars) -> Seq<Seq<char>> {
    match v.inode_preserve_cidrs {
        Some(p) => split_by(p@, in_set(cidr_separators())).filter(nonempty_pred()),
        None => Seq::empty(),
    }
}

/// `p` is the plan the environment `v` describes for `reason`.
pub open spec fn plan_of(p: RoutePlan, reason: Seq<char>, v: PlanVars) -> bool {
    &&& p.reason@ == reason
    &&& p.tun_iface@ == plan_tun_iface(v)
    &&& opt_view(p.vpn_gateway) == nonempty_view(v.vpngateway)
    &&& opt_view(p.tun_ip) == nonempty_view(v.internal_ip4_address)
    &&& (plan_netmask(v) is None ==> p.prefix_len is None)
    &&& (plan_netmask(v) is Some ==> p.prefix_len is Some && netmask_denotes(
        plan_netmask(v)->0,
        p.prefix_len->0 as nat,
    ))
    &&& match p.mtu {
        Some(m) => plan_mtu(v) == Some(m as nat),
        None => plan_mtu(v) is None,
    }
    &&& views(p.dns@) == plan_dns(v)
    &&& p.dns_mode@ == plan_dns_mode(v)
    &&& views(p.split_routes@) == split_routes_of(v.split_entries@)
    &&& views(p.preserve_cidrs@) == plan_preserve(v)
    &&& opt_view(p.phys_gateway_override) == opt_view(v.inode_phys_gateway)
    &&& opt_view(p.phys_iface_override) == opt_view(v.inode_phys_iface)
}

impl RoutePlan {
    /// The plan for one vpnc-script phase. A netmask that stands for no
    /// prefix length is an error; after it, a split route whose mask length
    /// is not a number is.
    pub fn from_vars(reason: &str, vars: &PlanVars) -> (r: Result<RoutePlan, Error>)
        ensures
            match r {
                Ok(p) => plan_of(p, reason@, *vars) && !netmask_fails(*vars) && first_bad_entry(
                    vars.split_entries@,
                ) is None,
                Err(e) => e is Route && if netmask_fails(*vars) {
                    error_detail(e) == netmask_error(plan_netmask(*vars)->0)
                } else {
                    first_bad_entry(vars.split_entries@) is Some && error_detail(e) == split_error(
                        first_bad_entry(vars.split_entries@)->0,
                        vars.split_entries@[first_bad_entry(vars.split_entries@)->0 as int],
                    )
                },
            },
    {
        let tun_iface = match &vars.tundev {
            Some(s) => s.clone(),
            None => String::from_str("tun0"),
        };
        let vpn_gateway = clone_nonempty(&vars.vpngateway);
        let tun_ip = clone_nonempty(&vars.internal_ip4_address);
        let prefix_len = match clone_nonempty(&vars.internal_ip4_netmask) {
            Some(nm) => match netmask_to_prefix(nm.as_str()) {
                Ok(p) => Some(p),
                Err(e) => {
                    return Err(e);
                },
            },
            None => None,
        };
        proof {
            if netmask_fails(*vars) {
                let q = prefix_len->0 as nat;
                assert(!netmask_denotes(plan_netmask(*vars)->0, q));
            }
        }
        let mtu = match &vars.internal_ip4_mtu {
            Some(m) => {
                let c = chars_of(m.as_str());
                match parse_bounded(c.as_slice(), 65535) {
                    Some(v) => Some(v as u16),
                    None => None,
                }
            },
            None => None,
        };
        let dns = match &vars.internal_ip4_dns {
            Some(d) => {
                let c = chars_of(d.as_str());
                let w = words_of(c.as_slice());
                strings_of(&w)
            },
            None => {
                let v: Vec<String> = Vec::new();
                assert(views(v@) =~= Seq::<Seq<char>>::empty());
                v
            },
        };
        let dns_mode = match clone_nonempty(&vars.inode_dns_mode) {
            Some(m) => m,
            None => String::from_str("server"),
        };
        let split_routes = match split_routes_from(&vars.split_entries) {
            Ok(v) => v,
            Err(e) => {
                return Err(e);
            },
        };
        let preserve_cidrs = match &vars.inode_preserve_cidrs {
            Some(p) => {
                let c = chars_of(p.as_str());
                let seps = [',', ';', ' '];
                assert(seps@ =~= cidr_separators());
                let parts = split_chars(c.as_slice(), &seps);
                let kept = filter_nonempty(parts);
                strings_of(&kept)
            },
            None => {
                let v: Vec<String> = Vec::new();
                assert(views(v@) =~= Seq::<Seq<char>>::empty());
                v
            },
        };
        Ok(
            RoutePlan {
                reason: String::from_str(reason),
                tun_iface,
                vpn_gateway,
                tun_ip,
                prefix_len,
                mtu,
                dns,
                dns_mode,
                split_routes,
                preserve_cidrs,
                phys_gateway_override: clone_opt(&vars.inode_phys_gateway),
                phys_iface_override: clone_opt(&vars.inode_phys_iface),
            },
        )
    }

    /// `connect` and `reconnect` bring the tunnel up.
    pub fn is_up_phase(&self) -> (r: bool)
        ensures
            r == (self.reason@ == "connect"@ || self.reason@ == "reconnect"@),
    {
        eq_str(self.reason.as_str(), "connect") || eq_str(self.reason.as_str(), "reconnect")
    }

    /// `<tun_ip>/<prefix_len>` when both are known.
    pub fn tun_cidr(&self) -> (r: Option<String>)
        ensures
            match (self.tun_ip, self.prefix_len) {
                (Some(ip), Some(p)) => r is Some && r->0@ == ip@ + "/"@ + decimal(p as nat),
                _ => r is None,
            },
    {
        match (&self.tun_ip, self.prefix_len) {
            (Some(ip), Some(p)) => Some(
                ip.clone().concat("/").concat(decimal_string(p as u64).as_str()),
            ),
            _ => None,
        }
    }

    /// A one-line summary for the logs.
    pub fn describe(&self) -> (r: String)
        ensures
            r@ == "reason="@ + self.reason@ + " tun="@ + self.tun_iface@ + " tun_ip="@
                + debug_opt_text(opt_view(self.tun_ip)) + "/"@ + debug_opt_num(
                match self.prefix_len {
                    Some(p) => Some(p as nat),
                    None => None,
                },
            ) + " mtu="@ + debug_opt_num(
                match self.mtu {
                    Some(m) => Some(m as nat),
                    None => None,
                },
            ) + " dns="@ + debug_list(views(self.dns@)) + " dns_mode="@ + self.dns_mode@
                + " split="@ + debug_list(views(self.split_routes@)) + " preserve="@ + debug_list(
                views(self.preserve_cidrs@),
            ) + " vpn_gateway="@ + debug_opt_text(opt_view(self.vpn_gateway)),
    {
        let prefix = match self.prefix_len {
            Some(p) => Some(p as u64),
            None => None,
        };
        let mtu = match self.mtu {
            Some(m) => Some(m as u64),
            None => None,
        };
        String::from_str("reason=").concat(self.reason.as_str()).concat(" tun=").concat(
            self.tun_iface.as_str(),
        ).concat(" tun_ip=").concat(debug_opt_string(&self.tun_ip).as_str()).concat("/").concat(
            debug_opt_u64(prefix).as_str(),
        ).concat(" mtu=").concat(debug_opt_u64(mtu).as_str()).concat(" dns=").concat(
            debug_strings(&self.dns).as_str(),
        ).concat(" dns_mode=").concat(self.dns_mode.as_str()).concat(" split=").concat(
            debug_strings(&self.split_routes).as_str(),
        ).concat(" preserve=").concat(debug_strings(&self.preserve_cidrs).as_str()).concat(
            " vpn_gateway=",
        ).concat(debug_opt_string(&self.vpn_gateway).as_str())
    }
}

/// How many of the entries give both an address and a mask length.
pub open spec fn entries_with_route(es: Seq<SplitEntry>) -> nat
    decreases es.len(),
{
    if es.len() == 0 {
        0
    } else {
        entries_with_route(es.drop_last()) + if text_or_empty(es.last().addr).len() > 0
            && text_or_empty(es.last().masklen).len() > 0 {
            1nat
        } else {
            0nat
        }
    }
}

proof fn lemma_split_routes_per_entry(es: Seq<SplitEntry>)
    ensures
        split_routes_of(es).len() == entries_with_route(es),
        forall|i: int|
            0 <= i < es.len() && text_or_empty(es[i].addr).len() > 0 && text_or_empty(
                es[i].masklen,
            ).len() > 0 ==> entries_with_route(#[trigger] es.take(i)) < entries_with_route(es)
                && split_routes_of(es)[entries_with_route(es.take(i)) as int]
                == text_or_empty(es[i].addr) + "/"@ + text_or_empty(es[i].masklen),
    decreases es.len(),
{
    reveal_strlit("/");
    assert("/"@ =~= seq!['/']);
    if es.len() > 0 {
        let s = es.drop_last();
        lemma_split_routes_per_entry(s);
        assert forall|i: int|
            0 <= i < es.len() && text_or_empty(es[i].addr).len() > 0 && text_or_empty(
                es[i].masklen,
            ).len() > 0 implies entries_with_route(#[trigger] es.take(i)) < entries_with_route(es)
            && split_routes_of(es)[entries_with_route(es.take(i)) as int]
            == text_or_empty(es[i].addr) + "/"@ + text_or_empty(es[i].masklen) by {
            if i < s.len() {
                assert(es.take(i) =~= s.take(i));
                assert(es[i] == s[i]);
                assert(split_routes_of(s)[entries_with_route(s.take(i)) as int] == text_or_empty(
                    s[i].addr,
                ) + "/"@ + text_or_empty(s[i].masklen));
            } else {
                assert(es.take(i) =~= s);
            }
        }
    }
}

/// Every split entry that gives both an address and a mask length becomes
/// one route `<addr>/<masklen>` of the plan, in the order of the entries,
/// and the plan has no other split route.
pub proof fn law_plan_routes_every_split_entry(p: RoutePlan, reason: Seq<char>, v: PlanVars)
    requires
        plan_of(p, reason, v),
    ensures
        p.split_routes@.len() == entries_with_route(v.split_entries@),
        forall|i: int|
            0 <= i < v.split_entries@.len() && text_or_empty(v.split_entries@[i].addr).len() > 0
                && text_or_empty(v.split_entries@[i].masklen).len() > 0
                ==> p.split_routes@[entries_with_route(#[trigger] v.split_entries@.take(i)) as int]@
                == text_or_empty(v.split_entries@[i].addr) + "/"@ + text_or_empty(
                v.split_entries@[i].masklen,
            ),
{
    let es = v.split_entries@;
    lemma_split_routes_per_entry(es);
    assert(views(p.split_routes@) == split_routes_of(es));
    assert forall|i: int|
        0 <= i < es.len() && text_or_empty(es[i].addr).len() > 0 && text_or_empty(
            es[i].masklen,
        ).len() > 0 implies p.split_routes@[entries_with_route(#[trigger] es.take(i)) as int]@
        == text_or_empty(es[i].addr) + "/"@ + text_or_empty(es[i].masklen) by {
        let n = entries_with_route(es.take(i)) as int;
        assert(views(p.split_routes@)[n] == p.split_routes@[n]@);
    }
}
} // verus!
