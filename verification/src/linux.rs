//! Route and DNS changes on Linux (`ip`, `resolvectl`, `resolvconf`), as
//! sequences of commands.
//!
//! `connect`/`reconnect` records the physical path it protected, so that
//! `disconnect` removes the same routes even after the routing table
//! changed.

use vstd::prelude::*;

use crate::command::{command, command_view, push_run, run_view, steps_view, Args, Command, Step, StepView};
use crate::error::{error_detail, Error};
use crate::ipv4::{dotted, dotted_string, lemma_pow2_32, lemma_pow2_pos, lemma_pow2_strict, parse_ipv4, ipv4_ok, ipv4_value, pow2};
use crate::plan::RoutePlan;
use crate::text::{
    chars_of, clone_opt, decimal, decimal_string, eq_str, opt_view, parse_bounded, parse_unsigned,
    slice_chars, string_of, views, words, words_of, split_by, in_set, split_chars, first_char,
    find_char, before_char, after_char, lines_of,
};

verus! {

/// The physical path the VPN must not capture.
#[derive(Debug, Clone)]
pub struct PhysicalState {
    pub gateway: Option<String>,
    pub iface: Option<String>,
    pub local_ip: Option<String>,
    pub local_prefix: Option<String>,
}

/// What a vpnc-script phase does.
#[derive(Debug, Clone, Copy, PartialEq, Eq, Structural)]
pub enum Phase {
    /// Nothing to do before openconnect connects.
    PreInit,
    /// Bring the tunnel up (also on reconnect).
    Connect,
    /// Take the tunnel down.
    Disconnect,
}

pub open spec fn linux_phase(reason: Seq<char>) -> Option<Phase> {
    if reason == "pre-init"@ {
        Some(Phase::PreInit)
    } else if reason == "connect"@ || reason == "reconnect"@ || reason == "attempt-reconnect"@ {
        Some(Phase::Connect)
    } else if reason == "disconnect"@ {
        Some(Phase::Disconnect)
    } else {
        None
    }
}

/// The phase for a vpnc-script reason (`attempt-reconnect` connects too);
/// any other reason is an error.
pub fn apply(plan: &RoutePlan) -> (r: Result<Phase, Error>)
    ensures
        match r {
            Ok(ph) => linux_phase(plan.reason@) == Some(ph),
            Err(e) => linux_phase(plan.reason@) is None && e is Route && error_detail(e)
                == "unsupported reason: "@ + plan.reason@,
        },
{
    let reason = plan.reason.as_str();
    if eq_str(reason, "pre-init") {
        Ok(Phase::PreInit)
    } else if eq_str(reason, "connect") || eq_str(reason, "reconnect") || eq_str(
        reason,
        "attempt-reconnect",
    ) {
        Ok(Phase::Connect)
    } else if eq_str(reason, "disconnect") {
        Ok(Phase::Disconnect)
    } else {
        Err(Error::Route(String::from_str("unsupported reason: ").concat(reason)))
    }
}

/// The index of the first occurrence of `x` in `w`.
pub open spec fn first_index(w: Seq<Seq<char>>, x: Seq<char>) -> Option<int>
    decreases w.len(),
{
    if w.len() == 0 {
        None
    } else if w[0] == x {
        Some(0)
    } else {
        match first_index(w.drop_first(), x) {
            Some(i) => Some(i + 1),
            None => None,
        }
    }
}

pub proof fn lemma_first_index(w: Seq<Seq<char>>, x: Seq<char>, i: int)
    requires
        0 <= i < w.len(),
        w[i] == x,
        forall|j: int| 0 <= j < i ==> w[j] != x,
    ensures
        first_index(w, x) == Some(i),
    decreases w.len(),
{
    if i > 0 {
        assert forall|j: int| 0 <= j < i - 1 implies w.drop_first()[j] != x by {
            assert(w.drop_first()[j] == w[j + 1]);
        }
        lemma_first_index(w.drop_first(), x, i - 1);
    }
}

pub proof fn lemma_no_index(w: Seq<Seq<char>>, x: Seq<char>)
    requires
        forall|j: int| 0 <= j < w.len() ==> w[j] != x,
    ensures
        first_index(w, x) is None,
    decreases w.len(),
{
    if w.len() > 0 {
        assert forall|j: int| 0 <= j < w.len() - 1 implies w.drop_first()[j] != x by {
            assert(w.drop_first()[j] == w[j + 1]);
        }
        lemma_no_index(w.drop_first(), x);
    }
}

/// The word after the first occurrence of `field` among the words of
/// `text`: `via <gateway>` and `dev <iface>` of `ip route show default`.
pub open spec fn route_field(text: Seq<char>, field: Seq<char>) -> Option<Seq<char>> {
    let w = words(text);
    match first_index(w, field) {
        Some(i) => if i + 1 < w.len() {
            Some(w[i + 1])
        } else {
            None
        },
        None => None,
    }
}

/// Finds `field` among the words of `text` and returns the word after it.
pub fn default_route_field(text: &str, field: &str) -> (r: Option<String>)
    ensures
        opt_view(r) == route_field(text@, field@),
{
    let c = chars_of(text);
    let w = words_of(c.as_slice());
    let f = chars_of(field);
    let ghost wv = w.deep_view();
    let mut i: usize = 0;
    while i < w.len()
        invariant
            wv == w.deep_view(),
            wv == words(text@),
            f@ == field@,
            i <= w@.len(),
            forall|j: int| 0 <= j < i ==> wv[j] != field@,
        decreases w.len() - i,
    {
        assert(wv[i as int] =~= w@[i as int]@);
        if vec_eq(&w[i], &f) {
            proof {
                lemma_first_index(wv, field@, i as int);
            }
            if i + 1 < w.len() {
                assert(wv[i + 1] =~= w@[i + 1]@);
                return Some(string_of(w[i + 1].as_slice()));
            } else {
                return None;
            }
        }
        i = i + 1;
    }
    proof {
        lemma_no_index(wv, field@);
    }
    None
}

fn vec_eq(a: &Vec<char>, b: &Vec<char>) -> (r: bool)
    ensures
        r == (a@ == b@),
{
    if a.len() != b.len() {
        return false;
    }
    let mut i: usize = 0;
    while i < a.len()
        invariant
            a@.len() == b@.len(),
            i <= a@.len(),
            forall|k: int| 0 <= k < i ==> a@[k] == b@[k],
        decreases a.len() - i,
    {
        if a[i] != b[i] {
            return false;
        }
        i = i + 1;
    }
    assert(a@ =~= b@);
    true
}

/// `v` with its low `32 - bits` bits cleared.
pub open spec fn network_of(v: nat, bits: nat) -> nat {
    (v / pow2((32 - bits) as nat)) * pow2((32 - bits) as nat)
}

/// The prefix length a `/prefix` text gives: at most 32, and 32 when it is
/// not a number.
pub open spec fn prefix_bits(prefix: Seq<char>) -> nat {
    match parse_unsigned(prefix, u32::MAX as nat) {
        Some(b) => if b < 32 {
            b
        } else {
            32
        },
        None => 32,
    }
}

/// `ip/prefix` with the host bits of `ip` cleared (`192.168.0.128/23` ->
/// `192.168.0.0/23`); unchanged when `ip` is not an IPv4 address.
pub open spec fn network_cidr_of(ip: Seq<char>, prefix: Seq<char>) -> Seq<char> {
    if ipv4_ok(ip) {
        dotted(network_of(ipv4_value(ip), prefix_bits(prefix))) + "/"@ + decimal(
            prefix_bits(prefix),
        )
    } else {
        ip + "/"@ + prefix
    }
}

/// Normalises `192.168.0.128/23` to `192.168.0.0/23`; `ip route replace`
/// rejects prefixes whose host bits are non-zero.
pub fn network_cidr(ip: &str, prefix: &str) -> (r: String)
    ensures
        r@ == network_cidr_of(ip@, prefix@),
{
    let pc = chars_of(prefix);
    let bits: u64 = match parse_bounded(pc.as_slice(), 4294967295) {
        Some(b) => if b < 32 {
            b
        } else {
            32
        },
        None => 32,
    };
    let ic = chars_of(ip);
    match parse_ipv4(ic.as_slice()) {
        Some(v) => {
            proof {
                lemma_pow2_32();
                lemma_pow2_pos((32 - bits) as nat);
                if bits > 0 {
                    lemma_pow2_strict((32 - bits) as nat, 32);
                }
            }
            let d = pow2_u64((32 - bits) as u32);
            let q = v as u64 / d;
            assert(q * d <= v as u64) by (nonlinear_arith)
                requires
                    d >= 1,
                    q == v as u64 / d,
            ;
            let net = q * d;
            dotted_string(net as u32).concat("/").concat(decimal_string(bits).as_str())
        },
        None => String::from_str(ip).concat("/").concat(prefix),
    }
}

fn pow2_u64(n: u32) -> (r: u64)
    requires
        n <= 32,
    ensures
        r as nat == pow2(n as nat),
{
    proof {
        lemma_pow2_32();
    }
    let mut r: u64 = 1;
    let mut k: u32 = 0;
    while k < n
        invariant
            k <= n <= 32,
            r as nat == pow2(k as nat),
            pow2(32) == 4294967296,
        decreases n - k,
    {
        proof {
            if k + 1 < 32 {
                lemma_pow2_strict((k + 1) as nat, 32);
            }
        }
        r = r * 2;
        k = k + 1;
    }
    r
}


/// The index of `x` among the words `w`, the first one.
pub fn find_word(w: &Vec<Vec<char>>, x: &Vec<char>) -> (r: Option<usize>)
    ensures
        match r {
            Some(i) => first_index(w.deep_view(), x@) == Some(i as int) && i < w@.len(),
            None => first_index(w.deep_view(), x@) is None,
        },
{
    let ghost wv = w.deep_view();
    let mut i: usize = 0;
    while i < w.len()
        invariant
            wv == w.deep_view(),
            i <= w@.len(),
            forall|j: int| 0 <= j < i ==> wv[j] != x@,
        decreases w.len() - i,
    {
        assert(wv[i as int] =~= w@[i as int]@);
        if vec_eq(&w[i], x) {
            proof {
                lemma_first_index(wv, x@, i as int);
            }
            return Some(i);
        }
        i = i + 1;
    }
    proof {
        lemma_no_index(wv, x@);
    }
    None
}

/// The word after the first `inet` in the first line that has one (empty
/// when `inet` ends its line).
pub open spec fn inet_word(lines: Seq<Seq<char>>) -> Option<Seq<char>>
    decreases lines.len(),
{
    if lines.len() == 0 {
        None
    } else {
        let w = words(lines[0]);
        match first_index(w, "inet"@) {
            Some(j) => Some(
                if j + 1 < w.len() {
                    w[j + 1]
                } else {
                    Seq::empty()
                },
            ),
            None => inet_word(lines.drop_first()),
        }
    }
}

/// The local address and its network, from `ip -4 -o addr show dev <iface>`.
pub open spec fn local_addr_of(text: Seq<char>) -> Option<(Seq<char>, Seq<char>)> {
    match inet_word(lines_of(text)) {
        Some(cidr) => Some(
            (
                before_char(cidr, '/'),
                network_cidr_of(before_char(cidr, '/'), after_char(cidr, '/')),
            ),
        ),
        None => None,
    }
}

/// Reads the local IPv4 address and its network from the output of
/// `ip -4 -o addr show dev <iface>`.
pub fn local_addr_from(text: &str) -> (r: Option<(String, String)>)
    ensures
        match r {
            Some((ip, net)) => local_addr_of(text@) == Some((ip@, net@)),
            None => local_addr_of(text@) is None,
        },
{
    let c = chars_of(text);
    let lines = split_chars(c.as_slice(), &['\n']);
    assert(seq!['\n'] =~= ['\n']@);
    let ghost lv = lines.deep_view();
    let inet = vec!['i', 'n', 'e', 't'];
    proof {
        reveal_strlit("inet");
    }
    assert(inet@ =~= "inet"@);
    let mut k: usize = 0;
    assert(lv.skip(0) =~= lv);
    while k < lines.len()
        invariant
            lv == lines.deep_view(),
            lv == lines_of(text@),
            inet@ == "inet"@,
            k <= lv.len(),
            inet_word(lv) == inet_word(lv.skip(k as int)),
        decreases lines.len() - k,
    {
        assert(lv[k as int] =~= lines@[k as int]@);
        let w = words_of(lines[k].as_slice());
        assert(lv.skip(k as int)[0] == lv[k as int]);
        match find_word(&w, &inet) {
            Some(j) => {
                let cidr: Vec<char> = if j + 1 < w.len() {
                    assert(w.deep_view()[j + 1] =~= w@[j + 1]@);
                    slice_chars(w[j + 1].as_slice(), 0, w[j + 1].len())
                } else {
                    Vec::new()
                };
                assert(inet_word(lv) == Some(cidr@)) by {
                    if j + 1 < w@.len() {
                        assert(w@[j + 1]@.subrange(0, w@[j + 1]@.len() as int) =~= w@[j + 1]@);
                    } else {
                        assert(cidr@ =~= Seq::<char>::empty());
                    }
                }
                let (ip, prefix): (Vec<char>, Vec<char>) = match find_char(cidr.as_slice(), '/') {
                    Some(i) => (slice_chars(cidr.as_slice(), 0, i), slice_chars(cidr.as_slice(), i + 1, cidr.len())),
                    None => (slice_chars(cidr.as_slice(), 0, cidr.len()), Vec::new()),
                };
                assert(ip@ =~= before_char(cidr@, '/'));
                assert(prefix@ =~= after_char(cidr@, '/'));
                let ip_s = string_of(ip.as_slice());
                let prefix_s = string_of(prefix.as_slice());
                let net = network_cidr(ip_s.as_str(), prefix_s.as_str());
                return Some((ip_s, net));
            },
            None => {
                assert(lv.skip(k as int).drop_first() =~= lv.skip(k + 1));
            },
        }
        k = k + 1;
    }
    None
}

/// The physical gateway (`field` is `via`) or interface (`dev`): the
/// override when given, otherwise what `ip route show default` printed.
pub open spec fn discovered(over: Option<String>, route_text: Option<String>, field: Seq<char>) -> Option<Seq<char>> {
    match over {
        Some(o) => Some(o@),
        None => match route_text {
            Some(t) => route_field(t@, field),
            None => None,
        },
    }
}

pub fn discover_field(over: &Option<String>, route_text: &Option<String>, field: &str) -> (r: Option<String>)
    ensures
        opt_view(r) == discovered(*over, *route_text, field@),
{
    match over {
        Some(o) => Some(o.clone()),
        None => match route_text {
            Some(t) => default_route_field(t.as_str(), field),
            None => None,
        },
    }
}

impl PhysicalState {
    /// The physical path: gateway and interface from the plan's overrides
    /// or `route_text` (the output of `ip route show default`, absent when
    /// it could not be run), local address and network from `addr_text`
    /// (the output of `ip -4 -o addr show dev <iface>` for that interface).
    pub fn discover(plan: &RoutePlan, route_text: &Option<String>, addr_text: &Option<String>) -> (r: PhysicalState)
        ensures
            opt_view(r.gateway) == discovered(plan.phys_gateway_override, *route_text, "via"@),
            opt_view(r.iface) == discovered(plan.phys_iface_override, *route_text, "dev"@),
            match (r.iface, addr_text, local_addr_of(text_of(*addr_text))) {
                (Some(_), Some(_), Some((ip, net))) => opt_view(r.local_ip) == Some(ip) && opt_view(r.local_prefix) == Some(net),
                _ => r.local_ip is None && r.local_prefix is None,
            },
    {
        let gateway = discover_field(&plan.phys_gateway_override, route_text, "via");
        let iface = discover_field(&plan.phys_iface_override, route_text, "dev");
        let (local_ip, local_prefix) = match (&iface, addr_text) {
            (Some(_), Some(t)) => match local_addr_from(t.as_str()) {
                Some((ip, net)) => (Some(ip), Some(net)),
                None => (None, None),
            },
            _ => (None, None),
        };
        PhysicalState { gateway, iface, local_ip, local_prefix }
    }

    /// `disconnect` uses the recorded path when it names a gateway or an
    /// interface, and discovers it again otherwise.
    pub fn is_usable(&self) -> (r: bool)
        ensures
            r == (self.gateway is Some || self.iface is Some),
    {
        self.gateway.is_some() || self.iface.is_some()
    }
}

pub open spec fn text_of(o: Option<String>) -> Seq<char> {
    match o {
        Some(s) => s@,
        None => Seq::empty(),
    }
}

/// `ip route <verb> <cidr> via <gateway> dev <iface>`.
pub open spec fn via_route(verb: Seq<char>, cidr: Seq<char>, gw: Seq<char>, dev: Seq<char>, must: bool) -> StepView {
    run_view("ip"@, seq!["route"@, verb, cidr, "via"@, gw, "dev"@, dev], must)
}

/// `ip route <verb> <cidr> dev <iface>`.
pub open spec fn dev_route(verb: Seq<char>, cidr: Seq<char>, dev: Seq<char>, must: bool) -> StepView {
    run_view("ip"@, seq!["route"@, verb, cidr, "dev"@, dev], must)
}

/// Address and link of the tun device, when the plan has both address and
/// prefix length.
pub open spec fn tun_steps(p: RoutePlan) -> Seq<StepView> {
    match (p.tun_ip, p.prefix_len) {
        (Some(ip), Some(pl)) => {
            let c = ip@ + "/"@ + decimal(pl as nat);
            seq![
                run_view("ip"@, seq!["addr"@, "replace"@, c, "peer"@, c, "dev"@, p.tun_iface@], true),
                run_view("ip"@, seq!["link"@, "set"@, "dev"@, p.tun_iface@, "up"@], true),
            ]
        },
        _ => Seq::empty(),
    }
}

/// The MTU of the tun device; its failure is ignored.
pub open spec fn mtu_steps(p: RoutePlan) -> Seq<StepView> {
    match p.mtu {
        Some(m) => seq![
            run_view("ip"@, seq!["link"@, "set"@, "dev"@, p.tun_iface@, "mtu"@, decimal(m as nat)], false),
        ],
        None => Seq::empty(),
    }
}

/// The VPN gateway's host route over the physical path, so the control
/// connection survives the tunnel.
pub open spec fn gateway_steps(p: RoutePlan, ph: PhysicalState, verb: Seq<char>, must: bool) -> Seq<StepView> {
    match (p.vpn_gateway, ph.gateway, ph.iface) {
        (Some(g), Some(pg), Some(pi)) => seq![via_route(verb, g@ + "/32"@, pg@, pi@, must)],
        _ => Seq::empty(),
    }
}

/// Routes that keep the management network on the physical path: the local
/// address, its network, and the configured CIDRs.
pub open spec fn protect_steps(p: RoutePlan, ph: PhysicalState, verb: Seq<char>, must: bool) -> Seq<StepView> {
    match (ph.gateway, ph.iface) {
        (Some(pg), Some(pi)) => {
            let local = match ph.local_ip {
                Some(l) => seq![via_route(verb, l@ + "/32"@, pg@, pi@, must)],
                None => Seq::empty(),
            };
            let net = match ph.local_prefix {
                Some(n) => seq![via_route(verb, n@, pg@, pi@, must)],
                None => Seq::empty(),
            };
            local + net + views(p.preserve_cidrs@).map_values(
                |c: Seq<char>| via_route(verb, c, pg@, pi@, must),
            )
        },
        _ => Seq::empty(),
    }
}

/// The split routes, through the tun device.
pub open spec fn split_steps(p: RoutePlan, verb: Seq<char>, must: bool) -> Seq<StepView> {
    views(p.split_routes@).map_values(|c: Seq<char>| dev_route(verb, c, p.tun_iface@, must))
}

/// What `connect` runs, in order; the first failing required step ends it.
pub open spec fn connect_steps_of(p: RoutePlan, ph: PhysicalState) -> Seq<StepView> {
    tun_steps(p) + mtu_steps(p) + gateway_steps(p, ph, "replace"@, true) + protect_steps(
        p,
        ph,
        "replace"@,
        true,
    ) + split_steps(p, "replace"@, true)
}

/// `connect` keeps every preserved CIDR on the physical path when the
/// physical gateway and interface are known, and sends every split route
/// through the tun device: `ip route replace <cidr> via <gateway> dev
/// <iface>` and `ip route replace <route> dev <tun>`, each required.
pub proof fn law_connect_routes_every_cidr(p: RoutePlan, ph: PhysicalState)
    ensures
        ph.gateway is Some && ph.iface is Some ==> forall|k: int|
            0 <= k < p.preserve_cidrs@.len() ==> connect_steps_of(p, ph).contains(
                run_view(
                    "ip"@,
                    seq![
                        "route"@,
                        "replace"@,
                        #[trigger] p.preserve_cidrs@[k]@,
                        "via"@,
                        ph.gateway->0@,
                        "dev"@,
                        ph.iface->0@,
                    ],
                    true,
                ),
            ),
        forall|k: int|
            0 <= k < p.split_routes@.len() ==> connect_steps_of(p, ph).contains(
                run_view(
                    "ip"@,
                    seq!["route"@, "replace"@, #[trigger] p.split_routes@[k]@, "dev"@, p.tun_iface@],
                    true,
                ),
            ),
{
    let all = connect_steps_of(p, ph);
    let head = tun_steps(p) + mtu_steps(p) + gateway_steps(p, ph, "replace"@, true);
    let prot = protect_steps(p, ph, "replace"@, true);
    let spl = split_steps(p, "replace"@, true);
    assert(all == head + prot + spl);
    assert forall|k: int| 0 <= k < p.split_routes@.len() implies all.contains(
        run_view(
            "ip"@,
            seq!["route"@, "replace"@, #[trigger] p.split_routes@[k]@, "dev"@, p.tun_iface@],
            true,
        ),
    ) by {
        assert(views(p.split_routes@)[k] == p.split_routes@[k]@);
        assert(all[head.len() + prot.len() + k] == spl[k]);
    }
    if ph.gateway is Some && ph.iface is Some {
        let pg = ph.gateway->0;
        let pi = ph.iface->0;
        let local = match ph.local_ip {
            Some(l) => seq![via_route("replace"@, l@ + "/32"@, pg@, pi@, true)],
            None => Seq::<StepView>::empty(),
        };
        let net = match ph.local_prefix {
            Some(n) => seq![via_route("replace"@, n@, pg@, pi@, true)],
            None => Seq::<StepView>::empty(),
        };
        let cid = views(p.preserve_cidrs@).map_values(
            |c: Seq<char>| via_route("replace"@, c, pg@, pi@, true),
        );
        assert(prot == local + net + cid);
        assert forall|k: int| 0 <= k < p.preserve_cidrs@.len() implies all.contains(
            run_view(
                "ip"@,
                seq![
                    "route"@,
                    "replace"@,
                    #[trigger] p.preserve_cidrs@[k]@,
                    "via"@,
                    pg@,
                    "dev"@,
                    pi@,
                ],
                true,
            ),
        ) by {
            assert(views(p.preserve_cidrs@)[k] == p.preserve_cidrs@[k]@);
            assert(prot[local.len() + net.len() + k] == cid[k]);
            assert(all[head.len() + local.len() + net.len() + k] == cid[k]);
        }
    }
}

/// What `disconnect` runs, in order; every failure is ignored.
pub open spec fn disconnect_steps_of(p: RoutePlan, ph: PhysicalState) -> Seq<StepView> {
    split_steps(p, "del"@, false) + gateway_steps(p, ph, "del"@, false) + protect_steps(
        p,
        ph,
        "del"@,
        false,
    ) + match p.tun_ip {
        Some(_) => seq![run_view("ip"@, seq!["link"@, "set"@, "dev"@, p.tun_iface@, "down"@], false)],
        None => Seq::empty(),
    }
}

fn push_via_routes(steps: &mut Vec<Step>, cidrs: &Vec<String>, verb: &str, gw: &String, dev: &String, must: bool)
    ensures
        steps_view(final(steps)@) == steps_view(old(steps)@) + views(cidrs@).map_values(
            |c: Seq<char>| via_route(verb@, c, gw@, dev@, must),
        ),
{
    let ghost start = steps_view(steps@);
    let ghost f = |c: Seq<char>| via_route(verb@, c, gw@, dev@, must);
    let mut i: usize = 0;
    assert(views(cidrs@).take(0).map_values(f) =~= Seq::<StepView>::empty());
    assert(start + Seq::<StepView>::empty() =~= start);
    while i < cidrs.len()
        invariant
            i <= cidrs@.len(),
            steps_view(steps@) == start + views(cidrs@).take(i as int).map_values(f),
            f == (|c: Seq<char>| via_route(verb@, c, gw@, dev@, must)),
        decreases cidrs.len() - i,
    {
        let args = Args::new().arg("route").arg(verb).owned(cidrs[i].clone()).arg("via").owned(
            gw.clone(),
        ).arg("dev").owned(dev.clone());
        assert(views(args.items@) =~= seq!["route"@, verb@, cidrs@[i as int]@, "via"@, gw@, "dev"@, dev@]);
        push_run(steps, "ip", args, must);
        assert(views(cidrs@).take(i + 1).map_values(f) =~= views(cidrs@).take(i as int).map_values(f).push(
            f(cidrs@[i as int]@),
        ));
        i = i + 1;
    }
    assert(views(cidrs@).take(i as int) =~= views(cidrs@));
}

fn push_dev_routes(steps: &mut Vec<Step>, cidrs: &Vec<String>, verb: &str, dev: &String, must: bool)
    ensures
        steps_view(final(steps)@) == steps_view(old(steps)@) + views(cidrs@).map_values(
            |c: Seq<char>| dev_route(verb@, c, dev@, must),
        ),
{
    let ghost start = steps_view(steps@);
    let ghost f = |c: Seq<char>| dev_route(verb@, c, dev@, must);
    let mut i: usize = 0;
    assert(views(cidrs@).take(0).map_values(f) =~= Seq::<StepView>::empty());
    assert(start + Seq::<StepView>::empty() =~= start);
    while i < cidrs.len()
        invariant
            i <= cidrs@.len(),
            steps_view(steps@) == start + views(cidrs@).take(i as int).map_values(f),
            f == (|c: Seq<char>| dev_route(verb@, c, dev@, must)),
        decreases cidrs.len() - i,
    {
        let args = Args::new().arg("route").arg(verb).owned(cidrs[i].clone()).arg("dev").owned(
            dev.clone(),
        );
        assert(views(args.items@) =~= seq!["route"@, verb@, cidrs@[i as int]@, "dev"@, dev@]);
        push_run(steps, "ip", args, must);
        assert(views(cidrs@).take(i + 1).map_values(f) =~= views(cidrs@).take(i as int).map_values(f).push(
            f(cidrs@[i as int]@),
        ));
        i = i + 1;
    }
    assert(views(cidrs@).take(i as int) =~= views(cidrs@));
}

fn push_gateway(steps: &mut Vec<Step>, p: &RoutePlan, ph: &PhysicalState, verb: &str, must: bool)
    ensures
        steps_view(final(steps)@) == steps_view(old(steps)@) + gateway_steps(*p, *ph, verb@, must),
{
    let ghost start = steps_view(steps@);
    match (&p.vpn_gateway, &ph.gateway, &ph.iface) {
        (Some(g), Some(pg), Some(pi)) => {
            let args = Args::new().arg("route").arg(verb).owned(g.clone().concat("/32")).arg(
                "via",
            ).owned(pg.clone()).arg("dev").owned(pi.clone());
            assert(views(args.items@) =~= seq!["route"@, verb@, g@ + "/32"@, "via"@, pg@, "dev"@, pi@]);
            push_run(steps, "ip", args, must);
            assert(steps_view(steps@) =~= start + gateway_steps(*p, *ph, verb@, must));
        },
        _ => {
            assert(steps_view(steps@) =~= start + gateway_steps(*p, *ph, verb@, must));
        },
    }
}

fn push_protect(steps: &mut Vec<Step>, p: &RoutePlan, ph: &PhysicalState, verb: &str, must: bool)
    ensures
        steps_view(final(steps)@) == steps_view(old(steps)@) + protect_steps(*p, *ph, verb@, must),
{
    let ghost start = steps_view(steps@);
    match (&ph.gateway, &ph.iface) {
        (Some(pg), Some(pi)) => {
            let ghost s0 = steps_view(steps@);
            match &ph.local_ip {
                Some(l) => {
                    let args = Args::new().arg("route").arg(verb).owned(l.clone().concat("/32")).arg(
                        "via",
                    ).owned(pg.clone()).arg("dev").owned(pi.clone());
                    assert(views(args.items@) =~= seq!["route"@, verb@, l@ + "/32"@, "via"@, pg@, "dev"@, pi@]);
                    push_run(steps, "ip", args, must);
                },
                None => {},
            }
            let ghost s1 = steps_view(steps@);
            match &ph.local_prefix {
                Some(n) => {
                    let args = Args::new().arg("route").arg(verb).owned(n.clone()).arg("via").owned(
                        pg.clone(),
                    ).arg("dev").owned(pi.clone());
                    assert(views(args.items@) =~= seq!["route"@, verb@, n@, "via"@, pg@, "dev"@, pi@]);
                    push_run(steps, "ip", args, must);
                },
                None => {},
            }
            push_via_routes(steps, &p.preserve_cidrs, verb, pg, pi, must);
            assert(steps_view(steps@) =~= start + protect_steps(*p, *ph, verb@, must));
        },
        _ => {
            assert(steps_view(steps@) =~= start + protect_steps(*p, *ph, verb@, must));
        },
    }
}

/// The commands that bring the tunnel's routes up, in order.
pub fn connect_steps(p: &RoutePlan, ph: &PhysicalState) -> (r: Vec<Step>)
    ensures
        steps_view(r@) == connect_steps_of(*p, *ph),
{
    let mut steps: Vec<Step> = Vec::new();
    assert(steps_view(steps@) =~= Seq::<StepView>::empty());
    match (&p.tun_ip, p.prefix_len) {
        (Some(ip), Some(pl)) => {
            let c = ip.clone().concat("/").concat(decimal_string(pl as u64).as_str());
            let ghost cv = c@;
            let args = Args::new().arg("addr").arg("replace").owned(c.clone()).arg("peer").owned(c).arg(
                "dev",
            ).owned(p.tun_iface.clone());
            assert(views(args.items@) =~= seq!["addr"@, "replace"@, cv, "peer"@, cv, "dev"@, p.tun_iface@]);
            push_run(&mut steps, "ip", args, true);
            let args2 = Args::new().arg("link").arg("set").arg("dev").owned(p.tun_iface.clone()).arg(
                "up",
            );
            assert(views(args2.items@) =~= seq!["link"@, "set"@, "dev"@, p.tun_iface@, "up"@]);
            push_run(&mut steps, "ip", args2, true);
        },
        _ => {},
    }
    assert(steps_view(steps@) =~= tun_steps(*p));
    let ghost st = steps_view(steps@);
    match p.mtu {
        Some(m) => {
            let args = Args::new().arg("link").arg("set").arg("dev").owned(p.tun_iface.clone()).arg(
                "mtu",
            ).owned(decimal_string(m as u64));
            assert(views(args.items@) =~= seq!["link"@, "set"@, "dev"@, p.tun_iface@, "mtu"@, decimal(m as nat)]);
            push_run(&mut steps, "ip", args, false);
        },
        None => {},
    }
    let ghost s0 = steps_view(steps@);
    assert(s0 =~= tun_steps(*p) + mtu_steps(*p));
    push_gateway(&mut steps, p, ph, "replace", true);
    push_protect(&mut steps, p, ph, "replace", true);
    push_dev_routes(&mut steps, &p.split_routes, "replace", &p.tun_iface, true);
    proof {
        reveal_strlit("replace");
    }
    assert(steps_view(steps@) =~= connect_steps_of(*p, *ph));
    steps
}

/// The commands that take the tunnel's routes down, in order.
pub fn disconnect_steps(p: &RoutePlan, ph: &PhysicalState) -> (r: Vec<Step>)
    ensures
        steps_view(r@) == disconnect_steps_of(*p, *ph),
{
    let mut steps: Vec<Step> = Vec::new();
    assert(steps_view(steps@) =~= Seq::<StepView>::empty());
    push_dev_routes(&mut steps, &p.split_routes, "del", &p.tun_iface, false);
    push_gateway(&mut steps, p, ph, "del", false);
    push_protect(&mut steps, p, ph, "del", false);
    let ghost s0 = steps_view(steps@);
    if p.tun_ip.is_some() {
        let args = Args::new().arg("link").arg("set").arg("dev").owned(p.tun_iface.clone()).arg(
            "down",
        );
        assert(views(args.items@) =~= seq!["link"@, "set"@, "dev"@, p.tun_iface@, "down"@]);
        push_run(&mut steps, "ip", args, false);
    }
    assert(steps_view(steps@) =~= disconnect_steps_of(*p, *ph));
    steps
}

/// Applying the VPN's DNS servers: `resolvectl`, and `resolvconf` when
/// `resolvectl` fails.
#[derive(Debug, Clone)]
pub struct DnsChange {
    pub primary: Command,
    pub fallback: Command,
}

/// DNS is left alone when the plan says `ignore` or names no server.
pub open spec fn dns_wanted(p: RoutePlan) -> bool {
    p.dns_mode@ != "ignore"@ && p.dns@.len() > 0
}

/// `resolvectl dns <iface> <servers...>`, then `resolvconf -a <iface>.openconnect`.
pub fn dns_apply(p: &RoutePlan) -> (r: Option<DnsChange>)
    ensures
        match r {
            Some(c) => dns_wanted(*p) && command_view(c.primary) == ("resolvectl"@, seq!["dns"@, p.tun_iface@] + views(p.dns@))
                && command_view(c.fallback) == ("resolvconf"@, seq!["-a"@, p.tun_iface@ + ".openconnect"@]),
            None => !dns_wanted(*p),
        },
{
    if eq_str(p.dns_mode.as_str(), "ignore") || p.dns.len() == 0 {
        return None;
    }
    let a = Args::new().arg("dns").owned(p.tun_iface.clone()).all(&p.dns);
    assert(views(a.items@) =~= seq!["dns"@, p.tun_iface@] + views(p.dns@));
    let primary = command("resolvectl", a);
    let b = Args::new().arg("-a").owned(p.tun_iface.clone().concat(".openconnect"));
    assert(views(b.items@) =~= seq!["-a"@, p.tun_iface@ + ".openconnect"@]);
    let fallback = command("resolvconf", b);
    Some(DnsChange { primary, fallback })
}

/// The VPN's DNS servers are applied exactly when the mode is not `ignore`
/// and at least one server is given (one is enough); `resolvectl` is then
/// told every server of the plan, in order, for the tunnel interface.
pub proof fn law_dns_applied_when_servers_given(p: RoutePlan, r: Option<DnsChange>)
    requires
        match r {
            Some(c) => dns_wanted(p) && command_view(c.primary) == ("resolvectl"@, seq!["dns"@, p.tun_iface@] + views(p.dns@))
                && command_view(c.fallback) == ("resolvconf"@, seq!["-a"@, p.tun_iface@ + ".openconnect"@]),
            None => !dns_wanted(p),
        },
    ensures
        r is Some <==> (p.dns_mode@ != "ignore"@ && p.dns@.len() >= 1),
        r is Some ==> command_view(r->0.primary).0 == "resolvectl"@ && command_view(
            r->0.primary,
        ).1.len() == p.dns@.len() + 2 && command_view(r->0.primary).1[1] == p.tun_iface@
            && forall|i: int|
            0 <= i < p.dns@.len() ==> command_view(r->0.primary).1[i + 2] == #[trigger] p.dns@[i]@,
{
}

/// `resolvectl revert <iface>` and `resolvconf -d <iface>.openconnect`, both
/// run, their failures ignored.
pub fn dns_revert(p: &RoutePlan) -> (r: (Command, Command))
    ensures
        command_view(r.0) == ("resolvectl"@, seq!["revert"@, p.tun_iface@]),
        command_view(r.1) == ("resolvconf"@, seq!["-d"@, p.tun_iface@ + ".openconnect"@]),
{
    let a = Args::new().arg("revert").owned(p.tun_iface.clone());
    assert(views(a.items@) =~= seq!["revert"@, p.tun_iface@]);
    let b = Args::new().arg("-d").owned(p.tun_iface.clone().concat(".openconnect"));
    assert(views(b.items@) =~= seq!["-d"@, p.tun_iface@ + ".openconnect"@]);
    (command("resolvectl", a), command("resolvconf", b))
}

/// The file recording the protected physical path of an interface.
pub fn state_file_name(iface: &str) -> (r: String)
    ensures
        r@ == "routectl-"@ + iface@ + ".json"@,
{
    String::from_str("routectl-").concat(iface).concat(".json")
}

/// `ip route <verb> ...`.
pub open spec fn is_route(v: StepView, verb: Seq<char>) -> bool {
    match v {
        StepView::Run { program, args, .. } => program == "ip"@ && args.len() >= 2 && args[0]
            == "route"@ && args[1] == verb,
        _ => false,
    }
}

/// The best-effort `ip route del` that undoes a route step.
pub open spec fn del_of(v: StepView) -> StepView {
    match v {
        StepView::Run { program, args, .. } => StepView::Run {
            program,
            args: args.update(1, "del"@),
            must_succeed: false,
        },
        _ => v,
    }
}

proof fn lemma_part_undo(a: Seq<StepView>, b: Seq<StepView>, off_a: int, off_b: int, c: Seq<StepView>, d: Seq<StepView>)
    requires
        a.len() == b.len(),
        forall|k: int| 0 <= k < a.len() ==> b[k] == del_of(#[trigger] a[k]),
        0 <= off_a,
        off_a + a.len() <= c.len(),
        0 <= off_b,
        off_b + b.len() <= d.len(),
        forall|k: int| 0 <= k < a.len() ==> c[off_a + k] == #[trigger] a[k],
        forall|k: int| 0 <= k < b.len() ==> d[off_b + k] == #[trigger] b[k],
    ensures
        forall|i: int|
            #![trigger c[i]]
            off_a <= i < off_a + a.len() ==> exists|j: int|
                #![trigger d[j]]
                0 <= j < d.len() && d[j] == del_of(c[i]),
{
    assert forall|i: int| #![trigger c[i]] off_a <= i < off_a + a.len() implies exists|j: int|
        #![trigger d[j]]
        0 <= j < d.len() && d[j] == del_of(c[i]) by {
        let k = i - off_a;
        assert(c[off_a + k] == a[k]);
        assert(d[off_b + k] == b[k]);
    }
}

proof fn lemma_literals()
    ensures
        "addr"@ != "route"@,
        "link"@ != "route"@,
        "del"@ != "replace"@,
{
    reveal_strlit("route");
    reveal_strlit("addr");
    reveal_strlit("link");
    reveal_strlit("del");
    reveal_strlit("replace");
    assert("addr"@[0] != "route"@[0]);
    assert("link"@[0] != "route"@[0]);
    assert("del"@.len() != "replace"@.len());
}

proof fn lemma_tun_not_route(p: RoutePlan)
    ensures
        forall|k: int|
            0 <= k < (tun_steps(p) + mtu_steps(p)).len() ==> !is_route(
                #[trigger] (tun_steps(p) + mtu_steps(p))[k],
                "replace"@,
            ),
{
    lemma_literals();
    let t = tun_steps(p) + mtu_steps(p);
    assert forall|k: int| 0 <= k < t.len() implies !is_route(#[trigger] t[k], "replace"@) by {
        if k < tun_steps(p).len() {
            assert(t[k] == tun_steps(p)[k]);
        } else {
            assert(t[k] == mtu_steps(p)[k - tun_steps(p).len()]);
        }
    }
}

proof fn lemma_via_undo(cidr: Seq<char>, g: Seq<char>, dv: Seq<char>)
    ensures
        via_route("del"@, cidr, g, dv, false) == del_of(via_route("replace"@, cidr, g, dv, true)),
{
    assert(seq!["route"@, "del"@, cidr, "via"@, g, "dev"@, dv] =~= seq![
        "route"@,
        "replace"@,
        cidr,
        "via"@,
        g,
        "dev"@,
        dv,
    ].update(1, "del"@));
}

proof fn lemma_dev_undo(cidr: Seq<char>, dv: Seq<char>)
    ensures
        dev_route("del"@, cidr, dv, false) == del_of(dev_route("replace"@, cidr, dv, true)),
{
    assert(seq!["route"@, "del"@, cidr, "dev"@, dv] =~= seq!["route"@, "replace"@, cidr, "dev"@, dv].update(
        1,
        "del"@,
    ));
}

proof fn lemma_gateway_undo(p: RoutePlan, ph: PhysicalState)
    ensures
        gateway_steps(p, ph, "replace"@, true).len() == gateway_steps(p, ph, "del"@, false).len(),
        forall|k: int|
            0 <= k < gateway_steps(p, ph, "replace"@, true).len() ==> gateway_steps(p, ph, "del"@, false)[k]
                == del_of(#[trigger] gateway_steps(p, ph, "replace"@, true)[k]),
{
    match (p.vpn_gateway, ph.gateway, ph.iface) {
        (Some(g), Some(pg), Some(pi)) => {
            lemma_via_undo(g@ + "/32"@, pg@, pi@);
        },
        _ => {},
    }
}

proof fn lemma_protect_undo(p: RoutePlan, ph: PhysicalState)
    ensures
        protect_steps(p, ph, "replace"@, true).len() == protect_steps(p, ph, "del"@, false).len(),
        forall|k: int|
            0 <= k < protect_steps(p, ph, "replace"@, true).len() ==> protect_steps(p, ph, "del"@, false)[k]
                == del_of(#[trigger] protect_steps(p, ph, "replace"@, true)[k]),
{
    let pr = protect_steps(p, ph, "replace"@, true);
    let pd = protect_steps(p, ph, "del"@, false);
    match (ph.gateway, ph.iface) {
        (Some(pg), Some(pi)) => {
            let lr = match ph.local_ip {
                Some(l) => seq![via_route("replace"@, l@ + "/32"@, pg@, pi@, true)],
                None => Seq::empty(),
            };
            let ld = match ph.local_ip {
                Some(l) => seq![via_route("del"@, l@ + "/32"@, pg@, pi@, false)],
                None => Seq::empty(),
            };
            let nr = match ph.local_prefix {
                Some(n) => seq![via_route("replace"@, n@, pg@, pi@, true)],
                None => Seq::empty(),
            };
            let nd = match ph.local_prefix {
                Some(n) => seq![via_route("del"@, n@, pg@, pi@, false)],
                None => Seq::empty(),
            };
            let cr = views(p.preserve_cidrs@).map_values(
                |x: Seq<char>| via_route("replace"@, x, pg@, pi@, true),
            );
            let cd = views(p.preserve_cidrs@).map_values(
                |x: Seq<char>| via_route("del"@, x, pg@, pi@, false),
            );
            assert(pr =~= lr + nr + cr);
            assert(pd =~= ld + nd + cd);
            match ph.local_ip {
                Some(l) => lemma_via_undo(l@ + "/32"@, pg@, pi@),
                None => {},
            }
            match ph.local_prefix {
                Some(n) => lemma_via_undo(n@, pg@, pi@),
                None => {},
            }
            assert forall|k: int| 0 <= k < pr.len() implies pd[k] == del_of(#[trigger] pr[k]) by {
                if k >= lr.len() + nr.len() {
                    let m = k - lr.len() - nr.len();
                    assert(pr[k] == cr[m]);
                    assert(pd[k] == cd[m]);
                    lemma_via_undo(views(p.preserve_cidrs@)[m], pg@, pi@);
                } else if k >= lr.len() {
                    assert(pr[k] == nr[k - lr.len()]);
                    assert(pd[k] == nd[k - lr.len()]);
                } else {
                    assert(pr[k] == lr[k]);
                    assert(pd[k] == ld[k]);
                }
            }
        },
        _ => {},
    }
}

proof fn lemma_split_undo(p: RoutePlan)
    ensures
        split_steps(p, "replace"@, true).len() == split_steps(p, "del"@, false).len(),
        forall|k: int|
            0 <= k < split_steps(p, "replace"@, true).len() ==> split_steps(p, "del"@, false)[k]
                == del_of(#[trigger] split_steps(p, "replace"@, true)[k]),
{
    assert forall|k: int| 0 <= k < split_steps(p, "replace"@, true).len() implies split_steps(
        p,
        "del"@,
        false,
    )[k] == del_of(#[trigger] split_steps(p, "replace"@, true)[k]) by {
        lemma_dev_undo(views(p.split_routes@)[k], p.tun_iface@);
    }
}

/// Disconnect undoes connect: for every route that `connect` adds or
/// replaces, `disconnect` deletes the same route (given the same plan and
/// physical path), ignoring failure.
pub proof fn law_disconnect_removes_connect_routes(p: RoutePlan, ph: PhysicalState)
    ensures
        forall|i: int|
            #![trigger connect_steps_of(p, ph)[i]]
            0 <= i < connect_steps_of(p, ph).len() && is_route(
                connect_steps_of(p, ph)[i],
                "replace"@,
            ) ==> exists|j: int|
                #![trigger disconnect_steps_of(p, ph)[j]]
                0 <= j < disconnect_steps_of(p, ph).len() && disconnect_steps_of(p, ph)[j]
                    == del_of(connect_steps_of(p, ph)[i]),
{
    let c = connect_steps_of(p, ph);
    let d = disconnect_steps_of(p, ph);
    let t = tun_steps(p) + mtu_steps(p);
    let gr = gateway_steps(p, ph, "replace"@, true);
    let pr = protect_steps(p, ph, "replace"@, true);
    let sr = split_steps(p, "replace"@, true);
    let sd = split_steps(p, "del"@, false);
    let gd = gateway_steps(p, ph, "del"@, false);
    let pd = protect_steps(p, ph, "del"@, false);
    let down: Seq<StepView> = match p.tun_ip {
        Some(_) => seq![run_view("ip"@, seq!["link"@, "set"@, "dev"@, p.tun_iface@, "down"@], false)],
        None => Seq::empty(),
    };
    assert(c =~= t + gr + pr + sr);
    assert(d =~= sd + gd + pd + down);
    lemma_tun_not_route(p);
    lemma_gateway_undo(p, ph);
    lemma_protect_undo(p, ph);
    lemma_split_undo(p);
    lemma_part_undo(gr, gd, t.len() as int, sd.len() as int, c, d);
    lemma_part_undo(pr, pd, (t.len() + gr.len()) as int, (sd.len() + gd.len()) as int, c, d);
    lemma_part_undo(sr, sd, (t.len() + gr.len() + pr.len()) as int, 0, c, d);
    assert forall|i: int|
        #![trigger c[i]]
        0 <= i < c.len() && is_route(c[i], "replace"@) implies exists|j: int|
            #![trigger d[j]]
            0 <= j < d.len() && d[j] == del_of(c[i]) by {
        if i < t.len() {
            assert(c[i] == t[i]);
        }
    }
}
} // verus!
