//! Route and DNS changes on macOS (`route`, `ifconfig`, `networksetup`), as
//! sequences of commands.

use vstd::prelude::*;

use crate::command::{command, command_view, push_fail, push_run, run_view, steps_view, Args, Command, Step, StepView};
use crate::error::{error_detail, error_prefix, Error};
use crate::ipv4::{
    dot_fields, dotted, dotted_string, lemma_dotted_fields, lemma_mask_value, lemma_pow2_32,
    mask_of, mask_value,
};
use crate::linux::{dns_wanted, first_index, find_word, Phase};
use crate::plan::{
    law_netmask_prefix_unique, netmask_denotes, octets_ok, octets_value, short_prefix, RoutePlan,
};
use crate::text::{
    chars_of, clone_opt, decimal, decimal_string, eq_str, find_char, first_char, lines_of,
    opt_view, parse_bounded, parse_unsigned, slice_chars, split_chars, starts_with, string_of,
    trim, trim_chars, views, words, words_of, matches_at, find_from, occurs_at, all_digits,
    digit_char, is_digit, lemma_decimal_digits, lemma_parse_decimal, unsigned_digits,
};

verus! {

pub open spec fn macos_phase(reason: Seq<char>) -> Option<Phase> {
    if reason == "pre-init"@ {
        Some(Phase::PreInit)
    } else if reason == "connect"@ || reason == "reconnect"@ || reason == "attempt-reconnect"@ {
        Some(Phase::Connect)
    } else if reason == "disconnect"@ {
        Some(Phase::Disconnect)
    } else {
        None
    }
}

/// The phase for a vpnc-script reason (`attempt-reconnect` connects too);
/// any other reason is an error.
pub fn apply(plan: &RoutePlan) -> (r: Result<Phase, Error>)
    ensures
        match r {
            Ok(ph) => macos_phase(plan.reason@) == Some(ph),
            Err(e) => macos_phase(plan.reason@) is None && e is Route && error_detail(e)
                == "unsupported reason: "@ + plan.reason@,
        },
{
    let reason = plan.reason.as_str();
    if eq_str(reason, "pre-init") {
        Ok(Phase::PreInit)
    } else if eq_str(reason, "connect") || eq_str(reason, "reconnect") || eq_str(
        reason,
        "attempt-reconnect",
    ) {
        Ok(Phase::Connect)
    } else if eq_str(reason, "disconnect") {
        Ok(Phase::Disconnect)
    } else {
        Err(Error::Route(String::from_str("unsupported reason: ").concat(reason)))
    }
}

/// The dotted netmask of a prefix length; lengths above 32 give the full
/// mask.
pub open spec fn netmask_text(p: nat) -> Seq<char> {
    if p == 0 {
        "0.0.0.0"@
    } else if p <= 32 {
        dotted(mask_value(p))
    } else {
        "255.255.255.255"@
    }
}

pub fn prefix_to_netmask(prefix: u8) -> (r: String)
    ensures
        r@ == netmask_text(prefix as nat),
{
    if prefix == 0 {
        String::from_str("0.0.0.0")
    } else if prefix <= 32 {
        dotted_string(mask_of(prefix as u32))
    } else {
        String::from_str("255.255.255.255")
    }
}

/// `net/prefix` split into the network and its dotted netmask, or the
/// error detail.
pub open spec fn cidr_split(c: Seq<char>) -> Result<(Seq<char>, Seq<char>), Seq<char>> {
    match first_char(c, '/') {
        None => Err("bad CIDR: "@ + c),
        Some(i) => match parse_unsigned(c.skip(i + 1), 255) {
            Some(p) => if p <= 32 {
                Ok((c.take(i), netmask_text(p)))
            } else {
                Err("bad CIDR prefix: "@ + c)
            },
            None => Err("bad CIDR prefix: "@ + c),
        },
    }
}

proof fn lemma_dotted_not_short(m: nat)
    requires
        m < 4294967296,
    ensures
        short_prefix(dotted(m)) is None,
{
    let a = decimal(m / 16777216);
    lemma_decimal_digits(m / 16777216);
    let s = dotted(m);
    assert(s[0] == a[0]);
    assert(is_digit(s[0]));
    assert(unsigned_digits(s) == s);
    assert(s[a.len() as int] == '.');
    assert(!is_digit(s[a.len() as int]));
    assert(!all_digits(s));
}

/// [`prefix_to_netmask`] and `netmask_to_prefix` undo each other: the
/// netmask of a prefix length of at most 32 stands for that length and no
/// other.
pub proof fn law_netmask_round_trip(p: nat)
    requires
        p <= 32,
    ensures
        netmask_denotes(netmask_text(p), p),
        forall|q: nat| netmask_denotes(netmask_text(p), q) ==> q == p,
{
    lemma_pow2_32();
    lemma_mask_value(p);
    let m = mask_value(p);
    assert(m < 4294967296);
    if p == 0 {
        reveal_strlit("0.0.0.0");
        assert(decimal(0) == seq![digit_char(0)]);
        assert(digit_char(0) == '0');
        assert(netmask_text(p) =~= dotted(m));
    }
    assert(netmask_text(p) == dotted(m));
    lemma_dotted_not_short(m);
    lemma_dotted_fields(m);
    let f = dot_fields(dotted(m));
    lemma_parse_decimal(m / 16777216, 255);
    lemma_parse_decimal((m / 65536) % 256, 255);
    lemma_parse_decimal((m / 256) % 256, 255);
    lemma_parse_decimal(m % 256, 255);
    assert(f[0] == decimal(m / 16777216));
    assert(f[1] == decimal((m / 65536) % 256));
    assert(f[2] == decimal((m / 256) % 256));
    assert(f[3] == decimal(m % 256));
    assert(octets_ok(dotted(m)));
    assert(octets_value(dotted(m)) == m);
    assert forall|q: nat| netmask_denotes(netmask_text(p), q) implies q == p by {
        law_netmask_prefix_unique(netmask_text(p), p, q);
    }
}

/// `192.168.0.0/18` -> (`192.168.0.0`, `255.255.192.0`).
pub fn split_cidr(cidr: &str) -> (r: Result<(String, String), Error>)
    ensures
        match r {
            Ok((net, mask)) => cidr_split(cidr@) == Ok::<(Seq<char>, Seq<char>), Seq<char>>((net@, mask@)),
            Err(e) => e is Route && cidr_split(cidr@) == Err::<(Seq<char>, Seq<char>), Seq<char>>(error_detail(e)),
        },
{
    let c = chars_of(cidr);
    match find_char(c.as_slice(), '/') {
        None => Err(Error::Route(String::from_str("bad CIDR: ").concat(cidr))),
        Some(i) => {
            assert(i < c.len());
            let pc = slice_chars(c.as_slice(), i + 1, c.len());
            assert(pc@ =~= c@.skip(i + 1));
            match parse_bounded(pc.as_slice(), 255) {
                Some(p) => if p <= 32 {
                    let net = slice_chars(c.as_slice(), 0, i);
                    assert(net@ =~= c@.take(i as int));
                    Ok((string_of(net.as_slice()), prefix_to_netmask(p as u8)))
                } else {
                    Err(Error::Route(String::from_str("bad CIDR prefix: ").concat(cidr)))
                },
                None => Err(Error::Route(String::from_str("bad CIDR prefix: ").concat(cidr))),
            }
        },
    }
}

/// The physical path the VPN must not capture.
#[derive(Debug, Clone)]
pub struct PhysicalState {
    pub gateway: Option<String>,
    pub iface: Option<String>,
    pub local_ip: Option<String>,
}

/// The value of the first `field` line of `route -n get default`
/// (`gateway:`, `interface:`), lines and values trimmed, empty values
/// skipped.
pub open spec fn field_value(lines: Seq<Seq<char>>, field: Seq<char>) -> Option<Seq<char>>
    decreases lines.len(),
{
    if lines.len() == 0 {
        None
    } else {
        let l = trim(lines[0]);
        if starts_with(l, field) && trim(l.skip(field.len() as int)).len() > 0 {
            Some(trim(l.skip(field.len() as int)))
        } else {
            field_value(lines.drop_first(), field)
        }
    }
}

pub fn default_route_field(text: &str, field: &str) -> (r: Option<String>)
    ensures
        opt_view(r) == field_value(lines_of(text@), field@),
{
    let c = chars_of(text);
    let f = chars_of(field);
    let lines = split_chars(c.as_slice(), &['\n']);
    assert(seq!['\n'] =~= ['\n']@);
    let ghost lv = lines.deep_view();
    let mut k: usize = 0;
    assert(lv.skip(0) =~= lv);
    while k < lines.len()
        invariant
            lv == lines.deep_view(),
            lv == lines_of(text@),
            f@ == field@,
            k <= lv.len(),
            field_value(lv, field@) == field_value(lv.skip(k as int), field@),
        decreases lines.len() - k,
    {
        assert(lv[k as int] =~= lines@[k as int]@);
        assert(lv.skip(k as int)[0] == lv[k as int]);
        assert(lv.skip(k as int).drop_first() =~= lv.skip(k + 1));
        let l = trim_chars(lines[k].as_slice());
        if matches_at(l.as_slice(), f.as_slice(), 0) {
            let rest = slice_chars(l.as_slice(), f.len(), l.len());
            assert(rest@ =~= l@.skip(f@.len() as int));
            let v = trim_chars(rest.as_slice());
            if v.len() > 0 {
                return Some(string_of(v.as_slice()));
            }
        }
        k = k + 1;
    }
    None
}

/// The second word of the first line whose first word is `inet`
/// (`ifconfig <iface>`).
pub open spec fn inet_addr(lines: Seq<Seq<char>>) -> Option<Seq<char>>
    decreases lines.len(),
{
    if lines.len() == 0 {
        None
    } else {
        let w = words(lines[0]);
        if w.len() > 1 && w[0] == "inet"@ {
            Some(w[1])
        } else {
            inet_addr(lines.drop_first())
        }
    }
}

pub fn ifconfig_local_ip(text: &str) -> (r: Option<String>)
    ensures
        opt_view(r) == inet_addr(lines_of(text@)),
{
    let c = chars_of(text);
    let lines = split_chars(c.as_slice(), &['\n']);
    assert(seq!['\n'] =~= ['\n']@);
    let ghost lv = lines.deep_view();
    let inet = vec!['i', 'n', 'e', 't'];
    proof {
        reveal_strlit("inet");
    }
    assert(inet@ =~= "inet"@);
    let mut k: usize = 0;
    assert(lv.skip(0) =~= lv);
    while k < lines.len()
        invariant
            lv == lines.deep_view(),
            lv == lines_of(text@),
            inet@ == "inet"@,
            k <= lv.len(),
            inet_addr(lv) == inet_addr(lv.skip(k as int)),
        decreases lines.len() - k,
    {
        assert(lv[k as int] =~= lines@[k as int]@);
        assert(lv.skip(k as int)[0] == lv[k as int]);
        assert(lv.skip(k as int).drop_first() =~= lv.skip(k + 1));
        let w = words_of(lines[k].as_slice());
        if w.len() > 1 && same_chars(&w[0], &inet) {
            assert(w.deep_view()[0] =~= w@[0]@);
            assert(w.deep_view()[1] =~= w@[1]@);
            return Some(string_of(w[1].as_slice()));
        }
        proof {
            if w@.len() > 1 {
                assert(w.deep_view()[0] =~= w@[0]@);
            }
        }
        k = k + 1;
    }
    None
}

fn same_chars(a: &Vec<char>, b: &Vec<char>) -> (r: bool)
    ensures
        r == (a@ == b@),
{
    if a.len() != b.len() {
        return false;
    }
    let mut i: usize = 0;
    while i < a.len()
        invariant
            a@.len() == b@.len(),
            i <= a@.len(),
            forall|k: int| 0 <= k < i ==> a@[k] == b@[k],
        decreases a.len() - i,
    {
        if a[i] != b[i] {
            return false;
        }
        i = i + 1;
    }
    assert(a@ =~= b@);
    true
}

pub open spec fn text_of(o: Option<String>) -> Seq<char> {
    match o {
        Some(s) => s@,
        None => Seq::empty(),
    }
}

/// The override when given, otherwise the field of `route -n get default`.
pub open spec fn discovered(over: Option<String>, route_text: Option<String>, field: Seq<char>) -> Option<Seq<char>> {
    match over {
        Some(o) => Some(o@),
        None => match route_text {
            Some(t) => field_value(lines_of(t@), field),
            None => None,
        },
    }
}

pub fn discover_field(over: &Option<String>, route_text: &Option<String>, field: &str) -> (r: Option<String>)
    ensures
        opt_view(r) == discovered(*over, *route_text, field@),
{
    match over {
        Some(o) => Some(o.clone()),
        None => match route_text {
            Some(t) => default_route_field(t.as_str(), field),
            None => None,
        },
    }
}

impl PhysicalState {
    /// The physical path: gateway and interface from the plan's overrides or
    /// `route_text` (the output of `route -n get default`), the local
    /// address from `ifconfig_text` (the output of `ifconfig <iface>`).
    pub fn discover(plan: &RoutePlan, route_text: &Option<String>, ifconfig_text: &Option<String>) -> (r: PhysicalState)
        ensures
            opt_view(r.gateway) == discovered(plan.phys_gateway_override, *route_text, "gateway:"@),
            opt_view(r.iface) == discovered(plan.phys_iface_override, *route_text, "interface:"@),
            opt_view(r.local_ip) == (if r.iface is Some && ifconfig_text is Some {
                inet_addr(lines_of(text_of(*ifconfig_text)))
            } else {
                None
            }),
    {
        let gateway = discover_field(&plan.phys_gateway_override, route_text, "gateway:");
        let iface = discover_field(&plan.phys_iface_override, route_text, "interface:");
        let local_ip = match (&iface, ifconfig_text) {
            (Some(_), Some(t)) => ifconfig_local_ip(t.as_str()),
            _ => None,
        };
        PhysicalState { gateway, iface, local_ip }
    }

    /// `disconnect` uses the recorded path when it names a gateway or an
    /// interface.
    pub fn is_usable(&self) -> (r: bool)
        ensures
            r == (self.gateway is Some || self.iface is Some),
    {
        self.gateway.is_some() || self.iface.is_some()
    }
}


/// `route -n <args>`.
pub open spec fn route_run(args: Seq<Seq<char>>, must: bool) -> StepView {
    run_view("route"@, seq!["-n"@] + args, must)
}

/// The steps up to and including the first failure.
pub open spec fn upto_fail(s: Seq<StepView>) -> Seq<StepView>
    decreases s.len(),
{
    if s.len() == 0 {
        s
    } else if s[0] is Fail {
        seq![s[0]]
    } else {
        seq![s[0]] + upto_fail(s.drop_first())
    }
}

pub open spec fn has_fail(s: Seq<StepView>) -> bool {
    exists|i: int| 0 <= i < s.len() && (#[trigger] s[i]) is Fail
}

pub proof fn lemma_upto_fail_clean(a: Seq<StepView>, b: Seq<StepView>)
    requires
        !has_fail(a),
    ensures
        upto_fail(a + b) == a + upto_fail(b),
    decreases a.len(),
{
    if a.len() > 0 {
        assert(!(a[0] is Fail));
        assert(!has_fail(a.drop_first())) by {
            if has_fail(a.drop_first()) {
                let i = choose|i: int| 0 <= i < a.drop_first().len() && (#[trigger] a.drop_first()[i]) is Fail;
                assert(a[i + 1] is Fail);
            }
        }
        lemma_upto_fail_clean(a.drop_first(), b);
        assert((a + b).drop_first() =~= a.drop_first() + b);
        assert(a =~= seq![a[0]] + a.drop_first());
    } else {
        assert(a + b =~= b);
    }
}

pub proof fn lemma_upto_fail_failed(a: Seq<StepView>, b: Seq<StepView>)
    requires
        has_fail(a),
    ensures
        upto_fail(a + b) == upto_fail(a),
    decreases a.len(),
{
    if !(a[0] is Fail) {
        assert(has_fail(a.drop_first())) by {
            let i = choose|i: int| 0 <= i < a.len() && (#[trigger] a[i]) is Fail;
            assert(a.drop_first()[i - 1] is Fail);
        }
        lemma_upto_fail_failed(a.drop_first(), b);
        assert((a + b).drop_first() =~= a.drop_first() + b);
    }
}

/// One `-net` route of a CIDR through `target`, or the failure a bad CIDR
/// gives.
pub open spec fn cidr_step(c: Seq<char>, target: Seq<char>) -> StepView {
    match cidr_split(c) {
        Ok((net, mask)) => route_run(seq!["add"@, "-net"@, net, "-netmask"@, mask, target], true),
        Err(detail) => StepView::Fail { prefix: "route setup failed: "@, detail },
    }
}

/// `ifconfig <tun> <ip> <ip> netmask <mask> [mtu <mtu>] up`.
pub open spec fn mac_tun_steps(p: RoutePlan) -> Seq<StepView> {
    match (p.tun_ip, p.prefix_len) {
        (Some(ip), Some(pl)) => seq![
            run_view(
                "ifconfig"@,
                seq![p.tun_iface@, ip@, ip@, "netmask"@, netmask_text(pl as nat)] + match p.mtu {
                    Some(m) => seq!["mtu"@, decimal(m as nat)],
                    None => Seq::empty(),
                } + seq!["up"@],
                true,
            ),
        ],
        _ => Seq::empty(),
    }
}

pub open spec fn mac_gateway_steps(p: RoutePlan, ph: PhysicalState) -> Seq<StepView> {
    match (p.vpn_gateway, ph.gateway) {
        (Some(g), Some(pg)) => seq![route_run(seq!["add"@, "-host"@, g@, pg@], true)],
        _ => Seq::empty(),
    }
}

pub open spec fn mac_local_steps(ph: PhysicalState) -> Seq<StepView> {
    match (ph.gateway, ph.local_ip) {
        (Some(pg), Some(l)) => seq![route_run(seq!["add"@, "-host"@, l@, pg@], true)],
        _ => Seq::empty(),
    }
}

pub open spec fn mac_preserve_steps(p: RoutePlan, ph: PhysicalState) -> Seq<StepView> {
    match ph.gateway {
        Some(pg) => views(p.preserve_cidrs@).map_values(|c: Seq<char>| cidr_step(c, pg@)),
        None => Seq::empty(),
    }
}

pub open spec fn mac_split_steps(p: RoutePlan) -> Seq<StepView> {
    match p.tun_ip {
        Some(t) => views(p.split_routes@).map_values(|c: Seq<char>| cidr_step(c, t@)),
        None => Seq::empty(),
    }
}

/// What `connect` runs: the tun device, the gateway's host route, the local
/// address, the preserved CIDRs and the split routes; a bad CIDR ends it
/// with an error.
pub open spec fn mac_connect_steps_of(p: RoutePlan, ph: PhysicalState) -> Seq<StepView> {
    upto_fail(
        mac_tun_steps(p) + mac_gateway_steps(p, ph) + mac_local_steps(ph) + mac_preserve_steps(p, ph)
            + mac_split_steps(p),
    )
}

fn push_cidr_steps(steps: &mut Vec<Step>, cidrs: &Vec<String>, target: &String) -> (failed: bool)
    ensures
        steps_view(final(steps)@) == steps_view(old(steps)@) + upto_fail(
            views(cidrs@).map_values(|c: Seq<char>| cidr_step(c, target@)),
        ),
        failed == has_fail(views(cidrs@).map_values(|c: Seq<char>| cidr_step(c, target@))),
{
    let ghost start = steps_view(steps@);
    let ghost f = |c: Seq<char>| cidr_step(c, target@);
    let ghost all = views(cidrs@).map_values(f);
    let mut i: usize = 0;
    assert(all.take(0) =~= Seq::<StepView>::empty());
    assert(start + Seq::<StepView>::empty() =~= start);
    while i < cidrs.len()
        invariant
            i <= cidrs@.len(),
            all == views(cidrs@).map_values(f),
            start == steps_view(old(steps)@),
            f == (|c: Seq<char>| cidr_step(c, target@)),
            steps_view(steps@) == start + all.take(i as int),
            !has_fail(all.take(i as int)),
        decreases cidrs.len() - i,
    {
        assert(all[i as int] == cidr_step(cidrs@[i as int]@, target@));
        assert(all.take(i + 1) =~= all.take(i as int).push(all[i as int]));
        match split_cidr(cidrs[i].as_str()) {
            Ok((net, mask)) => {
                let args = Args::new().arg("-n").arg("add").arg("-net").owned(net).arg("-netmask").owned(
                    mask,
                ).owned(target.clone());
                assert(views(args.items@) =~= seq!["-n"@] + seq!["add"@, "-net"@, net@, "-netmask"@, mask@, target@]);
                let ghost before = steps_view(steps@);
                push_run(steps, "route", args, true);
                assert(steps_view(steps@) =~= start + all.take(i + 1));
                assert(!has_fail(all.take(i + 1))) by {
                    if has_fail(all.take(i + 1)) {
                        let j = choose|j: int| 0 <= j < all.take(i + 1).len() && (#[trigger] all.take(i + 1)[j]) is Fail;
                        if j < i {
                            assert(all.take(i as int)[j] is Fail);
                        }
                    }
                }
            },
            Err(e) => {
                assert(all[i as int] == StepView::Fail { prefix: error_prefix(e), detail: error_detail(e) });
                push_fail(steps, e);
                assert(all =~= all.take(i as int) + all.skip(i as int));
                assert(all.skip(i as int)[0] is Fail);
                assert(upto_fail(all.skip(i as int)) =~= seq![all[i as int]]);
                proof {
                    lemma_upto_fail_clean(all.take(i as int), all.skip(i as int));
                }
                assert(has_fail(all));
                assert(all.take(i as int) + seq![all[i as int]] =~= all.take(i + 1));
                assert(steps_view(steps@) =~= start + upto_fail(all));
                return true;
            },
        }
        i = i + 1;
    }
    assert(all.take(i as int) =~= all);
    proof {
        lemma_upto_fail_clean(all, Seq::empty());
        assert(all + Seq::<StepView>::empty() =~= all);
        assert(upto_fail(Seq::<StepView>::empty()) =~= Seq::<StepView>::empty());
    }
    false
}

proof fn lemma_no_fail_small(a: Seq<StepView>)
    requires
        forall|i: int| 0 <= i < a.len() ==> (#[trigger] a[i]) is Run,
    ensures
        !has_fail(a),
{
}

/// The commands that bring the tunnel's routes up, in order; a bad CIDR
/// ends the sequence with its error.
#[verifier::spinoff_prover]
#[verifier::rlimit(20)]
pub fn connect_steps(p: &RoutePlan, ph: &PhysicalState) -> (r: Vec<Step>)
    ensures
        steps_view(r@) == mac_connect_steps_of(*p, *ph),
{
    let mut steps: Vec<Step> = Vec::new();
    assert(steps_view(steps@) =~= Seq::<StepView>::empty());
    match (&p.tun_ip, p.prefix_len) {
        (Some(ip), Some(pl)) => {
            let a = Args::new().owned(p.tun_iface.clone()).owned(ip.clone()).owned(ip.clone()).arg(
                "netmask",
            ).owned(prefix_to_netmask(pl));
            let a = match p.mtu {
                Some(m) => a.arg("mtu").owned(decimal_string(m as u64)),
                None => a,
            };
            let a = a.arg("up");
            assert(views(a.items@) =~= seq![p.tun_iface@, ip@, ip@, "netmask"@, netmask_text(pl as nat)] + match p.mtu {
                Some(m) => seq!["mtu"@, decimal(m as nat)],
                None => Seq::<Seq<char>>::empty(),
            } + seq!["up"@]);
            push_run(&mut steps, "ifconfig", a, true);
        },
        _ => {},
    }
    assert(steps_view(steps@) =~= mac_tun_steps(*p));
    match (&p.vpn_gateway, &ph.gateway) {
        (Some(g), Some(pg)) => {
            let a = Args::new().arg("-n").arg("add").arg("-host").owned(g.clone()).owned(pg.clone());
            assert(views(a.items@) =~= seq!["-n"@] + seq!["add"@, "-host"@, g@, pg@]);
            push_run(&mut steps, "route", a, true);
        },
        _ => {},
    }
    assert(steps_view(steps@) =~= mac_tun_steps(*p) + mac_gateway_steps(*p, *ph));
    match (&ph.gateway, &ph.local_ip) {
        (Some(pg), Some(l)) => {
            let a = Args::new().arg("-n").arg("add").arg("-host").owned(l.clone()).owned(pg.clone());
            assert(views(a.items@) =~= seq!["-n"@] + seq!["add"@, "-host"@, l@, pg@]);
            push_run(&mut steps, "route", a, true);
        },
        _ => {},
    }
    let ghost clean = mac_tun_steps(*p) + mac_gateway_steps(*p, *ph) + mac_local_steps(*ph);
    assert(steps_view(steps@) =~= clean);
    proof {
        lemma_no_fail_small(clean);
    }
    let ghost pres = mac_preserve_steps(*p, *ph);
    let ghost spl = mac_split_steps(*p);
    assert(clean + pres + spl =~= clean + (pres + spl));
    proof {
        lemma_upto_fail_clean(clean, pres + spl);
    }
    match &ph.gateway {
        Some(pg) => {
            if push_cidr_steps(&mut steps, &p.preserve_cidrs, pg) {
                proof {
                    lemma_upto_fail_failed(pres, spl);
                }
                return steps;
            }
        },
        None => {
            assert(pres =~= Seq::<StepView>::empty());
            assert(upto_fail(pres) =~= pres);
        },
    }
    assert(!has_fail(pres));
    proof {
        lemma_upto_fail_clean(pres, spl);
        lemma_upto_fail_clean(clean, pres);
        assert(upto_fail(Seq::<StepView>::empty()) =~= Seq::<StepView>::empty());
        assert(pres + Seq::<StepView>::empty() =~= pres);
        lemma_upto_fail_clean(pres, Seq::empty());
    }
    assert(steps_view(steps@) =~= clean + pres);
    match &p.tun_ip {
        Some(t) => {
            push_cidr_steps(&mut steps, &p.split_routes, t);
        },
        None => {
            assert(spl =~= Seq::<StepView>::empty());
            assert(upto_fail(spl) =~= spl);
        },
    }
    assert(steps_view(steps@) =~= clean + (pres + upto_fail(spl)));
    steps
}

/// With the physical gateway known and every preserved CIDR well formed,
/// `connect` routes each preserved CIDR through the physical gateway:
/// `route -n add -net <net> -netmask <mask> <gateway>`.
pub proof fn law_mac_connect_routes_every_preserved_cidr(p: RoutePlan, ph: PhysicalState, k: int)
    requires
        ph.gateway is Some,
        forall|j: int|
            0 <= j < p.preserve_cidrs@.len() ==> (#[trigger] cidr_split(p.preserve_cidrs@[j]@)) is Ok,
        0 <= k < p.preserve_cidrs@.len(),
    ensures
        match cidr_split(p.preserve_cidrs@[k]@) {
            Ok((net, mask)) => exists|j: int|
                0 <= j < mac_connect_steps_of(p, ph).len() && #[trigger] mac_connect_steps_of(p, ph)[j]
                    == run_view(
                    "route"@,
                    seq!["-n"@, "add"@, "-net"@, net, "-netmask"@, mask, ph.gateway->0@],
                    true,
                ),
            Err(_) => false,
        },
{
    let pg = ph.gateway->0;
    let clean = mac_tun_steps(p) + mac_gateway_steps(p, ph) + mac_local_steps(ph);
    let pres = mac_preserve_steps(p, ph);
    let spl = mac_split_steps(p);
    lemma_no_fail_small(clean);
    assert forall|i: int| 0 <= i < pres.len() implies !(#[trigger] pres[i] is Fail) by {
        assert(pres[i] == cidr_step(views(p.preserve_cidrs@)[i], pg@));
        assert(views(p.preserve_cidrs@)[i] == p.preserve_cidrs@[i]@);
        assert(cidr_split(p.preserve_cidrs@[i]@) is Ok);
    }
    assert forall|i: int| 0 <= i < (clean + pres).len() implies !(#[trigger] (clean + pres)[i] is Fail) by {
        if i >= clean.len() {
            assert((clean + pres)[i] == pres[i - clean.len()]);
        } else {
            assert(!has_fail(clean));
            assert(!(clean[i] is Fail));
        }
    }
    lemma_upto_fail_clean(clean + pres, spl);
    let all = mac_connect_steps_of(p, ph);
    assert(all == (clean + pres) + upto_fail(spl));
    let j = clean.len() + k;
    assert(all[j] == pres[k]);
    assert(views(p.preserve_cidrs@)[k] == p.preserve_cidrs@[k]@);
    assert(pres[k] == cidr_step(p.preserve_cidrs@[k]@, pg@));
    match cidr_split(p.preserve_cidrs@[k]@) {
        Ok((net, mask)) => {
            assert(seq!["-n"@] + seq!["add"@, "-net"@, net, "-netmask"@, mask, pg@] =~= seq![
                "-n"@,
                "add"@,
                "-net"@,
                net,
                "-netmask"@,
                mask,
                pg@,
            ]);
            assert(all[j] == run_view(
                "route"@,
                seq!["-n"@, "add"@, "-net"@, net, "-netmask"@, mask, pg@],
                true,
            ));
        },
        Err(_) => {},
    }
}

/// With the tunnel address known and every CIDR well formed, `connect`
/// sends each split route into the tunnel:
/// `route -n add -net <net> -netmask <mask> <tunnel address>`.
pub proof fn law_mac_connect_routes_every_split_route(p: RoutePlan, ph: PhysicalState, k: int)
    requires
        p.tun_ip is Some,
        forall|j: int|
            0 <= j < p.preserve_cidrs@.len() ==> (#[trigger] cidr_split(p.preserve_cidrs@[j]@)) is Ok,
        forall|j: int|
            0 <= j < p.split_routes@.len() ==> (#[trigger] cidr_split(p.split_routes@[j]@)) is Ok,
        0 <= k < p.split_routes@.len(),
    ensures
        match cidr_split(p.split_routes@[k]@) {
            Ok((net, mask)) => exists|j: int|
                0 <= j < mac_connect_steps_of(p, ph).len() && #[trigger] mac_connect_steps_of(p, ph)[j]
                    == run_view(
                    "route"@,
                    seq!["-n"@, "add"@, "-net"@, net, "-netmask"@, mask, p.tun_ip->0@],
                    true,
                ),
            Err(_) => false,
        },
{
    let t = p.tun_ip->0;
    let clean = mac_tun_steps(p) + mac_gateway_steps(p, ph) + mac_local_steps(ph);
    let pres = mac_preserve_steps(p, ph);
    let spl = mac_split_steps(p);
    lemma_no_fail_small(clean);
    assert forall|i: int| 0 <= i < pres.len() implies !(#[trigger] pres[i] is Fail) by {
        assert(pres[i] == cidr_step(views(p.preserve_cidrs@)[i], ph.gateway->0@));
        assert(views(p.preserve_cidrs@)[i] == p.preserve_cidrs@[i]@);
        assert(cidr_split(p.preserve_cidrs@[i]@) is Ok);
    }
    assert forall|i: int| 0 <= i < spl.len() implies !(#[trigger] spl[i] is Fail) by {
        assert(spl[i] == cidr_step(views(p.split_routes@)[i], t@));
        assert(views(p.split_routes@)[i] == p.split_routes@[i]@);
        assert(cidr_split(p.split_routes@[i]@) is Ok);
    }
    let all3 = clean + pres + spl;
    assert forall|i: int| 0 <= i < all3.len() implies !(#[trigger] all3[i] is Fail) by {
        if i >= clean.len() + pres.len() {
            assert(all3[i] == spl[i - clean.len() - pres.len()]);
        } else if i >= clean.len() {
            assert(all3[i] == pres[i - clean.len()]);
        } else {
            assert(!has_fail(clean));
            assert(!(clean[i] is Fail));
        }
    }
    lemma_upto_fail_clean(all3, Seq::empty());
    assert(all3 + Seq::<StepView>::empty() =~= all3);
    let all = mac_connect_steps_of(p, ph);
    assert(all == all3);
    let j = clean.len() + pres.len() + k;
    assert(all[j] == spl[k]);
    assert(views(p.split_routes@)[k] == p.split_routes@[k]@);
    assert(spl[k] == cidr_step(p.split_routes@[k]@, t@));
    match cidr_split(p.split_routes@[k]@) {
        Ok((net, mask)) => {
            assert(seq!["-n"@] + seq!["add"@, "-net"@, net, "-netmask"@, mask, t@] =~= seq![
                "-n"@,
                "add"@,
                "-net"@,
                net,
                "-netmask"@,
                mask,
                t@,
            ]);
            assert(all[j] == run_view(
                "route"@,
                seq!["-n"@, "add"@, "-net"@, net, "-netmask"@, mask, t@],
                true,
            ));
        },
        Err(_) => {},
    }
}

/// `route -n delete -host <gateway>` for the VPN gateway, when known.
pub open spec fn mac_pre_init_steps_of(p: RoutePlan) -> Seq<StepView> {
    match p.vpn_gateway {
        Some(g) => seq![route_run(seq!["delete"@, "-host"@, g@], false)],
        None => Seq::empty(),
    }
}

/// A previous engine may have died without its disconnect phase; its host
/// route for the VPN gateway can point at an unreachable old next hop, so it
/// is deleted before openconnect connects.
pub fn pre_init_steps(p: &RoutePlan) -> (r: Vec<Step>)
    ensures
        steps_view(r@) == mac_pre_init_steps_of(*p),
{
    let mut steps: Vec<Step> = Vec::new();
    assert(steps_view(steps@) =~= Seq::<StepView>::empty());
    match &p.vpn_gateway {
        Some(g) => {
            let a = Args::new().arg("-n").arg("delete").arg("-host").owned(g.clone());
            assert(views(a.items@) =~= seq!["-n"@] + seq!["delete"@, "-host"@, g@]);
            push_run(&mut steps, "route", a, false);
        },
        None => {},
    }
    assert(steps_view(steps@) =~= mac_pre_init_steps_of(*p));
    steps
}

/// The network and mask of a CIDR, both empty when it is bad.
pub open spec fn cidr_or_empty(c: Seq<char>) -> (Seq<char>, Seq<char>) {
    match cidr_split(c) {
        Ok(x) => x,
        Err(_) => (Seq::empty(), Seq::empty()),
    }
}

pub open spec fn del_net(c: Seq<char>, t: Seq<char>) -> StepView {
    route_run(seq!["delete"@, "-net"@, cidr_or_empty(c).0, "-netmask"@, cidr_or_empty(c).1, t], false)
}

/// What `disconnect` runs, every failure ignored: the gateway and local
/// host routes, the split routes, and the tun device down.
pub open spec fn mac_disconnect_steps_of(p: RoutePlan, ph: PhysicalState) -> Seq<StepView> {
    mac_pre_init_steps_of(p) + match ph.local_ip {
        Some(l) => seq![route_run(seq!["delete"@, "-host"@, l@], false)],
        None => Seq::empty(),
    } + match p.tun_ip {
        Some(t) => views(p.split_routes@).map_values(|c: Seq<char>| del_net(c, t@)) + seq![
            run_view("ifconfig"@, seq![p.tun_iface@, "down"@], false),
        ],
        None => Seq::empty(),
    }
}

/// A route that `connect` adds (`route -n add ...`).
pub open spec fn is_mac_add(s: StepView) -> bool {
    match s {
        StepView::Run { program, args, .. } => program == "route"@ && args.len() >= 2 && args[0]
            == "-n"@ && args[1] == "add"@,
        _ => false,
    }
}

/// The deletion of an added route: a host route by its destination alone,
/// a network route with its mask and gateway.
pub open spec fn mac_delete_of(s: StepView) -> StepView {
    match s {
        StepView::Run { args, .. } => if args.len() == 5 && args[2] == "-host"@ {
            route_run(seq!["delete"@, "-host"@, args[3]], false)
        } else {
            route_run(seq!["delete"@] + args.skip(2), false)
        },
        _ => s,
    }
}

proof fn lemma_upto_fail_prefix(x: Seq<StepView>)
    ensures
        upto_fail(x).len() <= x.len(),
        forall|i: int| 0 <= i < upto_fail(x).len() ==> upto_fail(x)[i] == x[i],
    decreases x.len(),
{
    if x.len() > 0 && !(x[0] is Fail) {
        lemma_upto_fail_prefix(x.drop_first());
        let r = upto_fail(x.drop_first());
        assert(upto_fail(x) == seq![x[0]] + r);
        assert forall|i: int| 0 <= i < upto_fail(x).len() implies upto_fail(x)[i] == x[i] by {
            if i > 0 {
                assert(upto_fail(x)[i] == r[i - 1]);
                assert(x.drop_first()[i - 1] == x[i]);
            }
        }
    } else if x.len() > 0 {
        assert(upto_fail(x) == seq![x[0]]);
    }
}

/// The host route `disconnect` deletes for the local address.
pub open spec fn mac_local_delete(ph: PhysicalState) -> Seq<StepView> {
    match ph.local_ip {
        Some(x) => seq![route_run(seq!["delete"@, "-host"@, x@], false)],
        None => Seq::empty(),
    }
}

/// The split routes `disconnect` deletes, and the tun device down.
pub open spec fn mac_tun_down(p: RoutePlan) -> Seq<StepView> {
    match p.tun_ip {
        Some(x) => views(p.split_routes@).map_values(|q: Seq<char>| del_net(q, x@)) + seq![
            run_view("ifconfig"@, seq![p.tun_iface@, "down"@], false),
        ],
        None => Seq::empty(),
    }
}

proof fn lemma_mac_tun_not_add(p: RoutePlan)
    ensures
        forall|k: int| 0 <= k < mac_tun_steps(p).len() ==> !is_mac_add(#[trigger] mac_tun_steps(p)[k]),
{
    reveal_strlit("route");
    reveal_strlit("ifconfig");
    assert("route"@ != "ifconfig"@) by {
        assert("route"@[0] != "ifconfig"@[0]);
    }
}

proof fn lemma_mac_gateway_undone(p: RoutePlan, ph: PhysicalState)
    ensures
        mac_gateway_steps(p, ph).len() > 0 ==> mac_gateway_steps(p, ph).len() == 1
            && mac_pre_init_steps_of(p).len() == 1 && mac_pre_init_steps_of(p)[0] == mac_delete_of(
            mac_gateway_steps(p, ph)[0],
        ),
{
    reveal_strlit("-host");
    match (p.vpn_gateway, ph.gateway) {
        (Some(g), Some(pg)) => {
            let a = seq!["-n"@] + seq!["add"@, "-host"@, g@, pg@];
            assert(a =~= seq!["-n"@, "add"@, "-host"@, g@, pg@]);
            assert(a.len() == 5 && a[2] == "-host"@ && a[3] == g@);
        },
        _ => {},
    }
}

proof fn lemma_mac_local_undone(ph: PhysicalState)
    ensures
        mac_local_steps(ph).len() > 0 ==> mac_local_steps(ph).len() == 1 && mac_local_delete(ph).len()
            == 1 && mac_local_delete(ph)[0] == mac_delete_of(mac_local_steps(ph)[0]),
{
    reveal_strlit("-host");
    match (ph.gateway, ph.local_ip) {
        (Some(pg), Some(l)) => {
            let a = seq!["-n"@] + seq!["add"@, "-host"@, l@, pg@];
            assert(a =~= seq!["-n"@, "add"@, "-host"@, l@, pg@]);
            assert(a.len() == 5 && a[2] == "-host"@ && a[3] == l@);
        },
        _ => {},
    }
}

proof fn lemma_mac_split_undone(p: RoutePlan, k: int)
    requires
        0 <= k < mac_split_steps(p).len(),
        is_mac_add(mac_split_steps(p)[k]),
    ensures
        k < mac_tun_down(p).len(),
        mac_tun_down(p)[k] == mac_delete_of(mac_split_steps(p)[k]),
{
    reveal_strlit("-host");
    reveal_strlit("-net");
    match p.tun_ip {
        Some(x) => {
            let q = views(p.split_routes@)[k];
            assert(mac_split_steps(p)[k] == cidr_step(q, x@));
            match cidr_split(q) {
                Ok((net, mask)) => {
                    let a = seq!["-n"@] + seq!["add"@, "-net"@, net, "-netmask"@, mask, x@];
                    assert(a =~= seq!["-n"@, "add"@, "-net"@, net, "-netmask"@, mask, x@]);
                    assert(a.len() == 7);
                    assert(a.skip(2) =~= seq!["-net"@, net, "-netmask"@, mask, x@]);
                    assert(seq!["delete"@] + a.skip(2) =~= seq!["delete"@, "-net"@, net, "-netmask"@, mask, x@]);
                    assert(mac_tun_down(p)[k] == del_net(q, x@));
                },
                Err(_) => {},
            }
        },
        None => {},
    }
}

/// Disconnect removes what connect routed on macOS: the VPN gateway's and
/// the local address's host routes and every split route, when no CIDR is
/// preserved (routes to preserved CIDRs stay after a disconnect).
pub proof fn law_mac_disconnect_removes_connect_routes(p: RoutePlan, ph: PhysicalState)
    requires
        p.preserve_cidrs@.len() == 0,
    ensures
        forall|i: int|
            #![trigger mac_connect_steps_of(p, ph)[i]]
            0 <= i < mac_connect_steps_of(p, ph).len() && is_mac_add(mac_connect_steps_of(p, ph)[i])
                ==> exists|j: int|
                #![trigger mac_disconnect_steps_of(p, ph)[j]]
                0 <= j < mac_disconnect_steps_of(p, ph).len() && mac_disconnect_steps_of(p, ph)[j]
                    == mac_delete_of(mac_connect_steps_of(p, ph)[i]),
{
    let t = mac_tun_steps(p);
    let g = mac_gateway_steps(p, ph);
    let l = mac_local_steps(ph);
    let pr = mac_preserve_steps(p, ph);
    let s = mac_split_steps(p);
    let all = t + g + l + pr + s;
    let c = mac_connect_steps_of(p, ph);
    let d = mac_disconnect_steps_of(p, ph);
    let pre = mac_pre_init_steps_of(p);
    let loc = mac_local_delete(ph);
    let tail = mac_tun_down(p);
    assert(d =~= pre + loc + tail);
    assert(pr =~= Seq::<StepView>::empty()) by {
        match ph.gateway {
            Some(pg) => {
                assert(views(p.preserve_cidrs@) =~= Seq::<Seq<char>>::empty());
            },
            None => {},
        }
    }
    assert(all =~= t + g + l + s);
    lemma_upto_fail_prefix(all);
    lemma_mac_tun_not_add(p);
    lemma_mac_gateway_undone(p, ph);
    lemma_mac_local_undone(ph);
    assert forall|i: int|
        #![trigger c[i]]
        0 <= i < c.len() && is_mac_add(c[i]) implies exists|j: int|
            #![trigger d[j]]
            0 <= j < d.len() && d[j] == mac_delete_of(c[i]) by {
        assert(c[i] == all[i]);
        if i < t.len() {
            assert(all[i] == t[i]);
        } else if i < t.len() + g.len() {
            assert(all[i] == g[i - t.len()]);
            assert(d[0] == pre[0]);
        } else if i < t.len() + g.len() + l.len() {
            assert(all[i] == l[i - t.len() - g.len()]);
            assert(d[pre.len() as int] == loc[0]);
        } else {
            let k = i - t.len() - g.len() - l.len();
            assert(all[i] == s[k]);
            lemma_mac_split_undone(p, k);
            assert(d[pre.len() + loc.len() + k] == tail[k]);
        }
    }
}

pub fn disconnect_steps(p: &RoutePlan, ph: &PhysicalState) -> (r: Vec<Step>)
    ensures
        steps_view(r@) == mac_disconnect_steps_of(*p, *ph),
{
    let mut steps = pre_init_steps(p);
    let ghost s0 = steps_view(steps@);
    match &ph.local_ip {
        Some(l) => {
            let a = Args::new().arg("-n").arg("delete").arg("-host").owned(l.clone());
            assert(views(a.items@) =~= seq!["-n"@] + seq!["delete"@, "-host"@, l@]);
            push_run(&mut steps, "route", a, false);
        },
        None => {},
    }
    let ghost s1 = steps_view(steps@);
    match &p.tun_ip {
        Some(t) => {
            let ghost f = |c: Seq<char>| del_net(c, t@);
            let ghost all = views(p.split_routes@).map_values(f);
            let mut i: usize = 0;
            assert(all.take(0) =~= Seq::<StepView>::empty());
            assert(s1 + Seq::<StepView>::empty() =~= s1);
            while i < p.split_routes.len()
                invariant
                    i <= p.split_routes@.len(),
                    all == views(p.split_routes@).map_values(f),
                    f == (|c: Seq<char>| del_net(c, t@)),
                    steps_view(steps@) == s1 + all.take(i as int),
                decreases p.split_routes.len() - i,
            {
                let (net, mask) = match split_cidr(p.split_routes[i].as_str()) {
                    Ok(x) => x,
                    Err(_) => (String::new(), String::new()),
                };
                assert(net@ == cidr_or_empty(p.split_routes@[i as int]@).0);
                assert(mask@ == cidr_or_empty(p.split_routes@[i as int]@).1);
                let a = Args::new().arg("-n").arg("delete").arg("-net").owned(net).arg("-netmask").owned(
                    mask,
                ).owned(t.clone());
                assert(views(a.items@) =~= seq!["-n"@] + seq![
                    "delete"@,
                    "-net"@,
                    cidr_or_empty(p.split_routes@[i as int]@).0,
                    "-netmask"@,
                    cidr_or_empty(p.split_routes@[i as int]@).1,
                    t@,
                ]);
                push_run(&mut steps, "route", a, false);
                assert(all.take(i + 1) =~= all.take(i as int).push(all[i as int]));
                i = i + 1;
            }
            assert(all.take(i as int) =~= all);
            let a = Args::new().owned(p.tun_iface.clone()).arg("down");
            assert(views(a.items@) =~= seq![p.tun_iface@, "down"@]);
            push_run(&mut steps, "ifconfig", a, false);
        },
        None => {},
    }
    assert(steps_view(steps@) =~= mac_disconnect_steps_of(*p, *ph));
    steps
}

/// The interface whose network service gets the VPN's DNS servers: only
/// when DNS is wanted and the physical interface is known.
pub fn dns_iface(p: &RoutePlan, ph: &PhysicalState) -> (r: Option<String>)
    ensures
        opt_view(r) == (if dns_wanted(*p) {
            opt_view(ph.iface)
        } else {
            None
        }),
{
    if eq_str(p.dns_mode.as_str(), "ignore") || p.dns.len() == 0 {
        return None;
    }
    clone_opt(&ph.iface)
}

/// On macOS the VPN's DNS servers go to the physical interface's service
/// exactly when the mode is not `ignore`, at least one server is given and
/// the interface is known.
pub proof fn law_mac_dns_applied_when_servers_given(p: RoutePlan, ph: PhysicalState, r: Option<String>)
    requires
        opt_view(r) == (if dns_wanted(p) {
            opt_view(ph.iface)
        } else {
            None
        }),
    ensures
        r is Some <==> (p.dns_mode@ != "ignore"@ && p.dns@.len() >= 1 && ph.iface is Some),
        r is Some ==> r->0@ == ph.iface->0@,
{
}

/// `networksetup -setdnsservers <service> <servers...>`.
pub fn dns_set_command(service: &str, dns: &Vec<String>) -> (r: Command)
    ensures
        command_view(r) == ("networksetup"@, seq!["-setdnsservers"@, service@] + views(dns@)),
{
    let a = Args::new().arg("-setdnsservers").arg(service).all(dns);
    assert(views(a.items@) =~= seq!["-setdnsservers"@, service@] + views(dns@));
    command("networksetup", a)
}

/// `networksetup -setdnsservers <service> empty`.
pub fn dns_clear_command(service: &str) -> (r: Command)
    ensures
        command_view(r) == ("networksetup"@, seq!["-setdnsservers"@, service@, "empty"@]),
{
    let a = Args::new().arg("-setdnsservers").arg(service).arg("empty");
    assert(views(a.items@) =~= seq!["-setdnsservers"@, service@, "empty"@]);
    command("networksetup", a)
}

/// The index of the first occurrence of `p` in `s`.
pub open spec fn first_occ(s: Seq<char>, p: Seq<char>) -> Option<int>
    decreases s.len(),
{
    if occurs_at(s, p, 0) {
        Some(0)
    } else if s.len() == 0 {
        None
    } else {
        match first_occ(s.drop_first(), p) {
            Some(i) => Some(i + 1),
            None => None,
        }
    }
}

proof fn lemma_occurs_drop_first(s: Seq<char>, p: Seq<char>, j: int)
    requires
        s.len() > 0,
        j >= 0,
    ensures
        occurs_at(s, p, j + 1) == occurs_at(s.drop_first(), p, j),
{
    if j + 1 + p.len() <= s.len() {
        assert(s.subrange(j + 1, j + 1 + p.len()) =~= s.drop_first().subrange(j, j + p.len()));
    }
}

proof fn lemma_first_occ(s: Seq<char>, p: Seq<char>, i: int)
    requires
        0 <= i,
        occurs_at(s, p, i),
        forall|j: int| 0 <= j < i ==> !occurs_at(s, p, j),
    ensures
        first_occ(s, p) == Some(i),
    decreases s.len(),
{
    if i > 0 {
        assert(!occurs_at(s, p, 0));
        assert(s.len() > 0);
        lemma_occurs_drop_first(s, p, i - 1);
        assert forall|j: int| 0 <= j < i - 1 implies !occurs_at(s.drop_first(), p, j) by {
            lemma_occurs_drop_first(s, p, j);
        }
        lemma_first_occ(s.drop_first(), p, i - 1);
    }
}

proof fn lemma_no_occ(s: Seq<char>, p: Seq<char>)
    requires
        forall|j: int| 0 <= j ==> !occurs_at(s, p, j),
    ensures
        first_occ(s, p) is None,
    decreases s.len(),
{
    assert(!occurs_at(s, p, 0));
    if s.len() > 0 {
        assert forall|j: int| 0 <= j implies !occurs_at(s.drop_first(), p, j) by {
            lemma_occurs_drop_first(s, p, j);
        }
        lemma_no_occ(s.drop_first(), p);
    }
}

fn find_first(s: &[char], p: &[char]) -> (r: Option<usize>)
    ensures
        match r {
            Some(i) => first_occ(s@, p@) == Some(i as int) && i + p@.len() <= s@.len(),
            None => first_occ(s@, p@) is None,
        },
{
    match find_from(s, p, 0) {
        Some(i) => {
            proof {
                lemma_first_occ(s@, p@, i as int);
            }
            Some(i)
        },
        None => {
            proof {
                lemma_no_occ(s@, p@);
            }
            None
        },
    }
}

pub open spec fn device_key() -> Seq<char> {
    seq!['D', 'e', 'v', 'i', 'c', 'e', ':']
}

pub open spec fn hardware_port_key() -> Seq<char> {
    "Hardware Port:"@
}

/// The text between the first and the second `Device:` of `inner`
/// (`str::split("Device:").nth(1)`), trimmed; empty when there is none.
pub open spec fn device_of(inner: Seq<char>) -> Seq<char> {
    match first_occ(inner, device_key()) {
        Some(k) => {
            let rest = inner.skip(k + 7);
            trim(
                match first_occ(rest, device_key()) {
                    Some(m) => rest.take(m),
                    None => rest,
                },
            )
        },
        None => Seq::empty(),
    }
}

/// Scans `networksetup -listnetworkserviceorder`: a `(n) Service` line names
/// the current service, a `(Hardware Port: ..., Device: dev)` line ends the
/// scan with it when `dev` is `iface`.
pub open spec fn service_scan(lines: Seq<Seq<char>>, iface: Seq<char>, cur: Option<Seq<char>>) -> Option<Seq<char>>
    decreases lines.len(),
{
    if lines.len() == 0 {
        None
    } else {
        let line = trim(lines[0]);
        if line.len() > 0 && line[0] == '(' {
            let rest = line.drop_first();
            match first_char(rest, ')') {
                None => service_scan(lines.drop_first(), iface, cur),
                Some(c) => {
                    let inner = trim(rest.take(c));
                    let after = trim(rest.skip(c + 1));
                    if starts_with(inner, hardware_port_key()) {
                        if device_of(inner) == iface {
                            cur
                        } else {
                            service_scan(lines.drop_first(), iface, cur)
                        }
                    } else {
                        service_scan(lines.drop_first(), iface, Some(after))
                    }
                },
            }
        } else {
            service_scan(lines.drop_first(), iface, cur)
        }
    }
}

fn device_chars(inner: &Vec<char>) -> (r: Vec<char>)
    ensures
        r@ == device_of(inner@),
{
    let key = vec!['D', 'e', 'v', 'i', 'c', 'e', ':'];
    assert(key@ =~= device_key());
    match find_first(inner.as_slice(), key.as_slice()) {
        Some(k) => {
            assert(key@.len() == 7);
            let n = inner.len();
            assert(k + 7 <= n);
            let rest = slice_chars(inner.as_slice(), k + 7, n);
            assert(rest@ =~= inner@.skip(k + 7));
            let piece = match find_first(rest.as_slice(), key.as_slice()) {
                Some(m) => {
                    let x = slice_chars(rest.as_slice(), 0, m);
                    assert(x@ =~= rest@.take(m as int));
                    x
                },
                None => {
                    let x = slice_chars(rest.as_slice(), 0, rest.len());
                    assert(x@ =~= rest@);
                    x
                },
            };
            trim_chars(piece.as_slice())
        },
        None => Vec::new(),
    }
}

/// Finds the networksetup service bound to an interface (`en0` -> `Wi-Fi`).
pub fn parse_service_order(text: &str, iface: &str) -> (r: Option<String>)
    ensures
        opt_view(r) == service_scan(lines_of(text@), iface@, None),
{
    let c = chars_of(text);
    let ic = chars_of(iface);
    let lines = split_chars(c.as_slice(), &['\n']);
    assert(seq!['\n'] =~= ['\n']@);
    let ghost lv = lines.deep_view();
    let hp = chars_of("Hardware Port:");
    let mut current: Option<Vec<char>> = None;
    let mut k: usize = 0;
    assert(lv.skip(0) =~= lv);
    while k < lines.len()
        invariant
            lv == lines.deep_view(),
            lv == lines_of(text@),
            ic@ == iface@,
            hp@ == hardware_port_key(),
            k <= lv.len(),
            service_scan(lv, iface@, None) == service_scan(
                lv.skip(k as int),
                iface@,
                match current {
                    Some(v) => Some(v@),
                    None => None,
                },
            ),
        decreases lines.len() - k,
    {
        assert(lv[k as int] =~= lines@[k as int]@);
        assert(lv.skip(k as int)[0] == lv[k as int]);
        assert(lv.skip(k as int).drop_first() =~= lv.skip(k + 1));
        let line = trim_chars(lines[k].as_slice());
        if line.len() > 0 && line[0] == '(' {
            let rest = slice_chars(line.as_slice(), 1, line.len());
            assert(rest@ =~= line@.drop_first());
            match find_char(rest.as_slice(), ')') {
                None => {},
                Some(close) => {
                    let head = slice_chars(rest.as_slice(), 0, close);
                    assert(head@ =~= rest@.take(close as int));
                    let inner = trim_chars(head.as_slice());
                    let tail = slice_chars(rest.as_slice(), close + 1, rest.len());
                    assert(tail@ =~= rest@.skip(close + 1));
                    let after = trim_chars(tail.as_slice());
                    if matches_at(inner.as_slice(), hp.as_slice(), 0) {
                        let dev = device_chars(&inner);
                        if same_chars(&dev, &ic) {
                            return match current {
                                Some(v) => Some(string_of(v.as_slice())),
                                None => None,
                            };
                        }
                    } else {
                        current = Some(after);
                    }
                },
            }
        }
        k = k + 1;
    }
    None
}
} // verus!
