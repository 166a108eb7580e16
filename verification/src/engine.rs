//! The engine's decisions around libopenconnect: which strings it can hand
//! over, what each call's return code means, what the main loop's return
//! does to the session, and what the tunnel was set up with. The daemon
//! makes the calls and reports their results here.

use vstd::prelude::*;

use crate::config::{Config, ConfigView, DnsMode, NetworkConfig};
use crate::error::{error_detail, Error};
use crate::state::{SessionInfo, SessionInfoView, SessionState};
use crate::plan::{cidr_separators, plan_dns_mode, plan_preserve, PlanVars};
use crate::text::{
    chars_of, decimal, decimal_string, in_set, lemma_split_at_separator,
    lemma_split_without_separator, nonempty_pred, opt_view, split_by, views,
};

verus! {

/// An integer in decimal, with a leading `-` when negative (Rust's
/// `Display` for signed integers).
pub open spec fn signed_decimal(i: int) -> Seq<char> {
    if i < 0 {
        seq!['-'] + decimal((-i) as nat)
    } else {
        decimal(i as nat)
    }
}

pub fn signed_decimal_string(i: i32) -> (r: String)
    ensures
        r@ == signed_decimal(i as int),
{
    if i < 0 {
        let wide: i64 = i as i64;
        let m: u64 = (0i64 - wide) as u64;
        let d = decimal_string(m);
        let r = String::from_str("-").concat(d.as_str());
        proof {
            reveal_strlit("-");
            assert(r@ =~= seq!['-'] + decimal((-(i as int)) as nat));
        }
        r
    } else {
        decimal_string(i as u64)
    }
}

/// The detail of the error a string with a NUL character gives: C cannot
/// receive it.
pub open spec fn nul_error() -> Seq<char> {
    "string contains NUL"@
}

/// A string libopenconnect can receive as a C string.
pub open spec fn c_compatible(s: Seq<char>) -> bool {
    !s.contains('\0')
}

/// Checks that `s` can be handed to C.
pub fn cstring_check(s: &str) -> (r: Result<(), Error>)
    ensures
        r is Ok <==> c_compatible(s@),
        r is Err ==> r->Err_0 is OpenConnect && error_detail(r->Err_0) == nul_error(),
{
    let c = chars_of(s);
    let mut i: usize = 0;
    while i < c.len()
        invariant
            c@ == s@,
            i <= c@.len(),
            forall|j: int| 0 <= j < i ==> c@[j] != '\0',
        decreases c.len() - i,
    {
        if c[i] == '\0' {
            return Err(Error::OpenConnect(String::from_str("string contains NUL")));
        }
        i = i + 1;
    }
    Ok(())
}

/// The script, or the empty string when there is none.
pub open spec fn script_text(s: Option<String>) -> Seq<char> {
    match s {
        Some(t) => t@,
        None => Seq::empty(),
    }
}

/// Every string the engine hands to libopenconnect can be a C string.
pub open spec fn engine_strings_ok(c: ConfigView, script: Seq<char>) -> bool {
    &&& c_compatible(c.username)
    &&& c_compatible(c.password)
    &&& c_compatible(c.servercert)
    &&& c_compatible(c.url)
    &&& c_compatible(script)
}

/// The engine's first check: the credentials, the pin, the gateway URL and
/// the tun script must be free of NUL characters.
pub fn check_engine_strings(config: &Config, tun_script: &Option<String>) -> (r: Result<(), Error>)
    ensures
        r is Ok <==> engine_strings_ok(config@, script_text(*tun_script)),
        r is Err ==> r->Err_0 is OpenConnect && error_detail(r->Err_0) == nul_error(),
{
    cstring_check(config.credentials.username.as_str())?;
    cstring_check(config.credentials.password.as_str())?;
    cstring_check(config.gateway.servercert.as_str())?;
    cstring_check(config.gateway.url.as_str())?;
    match tun_script {
        Some(s) => cstring_check(s.as_str()),
        None => {
            proof {
                assert(script_text(*tun_script) =~= Seq::<char>::empty());
            }
            Ok(())
        },
    }
}

/// A libopenconnect call whose return code the engine checks.
#[derive(Debug, Clone, Copy, PartialEq, Eq, Structural)]
pub enum EngineCall {
    InitSsl,
    SetProtocol,
    ParseUrl,
    SetupCmdPipe,
    ObtainCookie,
    MakeCstpConnection,
    TunSetup,
}

/// `<what> (<code>)`.
pub open spec fn with_code(what: Seq<char>, code: i32) -> Seq<char> {
    what + " ("@ + signed_decimal(code as int) + ")"@
}

/// The error detail a call's return code gives, or none when the call
/// succeeded: the command pipe is a descriptor (negative on failure), the
/// other calls return 0 on success.
pub open spec fn call_failure(call: EngineCall, ret: i32) -> Option<Seq<char>> {
    match call {
        EngineCall::SetupCmdPipe => if ret < 0 {
            Some("openconnect_setup_cmd_pipe failed"@)
        } else {
            None
        },
        _ => if ret == 0 {
            None
        } else {
            Some(
                with_code(
                    match call {
                        EngineCall::InitSsl => "openconnect_init_ssl failed"@,
                        EngineCall::SetProtocol => "openconnect_set_protocol failed"@,
                        EngineCall::ParseUrl => "openconnect_parse_url failed"@,
                        EngineCall::ObtainCookie => "authentication failed"@,
                        EngineCall::MakeCstpConnection => "NET_EXTEND failed"@,
                        _ => "tun setup failed"@,
                    },
                    ret,
                ),
            )
        },
    }
}

fn coded(what: &str, ret: i32) -> (r: Error)
    ensures
        r is OpenConnect,
        error_detail(r) == with_code(what@, ret),
{
    let code = signed_decimal_string(ret);
    let m = String::from_str(what).concat(" (").concat(code.as_str()).concat(")");
    proof {
        reveal_strlit(" (");
        reveal_strlit(")");
    }
    Error::OpenConnect(m)
}

/// What the return code of `call` means for the engine.
pub fn check_call(call: EngineCall, ret: i32) -> (r: Result<(), Error>)
    ensures
        match call_failure(call, ret) {
            None => r is Ok,
            Some(d) => r is Err && r->Err_0 is OpenConnect && error_detail(r->Err_0) == d,
        },
{
    match call {
        EngineCall::SetupCmdPipe => {
            if ret < 0 {
                Err(Error::OpenConnect(String::from_str("openconnect_setup_cmd_pipe failed")))
            } else {
                Ok(())
            }
        },
        _ => {
            if ret == 0 {
                return Ok(());
            }
            let what = match call {
                EngineCall::InitSsl => "openconnect_init_ssl failed",
                EngineCall::SetProtocol => "openconnect_set_protocol failed",
                EngineCall::ParseUrl => "openconnect_parse_url failed",
                EngineCall::ObtainCookie => "authentication failed",
                EngineCall::MakeCstpConnection => "NET_EXTEND failed",
                _ => "tun setup failed",
            };
            Err(coded(what, ret))
        },
    }
}

/// What one return of `openconnect_mainloop` leads to.
#[derive(Debug)]
pub enum LoopOutcome {
    /// A stop was requested: the session is stopped and the loop left.
    Stopped,
    /// The data connection was closed (a pause): the session reconnects on
    /// the next call.
    Reconnect,
    /// The main loop gave up.
    Failed(Error),
}

/// The state the session enters after the main loop returned `ret`: stopped
/// on a stop request, reconnecting after a pause, none when the engine
/// fails (its failure decides the state then).
pub open spec fn loop_state(stop_requested: bool, ret: i32) -> Option<SessionState> {
    if stop_requested {
        Some(SessionState::Stopped)
    } else if ret == 0 {
        Some(SessionState::Reconnecting)
    } else {
        None
    }
}

/// The state a loop outcome puts the session in, if it decides one.
pub open spec fn outcome_state(o: LoopOutcome) -> Option<SessionState> {
    match o {
        LoopOutcome::Stopped => Some(SessionState::Stopped),
        LoopOutcome::Reconnect => Some(SessionState::Reconnecting),
        LoopOutcome::Failed(_) => None,
    }
}

/// After the main loop returned `ret`: a stop request wins; 0 means the
/// loop was paused and calls again; anything else ends the engine with
/// `mainloop exited (<ret>)`.
pub fn mainloop_outcome(stop_requested: bool, ret: i32) -> (r: LoopOutcome)
    ensures
        outcome_state(r) == loop_state(stop_requested, ret),
        stop_requested ==> r is Stopped,
        !stop_requested && ret == 0 ==> r is Reconnect,
        !stop_requested && ret != 0 ==> r is Failed && r->Failed_0 is OpenConnect && error_detail(
            r->Failed_0,
        ) == with_code("mainloop exited"@, ret),
{
    if stop_requested {
        LoopOutcome::Stopped
    } else if ret == 0 {
        LoopOutcome::Reconnect
    } else {
        LoopOutcome::Failed(coded("mainloop exited", ret))
    }
}

/// The values that are present, in order.
pub open spec fn present(v: Seq<Option<Seq<char>>>) -> Seq<Seq<char>>
    decreases v.len(),
{
    if v.len() == 0 {
        Seq::empty()
    } else {
        match v.last() {
            Some(x) => present(v.drop_last()).push(x),
            None => present(v.drop_last()),
        }
    }
}

pub open spec fn opt_views(v: Seq<Option<String>>) -> Seq<Option<Seq<char>>> {
    v.map_values(|o: Option<String>| opt_view(o))
}

/// What the tunnel was set up with, from libopenconnect's IP information:
/// the address, the MTU when positive, the DNS servers that are set, and
/// the keepalive of 30 s the H3C gateway uses.
pub open spec fn session_of(addr: Option<Seq<char>>, mtu: i32, dns: Seq<Option<Seq<char>>>) -> SessionInfoView {
    SessionInfoView {
        ip: addr,
        mtu: if mtu > 0 {
            Some(mtu as u32)
        } else {
            None
        },
        routes: Seq::empty(),
        dns: present(dns),
        keepalive: Some(30),
    }
}

pub fn session_from_ip_info(addr: Option<String>, mtu: i32, dns: Vec<Option<String>>) -> (r: SessionInfo)
    ensures
        r@ == session_of(opt_view(addr), mtu, opt_views(dns@)),
{
    let mut servers: Vec<String> = Vec::new();
    let mut i: usize = 0;
    let ghost dv = opt_views(dns@);
    while i < dns.len()
        invariant
            i <= dns@.len(),
            dv == opt_views(dns@),
            views(servers@) == present(dv.take(i as int)),
        decreases dns.len() - i,
    {
        assert(dv.take(i + 1).drop_last() =~= dv.take(i as int));
        let ghost before = servers@;
        match &dns[i] {
            Some(s) => {
                servers.push(s.clone());
                assert(views(servers@) =~= views(before).push(s@));
            },
            None => {},
        }
        i = i + 1;
    }
    assert(dv.take(i as int) =~= dv);
    let r = SessionInfo {
        ip: addr,
        mtu: if mtu > 0 {
            Some(mtu as u32)
        } else {
            None
        },
        routes: Vec::new(),
        dns: servers,
        keepalive: Some(30),
    };
    assert(views(r.routes@) =~= Seq::<Seq<char>>::empty());
    r
}

/// The strings of `v` joined by `,` (`[String]::join(",")`).
pub open spec fn join_comma(v: Seq<Seq<char>>) -> Seq<char>
    decreases v.len(),
{
    if v.len() == 0 {
        Seq::empty()
    } else if v.len() == 1 {
        v[0]
    } else {
        join_comma(v.drop_last()) + seq![','] + v.last()
    }
}

pub fn join_with_commas(v: &Vec<String>) -> (r: String)
    ensures
        r@ == join_comma(views(v@)),
{
    if v.len() == 0 {
        return String::new();
    }
    let mut out = v[0].clone();
    let mut i: usize = 1;
    assert(views(v@).take(1).drop_last() =~= Seq::<Seq<char>>::empty());
    while i < v.len()
        invariant
            1 <= i <= v@.len(),
            out@ == join_comma(views(v@).take(i as int)),
        decreases v.len() - i,
    {
        let ghost before = out@;
        out = out.concat(",").concat(v[i].as_str());
        proof {
            reveal_strlit(",");
            assert(views(v@).take(i + 1).drop_last() =~= views(v@).take(i as int));
            assert(out@ =~= before + seq![','] + v@[i as int]@);
        }
        i = i + 1;
    }
    assert(views(v@).take(i as int) =~= views(v@));
    out
}

/// An environment variable as plain values.
pub open spec fn env_view(e: (String, String)) -> (Seq<char>, Seq<char>) {
    (e.0@, e.1@)
}

pub open spec fn dns_mode_text(d: DnsMode) -> Seq<char> {
    match d {
        DnsMode::Server => "server"@,
        DnsMode::Ignore => "ignore"@,
    }
}

/// Where the route helper keeps its state unless told otherwise.
pub const ROUTECTL_STATE_DIR: &'static str = "/run/inode-vpn";

/// The environment the route helper inherits from the daemon: the DNS
/// mode, the preserved CIDRs joined by `,` when there are any, and the
/// state directory when none is set yet.
pub open spec fn routectl_env_of(dns: DnsMode, cidrs: Seq<Seq<char>>, state_dir_set: bool) -> Seq<(Seq<char>, Seq<char>)> {
    seq![("INODE_DNS_MODE"@, dns_mode_text(dns))] + (if cidrs.len() > 0 {
        seq![("INODE_PRESERVE_CIDRS"@, join_comma(cidrs))]
    } else {
        Seq::empty()
    }) + (if state_dir_set {
        Seq::empty()
    } else {
        seq![("INODE_ROUTECTL_STATE_DIR"@, "/run/inode-vpn"@)]
    })
}

pub fn routectl_env(network: &NetworkConfig, state_dir_set: bool) -> (r: Vec<(String, String)>)
    ensures
        r@.map_values(|e: (String, String)| env_view(e)) == routectl_env_of(
            network.dns,
            views(network.preserve_cidrs@),
            state_dir_set,
        ),
{
    let mut r: Vec<(String, String)> = Vec::new();
    let mode = match network.dns {
        DnsMode::Server => String::from_str("server"),
        DnsMode::Ignore => String::from_str("ignore"),
    };
    r.push((String::from_str("INODE_DNS_MODE"), mode));
    if network.preserve_cidrs.len() > 0 {
        r.push((String::from_str("INODE_PRESERVE_CIDRS"), join_with_commas(&network.preserve_cidrs)));
    }
    if !state_dir_set {
        r.push((String::from_str("INODE_ROUTECTL_STATE_DIR"), String::from_str(ROUTECTL_STATE_DIR)));
    }
    assert(r@.map_values(|e: (String, String)| env_view(e)) =~= routectl_env_of(
        network.dns,
        views(network.preserve_cidrs@),
        state_dir_set,
    ));
    r
}

/// The value of the first variable named `name`.
pub open spec fn env_lookup(env: Seq<(Seq<char>, Seq<char>)>, name: Seq<char>) -> Option<Seq<char>>
    decreases env.len(),
{
    if env.len() == 0 {
        None
    } else if env[0].0 == name {
        Some(env[0].1)
    } else {
        env_lookup(env.drop_first(), name)
    }
}

/// A CIDR the route helper reads back as it was written: non-empty and free
/// of its separators.
pub open spec fn plain_cidr(c: Seq<char>) -> bool {
    c.len() > 0 && forall|j: int| 0 <= j < c.len() ==> !cidr_separators().contains(#[trigger] c[j])
}

proof fn lemma_split_join(cidrs: Seq<Seq<char>>)
    requires
        cidrs.len() > 0,
        forall|i: int| 0 <= i < cidrs.len() ==> plain_cidr(#[trigger] cidrs[i]),
    ensures
        split_by(join_comma(cidrs), in_set(cidr_separators())) == cidrs,
    decreases cidrs.len(),
{
    let p = in_set(cidr_separators());
    if cidrs.len() == 1 {
        assert(plain_cidr(cidrs[0]));
        lemma_split_without_separator(cidrs[0], p);
        assert(seq![cidrs[0]] =~= cidrs);
    } else {
        let init = cidrs.drop_last();
        assert forall|i: int| 0 <= i < init.len() implies plain_cidr(#[trigger] init[i]) by {
            assert(init[i] == cidrs[i]);
        }
        lemma_split_join(init);
        assert(cidr_separators().contains(','));
        assert(join_comma(init) + seq![','] + cidrs.last() =~= join_comma(init).push(',') + cidrs.last());
        lemma_split_at_separator(join_comma(init), ',', cidrs.last(), p);
        assert(plain_cidr(cidrs[cidrs.len() - 1]));
        lemma_split_without_separator(cidrs.last(), p);
        assert(init + seq![cidrs.last()] =~= cidrs);
    }
}

proof fn lemma_filter_keeps_nonempty(v: Seq<Seq<char>>)
    requires
        forall|i: int| 0 <= i < v.len() ==> (#[trigger] v[i]).len() > 0,
    ensures
        v.filter(nonempty_pred()) == v,
    decreases v.len(),
{
    reveal(Seq::filter);
    if v.len() > 0 {
        assert forall|i: int| 0 <= i < v.drop_last().len() implies (#[trigger] v.drop_last()[i]).len()
            > 0 by {
            assert(v.drop_last()[i] == v[i]);
        }
        lemma_filter_keeps_nonempty(v.drop_last());
        assert(v[v.len() - 1].len() > 0);
        assert(nonempty_pred()(v.last()));
        assert(v.drop_last().push(v.last()) =~= v);
    }
}

/// What the route helper plans with is what the daemon's configuration
/// says: its DNS mode, and every preserved CIDR, in order, when none of
/// them is empty or holds a `,`, `;` or space.
pub proof fn law_routectl_sees_daemon_network(
    dns: DnsMode,
    cidrs: Seq<Seq<char>>,
    state_dir_set: bool,
    vars: PlanVars,
)
    requires
        forall|i: int| 0 <= i < cidrs.len() ==> plain_cidr(#[trigger] cidrs[i]),
        opt_view(vars.inode_preserve_cidrs) == env_lookup(
            routectl_env_of(dns, cidrs, state_dir_set),
            "INODE_PRESERVE_CIDRS"@,
        ),
        opt_view(vars.inode_dns_mode) == env_lookup(
            routectl_env_of(dns, cidrs, state_dir_set),
            "INODE_DNS_MODE"@,
        ),
    ensures
        plan_preserve(vars) == cidrs,
        plan_dns_mode(vars) == dns_mode_text(dns),
{
    let env = routectl_env_of(dns, cidrs, state_dir_set);
    reveal_with_fuel(env_lookup, 4);
    reveal_strlit("INODE_DNS_MODE");
    reveal_strlit("INODE_PRESERVE_CIDRS");
    reveal_strlit("INODE_ROUTECTL_STATE_DIR");
    reveal_strlit("server");
    reveal_strlit("ignore");
    assert(env[0].0 == "INODE_DNS_MODE"@);
    assert(env_lookup(env, "INODE_DNS_MODE"@) == Some(dns_mode_text(dns)));
    assert(dns_mode_text(dns).len() > 0);
    let rest = env.drop_first();
    if cidrs.len() > 0 {
        assert(rest[0].0 == "INODE_PRESERVE_CIDRS"@);
        assert("INODE_DNS_MODE"@ != "INODE_PRESERVE_CIDRS"@) by {
            assert("INODE_DNS_MODE"@[6] != "INODE_PRESERVE_CIDRS"@[6]);
        }
        assert(env_lookup(env, "INODE_PRESERVE_CIDRS"@) == Some(join_comma(cidrs)));
        lemma_split_join(cidrs);
        assert forall|i: int| 0 <= i < cidrs.len() implies (#[trigger] cidrs[i]).len() > 0 by {
            assert(plain_cidr(cidrs[i]));
        }
        lemma_filter_keeps_nonempty(cidrs);
    } else {
        assert("INODE_DNS_MODE"@ != "INODE_PRESERVE_CIDRS"@) by {
            assert("INODE_DNS_MODE"@[6] != "INODE_PRESERVE_CIDRS"@[6]);
        }
        if state_dir_set {
            assert(rest.len() == 0);
        } else {
            assert(rest.len() == 1);
            assert(rest[0].0 == "INODE_ROUTECTL_STATE_DIR"@);
            assert("INODE_ROUTECTL_STATE_DIR"@ != "INODE_PRESERVE_CIDRS"@) by {
                assert("INODE_ROUTECTL_STATE_DIR"@[6] != "INODE_PRESERVE_CIDRS"@[6]);
            }
            assert(rest.drop_first().len() == 0);
        }
        assert(env_lookup(env, "INODE_PRESERVE_CIDRS"@) is None);
        assert(plan_preserve(vars) =~= cidrs);
    }
}

} // verus!
