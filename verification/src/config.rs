//! Configuration and credentials: the rules for setting, migrating,
//! checking and showing them. Reading and writing the TOML file is the
//! application's part.

use vstd::prelude::*;

use crate::error::{error_detail, Error};
use crate::paths::{join_path, path_join};
use crate::text::{
    after_char, before_char, chars_of, clone_strings, debug_quoted, debug_str, eq_str,
    filter_nonempty, find_char, first_char, in_set, lines_of, nonempty_pred, parse_u64,
    parse_unsigned, slice_chars, split_by, split_chars, string_of, strings_of, trim, trim_chars,
    views, lemma_trim_idempotent,
};

verus! {

pub const DEFAULT_CONFIG_DIR: &'static str = ".config/inode-vpn";

pub const DEFAULT_CONFIG_FILE: &'static str = "config.toml";

/// The configuration file under a home directory:
/// `<home>/.config/inode-vpn/config.toml`.
pub open spec fn config_path_of(home: Seq<char>) -> Seq<char> {
    path_join(path_join(home, DEFAULT_CONFIG_DIR@), DEFAULT_CONFIG_FILE@)
}

pub fn config_path_in(home: &str) -> (r: String)
    ensures
        r@ == config_path_of(home@),
{
    let dir = join_path(home, DEFAULT_CONFIG_DIR);
    join_path(dir.as_str(), DEFAULT_CONFIG_FILE)
}

/// Where the daemon finds its user's configuration: under the home
/// directory that the account database gives for the user; failing that,
/// when the daemon runs as that user, under `$HOME`; else `config.toml` in
/// the working directory.
pub open spec fn daemon_config_path_of(
    account_home: Option<Seq<char>>,
    uid: u32,
    euid: u32,
    home: Option<Seq<char>>,
) -> Seq<char> {
    match account_home {
        Some(h) => config_path_of(h),
        None => if uid == euid && home is Some {
            config_path_of(home->0)
        } else {
            DEFAULT_CONFIG_FILE@
        },
    }
}

pub fn daemon_config_path(
    account_home: &Option<String>,
    uid: u32,
    euid: u32,
    home: &Option<String>,
) -> (r: String)
    ensures
        r@ == daemon_config_path_of(
            match account_home {
                Some(h) => Some(h@),
                None => None,
            },
            uid,
            euid,
            match home {
                Some(h) => Some(h@),
                None => None,
            },
        ),
{
    match account_home {
        Some(h) => config_path_in(h.as_str()),
        None => match home {
            Some(h) => if uid == euid {
                config_path_in(h.as_str())
            } else {
                String::from_str(DEFAULT_CONFIG_FILE)
            },
            None => String::from_str(DEFAULT_CONFIG_FILE),
        },
    }
}

/// The keepalive interval: the gateway's `KEEPALIVETIME` (`auto`) or a
/// number of seconds (0 turns keepalive and DPD off).
#[derive(Debug, Clone, PartialEq, Eq)]
pub enum Keepalive {
    Seconds(u64),
    /// Written as the string `"auto"`.
    Auto(String),
}

/// `server` applies the VPN's DNS servers, `ignore` keeps the system's.
#[derive(Debug, Clone, Copy, PartialEq, Eq, Structural)]
pub enum DnsMode {
    Server,
    Ignore,
}

#[derive(Debug, Clone, PartialEq, Eq)]
pub struct GatewayConfig {
    /// `host:port`, as the legacy `.auth` `gateway=` key.
    pub url: String,
    /// `pin-sha256:` SPKI pin. Empty means trust on first use.
    pub servercert: String,
}

#[derive(Debug, Clone, PartialEq, Eq)]
pub struct Credentials {
    pub username: String,
    pub password: String,
}

#[derive(Debug, Clone, PartialEq, Eq)]
pub struct NetworkConfig {
    pub keepalive: Keepalive,
    /// Extra CIDRs that must stay reachable (added as more-specific routes).
    pub preserve_cidrs: Vec<String>,
    pub dns: DnsMode,
}

#[derive(Debug, Clone, PartialEq, Eq)]
pub struct ServiceConfig {
    pub autostart: bool,
    pub restart_delay: u64,
}

/// The whole configuration file.
#[derive(Debug, Clone, PartialEq, Eq)]
pub struct Config {
    pub gateway: GatewayConfig,
    pub credentials: Credentials,
    pub network: NetworkConfig,
    pub service: ServiceConfig,
}

/// The keepalive setting as plain values.
pub enum KeepaliveView {
    Seconds(u64),
    Auto(Seq<char>),
}

pub open spec fn keepalive_view(k: Keepalive) -> KeepaliveView {
    match k {
        Keepalive::Seconds(s) => KeepaliveView::Seconds(s),
        Keepalive::Auto(s) => KeepaliveView::Auto(s@),
    }
}

/// The configuration as plain values.
pub struct ConfigView {
    pub url: Seq<char>,
    pub servercert: Seq<char>,
    pub username: Seq<char>,
    pub password: Seq<char>,
    pub keepalive: KeepaliveView,
    pub preserve_cidrs: Seq<Seq<char>>,
    pub dns: DnsMode,
    pub autostart: bool,
    pub restart_delay: u64,
}

impl View for Config {
    type V = ConfigView;

    open spec fn view(&self) -> ConfigView {
        ConfigView {
            url: self.gateway.url@,
            servercert: self.gateway.servercert@,
            username: self.credentials.username@,
            password: self.credentials.password@,
            keepalive: keepalive_view(self.network.keepalive),
            preserve_cidrs: views(self.network.preserve_cidrs@),
            dns: self.network.dns,
            autostart: self.service.autostart,
            restart_delay: self.service.restart_delay,
        }
    }
}

/// The configuration before anything is set: empty gateway and credentials,
/// `auto` keepalive, no preserved CIDRs, VPN DNS, autostart after 10 s.
pub open spec fn default_config() -> ConfigView {
    ConfigView {
        url: Seq::empty(),
        servercert: Seq::empty(),
        username: Seq::empty(),
        password: Seq::empty(),
        keepalive: KeepaliveView::Auto("auto"@),
        preserve_cidrs: Seq::empty(),
        dns: DnsMode::Server,
        autostart: true,
        restart_delay: 10,
    }
}

impl Keepalive {
    /// The interval to use: the gateway's advertised one for `auto`.
    pub fn seconds(&self, advertised: u64) -> (r: u64)
        ensures
            r == match *self {
                Keepalive::Auto(_) => advertised,
                Keepalive::Seconds(s) => s,
            },
    {
        match self {
            Keepalive::Auto(_) => advertised,
            Keepalive::Seconds(s) => *s,
        }
    }

    pub fn duplicate(&self) -> (r: Keepalive)
        ensures
            keepalive_view(r) == keepalive_view(*self),
    {
        match self {
            Keepalive::Auto(s) => Keepalive::Auto(s.clone()),
            Keepalive::Seconds(s) => Keepalive::Seconds(*s),
        }
    }
}

impl Default for Keepalive {
    fn default() -> (r: Keepalive)
        ensures
            keepalive_view(r) == KeepaliveView::Auto("auto"@),
    {
        Keepalive::Auto(String::from_str("auto"))
    }
}

impl Default for Credentials {
    fn default() -> (r: Credentials)
        ensures
            r.username@ == Seq::<char>::empty(),
            r.password@ == Seq::<char>::empty(),
    {
        Credentials { username: String::new(), password: String::new() }
    }
}

impl Default for Config {
    fn default() -> (r: Config)
        ensures
            r@ == default_config(),
    {
        let r = Config {
            gateway: GatewayConfig { url: String::new(), servercert: String::new() },
            credentials: Credentials::default(),
            network: NetworkConfig {
                keepalive: Keepalive::Auto(String::from_str("auto")),
                preserve_cidrs: Vec::new(),
                dns: DnsMode::Server,
            },
            service: ServiceConfig { autostart: true, restart_delay: 10 },
        };
        assert(views(r.network.preserve_cidrs@) =~= Seq::<Seq<char>>::empty());
        r
    }
}

impl Config {
    pub fn duplicate(&self) -> (r: Config)
        ensures
            r@ == self@,
    {
        Config {
            gateway: GatewayConfig {
                url: self.gateway.url.clone(),
                servercert: self.gateway.servercert.clone(),
            },
            credentials: Credentials {
                username: self.credentials.username.clone(),
                password: self.credentials.password.clone(),
            },
            network: NetworkConfig {
                keepalive: self.network.keepalive.duplicate(),
                preserve_cidrs: clone_strings(&self.network.preserve_cidrs),
                dns: self.network.dns,
            },
            service: ServiceConfig {
                autostart: self.service.autostart,
                restart_delay: self.service.restart_delay,
            },
        }
    }
}


pub open spec fn cidr_list_separators() -> Seq<char> {
    seq![',', ';']
}

/// `a,b;c` as a list: split at `,` and `;`, each part trimmed, empty parts
/// dropped.
pub open spec fn cidr_list(v: Seq<char>) -> Seq<Seq<char>> {
    split_by(v, in_set(cidr_list_separators())).map_values(|f: Seq<char>| trim(f)).filter(
        nonempty_pred(),
    )
}

/// What setting `key` to `value` makes of a configuration, or the error
/// detail.
pub open spec fn key_set(c: ConfigView, key: Seq<char>, value: Seq<char>) -> Result<ConfigView, Seq<char>> {
    if key == "gateway.url"@ {
        Ok(ConfigView { url: value, ..c })
    } else if key == "servercert"@ {
        Ok(ConfigView { servercert: value, ..c })
    } else if key == "username"@ {
        Ok(ConfigView { username: value, ..c })
    } else if key == "password"@ {
        Ok(ConfigView { password: value, ..c })
    } else if key == "keepalive"@ {
        if value == "auto"@ {
            Ok(ConfigView { keepalive: KeepaliveView::Auto("auto"@), ..c })
        } else {
            match parse_unsigned(value, u64::MAX as nat) {
                Some(n) => Ok(ConfigView { keepalive: KeepaliveView::Seconds(n as u64), ..c }),
                None => Err("keepalive must be 'auto' or seconds: "@ + value),
            }
        }
    } else if key == "dns"@ {
        if value == "server"@ {
            Ok(ConfigView { dns: DnsMode::Server, ..c })
        } else if value == "ignore"@ {
            Ok(ConfigView { dns: DnsMode::Ignore, ..c })
        } else {
            Err("dns must be server|ignore: "@ + value)
        }
    } else if key == "preserve_cidrs"@ {
        Ok(ConfigView { preserve_cidrs: cidr_list(value), ..c })
    } else {
        Err("unsupported config key: "@ + key)
    }
}

fn trim_all(v: &Vec<Vec<char>>) -> (r: Vec<Vec<char>>)
    ensures
        r.deep_view() == v.deep_view().map_values(|f: Seq<char>| trim(f)),
{
    let mut out: Vec<Vec<char>> = Vec::new();
    let mut i: usize = 0;
    while i < v.len()
        invariant
            i <= v@.len(),
            out.deep_view() == v.deep_view().take(i as int).map_values(|f: Seq<char>| trim(f)),
        decreases v.len() - i,
    {
        let t = trim_chars(v[i].as_slice());
        assert(v.deep_view()[i as int] =~= v@[i as int]@);
        let ghost before = out.deep_view();
        let ghost tv = t@;
        assert(t.deep_view() =~= tv);
        out.push(t);
        assert(out.deep_view() =~= before.push(tv));
        assert(v.deep_view().take(i + 1).map_values(|f: Seq<char>| trim(f)) =~= v.deep_view().take(
            i as int,
        ).map_values(|f: Seq<char>| trim(f)).push(tv));
        i = i + 1;
    }
    assert(v.deep_view().take(i as int) =~= v.deep_view());
    out
}

/// Parses a comma- or semicolon-separated list of CIDRs.
pub fn parse_cidr_list(value: &str) -> (r: Vec<String>)
    ensures
        views(r@) == cidr_list(value@),
{
    let c = chars_of(value);
    let seps = [',', ';'];
    assert(seps@ =~= cidr_list_separators());
    let parts = split_chars(c.as_slice(), &seps);
    let trimmed = trim_all(&parts);
    let kept = filter_nonempty(trimmed);
    strings_of(&kept)
}

impl Config {
    /// Updates one whitelisted scalar key; the file interface stays narrow
    /// and arbitrary TOML writes from the CLI are refused. On error the
    /// configuration is unchanged.
    pub fn with_key_set(&mut self, key: &str, value: &str) -> (r: Result<(), Error>)
        ensures
            match key_set(old(self)@, key@, value@) {
                Ok(c) => r is Ok && final(self)@ == c,
                Err(d) => r is Err && final(self)@ == old(self)@ && error_detail(r->Err_0) == d
                    && r->Err_0 is Config,
            },
    {
        if eq_str(key, "gateway.url") {
            self.gateway.url = String::from_str(value);
        } else if eq_str(key, "servercert") {
            self.gateway.servercert = String::from_str(value);
        } else if eq_str(key, "username") {
            self.credentials.username = String::from_str(value);
        } else if eq_str(key, "password") {
            self.credentials.password = String::from_str(value);
        } else if eq_str(key, "keepalive") {
            if eq_str(value, "auto") {
                self.network.keepalive = Keepalive::Auto(String::from_str("auto"));
            } else {
                let c = chars_of(value);
                match parse_u64(c.as_slice()) {
                    Some(n) => {
                        self.network.keepalive = Keepalive::Seconds(n);
                    },
                    None => {
                        return Err(
                            Error::Config(
                                String::from_str("keepalive must be 'auto' or seconds: ").concat(
                                    value,
                                ),
                            ),
                        );
                    },
                }
            }
        } else if eq_str(key, "dns") {
            if eq_str(value, "server") {
                self.network.dns = DnsMode::Server;
            } else if eq_str(value, "ignore") {
                self.network.dns = DnsMode::Ignore;
            } else {
                return Err(
                    Error::Config(String::from_str("dns must be server|ignore: ").concat(value)),
                );
            }
        } else if eq_str(key, "preserve_cidrs") {
            self.network.preserve_cidrs = parse_cidr_list(value);
        } else {
            return Err(Error::Config(String::from_str("unsupported config key: ").concat(key)));
        }
        Ok(())
    }
}

/// The configuration as `status` and `config show` print it: no password,
/// and only whether a certificate pin is set.
#[derive(Debug, Clone, PartialEq, Eq)]
pub struct ConfigRedacted {
    pub gateway_url: String,
    pub servercert_present: bool,
    pub username: String,
    pub keepalive: Keepalive,
    pub preserve_cidrs: Vec<String>,
    pub dns: DnsMode,
    pub autostart: bool,
}

pub struct RedactedView {
    pub gateway_url: Seq<char>,
    pub servercert_present: bool,
    pub username: Seq<char>,
    pub keepalive: KeepaliveView,
    pub preserve_cidrs: Seq<Seq<char>>,
    pub dns: DnsMode,
    pub autostart: bool,
}

impl View for ConfigRedacted {
    type V = RedactedView;

    open spec fn view(&self) -> RedactedView {
        RedactedView {
            gateway_url: self.gateway_url@,
            servercert_present: self.servercert_present,
            username: self.username@,
            keepalive: keepalive_view(self.keepalive),
            preserve_cidrs: views(self.preserve_cidrs@),
            dns: self.dns,
            autostart: self.autostart,
        }
    }
}

pub open spec fn redacted_view(c: ConfigView) -> RedactedView {
    RedactedView {
        gateway_url: c.url,
        servercert_present: c.servercert.len() > 0,
        username: c.username,
        keepalive: c.keepalive,
        preserve_cidrs: c.preserve_cidrs,
        dns: c.dns,
        autostart: c.autostart,
    }
}

impl Config {
    /// The masked view used by `status`, `config show` and diagnostics.
    pub fn redacted(&self) -> (r: ConfigRedacted)
        ensures
            r@ == redacted_view(self@),
    {
        ConfigRedacted {
            gateway_url: self.gateway.url.clone(),
            servercert_present: !self.gateway.servercert.as_str().is_empty(),
            username: self.credentials.username.clone(),
            keepalive: self.network.keepalive.duplicate(),
            preserve_cidrs: clone_strings(&self.network.preserve_cidrs),
            dns: self.network.dns,
            autostart: self.service.autostart,
        }
    }
}

/// The masked view reveals nothing of the password, nor of the certificate
/// pin but whether there is one: configurations that differ only there show
/// the same.
pub proof fn law_redacted_hides_secrets(a: ConfigView, b: ConfigView)
    requires
        a.url == b.url,
        a.username == b.username,
        a.keepalive == b.keepalive,
        a.preserve_cidrs == b.preserve_cidrs,
        a.dns == b.dns,
        a.autostart == b.autostart,
        (a.servercert.len() > 0) == (b.servercert.len() > 0),
    ensures
        redacted_view(a) == redacted_view(b),
{
}

/// A line of the legacy `.auth` file that is neither blank nor a comment.
pub open spec fn auth_significant(l: Seq<char>) -> bool {
    trim(l).len() > 0 && trim(l)[0] != '#'
}

/// A significant line without `=`.
pub open spec fn auth_invalid(l: Seq<char>) -> bool {
    auth_significant(l) && first_char(trim(l), '=') is None
}

pub open spec fn auth_key(l: Seq<char>) -> Seq<char> {
    trim(before_char(trim(l), '='))
}

pub open spec fn auth_value(l: Seq<char>) -> Seq<char> {
    trim(after_char(trim(l), '='))
}

/// The value of the last `key=value` line for `key`.
pub open spec fn auth_lookup(lines: Seq<Seq<char>>, key: Seq<char>) -> Option<Seq<char>>
    decreases lines.len(),
{
    if lines.len() == 0 {
        None
    } else {
        let l = lines.last();
        if auth_significant(l) && !auth_invalid(l) && auth_key(l) == key {
            Some(auth_value(l))
        } else {
            auth_lookup(lines.drop_last(), key)
        }
    }
}

pub open spec fn or_empty(o: Option<Seq<char>>) -> Seq<char> {
    match o {
        Some(s) => s,
        None => Seq::empty(),
    }
}

/// The index of the first invalid line.
pub open spec fn first_invalid(lines: Seq<Seq<char>>) -> Option<int>
    decreases lines.len(),
{
    if lines.len() == 0 {
        None
    } else if auth_invalid(lines[0]) {
        Some(0)
    } else {
        match first_invalid(lines.drop_first()) {
            Some(i) => Some(i + 1),
            None => None,
        }
    }
}

proof fn lemma_first_invalid(lines: Seq<Seq<char>>, i: int)
    requires
        0 <= i <= lines.len(),
        i < lines.len() ==> auth_invalid(lines[i]),
        forall|j: int| 0 <= j < i ==> !auth_invalid(#[trigger] lines[j]),
    ensures
        i < lines.len() ==> first_invalid(lines) == Some(i),
        i == lines.len() ==> first_invalid(lines) is None,
    decreases lines.len(),
{
    if i > 0 && lines.len() > 0 {
        assert forall|j: int| 0 <= j < i - 1 implies !auth_invalid(#[trigger] lines.drop_first()[j]) by {
            assert(lines.drop_first()[j] == lines[j + 1]);
        }
        lemma_first_invalid(lines.drop_first(), i - 1);
    }
}

/// The configuration a legacy `.auth` text migrates to: gateway, pin and
/// credentials from its `key=value` lines, everything else default.
pub open spec fn migrated(lines: Seq<Seq<char>>) -> ConfigView {
    ConfigView {
        url: or_empty(auth_lookup(lines, "gateway"@)),
        servercert: or_empty(auth_lookup(lines, "servercert"@)),
        username: or_empty(auth_lookup(lines, "username"@)),
        password: or_empty(auth_lookup(lines, "password"@)),
        ..default_config()
    }
}

proof fn lemma_auth_keys_distinct()
    ensures
        "gateway"@ != "servercert"@,
        "gateway"@ != "username"@,
        "gateway"@ != "password"@,
        "servercert"@ != "username"@,
        "servercert"@ != "password"@,
        "username"@ != "password"@,
{
    reveal_strlit("gateway");
    reveal_strlit("servercert");
    reveal_strlit("username");
    reveal_strlit("password");
    assert("gateway"@[0] != "servercert"@[0]);
    assert("gateway"@[0] != "username"@[0]);
    assert("gateway"@[0] != "password"@[0]);
    assert("servercert"@[0] != "username"@[0]);
    assert("servercert"@[0] != "password"@[0]);
    assert("username"@[0] != "password"@[0]);
}

proof fn lemma_auth_lookup_trimmed(lines: Seq<Seq<char>>, key: Seq<char>)
    ensures
        auth_lookup(lines, key) is Some ==> trim(auth_lookup(lines, key)->0) == auth_lookup(lines, key)->0,
    decreases lines.len(),
{
    if lines.len() > 0 {
        let l = lines.last();
        if auth_significant(l) && !auth_invalid(l) && auth_key(l) == key {
            lemma_trim_idempotent(after_char(trim(l), '='));
        } else {
            lemma_auth_lookup_trimmed(lines.drop_last(), key);
        }
    }
}

/// A configuration migrated from a `.auth` file passes the check made when
/// it is loaded again: its gateway, non-empty, is not blank either.
pub proof fn law_migrated_config_loads(raw: Seq<char>)
    requires
        first_invalid(lines_of(raw)) is None,
        migrated(lines_of(raw)).url.len() > 0,
    ensures
        trim(migrated(lines_of(raw)).url).len() > 0,
{
    lemma_auth_lookup_trimmed(lines_of(raw), "gateway"@);
}

struct AuthValues {
    gateway: Option<Vec<char>>,
    servercert: Option<Vec<char>>,
    username: Option<Vec<char>>,
    password: Option<Vec<char>>,
}

pub open spec fn opt_chars(o: Option<Vec<char>>) -> Option<Seq<char>> {
    match o {
        Some(v) => Some(v@),
        None => None,
    }
}

fn chars_to_string(o: Option<Vec<char>>) -> (r: String)
    ensures
        r@ == or_empty(opt_chars(o)),
{
    match o {
        Some(v) => string_of(v.as_slice()),
        None => String::new(),
    }
}

fn same(a: &Vec<char>, b: &str) -> (r: bool)
    ensures
        r == (a@ == b@),
{
    let s = string_of(a.as_slice());
    eq_str(s.as_str(), b)
}

impl Config {
    /// Migrates the text of a legacy `.auth` key=value file (`path` is how
    /// the file is named in errors). `ping_target` is intentionally ignored:
    /// liveness no longer uses ping.
    pub fn from_legacy_auth(raw: &str, path: &str) -> (r: Result<Config, Error>)
        ensures
            match first_invalid(lines_of(raw@)) {
                Some(i) => r is Err && r->Err_0 is Config && error_detail(r->Err_0) == "invalid line in "@
                    + path@ + ": "@ + debug_quoted(trim(lines_of(raw@)[i])),
                None => {
                    let c = migrated(lines_of(raw@));
                    if c.url.len() == 0 || c.username.len() == 0 {
                        r is Err && r->Err_0 is Config && error_detail(r->Err_0) == path@
                            + " is missing gateway/username"@
                    } else {
                        r is Ok && r->Ok_0@ == c
                    }
                },
            },
    {
        let c = chars_of(raw);
        let lines = split_chars(c.as_slice(), &['\n']);
        assert(seq!['\n'] =~= ['\n']@);
        let ghost lv = lines.deep_view();
        let mut vals = AuthValues { gateway: None, servercert: None, username: None, password: None };
        let mut k: usize = 0;
        assert(lv.take(0) =~= Seq::<Seq<char>>::empty());
        proof {
            lemma_auth_keys_distinct();
        }
        while k < lines.len()
            invariant
                lv == lines.deep_view(),
                lv == lines_of(raw@),
                k <= lv.len(),
                "gateway"@ != "servercert"@,
                "gateway"@ != "username"@,
                "gateway"@ != "password"@,
                "servercert"@ != "username"@,
                "servercert"@ != "password"@,
                "username"@ != "password"@,
                forall|j: int| 0 <= j < k ==> !auth_invalid(#[trigger] lv[j]),
                opt_chars(vals.gateway) == auth_lookup(lv.take(k as int), "gateway"@),
                opt_chars(vals.servercert) == auth_lookup(lv.take(k as int), "servercert"@),
                opt_chars(vals.username) == auth_lookup(lv.take(k as int), "username"@),
                opt_chars(vals.password) == auth_lookup(lv.take(k as int), "password"@),
            decreases lines.len() - k,
        {
            assert(lv[k as int] =~= lines@[k as int]@);
            assert(lv.take(k + 1).drop_last() =~= lv.take(k as int));
            assert(lv.take(k + 1).last() == lv[k as int]);
            let line = trim_chars(lines[k].as_slice());
            if line.len() == 0 || line[0] == '#' {
            } else {
                match find_char(line.as_slice(), '=') {
                    None => {
                        proof {
                            lemma_first_invalid(lv, k as int);
                        }
                        let text = string_of(line.as_slice());
                        let d = String::from_str("invalid line in ").concat(path).concat(": ").concat(
                            debug_str(text.as_str()).as_str(),
                        );
                        return Err(Error::Config(d));
                    },
                    Some(e) => {
                        let kpart = slice_chars(line.as_slice(), 0, e);
                        let vpart = slice_chars(line.as_slice(), e + 1, line.len());
                        assert(kpart@ =~= before_char(line@, '='));
                        assert(vpart@ =~= after_char(line@, '='));
                        let key = trim_chars(kpart.as_slice());
                        let value = trim_chars(vpart.as_slice());
                        if same(&key, "gateway") {
                            vals.gateway = Some(value);
                        } else if same(&key, "servercert") {
                            vals.servercert = Some(value);
                        } else if same(&key, "username") {
                            vals.username = Some(value);
                        } else if same(&key, "password") {
                            vals.password = Some(value);
                        }
                    },
                }
            }
            k = k + 1;
        }
        assert(lv.take(k as int) =~= lv);
        proof {
            lemma_first_invalid(lv, k as int);
        }
        let cfg = Config {
            gateway: GatewayConfig {
                url: chars_to_string(vals.gateway),
                servercert: chars_to_string(vals.servercert),
            },
            credentials: Credentials {
                username: chars_to_string(vals.username),
                password: chars_to_string(vals.password),
            },
            network: NetworkConfig {
                keepalive: Keepalive::Auto(String::from_str("auto")),
                preserve_cidrs: Vec::new(),
                dns: DnsMode::Server,
            },
            service: ServiceConfig { autostart: true, restart_delay: 10 },
        };
        assert(views(cfg.network.preserve_cidrs@) =~= Seq::<Seq<char>>::empty());
        if cfg.gateway.url.as_str().is_empty() || cfg.credentials.username.as_str().is_empty() {
            return Err(Error::Config(String::from_str(path).concat(" is missing gateway/username")));
        }
        Ok(cfg)
    }

    /// A loaded configuration must name a gateway.
    pub fn validate_loaded(&self, path: &str) -> (r: Result<(), Error>)
        ensures
            trim(self.gateway.url@).len() > 0 ==> r is Ok,
            trim(self.gateway.url@).len() == 0 ==> r is Err && r->Err_0 is Config && error_detail(
                r->Err_0,
            ) == path@ + ": gateway.url must not be empty"@,
    {
        let u = chars_of(self.gateway.url.as_str());
        let t = trim_chars(u.as_slice());
        if t.len() == 0 {
            return Err(Error::Config(String::from_str(path).concat(": gateway.url must not be empty")));
        }
        Ok(())
    }
}

/// File mode bits that grant any access to group or others.
pub open spec fn mode_is_private(mode: u32) -> bool {
    mode % 64 == 0
}

/// The configuration and the legacy `.auth` file hold the password:
/// anything group or world accessible (`mode & 0o077 != 0`) is refused.
pub fn check_mode(mode: u32, path: &str) -> (r: Result<(), Error>)
    ensures
        mode_is_private(mode) ==> r is Ok,
        !mode_is_private(mode) ==> r is Err && r->Err_0 is Config && error_detail(r->Err_0) == path@
            + " has insecure permissions; run: chmod 600 "@ + path@,
{
    if mode % 64 != 0 {
        return Err(
            Error::Config(
                String::from_str(path).concat(" has insecure permissions; run: chmod 600 ").concat(
                    path,
                ),
            ),
        );
    }
    Ok(())
}
} // verus!
