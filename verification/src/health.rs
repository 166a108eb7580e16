//! The `checkonline` health probe: where it asks, what it sends, and how
//! its answer is read. The daemon runs `curl` and sleeps between probes.

use vstd::prelude::*;

use crate::text::{
    after_char, before_char, chars_of, find_char, slice_chars, string_of, trim, trim_chars, views,
};

verus! {

/// Probes are at least this many seconds apart.
pub const MIN_PROBE_INTERVAL: u64 = 5;

/// The probe interval for a keepalive of `secs` seconds.
pub fn health_interval(secs: u64) -> (r: u64)
    ensures
        r == (if secs < 5 {
            5
        } else {
            secs
        }),
{
    if secs < MIN_PROBE_INTERVAL {
        MIN_PROBE_INTERVAL
    } else {
        secs
    }
}

pub open spec fn checkonline_url_of(gateway: Seq<char>) -> Seq<char> {
    "https://"@ + gateway + "/_xml/checkonline.cgi"@
}

/// The gateway's session check: `https://<gateway>/_xml/checkonline.cgi`.
pub fn checkonline_url(gateway: &str) -> (r: String)
    ensures
        r@ == checkonline_url_of(gateway@),
{
    String::from_str("https://").concat(gateway).concat("/_xml/checkonline.cgi")
}

/// The Netscape cookie line that hands the `svpnginfo` cookie to `curl` on
/// its standard input (so that it never shows in an argument list): the
/// host is the gateway up to its port, the value is the cookie after its
/// first `=`.
pub open spec fn cookie_file_of(gateway: Seq<char>, cookie: Seq<char>) -> Seq<char> {
    before_char(gateway, ':') + "\tFALSE\t/\tFALSE\t0\tsvpnginfo\t"@ + after_char(cookie, '=')
        + "\n"@
}

/// The cookie file for a probe; none when the cookie has no `=` (no probe
/// is made then).
pub fn checkonline_cookie_file(gateway: &str, cookie: &str) -> (r: Option<String>)
    ensures
        match r {
            Some(f) => cookie@.contains('=') && f@
                == cookie_file_of(gateway@, cookie@),
            None => !cookie@.contains('='),
        },
{
    let cc = chars_of(cookie);
    let eq = match find_char(cc.as_slice(), '=') {
        Some(i) => i,
        None => {
            proof {
                lemma_no_first_char(cookie@, '=');
            }
            return None;
        },
    };
    proof {
        lemma_first_char_contains(cookie@, '=');
    }
    assert(eq < cc.len());
    let value = string_of(slice_chars(cc.as_slice(), eq + 1, cc.len()).as_slice());
    let gc = chars_of(gateway);
    let host_end = match find_char(gc.as_slice(), ':') {
        Some(i) => i,
        None => gc.len(),
    };
    let host = string_of(slice_chars(gc.as_slice(), 0, host_end).as_slice());
    proof {
        assert(host@ =~= before_char(gateway@, ':'));
        assert(value@ =~= after_char(cookie@, '='));
    }
    let f = host.concat("\tFALSE\t/\tFALSE\t0\tsvpnginfo\t").concat(value.as_str()).concat("\n");
    Some(f)
}

proof fn lemma_no_first_char(s: Seq<char>, c: char)
    requires
        crate::text::first_char(s, c) is None,
    ensures
        !s.contains(c),
    decreases s.len(),
{
    if s.len() > 0 {
        lemma_no_first_char(s.drop_first(), c);
        assert forall|i: int| 0 <= i < s.len() implies s[i] != c by {
            if i > 0 {
                assert(s.drop_first()[i - 1] == s[i]);
            }
        }
    }
}

proof fn lemma_first_char_contains(s: Seq<char>, c: char)
    requires
        crate::text::first_char(s, c) is Some,
    ensures
        s.contains(c),
    decreases s.len(),
{
    if s[0] == c {
        assert(s[0] == c);
    } else {
        lemma_first_char_contains(s.drop_first(), c);
        let k = choose|k: int| 0 <= k < s.drop_first().len() && s.drop_first()[k] == c;
        assert(s[k + 1] == c);
    }
}

/// `curl`'s arguments for a probe: quiet, 5 s at most, no body, print the
/// status code, read the cookie file from standard input. They are made of
/// the gateway alone: the cookie never appears on the argument list.
pub open spec fn curl_args_of(gateway: Seq<char>) -> Seq<Seq<char>> {
    seq![
        "-ks"@,
        "--max-time"@,
        "5"@,
        "-o"@,
        "/dev/null"@,
        "-w"@,
        "%{http_code}"@,
        "-b"@,
        "-"@,
        checkonline_url_of(gateway),
    ]
}

/// One `curl` run of the probe: its arguments and what it reads on its
/// standard input.
pub struct Probe {
    pub args: Vec<String>,
    pub cookie_file: String,
}

/// The probe for `gateway` with the session `cookie`; none when the cookie
/// has no `=` (no probe is made then).
pub fn checkonline_probe(gateway: &str, cookie: &str) -> (r: Option<Probe>)
    ensures
        match r {
            Some(p) => cookie@.contains('=') && views(p.args@) == curl_args_of(gateway@)
                && p.cookie_file@ == cookie_file_of(gateway@, cookie@),
            None => !cookie@.contains('='),
        },
{
    let cookie_file = match checkonline_cookie_file(gateway, cookie) {
        Some(f) => f,
        None => {
            return None;
        },
    };
    let url = checkonline_url(gateway);
    let ghost uv = url@;
    let args: Vec<String> = vec![
        String::from_str("-ks"),
        String::from_str("--max-time"),
        String::from_str("5"),
        String::from_str("-o"),
        String::from_str("/dev/null"),
        String::from_str("-w"),
        String::from_str("%{http_code}"),
        String::from_str("-b"),
        String::from_str("-"),
        url,
    ];
    assert(views(args@) =~= curl_args_of(gateway@));
    Some(Probe { args, cookie_file })
}

/// The probe succeeded: `curl` printed the status code 200 (surrounding
/// whitespace aside).
pub fn probe_ok(stdout: &str) -> (r: bool)
    ensures
        r == (trim(stdout@) == "200"@),
{
    let c = chars_of(stdout);
    let t = trim_chars(c.as_slice());
    proof {
        reveal_strlit("200");
    }
    if t.len() != 3 {
        return false;
    }
    let r = t[0] == '2' && t[1] == '0' && t[2] == '0';
    proof {
        if r {
            assert(t@ =~= "200"@);
        }
    }
    r
}

} // verus!
