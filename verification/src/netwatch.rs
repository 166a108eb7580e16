//! Which network events are changes of the physical network. The daemon
//! watches `ip monitor address link` (Linux) or the SystemConfiguration
//! dynamic store (macOS) and forwards the events that pass these filters
//! to the session's network-change handling.

use vstd::prelude::*;

use crate::text::{
    after_char, chars_of, contains_chars, contains_seq, find_char, matches_at, slice_chars,
    starts_with, trim, trim_chars, words, words_of,
};

verus! {

/// `s` without its trailing `:` characters (`trim_end_matches(':')`).
pub open spec fn trim_end_colons(s: Seq<char>) -> Seq<char>
    decreases s.len(),
{
    if s.len() > 0 && s.last() == ':' {
        trim_end_colons(s.drop_last())
    } else {
        s
    }
}

/// The first whitespace-separated word, or the empty string.
pub open spec fn first_word(s: Seq<char>) -> Seq<char> {
    if words(s).len() > 0 {
        words(s)[0]
    } else {
        Seq::empty()
    }
}

/// The interface an `ip monitor` line is about: `3: wlo1    inet ...`
/// (address) and `3: wlo1: <...>` (link) both name `wlo1`. None when the
/// line has no `:`.
pub open spec fn event_iface(line: Seq<char>) -> Option<Seq<char>> {
    let t = trim(line);
    if t.contains(':') {
        Some(trim_end_colons(first_word(after_char(t, ':'))))
    } else {
        None
    }
}

/// An event on an interface other than the loopback and the engine's own
/// `tun` devices.
pub open spec fn interesting_event_spec(line: Seq<char>) -> bool {
    match event_iface(line) {
        Some(i) => i.len() > 0 && i != "lo"@ && !starts_with(i, "tun"@),
        None => false,
    }
}

proof fn lemma_first_char_some(s: Seq<char>, c: char)
    requires
        s.contains(c),
    ensures
        crate::text::first_char(s, c) is Some,
    decreases s.len(),
{
    if s[0] != c {
        let k = choose|k: int| 0 <= k < s.len() && s[k] == c;
        assert(s.drop_first()[k - 1] == c);
        lemma_first_char_some(s.drop_first(), c);
    }
}

proof fn lemma_first_char_none(s: Seq<char>, c: char)
    requires
        !s.contains(c),
    ensures
        crate::text::first_char(s, c) is None,
    decreases s.len(),
{
    if s.len() > 0 {
        assert(s[0] != c);
        assert forall|k: int| 0 <= k < s.drop_first().len() implies s.drop_first()[k] != c by {
            assert(s.drop_first()[k] == s[k + 1]);
        }
        lemma_first_char_none(s.drop_first(), c);
    }
}

/// Whether an `ip monitor address link` line is a change of the physical
/// network.
pub fn interesting_event(line: &str) -> (r: bool)
    ensures
        r == interesting_event_spec(line@),
{
    let c = chars_of(line);
    let t = trim_chars(c.as_slice());
    let colon = match find_char(t.as_slice(), ':') {
        Some(i) => i,
        None => {
            proof {
                if t@.contains(':') {
                    lemma_first_char_some(t@, ':');
                }
            }
            return false;
        },
    };
    proof {
        if !t@.contains(':') {
            lemma_first_char_none(t@, ':');
        }
    }
    assert(colon < t.len());
    let rest = slice_chars(t.as_slice(), colon + 1, t.len());
    assert(rest@ =~= after_char(t@, ':'));
    let w = words_of(rest.as_slice());
    let mut iface: Vec<char> = if w.len() > 0 {
        let first = slice_chars(w[0].as_slice(), 0, w[0].len());
        assert(first@ =~= w@[0]@);
        assert(w.deep_view()[0] == w@[0]@);
        first
    } else {
        Vec::new()
    };
    assert(iface@ =~= first_word(rest@));
    let mut end: usize = iface.len();
    while end > 0 && iface[end - 1] == ':'
        invariant
            end <= iface@.len(),
            trim_end_colons(first_word(rest@)) == trim_end_colons(iface@.take(end as int)),
            iface@ == first_word(rest@),
        decreases end,
    {
        assert(iface@.take(end as int).drop_last() =~= iface@.take(end - 1));
        end = end - 1;
    }
    let name = slice_chars(iface.as_slice(), 0, end);
    assert(name@ =~= iface@.take(end as int));
    assert(trim_end_colons(name@) == name@);
    if name.len() == 0 {
        return false;
    }
    let lo = ['l', 'o'];
    let tun = ['t', 'u', 'n'];
    proof {
        reveal_strlit("lo");
        reveal_strlit("tun");
        assert(lo@ =~= "lo"@);
        assert(tun@ =~= "tun"@);
    }
    let is_lo = name.len() == 2 && name[0] == 'l' && name[1] == 'o';
    proof {
        if is_lo {
            assert(name@ =~= "lo"@);
        }
    }
    !is_lo && !matches_at(name.as_slice(), &tun, 0)
}

/// ASCII upper case letters as lower case (`str::to_ascii_lowercase`).
pub open spec fn ascii_lower(c: char) -> char {
    if 'A' <= c && c <= 'Z' {
        ((c as u32) + 32) as char
    } else {
        c
    }
}

pub open spec fn ascii_lowercase(s: Seq<char>) -> Seq<char> {
    s.map_values(|c: char| ascii_lower(c))
}

/// Key parts of virtual interfaces: the engine's own `utun`, loopback,
/// AirDrop, low-latency WLAN, bridges and tunnels.
pub open spec fn ignored_key_parts() -> Seq<Seq<char>> {
    seq![
        "/utun"@,
        "/lo0"@,
        "/awdl"@,
        "/llw"@,
        "/bridge"@,
        "/ipsec"@,
        "/ppp"@,
        "/tap"@,
        "/gif"@,
        "/stf"@,
        "/xlink"@,
    ]
}

/// A SystemConfiguration key, compared without ASCII case, that is the
/// global IPv4 state, a service, or an `en` interface, and names no
/// virtual interface.
pub open spec fn interesting_macos_key_spec(key: Seq<char>) -> bool {
    let k = ascii_lowercase(key);
    &&& !(exists|i: int| 0 <= i < ignored_key_parts().len() && contains_seq(k, #[trigger] ignored_key_parts()[i]))
    &&& (k == "state:/network/global/ipv4"@ || starts_with(k, "state:/network/service/"@)
        || starts_with(k, "state:/network/interface/en"@))
}

/// A change of any `en` interface (`en0`, `en1`, `en7`, ...), whatever
/// follows the name, is looked at, unless the key names a virtual
/// interface.
pub proof fn law_macos_every_en_interface(rest: Seq<char>)
    requires
        forall|i: int|
            0 <= i < ignored_key_parts().len() ==> !contains_seq(
                ascii_lowercase("State:/Network/Interface/en"@ + rest),
                #[trigger] ignored_key_parts()[i],
            ),
    ensures
        interesting_macos_key_spec("State:/Network/Interface/en"@ + rest),
{
    reveal_strlit("State:/Network/Interface/en");
    reveal_strlit("state:/network/interface/en");
    let pre = "State:/Network/Interface/en"@;
    let low = "state:/network/interface/en"@;
    let k = ascii_lowercase(pre + rest);
    assert(ascii_lower('S') == 's');
    assert(ascii_lower('N') == 'n');
    assert(ascii_lower('I') == 'i');
    assert(ascii_lowercase(pre) =~= low);
    assert(k =~= ascii_lowercase(pre) + ascii_lowercase(rest));
    assert(k.subrange(0, low.len() as int) =~= low);
    assert(starts_with(k, low));
}

fn to_ascii_lower(s: &str) -> (r: Vec<char>)
    ensures
        r@ == ascii_lowercase(s@),
{
    let c = chars_of(s);
    let mut out: Vec<char> = Vec::new();
    let mut i: usize = 0;
    while i < c.len()
        invariant
            c@ == s@,
            i <= c@.len(),
            out@ == ascii_lowercase(c@.take(i as int)),
        decreases c.len() - i,
    {
        let ch = c[i];
        let lower = if 'A' <= ch && ch <= 'Z' {
            ((ch as u32) + 32) as u8 as char
        } else {
            ch
        };
        proof {
            if 'A' <= ch && ch <= 'Z' {
                assert(((ch as u32) + 32) as u8 as char == ((ch as u32) + 32) as char);
            }
        }
        out.push(lower);
        assert(ascii_lowercase(c@.take(i + 1)) =~= ascii_lowercase(c@.take(i as int)).push(
            ascii_lower(ch),
        ));
        i = i + 1;
    }
    assert(c@.take(i as int) =~= c@);
    out
}

fn chars_of_str(s: &str) -> (r: Vec<char>)
    ensures
        r@ == s@,
{
    chars_of(s)
}

/// Whether a changed SystemConfiguration key describes the physical
/// network rather than the engine's own tunnel plumbing.
pub fn interesting_macos_key(key: &str) -> (r: bool)
    ensures
        r == interesting_macos_key_spec(key@),
{
    let k = to_ascii_lower(key);
    let parts: [&str; 11] = [
        "/utun",
        "/lo0",
        "/awdl",
        "/llw",
        "/bridge",
        "/ipsec",
        "/ppp",
        "/tap",
        "/gif",
        "/stf",
        "/xlink",
    ];
    proof {
        reveal_strlit("/utun");
        reveal_strlit("/lo0");
        reveal_strlit("/awdl");
        reveal_strlit("/llw");
        reveal_strlit("/bridge");
        reveal_strlit("/ipsec");
        reveal_strlit("/ppp");
        reveal_strlit("/tap");
        reveal_strlit("/gif");
        reveal_strlit("/stf");
        reveal_strlit("/xlink");
        assert(parts@.map_values(|p: &str| p@) =~= ignored_key_parts());
    }
    let mut i: usize = 0;
    while i < 11
        invariant
            i <= 11,
            k@ == ascii_lowercase(key@),
            parts@.map_values(|p: &str| p@) == ignored_key_parts(),
            forall|j: int| 0 <= j < i ==> !contains_seq(k@, #[trigger] ignored_key_parts()[j]),
        decreases 11 - i,
    {
        let p = chars_of_str(parts[i]);
        assert(p@ == ignored_key_parts()[i as int]);
        if contains_chars(k.as_slice(), p.as_slice()) {
            return false;
        }
        i = i + 1;
    }
    let global = chars_of_str("state:/network/global/ipv4");
    let service = chars_of_str("state:/network/service/");
    let en = chars_of_str("state:/network/interface/en");
    let is_global = global.len() == k.len() && matches_at(k.as_slice(), global.as_slice(), 0);
    proof {
        if is_global {
            assert(k@.subrange(0, global@.len() as int) =~= k@);
        }
        if k@ == "state:/network/global/ipv4"@ {
            assert(k@.subrange(0, global@.len() as int) =~= k@);
        }
    }
    is_global || matches_at(k.as_slice(), service.as_slice(), 0) || matches_at(
        k.as_slice(),
        en.as_slice(),
        0,
    )
}

} // verus!
