//! Redaction of secrets (passwords, session cookies) from text that leaves
//! the daemon: logs, status output and diagnostic bundles.

use vstd::prelude::*;
use vstd::utf8::encode_utf8;

use crate::config::Credentials;
use crate::text::{
    chars_of, contains_seq, nonempty_pred, occurs_at, replace_all, replace_chars, string_of, views,
};

verus! {

/// What every secret is replaced with.
pub const REDACTED: &'static str = "<redacted>";

/// The characters of [`REDACTED`].
pub open spec fn marker() -> Seq<char> {
    seq!['<', 'r', 'e', 'd', 'a', 'c', 't', 'e', 'd', '>']
}

/// The length of a string in UTF-8 bytes (Rust's `str::len`).
pub open spec fn byte_len(s: Seq<char>) -> nat {
    encode_utf8(s).len()
}

/// Longer secrets come first, so that a secret containing a shorter one is
/// replaced whole.
pub open spec fn sorted_by_len_desc(s: Seq<Seq<char>>) -> bool {
    forall|i: int, j: int| 0 <= i < j < s.len() ==> byte_len(s[i]) >= byte_len(s[j])
}

pub open spec fn len_is(l: nat) -> spec_fn(Seq<char>) -> bool {
    |x: Seq<char>| byte_len(x) == l
}

/// `out` is `input` sorted by decreasing byte length, equal lengths keeping
/// their order (a stable sort, as `sort_by_key` is).
pub open spec fn stable_sorted_by_len_desc(out: Seq<Seq<char>>, input: Seq<Seq<char>>) -> bool {
    &&& sorted_by_len_desc(out)
    &&& forall|l: nat| #[trigger] out.filter(len_is(l)) == input.filter(len_is(l))
}

/// Every secret is non-empty and longer secrets come first.
pub open spec fn secrets_wf(s: Seq<Seq<char>>) -> bool {
    &&& sorted_by_len_desc(s)
    &&& forall|i: int| 0 <= i < s.len() ==> (#[trigger] s[i]).len() > 0
}

/// The secrets of a redactor, longest first.
#[derive(Debug)]
pub struct Redactor {
    secrets: Vec<String>,
}

impl View for Redactor {
    type V = Seq<Seq<char>>;

    closed spec fn view(&self) -> Seq<Seq<char>> {
        views(self.secrets@)
    }
}

impl Redactor {
    #[verifier::type_invariant]
    spec fn inv(&self) -> bool {
        secrets_wf(views(self.secrets@))
    }
}

proof fn lemma_views_insert(v: Seq<String>, j: int, x: String)
    requires
        0 <= j <= v.len(),
    ensures
        views(v.insert(j, x)) == views(v).insert(j, x@),
{
    assert(views(v.insert(j, x)) =~= views(v).insert(j, x@));
}

proof fn lemma_views_push(v: Seq<String>, x: String)
    ensures
        views(v.push(x)) == views(v).push(x@),
{
    assert(views(v.push(x)) =~= views(v).push(x@));
}

/// Inserting `x` after every element at least as long keeps a sorted
/// sequence sorted, and is what a stable sort of `s.push(x)` gives.
proof fn lemma_insert_by_len(s: Seq<Seq<char>>, j: int, x: Seq<char>)
    requires
        sorted_by_len_desc(s),
        0 <= j <= s.len(),
        forall|k: int| 0 <= k < j ==> byte_len(s[k]) >= byte_len(x),
        j < s.len() ==> byte_len(s[j]) < byte_len(x),
    ensures
        sorted_by_len_desc(s.insert(j, x)),
        forall|l: nat| #[trigger] s.insert(j, x).filter(len_is(l)) == s.push(x).filter(len_is(l)),
{
    let t = s.insert(j, x);
    assert forall|a: int, b: int| 0 <= a < b < t.len() implies byte_len(t[a]) >= byte_len(
        t[b],
    ) by {
        if a < j && b == j {
        } else if a == j && b > j {
            assert(t[b] == s[b - 1]);
            if b - 1 > j {
                assert(byte_len(s[j]) >= byte_len(s[b - 1]));
            }
        } else if a < j && b > j {
            assert(t[b] == s[b - 1]);
        } else if a > j {
            assert(t[a] == s[a - 1] && t[b] == s[b - 1]);
        }
    }
    let pre = s.take(j);
    let post = s.skip(j);
    assert(s =~= pre + post);
    assert(t =~= pre + seq![x] + post);
    assert forall|l: nat| #[trigger] t.filter(len_is(l)) == s.push(x).filter(len_is(l)) by {
        broadcast use Seq::filter_distributes_over_add, Seq::lemma_filter_push;

        assert((pre + seq![x] + post).filter(len_is(l)) == (pre + seq![x]).filter(len_is(l))
            + post.filter(len_is(l)));
        assert((pre + seq![x]).filter(len_is(l)) == pre.filter(len_is(l)) + seq![x].filter(
            len_is(l),
        ));
        assert(s.filter(len_is(l)) == pre.filter(len_is(l)) + post.filter(len_is(l)));
        assert(seq![x] =~= Seq::<Seq<char>>::empty().push(x));
        assert(Seq::<Seq<char>>::empty().filter(len_is(l)) =~= Seq::<Seq<char>>::empty());
        if byte_len(x) == l {
            assert forall|k: int| 0 <= k < post.len() implies !len_is(l)(post[k]) by {
                assert(post[k] == s[j + k]);
                if k > 0 {
                    assert(byte_len(s[j]) >= byte_len(s[j + k]));
                }
            }
            post.lemma_all_neg_filter_empty(len_is(l));
            assert(post.filter(len_is(l)) =~= Seq::<Seq<char>>::empty());
            assert(t.filter(len_is(l)) =~= s.push(x).filter(len_is(l)));
        } else {
            assert(t.filter(len_is(l)) =~= s.push(x).filter(len_is(l)));
        }
    }
}

/// Inserts `x` behind every secret at least as long.
fn insert_by_len(v: &mut Vec<String>, x: String) -> (j: usize)
    requires
        sorted_by_len_desc(views(old(v)@)),
    ensures
        j <= old(v)@.len(),
        final(v)@ == old(v)@.insert(j as int, x),
        sorted_by_len_desc(views(final(v)@)),
        forall|l: nat| #[trigger] views(final(v)@).filter(len_is(l)) == views(old(v)@).push(
            x@,
        ).filter(len_is(l)),
{
    let xl = x.as_str().as_bytes().len();
    let mut j: usize = 0;
    while j < v.len() && v[j].as_str().as_bytes().len() >= xl
        invariant
            j <= v@.len(),
            xl == byte_len(x@),
            forall|k: int| 0 <= k < j ==> byte_len(views(v@)[k]) >= byte_len(x@),
        decreases v.len() - j,
    {
        j = j + 1;
    }
    proof {
        lemma_insert_by_len(views(v@), j as int, x@);
        lemma_views_insert(v@, j as int, x);
        lemma_views_push(v@, x);
    }
    v.insert(j, x);
    j
}

impl Redactor {
    /// A redactor for the non-empty `secrets`, longest first.
    pub fn new(secrets: Vec<String>) -> (r: Redactor)
        ensures
            stable_sorted_by_len_desc(r@, views(secrets@).filter(nonempty_pred())),
            secrets_wf(r@),
    {
        broadcast use Seq::lemma_filter_push;

        let mut out: Vec<String> = Vec::new();
        let mut i: usize = 0;
        assert(views(secrets@).take(0).filter(nonempty_pred()) =~= Seq::<Seq<char>>::empty());
        assert(views(out@) =~= Seq::<Seq<char>>::empty());
        assert forall|l: nat| #[trigger] Seq::<Seq<char>>::empty().filter(len_is(l))
            =~= Seq::<Seq<char>>::empty() by {
            reveal(Seq::filter);
        }
        while i < secrets.len()
            invariant
                i <= secrets@.len(),
                stable_sorted_by_len_desc(
                    views(out@),
                    views(secrets@).take(i as int).filter(nonempty_pred()),
                ),
                forall|k: int| 0 <= k < out@.len() ==> (#[trigger] out@[k])@.len() > 0,
            decreases secrets.len() - i,
        {
            let s = secrets[i].clone();
            let ghost prefix = views(secrets@).take(i as int);
            assert(views(secrets@).take(i + 1) =~= prefix.push(s@));
            proof {
                prefix.lemma_filter_push(s@, nonempty_pred());
            }
            if !s.as_str().is_empty() {
                let ghost before = out@;
                let ghost sv = s@;
                let j = insert_by_len(&mut out, s);
                let ghost f = prefix.filter(nonempty_pred());
                assert forall|l: nat| #[trigger] views(out@).filter(len_is(l)) == f.push(
                    sv,
                ).filter(len_is(l)) by {
                    views(before).lemma_filter_push(sv, len_is(l));
                    f.lemma_filter_push(sv, len_is(l));
                }
                assert forall|k: int| 0 <= k < out@.len() implies (#[trigger] out@[k])@.len() > 0 by {
                    if k < j {
                        assert(out@[k] == before[k]);
                    } else if k > j {
                        assert(out@[k] == before[k - 1]);
                    }
                }
            }
            i = i + 1;
        }
        assert(views(secrets@).take(i as int) =~= views(secrets@));
        Redactor { secrets: out }
    }
}


/// No occurrence of `q` can begin inside `r`: `q` lacks `r`'s first
/// character, and no part of `q` lines up with `r` from any position on.
pub open spec fn straddle_free(q: Seq<char>, r: Seq<char>) -> bool {
    &&& !q.contains(r[0])
    &&& forall|i: int| 0 <= i < r.len() ==> !#[trigger] lines_up(q, r, i)
}

/// `q`, placed at position `i` of `r`, agrees with `r` as far as `r` goes.
pub open spec fn lines_up(q: Seq<char>, r: Seq<char>, i: int) -> bool {
    if i + q.len() <= r.len() {
        r.subrange(i, i + q.len()) == q
    } else {
        r.skip(i) == q.take(r.len() - i)
    }
}

/// The marker's inside: `redacted`.
pub open spec fn marker_inside() -> Seq<char> {
    seq!['r', 'e', 'd', 'a', 'c', 't', 'e', 'd']
}

/// A secret redaction is sure to remove: non-empty, without `<` or `>`,
/// and not a part of `redacted`.
pub open spec fn safe_secret(q: Seq<char>) -> bool {
    &&& q.len() > 0
    &&& !q.contains('<')
    &&& !q.contains('>')
    &&& !contains_seq(marker_inside(), q)
}

/// A safe secret cannot begin inside the marker.
pub proof fn lemma_safe_straddle_free(q: Seq<char>)
    requires
        safe_secret(q),
    ensures
        straddle_free(q, marker()),
{
    let r = marker();
    assert(r[0] == '<');
    assert(!q.contains(r[0]));
    assert forall|i: int| 0 <= i < r.len() implies !#[trigger] lines_up(q, r, i) by {
        if i + q.len() <= r.len() {
            if r.subrange(i, i + q.len()) == q {
                if i == 0 {
                    assert(q[0] == r[0]);
                    assert(q.contains('<'));
                } else if i + q.len() == r.len() {
                    assert(q[q.len() - 1] == r[9]);
                    assert(q.contains('>'));
                } else {
                    assert(marker_inside().subrange(i - 1, i - 1 + q.len()) =~= r.subrange(
                        i,
                        i + q.len(),
                    ));
                    assert(occurs_at(marker_inside(), q, i - 1));
                }
            }
        } else {
            if r.skip(i) == q.take(r.len() - i) {
                assert(q.take(r.len() - i)[9 - i] == r.skip(i)[9 - i]);
                assert(q[9 - i] == '>');
                assert(q.contains('>'));
            }
        }
    }
}

/// No occurrence of `q` in `r + x` begins inside `r`.
proof fn lemma_no_straddle(r: Seq<char>, x: Seq<char>, q: Seq<char>, i: int)
    requires
        straddle_free(q, r),
        q.len() > 0,
        0 <= i < r.len(),
    ensures
        !occurs_at(r + x, q, i),
{
    let o = r + x;
    assert(!lines_up(q, r, i));
    if !occurs_at(o, q, i) {
    } else if i + q.len() <= r.len() {
        assert(r.subrange(i, i + q.len()) =~= o.subrange(i, i + q.len()));
    } else {
        assert(r.skip(i) =~= o.subrange(i, i + q.len()).take(r.len() - i));
        assert(r.skip(i) =~= q.take(r.len() - i));
    }
}

/// What `redact` makes of `text`: each secret in turn, every occurrence
/// replaced by the marker.
pub open spec fn redact_all(text: Seq<char>, secrets: Seq<Seq<char>>) -> Seq<char>
    decreases secrets.len(),
{
    if secrets.len() == 0 {
        text
    } else {
        redact_all(replace_all(text, secrets[0], marker()), secrets.drop_first())
    }
}

proof fn lemma_occurs_in_tail(a: Seq<char>, b: Seq<char>, q: Seq<char>, i: int)
    requires
        occurs_at(a + b, q, i),
        i >= a.len(),
    ensures
        occurs_at(b, q, i - a.len()),
{
    assert((a + b).subrange(i, i + q.len()) =~= b.subrange(i - a.len(), i - a.len() + q.len()));
}

proof fn lemma_occurs_shift(t: Seq<char>, n: int, q: Seq<char>, j: int)
    requires
        0 <= n <= t.len(),
        occurs_at(t.skip(n), q, j),
    ensures
        occurs_at(t, q, j + n),
{
    assert(t.subrange(j + n, j + n + q.len()) =~= t.skip(n).subrange(j, j + q.len()));
}

/// Until the first character of the replacement, the result of a
/// replacement is a copy of its input.
proof fn lemma_replace_prefix(t: Seq<char>, p: Seq<char>, r: Seq<char>, k: int)
    requires
        p.len() > 0,
        r.len() > 0,
        0 <= k <= replace_all(t, p, r).len(),
        forall|i: int| 0 <= i < k ==> #[trigger] replace_all(t, p, r)[i] != r[0],
    ensures
        k <= t.len(),
        replace_all(t, p, r).take(k) == t.take(k),
    decreases t.len(),
{
    let o = replace_all(t, p, r);
    if k == 0 {
        assert(o.take(0) =~= t.take(0));
    } else if t.len() < p.len() {
    } else if t.take(p.len() as int) == p {
        assert(o[0] == r[0]);
    } else {
        let t2 = t.drop_first();
        let o2 = replace_all(t2, p, r);
        assert(o =~= seq![t[0]] + o2);
        assert forall|i: int| 0 <= i < k - 1 implies #[trigger] o2[i] != r[0] by {
            assert(o[i + 1] == o2[i]);
        }
        lemma_replace_prefix(t2, p, r, k - 1);
        assert(o.take(k) =~= seq![t[0]] + o2.take(k - 1));
        assert(t.take(k) =~= seq![t[0]] + t2.take(k - 1));
    }
}

proof fn lemma_not_in_drop_first(t: Seq<char>, q: Seq<char>)
    requires
        t.len() > 0,
        !contains_seq(t, q),
    ensures
        !contains_seq(t.drop_first(), q),
{
    assert forall|j: int| !occurs_at(t.drop_first(), q, j) by {
        if occurs_at(t.drop_first(), q, j) {
            lemma_occurs_shift(t, 1, q, j);
        }
    }
}

proof fn lemma_not_in_skip(t: Seq<char>, n: int, q: Seq<char>)
    requires
        0 <= n <= t.len(),
        !contains_seq(t, q),
    ensures
        !contains_seq(t.skip(n), q),
{
    assert forall|j: int| !occurs_at(t.skip(n), q, j) by {
        if occurs_at(t.skip(n), q, j) {
            lemma_occurs_shift(t, n, q, j);
        }
    }
}

/// A replacement by text inside which `q` cannot begin creates no
/// occurrence of `q`.
pub proof fn lemma_replace_keeps_absent(t: Seq<char>, p: Seq<char>, r: Seq<char>, q: Seq<char>)
    requires
        p.len() > 0,
        r.len() > 0,
        q.len() > 0,
        straddle_free(q, r),
        !contains_seq(t, q),
    ensures
        !contains_seq(replace_all(t, p, r), q),
    decreases t.len(),
{
    let o = replace_all(t, p, r);
    if t.len() < p.len() {
    } else if t.take(p.len() as int) == p {
        let rest = t.skip(p.len() as int);
        lemma_not_in_skip(t, p.len() as int, q);
        lemma_replace_keeps_absent(rest, p, r, q);
        let o2 = replace_all(rest, p, r);
        assert forall|i: int| !occurs_at(o, q, i) by {
            if occurs_at(o, q, i) {
                if i < r.len() {
                    lemma_no_straddle(r, o2, q, i);
                } else {
                    lemma_occurs_in_tail(r, o2, q, i);
                }
            }
        }
    } else {
        let t2 = t.drop_first();
        lemma_not_in_drop_first(t, q);
        lemma_replace_keeps_absent(t2, p, r, q);
        let o2 = replace_all(t2, p, r);
        assert(o =~= seq![t[0]] + o2);
        assert forall|i: int| !occurs_at(o, q, i) by {
            if occurs_at(o, q, i) {
                if i >= 1 {
                    lemma_occurs_in_tail(seq![t[0]], o2, q, i);
                } else {
                    let k = q.len() - 1;
                    assert forall|m: int| 0 <= m < k implies #[trigger] o2[m] != r[0] by {
                        assert(o.subrange(0, q.len() as int)[m + 1] == q[m + 1]);
                        assert(o[m + 1] == o2[m]);
                        assert(q.contains(q[m + 1]));
                    }
                    lemma_replace_prefix(t2, p, r, k);
                    assert(o.subrange(0, q.len() as int) =~= seq![t[0]] + o2.take(k));
                    assert(t.subrange(0, q.len() as int) =~= seq![t[0]] + t2.take(k));
                    assert(occurs_at(t, q, 0));
                }
            }
        }
    }
}

/// After replacing every occurrence of `p` by text inside which `p` cannot
/// begin, no occurrence of `p` is left.
pub proof fn lemma_replace_removes(t: Seq<char>, p: Seq<char>, r: Seq<char>)
    requires
        p.len() > 0,
        r.len() > 0,
        straddle_free(p, r),
    ensures
        !contains_seq(replace_all(t, p, r), p),
    decreases t.len(),
{
    let o = replace_all(t, p, r);
    if t.len() < p.len() {
    } else if t.take(p.len() as int) == p {
        let rest = t.skip(p.len() as int);
        lemma_replace_removes(rest, p, r);
        let o2 = replace_all(rest, p, r);
        assert forall|i: int| !occurs_at(o, p, i) by {
            if occurs_at(o, p, i) {
                if i < r.len() {
                    lemma_no_straddle(r, o2, p, i);
                } else {
                    lemma_occurs_in_tail(r, o2, p, i);
                }
            }
        }
    } else {
        let t2 = t.drop_first();
        lemma_replace_removes(t2, p, r);
        let o2 = replace_all(t2, p, r);
        assert(o =~= seq![t[0]] + o2);
        assert forall|i: int| !occurs_at(o, p, i) by {
            if occurs_at(o, p, i) {
                if i >= 1 {
                    lemma_occurs_in_tail(seq![t[0]], o2, p, i);
                } else {
                    let k = p.len() - 1;
                    assert forall|m: int| 0 <= m < k implies #[trigger] o2[m] != r[0] by {
                        assert(o.subrange(0, p.len() as int)[m + 1] == p[m + 1]);
                        assert(o[m + 1] == o2[m]);
                        assert(p.contains(p[m + 1]));
                    }
                    lemma_replace_prefix(t2, p, r, k);
                    assert(o.subrange(0, p.len() as int) =~= seq![t[0]] + o2.take(k));
                    assert(t.subrange(0, p.len() as int) =~= seq![t[0]] + t2.take(k));
                    assert(t.take(p.len() as int) =~= p);
                }
            }
        }
    }
}

/// Replacing a pattern that does not occur changes nothing.
pub proof fn lemma_replace_absent(t: Seq<char>, p: Seq<char>, r: Seq<char>)
    requires
        !contains_seq(t, p),
    ensures
        replace_all(t, p, r) == t,
    decreases t.len(),
{
    if p.len() == 0 || t.len() < p.len() {
    } else if t.take(p.len() as int) == p {
        assert(t.subrange(0, p.len() as int) =~= t.take(p.len() as int));
        assert(occurs_at(t, p, 0));
    } else {
        lemma_not_in_drop_first(t, p);
        lemma_replace_absent(t.drop_first(), p, r);
        assert(t =~= seq![t[0]] + t.drop_first());
    }
}

fn marker_chars() -> (m: Vec<char>)
    ensures
        m@ == marker(),
{
    let m = vec!['<', 'r', 'e', 'd', 'a', 'c', 't', 'e', 'd', '>'];
    assert(m@ =~= marker());
    m
}

impl Redactor {
    /// Registers the secrets of a configuration's credentials: the
    /// password, then the user name.
    pub fn add_credentials(&mut self, creds: &Credentials)
        ensures
            secrets_wf(final(self)@),
            exists|mid: Seq<Seq<char>>|
                add_outcome(old(self)@, creds.password@, mid) && #[trigger] add_outcome(
                    mid,
                    creds.username@,
                    final(self)@,
                ),
    {
        self.add(creds.password.clone());
        let ghost mid = self@;
        self.add(creds.username.clone());
        assert(add_outcome(old(self)@, creds.password@, mid) && add_outcome(mid, creds.username@, self@));
    }
}

impl Redactor {
    /// Registers one more secret: an empty one, or one already known, is
    /// ignored; otherwise it is placed behind every secret at least as long.
    pub fn add(&mut self, secret: String)
        ensures
            secrets_wf(final(self)@),
            add_outcome(old(self)@, secret@, final(self)@),
    {
        proof {
            use_type_invariant(&*self);
        }
        let mut known = false;
        let mut k: usize = 0;
        while k < self.secrets.len()
            invariant
                k <= self.secrets@.len(),
                known <==> exists|m: int| 0 <= m < k && self.secrets@[m]@ == secret@,
            decreases self.secrets.len() - k,
        {
            if self.secrets[k] == secret {
                known = true;
            }
            k = k + 1;
        }
        assert(known <==> self@.contains(secret@)) by {
            if self@.contains(secret@) {
                let m = choose|m: int| 0 <= m < self@.len() && self@[m] == secret@;
                assert(self.secrets@[m]@ == self@[m]);
            }
            if known {
                let m = choose|m: int| 0 <= m < k && self.secrets@[m]@ == secret@;
                assert(self@[m] == self.secrets@[m]@);
            }
        }
        if !secret.as_str().is_empty() && !known {
            let mut v: Vec<String> = Vec::new();
            std::mem::swap(&mut v, &mut self.secrets);
            let ghost before = v@;
            let j = insert_by_len(&mut v, secret);
            assert forall|m: int| 0 <= m < v@.len() implies (#[trigger] views(v@)[m]).len() > 0 by {
                if m < j {
                    assert(v@[m] == before[m]);
                    assert(views(before)[m] == before[m]@);
                } else if m > j {
                    assert(v@[m] == before[m - 1]);
                    assert(views(before)[m - 1] == before[m - 1]@);
                }
            }
            self.secrets = v;
        }
    }

    /// Replaces every occurrence of every secret, longest secret first, by
    /// [`REDACTED`].
    pub fn redact(&self, input: &str) -> (r: String)
        ensures
            r@ == redact_all(input@, self@),
            secrets_wf(self@),
    {
        proof {
            use_type_invariant(self);
        }
        let m = marker_chars();
        let mut out = chars_of(input);
        let mut k: usize = 0;
        assert(self@.skip(0) =~= self@);
        while k < self.secrets.len()
            invariant
                k <= self.secrets@.len(),
                m@ == marker(),
                secrets_wf(self@),
                redact_all(input@, self@) == redact_all(out@, self@.skip(k as int)),
            decreases self.secrets.len() - k,
        {
            let p = chars_of(self.secrets[k].as_str());
            assert(p@ == self@[k as int]);
            assert(self@.skip(k as int).drop_first() =~= self@.skip(k + 1));
            out = replace_chars(out.as_slice(), p.as_slice(), m.as_slice());
            k = k + 1;
        }
        assert(self@.skip(k as int) =~= Seq::<Seq<char>>::empty());
        string_of(out.as_slice())
    }
}

impl Clone for Redactor {
    fn clone(&self) -> (r: Redactor)
        ensures
            r@ == self@,
    {
        proof {
            use_type_invariant(self);
        }
        let v = self.secrets.clone();
        assert(views(v@) =~= v.deep_view());
        assert(views(self.secrets@) =~= self.secrets.deep_view());
        Redactor { secrets: v }
    }
}

impl Default for Redactor {
    fn default() -> (r: Redactor)
        ensures
            r@ == Seq::<Seq<char>>::empty(),
    {
        let r = Redactor { secrets: Vec::new() };
        assert(r@ =~= Seq::<Seq<char>>::empty());
        r
    }
}

/// Redaction leaves no secret behind: a secret without `<` or `>` that is
/// not a part of `redacted` does not occur in the redacted text.
pub proof fn law_redaction_removes_secrets(secrets: Seq<Seq<char>>, input: Seq<char>)
    requires
        forall|k: int| 0 <= k < secrets.len() ==> (#[trigger] secrets[k]).len() > 0,
    ensures
        forall|k: int|
            0 <= k < secrets.len() && safe_secret(#[trigger] secrets[k]) ==> !contains_seq(
                redact_all(input, secrets),
                secrets[k],
            ),
    decreases secrets.len(),
{
    if secrets.len() > 0 {
        let t = replace_all(input, secrets[0], marker());
        let rest = secrets.drop_first();
        assert forall|k: int| 0 <= k < rest.len() implies (#[trigger] rest[k]).len() > 0 by {
            assert(rest[k] == secrets[k + 1]);
        }
        law_redaction_removes_secrets(rest, t);
        assert forall|k: int|
            0 <= k < secrets.len() && safe_secret(#[trigger] secrets[k]) implies !contains_seq(
            redact_all(input, secrets),
            secrets[k],
        ) by {
            if k > 0 {
                assert(secrets[k] == rest[k - 1]);
            } else {
                lemma_safe_straddle_free(secrets[0]);
                lemma_replace_removes(input, secrets[0], marker());
                lemma_absence_survives(t, rest, secrets[0]);
            }
        }
    }
}

/// Redaction by non-empty secrets never creates an occurrence of a safe
/// secret.
pub proof fn lemma_absence_survives(t: Seq<char>, secrets: Seq<Seq<char>>, q: Seq<char>)
    requires
        forall|k: int| 0 <= k < secrets.len() ==> (#[trigger] secrets[k]).len() > 0,
        safe_secret(q),
        !contains_seq(t, q),
    ensures
        !contains_seq(redact_all(t, secrets), q),
    decreases secrets.len(),
{
    if secrets.len() > 0 {
        lemma_safe_straddle_free(q);
        assert(secrets[0].len() > 0);
        lemma_replace_keeps_absent(t, secrets[0], marker(), q);
        let rest = secrets.drop_first();
        assert forall|k: int| 0 <= k < rest.len() implies (#[trigger] rest[k]).len() > 0 by {
            assert(rest[k] == secrets[k + 1]);
        }
        lemma_absence_survives(replace_all(t, secrets[0], marker()), rest, q);
    }
}

/// Text in which no secret occurs passes through redaction unchanged.
pub proof fn law_redaction_keeps_clean_text(secrets: Seq<Seq<char>>, input: Seq<char>)
    requires
        forall|k: int| 0 <= k < secrets.len() ==> !contains_seq(input, #[trigger] secrets[k]),
    ensures
        redact_all(input, secrets) == input,
    decreases secrets.len(),
{
    if secrets.len() > 0 {
        lemma_replace_absent(input, secrets[0], marker());
        let rest = secrets.drop_first();
        assert forall|k: int| 0 <= k < rest.len() implies !contains_seq(input, #[trigger] rest[k]) by {
            assert(rest[k] == secrets[k + 1]);
        }
        law_redaction_keeps_clean_text(rest, input);
    }
}

/// Redacting twice is redacting once, for secrets without `<` or `>` that
/// are not a part of `redacted`.
pub proof fn law_redaction_idempotent(secrets: Seq<Seq<char>>, input: Seq<char>)
    requires
        forall|k: int|
            0 <= k < secrets.len() ==> safe_secret(#[trigger] secrets[k]),
    ensures
        redact_all(redact_all(input, secrets), secrets) == redact_all(input, secrets),
{
    law_redaction_removes_secrets(secrets, input);
    let once = redact_all(input, secrets);
    assert forall|k: int| 0 <= k < secrets.len() implies !contains_seq(once, #[trigger] secrets[k]) by {
        assert(safe_secret(secrets[k]));
    }
    law_redaction_keeps_clean_text(secrets, once);
}
/// What adding `x` makes of the secrets `s`: an empty or known secret
/// leaves them as they are; another one joins them, behind every secret at
/// least as long.
pub open spec fn add_outcome(s: Seq<Seq<char>>, x: Seq<char>, t: Seq<Seq<char>>) -> bool {
    if x.len() > 0 && !s.contains(x) {
        stable_sorted_by_len_desc(t, s.push(x))
    } else {
        t == s
    }
}

proof fn lemma_same_members(t: Seq<Seq<char>>, s: Seq<Seq<char>>, y: Seq<char>)
    requires
        forall|l: nat| #[trigger] t.filter(len_is(l)) == s.filter(len_is(l)),
        t.contains(y),
    ensures
        s.contains(y),
{
    let l = byte_len(y);
    let i = choose|i: int| 0 <= i < t.len() && t[i] == y;
    assert(len_is(l)(t[i]));
    t.lemma_filter_contains(len_is(l), i);
    assert(t.filter(len_is(l)) == s.filter(len_is(l)));
    s.lemma_filter_contains_rev(len_is(l), y);
}

/// Adding a secret makes the secrets the old ones and the new one (an
/// empty secret is never kept), and adding it a second time changes
/// nothing.
pub proof fn law_add_secret(s: Seq<Seq<char>>, x: Seq<char>, t: Seq<Seq<char>>, u: Seq<Seq<char>>)
    requires
        add_outcome(s, x, t),
        add_outcome(t, x, u),
    ensures
        forall|y: Seq<char>| #[trigger] t.contains(y) <==> (s.contains(y) || (y == x && x.len() > 0)),
        u == t,
{
    if x.len() > 0 && !s.contains(x) {
        let sx = s.push(x);
        assert forall|y: Seq<char>| #[trigger] t.contains(y) <==> (s.contains(y) || (y == x
            && x.len() > 0)) by {
            if t.contains(y) {
                lemma_same_members(t, sx, y);
                let i = choose|i: int| 0 <= i < sx.len() && sx[i] == y;
                if i < s.len() {
                    assert(s[i] == y);
                }
            }
            if s.contains(y) || y == x {
                assert(sx.contains(y)) by {
                    if y == x {
                        assert(sx[s.len() as int] == x);
                    } else {
                        let i = choose|i: int| 0 <= i < s.len() && s[i] == y;
                        assert(sx[i] == y);
                    }
                }
                assert forall|l: nat| #[trigger] sx.filter(len_is(l)) == t.filter(len_is(l)) by {
                    assert(t.filter(len_is(l)) == sx.filter(len_is(l)));
                }
                lemma_same_members(sx, t, y);
            }
        }
        assert(t.contains(x));
    }
}

} // verus!
