//! (host, credential) pairs drawn from the registry, and the labels and
//! lines shown for them.
use vstd::prelude::*;
use vstd::string::*;
use crate::hosts::{Hosts, entries_map, keys_distinct, names_view};
use crate::text::{owned, seq_lt, str_eq, str_lt};

verus! {

/// The terminal sequence that ends a styled span.
pub open spec fn style_reset() -> Seq<char> {
    seq!['\x1B', '[', '0', 'm']
}

/// A word as `colored` may render it styled: unchanged when colouring is off
/// for this process (environment or terminal), else between an escape
/// sequence that starts with `ESC [` and the reset sequence.
pub open spec fn styled_form(word: Seq<char>, r: Seq<char>) -> bool {
    r == word || exists|p: Seq<char>| p.len() >= 2 && p[0] == '\x1B' && p[1] == '[' && #[trigger] (p + word + style_reset()) == r
}

/// Relies on `colored::Colorize::red` and `bold` and the `Display` of
/// `ColoredString`: the plain word when colouring is off, else the style
/// prefix, the word (which holds no escape character, so nothing in it is
/// rewritten) and the reset sequence.
#[verifier::external_body]
fn red_bold(word: &str) -> (r: String)
    requires
        forall|i: int| 0 <= i < word@.len() ==> word@[i] != '\x1B',
    ensures
        styled_form(word@, r@),
{
    colored::Colorize::bold(colored::Colorize::red(word)).to_string()
}

/// One credential of one host.
#[derive(Debug)]
pub struct CredentialPair {
    pub host: String,
    pub credential: String,
}

impl View for CredentialPair {
    type V = (Seq<char>, Seq<char>);

    open spec fn view(&self) -> (Seq<char>, Seq<char>) {
        (self.host@, self.credential@)
    }
}

impl PartialEq for CredentialPair {
    fn eq(&self, o: &CredentialPair) -> (r: bool) {
        str_eq(self.host.as_str(), o.host.as_str()) && str_eq(self.credential.as_str(), o.credential.as_str())
    }
}

impl vstd::std_specs::cmp::PartialEqSpecImpl for CredentialPair {
    open spec fn obeys_eq_spec() -> bool {
        true
    }

    open spec fn eq_spec(&self, o: &CredentialPair) -> bool {
        self@ == o@
    }
}

/// The views of a list of pairs.
pub open spec fn pairs_view(v: Seq<CredentialPair>) -> Seq<(Seq<char>, Seq<char>)> {
    v.map_values(|p: CredentialPair| p@)
}

/// The label `credential (host)`.
pub open spec fn label_of(p: (Seq<char>, Seq<char>)) -> Seq<char> {
    p.1 + " ("@ + p.0 + ")"@
}

impl CredentialPair {
    /// A pair from its host and credential.
    pub fn new(host: &str, credential: &str) -> (r: CredentialPair)
        ensures
            r@ == (host@, credential@),
    {
        CredentialPair { host: owned(host), credential: owned(credential) }
    }

    /// A copy with the same view.
    pub fn duplicate(&self) -> (r: CredentialPair)
        ensures
            r@ == self@,
    {
        CredentialPair { host: self.host.clone(), credential: self.credential.clone() }
    }

    /// Returns `credential (host)`.
    pub fn label_credential_host(&self) -> (r: String)
        ensures
            r@ == label_of(self@),
    {
        let mut s = self.credential.clone();
        s.append(" (");
        s.append(self.host.as_str());
        s.append(")");
        proof {
            assert(s@ =~= label_of(self@));
        }
        s
    }
}

/// How often a (host, credential) pair occurs in the registry's model: as
/// often as the credential occurs in the host's list.
pub open spec fn pair_count(m: Map<Seq<char>, crate::hosts::HostView>, p: (Seq<char>, Seq<char>)) -> nat {
    if m.contains_key(p.0) { m[p.0].1.to_multiset().count(p.1) } else { 0 }
}

/// The pairs of one host's credentials, in order.
pub open spec fn host_pairs(host: Seq<char>, creds: Seq<Seq<char>>) -> Seq<(Seq<char>, Seq<char>)> {
    creds.map_values(|c: Seq<char>| (host, c))
}

/// The pairs of a list of entries, host by host.
pub open spec fn entry_pairs(s: Seq<(String, crate::hosts::HostConfig)>) -> Seq<(Seq<char>, Seq<char>)>
    decreases s.len(),
{
    if s.len() == 0 {
        Seq::empty()
    } else {
        entry_pairs(s.drop_last()) + host_pairs(s.last().0@, s.last().1@.1)
    }
}

proof fn lemma_host_pairs_count(host: Seq<char>, creds: Seq<Seq<char>>, p: (Seq<char>, Seq<char>))
    ensures
        host_pairs(host, creds).to_multiset().count(p) == if p.0 == host { creds.to_multiset().count(p.1) } else { 0 },
    decreases creds.len(),
{
    broadcast use vstd::seq_lib::group_to_multiset_ensures;
    if creds.len() == 0 {
        assert(host_pairs(host, creds) =~= Seq::<(Seq<char>, Seq<char>)>::empty());
        assert(creds =~= Seq::<Seq<char>>::empty());
    } else {
        let t = creds.drop_last();
        let c = creds.last();
        lemma_host_pairs_count(host, t, p);
        assert(host_pairs(host, creds) =~= host_pairs(host, t).push((host, c)));
        assert(creds =~= t.push(c));
    }
}

proof fn lemma_entry_pairs_count(s: Seq<(String, crate::hosts::HostConfig)>, p: (Seq<char>, Seq<char>))
    requires
        keys_distinct(s),
    ensures
        entry_pairs(s).to_multiset().count(p) == pair_count(entries_map(s), p),
    decreases s.len(),
{
    if s.len() == 0 {
        assert(entries_map(s) =~= Map::<Seq<char>, crate::hosts::HostView>::empty());
        vstd::seq_lib::to_multiset_len(entry_pairs(s));
        assert(entry_pairs(s).to_multiset() =~= vstd::multiset::Multiset::<(Seq<char>, Seq<char>)>::empty()) by {
            broadcast use vstd::seq_lib::group_to_multiset_ensures;
        }
    } else {
        let t = s.drop_last();
        let e = s.last();
        assert(keys_distinct(t));
        assert(!entries_map(t).contains_key(e.0@)) by {
            if entries_map(t).contains_key(e.0@) {
                let j = choose|j: int| 0 <= j < t.len() && #[trigger] t[j].0@ == e.0@;
                assert(s[j].0@ != s[s.len() - 1].0@);
            }
        }
        assert(t.push(e) =~= s);
        crate::hosts::lemma_entries_push(t, e);
        lemma_entry_pairs_count(t, p);
        lemma_host_pairs_count(e.0@, e.1@.1, p);
        vstd::seq_lib::lemma_multiset_commutative(entry_pairs(t), host_pairs(e.0@, e.1@.1));
    }
}

/// Collects all (host, credential) pairs of the registry, in no particular
/// order: each pair occurs as often as in the registry.
pub fn collect_all_pairs(hosts: &Hosts) -> (r: Vec<CredentialPair>)
    requires
        hosts.wf(),
    ensures
        forall|p: (Seq<char>, Seq<char>)| #[trigger] pairs_view(r@).to_multiset().count(p) == pair_count(hosts@, p),
{
    let entries = hosts.hosts();
    let mut out: Vec<CredentialPair> = Vec::new();
    let mut i: usize = 0;
    assert(pairs_view(out@) =~= entry_pairs(entries@.subrange(0, 0)));
    while i < entries.len()
        invariant
            keys_distinct(entries@),
            entries_map(entries@) == hosts@,
            i <= entries@.len(),
            pairs_view(out@) == entry_pairs(entries@.subrange(0, i as int)),
        decreases entries@.len() - i,
    {
        let ghost before = pairs_view(out@);
        let host = &entries[i].0;
        let creds = &entries[i].1.credentials;
        let mut j: usize = 0;
        assert(before + host_pairs(host@, names_view(creds@).subrange(0, 0)) =~= before);
        while j < creds.len()
            invariant
                i < entries@.len(),
                host == entries@[i as int].0,
                creds == entries@[i as int].1.credentials,
                j <= creds@.len(),
                pairs_view(out@) == before + host_pairs(host@, names_view(creds@).subrange(0, j as int)),
            decreases creds@.len() - j,
        {
            let ghost prev = pairs_view(out@);
            out.push(CredentialPair { host: host.clone(), credential: creds[j].clone() });
            assert(pairs_view(out@) =~= prev.push((host@, creds@[j as int]@)));
            assert(host_pairs(host@, names_view(creds@).subrange(0, j + 1)) =~= host_pairs(host@, names_view(creds@).subrange(0, j as int)).push((host@, creds@[j as int]@)));
            j = j + 1;
        }
        assert(names_view(creds@).subrange(0, creds@.len() as int) =~= entries@[i as int].1@.1);
        assert(entries@.subrange(0, i + 1).drop_last() =~= entries@.subrange(0, i as int));
        assert(entries@.subrange(0, i + 1).last() == entries@[i as int]);
        i = i + 1;
    }
    assert(entries@.subrange(0, entries@.len() as int) =~= entries@);
    proof {
        assert forall|p: (Seq<char>, Seq<char>)| #[trigger] pairs_view(out@).to_multiset().count(p) == pair_count(hosts@, p) by {
            lemma_entry_pairs_count(entries@, p);
        }
    }
    out
}

/// Strict order on pairs: by host, then by credential.
pub open spec fn pair_lt(a: (Seq<char>, Seq<char>), b: (Seq<char>, Seq<char>)) -> bool {
    seq_lt(a.0, b.0) || (a.0 == b.0 && seq_lt(a.1, b.1))
}

/// Non-strict order on pairs.
pub open spec fn pair_le(a: (Seq<char>, Seq<char>), b: (Seq<char>, Seq<char>)) -> bool {
    a == b || pair_lt(a, b)
}

proof fn lemma_pair_lt_total(a: (Seq<char>, Seq<char>), b: (Seq<char>, Seq<char>))
    ensures
        a == b || pair_lt(a, b) || pair_lt(b, a),
{
    crate::text::lemma_seq_lt_total(a.0, b.0);
    crate::text::lemma_seq_lt_total(a.1, b.1);
}

proof fn lemma_pair_lt_transitive(a: (Seq<char>, Seq<char>), b: (Seq<char>, Seq<char>), c: (Seq<char>, Seq<char>))
    requires
        pair_lt(a, b),
        pair_lt(b, c),
    ensures
        pair_lt(a, c),
{
    if seq_lt(a.0, b.0) && seq_lt(b.0, c.0) {
        crate::text::lemma_seq_lt_transitive(a.0, b.0, c.0);
    } else if seq_lt(a.1, b.1) && seq_lt(b.1, c.1) && a.0 == b.0 && b.0 == c.0 {
        crate::text::lemma_seq_lt_transitive(a.1, b.1, c.1);
    }
}

proof fn lemma_pair_lt_irreflexive(a: (Seq<char>, Seq<char>))
    ensures
        !pair_lt(a, a),
{
    crate::text::lemma_seq_lt_irreflexive(a.0);
    crate::text::lemma_seq_lt_irreflexive(a.1);
}

fn pair_less(a: &CredentialPair, b: &CredentialPair) -> (r: bool)
    ensures
        r == pair_lt(a@, b@),
{
    str_lt(a.host.as_str(), b.host.as_str()) || (str_eq(a.host.as_str(), b.host.as_str()) && str_lt(a.credential.as_str(), b.credential.as_str()))
}

/// Sorts pairs by host, then by credential.
pub fn sort_pairs(pairs: &mut Vec<CredentialPair>)
    ensures
        pairs_view(final(pairs)@).to_multiset() == pairs_view(old(pairs)@).to_multiset(),
        forall|a: int, b: int| 0 <= a < b < final(pairs)@.len() ==> pair_le(#[trigger] final(pairs)@[a]@, #[trigger] final(pairs)@[b]@),
{
    broadcast use vstd::seq_lib::group_to_multiset_ensures;
    let mut rest: Vec<CredentialPair> = Vec::new();
    std::mem::swap(pairs, &mut rest);
    let ghost orig = pairs_view(rest@);
    let mut out: Vec<CredentialPair> = Vec::new();
    assert(pairs_view(out@).to_multiset().add(pairs_view(rest@).to_multiset()) =~= orig.to_multiset());
    while rest.len() > 0
        invariant
            pairs_view(out@).to_multiset().add(pairs_view(rest@).to_multiset()) == orig.to_multiset(),
            forall|a: int, b: int| 0 <= a < b < out@.len() ==> pair_le(#[trigger] out@[a]@, #[trigger] out@[b]@),
            forall|a: int, b: int| 0 <= a < out@.len() && 0 <= b < rest@.len() ==> pair_le(#[trigger] out@[a]@, #[trigger] rest@[b]@),
        decreases rest@.len(),
    {
        let mut m: usize = 0;
        let mut j: usize = 1;
        proof {
            lemma_pair_lt_irreflexive(rest@[0]@);
        }
        while j < rest.len()
            invariant
                0 < rest@.len(),
                m < j <= rest@.len(),
                forall|x: int| 0 <= x < j ==> !pair_lt(#[trigger] rest@[x]@, rest@[m as int]@),
            decreases rest@.len() - j,
        {
            if pair_less(&rest[j], &rest[m]) {
                proof {
                    assert forall|x: int| 0 <= x < j implies !pair_lt(#[trigger] rest@[x]@, rest@[j as int]@) by {
                        if pair_lt(rest@[x]@, rest@[j as int]@) {
                            lemma_pair_lt_transitive(rest@[x]@, rest@[j as int]@, rest@[m as int]@);
                        }
                    }
                    lemma_pair_lt_irreflexive(rest@[j as int]@);
                }
                m = j;
            }
            j = j + 1;
        }
        let ghost old_rest = rest@;
        let ghost old_out = out@;
        let e = rest.remove(m);
        proof {
            assert(pairs_view(rest@) =~= pairs_view(old_rest).remove(m as int));
            assert(pairs_view(old_rest)[m as int] == e@);
            assert forall|b: int| 0 <= b < rest@.len() implies pair_le(e@, #[trigger] rest@[b]@) by {
                let b2 = if b < m { b } else { b + 1 };
                assert(rest@[b] == old_rest[b2]);
                lemma_pair_lt_total(old_rest[b2]@, old_rest[m as int]@);
            }
            assert forall|a: int, b: int| 0 <= a < old_out.len() && 0 <= b < rest@.len() implies pair_le(#[trigger] old_out[a]@, #[trigger] rest@[b]@) by {
                let b2 = if b < m { b } else { b + 1 };
                assert(rest@[b] == old_rest[b2]);
            }
        }
        out.push(e);
        proof {
            assert(pairs_view(out@) =~= pairs_view(old_out).push(e@));
            vstd::seq_lib::to_multiset_build(pairs_view(old_out), e@);
            vstd::seq_lib::to_multiset_remove(pairs_view(old_rest), m as int);
            vstd::seq_lib::to_multiset_contains(pairs_view(old_rest), e@);
            assert(pairs_view(old_rest).contains(e@)) by {
                assert(pairs_view(old_rest)[m as int] == e@);
            }
            broadcast use vstd::multiset::group_multiset_axioms;
            assert(pairs_view(out@).to_multiset().add(pairs_view(rest@).to_multiset()) =~= orig.to_multiset());
            assert forall|a: int, b: int| 0 <= a < b < out@.len() implies pair_le(#[trigger] out@[a]@, #[trigger] out@[b]@) by {
                assert(out@[a] == old_out[a]);
                if b < old_out.len() {
                    assert(out@[b] == old_out[b]);
                }
            }
            assert forall|a: int, b: int| 0 <= a < out@.len() && 0 <= b < rest@.len() implies pair_le(#[trigger] out@[a]@, #[trigger] rest@[b]@) by {
                if a < old_out.len() {
                    assert(out@[a] == old_out[a]);
                }
            }
        }
    }
    assert(pairs_view(rest@) =~= Seq::<(Seq<char>, Seq<char>)>::empty());
    assert(pairs_view(out@).to_multiset() =~= orig.to_multiset());
    *pairs = out;
}

/// Whether a pair passes the optional host and credential filters.
pub open spec fn pair_selected(p: (Seq<char>, Seq<char>), host: Option<Seq<char>>, credential: Option<Seq<char>>) -> bool {
    (match host { Some(h) => p.0 == h, None => true }) && (match credential { Some(c) => p.1 == c, None => true })
}

/// The test that `filter_pairs` applies.
pub open spec fn selected_by(host: Option<Seq<char>>, credential: Option<Seq<char>>) -> spec_fn((Seq<char>, Seq<char>)) -> bool {
    |p: (Seq<char>, Seq<char>)| pair_selected(p, host, credential)
}

/// The characters of an optional `str`.
pub open spec fn opt_str_view(o: Option<&str>) -> Option<Seq<char>> {
    match o {
        Some(s) => Some(s@),
        None => None,
    }
}

/// The pairs that match the given host and credential, where given, in order.
pub fn filter_pairs(pairs: &Vec<CredentialPair>, host: Option<&str>, credential: Option<&str>) -> (r: Vec<CredentialPair>)
    ensures
        pairs_view(r@) == pairs_view(pairs@).filter(selected_by(opt_str_view(host), opt_str_view(credential))),
{
    let ghost f = selected_by(opt_str_view(host), opt_str_view(credential));
    let mut out: Vec<CredentialPair> = Vec::new();
    let mut i: usize = 0;
    while i < pairs.len()
        invariant
            i <= pairs@.len(),
            f == selected_by(opt_str_view(host), opt_str_view(credential)),
            pairs_view(out@) == pairs_view(pairs@.subrange(0, i as int)).filter(f),
        decreases pairs@.len() - i,
    {
        let ghost before = pairs_view(pairs@.subrange(0, i as int));
        assert(pairs_view(pairs@.subrange(0, i + 1)) =~= before.push(pairs@[i as int]@));
        proof {
            before.lemma_filter_push(pairs@[i as int]@, f);
        }
        let host_ok = match host {
            Some(h) => str_eq(pairs[i].host.as_str(), h),
            None => true,
        };
        let cred_ok = match credential {
            Some(c) => str_eq(pairs[i].credential.as_str(), c),
            None => true,
        };
        if host_ok && cred_ok {
            let ghost old_out = out@;
            out.push(pairs[i].duplicate());
            assert(pairs_view(out@) =~= pairs_view(old_out).push(pairs@[i as int]@));
        }
        i = i + 1;
    }
    assert(pairs@.subrange(0, pairs@.len() as int) == pairs@);
    out
}

/// The error line `  Error - msg`, with the word possibly styled; no
/// trailing newline.
pub fn styled_error_line(msg: &str) -> (r: String)
    ensures
        exists|w: Seq<char>| styled_form("Error"@, w) && r@ == "  "@ + w + " - "@ + msg@,
{
    let mut s = owned("  ");
    proof {
        reveal_strlit("Error");
    }
    let w = red_bold("Error");
    s.append(w.as_str());
    s.append(" - ");
    s.append(msg);
    assert(s@ == "  "@ + w@ + " - "@ + msg@);
    s
}

/// The `credential (host)` label of each pair.
pub fn labels_credential_host(pairs: &Vec<CredentialPair>) -> (r: Vec<String>)
    ensures
        names_view(r@) == pairs_view(pairs@).map_values(|p: (Seq<char>, Seq<char>)| label_of(p)),
{
    let mut out: Vec<String> = Vec::new();
    let mut i: usize = 0;
    while i < pairs.len()
        invariant
            i <= pairs@.len(),
            out@.len() == i,
            forall|k: int| 0 <= k < i ==> #[trigger] out@[k]@ == label_of(pairs@[k]@),
        decreases pairs@.len() - i,
    {
        out.push(pairs[i].label_credential_host());
        i = i + 1;
    }
    assert(names_view(out@) =~= pairs_view(pairs@).map_values(|p: (Seq<char>, Seq<char>)| label_of(p)));
    out
}

/// The label `host (active)` of a pair, with an empty name where the host
/// has no active credential.
pub open spec fn host_active_label(m: Map<Seq<char>, crate::hosts::HostView>, p: (Seq<char>, Seq<char>)) -> Seq<char> {
    p.0 + " ("@ + (if m.contains_key(p.0) { m[p.0].0 } else { Seq::empty() }) + ")"@
}

/// The `host (active credential)` label of each pair.
pub fn labels_host_active(pairs: &Vec<CredentialPair>, hosts: &Hosts) -> (r: Vec<String>)
    requires
        hosts.wf(),
    ensures
        r@.len() == pairs@.len(),
        forall|k: int| 0 <= k < r@.len() ==> #[trigger] r@[k]@ == host_active_label(hosts@, pairs@[k]@),
{
    let mut out: Vec<String> = Vec::new();
    let mut i: usize = 0;
    while i < pairs.len()
        invariant
            hosts.wf(),
            i <= pairs@.len(),
            out@.len() == i,
            forall|k: int| 0 <= k < i ==> #[trigger] out@[k]@ == host_active_label(hosts@, pairs@[k]@),
        decreases pairs@.len() - i,
    {
        let active = match hosts.get_active_credential(pairs[i].host.as_str()) {
            Some(a) => a,
            None => String::new(),
        };
        let mut s = pairs[i].host.clone();
        s.append(" (");
        s.append(active.as_str());
        s.append(")");
        assert(s@ =~= host_active_label(hosts@, pairs@[i as int]@));
        out.push(s);
        i = i + 1;
    }
    out
}

/// A choice among candidates: one picked by rule, or the user must choose.
#[derive(PartialEq, Eq, Structural, Clone, Copy, Debug)]
pub enum Choice {
    Pick(usize),
    Ask,
}

/// The credential to switch to on one host: the only one, the other one of
/// two, or the user's choice among more; `None` when there is none.
pub fn host_switch_choice(credentials: &Vec<String>, active: &str) -> (r: Option<Choice>)
    ensures
        credentials@.len() == 0 <==> r is None,
        credentials@.len() == 1 ==> r == Some(Choice::Pick(0)),
        credentials@.len() == 2 ==> r == Some(Choice::Pick(if credentials@[0]@ == active@ { 1 } else { 0 })),
        credentials@.len() > 2 ==> r == Some(Choice::Ask),
{
    let n = credentials.len();
    if n == 0 {
        None
    } else if n == 1 {
        Some(Choice::Pick(0))
    } else if n == 2 {
        if str_eq(credentials[0].as_str(), active) { Some(Choice::Pick(1)) } else { Some(Choice::Pick(0)) }
    } else {
        Some(Choice::Ask)
    }
}

/// The pair to switch to among sorted pairs: the only one; of two, the one
/// not active on the first pair's host; the user's choice among more.
pub fn toggle_choice(pairs: &Vec<CredentialPair>, hosts: &Hosts) -> (r: Option<Choice>)
    requires
        hosts.wf(),
    ensures
        pairs@.len() == 0 <==> r is None,
        pairs@.len() == 1 ==> r == Some(Choice::Pick(0)),
        pairs@.len() == 2 ==> r == Some(Choice::Pick(
            if hosts@.contains_key(pairs@[0].host@) && hosts@[pairs@[0].host@].0 == pairs@[0].credential@ { 1 } else { 0 })),
        pairs@.len() > 2 ==> r == Some(Choice::Ask),
{
    let n = pairs.len();
    if n == 0 {
        None
    } else if n == 1 {
        Some(Choice::Pick(0))
    } else if n == 2 {
        let first_active = match hosts.get_active_credential(pairs[0].host.as_str()) {
            Some(a) => str_eq(a.as_str(), pairs[0].credential.as_str()),
            None => false,
        };
        if first_active { Some(Choice::Pick(1)) } else { Some(Choice::Pick(0)) }
    } else {
        Some(Choice::Ask)
    }
}

} // verus!
