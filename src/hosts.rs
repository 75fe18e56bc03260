//! The host registry: for each host, the active credential and the known
//! credentials, with mutations that keep each entry consistent.
use vstd::prelude::*;
use crate::text::{owned, seq_lt, str_eq, str_lt};

verus! {

/// A host's state as seen by contracts: the active name and the list of names.
pub type HostView = (Seq<char>, Seq<Seq<char>>);

/// The character sequences of a list of strings.
pub open spec fn names_view(v: Seq<String>) -> Seq<Seq<char>> {
    v.map_values(|s: String| s@)
}

/// Stored state for one host and its credentials.
pub struct HostConfig {
    /// Currently active credential for this host.
    pub active: String,
    /// All known credentials for this host, in insertion order.
    pub credentials: Vec<String>,
}

impl View for HostConfig {
    type V = HostView;

    open spec fn view(&self) -> HostView {
        (self.active@, names_view(self.credentials@))
    }
}

/// A consistent entry: at least one credential, no repeats, the active one among them.
pub open spec fn entry_valid(e: HostView) -> bool {
    &&& e.1.len() > 0
    &&& e.1.no_duplicates()
    &&& e.1.contains(e.0)
}

/// Every entry of a registry is consistent.
pub open spec fn registry_valid(m: Map<Seq<char>, HostView>) -> bool {
    forall|h: Seq<char>| #[trigger] m.contains_key(h) ==> entry_valid(m[h])
}

/// `set_active_credential` on the model.
pub open spec fn set_active_view(m: Map<Seq<char>, HostView>, host: Seq<char>, name: Seq<char>) -> Map<
    Seq<char>,
    HostView,
> {
    if m.contains_key(host) {
        let creds = m[host].1;
        m.insert(host, (name, if creds.contains(name) { creds } else { creds.push(name) }))
    } else {
        m.insert(host, (name, seq![name]))
    }
}

/// Whether `add_credential` changes the model.
pub open spec fn add_changes(m: Map<Seq<char>, HostView>, host: Seq<char>, name: Seq<char>) -> bool {
    !(m.contains_key(host) && m[host].1.contains(name))
}

/// `add_credential` on the model.
pub open spec fn add_view(m: Map<Seq<char>, HostView>, host: Seq<char>, name: Seq<char>) -> Map<
    Seq<char>,
    HostView,
> {
    if !m.contains_key(host) {
        m.insert(host, (name, seq![name]))
    } else if m[host].1.contains(name) {
        m
    } else {
        m.insert(host, (m[host].0, m[host].1.push(name)))
    }
}

/// The names that remain once `name` is taken out.
pub open spec fn without(creds: Seq<Seq<char>>, name: Seq<char>) -> Seq<Seq<char>> {
    creds.filter(other_than(name))
}

/// The test that keeps every name but `name`.
pub open spec fn other_than(name: Seq<char>) -> spec_fn(Seq<char>) -> bool {
    |c: Seq<char>| c != name
}

/// Whether `remove_credential` changes the model.
pub open spec fn remove_changes(m: Map<Seq<char>, HostView>, host: Seq<char>, name: Seq<char>) -> bool {
    m.contains_key(host) && m[host].1.contains(name)
}

/// `remove_credential` on the model: the name leaves the list; a host left
/// with no names is dropped; otherwise, if the name was active, the first
/// remaining name becomes active.
pub open spec fn remove_view(m: Map<Seq<char>, HostView>, host: Seq<char>, name: Seq<char>) -> Map<
    Seq<char>,
    HostView,
> {
    if !remove_changes(m, host, name) {
        m
    } else {
        let rest = without(m[host].1, name);
        if rest.len() == 0 {
            m.remove(host)
        } else if m[host].0 != name {
            m.insert(host, (m[host].0, rest))
        } else {
            m.insert(host, (rest[0], rest))
        }
    }
}

/// No host occurs twice in a list of entries.
pub open spec fn keys_distinct(s: Seq<(String, HostConfig)>) -> bool {
    forall|i: int, j: int| 0 <= i < j < s.len() ==> #[trigger] s[i].0@ != #[trigger] s[j].0@
}

/// The map that a list of entries with distinct hosts stands for.
pub open spec fn entries_map(s: Seq<(String, HostConfig)>) -> Map<Seq<char>, HostView> {
    Map::new(
        |k: Seq<char>| exists|i: int| 0 <= i < s.len() && #[trigger] s[i].0@ == k,
        |k: Seq<char>| s[choose|i: int| 0 <= i < s.len() && #[trigger] s[i].0@ == k].1@,
    )
}

/// Each entry of a list with distinct hosts is what its map holds for its host.
pub proof fn lemma_entries_index(s: Seq<(String, HostConfig)>, i: int)
    requires
        keys_distinct(s),
        0 <= i < s.len(),
    ensures
        entries_map(s).contains_key(s[i].0@),
        entries_map(s)[s[i].0@] == s[i].1@,
{
    let k = s[i].0@;
    assert(0 <= i < s.len() && s[i].0@ == k);
    let j = choose|j: int| 0 <= j < s.len() && #[trigger] s[j].0@ == k;
    if j != i {
        if j < i {
            assert(s[j].0@ != s[i].0@);
        } else {
            assert(s[i].0@ != s[j].0@);
        }
    }
}

proof fn lemma_entries_update(s: Seq<(String, HostConfig)>, i: int, e: (String, HostConfig))
    requires
        keys_distinct(s),
        0 <= i < s.len(),
        e.0@ == s[i].0@,
    ensures
        keys_distinct(s.update(i, e)),
        entries_map(s.update(i, e)) == entries_map(s).insert(e.0@, e.1@),
{
    let t = s.update(i, e);
    assert(keys_distinct(t)) by {
        assert forall|a: int, b: int| 0 <= a < b < t.len() implies #[trigger] t[a].0@ != #[trigger] t[b].0@ by {
            assert(s[a].0@ != s[b].0@);
        }
    }
    lemma_entries_index(t, i);
    assert forall|k: Seq<char>| #[trigger] entries_map(t).contains_key(k) == entries_map(s).insert(e.0@, e.1@).contains_key(k) by {
        if entries_map(s).contains_key(k) {
            let j = choose|j: int| 0 <= j < s.len() && #[trigger] s[j].0@ == k;
            if j != i {
                assert(t[j].0@ == k);
            }
        }
        if entries_map(t).contains_key(k) {
            let j = choose|j: int| 0 <= j < t.len() && #[trigger] t[j].0@ == k;
            if j != i {
                assert(s[j].0@ == k);
            }
        }
    }
    assert forall|k: Seq<char>| #[trigger] entries_map(t).contains_key(k) implies entries_map(t)[k] == entries_map(s).insert(e.0@, e.1@)[k] by {
        let j = choose|j: int| 0 <= j < t.len() && #[trigger] t[j].0@ == k;
        lemma_entries_index(t, j);
        if j != i {
            lemma_entries_index(s, j);
        }
    }
    assert(entries_map(t) =~= entries_map(s).insert(e.0@, e.1@));
}

/// Appending an entry for a new host adds that host to the map.
pub proof fn lemma_entries_push(s: Seq<(String, HostConfig)>, e: (String, HostConfig))
    requires
        keys_distinct(s),
        !entries_map(s).contains_key(e.0@),
    ensures
        keys_distinct(s.push(e)),
        entries_map(s.push(e)) == entries_map(s).insert(e.0@, e.1@),
{
    let t = s.push(e);
    assert(keys_distinct(t)) by {
        assert forall|a: int, b: int| 0 <= a < b < t.len() implies #[trigger] t[a].0@ != #[trigger] t[b].0@ by {
            if b == s.len() {
                assert(s[a].0@ == t[a].0@);
                if s[a].0@ == e.0@ {
                    assert(entries_map(s).contains_key(e.0@));
                }
            } else {
                assert(s[a].0@ != s[b].0@);
            }
        }
    }
    lemma_entries_index(t, s.len() as int);
    assert forall|k: Seq<char>| #[trigger] entries_map(t).contains_key(k) == entries_map(s).insert(e.0@, e.1@).contains_key(k) by {
        if entries_map(s).contains_key(k) {
            let j = choose|j: int| 0 <= j < s.len() && #[trigger] s[j].0@ == k;
            assert(t[j].0@ == k);
        }
        if entries_map(t).contains_key(k) {
            let j = choose|j: int| 0 <= j < t.len() && #[trigger] t[j].0@ == k;
            if j < s.len() {
                assert(s[j].0@ == k);
            }
        }
    }
    assert forall|k: Seq<char>| #[trigger] entries_map(t).contains_key(k) implies entries_map(t)[k] == entries_map(s).insert(e.0@, e.1@)[k] by {
        let j = choose|j: int| 0 <= j < t.len() && #[trigger] t[j].0@ == k;
        lemma_entries_index(t, j);
        if j < s.len() {
            lemma_entries_index(s, j);
        }
    }
    assert(entries_map(t) =~= entries_map(s).insert(e.0@, e.1@));
}

proof fn lemma_entries_remove(s: Seq<(String, HostConfig)>, i: int)
    requires
        keys_distinct(s),
        0 <= i < s.len(),
    ensures
        keys_distinct(s.remove(i)),
        entries_map(s.remove(i)) == entries_map(s).remove(s[i].0@),
{
    let t = s.remove(i);
    let k0 = s[i].0@;
    assert forall|a: int| 0 <= a < t.len() implies #[trigger] t[a] == (if a < i { s[a] } else { s[a + 1] }) by {}
    assert(keys_distinct(t)) by {
        assert forall|a: int, b: int| 0 <= a < b < t.len() implies #[trigger] t[a].0@ != #[trigger] t[b].0@ by {
            let a2 = if a < i { a } else { a + 1 };
            let b2 = if b < i { b } else { b + 1 };
            assert(t[a] == s[a2]);
            assert(t[b] == s[b2]);
            assert(s[a2].0@ != s[b2].0@);
        }
    }
    assert forall|k: Seq<char>| #[trigger] entries_map(t).contains_key(k) == entries_map(s).remove(k0).contains_key(k) by {
        if entries_map(s).contains_key(k) && k != k0 {
            let j = choose|j: int| 0 <= j < s.len() && #[trigger] s[j].0@ == k;
            let j2 = if j < i { j } else { j - 1 };
            assert(t[j2] == s[j]);
        }
        if entries_map(t).contains_key(k) {
            let j = choose|j: int| 0 <= j < t.len() && #[trigger] t[j].0@ == k;
            let j2 = if j < i { j } else { j + 1 };
            assert(t[j] == s[j2]);
            assert(s[j2].0@ == k);
            if j2 < i {
                assert(s[j2].0@ != s[i].0@);
            } else {
                assert(s[i].0@ != s[j2].0@);
            }
        }
    }
    assert forall|k: Seq<char>| #[trigger] entries_map(t).contains_key(k) implies entries_map(t)[k] == entries_map(s).remove(k0)[k] by {
        let j = choose|j: int| 0 <= j < t.len() && #[trigger] t[j].0@ == k;
        let j2 = if j < i { j } else { j + 1 };
        assert(t[j] == s[j2]);
        lemma_entries_index(t, j);
        lemma_entries_index(s, j2);
    }
    assert(entries_map(t) =~= entries_map(s).remove(k0));
}

proof fn lemma_entries_same_view(s: Seq<(String, HostConfig)>, t: Seq<(String, HostConfig)>)
    requires
        keys_distinct(s),
        s.len() == t.len(),
        forall|i: int| 0 <= i < s.len() ==> #[trigger] s[i].0@ == t[i].0@ && s[i].1@ == t[i].1@,
    ensures
        keys_distinct(t),
        entries_map(t) == entries_map(s),
{
    assert(keys_distinct(t)) by {
        assert forall|a: int, b: int| 0 <= a < b < t.len() implies #[trigger] t[a].0@ != #[trigger] t[b].0@ by {
            assert(s[a].0@ == t[a].0@);
            assert(s[b].0@ == t[b].0@);
        }
    }
    assert forall|k: Seq<char>| #[trigger] entries_map(t).contains_key(k) == entries_map(s).contains_key(k) by {
        if entries_map(s).contains_key(k) {
            let j = choose|j: int| 0 <= j < s.len() && #[trigger] s[j].0@ == k;
            assert(t[j].0@ == k);
        }
        if entries_map(t).contains_key(k) {
            let j = choose|j: int| 0 <= j < t.len() && #[trigger] t[j].0@ == k;
            assert(s[j].0@ == t[j].0@);
        }
    }
    assert forall|k: Seq<char>| #[trigger] entries_map(t).contains_key(k) implies entries_map(t)[k] == entries_map(s)[k] by {
        let j = choose|j: int| 0 <= j < t.len() && #[trigger] t[j].0@ == k;
        assert(s[j].0@ == t[j].0@);
        lemma_entries_index(t, j);
        lemma_entries_index(s, j);
    }
    assert(entries_map(t) =~= entries_map(s));
}

proof fn lemma_without_no_duplicates(s: Seq<Seq<char>>, name: Seq<char>)
    requires
        s.no_duplicates(),
    ensures
        without(s, name).no_duplicates(),
        forall|c: Seq<char>| #[trigger] without(s, name).contains(c) <==> (s.contains(c) && c != name),
    decreases s.len(),
{
    let p = other_than(name);
    if s.len() == 0 {
        reveal(Seq::filter);
        assert(without(s, name) =~= Seq::<Seq<char>>::empty());
    } else {
        let t = s.drop_last();
        let x = s.last();
        assert(t.no_duplicates());
        lemma_without_no_duplicates(t, name);
        assert(t.push(x) =~= s);
        t.lemma_filter_push(x, p);
        assert forall|c: Seq<char>| #[trigger] s.contains(c) <==> (t.contains(c) || c == x) by {
            if s.contains(c) {
                let k = choose|k: int| 0 <= k < s.len() && s[k] == c;
                if k < t.len() {
                    assert(t[k] == c);
                }
            }
            if t.contains(c) {
                let k = choose|k: int| 0 <= k < t.len() && t[k] == c;
                assert(s[k] == c);
            }
            if c == x {
                assert(s[s.len() - 1] == c);
            }
        }
        if x != name {
            assert(!t.contains(x)) by {
                if t.contains(x) {
                    let k = choose|k: int| 0 <= k < t.len() && t[k] == x;
                    assert(s[k] == s[s.len() - 1]);
                }
            }
            let f = without(t, name);
            assert forall|c: Seq<char>| #[trigger] f.push(x).contains(c) <==> (f.contains(c) || c == x) by {
                if f.push(x).contains(c) {
                    let k = choose|k: int| 0 <= k < f.push(x).len() && f.push(x)[k] == c;
                    if k < f.len() {
                        assert(f[k] == c);
                    }
                }
                if f.contains(c) {
                    let k = choose|k: int| 0 <= k < f.len() && f[k] == c;
                    assert(f.push(x)[k] == c);
                }
                if c == x {
                    assert(f.push(x)[f.len() as int] == c);
                }
            }
            assert(f.push(x).no_duplicates()) by {
                assert forall|a: int, b: int| 0 <= a < b < f.push(x).len() implies f.push(x)[a] != f.push(x)[b] by {
                    if b == f.len() {
                        assert(f.contains(f[a]));
                    } else {
                        assert(f[a] != f[b]);
                    }
                }
            }
        }
    }
}

/// Setting the active credential keeps every entry consistent.
pub proof fn lemma_set_active_keeps_valid(m: Map<Seq<char>, HostView>, host: Seq<char>, name: Seq<char>)
    requires
        registry_valid(m),
    ensures
        registry_valid(set_active_view(m, host, name)),
{
    let r = set_active_view(m, host, name);
    assert forall|h: Seq<char>| #[trigger] r.contains_key(h) implies entry_valid(r[h]) by {
        if h == host {
            if m.contains_key(host) {
                let creds = m[host].1;
                if creds.contains(name) {
                } else {
                    let c2 = creds.push(name);
                    assert(c2[creds.len() as int] == name);
                    assert forall|a: int, b: int| 0 <= a < b < c2.len() implies c2[a] != c2[b] by {
                        if b == creds.len() {
                            assert(creds.contains(creds[a]));
                        } else {
                            assert(creds[a] != creds[b]);
                        }
                    }
                }
            } else {
                assert(seq![name][0] == name);
            }
        }
    }
}

/// Adding a credential keeps every entry consistent.
pub proof fn lemma_add_keeps_valid(m: Map<Seq<char>, HostView>, host: Seq<char>, name: Seq<char>)
    requires
        registry_valid(m),
    ensures
        registry_valid(add_view(m, host, name)),
{
    let r = add_view(m, host, name);
    assert forall|h: Seq<char>| #[trigger] r.contains_key(h) implies entry_valid(r[h]) by {
        if h == host {
            if m.contains_key(host) {
                let creds = m[host].1;
                if !creds.contains(name) {
                    let c2 = creds.push(name);
                    let k = choose|k: int| 0 <= k < creds.len() && creds[k] == m[host].0;
                    assert(c2[k] == m[host].0);
                    assert forall|a: int, b: int| 0 <= a < b < c2.len() implies c2[a] != c2[b] by {
                        if b == creds.len() {
                            assert(creds.contains(creds[a]));
                        } else {
                            assert(creds[a] != creds[b]);
                        }
                    }
                }
            } else {
                assert(seq![name][0] == name);
            }
        }
    }
}

/// Removing a credential keeps every entry consistent: the active name is
/// always one of the remaining names, and no entry is left empty.
pub proof fn lemma_remove_keeps_valid(m: Map<Seq<char>, HostView>, host: Seq<char>, name: Seq<char>)
    requires
        registry_valid(m),
    ensures
        registry_valid(remove_view(m, host, name)),
{
    let r = remove_view(m, host, name);
    if remove_changes(m, host, name) {
        let e = m[host];
        lemma_without_no_duplicates(e.1, name);
        let rest = without(e.1, name);
        if e.0 != name {
            assert(rest.contains(e.0));
        } else if rest.len() > 0 {
            assert(rest.contains(rest[0]));
        }
    }
    assert forall|h: Seq<char>| #[trigger] r.contains_key(h) implies entry_valid(r[h]) by {
        if h != host {
            assert(m.contains_key(h));
        }
    }
}

/// Removing the active credential of a host known with exactly two
/// credentials leaves the other one as the only and the active credential.
pub proof fn lemma_remove_active_of_two(
    m: Map<Seq<char>, HostView>,
    host: Seq<char>,
    active: Seq<char>,
    other: Seq<char>,
)
    requires
        active != other,
        m.contains_key(host),
        m[host].0 == active,
        m[host].1 == seq![active, other] || m[host].1 == seq![other, active],
    ensures
        remove_view(m, host, active).contains_key(host),
        remove_view(m, host, active)[host] == (other, seq![other]),
{
    let p = other_than(active);
    let e: Seq<Seq<char>> = Seq::empty();
    reveal(Seq::filter);
    assert(e.filter(p) =~= e);
    if m[host].1 == seq![active, other] {
        assert(m[host].1[0] == active);
        assert(e.push(active).push(other) =~= m[host].1);
        e.lemma_filter_push(active, p);
        e.push(active).lemma_filter_push(other, p);
    } else {
        assert(m[host].1[1] == active);
        assert(e.push(other).push(active) =~= m[host].1);
        e.lemma_filter_push(other, p);
        e.push(other).lemma_filter_push(active, p);
    }
    assert(without(m[host].1, active) =~= seq![other]);
}

/// Removing the only credential of a host removes the host.
pub proof fn lemma_remove_last_drops_host(m: Map<Seq<char>, HostView>, host: Seq<char>, name: Seq<char>)
    requires
        m.contains_key(host),
        m[host].1 == seq![name],
    ensures
        !remove_view(m, host, name).contains_key(host),
{
    let p = other_than(name);
    let e: Seq<Seq<char>> = Seq::empty();
    assert(m[host].1[0] == name);
    reveal(Seq::filter);
    assert(e.filter(p) =~= e);
    assert(e.push(name) =~= m[host].1);
    e.lemma_filter_push(name, p);
}

/// Copies a list of strings.
pub fn clone_names(v: &Vec<String>) -> (r: Vec<String>)
    ensures
        r@ == v@,
{
    let mut out: Vec<String> = Vec::new();
    let mut i: usize = 0;
    while i < v.len()
        invariant
            i <= v@.len(),
            out@ == v@.subrange(0, i as int),
        decreases v@.len() - i,
    {
        out.push(v[i].clone());
        assert(v@.subrange(0, i + 1) == v@.subrange(0, i as int).push(v@[i as int]));
        i = i + 1;
    }
    assert(v@.subrange(0, v@.len() as int) == v@);
    out
}

/// Whether `name` occurs in `v`.
pub fn contains_name(v: &Vec<String>, name: &str) -> (r: bool)
    ensures
        r == names_view(v@).contains(name@),
{
    let mut i: usize = 0;
    while i < v.len()
        invariant
            i <= v@.len(),
            forall|j: int| 0 <= j < i ==> v@[j]@ != name@,
        decreases v@.len() - i,
    {
        if str_eq(v[i].as_str(), name) {
            assert(names_view(v@)[i as int] == name@);
            return true;
        }
        i = i + 1;
    }
    assert forall|j: int| 0 <= j < names_view(v@).len() implies names_view(v@)[j] != name@ by {
        assert(v@[j]@ != name@);
    }
    false
}

/// The strings of `v` other than `name`, in order.
pub fn names_without(v: &Vec<String>, name: &str) -> (r: Vec<String>)
    ensures
        names_view(r@) == without(names_view(v@), name@),
{
    let mut out: Vec<String> = Vec::new();
    let mut i: usize = 0;
    while i < v.len()
        invariant
            i <= v@.len(),
            names_view(out@) == without(names_view(v@.subrange(0, i as int)), name@),
        decreases v@.len() - i,
    {
        let ghost before = names_view(v@.subrange(0, i as int));
        assert(names_view(v@.subrange(0, i + 1)) =~= before.push(v@[i as int]@));
        proof {
            before.lemma_filter_push(v@[i as int]@, other_than(name@));
        }
        if !str_eq(v[i].as_str(), name) {
            let ghost old_out = out@;
            out.push(v[i].clone());
            assert(names_view(out@) =~= names_view(old_out).push(v@[i as int]@));
        }
        i = i + 1;
    }
    assert(v@.subrange(0, v@.len() as int) == v@);
    out
}

impl HostConfig {
    /// A copy with the same view.
    pub fn duplicate(&self) -> (r: HostConfig)
        ensures
            r@ == self@,
    {
        HostConfig { active: self.active.clone(), credentials: clone_names(&self.credentials) }
    }
}

/// Collection of hosts keyed by their fully-qualified hostname.
pub struct Hosts {
    inner: Vec<(String, HostConfig)>,
}

impl View for Hosts {
    type V = Map<Seq<char>, HostView>;

    closed spec fn view(&self) -> Map<Seq<char>, HostView> {
        entries_map(self.inner@)
    }
}

impl Default for Hosts {
    fn default() -> (r: Hosts)
        ensures
            r.wf(),
            r@ == Map::<Seq<char>, HostView>::empty(),
    {
        Hosts::new()
    }
}

impl Hosts {
    /// No host is recorded twice.
    pub closed spec fn wf(&self) -> bool {
        keys_distinct(self.inner@)
    }

    /// An empty registry.
    pub fn new() -> (r: Hosts)
        ensures
            r.wf(),
            r@ == Map::<Seq<char>, HostView>::empty(),
    {
        let r = Hosts { inner: Vec::new() };
        assert(entries_map(r.inner@) =~= Map::<Seq<char>, HostView>::empty());
        r
    }

    /// Builds a registry from entries whose hosts are distinct.
    pub fn from_map(map: Vec<(String, HostConfig)>) -> (r: Hosts)
        requires
            keys_distinct(map@),
        ensures
            r.wf(),
            r@ == entries_map(map@),
    {
        Hosts { inner: map }
    }

    /// Index of `host` in the entry list.
    fn find(&self, host: &str) -> (r: Option<usize>)
        requires
            self.wf(),
        ensures
            r is None ==> !self@.contains_key(host@),
            r matches Some(i) ==> i < self.inner@.len() && self.inner@[i as int].0@ == host@
                && self@.contains_key(host@) && self@[host@] == self.inner@[i as int].1@,
    {
        let mut i: usize = 0;
        while i < self.inner.len()
            invariant
                keys_distinct(self.inner@),
                i <= self.inner@.len(),
                forall|j: int| 0 <= j < i ==> self.inner@[j].0@ != host@,
            decreases self.inner@.len() - i,
        {
            if str_eq(self.inner[i].0.as_str(), host) {
                proof {
                    lemma_entries_index(self.inner@, i as int);
                }
                return Some(i);
            }
            i = i + 1;
        }
        None
    }

    /// True when no host is recorded.
    pub fn is_empty(&self) -> (r: bool)
        ensures
            r == (self@ == Map::<Seq<char>, HostView>::empty()),
    {
        if self.inner.len() == 0 {
            assert(self@ =~= Map::<Seq<char>, HostView>::empty());
            true
        } else {
            assert(self@.contains_key(self.inner@[0].0@)) by {
                assert(0 <= 0 < self.inner@.len() && self.inner@[0].0@ == self.inner@[0].0@);
            }
            false
        }
    }

    /// The active credential of `host`, if the host is known.
    pub fn get_active_credential(&self, host: &str) -> (r: Option<String>)
        requires
            self.wf(),
        ensures
            r is Some == self@.contains_key(host@),
            r matches Some(a) ==> a@ == self@[host@].0,
    {
        match self.find(host) {
            Some(i) => Some(self.inner[i].1.active.clone()),
            None => None,
        }
    }

    /// All credentials of `host`, if the host is known.
    pub fn get_credentials(&self, host: &str) -> (r: Option<Vec<String>>)
        requires
            self.wf(),
        ensures
            r is Some == self@.contains_key(host@),
            r matches Some(v) ==> names_view(v@) == self@[host@].1,
    {
        match self.find(host) {
            Some(i) => Some(clone_names(&self.inner[i].1.credentials)),
            None => None,
        }
    }

    /// Same as `get_credentials`.
    pub fn get_users(&self, host: &str) -> (r: Option<Vec<String>>)
        requires
            self.wf(),
        ensures
            r is Some == self@.contains_key(host@),
            r matches Some(v) ==> names_view(v@) == self@[host@].1,
    {
        self.get_credentials(host)
    }

    /// True if `credential` is recorded for `host`.
    pub fn has_credential(&self, host: &str, credential: &str) -> (r: bool)
        requires
            self.wf(),
        ensures
            r == (self@.contains_key(host@) && self@[host@].1.contains(credential@)),
    {
        match self.find(host) {
            Some(i) => contains_name(&self.inner[i].1.credentials, credential),
            None => false,
        }
    }

    /// Same as `has_credential`.
    pub fn has_user(&self, host: &str, user: &str) -> (r: bool)
        requires
            self.wf(),
        ensures
            r == (self@.contains_key(host@) && self@[host@].1.contains(user@)),
    {
        self.has_credential(host, user)
    }

    /// True if `host` is recorded.
    pub fn has_host(&self, host: &str) -> (r: bool)
        requires
            self.wf(),
        ensures
            r == self@.contains_key(host@),
    {
        self.find(host).is_some()
    }
    /// Set the active credential for a host, recording the host and the
    /// credential where they are missing.
    pub fn set_active_credential(&mut self, host: &str, credential: &str)
        requires
            old(self).wf(),
        ensures
            final(self).wf(),
            final(self)@ == set_active_view(old(self)@, host@, credential@),
    {
        match self.find(host) {
            Some(i) => {
                let present = contains_name(&self.inner[i].1.credentials, credential);
                let mut creds = clone_names(&self.inner[i].1.credentials);
                if !present {
                    let ghost before = creds@;
                    creds.push(owned(credential));
                    assert(names_view(creds@) =~= names_view(before).push(credential@));
                }
                let key = self.inner[i].0.clone();
                let e = (key, HostConfig { active: owned(credential), credentials: creds });
                proof {
                    lemma_entries_update(self.inner@, i as int, e);
                }
                self.inner.set(i, e);
            },
            None => {
                let mut creds: Vec<String> = Vec::new();
                creds.push(owned(credential));
                assert(names_view(creds@) =~= seq![credential@]);
                let e = (owned(host), HostConfig { active: owned(credential), credentials: creds });
                proof {
                    lemma_entries_push(self.inner@, e);
                }
                self.inner.push(e);
            },
        }
    }

    /// Add a credential to a host, recording the host with it as active if the
    /// host is new. Returns `true` if the credential was not there before.
    pub fn add_credential(&mut self, host: &str, credential: &str) -> (r: bool)
        requires
            old(self).wf(),
        ensures
            final(self).wf(),
            r == add_changes(old(self)@, host@, credential@),
            final(self)@ == add_view(old(self)@, host@, credential@),
    {
        match self.find(host) {
            Some(i) => {
                if contains_name(&self.inner[i].1.credentials, credential) {
                    false
                } else {
                    let mut creds = clone_names(&self.inner[i].1.credentials);
                    let ghost before = creds@;
                    creds.push(owned(credential));
                    assert(names_view(creds@) =~= names_view(before).push(credential@));
                    let key = self.inner[i].0.clone();
                    let active = self.inner[i].1.active.clone();
                    let e = (key, HostConfig { active, credentials: creds });
                    proof {
                        lemma_entries_update(self.inner@, i as int, e);
                    }
                    self.inner.set(i, e);
                    true
                }
            },
            None => {
                let mut creds: Vec<String> = Vec::new();
                creds.push(owned(credential));
                assert(names_view(creds@) =~= seq![credential@]);
                let e = (owned(host), HostConfig { active: owned(credential), credentials: creds });
                proof {
                    lemma_entries_push(self.inner@, e);
                }
                self.inner.push(e);
                true
            },
        }
    }

    /// Same as `add_credential`.
    pub fn add_user(&mut self, host: &str, user: &str) -> (r: bool)
        requires
            old(self).wf(),
        ensures
            final(self).wf(),
            r == add_changes(old(self)@, host@, user@),
            final(self)@ == add_view(old(self)@, host@, user@),
    {
        self.add_credential(host, user)
    }

    /// Remove a credential from a host. If it was active, the first remaining
    /// credential becomes active; a host left without credentials is dropped.
    /// Returns whether the credential was there.
    pub fn remove_credential(&mut self, host: &str, credential: &str) -> (r: bool)
        requires
            old(self).wf(),
        ensures
            final(self).wf(),
            r == remove_changes(old(self)@, host@, credential@),
            final(self)@ == remove_view(old(self)@, host@, credential@),
    {
        match self.find(host) {
            None => false,
            Some(i) => {
                if !contains_name(&self.inner[i].1.credentials, credential) {
                    return false;
                }
                let rest = names_without(&self.inner[i].1.credentials, credential);
                if rest.len() == 0 {
                    proof {
                        lemma_entries_remove(self.inner@, i as int);
                    }
                    self.inner.remove(i);
                } else if !str_eq(self.inner[i].1.active.as_str(), credential) {
                    let key = self.inner[i].0.clone();
                    let active = self.inner[i].1.active.clone();
                    let e = (key, HostConfig { active, credentials: rest });
                    proof {
                        lemma_entries_update(self.inner@, i as int, e);
                    }
                    self.inner.set(i, e);
                } else {
                    assert(names_view(rest@)[0] == rest@[0]@);
                    let key = self.inner[i].0.clone();
                    let active = rest[0].clone();
                    let e = (key, HostConfig { active, credentials: rest });
                    proof {
                        lemma_entries_update(self.inner@, i as int, e);
                    }
                    self.inner.set(i, e);
                }
                true
            },
        }
    }

    /// Same as `remove_credential`.
    pub fn remove_user(&mut self, host: &str, user: &str) -> (r: bool)
        requires
            old(self).wf(),
        ensures
            final(self).wf(),
            r == remove_changes(old(self)@, host@, user@),
            final(self)@ == remove_view(old(self)@, host@, user@),
    {
        self.remove_credential(host, user)
    }

    /// All (host, state) entries, in no particular order.
    pub fn hosts(&self) -> (r: Vec<(String, HostConfig)>)
        requires
            self.wf(),
        ensures
            keys_distinct(r@),
            entries_map(r@) == self@,
    {
        let mut out: Vec<(String, HostConfig)> = Vec::new();
        let mut i: usize = 0;
        while i < self.inner.len()
            invariant
                i <= self.inner@.len(),
                out@.len() == i,
                forall|j: int| 0 <= j < i ==> #[trigger] out@[j].0@ == self.inner@[j].0@ && out@[j].1@ == self.inner@[j].1@,
            decreases self.inner@.len() - i,
        {
            out.push((self.inner[i].0.clone(), self.inner[i].1.duplicate()));
            i = i + 1;
        }
        proof {
            lemma_entries_same_view(self.inner@, out@);
        }
        out
    }

    /// Mutable access to a host's state. Changes made through it keep the
    /// host's key and are not checked against the entry invariant.
    pub fn get_mut(&mut self, host: &str) -> (r: Option<&mut HostConfig>)
        requires
            old(self).wf(),
        ensures
            final(self).wf(),
            r is Some == old(self)@.contains_key(host@),
            match r {
                Some(c) => (*c)@ == old(self)@[host@] && final(self)@ == old(self)@.insert(host@, (*final(c))@),
                None => final(self)@ == old(self)@,
            },
    {
        match self.find(host) {
            None => None,
            Some(i) => {
                proof {
                    assert forall|c: HostConfig| #[trigger] entries_map(self.inner@.update(i as int, (self.inner@[i as int].0, c)))
                        == entries_map(self.inner@).insert(host@, c@) && keys_distinct(self.inner@.update(i as int, (self.inner@[i as int].0, c))) by {
                        lemma_entries_update(self.inner@, i as int, (self.inner@[i as int].0, c));
                    }
                }
                Some(&mut self.inner[i].1)
            },
        }
    }

    /// Consumes the registry and returns its entries.
    pub fn into_inner(self) -> (r: Vec<(String, HostConfig)>)
        requires
            self.wf(),
        ensures
            keys_distinct(r@),
            entries_map(r@) == self@,
    {
        self.inner
    }

    /// All (host, state) entries, sorted by host name.
    pub fn iter_sorted(&self) -> (r: Vec<(String, HostConfig)>)
        requires
            self.wf(),
        ensures
            keys_distinct(r@),
            entries_map(r@) == self@,
            forall|a: int, b: int| 0 <= a < b < r@.len() ==> seq_lt(#[trigger] r@[a].0@, #[trigger] r@[b].0@),
    {
        let mut rest = self.hosts();
        let mut out: Vec<(String, HostConfig)> = Vec::new();
        proof {
            assert(entries_map(out@) =~= Map::<Seq<char>, HostView>::empty());
        }
        while rest.len() > 0
            invariant
                keys_distinct(rest@),
                keys_distinct(out@),
                forall|k: Seq<char>| #[trigger] self@.contains_key(k) == (entries_map(out@).contains_key(k) || entries_map(rest@).contains_key(k)),
                forall|k: Seq<char>| #[trigger] entries_map(out@).contains_key(k) ==> !entries_map(rest@).contains_key(k) && self@[k] == entries_map(out@)[k],
                forall|k: Seq<char>| #[trigger] entries_map(rest@).contains_key(k) ==> self@[k] == entries_map(rest@)[k],
                forall|a: int, b: int| 0 <= a < b < out@.len() ==> seq_lt(#[trigger] out@[a].0@, #[trigger] out@[b].0@),
                forall|a: int, b: int| 0 <= a < out@.len() && 0 <= b < rest@.len() ==> seq_lt(#[trigger] out@[a].0@, #[trigger] rest@[b].0@),
            decreases rest@.len(),
        {
            let mut m: usize = 0;
            let mut j: usize = 1;
            proof {
                crate::text::lemma_seq_lt_irreflexive(rest@[0].0@);
            }
            while j < rest.len()
                invariant
                    0 < rest@.len(),
                    m < j <= rest@.len(),
                    forall|x: int| 0 <= x < j ==> !seq_lt(#[trigger] rest@[x].0@, rest@[m as int].0@),
                decreases rest@.len() - j,
            {
                if str_lt(rest[j].0.as_str(), rest[m].0.as_str()) {
                    proof {
                        assert forall|x: int| 0 <= x < j implies !seq_lt(#[trigger] rest@[x].0@, rest@[j as int].0@) by {
                            if seq_lt(rest@[x].0@, rest@[j as int].0@) {
                                crate::text::lemma_seq_lt_transitive(rest@[x].0@, rest@[j as int].0@, rest@[m as int].0@);
                            }
                        }
                        crate::text::lemma_seq_lt_irreflexive(rest@[j as int].0@);
                    }
                    m = j;
                }
                j = j + 1;
            }
            let ghost old_rest = rest@;
            let ghost old_out = out@;
            proof {
                lemma_entries_index(old_rest, m as int);
                lemma_entries_remove(old_rest, m as int);
            }
            let e = rest.remove(m);
            proof {
                assert(!entries_map(old_out).contains_key(e.0@));
                lemma_entries_push(old_out, e);
                assert forall|b: int| 0 <= b < rest@.len() implies seq_lt(e.0@, #[trigger] rest@[b].0@) by {
                    let b2 = if b < m { b } else { b + 1 };
                    assert(rest@[b] == old_rest[b2]);
                    assert(old_rest[b2].0@ != old_rest[m as int].0@) by {
                        if b2 < m {
                            assert(old_rest[b2].0@ != old_rest[m as int].0@);
                        } else {
                            assert(old_rest[m as int].0@ != old_rest[b2].0@);
                        }
                    }
                    crate::text::lemma_seq_lt_total(old_rest[b2].0@, old_rest[m as int].0@);
                }
                assert forall|a: int, b: int| 0 <= a < old_out.len() && 0 <= b < rest@.len() implies seq_lt(#[trigger] old_out[a].0@, #[trigger] rest@[b].0@) by {
                    let b2 = if b < m { b } else { b + 1 };
                    assert(rest@[b] == old_rest[b2]);
                }
            }
            out.push(e);
            proof {
                assert forall|a: int, b: int| 0 <= a < b < out@.len() implies seq_lt(#[trigger] out@[a].0@, #[trigger] out@[b].0@) by {
                    if b == old_out.len() {
                        assert(out@[a] == old_out[a]);
                    } else {
                        assert(out@[a] == old_out[a]);
                        assert(out@[b] == old_out[b]);
                    }
                }
                assert forall|a: int, b: int| 0 <= a < out@.len() && 0 <= b < rest@.len() implies seq_lt(#[trigger] out@[a].0@, #[trigger] rest@[b].0@) by {
                    if a < old_out.len() {
                        assert(out@[a] == old_out[a]);
                    }
                }
            }
        }
        proof {
            assert(entries_map(out@) =~= self@);
        }
        out
    }
}

} // verus!
