//! Trust-on-first-use store for SSH host keys, keyed by `host:port`.
//!
//! A presented key is compared against the one on file: a match is accepted, a
//! brand-new host is a first contact, and a changed key is rejected.

use vstd::prelude::*;
use crate::text::str_eq;
use crate::history::now_ms;
use crate::text::decimal_digits;

verus! {

/// A trusted host key.
pub struct KnownHost {
    pub host: String,
    pub port: u16,
    /// The server's public key in OpenSSH authorized_keys form (`<algo> <base64>`).
    pub key: String,
    /// Milliseconds since the Unix epoch when this key was first trusted.
    pub added: String,
}

/// A trusted host key, as values.
pub struct KnownHostView {
    pub host: Seq<char>,
    pub port: u16,
    pub key: Seq<char>,
    pub added: Seq<char>,
}

impl View for KnownHost {
    type V = KnownHostView;

    open spec fn view(&self) -> KnownHostView {
        KnownHostView { host: self.host@, port: self.port, key: self.key@, added: self.added@ }
    }
}

impl KnownHost {
    /// A field-by-field copy.
    pub fn duplicate(&self) -> (r: KnownHost)
        ensures
            r@ == self@,
    {
        KnownHost {
            host: self.host.clone(),
            port: self.port,
            key: self.key.clone(),
            added: self.added.clone(),
        }
    }
}

/// The result of comparing a presented key against what is on file.
#[derive(Debug, PartialEq, Eq, Structural)]
pub enum HostKeyCheck {
    /// The presented key matches the stored one.
    Match,
    /// No key on file for this host yet (first contact).
    Unknown,
    /// A different key is already stored for this host.
    Changed,
}

/// The three-way verdict for a stored key (if any) and a presented one.
pub open spec fn classify_spec(stored: Option<Seq<char>>, presented: Seq<char>) -> HostKeyCheck {
    match stored {
        None => HostKeyCheck::Unknown,
        Some(value) => if value == presented { HostKeyCheck::Match } else { HostKeyCheck::Changed },
    }
}

/// Pure three-way decision, separated from any I/O.
pub fn classify(stored: Option<&str>, presented: &str) -> (r: HostKeyCheck)
    ensures
        r == classify_spec(
            match stored {
                Some(s) => Some(s@),
                None => None,
            },
            presented@,
        ),
{
    match stored {
        None => HostKeyCheck::Unknown,
        Some(value) => {
            if str_eq(value, presented) {
                HostKeyCheck::Match
            } else {
                HostKeyCheck::Changed
            }
        },
    }
}

/// Whether an entry is the one for `host:port`.
pub open spec fn is_host(entry: KnownHostView, host: Seq<char>, port: u16) -> bool {
    entry.host == host && entry.port == port
}

/// The key of the first entry for `host:port`, if any.
pub open spec fn stored_key_of(hosts: Seq<KnownHostView>, host: Seq<char>, port: u16) -> Option<Seq<char>>
    decreases hosts.len(),
{
    if hosts.len() == 0 {
        None
    } else if is_host(hosts[0], host, port) {
        Some(hosts[0].key)
    } else {
        stored_key_of(hosts.drop_first(), host, port)
    }
}

/// The entries that are not for `host:port`, in order.
pub open spec fn without_host(hosts: Seq<KnownHostView>, host: Seq<char>, port: u16) -> Seq<KnownHostView>
    decreases hosts.len(),
{
    if hosts.len() == 0 {
        hosts
    } else if is_host(hosts[0], host, port) {
        without_host(hosts.drop_first(), host, port)
    } else {
        seq![hosts[0]] + without_host(hosts.drop_first(), host, port)
    }
}

/// How many entries are for `host:port`.
pub open spec fn host_count(hosts: Seq<KnownHostView>, host: Seq<char>, port: u16) -> nat
    decreases hosts.len(),
{
    if hosts.len() == 0 {
        0
    } else {
        (if is_host(hosts[0], host, port) { 1nat } else { 0nat }) + host_count(hosts.drop_first(), host, port)
    }
}

/// The trusted host keys, in the order they were recorded.
pub struct KnownHostsStore {
    hosts: Vec<KnownHost>,
}

impl View for KnownHostsStore {
    type V = Seq<KnownHostView>;

    closed spec fn view(&self) -> Seq<KnownHostView> {
        self.hosts@.map_values(|h: KnownHost| h@)
    }
}

impl KnownHostsStore {
    /// An empty store.
    pub fn new() -> (r: KnownHostsStore)
        ensures
            r@ == Seq::<KnownHostView>::empty(),
    {
        let r = KnownHostsStore { hosts: Vec::new() };
        assert(r@ =~= Seq::<KnownHostView>::empty());
        r
    }

    /// A store holding the given entries, in order (as read back from disk).
    pub fn from_hosts(hosts: Vec<KnownHost>) -> (r: KnownHostsStore)
        ensures
            r@ == hosts@.map_values(|h: KnownHost| h@),
    {
        KnownHostsStore { hosts }
    }

    /// Every entry, in order.
    pub fn load_all(&self) -> (r: Vec<KnownHost>)
        ensures
            r@.map_values(|h: KnownHost| h@) == self@,
    {
        let mut out: Vec<KnownHost> = Vec::new();
        let mut i: usize = 0;
        while i < self.hosts.len()
            invariant
                i <= self.hosts@.len(),
                out@.map_values(|h: KnownHost| h@) == self@.take(i as int),
            decreases self.hosts@.len() - i,
        {
            let ghost before = out@.map_values(|h: KnownHost| h@);
            out.push(self.hosts[i].duplicate());
            assert(out@.map_values(|h: KnownHost| h@) =~= before.push(self@[i as int]));
            assert(out@.map_values(|h: KnownHost| h@) =~= self@.take(i as int + 1));
            i = i + 1;
        }
        assert(self@.take(self.hosts@.len() as int) =~= self@);
        out
    }

    /// Position of the first entry for `host:port`, if any.
    fn find(&self, host: &str, port: u16) -> (r: Option<usize>)
        ensures
            match r {
                Some(i) => i < self@.len() && stored_key_of(self@, host@, port) == Some(self@[i as int].key),
                None => stored_key_of(self@, host@, port) is None,
            },
    {
        let mut i: usize = 0;
        assert(self@.skip(0) =~= self@);
        while i < self.hosts.len()
            invariant
                i <= self.hosts@.len(),
                stored_key_of(self@, host@, port) == stored_key_of(self@.skip(i as int), host@, port),
            decreases self.hosts@.len() - i,
        {
            assert(self@.skip(i as int)[0] == self@[i as int]);
            assert(self@.skip(i as int).drop_first() =~= self@.skip(i as int + 1));
            if self.hosts[i].port == port && str_eq(self.hosts[i].host.as_str(), host) {
                return Some(i);
            }
            i = i + 1;
        }
        None
    }

    /// Read-only trust-on-first-use comparison for a presented key.
    pub fn check(&self, host: &str, port: u16, presented: &str) -> (r: HostKeyCheck)
        ensures
            r == classify_spec(stored_key_of(self@, host@, port), presented@),
    {
        match self.find(host, port) {
            Some(i) => classify(Some(self.hosts[i].key.as_str()), presented),
            None => classify(None, presented),
        }
    }

    /// The key currently trusted for this host, if any.
    pub fn stored_key(&self, host: &str, port: u16) -> (r: Option<String>)
        ensures
            match r {
                Some(k) => stored_key_of(self@, host@, port) == Some(k@),
                None => stored_key_of(self@, host@, port) is None,
            },
    {
        match self.find(host, port) {
            Some(i) => Some(self.hosts[i].key.clone()),
            None => None,
        }
    }

    /// Drops every entry for `host:port`.
    fn retain_others(&mut self, host: &str, port: u16)
        ensures
            final(self)@ == without_host(old(self)@, host@, port),
    {
        let ghost start = self@;
        let mut kept: Vec<KnownHost> = Vec::new();
        let mut i: usize = 0;
        assert(start.skip(0) =~= start);
        assert(kept@.map_values(|h: KnownHost| h@) + without_host(start, host@, port) =~= without_host(start, host@, port));
        while i < self.hosts.len()
            invariant
                self@ == start,
                i <= self.hosts@.len(),
                without_host(start, host@, port)
                    == kept@.map_values(|h: KnownHost| h@) + without_host(start.skip(i as int), host@, port),
            decreases self.hosts@.len() - i,
        {
            assert(start.skip(i as int)[0] == start[i as int]);
            assert(start.skip(i as int).drop_first() =~= start.skip(i as int + 1));
            if !(self.hosts[i].port == port && str_eq(self.hosts[i].host.as_str(), host)) {
                let ghost before = kept@.map_values(|h: KnownHost| h@);
                kept.push(self.hosts[i].duplicate());
                assert(kept@.map_values(|h: KnownHost| h@) =~= before.push(start[i as int]));
                assert(before + (seq![start[i as int]] + without_host(start.skip(i as int + 1), host@, port))
                    =~= before.push(start[i as int]) + without_host(start.skip(i as int + 1), host@, port));
            }
            i = i + 1;
        }
        assert(start.skip(i as int) =~= Seq::<KnownHostView>::empty());
        assert(kept@.map_values(|h: KnownHost| h@) + Seq::<KnownHostView>::empty()
            =~= kept@.map_values(|h: KnownHost| h@));
        self.hosts = kept;
    }

    /// Trust a host's key, replacing any existing entry for this host:port so a
    /// deliberate re-trust cannot leave a duplicate; the entry is stamped with the
    /// current time in decimal milliseconds.
    pub fn record(&mut self, host: &str, port: u16, key: &str)
        ensures
            final(self)@.len() == without_host(old(self)@, host@, port).len() + 1,
            final(self)@.drop_last() == without_host(old(self)@, host@, port),
            final(self)@.last().host == host@,
            final(self)@.last().port == port,
            final(self)@.last().key == key@,
            exists|ms: nat| final(self)@.last().added == #[trigger] decimal_digits(ms),
    {
        self.retain_others(host, port);
        let entry = KnownHost {
            host: host.to_owned(),
            port,
            key: key.to_owned(),
            added: now_ms(),
        };
        let ghost before = self@;
        self.hosts.push(entry);
        assert(self@ =~= before.push(self@.last()));
        assert(self@.drop_last() =~= before);
    }

    /// Drop a host's trusted key ("forget host").
    pub fn remove(&mut self, host: &str, port: u16)
        ensures
            final(self)@ == without_host(old(self)@, host@, port),
    {
        self.retain_others(host, port);
    }
}


proof fn lemma_without_forgets(s: Seq<KnownHostView>, host: Seq<char>, port: u16)
    ensures
        stored_key_of(without_host(s, host, port), host, port) is None,
        host_count(without_host(s, host, port), host, port) == 0,
    decreases s.len(),
{
    if s.len() > 0 {
        lemma_without_forgets(s.drop_first(), host, port);
        let rest = without_host(s.drop_first(), host, port);
        if !is_host(s[0], host, port) {
            assert((seq![s[0]] + rest)[0] == s[0]);
            assert((seq![s[0]] + rest).drop_first() =~= rest);
        }
    }
}

proof fn lemma_without_keeps_others(s: Seq<KnownHostView>, host: Seq<char>, port: u16, other: Seq<char>, other_port: u16)
    requires
        !(other == host && other_port == port),
    ensures
        stored_key_of(without_host(s, host, port), other, other_port) == stored_key_of(s, other, other_port),
    decreases s.len(),
{
    if s.len() > 0 {
        lemma_without_keeps_others(s.drop_first(), host, port, other, other_port);
        let rest = without_host(s.drop_first(), host, port);
        if !is_host(s[0], host, port) {
            assert((seq![s[0]] + rest)[0] == s[0]);
            assert((seq![s[0]] + rest).drop_first() =~= rest);
        }
    }
}

proof fn lemma_key_of_concat(a: Seq<KnownHostView>, b: Seq<KnownHostView>, host: Seq<char>, port: u16)
    ensures
        stored_key_of(a + b, host, port) == (match stored_key_of(a, host, port) {
            Some(k) => Some(k),
            None => stored_key_of(b, host, port),
        }),
        host_count(a + b, host, port) == host_count(a, host, port) + host_count(b, host, port),
    decreases a.len(),
{
    if a.len() == 0 {
        assert(a + b =~= b);
    } else {
        lemma_key_of_concat(a.drop_first(), b, host, port);
        assert((a + b)[0] == a[0]);
        assert((a + b).drop_first() =~= a.drop_first() + b);
    }
}

/// After a host key is recorded, checking that same key for that `host:port` is a
/// match, the store holds exactly one entry for it, and every other host keeps the
/// key it had.
pub proof fn law_record_then_check_matches(
    before: Seq<KnownHostView>,
    after: Seq<KnownHostView>,
    host: Seq<char>,
    port: u16,
    key: Seq<char>,
    other: Seq<char>,
    other_port: u16,
)
    requires
        after.len() == without_host(before, host, port).len() + 1,
        after.drop_last() == without_host(before, host, port),
        after.last().host == host,
        after.last().port == port,
        after.last().key == key,
    ensures
        classify_spec(stored_key_of(after, host, port), key) == HostKeyCheck::Match,
        host_count(after, host, port) == 1,
        !(other == host && other_port == port) ==>
            stored_key_of(after, other, other_port) == stored_key_of(before, other, other_port),
{
    let kept = without_host(before, host, port);
    let tail = seq![after.last()];
    assert(after =~= kept + tail);
    lemma_without_forgets(before, host, port);
    lemma_key_of_concat(kept, tail, host, port);
    assert(tail[0] == after.last());
    assert(tail.drop_first() =~= Seq::<KnownHostView>::empty());
    assert(host_count(tail.drop_first(), host, port) == 0);
    assert(host_count(tail, host, port) == 1);
    assert(stored_key_of(tail.drop_first(), other, other_port) is None);
    if !(other == host && other_port == port) {
        lemma_without_keeps_others(before, host, port, other, other_port);
        lemma_key_of_concat(kept, tail, other, other_port);
    }
}

/// After a host is forgotten, its key reads as a first contact again, no entry for
/// it remains, and every other host keeps the key it had.
pub proof fn law_remove_then_check_unknown(
    before: Seq<KnownHostView>,
    host: Seq<char>,
    port: u16,
    presented: Seq<char>,
    other: Seq<char>,
    other_port: u16,
)
    ensures
        classify_spec(stored_key_of(without_host(before, host, port), host, port), presented)
            == HostKeyCheck::Unknown,
        host_count(without_host(before, host, port), host, port) == 0,
        !(other == host && other_port == port) ==>
            stored_key_of(without_host(before, host, port), other, other_port)
                == stored_key_of(before, other, other_port),
{
    lemma_without_forgets(before, host, port);
    if !(other == host && other_port == port) {
        lemma_without_keeps_others(before, host, port, other, other_port);
    }
}

}
