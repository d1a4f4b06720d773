//! The daemon registry: a mapping from daemon name to socket address plus
//! the one currently active daemon.
//!
//! Names are held as their raw bytes. The registry is modelled as a sequence
//! of `(name, address)` pairs with pairwise distinct names; `lookup` walks
//! that sequence. Adding a name that is already present keeps the existing
//! entry untouched (first write wins), and switching requires the target to
//! be present.

use vstd::prelude::*;
use vstd::slice::slice_to_vec;
use crate::addr::{is_ip_text, is_port_text, parse_ip, parse_port, spec_ip_value,
    spec_port_value, SocketAddress};
use crate::errors::JokerError;

verus! {

/// One registered daemon: its name (as raw bytes) and resolved address.
#[derive(Debug, PartialEq, Eq)]
pub struct DaemonRecord {
    pub name: Vec<u8>,
    pub addr: SocketAddress,
}

impl DaemonRecord {
    /// The mathematical value of the record: name bytes and address.
    pub open spec fn model(self) -> (Seq<u8>, SocketAddress) {
        (self.name@, self.addr)
    }
}

/// The address at which `name` is registered: the first pair of `d` whose
/// name matches, if any.
pub open spec fn lookup(d: Seq<(Seq<u8>, SocketAddress)>, name: Seq<u8>) -> Option<
    SocketAddress,
>
    decreases d.len(),
{
    if d.len() == 0 {
        None
    } else if d[0].0 == name {
        Some(d[0].1)
    } else {
        lookup(d.drop_first(), name)
    }
}

/// Whether `name` is registered in `d`.
pub open spec fn contains_name(d: Seq<(Seq<u8>, SocketAddress)>, name: Seq<u8>) -> bool {
    lookup(d, name) is Some
}

/// The insert-if-absent transform of the `add` operation: a present name
/// keeps its entry, a fresh one is appended.
pub open spec fn insert_absent(
    d: Seq<(Seq<u8>, SocketAddress)>,
    name: Seq<u8>,
    addr: SocketAddress,
) -> Seq<(Seq<u8>, SocketAddress)> {
    if contains_name(d, name) {
        d
    } else {
        d.push((name, addr))
    }
}

/// Whether the names of `d` are pairwise distinct.
pub open spec fn unique_names(d: Seq<(Seq<u8>, SocketAddress)>) -> bool {
    forall|i: int, j: int|
        0 <= i < j < d.len() ==> (#[trigger] d[i]).0 != (#[trigger] d[j]).0
}

/// The models of a run of records.
pub open spec fn models(s: Seq<DaemonRecord>) -> Seq<(Seq<u8>, SocketAddress)> {
    s.map_values(|r: DaemonRecord| r.model())
}

/// Whether the records carry pairwise distinct names.
pub fn names_unique(daemons: &Vec<DaemonRecord>) -> (r: bool)
    ensures
        r == unique_names(models(daemons@)),
{
    let ghost m = models(daemons@);
    let mut i: usize = 0;
    while i < daemons.len()
        invariant
            i <= daemons@.len(),
            m == models(daemons@),
            forall|p: int, q: int|
                0 <= p < q < i ==> (#[trigger] m[p]).0 != (#[trigger] m[q]).0,
        decreases daemons@.len() - i,
    {
        let mut j: usize = 0;
        while j < i
            invariant
                j <= i < daemons@.len(),
                m == models(daemons@),
                forall|q: int| 0 <= q < j ==> (#[trigger] m[q]).0 != m[i as int].0,
            decreases i - j,
        {
            if bytes_eq(daemons[j].name.as_slice(), daemons[i].name.as_slice()) {
                proof {
                    assert(m[j as int].0 == m[i as int].0);
                }
                return false;
            }
            j += 1;
        }
        i += 1;
    }
    true
}

/// `lookup` fails exactly when no pair carries the name.
pub proof fn lemma_lookup_absent(d: Seq<(Seq<u8>, SocketAddress)>, name: Seq<u8>)
    ensures
        (lookup(d, name) is None) <==> (forall|k: int|
            0 <= k < d.len() ==> (#[trigger] d[k]).0 != name),
    decreases d.len(),
{
    if d.len() > 0 {
        lemma_lookup_absent(d.drop_first(), name);
        if d[0].0 == name {
            assert(!(forall|k: int|
                0 <= k < d.len() ==> (#[trigger] d[k]).0 != name)) by {
                assert((d[0]).0 == name);
            }
        } else if lookup(d, name) is None {
            assert forall|k: int| 0 <= k < d.len() implies (#[trigger] d[k]).0 != name by {
                if k > 0 {
                    assert(d.drop_first()[k - 1] == d[k]);
                }
            }
        } else {
            let k0 = choose|k: int|
                0 <= k < d.drop_first().len() && (#[trigger] d.drop_first()[k]).0 == name;
            assert(d.drop_first()[k0] == d[k0 + 1]);
            assert((d[k0 + 1]).0 == name);
        }
    }
}

/// `lookup` returns the address of the first pair that carries the name.
pub proof fn lemma_lookup_found(d: Seq<(Seq<u8>, SocketAddress)>, name: Seq<u8>, k: int)
    requires
        0 <= k < d.len(),
        d[k].0 == name,
        forall|j: int| 0 <= j < k ==> (#[trigger] d[j]).0 != name,
    ensures
        lookup(d, name) == Some(d[k].1),
    decreases d.len(),
{
    if k > 0 {
        assert(forall|j: int|
            0 <= j < d.len() - 1 ==> #[trigger] d.drop_first()[j] == d[j + 1]);
        lemma_lookup_found(d.drop_first(), name, k - 1);
    }
}

/// The persisted process-wide state: the registered daemons and the active
/// one. The active daemon need not itself be registered.
#[derive(Debug, PartialEq, Eq)]
pub struct RegistryState {
    pub daemons: Vec<DaemonRecord>,
    pub active_daemon: Option<DaemonRecord>,
}

impl RegistryState {
    /// The registered daemons as `(name, address)` pairs, in insertion order.
    pub open spec fn daemons_model(self) -> Seq<(Seq<u8>, SocketAddress)> {
        self.daemons@.map_values(|r: DaemonRecord| r.model())
    }

    /// The active daemon as a `(name, address)` pair, if one is set.
    pub open spec fn active_model(self) -> Option<(Seq<u8>, SocketAddress)> {
        match self.active_daemon {
            Some(r) => Some(r.model()),
            None => None,
        }
    }

    /// Well-formedness: registered names are pairwise distinct.
    pub open spec fn wf(self) -> bool {
        unique_names(self.daemons_model())
    }

    /// A fresh registry: nothing registered, no active daemon.
    pub fn new() -> (r: RegistryState)
        ensures
            r.wf(),
            r.daemons_model() == Seq::<(Seq<u8>, SocketAddress)>::empty(),
            r.active_model() is None,
    {
        let r = RegistryState { daemons: Vec::new(), active_daemon: None };
        proof {
            assert(r.daemons_model() =~= Seq::<(Seq<u8>, SocketAddress)>::empty());
        }
        r
    }

    /// The address at which `name` is registered, as `lookup` describes.
    pub fn find_addr(&self, name: &[u8]) -> (r: Option<SocketAddress>)
        ensures
            r == lookup(self.daemons_model(), name@),
    {
        let ghost d = self.daemons_model();
        let mut i: usize = 0;
        while i < self.daemons.len()
            invariant
                i <= self.daemons@.len(),
                d == self.daemons_model(),
                forall|k: int| 0 <= k < i ==> (#[trigger] d[k]).0 != name@,
            decreases self.daemons@.len() - i,
        {
            if bytes_eq(self.daemons[i].name.as_slice(), name) {
                proof {
                    lemma_lookup_found(d, name@, i as int);
                }
                return Some(self.daemons[i].addr);
            }
            i += 1;
        }
        proof {
            lemma_lookup_absent(d, name@);
        }
        None
    }

    /// Registers `name` at the address written in `ip_text` and `port_text`.
    /// Either text failing to parse is `InvalidAddress` and changes nothing.
    /// A name already present keeps its first-written address: the call
    /// succeeds and changes nothing. The active daemon is never touched.
    pub fn add(&mut self, name: &[u8], ip_text: &[u8], port_text: &[u8]) -> (r: Result<
        (),
        JokerError,
    >)
        requires
            old(self).wf(),
        ensures
            final(self).wf(),
            final(self).active_model() == old(self).active_model(),
            match r {
                Ok(()) => {
                    &&& is_ip_text(ip_text@)
                    &&& is_port_text(port_text@)
                    &&& final(self).daemons_model() == insert_absent(
                        old(self).daemons_model(),
                        name@,
                        (SocketAddress {
                            ip: spec_ip_value(ip_text@),
                            port: spec_port_value(port_text@),
                        }),
                    )
                },
                Err(e) => {
                    &&& e == JokerError::InvalidAddress
                    &&& !(is_ip_text(ip_text@) && is_port_text(port_text@))
                    &&& final(self).daemons_model() == old(self).daemons_model()
                },
            },
    {
        let ip = match parse_ip(ip_text) {
            Some(ip) => ip,
            None => {
                return Err(JokerError::InvalidAddress);
            },
        };
        let port = match parse_port(port_text) {
            Some(p) => p,
            None => {
                return Err(JokerError::InvalidAddress);
            },
        };
        let ghost d = self.daemons_model();
        match self.find_addr(name) {
            Some(_) => Ok(()),
            None => {
                let addr = SocketAddress { ip, port };
                let record = DaemonRecord { name: slice_to_vec(name), addr };
                proof {
                    lemma_lookup_absent(d, name@);
                }
                self.daemons.push(record);
                proof {
                    assert(self.daemons_model() =~= d.push((name@, addr)));
                }
                Ok(())
            },
        }
    }

    /// Makes `name` the active daemon. A name that is not registered is
    /// `UnknownDaemon` and leaves the active daemon unchanged; otherwise the
    /// active daemon becomes exactly `(name, registered address)`. The
    /// registered daemons are never touched.
    pub fn checkout(&mut self, name: &[u8]) -> (r: Result<(), JokerError>)
        requires
            old(self).wf(),
        ensures
            final(self).wf(),
            final(self).daemons_model() == old(self).daemons_model(),
            match r {
                Ok(()) => lookup(old(self).daemons_model(), name@) matches Some(a)
                    && final(self).active_model() == Some((name@, a)),
                Err(e) => e == JokerError::UnknownDaemon && lookup(
                    old(self).daemons_model(),
                    name@,
                ) is None && final(self).active_model() == old(self).active_model(),
            },
    {
        match self.find_addr(name) {
            None => Err(JokerError::UnknownDaemon),
            Some(addr) => {
                self.active_daemon = Some(DaemonRecord { name: slice_to_vec(name), addr });
                Ok(())
            },
        }
    }

    /// The runtime check of `wf`: whether the registered names are pairwise
    /// distinct.
    pub fn is_well_formed(&self) -> (r: bool)
        ensures
            r == self.wf(),
    {
        let r = names_unique(&self.daemons);
        proof {
            assert(models(self.daemons@) =~= self.daemons_model());
        }
        r
    }

    /// The active daemon, verbatim; no check that it is still registered.
    pub fn current(&self) -> (r: Option<&DaemonRecord>)
        ensures
            match r {
                Some(rec) => self.active_model() == Some(rec.model()),
                None => self.active_model() is None,
            },
    {
        self.active_daemon.as_ref()
    }
}

/// Whether two byte strings hold the same bytes.
pub fn bytes_eq(x: &[u8], y: &[u8]) -> (r: bool)
    ensures
        r == (x@ == y@),
{
    if x.len() != y.len() {
        return false;
    }
    let mut i: usize = 0;
    while i < x.len()
        invariant
            i <= x@.len(),
            x@.len() == y@.len(),
            forall|k: int| 0 <= k < i ==> x@[k] == y@[k],
        decreases x@.len() - i,
    {
        if x[i] != y[i] {
            return false;
        }
        i += 1;
    }
    proof {
        assert(x@ =~= y@);
    }
    true
}

/// First write wins: once a name is registered, registering it again changes
/// nothing, whatever address the second registration carries.
pub proof fn lemma_add_idempotent(
    d: Seq<(Seq<u8>, SocketAddress)>,
    name: Seq<u8>,
    a1: SocketAddress,
    a2: SocketAddress,
)
    ensures
        insert_absent(insert_absent(d, name, a1), name, a2) == insert_absent(d, name, a1),
{
    let d1 = insert_absent(d, name, a1);
    if contains_name(d, name) {
        assert(d1 == d);
    } else {
        lemma_lookup_absent(d, name);
        lemma_lookup_found(d.push((name, a1)), name, d.len() as int);
        assert(contains_name(d1, name));
    }
}

/// Registering a fresh name makes it resolvable to exactly the address it
/// was registered with.
pub proof fn lemma_add_then_lookup(
    d: Seq<(Seq<u8>, SocketAddress)>,
    name: Seq<u8>,
    addr: SocketAddress,
)
    requires
        !contains_name(d, name),
    ensures
        lookup(insert_absent(d, name, addr), name) == Some(addr),
{
    lemma_lookup_absent(d, name);
    lemma_lookup_found(d.push((name, addr)), name, d.len() as int);
}

} // verus!
