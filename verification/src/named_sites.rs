//! The sites of a proxy that knows them by name, and what else such a proxy keeps track of.

use vstd::prelude::*;

use crate::proxy::AddrNotAvailable;
use crate::server::ServerInfo;
use crate::sync_map::SyncMap;

verus! {

/// How far a proxy has come.
#[derive(Debug, Clone, Copy, PartialEq, Eq, Structural)]
pub enum ProxyStatus {
    NotStarted,
    Running,
    Stopping,
    Stopped,
}

/// A proxy's sites by name, and its standing.
pub struct NamedSites {
    /// The address the proxy runs at.
    pub addr: String,
    /// The sites, by name.
    pub server_info_map: SyncMap<ServerInfo>,
    /// Whether sites can be reached over TLS.
    pub connector: bool,
    pub shutdown: bool,
    pub force_shutdown: bool,
    pub status: ProxyStatus,
    pub num_running: u32,
    pub tunnel_reqs: u32,
    pub command_password: String,
}

/// The site has this name and this address, and is reached directly and without TLS.
pub open spec fn plain(info: ServerInfo, name: Seq<char>, addr: Seq<char>) -> bool {
    info.name@ == name && info.addr@ == addr && !info.tunnel && !info.secure
}

/// The map holds a plain site for each name in `sites`, and nothing else. Of several addresses
/// with one name it holds the last.
pub open spec fn holds(
    m: Map<Seq<char>, ServerInfo>,
    sites: Seq<(Seq<char>, Seq<char>)>,
) -> bool {
    &&& forall|k: Seq<char>| #[trigger]
        m.contains_key(k) ==> exists|i: int| 0 <= i < sites.len() && (#[trigger] sites[i]).0 == k
    &&& forall|i: int|
        0 <= i < sites.len() && is_last(sites, i) ==> {
            let (name, addr) = #[trigger] sites[i];
            m.contains_key(name) && plain(m[name], name, addr)
        }
}

/// No site after the one at `i` has the same name.
pub open spec fn is_last(sites: Seq<(Seq<char>, Seq<char>)>, i: int) -> bool {
    forall|j: int| i < j < sites.len() ==> (#[trigger] sites[j]).0 != sites[i].0
}

/// With names that all differ, the map holds every one of the sites, and nothing else.
pub proof fn holds_each(m: Map<Seq<char>, ServerInfo>, sites: Seq<(Seq<char>, Seq<char>)>)
    requires
        holds(m, sites),
        forall|i: int, j: int|
            0 <= i < j < sites.len() ==> (#[trigger] sites[i]).0 != (#[trigger] sites[j]).0,
    ensures
        m.dom() == sites.map_values(|s: (Seq<char>, Seq<char>)| s.0).to_set(),
        forall|i: int|
            0 <= i < sites.len() ==> {
                let (name, addr) = #[trigger] sites[i];
                m.contains_key(name) && plain(m[name], name, addr)
            },
{
    let names = sites.map_values(|s: (Seq<char>, Seq<char>)| s.0);
    assert forall|i: int| 0 <= i < sites.len() implies ({
        let (name, addr) = #[trigger] sites[i];
        m.contains_key(name) && plain(m[name], name, addr)
    }) by {
        assert(is_last(sites, i));
    }
    assert forall|k: Seq<char>| m.dom().contains(k) <==> names.to_set().contains(k) by {
        if m.contains_key(k) {
            let i = choose|i: int| 0 <= i < sites.len() && (#[trigger] sites[i]).0 == k;
            assert(names[i] == k);
        }
        if names.contains(k) {
            let i = choose|i: int| 0 <= i < names.len() && names[i] == k;
            assert(sites[i].0 == k);
        }
    }
    assert(m.dom() =~= names.to_set());
}

/// Of the addresses that come with one name the last is held, for a site that is reached directly
/// and without TLS; a name that does not come is not held.
pub proof fn last_address_is_held(
    m: Map<Seq<char>, ServerInfo>,
    before: Seq<(Seq<char>, Seq<char>)>,
    name: Seq<char>,
    addr: Seq<char>,
    after: Seq<(Seq<char>, Seq<char>)>,
    other: Seq<char>,
)
    requires
        holds(m, before + seq![(name, addr)] + after),
        forall|i: int| 0 <= i < after.len() ==> (#[trigger] after[i]).0 != name,
        other != name,
        forall|i: int| 0 <= i < before.len() ==> (#[trigger] before[i]).0 != other,
        forall|i: int| 0 <= i < after.len() ==> (#[trigger] after[i]).0 != other,
    ensures
        m.contains_key(name),
        m[name].name@ == name,
        m[name].addr@ == addr,
        !m[name].tunnel && !m[name].secure,
        !m.contains_key(other),
{
    let sites = before + seq![(name, addr)] + after;
    let at = before.len() as int;
    assert(sites[at] == (name, addr));
    assert forall|j: int| at < j < sites.len() implies (#[trigger] sites[j]).0 != sites[at].0 by {
        assert(sites[j] == after[j - at - 1]);
    }
    assert(is_last(sites, at));
    if m.contains_key(other) {
        let i = choose|i: int| 0 <= i < sites.len() && (#[trigger] sites[i]).0 == other;
        if i < at {
            assert(sites[i] == before[i]);
        } else if i > at {
            assert(sites[i] == after[i - at - 1]);
        }
    }
}

/// The names and addresses as characters.
pub open spec fn chars(sites: Seq<(&'static str, &'static str)>) -> Seq<(Seq<char>, Seq<char>)> {
    sites.map_values(|s: (&'static str, &'static str)| (s.0@, s.1@))
}

impl NamedSites {
    /// The sites are as the operations of their map leave them.
    pub open spec fn wf(&self) -> bool {
        self.server_info_map.wf()
    }

    /// The two hold the same, though their sites may be laid out differently.
    pub open spec fn same_but_layout(self, other: NamedSites) -> bool {
        &&& self.server_info_map@ == other.server_info_map@
        &&& self == (NamedSites { server_info_map: self.server_info_map, ..other })
    }

    /// The proxy is yet to be started, and reaches no site over TLS.
    pub open spec fn fresh(self) -> bool {
        &&& !self.connector && !self.shutdown && !self.force_shutdown
        &&& self.status == ProxyStatus::NotStarted
        &&& self.num_running == 0 && self.tunnel_reqs == 0
        &&& self.command_password@ == Seq::<char>::empty()
    }

    /// A proxy with the sites named that is yet to be started at the first of the addresses that
    /// were found, if any.
    pub fn new(addr: Option<String>, sites: &[(&'static str, &'static str)]) -> (res: Result<
        Self,
        AddrNotAvailable,
    >)
        ensures
            match res {
                Ok(p) => {
                    &&& addr == Some(p.addr)
                    &&& p.wf()
                    &&& holds(p.server_info_map@, chars(sites@))
                    &&& p.fresh()
                },
                Err(_) => addr is None,
            },
    {
        let addr = match addr {
            Some(addr) => addr,
            None => return Err(AddrNotAvailable),
        };
        let mut server_info_map: SyncMap<ServerInfo> = SyncMap::new();
        let mut i: usize = 0;
        assert(chars(sites@.take(0)) =~= Seq::empty());
        while i < sites.len()
            invariant
                i <= sites@.len(),
                server_info_map.wf(),
                holds(server_info_map@, chars(sites@.take(i as int))),
            decreases sites@.len() - i,
        {
            let (name, site_addr) = sites[i];
            let info = ServerInfo::new(name.to_owned(), site_addr.to_owned());
            let ghost before = server_info_map@;
            server_info_map.store(info.name.clone(), info);
            proof {
                let prev = chars(sites@.take(i as int));
                let done = chars(sites@.take(i + 1));
                assert(done =~= prev.push((name@, site_addr@)));
                assert(done[i as int] == (name@, site_addr@));
                assert forall|k: Seq<char>| #[trigger]
                    server_info_map@.contains_key(k) implies exists|a: int|
                    0 <= a < done.len() && (#[trigger] done[a]).0 == k by {
                    if k != name@ {
                        assert(before.contains_key(k));
                        let a = choose|a: int| 0 <= a < prev.len() && (#[trigger] prev[a]).0 == k;
                        assert(done[a].0 == k);
                    }
                }
                assert forall|a: int| 0 <= a < done.len() && is_last(done, a) implies ({
                    let (n, d) = #[trigger] done[a];
                    server_info_map@.contains_key(n) && plain(server_info_map@[n], n, d)
                }) by {
                    if a < i {
                        assert(done[a] == prev[a]);
                        assert(done[a].0 != done[i as int].0);
                        assert forall|j: int| a < j < prev.len() implies (#[trigger] prev[j]).0
                            != prev[a].0 by {
                            assert(done[j] == prev[j]);
                        }
                        assert(is_last(prev, a));
                    }
                }
                assert(holds(server_info_map@, done));
            }
            i = i + 1;
        }
        assert(sites@.take(i as int) =~= sites@);
        Ok(
            NamedSites {
                addr,
                server_info_map,
                connector: false,
                shutdown: false,
                force_shutdown: false,
                status: ProxyStatus::NotStarted,
                num_running: 0,
                tunnel_reqs: 0,
                command_password: String::new(),
            },
        )
    }
}

} // verus!
