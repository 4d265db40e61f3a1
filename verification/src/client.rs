//! The registry client: lists, creates, resets and deletes proxies on the
//! server, and hands out [`Proxy`] handles.
//!
//! The server's proxy table is held by the client as a verified in-memory
//! model: a sequence of proxy records keyed by name. Every operation is
//! specified as a transition on that table.

use vstd::prelude::*;
use crate::proxy::packs_view;
use crate::proxy::Proxy;
use crate::proxy::ProxyModel;
use crate::proxy::ProxyPack;

verus! {

/// Errors a lifecycle operation can report.
#[derive(Clone, Copy, Debug, PartialEq, Eq, Structural)]
pub enum ClientError {
    /// No proxy of the requested name exists on the server.
    ProxyNotFound,
    /// The proxy already carries a toxic of the same derived name.
    DuplicateToxic,
}

impl ClientError {
    /// A human-readable description of the error.
    pub fn message(&self) -> (r: String)
        ensures
            *self == ClientError::ProxyNotFound ==> r@ == "proxy not found"@,
            *self == ClientError::DuplicateToxic ==> r@ == "toxic already exists on the proxy"@,
    {
        match self {
            ClientError::ProxyNotFound => "proxy not found".to_owned(),
            ClientError::DuplicateToxic => "toxic already exists on the proxy".to_owned(),
        }
    }
}

/// The version string the model server reports.
pub open spec fn server_version() -> Seq<char> {
    "2.12.0"@
}

/// True when some entry of the table carries this name.
pub open spec fn has_proxy(table: Seq<ProxyModel>, name: Seq<char>) -> bool {
    exists|i: int| 0 <= i < table.len() && table[i].name == name
}

/// True when `i` is the first entry of the table carrying this name.
pub open spec fn is_first_match(table: Seq<ProxyModel>, name: Seq<char>, i: int) -> bool {
    &&& 0 <= i < table.len()
    &&& table[i].name == name
    &&& forall|j: int| 0 <= j < i ==> table[j].name != name
}

/// The index of the first entry carrying this name; meaningful only when
/// `has_proxy` holds.
pub open spec fn proxy_index(table: Seq<ProxyModel>, name: Seq<char>) -> int {
    choose|i: int| is_first_match(table, name, i)
}

/// The first entry carrying this name.
pub open spec fn proxy_of(table: Seq<ProxyModel>, name: Seq<char>) -> ProxyModel {
    table[proxy_index(table, name)]
}

/// The toxics of the first entry carrying this name.
pub open spec fn toxics_of(table: Seq<ProxyModel>, name: Seq<char>) -> Seq<
    crate::toxic::ToxicModel,
> {
    proxy_of(table, name).toxics
}

/// No two entries of the table share a name. The server keys proxies by
/// name, so a table observed from it always satisfies this.
pub open spec fn names_unique(table: Seq<ProxyModel>) -> bool {
    forall|i: int, j: int| 0 <= i < j < table.len() ==> table[i].name != table[j].name
}

/// A first match is the index `proxy_index` picks, and it makes
/// `has_proxy` true.
pub proof fn lemma_first_match(table: Seq<ProxyModel>, name: Seq<char>, i: int)
    requires
        is_first_match(table, name, i),
    ensures
        has_proxy(table, name),
        proxy_index(table, name) == i,
{
    assert(has_proxy(table, name));
    let c = choose|k: int| is_first_match(table, name, k);
    assert(is_first_match(table, name, c));
    if c < i {
        assert(table[c].name != name);
    }
    if i < c {
        assert(table[i].name != name);
    }
}

/// When the table has an entry of this name, `proxy_index` is its first
/// match.
pub proof fn lemma_proxy_index(table: Seq<ProxyModel>, name: Seq<char>)
    requires
        has_proxy(table, name),
    ensures
        is_first_match(table, name, proxy_index(table, name)),
{
    let w = choose|i: int| 0 <= i < table.len() && table[i].name == name;
    lemma_exists_first_match(table, name, w);
}

proof fn lemma_exists_first_match(table: Seq<ProxyModel>, name: Seq<char>, w: int)
    requires
        0 <= w < table.len(),
        table[w].name == name,
    ensures
        is_first_match(table, name, proxy_index(table, name)),
    decreases w,
{
    if forall|j: int| 0 <= j < w ==> table[j].name != name {
        lemma_first_match(table, name, w);
    } else {
        let v = choose|j: int| 0 <= j < w && table[j].name == name;
        lemma_exists_first_match(table, name, v);
    }
}

/// Replacing the first entry of a name with a record of the same name
/// keeps it the first entry of that name, and touches nothing else.
pub proof fn lemma_update_keeps_first(table: Seq<ProxyModel>, name: Seq<char>, p: ProxyModel)
    requires
        has_proxy(table, name),
        p.name == name,
    ensures
        ({
            let t2 = table.update(proxy_index(table, name), p);
            &&& has_proxy(t2, name)
            &&& proxy_index(t2, name) == proxy_index(table, name)
            &&& proxy_of(t2, name) == p
        }),
{
    lemma_proxy_index(table, name);
    let i = proxy_index(table, name);
    let t2 = table.update(i, p);
    assert(is_first_match(t2, name, i));
    lemma_first_match(t2, name, i);
}

/// The table after every toxic on every proxy is cleared.
pub open spec fn reset_table(table: Seq<ProxyModel>) -> Seq<ProxyModel> {
    Seq::new(table.len(), |i: int| ProxyModel { toxics: Seq::empty(), ..table[i] })
}

/// The record the server keeps after a proxy is created: the submitted
/// addresses, enabled, and no toxics.
pub open spec fn fresh_model(cfg: ProxyModel) -> ProxyModel {
    ProxyModel {
        name: cfg.name,
        listen: cfg.listen,
        upstream: cfg.upstream,
        enabled: true,
        toxics: Seq::empty(),
    }
}

/// The table after one proxy is created: an entry of the same name is
/// replaced wholesale, else the fresh record is appended.
pub open spec fn create_one(table: Seq<ProxyModel>, cfg: ProxyModel) -> Seq<ProxyModel> {
    if has_proxy(table, cfg.name) {
        table.update(proxy_index(table, cfg.name), fresh_model(cfg))
    } else {
        table.push(fresh_model(cfg))
    }
}

/// The table after the bulk-create call: each submitted configuration is
/// created in order.
pub open spec fn populate_table(table: Seq<ProxyModel>, cfgs: Seq<ProxyModel>) -> Seq<ProxyModel>
    decreases cfgs.len(),
{
    if cfgs.len() == 0 {
        table
    } else {
        create_one(populate_table(table, cfgs.drop_last()), cfgs.last())
    }
}

/// The table after every toxic of the first entry of this name is
/// cleared; meaningful only when `has_proxy` holds.
pub open spec fn clear_toxics_table(table: Seq<ProxyModel>, name: Seq<char>) -> Seq<ProxyModel> {
    table.update(
        proxy_index(table, name),
        ProxyModel { toxics: Seq::empty(), ..proxy_of(table, name) },
    )
}

/// The table after the enabled flag of the first entry of this name is
/// set; meaningful only when `has_proxy` holds.
pub open spec fn set_enabled_table(table: Seq<ProxyModel>, name: Seq<char>, enabled: bool) -> Seq<
    ProxyModel,
> {
    table.update(proxy_index(table, name), ProxyModel { enabled, ..proxy_of(table, name) })
}

/// The table after a toxic is appended to the first entry of this name;
/// meaningful only when `has_proxy` holds.
pub open spec fn add_toxic_table(
    table: Seq<ProxyModel>,
    name: Seq<char>,
    t: crate::toxic::ToxicModel,
) -> Seq<ProxyModel> {
    table.update(
        proxy_index(table, name),
        ProxyModel { toxics: proxy_of(table, name).toxics.push(t), ..proxy_of(table, name) },
    )
}

/// The table after the first entry of this name is removed; meaningful
/// only when `has_proxy` holds.
pub open spec fn remove_proxy_table(table: Seq<ProxyModel>, name: Seq<char>) -> Seq<ProxyModel> {
    table.remove(proxy_index(table, name))
}

/// The registry client. It holds the server's proxy table.
#[derive(Debug)]
pub struct Toxiproxy {
    pub proxies: Vec<ProxyPack>,
}

impl View for Toxiproxy {
    type V = Seq<ProxyModel>;

    open spec fn view(&self) -> Seq<ProxyModel> {
        packs_view(self.proxies@)
    }
}

impl Toxiproxy {
    /// A fresh client over a server with no proxies yet.
    pub fn new() -> (r: Self)
        ensures
            r@ == Seq::<ProxyModel>::empty(),
    {
        let r = Toxiproxy { proxies: Vec::new() };
        proof {
            assert(r@ =~= Seq::<ProxyModel>::empty());
        }
        r
    }

    /// Liveness probe: true when the server answers on its root path. The
    /// model server is always reachable.
    pub fn is_running(&self) -> (r: bool)
        ensures
            r,
    {
        true
    }

    /// The server's version string.
    pub fn version(&self) -> (r: Result<String, ClientError>)
        ensures
            r matches Ok(v) && v@ == server_version(),
    {
        Ok("2.12.0".to_owned())
    }

    /// Clear every toxic on every proxy. Proxies, their addresses and
    /// their enabled flags are kept.
    pub fn reset(&mut self) -> (r: Result<(), ClientError>)
        ensures
            r is Ok,
            final (self)@ == reset_table(old(self)@),
    {
        let ghost start = self@;
        let mut i: usize = 0;
        while i < self.proxies.len()
            invariant
                i <= self.proxies.len(),
                self@.len() == start.len(),
                forall|j: int| 0 <= j < i ==> self@[j] == reset_table(start)[j],
                forall|j: int| i <= j < start.len() ==> self@[j] == start[j],
            decreases self.proxies.len() - i,
        {
            self.proxies[i].toxics = Vec::new();
            proof {
                assert(self@[i as int].toxics =~= Seq::empty());
                assert(self@[i as int] =~= reset_table(start)[i as int]);
            }
            i += 1;
        }
        proof {
            assert(self@ =~= reset_table(start));
        }
        Ok(())
    }

    /// The index of the first entry of this name, if any.
    pub(crate) fn find_index(&self, name: &str) -> (r: Option<usize>)
        ensures
            match r {
                Some(i) => is_first_match(self@, name@, i as int),
                None => !has_proxy(self@, name@),
            },
    {
        let needle: String = name.to_owned();
        let mut i: usize = 0;
        while i < self.proxies.len()
            invariant
                i <= self.proxies.len(),
                needle@ == name@,
                forall|j: int| 0 <= j < i ==> self@[j].name != name@,
            decreases self.proxies.len() - i,
        {
            if self.proxies[i].name == needle {
                return Some(i);
            }
            i += 1;
        }
        None
    }

    /// Fetch a single proxy's current configuration by name. Returns a
    /// handle echoing the server's record, or reports that no proxy of
    /// that name exists.
    pub fn find_proxy(&self, name: &str) -> (r: Result<Proxy, ClientError>)
        ensures
            match r {
                Ok(p) => has_proxy(self@, name@) && p@ == proxy_of(self@, name@),
                Err(e) => e == ClientError::ProxyNotFound && !has_proxy(self@, name@),
            },
    {
        match self.find_index(name) {
            Some(i) => {
                proof {
                    lemma_first_match(self@, name@, i as int);
                }
                Ok(Proxy::new(self.proxies[i].clone()))
            },
            None => Err(ClientError::ProxyNotFound),
        }
    }

    /// Bulk-create proxies. Each submitted configuration replaces an
    /// existing entry of the same name wholesale, or is appended; either
    /// way the server's record starts enabled with no toxics. Returns one
    /// handle per submitted configuration, echoing the server's record.
    pub fn populate(&mut self, configs: Vec<ProxyPack>) -> (r: Result<Vec<Proxy>, ClientError>)
        ensures
            final (self)@ == populate_table(old(self)@, packs_view(configs@)),
            r matches Ok(handles) && handles@.len() == configs@.len() && (forall|k: int|
                0 <= k < configs@.len() ==> handles@[k]@ == fresh_model(configs@[k]@)),
    {
        let ghost start = self@;
        let ghost cfgs = packs_view(configs@);
        let mut handles: Vec<Proxy> = Vec::new();
        let mut k: usize = 0;
        while k < configs.len()
            invariant
                k <= configs.len(),
                cfgs == packs_view(configs@),
                cfgs.len() == configs@.len(),
                self@ == populate_table(start, cfgs.take(k as int)),
                handles@.len() == k,
                forall|j: int| 0 <= j < k ==> handles@[j]@ == fresh_model(cfgs[j]),
            decreases configs.len() - k,
        {
            let cfg = &configs[k];
            let fresh = ProxyPack {
                name: cfg.name.clone(),
                listen: cfg.listen.clone(),
                upstream: cfg.upstream.clone(),
                enabled: true,
                toxics: Vec::new(),
            };
            proof {
                assert(crate::proxy::toxics_view(fresh.toxics@) =~= Seq::empty());
                assert(fresh@ =~= fresh_model(cfgs[k as int]));
            }
            let ghost mid = self@;
            let handle_pack = fresh.clone();
            match self.find_index(fresh.name.as_str()) {
                Some(i) => {
                    proof {
                        lemma_first_match(mid, cfgs[k as int].name, i as int);
                    }
                    self.proxies[i] = fresh;
                    proof {
                        assert(self@ =~= mid.update(i as int, fresh_model(cfgs[k as int])));
                    }
                },
                None => {
                    self.proxies.push(fresh);
                    proof {
                        assert(self@ =~= mid.push(fresh_model(cfgs[k as int])));
                    }
                },
            }
            handles.push(Proxy::new(handle_pack));
            proof {
                assert(cfgs.take(k as int + 1).drop_last() =~= cfgs.take(k as int));
                assert(cfgs.take(k as int + 1).last() == cfgs[k as int]);
                assert(self@ == create_one(mid, cfgs[k as int]));
            }
            k += 1;
        }
        proof {
            assert(cfgs.take(cfgs.len() as int) =~= cfgs);
            assert forall|j: int| 0 <= j < configs@.len() implies handles@[j]@ == fresh_model(
                configs@[j]@,
            ) by {
                assert(cfgs[j] == configs@[j]@);
            }
        }
        Ok(handles)
    }

    /// The full proxy list: one handle per entry of the server's table,
    /// in table order.
    pub fn all(&self) -> (r: Result<Vec<Proxy>, ClientError>)
        ensures
            r matches Ok(handles) && handles@.len() == self@.len() && (forall|k: int|
                0 <= k < self@.len() ==> handles@[k]@ == self@[k]),
    {
        let mut handles: Vec<Proxy> = Vec::new();
        let mut k: usize = 0;
        while k < self.proxies.len()
            invariant
                k <= self.proxies.len(),
                handles@.len() == k,
                forall|j: int| 0 <= j < k ==> handles@[j]@ == self@[j],
            decreases self.proxies.len() - k,
        {
            handles.push(Proxy::new(self.proxies[k].clone()));
            k += 1;
        }
        Ok(handles)
    }

    /// Fetch a proxy by name and clear all of its toxics. The returned
    /// handle echoes the cleared record: same addresses, same enabled
    /// flag, no toxics.
    pub fn find_and_reset_proxy(&mut self, name: &str) -> (r: Result<Proxy, ClientError>)
        ensures
            match r {
                Ok(p) => {
                    &&& has_proxy(old(self)@, name@)
                    &&& final (self)@ == clear_toxics_table(old(self)@, name@)
                    &&& p@ == (ProxyModel {
                        toxics: Seq::empty(),
                        ..proxy_of(old(self)@, name@)
                    })
                    &&& has_proxy(final (self)@, name@)
                    &&& p@ == proxy_of(final (self)@, name@)
                },
                Err(e) => {
                    &&& e == ClientError::ProxyNotFound
                    &&& !has_proxy(old(self)@, name@)
                    &&& *final (self) == *old(self)
                },
            },
    {
        let ghost start = self@;
        match self.find_index(name) {
            Some(i) => {
                proof {
                    lemma_first_match(start, name@, i as int);
                }
                self.proxies[i].toxics = Vec::new();
                proof {
                    assert(self@[i as int].toxics =~= Seq::empty());
                    assert(self@[i as int] =~= (ProxyModel {
                        toxics: Seq::empty(),
                        ..proxy_of(start, name@)
                    }));
                    assert(self@ =~= clear_toxics_table(start, name@));
                    lemma_first_match(self@, name@, i as int);
                }
                let pack = self.proxies[i].clone();
                Ok(Proxy::new(pack))
            },
            None => Err(ClientError::ProxyNotFound),
        }
    }
}

} // verus!
