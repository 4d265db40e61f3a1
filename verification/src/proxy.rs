//! Proxies: named virtual endpoints that forward traffic from a listen
//! address to an upstream address, each carrying zero or more toxics.

use vstd::prelude::*;
use crate::client::add_toxic_table;
use crate::client::clear_toxics_table;
use crate::client::has_proxy;
use crate::client::lemma_first_match;
use crate::client::proxy_of;
use crate::client::remove_proxy_table;
use crate::client::set_enabled_table;
use crate::client::toxics_of;
use crate::client::ClientError;
use crate::client::Toxiproxy;
use crate::toxic::attrs_view;
use crate::toxic::bandwidth_toxic;
use crate::toxic::condition_view;
use crate::toxic::latency_toxic;
use crate::toxic::limit_data_toxic;
use crate::toxic::slicer_toxic;
use crate::toxic::slow_close_toxic;
use crate::toxic::timeout_toxic;
use crate::toxic::toxic_name_on;
use crate::toxic::ToxicCondition;
use crate::toxic::ToxicModel;
use crate::toxic::ToxicPack;
use crate::toxic::ToxicValueType;
use crate::toxic::Toxicity;
use crate::wire::enabled_body;
use crate::wire::encode_enabled;
use crate::wire::lemma_enabled_bodies_differ;

verus! {

/// Mathematical model of a [`ProxyPack`].
#[verifier::ext_equal]
pub ghost struct ProxyModel {
    pub name: Seq<char>,
    pub listen: Seq<char>,
    pub upstream: Seq<char>,
    pub enabled: bool,
    pub toxics: Seq<ToxicModel>,
}

/// The model of a toxic list: each toxic replaced by its model, in order.
pub open spec fn toxics_view(toxics: Seq<ToxicPack>) -> Seq<ToxicModel> {
    toxics.map_values(|t: ToxicPack| t@)
}

/// The model of a proxy list: each record replaced by its model, in order.
pub open spec fn packs_view(packs: Seq<ProxyPack>) -> Seq<ProxyModel> {
    packs.map_values(|p: ProxyPack| p@)
}

/// Raw info about a proxy, as sent to and echoed by the server.
#[derive(Debug, PartialEq)]
pub struct ProxyPack {
    pub name: String,
    pub listen: String,
    pub upstream: String,
    pub enabled: bool,
    pub toxics: Vec<ToxicPack>,
}

impl View for ProxyPack {
    type V = ProxyModel;

    open spec fn view(&self) -> ProxyModel {
        ProxyModel {
            name: self.name@,
            listen: self.listen@,
            upstream: self.upstream@,
            enabled: self.enabled,
            toxics: toxics_view(self.toxics@),
        }
    }
}

impl ProxyPack {
    /// Build a new proxy configuration: enabled, with no toxics yet.
    pub fn new(name: String, listen: String, upstream: String) -> (r: Self)
        ensures
            r@ == (ProxyModel {
                name: name@,
                listen: listen@,
                upstream: upstream@,
                enabled: true,
                toxics: Seq::<ToxicModel>::empty(),
            }),
    {
        let r = ProxyPack { name, listen, upstream, enabled: true, toxics: vec![] };
        proof {
            assert(toxics_view(r.toxics@) =~= Seq::<ToxicModel>::empty());
        }
        r
    }
}

/// Deep copy of a toxic list, preserving its model.
pub(crate) fn clone_toxics(toxics: &Vec<ToxicPack>) -> (r: Vec<ToxicPack>)
    ensures
        toxics_view(r@) == toxics_view(toxics@),
{
    let mut r: Vec<ToxicPack> = Vec::new();
    let mut i: usize = 0;
    while i < toxics.len()
        invariant
            i <= toxics.len(),
            r@.len() == i,
            forall|j: int| 0 <= j < i ==> r@[j]@ == toxics@[j]@,
        decreases toxics.len() - i,
    {
        let t = toxics[i].clone();
        r.push(t);
        i += 1;
    }
    proof {
        assert(toxics_view(r@) =~= toxics_view(toxics@));
    }
    r
}

impl Clone for ProxyPack {
    fn clone(&self) -> (r: Self)
        ensures
            r@ == self@,
    {
        ProxyPack {
            name: self.name.clone(),
            listen: self.listen.clone(),
            upstream: self.upstream.clone(),
            enabled: self.enabled,
            toxics: clone_toxics(&self.toxics),
        }
    }
}

/// Client handle for one named proxy. It carries the configuration that
/// the server last echoed for that proxy; the server stays authoritative.
#[derive(Debug)]
pub struct Proxy {
    pub proxy_pack: ProxyPack,
}

impl View for Proxy {
    type V = ProxyModel;

    open spec fn view(&self) -> ProxyModel {
        self.proxy_pack@
    }
}

/// What a successful toxic registration does: the proxy existed, it did
/// not yet carry a toxic of that name, and the toxic is appended to it.
pub open spec fn toxic_create_ok(
    old_table: Seq<ProxyModel>,
    new_table: Seq<ProxyModel>,
    pname: Seq<char>,
    t: ToxicModel,
) -> bool {
    &&& has_proxy(old_table, pname)
    &&& !toxic_name_on(toxics_of(old_table, pname), t.name)
    &&& new_table == add_toxic_table(old_table, pname, t)
}

/// When a toxic registration fails: the proxy is missing, or it already
/// carries a toxic of the same name.
pub open spec fn toxic_create_err(
    old_table: Seq<ProxyModel>,
    pname: Seq<char>,
    t: ToxicModel,
    e: ClientError,
) -> bool {
    ||| (e == ClientError::ProxyNotFound && !has_proxy(old_table, pname))
    ||| (e == ClientError::DuplicateToxic && has_proxy(old_table, pname) && toxic_name_on(
        toxics_of(old_table, pname),
        t.name,
    ))
}

/// True when some toxic of the list carries this name.
fn toxic_name_present(toxics: &Vec<ToxicPack>, name: &String) -> (r: bool)
    ensures
        r == toxic_name_on(toxics_view(toxics@), name@),
{
    let mut j: usize = 0;
    while j < toxics.len()
        invariant
            j <= toxics.len(),
            forall|k: int| 0 <= k < j ==> toxics@[k]@.name != name@,
        decreases toxics.len() - j,
    {
        if toxics[j].name == *name {
            proof {
                assert(toxics_view(toxics@)[j as int] == toxics@[j as int]@);
            }
            return true;
        }
        j += 1;
    }
    proof {
        assert forall|k: int| 0 <= k < toxics@.len() implies toxics_view(toxics@)[k].name
            != name@ by {
            assert(toxics_view(toxics@)[k] == toxics@[k]@);
        }
    }
    false
}

impl Proxy {
    pub(crate) fn new(proxy_pack: ProxyPack) -> (r: Self)
        ensures
            r@ == proxy_pack@,
    {
        Proxy { proxy_pack }
    }

    /// POST a toggle body to the proxy's path. The server flips the flag
    /// the body names, or reports that the proxy does not exist.
    fn update(&self, client: &mut Toxiproxy, payload: String) -> (r: Result<(), ClientError>)
        requires
            payload@ == enabled_body(true) || payload@ == enabled_body(false),
        ensures
            match r {
                Ok(()) => {
                    &&& has_proxy(old(client)@, self@.name)
                    &&& final (client)@ == set_enabled_table(
                        old(client)@,
                        self@.name,
                        payload@ == enabled_body(true),
                    )
                },
                Err(e) => {
                    &&& e == ClientError::ProxyNotFound
                    &&& !has_proxy(old(client)@, self@.name)
                    &&& *final (client) == *old(client)
                },
            },
    {
        let enabled = payload == encode_enabled(true);
        proof {
            lemma_enabled_bodies_differ();
        }
        let ghost start = client@;
        match client.find_index(self.proxy_pack.name.as_str()) {
            Some(i) => {
                proof {
                    lemma_first_match(start, self@.name, i as int);
                }
                client.proxies[i].enabled = enabled;
                proof {
                    assert(client@[i as int] =~= (ProxyModel {
                        enabled: payload@ == enabled_body(true),
                        ..proxy_of(start, self@.name)
                    }));
                    assert(client@ =~= set_enabled_table(
                        start,
                        self@.name,
                        payload@ == enabled_body(true),
                    ));
                }
                Ok(())
            },
            None => Err(ClientError::ProxyNotFound),
        }
    }

    /// Disable the proxy: new connections through it fail immediately
    /// until it is enabled again.
    pub fn disable(&self, client: &mut Toxiproxy) -> (r: Result<(), ClientError>)
        ensures
            match r {
                Ok(()) => {
                    &&& has_proxy(old(client)@, self@.name)
                    &&& final (client)@ == set_enabled_table(old(client)@, self@.name, false)
                },
                Err(e) => {
                    &&& e == ClientError::ProxyNotFound
                    &&& !has_proxy(old(client)@, self@.name)
                    &&& *final (client) == *old(client)
                },
            },
    {
        proof {
            lemma_enabled_bodies_differ();
        }
        let body = encode_enabled(false);
        self.update(client, body)
    }

    /// Enable the proxy.
    pub fn enable(&self, client: &mut Toxiproxy) -> (r: Result<(), ClientError>)
        ensures
            match r {
                Ok(()) => {
                    &&& has_proxy(old(client)@, self@.name)
                    &&& final (client)@ == set_enabled_table(old(client)@, self@.name, true)
                },
                Err(e) => {
                    &&& e == ClientError::ProxyNotFound
                    &&& !has_proxy(old(client)@, self@.name)
                    &&& *final (client) == *old(client)
                },
            },
    {
        let body = encode_enabled(true);
        self.update(client, body)
    }

    /// Remove the proxy and all of its toxics from the server.
    pub fn delete(&self, client: &mut Toxiproxy) -> (r: Result<(), ClientError>)
        ensures
            match r {
                Ok(()) => {
                    &&& has_proxy(old(client)@, self@.name)
                    &&& final (client)@ == remove_proxy_table(old(client)@, self@.name)
                },
                Err(e) => {
                    &&& e == ClientError::ProxyNotFound
                    &&& !has_proxy(old(client)@, self@.name)
                    &&& *final (client) == *old(client)
                },
            },
    {
        let ghost start = client@;
        match client.find_index(self.proxy_pack.name.as_str()) {
            Some(i) => {
                proof {
                    lemma_first_match(start, self@.name, i as int);
                }
                client.proxies.remove(i);
                proof {
                    assert(client@ =~= remove_proxy_table(start, self@.name));
                }
                Ok(())
            },
            None => Err(ClientError::ProxyNotFound),
        }
    }

    /// Retrieve the ordered list of toxics registered on the proxy.
    pub fn toxics(&self, client: &Toxiproxy) -> (r: Result<Vec<ToxicPack>, ClientError>)
        ensures
            match r {
                Ok(list) => {
                    &&& has_proxy(client@, self@.name)
                    &&& toxics_view(list@) == toxics_of(client@, self@.name)
                },
                Err(e) => {
                    &&& e == ClientError::ProxyNotFound
                    &&& !has_proxy(client@, self@.name)
                },
            },
    {
        match client.find_index(self.proxy_pack.name.as_str()) {
            Some(i) => {
                proof {
                    lemma_first_match(client@, self@.name, i as int);
                }
                Ok(clone_toxics(&client.proxies[i].toxics))
            },
            None => Err(ClientError::ProxyNotFound),
        }
    }

    /// Register one toxic on the proxy. The server rejects a second toxic
    /// of the same derived name.
    pub fn create_toxic(&self, client: &mut Toxiproxy, toxic: ToxicPack) -> (r: Result<
        (),
        ClientError,
    >)
        ensures
            match r {
                Ok(()) => toxic_create_ok(old(client)@, final (client)@, self@.name, toxic@),
                Err(e) => *final (client) == *old(client) && toxic_create_err(
                    old(client)@,
                    self@.name,
                    toxic@,
                    e,
                ),
            },
    {
        let ghost start = client@;
        match client.find_index(self.proxy_pack.name.as_str()) {
            Some(i) => {
                proof {
                    lemma_first_match(start, self@.name, i as int);
                }
                if toxic_name_present(&client.proxies[i].toxics, &toxic.name) {
                    return Err(ClientError::DuplicateToxic);
                }
                client.proxies[i].toxics.push(toxic);
                proof {
                    assert(toxics_view(client.proxies@[i as int].toxics@) =~= toxics_of(
                        start,
                        self@.name,
                    ).push(toxic@));
                    assert(client@ =~= add_toxic_table(start, self@.name, toxic@));
                }
                Ok(())
            },
            None => Err(ClientError::ProxyNotFound),
        }
    }

    /// Register a latency toxic: data on the given stream is delayed by
    /// `latency` ms, varied by `jitter` ms.
    pub fn with_latency(
        &self,
        client: &mut Toxiproxy,
        stream: String,
        latency: ToxicValueType,
        jitter: ToxicValueType,
        toxicity: Toxicity,
    ) -> (r: Result<&Self, ClientError>)
        requires
            toxicity.wf(),
        ensures
            r matches Ok(me) ==> me == self && toxic_create_ok(
                old(client)@,
                final (client)@,
                self@.name,
                latency_toxic(stream@, latency, jitter, toxicity, None),
            ),
            r matches Err(e) ==> *final (client) == *old(client) && toxic_create_err(
                old(client)@,
                self@.name,
                latency_toxic(stream@, latency, jitter, toxicity, None),
                e,
            ),
    {
        self.with_latency_upon_condition(client, stream, latency, jitter, toxicity, None)
    }

    /// Register a latency toxic scoped by an optional condition.
    pub fn with_latency_upon_condition(
        &self,
        client: &mut Toxiproxy,
        stream: String,
        latency: ToxicValueType,
        jitter: ToxicValueType,
        toxicity: Toxicity,
        condition: Option<ToxicCondition>,
    ) -> (r: Result<&Self, ClientError>)
        requires
            toxicity.wf(),
        ensures
            r matches Ok(me) ==> me == self && toxic_create_ok(
                old(client)@,
                final (client)@,
                self@.name,
                latency_toxic(stream@, latency, jitter, toxicity, condition_view(condition)),
            ),
            r matches Err(e) ==> *final (client) == *old(client) && toxic_create_err(
                old(client)@,
                self@.name,
                latency_toxic(stream@, latency, jitter, toxicity, condition_view(condition)),
                e,
            ),
    {
        let mut attributes: Vec<(String, ToxicValueType)> = Vec::new();
        attributes.push(("latency".to_owned(), latency));
        attributes.push(("jitter".to_owned(), jitter));
        proof {
            assert(attrs_view(attributes@) =~= seq![("latency"@, latency), ("jitter"@, jitter)]);
            reveal_strlit("latency");
            reveal_strlit("jitter");
            assert(crate::toxic::attr_keys_unique(attrs_view(attributes@)));
        }
        let t = ToxicPack::new_with_condition(
            "latency".to_owned(),
            stream,
            toxicity,
            attributes,
            condition,
        );
        match self.create_toxic(client, t) {
            Ok(()) => Ok(self),
            Err(e) => Err(e),
        }
    }

    /// Register a bandwidth toxic: throughput on the given stream is
    /// capped at `rate` KB/s.
    pub fn with_bandwidth(
        &self,
        client: &mut Toxiproxy,
        stream: String,
        rate: ToxicValueType,
        toxicity: Toxicity,
    ) -> (r: Result<&Self, ClientError>)
        requires
            toxicity.wf(),
        ensures
            r matches Ok(me) ==> me == self && toxic_create_ok(
                old(client)@,
                final (client)@,
                self@.name,
                bandwidth_toxic(stream@, rate, toxicity, None),
            ),
            r matches Err(e) ==> *final (client) == *old(client) && toxic_create_err(
                old(client)@,
                self@.name,
                bandwidth_toxic(stream@, rate, toxicity, None),
                e,
            ),
    {
        self.with_bandwidth_upon_condition(client, stream, rate, toxicity, None)
    }

    /// Register a bandwidth toxic scoped by an optional condition.
    pub fn with_bandwidth_upon_condition(
        &self,
        client: &mut Toxiproxy,
        stream: String,
        rate: ToxicValueType,
        toxicity: Toxicity,
        condition: Option<ToxicCondition>,
    ) -> (r: Result<&Self, ClientError>)
        requires
            toxicity.wf(),
        ensures
            r matches Ok(me) ==> me == self && toxic_create_ok(
                old(client)@,
                final (client)@,
                self@.name,
                bandwidth_toxic(stream@, rate, toxicity, condition_view(condition)),
            ),
            r matches Err(e) ==> *final (client) == *old(client) && toxic_create_err(
                old(client)@,
                self@.name,
                bandwidth_toxic(stream@, rate, toxicity, condition_view(condition)),
                e,
            ),
    {
        let mut attributes: Vec<(String, ToxicValueType)> = Vec::new();
        attributes.push(("rate".to_owned(), rate));
        proof {
            assert(attrs_view(attributes@) =~= seq![("rate"@, rate)]);
        }
        let t = ToxicPack::new_with_condition(
            "bandwidth".to_owned(),
            stream,
            toxicity,
            attributes,
            condition,
        );
        match self.create_toxic(client, t) {
            Ok(()) => Ok(self),
            Err(e) => Err(e),
        }
    }

    /// Register a slow-close toxic: the connection stays open `delay` ms
    /// after the server closes it.
    pub fn with_slow_close(
        &self,
        client: &mut Toxiproxy,
        stream: String,
        delay: ToxicValueType,
        toxicity: Toxicity,
    ) -> (r: Result<&Self, ClientError>)
        requires
            toxicity.wf(),
        ensures
            r matches Ok(me) ==> me == self && toxic_create_ok(
                old(client)@,
                final (client)@,
                self@.name,
                slow_close_toxic(stream@, delay, toxicity, None),
            ),
            r matches Err(e) ==> *final (client) == *old(client) && toxic_create_err(
                old(client)@,
                self@.name,
                slow_close_toxic(stream@, delay, toxicity, None),
                e,
            ),
    {
        self.with_slow_close_upon_condition(client, stream, delay, toxicity, None)
    }

    /// Register a slow-close toxic scoped by an optional condition.
    pub fn with_slow_close_upon_condition(
        &self,
        client: &mut Toxiproxy,
        stream: String,
        delay: ToxicValueType,
        toxicity: Toxicity,
        condition: Option<ToxicCondition>,
    ) -> (r: Result<&Self, ClientError>)
        requires
            toxicity.wf(),
        ensures
            r matches Ok(me) ==> me == self && toxic_create_ok(
                old(client)@,
                final (client)@,
                self@.name,
                slow_close_toxic(stream@, delay, toxicity, condition_view(condition)),
            ),
            r matches Err(e) ==> *final (client) == *old(client) && toxic_create_err(
                old(client)@,
                self@.name,
                slow_close_toxic(stream@, delay, toxicity, condition_view(condition)),
                e,
            ),
    {
        let mut attributes: Vec<(String, ToxicValueType)> = Vec::new();
        attributes.push(("delay".to_owned(), delay));
        proof {
            assert(attrs_view(attributes@) =~= seq![("delay"@, delay)]);
        }
        let t = ToxicPack::new_with_condition(
            "slow_close".to_owned(),
            stream,
            toxicity,
            attributes,
            condition,
        );
        match self.create_toxic(client, t) {
            Ok(()) => Ok(self),
            Err(e) => Err(e),
        }
    }

    /// Register a timeout toxic: data on the given stream is stopped and
    /// the connection is closed after `timeout` ms.
    pub fn with_timeout(
        &self,
        client: &mut Toxiproxy,
        stream: String,
        timeout: ToxicValueType,
        toxicity: Toxicity,
    ) -> (r: Result<&Self, ClientError>)
        requires
            toxicity.wf(),
        ensures
            r matches Ok(me) ==> me == self && toxic_create_ok(
                old(client)@,
                final (client)@,
                self@.name,
                timeout_toxic(stream@, timeout, toxicity, None),
            ),
            r matches Err(e) ==> *final (client) == *old(client) && toxic_create_err(
                old(client)@,
                self@.name,
                timeout_toxic(stream@, timeout, toxicity, None),
                e,
            ),
    {
        self.with_timeout_upon_condition(client, stream, timeout, toxicity, None)
    }

    /// Register a timeout toxic scoped by an optional condition.
    pub fn with_timeout_upon_condition(
        &self,
        client: &mut Toxiproxy,
        stream: String,
        timeout: ToxicValueType,
        toxicity: Toxicity,
        condition: Option<ToxicCondition>,
    ) -> (r: Result<&Self, ClientError>)
        requires
            toxicity.wf(),
        ensures
            r matches Ok(me) ==> me == self && toxic_create_ok(
                old(client)@,
                final (client)@,
                self@.name,
                timeout_toxic(stream@, timeout, toxicity, condition_view(condition)),
            ),
            r matches Err(e) ==> *final (client) == *old(client) && toxic_create_err(
                old(client)@,
                self@.name,
                timeout_toxic(stream@, timeout, toxicity, condition_view(condition)),
                e,
            ),
    {
        let mut attributes: Vec<(String, ToxicValueType)> = Vec::new();
        attributes.push(("timeout".to_owned(), timeout));
        proof {
            assert(attrs_view(attributes@) =~= seq![("timeout"@, timeout)]);
        }
        let t = ToxicPack::new_with_condition(
            "timeout".to_owned(),
            stream,
            toxicity,
            attributes,
            condition,
        );
        match self.create_toxic(client, t) {
            Ok(()) => Ok(self),
            Err(e) => Err(e),
        }
    }

    /// Register a slicer toxic: data is sliced into pieces of about
    /// `average_size` bytes, `delay` microseconds apart.
    pub fn with_slicer(
        &self,
        client: &mut Toxiproxy,
        stream: String,
        average_size: ToxicValueType,
        size_variation: ToxicValueType,
        delay: ToxicValueType,
        toxicity: Toxicity,
    ) -> (r: Result<&Self, ClientError>)
        requires
            toxicity.wf(),
        ensures
            r matches Ok(me) ==> me == self && toxic_create_ok(
                old(client)@,
                final (client)@,
                self@.name,
                slicer_toxic(stream@, average_size, size_variation, delay, toxicity, None),
            ),
            r matches Err(e) ==> *final (client) == *old(client) && toxic_create_err(
                old(client)@,
                self@.name,
                slicer_toxic(stream@, average_size, size_variation, delay, toxicity, None),
                e,
            ),
    {
        self.with_slicer_upon_condition(
            client,
            stream,
            average_size,
            size_variation,
            delay,
            toxicity,
            None,
        )
    }

    /// Register a slicer toxic scoped by an optional condition.
    pub fn with_slicer_upon_condition(
        &self,
        client: &mut Toxiproxy,
        stream: String,
        average_size: ToxicValueType,
        size_variation: ToxicValueType,
        delay: ToxicValueType,
        toxicity: Toxicity,
        condition: Option<ToxicCondition>,
    ) -> (r: Result<&Self, ClientError>)
        requires
            toxicity.wf(),
        ensures
            r matches Ok(me) ==> me == self && toxic_create_ok(
                old(client)@,
                final (client)@,
                self@.name,
                slicer_toxic(
                    stream@,
                    average_size,
                    size_variation,
                    delay,
                    toxicity,
                    condition_view(condition),
                ),
            ),
            r matches Err(e) ==> *final (client) == *old(client) && toxic_create_err(
                old(client)@,
                self@.name,
                slicer_toxic(
                    stream@,
                    average_size,
                    size_variation,
                    delay,
                    toxicity,
                    condition_view(condition),
                ),
                e,
            ),
    {
        let mut attributes: Vec<(String, ToxicValueType)> = Vec::new();
        attributes.push(("average_size".to_owned(), average_size));
        attributes.push(("size_variation".to_owned(), size_variation));
        attributes.push(("delay".to_owned(), delay));
        proof {
            assert(attrs_view(attributes@) =~= seq![
                ("average_size"@, average_size),
                ("size_variation"@, size_variation),
                ("delay"@, delay),
            ]);
            reveal_strlit("average_size");
            reveal_strlit("size_variation");
            reveal_strlit("delay");
            assert("average_size"@.len() == 12);
            assert("size_variation"@.len() == 14);
            assert("delay"@.len() == 5);
            assert(crate::toxic::attr_keys_unique(attrs_view(attributes@)));
        }
        let t = ToxicPack::new_with_condition(
            "slicer".to_owned(),
            stream,
            toxicity,
            attributes,
            condition,
        );
        match self.create_toxic(client, t) {
            Ok(()) => Ok(self),
            Err(e) => Err(e),
        }
    }

    /// Register a limit-data toxic: the connection is closed after
    /// `bytes` bytes have flowed on the given stream.
    pub fn with_limit_data(
        &self,
        client: &mut Toxiproxy,
        stream: String,
        bytes: ToxicValueType,
        toxicity: Toxicity,
    ) -> (r: Result<&Self, ClientError>)
        requires
            toxicity.wf(),
        ensures
            r matches Ok(me) ==> me == self && toxic_create_ok(
                old(client)@,
                final (client)@,
                self@.name,
                limit_data_toxic(stream@, bytes, toxicity, None),
            ),
            r matches Err(e) ==> *final (client) == *old(client) && toxic_create_err(
                old(client)@,
                self@.name,
                limit_data_toxic(stream@, bytes, toxicity, None),
                e,
            ),
    {
        self.with_limit_data_upon_condition(client, stream, bytes, toxicity, None)
    }

    /// Register a limit-data toxic scoped by an optional condition.
    pub fn with_limit_data_upon_condition(
        &self,
        client: &mut Toxiproxy,
        stream: String,
        bytes: ToxicValueType,
        toxicity: Toxicity,
        condition: Option<ToxicCondition>,
    ) -> (r: Result<&Self, ClientError>)
        requires
            toxicity.wf(),
        ensures
            r matches Ok(me) ==> me == self && toxic_create_ok(
                old(client)@,
                final (client)@,
                self@.name,
                limit_data_toxic(stream@, bytes, toxicity, condition_view(condition)),
            ),
            r matches Err(e) ==> *final (client) == *old(client) && toxic_create_err(
                old(client)@,
                self@.name,
                limit_data_toxic(stream@, bytes, toxicity, condition_view(condition)),
                e,
            ),
    {
        let mut attributes: Vec<(String, ToxicValueType)> = Vec::new();
        attributes.push(("bytes".to_owned(), bytes));
        proof {
            assert(attrs_view(attributes@) =~= seq![("bytes"@, bytes)]);
        }
        let t = ToxicPack::new_with_condition(
            "limit_data".to_owned(),
            stream,
            toxicity,
            attributes,
            condition,
        );
        match self.create_toxic(client, t) {
            Ok(()) => Ok(self),
            Err(e) => Err(e),
        }
    }

    /// Run `body` as if the proxy were down: the proxy is disabled, the
    /// body observes the client with the enabled flag off, and the proxy
    /// is re-enabled after the body returns. If disabling fails the body
    /// never runs; a failure to re-enable is reported to the caller.
    pub fn with_down<F: FnOnce(Toxiproxy) -> Toxiproxy>(&self, client: Toxiproxy, body: F) -> (r: (
        Toxiproxy,
        Result<(), ClientError>,
    ))
        requires
            forall|c: Toxiproxy| #[trigger] call_requires(body, (c,)),
        ensures
            !has_proxy(client@, self@.name) ==> r.1 == Result::<(), ClientError>::Err(
                ClientError::ProxyNotFound,
            ) && r.0 == client,
            has_proxy(client@, self@.name) ==> exists|mid: Toxiproxy, after: Toxiproxy|
                {
                    &&& mid@ == set_enabled_table(client@, self@.name, false)
                    &&& has_proxy(mid@, self@.name)
                    &&& !proxy_of(mid@, self@.name).enabled
                    &&& #[trigger] call_ensures(body, (mid,), after)
                    &&& (has_proxy(after@, self@.name) ==> r.1 is Ok && r.0@ == set_enabled_table(
                        after@,
                        self@.name,
                        true,
                    ) && has_proxy(r.0@, self@.name) && proxy_of(r.0@, self@.name).enabled)
                    &&& (!has_proxy(after@, self@.name) ==> r.1 == Result::<(),
                    ClientError>::Err(ClientError::ProxyNotFound) && r.0 == after)
                },
    {
        let mut c = client;
        match self.disable(&mut c) {
            Err(e) => (c, Err(e)),
            Ok(()) => {
                proof {
                    crate::client::lemma_proxy_index(client@, self@.name);
                    crate::client::lemma_update_keeps_first(
                        client@,
                        self@.name,
                        ProxyModel { enabled: false, ..proxy_of(client@, self@.name) },
                    );
                }
                let ghost mid = c;
                let after = body(c);
                let mut c2 = after;
                let res = self.enable(&mut c2);
                proof {
                    if has_proxy(after@, self@.name) {
                        crate::client::lemma_proxy_index(after@, self@.name);
                        crate::client::lemma_update_keeps_first(
                            after@,
                            self@.name,
                            ProxyModel { enabled: true, ..proxy_of(after@, self@.name) },
                        );
                    }
                }
                (c2, res)
            },
        }
    }

    /// Run `body` with the proxy's current toxic setup, then delete every
    /// toxic on the proxy, however many the body left behind.
    pub fn apply<F: FnOnce(Toxiproxy) -> Toxiproxy>(&self, client: Toxiproxy, body: F) -> (r: (
        Toxiproxy,
        Result<(), ClientError>,
    ))
        requires
            forall|c: Toxiproxy| #[trigger] call_requires(body, (c,)),
        ensures
            exists|after: Toxiproxy|
                {
                    &&& #[trigger] call_ensures(body, (client,), after)
                    &&& (has_proxy(after@, self@.name) ==> r.1 is Ok && r.0@ == clear_toxics_table(
                        after@,
                        self@.name,
                    ))
                    &&& (!has_proxy(after@, self@.name) ==> r.1 == Result::<(),
                    ClientError>::Err(ClientError::ProxyNotFound) && r.0 == after)
                },
            r.1 is Ok ==> has_proxy(r.0@, self@.name) && toxics_of(r.0@, self@.name) == Seq::<
                ToxicModel,
            >::empty(),
    {
        let after = body(client);
        let mut c2 = after;
        let res = self.delete_all_toxics(&mut c2);
        (c2, res)
    }

    /// Delete every toxic on the proxy.
    pub fn delete_all_toxics(&self, client: &mut Toxiproxy) -> (r: Result<(), ClientError>)
        ensures
            match r {
                Ok(()) => {
                    &&& has_proxy(old(client)@, self@.name)
                    &&& final (client)@ == clear_toxics_table(old(client)@, self@.name)
                    &&& has_proxy(final (client)@, self@.name)
                    &&& toxics_of(final (client)@, self@.name) == Seq::<ToxicModel>::empty()
                },
                Err(e) => {
                    &&& e == ClientError::ProxyNotFound
                    &&& !has_proxy(old(client)@, self@.name)
                    &&& *final (client) == *old(client)
                },
            },
    {
        let ghost start = client@;
        match client.find_index(self.proxy_pack.name.as_str()) {
            Some(i) => {
                proof {
                    lemma_first_match(start, self@.name, i as int);
                }
                client.proxies[i].toxics.clear();
                proof {
                    assert(client@[i as int].toxics =~= Seq::empty());
                    assert(client@[i as int] =~= (ProxyModel {
                        toxics: Seq::empty(),
                        ..proxy_of(start, self@.name)
                    }));
                    assert(client@ =~= clear_toxics_table(start, self@.name));
                    lemma_first_match(client@, self@.name, i as int);
                }
                Ok(())
            },
            None => Err(ClientError::ProxyNotFound),
        }
    }
}

} // verus!
