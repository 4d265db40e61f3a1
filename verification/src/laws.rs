//! Laws of the client: properties that hold across several operations,
//! stated over the table transitions the operations are specified with.

use vstd::prelude::*;
use crate::client::add_toxic_table;
use crate::client::clear_toxics_table;
use crate::client::create_one;
use crate::client::fresh_model;
use crate::client::has_proxy;
use crate::client::is_first_match;
use crate::client::lemma_first_match;
use crate::client::lemma_proxy_index;
use crate::client::lemma_update_keeps_first;
use crate::client::names_unique;
use crate::client::populate_table;
use crate::client::proxy_index;
use crate::client::proxy_of;
use crate::client::toxics_of;
use crate::proxy::ProxyModel;
use crate::toxic::ToxicModel;

verus! {

/// Creating one proxy on a table of unique names keeps the names unique,
/// and afterwards exactly one entry carries the submitted name: the fresh
/// record of the submitted configuration. So `populate` of one
/// configuration followed by `all` lists exactly one entry of that name.
pub proof fn lemma_populate_one_then_all(table: Seq<ProxyModel>, cfg: ProxyModel)
    requires
        names_unique(table),
    ensures
        ({
            let t2 = populate_table(table, seq![cfg]);
            &&& names_unique(t2)
            &&& has_proxy(t2, cfg.name)
            &&& proxy_of(t2, cfg.name) == fresh_model(cfg)
            &&& forall|j: int|
                0 <= j < t2.len() && t2[j].name == cfg.name ==> j == proxy_index(t2, cfg.name)
        }),
{
    assert(seq![cfg].len() == 1);
    assert(seq![cfg].last() == cfg);
    assert(seq![cfg].drop_last() =~= Seq::<ProxyModel>::empty());
    assert(populate_table(table, Seq::<ProxyModel>::empty()) == table);
    assert(populate_table(table, seq![cfg]) == create_one(table, cfg));
    let t2 = create_one(table, cfg);
    if has_proxy(table, cfg.name) {
        lemma_proxy_index(table, cfg.name);
        let i = proxy_index(table, cfg.name);
        lemma_update_keeps_first(table, cfg.name, fresh_model(cfg));
        assert(names_unique(t2)) by {
            assert(forall|k: int| 0 <= k < t2.len() ==> t2[k].name == table[k].name);
        }
        assert forall|j: int|
            0 <= j < t2.len() && t2[j].name == cfg.name implies j == proxy_index(
            t2,
            cfg.name,
        ) by {
            if j != i {
                assert(table[j].name == cfg.name);
                assert(table[i].name == cfg.name);
            }
        }
    } else {
        let i = table.len() as int;
        assert(t2 == table.push(fresh_model(cfg)));
        assert(is_first_match(t2, cfg.name, i));
        lemma_first_match(t2, cfg.name, i);
        assert forall|j: int|
            0 <= j < t2.len() && t2[j].name == cfg.name implies j == proxy_index(
            t2,
            cfg.name,
        ) by {
            if j < i {
                assert(table[j].name == cfg.name);
            }
        }
    }
}

/// Fetch-and-reset is idempotent: clearing the toxics of a proxy twice
/// leaves the same table as clearing them once, and both times the caller
/// sees the same record, with its enabled flag untouched and no toxics.
pub proof fn lemma_find_and_reset_idempotent(table: Seq<ProxyModel>, name: Seq<char>)
    requires
        has_proxy(table, name),
    ensures
        ({
            let t2 = clear_toxics_table(table, name);
            &&& has_proxy(t2, name)
            &&& clear_toxics_table(t2, name) == t2
            &&& proxy_of(t2, name) == (ProxyModel { toxics: Seq::empty(), ..proxy_of(table, name) })
            &&& proxy_of(t2, name).enabled == proxy_of(table, name).enabled
            &&& proxy_of(t2, name).toxics == Seq::<ToxicModel>::empty()
        }),
{
    lemma_proxy_index(table, name);
    let cleared = ProxyModel { toxics: Seq::empty(), ..proxy_of(table, name) };
    lemma_update_keeps_first(table, name, cleared);
    let t2 = clear_toxics_table(table, name);
    assert((ProxyModel { toxics: Seq::empty(), ..proxy_of(t2, name) }) == cleared);
    assert(clear_toxics_table(t2, name) =~= t2);
}

/// Registering one toxic on a proxy that carries none leaves exactly that
/// toxic on it, and clearing afterwards leaves none: `with_latency` and
/// its five sibling builders followed by `toxics` list exactly the
/// submitted toxic, and `delete_all_toxics` then empties the list.
pub proof fn lemma_toxic_registered_then_cleared(
    table: Seq<ProxyModel>,
    name: Seq<char>,
    t: ToxicModel,
)
    requires
        has_proxy(table, name),
        toxics_of(table, name) == Seq::<ToxicModel>::empty(),
    ensures
        ({
            let t2 = add_toxic_table(table, name, t);
            &&& has_proxy(t2, name)
            &&& toxics_of(t2, name) == seq![t]
            &&& has_proxy(clear_toxics_table(t2, name), name)
            &&& toxics_of(clear_toxics_table(t2, name), name) == Seq::<ToxicModel>::empty()
        }),
{
    lemma_proxy_index(table, name);
    let grown = ProxyModel {
        toxics: proxy_of(table, name).toxics.push(t),
        ..proxy_of(table, name)
    };
    lemma_update_keeps_first(table, name, grown);
    let t2 = add_toxic_table(table, name, t);
    assert(toxics_of(t2, name) =~= seq![t]);
    lemma_proxy_index(t2, name);
    let cleared = ProxyModel { toxics: Seq::empty(), ..proxy_of(t2, name) };
    lemma_update_keeps_first(t2, name, cleared);
}

} // verus!
