//! `store …`: manage the credentials held in the config file. Each sub-verb
//! is a change to the config (or a listing of it); the caller loads the file
//! before and saves it after.

use vstd::prelude::*;

use crate::cli::StoreCommand;
use crate::config::{self, Config, ConfigV, CredV, StoreCredential};

verus! {

/// Why a store sub-verb was refused.
pub enum StoreError {
    /// `add` got no token and none is set in the environment.
    NoToken,
    /// `use` named a store that is not configured.
    UnknownStore { name: String },
    /// `remove` named a store that is not configured.
    NoSuchStore { name: String },
}

/// One line of `store list`.
pub struct ListedStore {
    /// The default store is marked.
    pub is_default: bool,
    pub name: String,
    pub shop: String,
}

/// What a store sub-verb did, for the caller to report.
pub enum StoreReport {
    /// A store was saved; `first` when it was the first and became the default.
    Saved { name: String, first: bool },
    /// `list` found no stores.
    Empty,
    /// `list`: every store in name order.
    Listed { stores: Vec<ListedStore> },
    /// `use`: the default store changed.
    DefaultSet { name: String },
    /// `remove`: the store is gone.
    Removed { name: String },
}

/// The config after `add`: the store is bound, and the first store added
/// becomes the default.
pub open spec fn added(c: ConfigV, name: Seq<char>, cred: CredV) -> ConfigV {
    ConfigV {
        default: if c.stores.len() == 0 {
            Some(name)
        } else {
            c.default
        },
        stores: config::with_store(c.stores, name, cred),
    }
}

/// The config after `use`: the named store is the default.
pub open spec fn used(c: ConfigV, name: Seq<char>) -> ConfigV {
    ConfigV { default: Some(name), stores: c.stores }
}

/// The config after `remove`: the store is gone, and so is the default if it
/// was that store.
pub open spec fn removed(c: ConfigV, name: Seq<char>) -> ConfigV {
    ConfigV {
        default: if c.default == Some(name) {
            None
        } else {
            c.default
        },
        stores: config::without_store(c.stores, name),
    }
}

/// The token `add` stores: the one given, else the one in the environment.
pub open spec fn given_token(token: Option<String>, env_token: Option<String>) -> Option<Seq<char>> {
    match token {
        Some(t) => Some(t@),
        None => match env_token {
            Some(e) => Some(e@),
            None => None,
        },
    }
}

/// Picks the token `add` stores (see [`given_token`]).
pub fn token_for(token: Option<String>, env_token: Option<String>) -> (r: Result<String, StoreError>)
    ensures
        match r {
            Ok(t) => given_token(token, env_token) == Some(t@),
            Err(StoreError::NoToken) => given_token(token, env_token) is None,
            Err(_) => false,
        },
{
    match token {
        Some(t) => Ok(t),
        None => match env_token {
            Some(e) => Ok(e),
            None => Err(StoreError::NoToken),
        },
    }
}

/// Adds or updates a store credential; returns whether it is the first store
/// (which then becomes the default).
pub fn add(config: &mut Config, name: String, shop: String, token: String) -> (first: bool)
    requires
        old(config)@.wf(),
    ensures
        first == (old(config)@.stores.len() == 0),
        final(config)@ == added(old(config)@, name@, CredV { shop: shop@, token: token@ }),
        final(config)@.wf(),
{
    let first = config.stores.len() == 0;
    let default_name = name.clone();
    config.insert_store(name, StoreCredential { shop, token });
    if first {
        config.default = Some(default_name);
    }
    first
}

/// The value of one listed store.
pub struct ListedV {
    pub is_default: bool,
    pub name: Seq<char>,
    pub shop: Seq<char>,
}

impl View for ListedStore {
    type V = ListedV;

    open spec fn view(&self) -> ListedV {
        ListedV { is_default: self.is_default, name: self.name@, shop: self.shop@ }
    }
}

/// What `store list` shows: every store in name order with its shop, the
/// default one marked.
pub open spec fn listing(c: ConfigV) -> Seq<ListedV> {
    Seq::new(
        c.stores.len(),
        |i: int|
            ListedV {
                is_default: c.default == Some(c.stores[i].0),
                name: c.stores[i].0,
                shop: c.stores[i].1.shop,
            },
    )
}

pub open spec fn listed_view(v: Seq<ListedStore>) -> Seq<ListedV> {
    Seq::new(v.len(), |i: int| v[i]@)
}

/// Every configured store in name order, the default one marked.
pub fn list(config: &Config) -> (r: Vec<ListedStore>)
    ensures
        listed_view(r@) == listing(config@),
{
    let mut out: Vec<ListedStore> = Vec::new();
    let mut i: usize = 0;
    while i < config.stores.len()
        invariant
            i <= config.stores@.len(),
            out@.len() == i,
            listed_view(out@) == listing(config@).take(i as int),
        decreases config.stores@.len() - i,
    {
        let is_default = match &config.default {
            Some(d) => crate::json::str_eq(d.as_str(), config.stores[i].0.as_str()),
            None => false,
        };
        let item = ListedStore {
            is_default,
            name: config.stores[i].0.clone(),
            shop: config.stores[i].1.shop.clone(),
        };
        proof {
            assert(item@ == listing(config@)[i as int]);
            let pushed = out@.push(item);
            assert forall|k: int| 0 <= k < i implies listed_view(pushed)[k] == listed_view(out@)[k] by {
                assert(pushed[k] == out@[k]);
            }
            assert(listed_view(pushed) =~= listing(config@).take(i + 1));
        }
        out.push(item);
        i = i + 1;
    }
    proof {
        assert(listing(config@).take(i as int) =~= listing(config@));
    }
    out
}

/// Makes `name` the default store; refused when no such store exists.
pub fn use_store(config: &mut Config, name: String) -> (r: Result<(), StoreError>)
    ensures
        match r {
            Ok(()) => old(config)@.lookup(name@) is Some && final(config)@ == used(
                old(config)@,
                name@,
            ),
            Err(StoreError::UnknownStore { name: n }) => old(config)@.lookup(name@) is None
                && n@ == name@ && final(config)@ == old(config)@,
            Err(_) => false,
        },
{
    if !config.contains_store(name.as_str()) {
        return Err(StoreError::UnknownStore { name });
    }
    config.default = Some(name);
    Ok(())
}

/// Removes a store, clearing the default if it was that store; refused when
/// no such store exists.
pub fn remove(config: &mut Config, name: String) -> (r: Result<(), StoreError>)
    requires
        old(config)@.wf(),
    ensures
        final(config)@.wf(),
        match r {
            Ok(()) => old(config)@.lookup(name@) is Some && final(config)@ == removed(
                old(config)@,
                name@,
            ),
            Err(StoreError::NoSuchStore { name: n }) => old(config)@.lookup(name@) is None
                && n@ == name@ && final(config)@ == old(config)@,
            Err(_) => false,
        },
{
    let ghost c0 = config@;
    match config.remove_store(name.as_str()) {
        None => {
            proof {
                config::lemma_lookup(c0.stores, name@);
                assert(config@.stores =~= c0.stores);
            }
            Err(StoreError::NoSuchStore { name })
        }
        Some(_) => {
            let clear = match &config.default {
                Some(d) => crate::json::str_eq(d.as_str(), name.as_str()),
                None => false,
            };
            if clear {
                config.default = None;
            }
            Ok(())
        }
    }
}

/// Runs one store sub-verb against a loaded config. `env_token` is the token
/// the environment offers to `add`. On `Ok` the config is to be saved unless
/// the report is a listing.
pub fn run(command: StoreCommand, config: &mut Config, env_token: Option<String>) -> (r: Result<
    StoreReport,
    StoreError,
>)
    requires
        old(config)@.wf(),
    ensures
        final(config)@.wf(),
        match command {
            StoreCommand::Add { name, shop, token } => match r {
                Ok(StoreReport::Saved { name: n, first }) => n@ == name@ && first == (old(
                    config,
                )@.stores.len() == 0) && given_token(token, env_token) is Some && final(config)@
                    == added(
                    old(config)@,
                    name@,
                    CredV { shop: shop@, token: given_token(token, env_token)->0 },
                ),
                Err(StoreError::NoToken) => token is None && env_token is None && final(config)@
                    == old(config)@,
                _ => false,
            },
            StoreCommand::List => final(config)@ == old(config)@ && match r {
                Ok(StoreReport::Empty) => old(config)@.stores.len() == 0,
                Ok(StoreReport::Listed { stores }) => old(config)@.stores.len() > 0 && listed_view(
                    stores@,
                ) == listing(old(config)@),
                _ => false,
            },
            StoreCommand::Use { name } => match r {
                Ok(StoreReport::DefaultSet { name: n }) => n@ == name@ && old(config)@.lookup(
                    name@,
                ) is Some && final(config)@ == used(old(config)@, name@),
                Err(StoreError::UnknownStore { name: n }) => n@ == name@ && old(config)@.lookup(
                    name@,
                ) is None && final(config)@ == old(config)@,
                _ => false,
            },
            StoreCommand::Remove { name } => match r {
                Ok(StoreReport::Removed { name: n }) => n@ == name@ && old(config)@.lookup(
                    name@,
                ) is Some && final(config)@ == removed(old(config)@, name@),
                Err(StoreError::NoSuchStore { name: n }) => n@ == name@ && old(config)@.lookup(
                    name@,
                ) is None && final(config)@ == old(config)@,
                _ => false,
            },
        },
{
    match command {
        StoreCommand::Add { name, shop, token } => {
            let t = match token_for(token, env_token) {
                Ok(t) => t,
                Err(e) => {
                    return Err(e);
                },
            };
            let n = name.clone();
            let first = self::add(config, name, shop, t);
            Ok(StoreReport::Saved { name: n, first })
        },
        StoreCommand::List => {
            if config.stores.len() == 0 {
                Ok(StoreReport::Empty)
            } else {
                Ok(StoreReport::Listed { stores: list(config) })
            }
        },
        StoreCommand::Use { name } => {
            let n = name.clone();
            match use_store(config, name) {
                Ok(()) => {},
                Err(e) => {
                    return Err(e);
                },
            }
            Ok(StoreReport::DefaultSet { name: n })
        },
        StoreCommand::Remove { name } => {
            let n = name.clone();
            match remove(config, name) {
                Ok(()) => {},
                Err(e) => {
                    return Err(e);
                },
            }
            Ok(StoreReport::Removed { name: n })
        },
    }
}

/// After `add`, looking the store up by its name gives the credential just
/// added, and the config stays well-formed.
pub proof fn law_add_then_get(c: ConfigV, name: Seq<char>, cred: CredV)
    requires
        c.wf(),
    ensures
        added(c, name, cred).get(Some(name)) == Ok::<CredV, Option<Seq<char>>>(cred),
        added(c, name, cred).wf(),
{
    config::lemma_with_store(c.stores, name, cred);
}

/// The first store added becomes the default.
pub proof fn law_first_store_is_default(c: ConfigV, name: Seq<char>, cred: CredV)
    requires
        c.wf(),
        c.stores.len() == 0,
    ensures
        added(c, name, cred).get(None) == Ok::<CredV, Option<Seq<char>>>(cred),
{
    config::lemma_with_store(c.stores, name, cred);
}

/// Adding a store changes neither the other stores nor, once a store exists,
/// the default.
pub proof fn law_add_keeps_others(c: ConfigV, name: Seq<char>, cred: CredV, other: Seq<char>)
    requires
        c.wf(),
        other != name,
    ensures
        added(c, name, cred).lookup(other) == c.lookup(other),
        c.stores.len() > 0 ==> added(c, name, cred).default == c.default,
{
    config::lemma_with_store(c.stores, name, cred);
}

/// After `use`, a lookup without a name gives the store that was named.
pub proof fn law_use_sets_default(c: ConfigV, name: Seq<char>)
    requires
        c.lookup(name) is Some,
    ensures
        used(c, name).get(None) == c.get(Some(name)),
        used(c, name).stores == c.stores,
{
}

/// After `remove`, the store is unknown, the config stays well-formed, and
/// the other stores are as they were.
pub proof fn law_remove_forgets(c: ConfigV, name: Seq<char>, other: Seq<char>)
    requires
        c.wf(),
        other != name,
    ensures
        removed(c, name).get(Some(name)) == Err::<CredV, Option<Seq<char>>>(Some(name)),
        removed(c, name).wf(),
        removed(c, name).lookup(other) == c.lookup(other),
{
    config::lemma_without_store(c.stores, name);
}

/// Removing the default store leaves no default; removing another keeps it.
pub proof fn law_remove_default(c: ConfigV, name: Seq<char>)
    ensures
        c.default == Some(name) ==> removed(c, name).get(None) == Err::<
            CredV,
            Option<Seq<char>>,
        >(None),
        c.default != Some(name) ==> removed(c, name).default == c.default,
{
}

/// A lookup without a name is the lookup of the default store.
pub proof fn law_get_follows_default(c: ConfigV, d: Seq<char>)
    requires
        c.default == Some(d),
    ensures
        c.get(None) == c.get(Some(d)),
{
}

/// `store list` shows each store once, in increasing name order, and marks
/// at most one as the default.
pub proof fn law_listing_sorted(c: ConfigV)
    requires
        c.wf(),
    ensures
        forall|i: int, j: int|
            0 <= i < j < listing(c).len() ==> crate::text::str_lt(
                #[trigger] listing(c)[i].name,
                #[trigger] listing(c)[j].name,
            ),
        forall|i: int, j: int|
            0 <= i < listing(c).len() && 0 <= j < listing(c).len() && #[trigger] listing(c)[i].is_default
                && #[trigger] listing(c)[j].is_default ==> i == j,
{
    assert forall|i: int, j: int|
        0 <= i < listing(c).len() && 0 <= j < listing(c).len() && #[trigger] listing(c)[i].is_default
            && #[trigger] listing(c)[j].is_default implies i == j by {
        if i < j {
            crate::text::lemma_lt_irreflexive(c.stores[i].0);
        } else if j < i {
            crate::text::lemma_lt_irreflexive(c.stores[j].0);
        }
    }
}

} // verus!
