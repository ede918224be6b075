//! Credentials and the config file: a set of named stores plus which one is
//! the default. The file itself is read and written by the caller; this
//! module is the pure core that decides what it holds and what a lookup gives.

use vstd::prelude::*;

use crate::json::{first_pos, str_eq};
use crate::text::{str_less, str_lt};

verus! {

/// One store's credentials.
pub struct StoreCredential {
    /// The myshopify.com domain, e.g. "acme-dev.myshopify.com".
    pub shop: String,
    /// The offline Admin API access token.
    pub token: String,
}

/// The value of a credential.
pub struct CredV {
    pub shop: Seq<char>,
    pub token: Seq<char>,
}

impl View for StoreCredential {
    type V = CredV;

    open spec fn view(&self) -> CredV {
        CredV { shop: self.shop@, token: self.token@ }
    }
}

impl StoreCredential {
    /// A copy of this credential.
    pub fn duplicate(&self) -> (r: StoreCredential)
        ensures
            r@ == self@,
    {
        StoreCredential { shop: self.shop.clone(), token: self.token.clone() }
    }
}

/// The entire config file: named stores, kept sorted by name with each name
/// once, plus the name of the default store.
pub struct Config {
    /// Name of the default store, used when no store is named.
    pub default: Option<String>,
    /// Named stores, in increasing name order.
    pub stores: Vec<(String, StoreCredential)>,
}

/// The value of a config.
pub struct ConfigV {
    pub default: Option<Seq<char>>,
    pub stores: Seq<(Seq<char>, CredV)>,
}

impl View for Config {
    type V = ConfigV;

    open spec fn view(&self) -> ConfigV {
        ConfigV {
            default: match self.default {
                Some(d) => Some(d@),
                None => None,
            },
            stores: Seq::new(self.stores@.len(), |i: int| (self.stores@[i].0@, self.stores@[i].1@)),
        }
    }
}

/// The names of a list of stores, in order.
pub open spec fn names(stores: Seq<(Seq<char>, CredV)>) -> Seq<Seq<char>> {
    Seq::new(stores.len(), |i: int| stores[i].0)
}

/// Names strictly increase along the list (so none occurs twice).
pub open spec fn sorted_by_name(stores: Seq<(Seq<char>, CredV)>) -> bool {
    forall|i: int, j: int| 0 <= i < j < stores.len() ==> str_lt(stores[i].0, stores[j].0)
}

/// Where a new name goes in a sorted list: before the first greater name.
pub open spec fn insertion_point(stores: Seq<(Seq<char>, CredV)>, name: Seq<char>) -> int {
    if exists|i: int| 0 <= i < stores.len() && str_lt(name, stores[i].0) {
        choose|i: int|
            0 <= i < stores.len() && str_lt(name, stores[i].0) && forall|j: int|
                0 <= j < i ==> !str_lt(name, stores[j].0)
    } else {
        stores.len() as int
    }
}

/// The stores with `name` bound to `cred`: an existing entry is replaced, a
/// new one goes to its place in name order.
pub open spec fn with_store(stores: Seq<(Seq<char>, CredV)>, name: Seq<char>, cred: CredV) -> Seq<
    (Seq<char>, CredV),
> {
    match first_pos(names(stores), name) {
        Some(i) => stores.update(i, (name, cred)),
        None => stores.insert(insertion_point(stores, name), (name, cred)),
    }
}

/// The stores without `name`.
pub open spec fn without_store(stores: Seq<(Seq<char>, CredV)>, name: Seq<char>) -> Seq<
    (Seq<char>, CredV),
> {
    match first_pos(names(stores), name) {
        Some(i) => stores.remove(i),
        None => stores,
    }
}

/// The credential stored under `name` in a list of stores.
pub open spec fn lookup_in(stores: Seq<(Seq<char>, CredV)>, name: Seq<char>) -> Option<CredV> {
    match first_pos(names(stores), name) {
        Some(i) => Some(stores[i].1),
        None => None,
    }
}

/// The contents of the config file, in the order the file lists them.
pub struct ConfigFile {
    pub default: Option<String>,
    pub stores: Vec<(String, StoreCredential)>,
}

/// The stores a file lists, as plain values, in the order listed.
pub open spec fn listed(file: ConfigFile) -> Seq<(Seq<char>, CredV)> {
    Seq::new(file.stores@.len(), |i: int| (file.stores@[i].0@, file.stores@[i].1@))
}

/// The stores a config holds once the listed ones are bound in order: a name
/// listed twice keeps its last credential.
pub open spec fn stores_of(listed: Seq<(Seq<char>, CredV)>) -> Seq<(Seq<char>, CredV)>
    decreases listed.len(),
{
    if listed.len() == 0 {
        Seq::empty()
    } else {
        with_store(stores_of(listed.drop_last()), listed.last().0, listed.last().1)
    }
}

/// Loading what a save wrote gives back the stores saved: binding, in order,
/// stores listed in name order with each name once yields that very list.
pub proof fn law_saved_stores_load_back(stores: Seq<(Seq<char>, CredV)>)
    requires
        sorted_by_name(stores),
    ensures
        stores_of(stores) == stores,
    decreases stores.len(),
{
    if stores.len() > 0 {
        let front = stores.drop_last();
        let (name, cred) = stores.last();
        assert(sorted_by_name(front));
        law_saved_stores_load_back(front);
        let n = front.len() as int;
        assert forall|j: int| 0 <= j < n implies str_lt(front[j].0, name) by {
            assert(front[j] == stores[j]);
        }
        assert forall|j: int| 0 <= j < front.len() implies names(front)[j] != name by {
            crate::text::lemma_lt_irreflexive(name);
        }
        crate::json::lemma_first_pos_absent(names(front), name);
        lemma_insertion_point_is(front, name, n);
        assert(front.insert(n, (name, cred)) =~= stores);
    }
}

/// Why no credential could be looked up.
pub enum ConfigError {
    /// No store was named and no default is set.
    NoDefault,
    /// No configured store has this name.
    UnknownStore { name: String },
}

impl ConfigV {
    /// Stores sorted by name, each name once.
    pub open spec fn wf(self) -> bool {
        sorted_by_name(self.stores)
    }

    /// The credential stored under `name`.
    pub open spec fn lookup(self, name: Seq<char>) -> Option<CredV> {
        lookup_in(self.stores, name)
    }

    /// `get`: the named store, or the default one when no name is given.
    /// `Err(None)`: no name and no default; `Err(Some(n))`: no store `n`.
    pub open spec fn get(self, name: Option<Seq<char>>) -> Result<CredV, Option<Seq<char>>> {
        let n = match name {
            Some(n) => Some(n),
            None => self.default,
        };
        match n {
            None => Err(None),
            Some(n) => match self.lookup(n) {
                Some(c) => Ok(c),
                None => Err(Some(n)),
            },
        }
    }
}

/// In a list sorted by name, the store at `i` is the one a lookup of its name
/// finds.
pub proof fn lemma_sorted_pos(stores: Seq<(Seq<char>, CredV)>, i: int)
    requires
        sorted_by_name(stores),
        0 <= i < stores.len(),
    ensures
        first_pos(names(stores), stores[i].0) == Some(i),
{
    let ns = names(stores);
    assert forall|j: int| 0 <= j < i implies ns[j] != stores[i].0 by {
        crate::text::lemma_lt_irreflexive(stores[i].0);
        assert(str_lt(stores[j].0, stores[i].0));
    }
    crate::json::lemma_first_pos_found(ns, stores[i].0, i);
}

/// A lookup finds what is stored under the name, and nothing for a name that
/// is not there.
pub proof fn lemma_lookup(stores: Seq<(Seq<char>, CredV)>, name: Seq<char>)
    requires
        sorted_by_name(stores),
    ensures
        match first_pos(names(stores), name) {
            Some(i) => 0 <= i < stores.len() && stores[i].0 == name,
            None => forall|j: int| 0 <= j < stores.len() ==> stores[j].0 != name,
        },
{
    crate::json::lemma_first_pos(names(stores), name);
    match first_pos(names(stores), name) {
        Some(i) => {}
        None => {
            assert forall|j: int| 0 <= j < stores.len() implies stores[j].0 != name by {
                assert(names(stores)[j] == stores[j].0);
            }
        }
    }
}

/// Binding a name keeps the list sorted, finds the new credential under that
/// name, and leaves every other name as it was.
pub proof fn lemma_with_store(stores: Seq<(Seq<char>, CredV)>, name: Seq<char>, cred: CredV)
    requires
        sorted_by_name(stores),
    ensures
        sorted_by_name(with_store(stores, name, cred)),
        lookup_in(with_store(stores, name, cred), name) == Some(cred),
        forall|n: Seq<char>|
            n != name ==> #[trigger] lookup_in(with_store(stores, name, cred), n)
                == lookup_in(stores, n),
{
    lemma_lookup(stores, name);
    match first_pos(names(stores), name) {
        Some(i) => lemma_with_store_replace(stores, name, cred, i),
        None => lemma_with_store_insert(stores, name, cred),
    }
}

proof fn lemma_with_store_replace(
    stores: Seq<(Seq<char>, CredV)>,
    name: Seq<char>,
    cred: CredV,
    i: int,
)
    requires
        sorted_by_name(stores),
        first_pos(names(stores), name) == Some(i),
        0 <= i < stores.len(),
        stores[i].0 == name,
    ensures
        sorted_by_name(with_store(stores, name, cred)),
        lookup_in(with_store(stores, name, cred), name) == Some(cred),
        forall|n: Seq<char>|
            n != name ==> #[trigger] lookup_in(with_store(stores, name, cred), n)
                == lookup_in(stores, n),
{
    let t = with_store(stores, name, cred);
    assert(t == stores.update(i, (name, cred)));
    assert(sorted_by_name(t)) by {
        assert forall|a: int, b: int| 0 <= a < b < t.len() implies str_lt(t[a].0, t[b].0) by {
            assert(t[a].0 == stores[a].0);
            assert(t[b].0 == stores[b].0);
        }
    }
    lemma_sorted_pos(t, i);
    assert forall|n: Seq<char>| n != name implies #[trigger] lookup_in(t, n) == lookup_in(stores, n) by {
        lemma_lookup(stores, n);
        match first_pos(names(stores), n) {
            Some(k) => {
                lemma_sorted_pos(t, k);
            }
            None => {
                assert forall|j: int| 0 <= j < t.len() implies names(t)[j] != n by {
                    assert(t[j].0 == stores[j].0 || j == i);
                }
                crate::json::lemma_first_pos_absent(names(t), n);
            }
        }
    }
}

proof fn lemma_insert_sorted(stores: Seq<(Seq<char>, CredV)>, name: Seq<char>, cred: CredV, p: int)
    requires
        sorted_by_name(stores),
        0 <= p <= stores.len(),
        forall|j: int| 0 <= j < p ==> str_lt(stores[j].0, name),
        forall|j: int| p <= j < stores.len() ==> str_lt(name, stores[j].0),
    ensures
        sorted_by_name(stores.insert(p, (name, cred))),
{
    let t = stores.insert(p, (name, cred));
    assert forall|a: int, b: int| 0 <= a < b < t.len() implies str_lt(t[a].0, t[b].0) by {
        if b < p {
            assert(t[a] == stores[a] && t[b] == stores[b]);
        } else if b == p {
            assert(t[a] == stores[a]);
        } else if a < p {
            assert(t[a] == stores[a] && t[b] == stores[b - 1]);
            crate::text::lemma_lt_transitive(stores[a].0, name, stores[b - 1].0);
        } else if a == p {
            assert(t[b] == stores[b - 1]);
        } else {
            assert(t[a] == stores[a - 1] && t[b] == stores[b - 1]);
        }
    }
}

proof fn lemma_with_store_insert(stores: Seq<(Seq<char>, CredV)>, name: Seq<char>, cred: CredV)
    requires
        sorted_by_name(stores),
        first_pos(names(stores), name) is None,
        forall|j: int| 0 <= j < stores.len() ==> stores[j].0 != name,
    ensures
        sorted_by_name(with_store(stores, name, cred)),
        lookup_in(with_store(stores, name, cred), name) == Some(cred),
        forall|n: Seq<char>|
            n != name ==> #[trigger] lookup_in(with_store(stores, name, cred), n)
                == lookup_in(stores, n),
{
    let p = insertion_point(stores, name);
    let t = stores.insert(p, (name, cred));
    lemma_insertion_point(stores, name);
    lemma_insert_sorted(stores, name, cred, p);
    assert(t == with_store(stores, name, cred));
    lemma_sorted_pos(t, p);
    assert forall|n: Seq<char>| n != name implies #[trigger] lookup_in(t, n) == lookup_in(stores, n) by {
        lemma_insert_lookup_other(stores, name, cred, n);
    }
}

proof fn lemma_insert_lookup_other(
    stores: Seq<(Seq<char>, CredV)>,
    name: Seq<char>,
    cred: CredV,
    n: Seq<char>,
)
    requires
        sorted_by_name(stores),
        sorted_by_name(stores.insert(insertion_point(stores, name), (name, cred))),
        0 <= insertion_point(stores, name) <= stores.len(),
        n != name,
    ensures
        lookup_in(stores.insert(insertion_point(stores, name), (name, cred)), n) == lookup_in(stores, n),
{
    let p = insertion_point(stores, name);
    let t = stores.insert(p, (name, cred));
    lemma_lookup(stores, n);
    match first_pos(names(stores), n) {
        Some(k) => {
            if k < p {
                assert(t[k] == stores[k]);
                lemma_sorted_pos(t, k);
            } else {
                assert(t[k + 1] == stores[k]);
                lemma_sorted_pos(t, k + 1);
            }
        }
        None => {
            assert forall|j: int| 0 <= j < t.len() implies names(t)[j] != n by {
                if j < p {
                    assert(t[j] == stores[j]);
                } else if j > p {
                    assert(t[j] == stores[j - 1]);
                }
            }
            crate::json::lemma_first_pos_absent(names(t), n);
        }
    }
}

/// The insertion point splits a sorted list into smaller and greater names.
pub proof fn lemma_insertion_point(stores: Seq<(Seq<char>, CredV)>, name: Seq<char>)
    requires
        sorted_by_name(stores),
        forall|j: int| 0 <= j < stores.len() ==> stores[j].0 != name,
    ensures
        0 <= insertion_point(stores, name) <= stores.len(),
        forall|j: int| 0 <= j < insertion_point(stores, name) ==> str_lt(stores[j].0, name),
        forall|j: int|
            insertion_point(stores, name) <= j < stores.len() ==> str_lt(name, stores[j].0),
{
    let p = insertion_point(stores, name);
    if exists|i: int| 0 <= i < stores.len() && str_lt(name, stores[i].0) {
        let i0 = choose|i: int| 0 <= i < stores.len() && str_lt(name, stores[i].0);
        lemma_least_greater(stores, name, i0);
    }
    assert forall|j: int| 0 <= j < p implies str_lt(stores[j].0, name) by {
        crate::text::lemma_lt_total(stores[j].0, name);
    }
    assert forall|j: int| p <= j < stores.len() implies str_lt(name, stores[j].0) by {
        if j > p {
            crate::text::lemma_lt_transitive(name, stores[p].0, stores[j].0);
        }
    }
}

proof fn lemma_least_greater(stores: Seq<(Seq<char>, CredV)>, name: Seq<char>, i: int)
    requires
        0 <= i < stores.len(),
        str_lt(name, stores[i].0),
    ensures
        exists|w: int|
            0 <= w < stores.len() && str_lt(name, stores[w].0) && forall|j: int|
                0 <= j < w ==> !str_lt(name, stores[j].0),
    decreases i,
{
    if forall|j: int| 0 <= j < i ==> !str_lt(name, stores[j].0) {
    } else {
        let j = choose|j: int| 0 <= j < i && str_lt(name, stores[j].0);
        lemma_least_greater(stores, name, j);
    }
}

/// Removing a name keeps the list sorted, finds nothing under that name, and
/// leaves every other name as it was.
pub proof fn lemma_without_store(stores: Seq<(Seq<char>, CredV)>, name: Seq<char>)
    requires
        sorted_by_name(stores),
    ensures
        sorted_by_name(without_store(stores, name)),
        lookup_in(without_store(stores, name), name) is None,
        forall|n: Seq<char>|
            n != name ==> #[trigger] lookup_in(without_store(stores, name), n)
                == lookup_in(stores, n),
{
    let t = without_store(stores, name);
    lemma_lookup(stores, name);
    match first_pos(names(stores), name) {
        Some(i) => {
            assert(sorted_by_name(t)) by {
                assert forall|a: int, b: int| 0 <= a < b < t.len() implies str_lt(t[a].0, t[b].0) by {
                    if b < i {
                        assert(t[a] == stores[a] && t[b] == stores[b]);
                    } else if a < i {
                        assert(t[a] == stores[a] && t[b] == stores[b + 1]);
                    } else {
                        assert(t[a] == stores[a + 1] && t[b] == stores[b + 1]);
                    }
                }
            }
            assert forall|j: int| 0 <= j < t.len() implies t[j].0 != name by {
                if j < i {
                    assert(t[j] == stores[j]);
                    assert(str_lt(stores[j].0, stores[i].0));
                    crate::text::lemma_lt_irreflexive(name);
                } else {
                    assert(t[j] == stores[j + 1]);
                    assert(str_lt(stores[i].0, stores[j + 1].0));
                    crate::text::lemma_lt_irreflexive(name);
                }
            }
            crate::json::lemma_first_pos_absent(names(t), name);
            assert forall|n: Seq<char>| n != name implies #[trigger] lookup_in(t, n) == lookup_in(stores, n) by {
                lemma_lookup(stores, n);
                match first_pos(names(stores), n) {
                    Some(k) => {
                        if k < i {
                            lemma_sorted_pos(t, k);
                        } else {
                            assert(t[k - 1] == stores[k]);
                            lemma_sorted_pos(t, k - 1);
                        }
                    }
                    None => {
                        assert forall|j: int| 0 <= j < t.len() implies t[j].0 != n by {
                            if j < i {
                                assert(t[j] == stores[j]);
                            } else {
                                assert(t[j] == stores[j + 1]);
                            }
                        }
                        crate::json::lemma_first_pos_absent(names(t), n);
                    }
                }
            }
        }
        None => {}
    }
}

proof fn lemma_insertion_point_is(stores: Seq<(Seq<char>, CredV)>, name: Seq<char>, i: int)
    requires
        0 <= i <= stores.len(),
        forall|j: int| 0 <= j < i ==> str_lt(stores[j].0, name),
        i < stores.len() ==> str_lt(name, stores[i].0),
    ensures
        insertion_point(stores, name) == i,
{
    assert forall|j: int| 0 <= j < i implies !str_lt(name, stores[j].0) by {
        crate::text::lemma_lt_asymmetric(stores[j].0, name);
    }
    if i < stores.len() {
        let w = choose|w: int|
            0 <= w < stores.len() && str_lt(name, stores[w].0) && forall|j: int|
                0 <= j < w ==> !str_lt(name, stores[j].0);
        assert(0 <= i < stores.len() && str_lt(name, stores[i].0));
        if w < i {
            assert(!str_lt(name, stores[w].0));
        }
        if w > i {
            assert(!str_lt(name, stores[i].0));
        }
    } else {
        assert forall|j: int| 0 <= j < stores.len() implies !str_lt(name, stores[j].0) by {
            crate::text::lemma_lt_asymmetric(stores[j].0, name);
        }
    }
}

/// The optional store name a caller gave, as a value.
pub open spec fn name_view(name: Option<&str>) -> Option<Seq<char>> {
    match name {
        Some(n) => Some(n@),
        None => None,
    }
}

impl Default for Config {
    /// A config with no stores and no default: what a fresh install reads.
    fn default() -> (r: Config)
        ensures
            r@ == (ConfigV { default: None, stores: Seq::empty() }),
    {
        let r = Config { default: None, stores: Vec::new() };
        assert(r@.stores =~= Seq::empty());
        r
    }
}

impl Config {
    /// Position of the store named `name`.
    fn find_store(&self, name: &str) -> (r: Option<usize>)
        ensures
            match r {
                Some(i) => i < self.stores@.len() && first_pos(names(self@.stores), name@) == Some(
                    i as int,
                ),
                None => first_pos(names(self@.stores), name@) is None,
            },
    {
        let ghost ns = names(self@.stores);
        let mut i: usize = 0;
        while i < self.stores.len()
            invariant
                i <= self.stores@.len(),
                ns == names(self@.stores),
                ns.len() == self.stores@.len(),
                forall|j: int| 0 <= j < i ==> ns[j] != name@,
            decreases self.stores@.len() - i,
        {
            if str_eq(self.stores[i].0.as_str(), name) {
                proof {
                    crate::json::lemma_first_pos_found(ns, name@, i as int);
                }
                return Some(i);
            }
            i = i + 1;
        }
        proof {
            crate::json::lemma_first_pos_absent(ns, name@);
        }
        None
    }

    /// Whether a store named `name` is configured.
    pub fn contains_store(&self, name: &str) -> (r: bool)
        ensures
            r == self@.lookup(name@) is Some,
    {
        self.find_store(name).is_some()
    }

    /// The credential stored under `name`.
    pub fn store(&self, name: &str) -> (r: Option<&StoreCredential>)
        ensures
            match r {
                Some(c) => self@.lookup(name@) == Some(c@),
                None => self@.lookup(name@) is None,
            },
    {
        match self.find_store(name) {
            Some(i) => Some(&self.stores[i].1),
            None => None,
        }
    }

    /// Look up a store by name, falling back to the default store when `name`
    /// is `None`.
    pub fn get(&self, name: Option<&str>) -> (r: Result<&StoreCredential, ConfigError>)
        ensures
            match r {
                Ok(c) => self@.get(name_view(name)) == Ok::<CredV, Option<Seq<char>>>(c@),
                Err(ConfigError::NoDefault) => self@.get(name_view(name)) == Err::<
                    CredV,
                    Option<Seq<char>>,
                >(None),
                Err(ConfigError::UnknownStore { name: n }) => self@.get(name_view(name)) == Err::<
                    CredV,
                    Option<Seq<char>>,
                >(Some(n@)),
            },
    {
        let n: &str = match name {
            Some(n) => n,
            None => match &self.default {
                Some(d) => d.as_str(),
                None => {
                    return Err(ConfigError::NoDefault);
                },
            },
        };
        match self.store(n) {
            Some(c) => Ok(c),
            None => Err(ConfigError::UnknownStore { name: crate::json::owned(n) }),
        }
    }

    /// Binds `name` to `cred`, replacing a store of that name or adding one in
    /// name order.
    pub fn insert_store(&mut self, name: String, cred: StoreCredential)
        requires
            old(self)@.wf(),
        ensures
            final(self)@ == (ConfigV {
                default: old(self)@.default,
                stores: with_store(old(self)@.stores, name@, cred@),
            }),
            final(self)@.wf(),
    {
        let ghost s = self@.stores;
        let mut i: usize = 0;
        while i < self.stores.len() && str_less(self.stores[i].0.as_str(), name.as_str())
            invariant
                i <= self.stores@.len(),
                s == self@.stores,
                sorted_by_name(s),
                forall|j: int| 0 <= j < i ==> str_lt(s[j].0, name@),
            decreases self.stores@.len() - i,
        {
            i = i + 1;
        }
        let ghost cv = cred@;
        proof {
            lemma_with_store(s, name@, cred@);
        }
        if i < self.stores.len() && str_eq(self.stores[i].0.as_str(), name.as_str()) {
            proof {
                lemma_sorted_pos(s, i as int);
            }
            self.stores.set(i, (name, cred));
            proof {
                assert(self@.stores =~= with_store(s, s[i as int].0, cv));
            }
        } else {
            proof {
                assert forall|j: int| 0 <= j < s.len() implies names(s)[j] != name@ by {
                    if j < i {
                        crate::text::lemma_lt_irreflexive(name@);
                    } else {
                        crate::text::lemma_lt_total(s[i as int].0, name@);
                        if j > i {
                            crate::text::lemma_lt_transitive(name@, s[i as int].0, s[j].0);
                        }
                        crate::text::lemma_lt_irreflexive(name@);
                    }
                }
                crate::json::lemma_first_pos_absent(names(s), name@);
                if i < s.len() {
                    crate::text::lemma_lt_total(s[i as int].0, name@);
                }
                lemma_insertion_point_is(s, name@, i as int);
            }
            let ghost nv = name@;
            self.stores.insert(i, (name, cred));
            proof {
                assert(self@.stores =~= s.insert(i as int, (nv, cv)));
            }
        }
    }

    /// Removes the store named `name` and returns its credential.
    pub fn remove_store(&mut self, name: &str) -> (r: Option<StoreCredential>)
        requires
            old(self)@.wf(),
        ensures
            final(self)@ == (ConfigV {
                default: old(self)@.default,
                stores: without_store(old(self)@.stores, name@),
            }),
            final(self)@.wf(),
            match r {
                Some(c) => old(self)@.lookup(name@) == Some(c@),
                None => old(self)@.lookup(name@) is None,
            },
    {
        let ghost s = self@.stores;
        proof {
            lemma_without_store(s, name@);
        }
        match self.find_store(name) {
            Some(i) => {
                let (_, c) = self.stores.remove(i);
                proof {
                    assert(self@.stores =~= s.remove(i as int));
                }
                Some(c)
            }
            None => None,
        }
    }

    /// What a save writes to the config file: the default store's name (left
    /// out when there is none) and every store, in name order, each name once.
    pub fn save(&self) -> (r: ConfigFile)
        requires
            self@.wf(),
        ensures
            match r.default {
                Some(d) => self@.default == Some(d@),
                None => self@.default is None,
            },
            r.stores@.len() == self@.stores.len(),
            forall|i: int|
                0 <= i < r.stores@.len() ==> (#[trigger] r.stores@[i]).0@ == self@.stores[i].0
                    && r.stores@[i].1@ == self@.stores[i].1,
            sorted_by_name(self@.stores),
    {
        let mut stores: Vec<(String, StoreCredential)> = Vec::new();
        let mut i: usize = 0;
        while i < self.stores.len()
            invariant
                i <= self.stores@.len(),
                stores@.len() == i,
                forall|k: int|
                    0 <= k < i ==> (#[trigger] stores@[k]).0@ == self@.stores[k].0 && stores@[k].1@
                        == self@.stores[k].1,
            decreases self.stores@.len() - i,
        {
            stores.push((self.stores[i].0.clone(), self.stores[i].1.duplicate()));
            i = i + 1;
        }
        let default = match &self.default {
            Some(d) => Some(d.clone()),
            None => None,
        };
        ConfigFile { default, stores }
    }

    /// The config a load yields: what the file held, or (when there is no
    /// file yet) an empty config — a fresh install is not an error.
    pub fn load(stored: Option<Config>) -> (r: Config)
        requires
            stored matches Some(c) ==> c@.wf(),
        ensures
            r@.wf(),
            match stored {
                Some(c) => r@ == c@,
                None => r@ == (ConfigV { default: None, stores: Seq::empty() }),
            },
    {
        match stored {
            Some(c) => c,
            None => Config::default(),
        }
    }
}

impl Config {
    /// The config a saved file describes: its stores bound in the order the
    /// file lists them, and its default.
    pub fn from_file(file: ConfigFile) -> (r: Config)
        ensures
            r@.wf(),
            r@ == (ConfigV {
                default: match file.default {
                    Some(d) => Some(d@),
                    None => None,
                },
                stores: stores_of(listed(file)),
            }),
    {
        let mut config = Config::default();
        let mut i: usize = 0;
        while i < file.stores.len()
            invariant
                i <= file.stores@.len(),
                config@.default is None,
                config@.stores == stores_of(listed(file).take(i as int)),
                config@.wf(),
            decreases file.stores@.len() - i,
        {
            let name = file.stores[i].0.clone();
            let cred = file.stores[i].1.duplicate();
            proof {
                let t = listed(file).take(i + 1);
                assert(t.drop_last() =~= listed(file).take(i as int));
                assert(t.last() == (name@, cred@));
            }
            config.insert_store(name, cred);
            i = i + 1;
        }
        proof {
            assert(listed(file).take(i as int) =~= listed(file));
        }
        config.default = file.default;
        config
    }
}

/// Which side of a data flow a credential is for: the store data is read
/// from, or the store it is written into.
pub enum Role {
    Source,
    Target,
}

impl Role {
    /// The environment variables that name this side's shop and token.
    pub fn env_vars(&self) -> (r: (&'static str, &'static str))
        ensures
            r == (match self {
                Role::Source => ("SHOPIFY_SOURCE_SHOP", "SHOPIFY_SOURCE_TOKEN"),
                Role::Target => ("SHOPIFY_TARGET_SHOP", "SHOPIFY_TARGET_TOKEN"),
            }),
    {
        match self {
            Role::Source => ("SHOPIFY_SOURCE_SHOP", "SHOPIFY_SOURCE_TOKEN"),
            Role::Target => ("SHOPIFY_TARGET_SHOP", "SHOPIFY_TARGET_TOKEN"),
        }
    }
}

/// The credential the environment gives: only when both the shop and the
/// token variable are set; they then take priority over the config file.
pub fn resolve(env_shop: Option<String>, env_token: Option<String>) -> (r: Option<StoreCredential>)
    ensures
        match r {
            Some(c) => env_shop matches Some(s) && env_token matches Some(t) && c@ == (CredV {
                shop: s@,
                token: t@,
            }),
            None => env_shop is None || env_token is None,
        },
{
    match (env_shop, env_token) {
        (Some(shop), Some(token)) => Some(StoreCredential { shop, token }),
        _ => None,
    }
}

/// Where the config file is: the path `SHOPTOOLS_CONFIG` names when it is set,
/// else `shoptools/config.toml` under the OS config directory; nowhere when
/// neither is known.
pub open spec fn config_path_spec(env_path: Option<Seq<char>>, config_dir: Option<Seq<char>>) -> Option<
    Seq<char>,
> {
    match env_path {
        Some(p) => Some(p),
        None => match config_dir {
            Some(d) => Some(crate::text::joined(crate::text::joined(d, "shoptools"@), "config.toml"@)),
            None => None,
        },
    }
}

/// Where the config file is (see [`config_path_spec`]), given the value of
/// `SHOPTOOLS_CONFIG` and the OS config directory.
pub fn config_path(env_path: Option<String>, config_dir: Option<String>) -> (r: Option<String>)
    ensures
        match r {
            Some(p) => config_path_spec(
                match env_path {
                    Some(e) => Some(e@),
                    None => None,
                },
                match config_dir {
                    Some(d) => Some(d@),
                    None => None,
                },
            ) == Some(p@),
            None => env_path is None && config_dir is None,
        },
{
    match env_path {
        Some(p) => Some(p),
        None => match config_dir {
            Some(d) => {
                let app = crate::text::join(d.as_str(), "shoptools");
                Some(crate::text::join(app.as_str(), "config.toml"))
            },
            None => None,
        },
    }
}

} // verus!
