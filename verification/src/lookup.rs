//! Key-to-id tables built from a target store's listing, used to remap records
//! across stores: a collection handle to its id, a customer's email to its id.
//! A key listed twice maps to the id listed last.

use vstd::prelude::*;

use crate::json::{str_eq, Json, JsonV};
use crate::text::{ascii_lower, to_ascii_lowercase};

verus! {

/// A table from keys to ids.
pub struct IdTable {
    entries: Vec<(String, String)>,
}

/// The map a list of bindings makes, later bindings replacing earlier ones.
pub open spec fn bindings_map(es: Seq<(Seq<char>, Seq<char>)>) -> Map<Seq<char>, Seq<char>>
    decreases es.len(),
{
    if es.len() == 0 {
        Map::empty()
    } else {
        bindings_map(es.drop_last()).insert(es.last().0, es.last().1)
    }
}

pub open spec fn bindings_view(es: Seq<(String, String)>) -> Seq<(Seq<char>, Seq<char>)> {
    es.map_values(|e: (String, String)| (e.0@, e.1@))
}

impl View for IdTable {
    type V = Map<Seq<char>, Seq<char>>;

    closed spec fn view(&self) -> Map<Seq<char>, Seq<char>> {
        bindings_map(bindings_view(self.entries@))
    }
}

/// Before the bindings from `i` on, none of which binds `k`, the table already
/// said what it says of `k`.
proof fn lemma_prefix_agrees(es: Seq<(Seq<char>, Seq<char>)>, i: int, k: Seq<char>)
    requires
        0 <= i <= es.len(),
        forall|j: int| i <= j < es.len() ==> #[trigger] es[j].0 != k,
    ensures
        bindings_map(es).contains_key(k) == bindings_map(es.take(i)).contains_key(k),
        bindings_map(es).contains_key(k) ==> bindings_map(es)[k] == bindings_map(es.take(i))[k],
    decreases es.len() - i,
{
    if i < es.len() {
        lemma_prefix_agrees(es, i + 1, k);
        assert(es.take(i + 1).drop_last() =~= es.take(i));
    } else {
        assert(es.take(i) =~= es);
    }
}

impl IdTable {
    /// An empty table.
    pub fn new() -> (r: IdTable)
        ensures
            r@ == Map::<Seq<char>, Seq<char>>::empty(),
    {
        let r = IdTable { entries: Vec::new() };
        assert(bindings_view(r.entries@) =~= Seq::empty());
        r
    }

    /// Binds `key` to `id`, replacing any earlier binding of `key`.
    pub fn insert(&mut self, key: String, id: String)
        ensures
            final(self)@ == old(self)@.insert(key@, id@),
    {
        let ghost before = self.entries@;
        self.entries.push((key, id));
        assert(bindings_view(self.entries@).drop_last() =~= bindings_view(before));
    }

    /// The id bound to `key`, if any.
    pub fn get(&self, key: &str) -> (r: Option<&String>)
        ensures
            match r {
                Some(id) => self@.contains_key(key@) && self@[key@] == id@,
                None => !self@.contains_key(key@),
            },
    {
        let ghost bv = bindings_view(self.entries@);
        let mut i: usize = self.entries.len();
        while i > 0
            invariant
                i <= self.entries@.len(),
                bv == bindings_view(self.entries@),
                bv.len() == self.entries@.len(),
                forall|j: int| i <= j < bv.len() ==> #[trigger] bv[j].0 != key@,
            decreases i,
        {
            if str_eq(self.entries[i - 1].0.as_str(), key) {
                proof {
                    lemma_prefix_agrees(bv, i as int, key@);
                    assert(bv.take(i as int).drop_last() =~= bv.take(i - 1));
                }
                return Some(&self.entries[i - 1].1);
            }
            i = i - 1;
        }
        proof {
            lemma_prefix_agrees(bv, 0, key@);
            assert(bv.take(0) =~= Seq::<(Seq<char>, Seq<char>)>::empty());
        }
        None
    }
}

/// The binding one listed node gives: its `key_field` (lower-cased when
/// `lower`) to its `id`, when both are strings.
pub open spec fn node_binding(node: JsonV, key_field: Seq<char>, lower: bool) -> Option<
    (Seq<char>, Seq<char>),
> {
    match (node.at(key_field), node.at("id"@)) {
        (JsonV::Str(k), JsonV::Str(id)) => Some(
            (
                if lower {
                    ascii_lower(k)
                } else {
                    k
                },
                id,
            ),
        ),
        _ => None,
    }
}

/// The table a listing makes: each node with a string key and a string id
/// binds one to the other, in listing order.
pub open spec fn listing_map(nodes: Seq<JsonV>, key_field: Seq<char>, lower: bool) -> Map<
    Seq<char>,
    Seq<char>,
>
    decreases nodes.len(),
{
    if nodes.len() == 0 {
        Map::empty()
    } else {
        let m = listing_map(nodes.drop_last(), key_field, lower);
        match node_binding(nodes.last(), key_field, lower) {
            Some(b) => m.insert(b.0, b.1),
            None => m,
        }
    }
}

/// Builds the table of a target-store listing (see [`listing_map`]).
pub fn table_from_listing(nodes: &Vec<Json>, key_field: &str, lower: bool) -> (r: IdTable)
    ensures
        r@ == listing_map(crate::json::seq_view(nodes@), key_field@, lower),
{
    let ghost nv = crate::json::seq_view(nodes@);
    proof {
        crate::json::lemma_seq_view(nodes@);
    }
    let mut t = IdTable::new();
    let mut i: usize = 0;
    while i < nodes.len()
        invariant
            i <= nodes@.len(),
            nv == crate::json::seq_view(nodes@),
            nv.len() == nodes@.len(),
            forall|j: int| 0 <= j < nodes@.len() ==> #[trigger] nv[j] == nodes@[j]@,
            t@ == listing_map(nv.take(i as int), key_field@, lower),
        decreases nodes@.len() - i,
    {
        proof {
            assert(nv.take(i + 1).drop_last() =~= nv.take(i as int));
        }
        let node = &nodes[i];
        match (node.get(key_field), node.get("id")) {
            (Some(Json::Str(k)), Some(Json::Str(id))) => {
                let key = if lower {
                    to_ascii_lowercase(k.as_str())
                } else {
                    k.clone()
                };
                t.insert(key, id.clone());
            },
            _ => {},
        }
        i = i + 1;
    }
    proof {
        assert(nv.take(nodes@.len() as int) =~= nv);
    }
    t
}

/// A key listed again maps to the id listed last.
pub proof fn law_later_listing_wins(
    nodes: Seq<JsonV>,
    node: JsonV,
    key_field: Seq<char>,
    lower: bool,
)
    requires
        node_binding(node, key_field, lower) is Some,
    ensures
        ({
            let b = node_binding(node, key_field, lower)->Some_0;
            let m = listing_map(nodes.push(node), key_field, lower);
            m.contains_key(b.0) && m[b.0] == b.1
        }),
{
    assert(nodes.push(node).drop_last() =~= nodes);
}

/// A node without a string key or a string id changes nothing.
pub proof fn law_unusable_listing_is_ignored(
    nodes: Seq<JsonV>,
    node: JsonV,
    key_field: Seq<char>,
    lower: bool,
)
    requires
        node_binding(node, key_field, lower) is None,
    ensures
        listing_map(nodes.push(node), key_field, lower) == listing_map(nodes, key_field, lower),
{
    assert(nodes.push(node).drop_last() =~= nodes);
}

} // verus!
