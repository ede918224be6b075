//! Delivery (shipping) profiles: location groups, their zones (countries and
//! provinces) and the zones' method definitions (rates).
//!
//! The read shape wraps each level in a connection; the write shape
//! (`DeliveryProfileInput`) is flat `...ToCreate` lists. Locations differ per
//! store, so a profile refers to them by name, resolved in the target store.
//! The default profile is not exported (every store has one); only flat-rate
//! methods are carried over.

use vstd::prelude::*;

use crate::json::{
    entries_view, entry, filter_some, lemma_entries_view, lemma_filter_some_push, seq_view,
    str_eq, Json, JsonV,
};
use crate::resource::{fails_with, kind_name, resolves_to, ResourceKind};

verus! {

pub struct DeliveryProfile;

impl DeliveryProfile {
    /// The name used on the command line.
    pub fn name(&self) -> (r: &'static str)
        ensures
            r@ == kind_name(ResourceKind::DeliveryProfiles),
    {
        "delivery_profiles"
    }

    /// The resource kind this is.
    pub fn kind(&self) -> (r: ResourceKind)
        ensures
            r == ResourceKind::DeliveryProfiles,
    {
        ResourceKind::DeliveryProfiles
    }
}

/// The items of an array, or none for anything else.
pub open spec fn arr_v(j: JsonV) -> Seq<JsonV> {
    match j {
        JsonV::Array(a) => a,
        _ => Seq::empty(),
    }
}

/// The items of an array value (a copy), or none for anything else.
pub fn arr(v: &Json) -> (r: Vec<Json>)
    ensures
        seq_view(r@) == arr_v(v@),
{
    match v {
        Json::Array(_) => match v.duplicate() {
            Json::Array(a) => a,
            _ => Vec::new(),
        },
        _ => {
            let r: Vec<Json> = Vec::new();
            assert(seq_view(r@) =~= Seq::<JsonV>::empty());
            r
        },
    }
}

// ---- export ----

/// A profile is kept on export unless it is the default one.
pub open spec fn kept_profile(p: JsonV) -> Option<JsonV> {
    if p.at("default"@) == JsonV::Bool(true) {
        None
    } else {
        Some(p)
    }
}

/// The exported profiles without the default one, in order.
pub fn without_default(profiles: Vec<Json>) -> (out: Vec<Json>)
    ensures
        seq_view(out@) == filter_some(seq_view(profiles@).map_values(|p: JsonV| kept_profile(p))),
{
    let ghost pv = seq_view(profiles@);
    proof {
        crate::json::lemma_seq_view(profiles@);
    }
    let mut out: Vec<Json> = Vec::new();
    let mut i: usize = 0;
    let total = profiles.len();
    let mut rest = profiles;
    let ghost n = pv.len();
    while rest.len() > 0
        invariant
            n == total,
            i + rest@.len() == n,
            n == pv.len(),
            forall|k: int| 0 <= k < rest@.len() ==> #[trigger] rest@[k]@ == pv[i + k],
            seq_view(out@) == filter_some(pv.take(i as int).map_values(|p: JsonV| kept_profile(p))),
        decreases rest@.len(),
    {
        let p = rest.remove(0);
        proof {
            assert(pv.take(i + 1).map_values(|p: JsonV| kept_profile(p)) =~= pv.take(
                i as int,
            ).map_values(|p: JsonV| kept_profile(p)).push(kept_profile(pv[i as int])));
            lemma_filter_some_push(
                pv.take(i as int).map_values(|p: JsonV| kept_profile(p)),
                kept_profile(pv[i as int]),
            );
        }
        let is_default = match p.get("default") {
            Some(d) => match d.as_bool() {
                Some(b) => b,
                None => false,
            },
            None => false,
        };
        if !is_default {
            proof {
                crate::json::lemma_seq_view_push(out@, p);
            }
            out.push(p);
        }
        i = i + 1;
    }
    proof {
        assert(pv.take(n as int) =~= pv);
    }
    out
}

// ---- import ----

/// A province `{ code }` carried over, when it has a string code.
pub open spec fn province_input(pr: JsonV) -> Option<JsonV> {
    match pr.at("code"@) {
        JsonV::Str(code) => Some(JsonV::Object(seq![("code"@, JsonV::Str(code))])),
        _ => None,
    }
}

/// A country's write shape: `code` when it has a string country code,
/// `restOfWorld: true` when it is the rest of the world, and its provinces
/// with codes when there are any.
pub open spec fn country_input(c: JsonV) -> JsonV {
    let a = match c.at("code"@).at("countryCode"@) {
        JsonV::Str(cc) => JsonV::Object(Seq::empty()).set("code"@, JsonV::Str(cc)),
        _ => JsonV::Object(Seq::empty()),
    };
    let b = if c.at("code"@).at("restOfWorld"@) == JsonV::Bool(true) {
        a.set("restOfWorld"@, JsonV::Bool(true))
    } else {
        a
    };
    let provinces = filter_some(arr_v(c.at("provinces"@)).map_values(|p: JsonV| province_input(p)));
    if provinces.len() > 0 {
        b.set("provinces"@, JsonV::Array(provinces))
    } else {
        b
    }
}

/// A method definition's write shape, for flat-rate methods only:
/// `{ name, rateDefinition: { price: { amount, currencyCode } } }`.
pub open spec fn method_input(md: JsonV) -> Option<JsonV> {
    let provider = md.at("rateProvider"@);
    if provider.at("__typename"@) == JsonV::Str("DeliveryRateDefinition"@) {
        let price = provider.at("price"@);
        Some(
            JsonV::Object(
                seq![
                    ("name"@, md.at("name"@)),
                    (
                        "rateDefinition"@,
                        JsonV::Object(
                            seq![
                                (
                                    "price"@,
                                    JsonV::Object(
                                        seq![
                                            ("amount"@, price.at("amount"@)),
                                            ("currencyCode"@, price.at("currencyCode"@)),
                                        ],
                                    ),
                                ),
                            ],
                        ),
                    ),
                ],
            ),
        )
    } else {
        None
    }
}

/// A zone's write shape (`DeliveryLocationGroupZoneInput`): its name, its
/// countries and its flat-rate methods.
pub open spec fn zone_input(zone: JsonV, method_defs: JsonV) -> JsonV {
    JsonV::Object(
        seq![
            ("name"@, zone.at("name"@)),
            ("countries"@, JsonV::Array(arr_v(zone.at("countries"@)).map_values(|c: JsonV| country_input(c)))),
            (
                "methodDefinitionsToCreate"@,
                JsonV::Array(filter_some(arr_v(method_defs.at("nodes"@)).map_values(|m: JsonV| method_input(m)))),
            ),
        ],
    )
}

fn build_province(pr: &Json) -> (r: Option<Json>)
    ensures
        match r {
            Some(j) => province_input(pr@) == Some(j@),
            None => province_input(pr@) is None,
        },
{
    match pr.str_at("code") {
        Some(code) => {
            let es = vec![entry("code", Json::Str(code.clone()))];
            proof {
                lemma_entries_view(es@);
                assert(entries_view(es@) =~= seq![("code"@, JsonV::Str(code@))]);
            }
            Some(Json::Object(es))
        },
        None => None,
    }
}

fn build_country(c: &Json) -> (r: Json)
    ensures
        r@ == country_input(c@),
{
    let mut out = Json::empty_object();
    let code = c.at("code");
    if let Some(cc) = code.str_at("countryCode") {
        out.set(crate::json::owned("code"), Json::Str(cc.clone()));
    }
    let row = match code.get("restOfWorld") {
        Some(v) => match v.as_bool() {
            Some(b) => b,
            None => false,
        },
        None => false,
    };
    if row {
        out.set(crate::json::owned("restOfWorld"), Json::Bool(true));
    }
    let prs = arr(&c.at("provinces"));
    let ghost pv = seq_view(prs@);
    proof {
        crate::json::lemma_seq_view(prs@);
    }
    let mut provinces: Vec<Json> = Vec::new();
    let mut i: usize = 0;
    while i < prs.len()
        invariant
            i <= prs@.len(),
            pv == seq_view(prs@),
            pv.len() == prs@.len(),
            forall|j: int| 0 <= j < prs@.len() ==> #[trigger] pv[j] == prs@[j]@,
            seq_view(provinces@) == filter_some(pv.take(i as int).map_values(|p: JsonV| province_input(p))),
        decreases prs@.len() - i,
    {
        let e = build_province(&prs[i]);
        proof {
            assert(pv.take(i + 1).map_values(|p: JsonV| province_input(p)) =~= pv.take(
                i as int,
            ).map_values(|p: JsonV| province_input(p)).push(province_input(pv[i as int])));
            lemma_filter_some_push(
                pv.take(i as int).map_values(|p: JsonV| province_input(p)),
                province_input(pv[i as int]),
            );
        }
        match e {
            Some(j) => {
                proof {
                    crate::json::lemma_seq_view_push(provinces@, j);
                }
                provinces.push(j);
            },
            None => {},
        }
        i = i + 1;
    }
    proof {
        assert(pv.take(prs@.len() as int) =~= pv);
        crate::json::lemma_seq_view(provinces@);
    }
    if provinces.len() > 0 {
        out.set(crate::json::owned("provinces"), Json::Array(provinces));
    }
    out
}

fn build_method(md: &Json) -> (r: Option<Json>)
    ensures
        match r {
            Some(j) => method_input(md@) == Some(j@),
            None => method_input(md@) is None,
        },
{
    let provider = md.at("rateProvider");
    let flat = match provider.str_at("__typename") {
        Some(t) => str_eq(t.as_str(), "DeliveryRateDefinition"),
        None => false,
    };
    if !flat {
        return None;
    }
    let price = provider.at("price");
    let amount = vec![entry("amount", price.at("amount")), entry("currencyCode", price.at("currencyCode"))];
    proof {
        lemma_entries_view(amount@);
    }
    let ghost av = entries_view(amount@);
    let pr = vec![entry("price", Json::Object(amount))];
    proof {
        lemma_entries_view(pr@);
    }
    let ghost prv = entries_view(pr@);
    let es = vec![entry("name", md.at("name")), entry("rateDefinition", Json::Object(pr))];
    proof {
        lemma_entries_view(es@);
        let want = method_input(md@)->Some_0->Object_0;
        assert(av =~= want[1].1->Object_0[0].1->Object_0);
        assert(prv =~= want[1].1->Object_0);
        assert(entries_view(es@) =~= want);
    }
    Some(Json::Object(es))
}

/// Builds one zone's `DeliveryLocationGroupZoneInput` from the read shapes of
/// the zone and of its method definitions (see [`zone_input`]).
pub fn build_zone(zone: &Json, method_defs: &Json) -> (r: Json)
    ensures
        r@ == zone_input(zone@, method_defs@),
{
    let cs = arr(&zone.at("countries"));
    let ghost cv = seq_view(cs@);
    proof {
        crate::json::lemma_seq_view(cs@);
    }
    let mut countries: Vec<Json> = Vec::new();
    let mut i: usize = 0;
    while i < cs.len()
        invariant
            i <= cs@.len(),
            cv == seq_view(cs@),
            cv.len() == cs@.len(),
            forall|j: int| 0 <= j < cs@.len() ==> #[trigger] cv[j] == cs@[j]@,
            seq_view(countries@) == cv.take(i as int).map_values(|c: JsonV| country_input(c)),
        decreases cs@.len() - i,
    {
        let c = build_country(&cs[i]);
        proof {
            crate::json::lemma_seq_view_push(countries@, c);
            assert(cv.take(i + 1).map_values(|c: JsonV| country_input(c)) =~= cv.take(
                i as int,
            ).map_values(|c: JsonV| country_input(c)).push(country_input(cv[i as int])));
        }
        countries.push(c);
        i = i + 1;
    }
    proof {
        assert(cv.take(cs@.len() as int) =~= cv);
    }
    let ms = arr(&method_defs.at("nodes"));
    let ghost mv = seq_view(ms@);
    proof {
        crate::json::lemma_seq_view(ms@);
    }
    let mut methods: Vec<Json> = Vec::new();
    let mut k: usize = 0;
    while k < ms.len()
        invariant
            k <= ms@.len(),
            mv == seq_view(ms@),
            mv.len() == ms@.len(),
            forall|j: int| 0 <= j < ms@.len() ==> #[trigger] mv[j] == ms@[j]@,
            seq_view(methods@) == filter_some(mv.take(k as int).map_values(|m: JsonV| method_input(m))),
        decreases ms@.len() - k,
    {
        let e = build_method(&ms[k]);
        proof {
            assert(mv.take(k + 1).map_values(|m: JsonV| method_input(m)) =~= mv.take(
                k as int,
            ).map_values(|m: JsonV| method_input(m)).push(method_input(mv[k as int])));
            lemma_filter_some_push(
                mv.take(k as int).map_values(|m: JsonV| method_input(m)),
                method_input(mv[k as int]),
            );
        }
        match e {
            Some(j) => {
                proof {
                    crate::json::lemma_seq_view_push(methods@, j);
                }
                methods.push(j);
            },
            None => {},
        }
        k = k + 1;
    }
    proof {
        assert(mv.take(ms@.len() as int) =~= mv);
    }
    let es = vec![
        entry("name", zone.at("name")),
        entry("countries", Json::Array(countries)),
        entry("methodDefinitionsToCreate", Json::Array(methods)),
    ];
    proof {
        lemma_entries_view(es@);
        assert(entries_view(es@) =~= zone_input(zone@, method_defs@)->Object_0);
    }
    Json::Object(es)
}

/// Why a profile cannot be turned into a create input.
pub enum ProfileError<E> {
    /// A location of a location group has no name.
    MissingLocationName,
    /// A location could not be resolved in the target store.
    Resolve(E),
}

/// The location groups of an exported profile.
pub open spec fn groups_of(p: JsonV) -> Seq<JsonV> {
    arr_v(p.at("profileLocationGroups"@))
}

/// The locations of a location group.
pub open spec fn locations_of(g: JsonV) -> Seq<JsonV> {
    arr_v(g.at("locationGroup"@).at("locations"@).at("nodes"@))
}

/// The name of a location, when it has one.
pub open spec fn location_name(loc: JsonV) -> Option<Seq<char>> {
    match loc.at("name"@) {
        JsonV::Str(n) => Some(n),
        _ => None,
    }
}

/// A location group's write shape: the resolved ids of its locations and its
/// zones.
pub open spec fn group_input(g: JsonV, ids: Seq<Seq<char>>) -> JsonV {
    JsonV::Object(
        seq![
            ("locationsToAdd"@, JsonV::Array(ids.map_values(|id: Seq<char>| JsonV::Str(id)))),
            (
                "zonesToCreate"@,
                JsonV::Array(
                    arr_v(g.at("locationGroupZones"@).at("nodes"@)).map_values(
                        |zn: JsonV| zone_input(zn.at("zone"@), zn.at("methodDefinitions"@)),
                    ),
                ),
            ),
        ],
    )
}

/// Every location of `g` has a name that `resolve` may answer with the
/// matching id of `ids`.
pub open spec fn locations_resolve<E, F: Fn(&str) -> Result<String, E>>(
    resolve: F,
    g: JsonV,
    ids: Seq<Seq<char>>,
) -> bool {
    let locs = locations_of(g);
    &&& ids.len() == locs.len()
    &&& forall|l: int|
        0 <= l < locs.len() ==> location_name(#[trigger] locs[l]) is Some && resolves_to(
            resolve,
            location_name(locs[l])->Some_0,
            ids[l],
        )
}

/// The first `ids.len()` locations of `g` have names that `resolve` may
/// answer with those ids.
pub open spec fn locations_prefix<E, F: Fn(&str) -> Result<String, E>>(
    resolve: F,
    g: JsonV,
    ids: Seq<Seq<char>>,
) -> bool {
    let locs = locations_of(g);
    &&& ids.len() <= locs.len()
    &&& forall|l: int|
        0 <= l < ids.len() ==> location_name(#[trigger] locs[l]) is Some && resolves_to(
            resolve,
            location_name(locs[l])->Some_0,
            ids[l],
        )
}

/// Resolving the locations of `g` in order stops at one without a name,
/// every earlier one having resolved.
pub open spec fn name_missing_first<E, F: Fn(&str) -> Result<String, E>>(resolve: F, g: JsonV) -> bool {
    exists|ids: Seq<Seq<char>>|
        #[trigger] locations_prefix(resolve, g, ids) && ids.len() < locations_of(g).len()
            && location_name(locations_of(g)[ids.len() as int]) is None
}

/// Resolving the locations of `g` in order stops at a name that `resolve`
/// answers with `err`, every earlier one having resolved.
pub open spec fn name_fails_first<E, F: Fn(&str) -> Result<String, E>>(
    resolve: F,
    g: JsonV,
    err: E,
) -> bool {
    exists|ids: Seq<Seq<char>>|
        #[trigger] locations_prefix(resolve, g, ids) && ids.len() < locations_of(g).len() && (
        location_name(locations_of(g)[ids.len() as int]) matches Some(n) && fails_with(
            resolve,
            n,
            err,
        ))
}

/// How converting the location group `g` fails with `e`: at the first
/// location, in order, that has no name or does not resolve.
pub open spec fn group_fails<E, F: Fn(&str) -> Result<String, E>>(
    resolve: F,
    g: JsonV,
    e: ProfileError<E>,
) -> bool {
    match e {
        ProfileError::MissingLocationName => name_missing_first(resolve, g),
        ProfileError::Resolve(err) => name_fails_first(resolve, g, err),
    }
}

/// The first `ids.len()` groups have all their locations resolved to `ids`.
pub open spec fn groups_prefix<E, F: Fn(&str) -> Result<String, E>>(
    resolve: F,
    groups: Seq<JsonV>,
    ids: Seq<Seq<Seq<char>>>,
) -> bool {
    &&& ids.len() <= groups.len()
    &&& forall|i: int| 0 <= i < ids.len() ==> #[trigger] locations_resolve(resolve, groups[i], ids[i])
}

/// The `DeliveryProfileInput` for a profile, given the resolved location ids of
/// each of its groups.
pub open spec fn profile_input_spec(p: JsonV, ids: Seq<Seq<Seq<char>>>) -> JsonV {
    let groups = groups_of(p);
    JsonV::Object(
        seq![
            ("name"@, p.at("name"@)),
            (
                "locationGroupsToCreate"@,
                JsonV::Array(Seq::new(groups.len(), |i: int| group_input(groups[i], ids[i]))),
            ),
        ],
    )
}

/// What [`profile_input`] answers for a profile, with `resolve` as the location
/// resolver.
pub open spec fn profile_outcome<E, F: Fn(&str) -> Result<String, E>>(
    resolve: F,
    p: JsonV,
    r: Result<JsonV, ProfileError<E>>,
) -> bool {
    let groups = groups_of(p);
    match r {
        Ok(j) => exists|ids: Seq<Seq<Seq<char>>>|
            #![trigger profile_input_spec(p, ids)]
            ids.len() == groups.len() && (forall|i: int|
                0 <= i < groups.len() ==> #[trigger] locations_resolve(resolve, groups[i], ids[i]))
                && j == profile_input_spec(p, ids),
        Err(e) => exists|ids: Seq<Seq<Seq<char>>>|
            #[trigger] groups_prefix(resolve, groups, ids) && ids.len() < groups.len() && group_fails(
                resolve,
                groups[ids.len() as int],
                e,
            ),
    }
}

/// The view of a conversion result.
pub open spec fn profile_result_view<E>(r: Result<Json, ProfileError<E>>) -> Result<JsonV, ProfileError<E>> {
    match r {
        Ok(j) => Ok(j@),
        Err(e) => Err(e),
    }
}

proof fn lemma_locations_prefix<E, F: Fn(&str) -> Result<String, E>>(
    resolve: F,
    g: JsonV,
    ids: Seq<String>,
)
    requires
        ids.len() < locations_of(g).len(),
        forall|j: int|
            0 <= j < ids.len() ==> location_name(#[trigger] locations_of(g)[j]) is Some && resolves_to(
                resolve,
                location_name(locations_of(g)[j])->Some_0,
                ids[j]@,
            ),
    ensures
        locations_prefix(resolve, g, ids.map_values(|s: String| s@)),
        ids.map_values(|s: String| s@).len() == ids.len(),
{
    let iv = ids.map_values(|s: String| s@);
    let locs = locations_of(g);
    assert forall|l: int| 0 <= l < iv.len() implies location_name(#[trigger] locs[l]) is Some
        && resolves_to(resolve, location_name(locs[l])->Some_0, iv[l]) by {
        assert(iv[l] == ids[l]@);
    }
}

fn build_group<E, F: Fn(&str) -> Result<String, E>>(resolve: &F, g: &Json) -> (r: Result<
    Json,
    ProfileError<E>,
>)
    requires
        forall|h: &str| resolve.requires((h,)),
    ensures
        match r {
            Ok(j) => exists|ids: Seq<Seq<char>>|
                locations_resolve(*resolve, g@, ids) && j@ == #[trigger] group_input(g@, ids),
            Err(e) => group_fails(*resolve, g@, e),
        },
{
    let locs = arr(&g.at("locationGroup").at("locations").at("nodes"));
    let ghost lv = seq_view(locs@);
    proof {
        crate::json::lemma_seq_view(locs@);
    }
    let mut ids: Vec<String> = Vec::new();
    let mut i: usize = 0;
    while i < locs.len()
        invariant
            i <= locs@.len(),
            lv == seq_view(locs@),
            lv == locations_of(g@),
            lv.len() == locs@.len(),
            forall|j: int| 0 <= j < locs@.len() ==> #[trigger] lv[j] == locs@[j]@,
            forall|h: &str| resolve.requires((h,)),
            ids@.len() == i,
            forall|j: int|
                0 <= j < i ==> location_name(#[trigger] lv[j]) is Some && resolves_to(
                    *resolve,
                    location_name(lv[j])->Some_0,
                    ids@[j]@,
                ),
        decreases locs@.len() - i,
    {
        let name = match locs[i].str_at("name") {
            Some(n) => n,
            None => {
                proof {
                    assert(location_name(lv[i as int]) is None);
                    lemma_locations_prefix(*resolve, g@, ids@);
                }
                return Err(ProfileError::MissingLocationName);
            },
        };
        match resolve(name.as_str()) {
            Ok(id) => {
                proof {
                    assert(resolves_to(*resolve, name@, id@));
                }
                ids.push(id);
            },
            Err(e) => {
                proof {
                    assert(fails_with(*resolve, name@, e));
                    lemma_locations_prefix(*resolve, g@, ids@);
                }
                return Err(ProfileError::Resolve(e));
            },
        }
        i = i + 1;
    }
    let ghost iv = ids@.map_values(|s: String| s@);
    proof {
        assert forall|l: int| 0 <= l < lv.len() implies location_name(#[trigger] lv[l]) is Some
            && resolves_to(*resolve, location_name(lv[l])->Some_0, iv[l]) by {
            assert(iv[l] == ids@[l]@);
        }
        assert(locations_resolve(*resolve, g@, iv));
    }
    let locations = Json::texts(&ids);
    proof {
        assert(ids@.map_values(|s: String| JsonV::Str(s@)) =~= iv.map_values(
            |id: Seq<char>| JsonV::Str(id),
        ));
    }
    let zns = arr(&g.at("locationGroupZones").at("nodes"));
    let ghost zv = seq_view(zns@);
    proof {
        crate::json::lemma_seq_view(zns@);
    }
    let mut zones: Vec<Json> = Vec::new();
    let mut k: usize = 0;
    while k < zns.len()
        invariant
            k <= zns@.len(),
            zv == seq_view(zns@),
            zv.len() == zns@.len(),
            forall|j: int| 0 <= j < zns@.len() ==> #[trigger] zv[j] == zns@[j]@,
            seq_view(zones@) == zv.take(k as int).map_values(
                |zn: JsonV| zone_input(zn.at("zone"@), zn.at("methodDefinitions"@)),
            ),
        decreases zns@.len() - k,
    {
        let zn = &zns[k];
        let z = build_zone(&zn.at("zone"), &zn.at("methodDefinitions"));
        proof {
            crate::json::lemma_seq_view_push(zones@, z);
            assert(zv.take(k + 1).map_values(
                |zn: JsonV| zone_input(zn.at("zone"@), zn.at("methodDefinitions"@)),
            ) =~= zv.take(k as int).map_values(
                |zn: JsonV| zone_input(zn.at("zone"@), zn.at("methodDefinitions"@)),
            ).push(zone_input(zv[k as int].at("zone"@), zv[k as int].at("methodDefinitions"@))));
        }
        zones.push(z);
        k = k + 1;
    }
    proof {
        assert(zv.take(zns@.len() as int) =~= zv);
    }
    let es = vec![entry("locationsToAdd", locations), entry("zonesToCreate", Json::Array(zones))];
    proof {
        lemma_entries_view(es@);
        assert(entries_view(es@) =~= group_input(g@, iv)->Object_0);
    }
    Ok(Json::Object(es))
}

/// Turns an exported profile into `DeliveryProfileInput`, resolving each
/// location group's locations by name through `resolve` (see
/// [`profile_outcome`]).
pub fn profile_input<E, F: Fn(&str) -> Result<String, E>>(resolve: &F, p: &Json) -> (r: Result<
    Json,
    ProfileError<E>,
>)
    requires
        forall|h: &str| resolve.requires((h,)),
    ensures
        profile_outcome(*resolve, p@, profile_result_view(r)),
{
    let gs = arr(&p.at("profileLocationGroups"));
    let ghost gv = seq_view(gs@);
    proof {
        crate::json::lemma_seq_view(gs@);
    }
    let mut groups: Vec<Json> = Vec::new();
    let ghost mut ids: Seq<Seq<Seq<char>>> = Seq::empty();
    let mut i: usize = 0;
    while i < gs.len()
        invariant
            i <= gs@.len(),
            gv == seq_view(gs@),
            gv == groups_of(p@),
            gv.len() == gs@.len(),
            forall|j: int| 0 <= j < gs@.len() ==> #[trigger] gv[j] == gs@[j]@,
            forall|h: &str| resolve.requires((h,)),
            groups@.len() == i,
            ids.len() == i,
            forall|j: int| 0 <= j < i ==> #[trigger] locations_resolve(*resolve, gv[j], ids[j]),
            forall|j: int| 0 <= j < i ==> #[trigger] groups@[j]@ == group_input(gv[j], ids[j]),
        decreases gs@.len() - i,
    {
        match build_group(resolve, &gs[i]) {
            Ok(g) => {
                let ghost gids = choose|x: Seq<Seq<char>>|
                    locations_resolve(*resolve, gv[i as int], x) && g@ == #[trigger] group_input(
                        gv[i as int],
                        x,
                    );
                proof {
                    ids = ids.push(gids);
                }
                groups.push(g);
            },
            Err(e) => {
                proof {
                    assert(groups_prefix(*resolve, gv, ids));
                    assert(group_fails(*resolve, gv[ids.len() as int], e));
                }
                return Err(e);
            },
        }
        i = i + 1;
    }
    proof {
        crate::json::lemma_seq_view(groups@);
        assert(groups@.len() == gv.len());
        assert(forall|k: int| 0 <= k < gv.len() ==> seq_view(groups@)[k] == groups@[k]@);
        assert(forall|k: int| 0 <= k < gv.len() ==> groups@[k]@ == group_input(gv[k], ids[k]));
        assert(seq_view(groups@) =~= Seq::new(gv.len(), |k: int| group_input(gv[k], ids[k])));
    }
    let es = vec![entry("name", p.at("name")), entry("locationGroupsToCreate", Json::Array(groups))];
    proof {
        lemma_entries_view(es@);
        assert(entries_view(es@) =~= profile_input_spec(p@, ids)->Object_0);
    }
    Ok(Json::Object(es))
}

/// The default profile is never exported: every store already has one.
pub proof fn law_default_profile_is_not_exported(profiles: Seq<JsonV>, i: int)
    requires
        0 <= i < filter_some(profiles.map_values(|p: JsonV| kept_profile(p))).len(),
    ensures
        filter_some(profiles.map_values(|p: JsonV| kept_profile(p)))[i].at("default"@) != JsonV::Bool(
            true,
        ),
{
    let ks = profiles.map_values(|p: JsonV| kept_profile(p));
    crate::json::lemma_filter_some_member(ks, i);
    let j = choose|j: int| 0 <= j < ks.len() && ks[j] == Some(filter_some(ks)[i]);
    assert(ks[j] == kept_profile(profiles[j]));
}

/// The zones of a profile's location group all carry over, in order: the
/// created group has one zone per zone node of the exported group, the k-th
/// named as the k-th node's zone, and one location per exported location.
pub proof fn law_groups_keep_their_zones<E, F: Fn(&str) -> Result<String, E>>(
    resolve: F,
    p: JsonV,
    j: JsonV,
    i: int,
    k: int,
)
    requires
        profile_outcome(resolve, p, Ok(j)),
        0 <= i < groups_of(p).len(),
        0 <= k < arr_v(groups_of(p)[i].at("locationGroupZones"@).at("nodes"@)).len(),
    ensures
        j.at("locationGroupsToCreate"@) matches JsonV::Array(gs) && gs.len() == groups_of(p).len() && {
            let nodes = arr_v(groups_of(p)[i].at("locationGroupZones"@).at("nodes"@));
            &&& gs[i].at("zonesToCreate"@) matches JsonV::Array(zs) && zs.len() == nodes.len()
                && zs[k].get("name"@) == Some(nodes[k].at("zone"@).at("name"@))
            &&& gs[i].at("locationsToAdd"@) matches JsonV::Array(ls) && ls.len() == locations_of(
                groups_of(p)[i],
            ).len()
        },
{
    reveal_strlit("name");
    reveal_strlit("locationGroupsToCreate");
    reveal_strlit("locationsToAdd");
    reveal_strlit("zonesToCreate");
    assert("name"@.len() == 4 && "locationGroupsToCreate"@.len() == 22);
    assert("locationsToAdd"@.len() == 14 && "zonesToCreate"@.len() == 13);
    let ids = choose|ids: Seq<Seq<Seq<char>>>|
        #![trigger profile_input_spec(p, ids)]
        ids.len() == groups_of(p).len() && (forall|q: int|
            0 <= q < groups_of(p).len() ==> #[trigger] locations_resolve(resolve, groups_of(p)[q], ids[q]))
            && j == profile_input_spec(p, ids);
    let pes = profile_input_spec(p, ids)->Object_0;
    assert forall|q: int| 0 <= q < 1 implies (#[trigger] pes[q]).0 != pes[1].0 by {}
    crate::json::lemma_get_entry(pes, 1);
    let g = groups_of(p)[i];
    assert(locations_resolve(resolve, g, ids[i]));
    let ges = group_input(g, ids[i])->Object_0;
    crate::json::lemma_get_entry(ges, 0);
    assert forall|q: int| 0 <= q < 1 implies (#[trigger] ges[q]).0 != ges[1].0 by {}
    crate::json::lemma_get_entry(ges, 1);
    let nodes = arr_v(g.at("locationGroupZones"@).at("nodes"@));
    let zes = zone_input(nodes[k].at("zone"@), nodes[k].at("methodDefinitions"@))->Object_0;
    crate::json::lemma_get_entry(zes, 0);
}

/// A flat-rate method is written with its own name and its price's amount
/// and currency; other methods are not written.
pub proof fn law_method_keeps_its_rate(md: JsonV)
    ensures
        (method_input(md) is Some) == (md.at("rateProvider"@).at("__typename"@) == JsonV::Str(
            "DeliveryRateDefinition"@,
        )),
        method_input(md) matches Some(m) ==> {
            let price = md.at("rateProvider"@).at("price"@);
            &&& m.get("name"@) == Some(md.at("name"@))
            &&& m.at("rateDefinition"@).at("price"@).get("amount"@) == Some(price.at("amount"@))
            &&& m.at("rateDefinition"@).at("price"@).get("currencyCode"@) == Some(price.at("currencyCode"@))
        },
{
    reveal_strlit("amount");
    reveal_strlit("currencyCode");
    reveal_strlit("name");
    reveal_strlit("price");
    reveal_strlit("rateDefinition");
    assert("amount"@.len() == 6);
    assert("currencyCode"@.len() == 12);
    assert("name"@.len() == 4);
    assert("price"@.len() == 5);
    assert("rateDefinition"@.len() == 14);
    match method_input(md) {
        Some(m) => {
            let es = m->Object_0;
            crate::json::lemma_get_entry(es, 0);
            assert forall|j: int| 0 <= j < 1 implies (#[trigger] es[j]).0 != es[1].0 by {}
            crate::json::lemma_get_entry(es, 1);
            let res = es[1].1->Object_0;
            crate::json::lemma_get_entry(res, 0);
            let pes = res[0].1->Object_0;
            crate::json::lemma_get_entry(pes, 0);
            assert forall|j: int| 0 <= j < 1 implies (#[trigger] pes[j]).0 != pes[1].0 by {
                if j == 0 {}
            }
            crate::json::lemma_get_entry(pes, 1);
        },
        None => {},
    }
}

/// A zone is written with its own name, one country per exported country in
/// order (each keeping its country code when it has one), and the flat-rate
/// methods among its method definitions.
pub proof fn law_zone_keeps_countries(zone: JsonV, method_defs: JsonV, c: int)
    requires
        0 <= c < arr_v(zone.at("countries"@)).len(),
    ensures
        zone_input(zone, method_defs).get("name"@) == Some(zone.at("name"@)),
        zone_input(zone, method_defs).at("countries"@) matches JsonV::Array(cs) && cs.len() == arr_v(
            zone.at("countries"@),
        ).len() && (arr_v(zone.at("countries"@))[c].at("code"@).at("countryCode"@) matches JsonV::Str(cc)
            ==> cs[c].get("code"@) == Some(JsonV::Str(cc))),
{
    reveal_strlit("code");
    reveal_strlit("countries");
    reveal_strlit("methodDefinitionsToCreate");
    reveal_strlit("name");
    reveal_strlit("provinces");
    reveal_strlit("restOfWorld");
    assert("code"@.len() == 4);
    assert("countries"@.len() == 9);
    assert("methodDefinitionsToCreate"@.len() == 25);
    assert("name"@.len() == 4);
    assert("provinces"@.len() == 9);
    assert("restOfWorld"@.len() == 11);
    assert("code"@[0] != "name"@[0]);
    assert("countries"@[0] != "provinces"@[0]);
    let es = zone_input(zone, method_defs)->Object_0;
    crate::json::lemma_get_entry(es, 0);
    assert forall|j: int| 0 <= j < 1 implies (#[trigger] es[j]).0 != es[1].0 by {
        if j == 0 {}
    }
    crate::json::lemma_get_entry(es, 1);
    let country = arr_v(zone.at("countries"@))[c];
    match country.at("code"@).at("countryCode"@) {
        JsonV::Str(cc) => {
            let a = JsonV::Object(Seq::empty()).set("code"@, JsonV::Str(cc));
            crate::json::law_set_then_get(JsonV::Object(Seq::empty()), "code"@, JsonV::Str(cc));
            let b = if country.at("code"@).at("restOfWorld"@) == JsonV::Bool(true) {
                crate::json::law_set_keeps_other_keys(a, "restOfWorld"@, JsonV::Bool(true), "code"@);
                a.set("restOfWorld"@, JsonV::Bool(true))
            } else {
                a
            };
            let provinces = filter_some(arr_v(country.at("provinces"@)).map_values(|p: JsonV| province_input(p)));
            if provinces.len() > 0 {
                crate::json::law_set_keeps_other_keys(b, "provinces"@, JsonV::Array(provinces), "code"@);
            }
        },
        _ => {},
    }
}

} // verus!
