//! Gift cards. The Admin API masks gift card codes, so an imported card gets a
//! fresh code; and `giftCardCreate` sets an initial amount, not a balance, so a
//! card is recreated at its original initial value. A card may belong to a
//! customer, matched across stores by email.

use vstd::prelude::*;

use crate::json::{entries_view, entry, lemma_entries_view, owned, Json, JsonV};
use crate::lookup::IdTable;
use crate::resource::{
    batch_view, kind_name, lemma_picked_step, mutation_payload, payload_of, picked, ResourceKind,
};
use crate::text::{ascii_lower, to_ascii_lowercase};

verus! {

pub struct GiftCard;

impl GiftCard {
    /// The name used on the command line.
    pub fn name(&self) -> (r: &'static str)
        ensures
            r@ == kind_name(ResourceKind::GiftCards),
    {
        "giftcards"
    }

    /// The resource kind this is.
    pub fn kind(&self) -> (r: ResourceKind)
        ensures
            r == ResourceKind::GiftCards,
    {
        ResourceKind::GiftCards
    }
}

/// An amount of money, as decimal text and a currency code.
pub struct Money {
    pub amount: String,
    pub currency_code: String,
}

/// The customer a card belongs to, by email.
pub struct CustomerRef {
    pub email: Option<String>,
}

/// One exported gift card.
pub struct GiftCardRecord {
    pub initial_value: Money,
    pub expires_on: Option<String>,
    pub note: Option<String>,
    pub customer: Option<CustomerRef>,
}

/// The email of the customer a card belongs to, if any.
pub open spec fn email_of(gc: GiftCardRecord) -> Option<Seq<char>> {
    match gc.customer {
        Some(c) => match c.email {
            Some(e) => Some(e@),
            None => None,
        },
        None => None,
    }
}

/// The `GiftCardCreateInput` for a card: its original initial value as
/// `initialAmount`, then `expiresOn`, `note` and `customerId` where present.
pub open spec fn gift_card_input(gc: GiftCardRecord, customer_id: Option<Seq<char>>) -> JsonV {
    let base = JsonV::Object(
        seq![
            (
                "initialAmount"@,
                JsonV::Object(
                    seq![
                        ("amount"@, JsonV::Str(gc.initial_value.amount@)),
                        ("currencyCode"@, JsonV::Str(gc.initial_value.currency_code@)),
                    ],
                ),
            ),
        ],
    );
    let a = match gc.expires_on {
        Some(e) => base.set("expiresOn"@, JsonV::Str(e@)),
        None => base,
    };
    let b = match gc.note {
        Some(n) => a.set("note"@, JsonV::Str(n@)),
        None => a,
    };
    match customer_id {
        Some(id) => b.set("customerId"@, JsonV::Str(id)),
        None => b,
    }
}

/// The email of the customer a card belongs to, if any.
pub fn card_email(gc: &GiftCardRecord) -> (r: Option<&String>)
    ensures
        match r {
            Some(e) => email_of(*gc) == Some(e@),
            None => email_of(*gc) is None,
        },
{
    match &gc.customer {
        Some(c) => match &c.email {
            Some(e) => Some(e),
            None => None,
        },
        None => None,
    }
}

/// Turns a card into `GiftCardCreateInput`, assigned to `customer_id`
/// when one is given.
pub fn build_gift_card_input(gc: &GiftCardRecord, customer_id: Option<&str>) -> (r: Json)
    ensures
        r@ == gift_card_input(
            *gc,
            match customer_id {
                Some(id) => Some(id@),
                None => None,
            },
        ),
{
    let money = vec![
        entry("amount", Json::Str(gc.initial_value.amount.clone())),
        entry("currencyCode", Json::Str(gc.initial_value.currency_code.clone())),
    ];
    proof {
        lemma_entries_view(money@);
    }
    let es = vec![entry("initialAmount", Json::Object(money))];
    proof {
        lemma_entries_view(es@);
        assert(entries_view(money@) =~= seq![
            ("amount"@, JsonV::Str(gc.initial_value.amount@)),
            ("currencyCode"@, JsonV::Str(gc.initial_value.currency_code@)),
        ]);
        assert(entries_view(es@) =~= seq![("initialAmount"@, json_money(*gc))]);
    }
    let mut input = Json::Object(es);
    if let Some(e) = &gc.expires_on {
        input.set(owned("expiresOn"), Json::Str(e.clone()));
    }
    if let Some(n) = &gc.note {
        input.set(owned("note"), Json::Str(n.clone()));
    }
    if let Some(id) = customer_id {
        input.set(owned("customerId"), Json::text(id));
    }
    input
}

spec fn json_money(gc: GiftCardRecord) -> JsonV {
    JsonV::Object(
        seq![
            ("amount"@, JsonV::Str(gc.initial_value.amount@)),
            ("currencyCode"@, JsonV::Str(gc.initial_value.currency_code@)),
        ],
    )
}

/// The `giftCardCreate` payload inside one bulk-mutation result line.
pub fn gift_card_create_payload(result: &Json) -> (r: Json)
    ensures
        r@ == payload_of(result@, "giftCardCreate"@),
{
    mutation_payload(result, "giftCardCreate")
}

/// What the bulk import does with one card.
pub enum CardStep {
    /// Submit this `{ "input": GiftCardCreateInput }` line.
    Create { line: Json },
    /// The card's customer has no account in the target store: skip the card
    /// (an orphaned balance is worse than none).
    MissingCustomer,
}

/// The bulk import's decision for one card, given the target store's
/// customers by lower-cased email: an assigned card is created for the
/// customer its email finds, or skipped when none is found; an unassigned card
/// is created as it is.
pub open spec fn card_step(gc: GiftCardRecord, emails: Map<Seq<char>, Seq<char>>) -> Option<JsonV> {
    match email_of(gc) {
        Some(e) => if emails.contains_key(ascii_lower(e)) {
            Some(
                JsonV::Object(
                    seq![("input"@, gift_card_input(gc, Some(emails[ascii_lower(e)])))],
                ),
            )
        } else {
            None
        },
        None => Some(JsonV::Object(seq![("input"@, gift_card_input(gc, None))])),
    }
}

/// Decides what the bulk import does with one card (see [`card_step`]).
pub fn plan_card(gc: &GiftCardRecord, emails: &IdTable) -> (r: CardStep)
    ensures
        match r {
            CardStep::Create { line } => card_step(*gc, emails@) == Some(line@),
            CardStep::MissingCustomer => card_step(*gc, emails@) is None,
        },
{
    let customer_id: Option<&String> = match card_email(gc) {
        Some(e) => {
            let key = to_ascii_lowercase(e.as_str());
            match emails.get(key.as_str()) {
                Some(id) => Some(id),
                None => {
                    return CardStep::MissingCustomer;
                },
            }
        },
        None => None,
    };
    let input = match customer_id {
        Some(id) => build_gift_card_input(gc, Some(id.as_str())),
        None => build_gift_card_input(gc, None),
    };
    let es = vec![entry("input", input)];
    proof {
        lemma_entries_view(es@);
    }
    let line = Json::Object(es);
    proof {
        assert(entries_view(es@) =~= card_step(*gc, emails@)->Some_0->Object_0);
    }
    CardStep::Create { line }
}

/// The lines the bulk import sends for `cards`: one for each card that is
/// unassigned or whose customer the target store has (see [`card_step`]),
/// in order, tagged with its position.
pub fn import_batch(cards: &Vec<GiftCardRecord>, emails: &IdTable) -> (r: Vec<(usize, Json)>)
    ensures
        batch_view(r@) == picked(cards@, |gc: GiftCardRecord| card_step(gc, emails@)),
{
    let ghost f = |gc: GiftCardRecord| card_step(gc, emails@);
    let mut out: Vec<(usize, Json)> = Vec::new();
    let mut i: usize = 0;
    while i < cards.len()
        invariant
            i <= cards@.len(),
            batch_view(out@) == picked(cards@.take(i as int), f),
            f == (|gc: GiftCardRecord| card_step(gc, emails@)),
        decreases cards@.len() - i,
    {
        proof {
            lemma_picked_step(cards@, i as int, f);
            assert(f(cards@[i as int]) == card_step(cards@[i as int], emails@));
        }
        match plan_card(&cards[i], emails) {
            CardStep::Create { line } => {
                let ghost before = out@;
                out.push((i, line));
                proof {
                    assert(batch_view(out@) =~= batch_view(before).push((i as int, line@)));
                }
            },
            CardStep::MissingCustomer => {},
        }
        i = i + 1;
    }
    proof {
        assert(cards@.take(cards@.len() as int) =~= cards@);
    }
    out
}

/// The last characters of a created card's code, or `"????"` when the payload
/// does not carry them.
pub open spec fn last_characters_of(payload: JsonV) -> Seq<char> {
    match payload.at("giftCard"@).at("lastCharacters"@) {
        JsonV::Str(s) => s,
        _ => "????"@,
    }
}

/// The last characters of a created card's code (see [`last_characters_of`]).
pub fn last_characters(payload: &Json) -> (r: String)
    ensures
        r@ == last_characters_of(payload@),
{
    match payload.at("giftCard").str_at("lastCharacters") {
        Some(s) => s.clone(),
        None => owned("????"),
    }
}

/// A card goes to the customer its email finds in the target store (by
/// lower-cased email): its input's `customerId` is that customer's id. An
/// unassigned card is created without a `customerId`, and an assigned card
/// whose customer is not found is not created at all.
pub proof fn law_card_assignment(gc: GiftCardRecord, emails: Map<Seq<char>, Seq<char>>)
    ensures
        match card_step(gc, emails) {
            Some(line) => match email_of(gc) {
                Some(e) => line.at("input"@).get("customerId"@) == Some(
                    JsonV::Str(emails[ascii_lower(e)]),
                ),
                None => line.at("input"@).get("customerId"@) is None,
            },
            None => email_of(gc) is Some && !emails.contains_key(ascii_lower(email_of(gc)->Some_0)),
        },
{
    reveal_strlit("initialAmount");
    reveal_strlit("expiresOn");
    reveal_strlit("note");
    reveal_strlit("customerId");
    reveal_strlit("input");
    let cid = match email_of(gc) {
        Some(e) => if emails.contains_key(ascii_lower(e)) {
            Some(emails[ascii_lower(e)])
        } else {
            None
        },
        None => None,
    };
    let input = gift_card_input(gc, cid);
    let line = JsonV::Object(seq![("input"@, input)]);
    crate::json::lemma_first_pos_found(crate::json::keys_of(line->Object_0), "input"@, 0);
    let base = JsonV::Object(seq![("initialAmount"@, json_money(gc))]);
    assert forall|j: int| 0 <= j < base->Object_0.len() implies (#[trigger] base->Object_0[j]).0
        != "customerId"@ by {
        assert(base->Object_0[j].0.len() != "customerId"@.len());
    }
    crate::json::law_absent_key(base->Object_0, "customerId"@);
    let a = match gc.expires_on {
        Some(e) => base.set("expiresOn"@, JsonV::Str(e@)),
        None => base,
    };
    assert("customerId"@.len() != "expiresOn"@.len());
    assert("customerId"@.len() != "note"@.len());
    if let Some(e) = gc.expires_on {
        crate::json::law_set_keeps_other_keys(base, "expiresOn"@, JsonV::Str(e@), "customerId"@);
    }
    let b = match gc.note {
        Some(n) => a.set("note"@, JsonV::Str(n@)),
        None => a,
    };
    if let Some(n) = gc.note {
        crate::json::law_set_keeps_other_keys(a, "note"@, JsonV::Str(n@), "customerId"@);
    }
    assert(b.get("customerId"@) is None);
    if let Some(id) = cid {
        crate::json::law_set_then_get(b, "customerId"@, JsonV::Str(id));
    }
}

/// A card is created for its own initial value (amount and currency), with
/// its own expiry date and note exactly when it has them.
pub proof fn law_card_keeps_value_and_dates(gc: GiftCardRecord, customer_id: Option<Seq<char>>)
    ensures
        gift_card_input(gc, customer_id).at("initialAmount"@).get("amount"@) == Some(
            JsonV::Str(gc.initial_value.amount@),
        ),
        gift_card_input(gc, customer_id).at("initialAmount"@).get("currencyCode"@) == Some(
            JsonV::Str(gc.initial_value.currency_code@),
        ),
        gift_card_input(gc, customer_id).get("expiresOn"@) == match gc.expires_on {
            Some(e) => Some(JsonV::Str(e@)),
            None => None,
        },
        gift_card_input(gc, customer_id).get("note"@) == match gc.note {
            Some(n) => Some(JsonV::Str(n@)),
            None => None,
        },
{
    reveal_strlit("amount");
    reveal_strlit("currencyCode");
    reveal_strlit("customerId");
    reveal_strlit("expiresOn");
    reveal_strlit("initialAmount");
    reveal_strlit("note");
    assert("amount"@.len() == 6);
    assert("currencyCode"@.len() == 12);
    assert("customerId"@.len() == 10);
    assert("expiresOn"@.len() == 9);
    assert("initialAmount"@.len() == 13);
    assert("note"@.len() == 4);
    let amount = JsonV::Object(
        seq![
            ("amount"@, JsonV::Str(gc.initial_value.amount@)),
            ("currencyCode"@, JsonV::Str(gc.initial_value.currency_code@)),
        ],
    );
    let aes = amount->Object_0;
    crate::json::lemma_get_entry(aes, 0);
    assert forall|j: int| 0 <= j < 1 implies (#[trigger] aes[j]).0 != aes[1].0 by {
        if j == 0 {}
    }
    crate::json::lemma_get_entry(aes, 1);
    let base = JsonV::Object(seq![("initialAmount"@, amount)]);
    let bes = base->Object_0;
    crate::json::lemma_get_entry(bes, 0);
    assert forall|q: int| 0 <= q < bes.len() implies (#[trigger] bes[q]).0 != "expiresOn"@ && bes[q].0
        != "note"@ by {}
    crate::json::law_absent_key(bes, "expiresOn"@);
    crate::json::law_absent_key(bes, "note"@);
    let a = match gc.expires_on {
        Some(e) => base.set("expiresOn"@, JsonV::Str(e@)),
        None => base,
    };
    match gc.expires_on {
        Some(e) => {
            crate::json::law_set_then_get(base, "expiresOn"@, JsonV::Str(e@));
            crate::json::law_set_keeps_other_keys(base, "expiresOn"@, JsonV::Str(e@), "initialAmount"@);
            crate::json::law_set_keeps_other_keys(base, "expiresOn"@, JsonV::Str(e@), "note"@);
        },
        None => {},
    }
    let b = match gc.note {
        Some(n) => a.set("note"@, JsonV::Str(n@)),
        None => a,
    };
    match gc.note {
        Some(n) => {
            crate::json::law_set_then_get(a, "note"@, JsonV::Str(n@));
            crate::json::law_set_keeps_other_keys(a, "note"@, JsonV::Str(n@), "initialAmount"@);
            crate::json::law_set_keeps_other_keys(a, "note"@, JsonV::Str(n@), "expiresOn"@);
        },
        None => {},
    }
    match customer_id {
        Some(id) => {
            crate::json::law_set_keeps_other_keys(b, "customerId"@, JsonV::Str(id), "initialAmount"@);
            crate::json::law_set_keeps_other_keys(b, "customerId"@, JsonV::Str(id), "expiresOn"@);
            crate::json::law_set_keeps_other_keys(b, "customerId"@, JsonV::Str(id), "note"@);
        },
        None => {},
    }
}

} // verus!
