//! A JSON document model that the rest of the library reads and builds.
//!
//! `Json` is the executable value; its view `JsonV` is the mathematical value
//! that contracts speak of (strings become `Seq<char>`, arrays and objects become
//! sequences). Object lookups follow the first entry that carries a key.

use vstd::prelude::*;

verus! {

broadcast use vstd::std_specs::vec::group_vec_axioms;

/// One JSON value. Numbers are held as their decimal text, exactly as the
/// JSON document spells them.
pub enum Json {
    Null,
    Bool(bool),
    Number(String),
    Str(String),
    Array(Vec<Json>),
    Object(Vec<(String, Json)>),
}

/// The mathematical value of a `Json`.
pub enum JsonV {
    Null,
    Bool(bool),
    Number(Seq<char>),
    Str(Seq<char>),
    Array(Seq<JsonV>),
    Object(Seq<(Seq<char>, JsonV)>),
}

pub open spec fn json_view(j: Json) -> JsonV
    decreases j,
{
    match j {
        Json::Null => JsonV::Null,
        Json::Bool(b) => JsonV::Bool(b),
        Json::Number(s) => JsonV::Number(s@),
        Json::Str(s) => JsonV::Str(s@),
        Json::Array(v) => JsonV::Array(seq_view(v@)),
        Json::Object(es) => JsonV::Object(entries_view(es@)),
    }
}

pub open spec fn seq_view(s: Seq<Json>) -> Seq<JsonV>
    decreases s,
{
    if s.len() == 0 {
        Seq::empty()
    } else {
        proof {
            assert(decreases_to!(s => s.drop_last()));
        }
        seq_view(s.drop_last()).push(json_view(s.last()))
    }
}

pub open spec fn entries_view(es: Seq<(String, Json)>) -> Seq<(Seq<char>, JsonV)>
    decreases es,
{
    if es.len() == 0 {
        Seq::empty()
    } else {
        proof {
            assert(decreases_to!(es => es.drop_last()));
        }
        entries_view(es.drop_last()).push((es.last().0@, json_view(es.last().1)))
    }
}

impl View for Json {
    type V = JsonV;

    open spec fn view(&self) -> JsonV {
        json_view(*self)
    }
}


/// Viewing a sequence of values views each one in place.
pub proof fn lemma_seq_view(s: Seq<Json>)
    ensures
        seq_view(s).len() == s.len(),
        forall|i: int| 0 <= i < s.len() ==> #[trigger] seq_view(s)[i] == json_view(s[i]),
    decreases s.len(),
{
    if s.len() > 0 {
        lemma_seq_view(s.drop_last());
    }
}

/// Viewing object entries views each key and value in place.
pub proof fn lemma_entries_view(es: Seq<(String, Json)>)
    ensures
        entries_view(es).len() == es.len(),
        forall|i: int|
            0 <= i < es.len() ==> #[trigger] entries_view(es)[i] == (es[i].0@, json_view(es[i].1)),
    decreases es.len(),
{
    if es.len() > 0 {
        lemma_entries_view(es.drop_last());
    }
}

pub proof fn lemma_seq_view_push(s: Seq<Json>, j: Json)
    ensures
        seq_view(s.push(j)) == seq_view(s).push(json_view(j)),
{
    assert(s.push(j).drop_last() =~= s);
}

pub proof fn lemma_entries_view_push(es: Seq<(String, Json)>, e: (String, Json))
    ensures
        entries_view(es.push(e)) == entries_view(es).push((e.0@, json_view(e.1))),
{
    assert(es.push(e).drop_last() =~= es);
}

/// `i` is the first position of `s` that holds `k`.
pub open spec fn first_at(s: Seq<Seq<char>>, k: Seq<char>, i: int) -> bool {
    &&& 0 <= i < s.len()
    &&& s[i] == k
    &&& forall|j: int| 0 <= j < i ==> s[j] != k
}

/// The first position of `s` that holds `k`, if any.
#[verifier::opaque]
pub open spec fn first_pos(s: Seq<Seq<char>>, k: Seq<char>) -> Option<int> {
    if exists|i: int| 0 <= i < s.len() && s[i] == k {
        Some(choose|i: int| first_at(s, k, i))
    } else {
        None
    }
}

/// A front-to-back search that stops at `i` has found the first position.
pub proof fn lemma_first_pos_found(s: Seq<Seq<char>>, k: Seq<char>, i: int)
    requires
        first_at(s, k, i),
    ensures
        first_pos(s, k) == Some(i),
{
    reveal(first_pos);
    let w = choose|w: int| first_at(s, k, w);
    assert(first_at(s, k, i));
    if w < i {
        assert(s[w] != k);
    }
    if w > i {
        assert(s[i] != k);
    }
}

/// `k` does not occur.
pub proof fn lemma_first_pos_absent(s: Seq<Seq<char>>, k: Seq<char>)
    requires
        forall|j: int| 0 <= j < s.len() ==> s[j] != k,
    ensures
        first_pos(s, k) is None,
{
    reveal(first_pos);
}

/// What `first_pos` reports is a first position, or `k` is absent.
pub proof fn lemma_first_pos(s: Seq<Seq<char>>, k: Seq<char>)
    ensures
        match first_pos(s, k) {
            Some(i) => first_at(s, k, i),
            None => forall|j: int| 0 <= j < s.len() ==> s[j] != k,
        },
{
    reveal(first_pos);
    if exists|i: int| 0 <= i < s.len() && s[i] == k {
        let i0 = choose|i: int| 0 <= i < s.len() && s[i] == k;
        lemma_least(s, k, i0);
    }
}

proof fn lemma_least(s: Seq<Seq<char>>, k: Seq<char>, i: int)
    requires
        0 <= i < s.len(),
        s[i] == k,
    ensures
        exists|w: int| first_at(s, k, w),
    decreases i,
{
    if forall|j: int| 0 <= j < i ==> s[j] != k {
        assert(first_at(s, k, i));
    } else {
        let j = choose|j: int| 0 <= j < i && s[j] == k;
        lemma_least(s, k, j);
    }
}

/// The keys of a list of object entries, in order.
pub open spec fn keys_of(es: Seq<(Seq<char>, JsonV)>) -> Seq<Seq<char>> {
    Seq::new(es.len(), |i: int| es[i].0)
}

/// Position of the first entry whose key is `k`, if any.
pub open spec fn key_pos(es: Seq<(Seq<char>, JsonV)>, k: Seq<char>) -> Option<int> {
    first_pos(keys_of(es), k)
}

/// Entries with `k` bound to `v`: the first entry under `k` is replaced, or a
/// new entry is appended.
pub open spec fn entries_set(es: Seq<(Seq<char>, JsonV)>, k: Seq<char>, v: JsonV) -> Seq<
    (Seq<char>, JsonV),
> {
    match key_pos(es, k) {
        Some(i) => es.update(i, (k, v)),
        None => es.push((k, v)),
    }
}

impl JsonV {
    /// The value under `k`, when `self` is an object that holds the key.
    pub open spec fn get(self, k: Seq<char>) -> Option<JsonV> {
        match self {
            JsonV::Object(es) => match key_pos(es, k) {
                Some(i) => Some(es[i].1),
                None => None,
            },
            _ => None,
        }
    }

    /// `self[k]`: the value under `k`, or `Null` when there is none.
    pub open spec fn at(self, k: Seq<char>) -> JsonV {
        match self.get(k) {
            Some(v) => v,
            None => JsonV::Null,
        }
    }

    /// `self[k] = v` on an object (or on `Null`, which becomes an object):
    /// replaces the first entry under `k`, or appends a new one.
    pub open spec fn set(self, k: Seq<char>, v: JsonV) -> JsonV {
        match self {
            JsonV::Object(es) => JsonV::Object(entries_set(es, k, v)),
            _ => JsonV::Object(entries_set(Seq::empty(), k, v)),
        }
    }

    /// Removes the first entry under `k` from an object; anything else is unchanged.
    pub open spec fn remove(self, k: Seq<char>) -> JsonV {
        match self {
            JsonV::Object(es) => match key_pos(es, k) {
                Some(i) => JsonV::Object(es.remove(i)),
                None => self,
            },
            _ => self,
        }
    }

    /// The text of a string value.
    pub open spec fn as_str(self) -> Option<Seq<char>> {
        match self {
            JsonV::Str(s) => Some(s),
            _ => None,
        }
    }

    /// The items of an array value.
    pub open spec fn as_array(self) -> Option<Seq<JsonV>> {
        match self {
            JsonV::Array(a) => Some(a),
            _ => None,
        }
    }
}

/// Binding a key twice keeps only the second value.
pub proof fn lemma_set_set(j: JsonV, k: Seq<char>, v1: JsonV, v2: JsonV)
    ensures
        j.set(k, v1).set(k, v2) == j.set(k, v2),
{
    let es = match j {
        JsonV::Object(es) => es,
        _ => Seq::empty(),
    };
    lemma_first_pos(keys_of(es), k);
    match key_pos(es, k) {
        Some(i) => {
            let es1 = es.update(i, (k, v1));
            assert(keys_of(es1) =~= keys_of(es));
            assert(es1.update(i, (k, v2)) =~= es.update(i, (k, v2)));
        },
        None => {
            let es1 = es.push((k, v1));
            assert(keys_of(es1) =~= keys_of(es).push(k));
            lemma_first_pos_found(keys_of(es1), k, es.len() as int);
            assert(es1.update(es.len() as int, (k, v2)) =~= es.push((k, v2)));
        },
    }
}

/// Binding a key to the value it already holds changes nothing.
pub proof fn lemma_set_same(j: JsonV, k: Seq<char>, v: JsonV)
    requires
        j.get(k) == Some(v),
    ensures
        j.set(k, v) == j,
{
    let es = j->Object_0;
    lemma_first_pos(keys_of(es), k);
    let i = key_pos(es, k)->0;
    assert(es.update(i, (k, v)) =~= es);
}

pub open spec fn is_digit(c: char) -> bool {
    '0' <= c && c <= '9'
}

/// The natural number a string of decimal digits spells.
pub open spec fn digits_value(t: Seq<char>) -> nat
    decreases t.len(),
{
    if t.len() == 0 {
        0
    } else {
        digits_value(t.drop_last()) * 10 + ((t.last() as nat) - ('0' as nat)) as nat
    }
}

/// The `u64` a JSON number holds, when it is an unsigned integer that fits:
/// its text is a non-empty run of decimal digits.
pub open spec fn u64_of(j: JsonV) -> Option<u64> {
    match j {
        JsonV::Number(t) => if t.len() > 0 && (forall|i: int| 0 <= i < t.len() ==> is_digit(
            #[trigger] t[i],
        )) && digits_value(t) <= u64::MAX {
            Some(digits_value(t) as u64)
        } else {
            None
        },
        _ => None,
    }
}

/// The decimal digits of `n`, without leading zeros (`"0"` for zero).
pub open spec fn decimal(n: nat) -> Seq<char>
    decreases n,
{
    if n < 10 {
        seq![digit_char(n)]
    } else {
        decimal(n / 10).push(digit_char(n % 10))
    }
}

pub open spec fn digit_char(d: nat) -> char {
    if d == 0 { '0' } else if d == 1 { '1' } else if d == 2 { '2' } else if d == 3 { '3' }
    else if d == 4 { '4' } else if d == 5 { '5' } else if d == 6 { '6' } else if d == 7 { '7' }
    else if d == 8 { '8' } else { '9' }
}

fn digit_of(d: u64) -> (c: char)
    requires
        d < 10,
    ensures
        c == digit_char(d as nat),
{
    if d == 0 { '0' } else if d == 1 { '1' } else if d == 2 { '2' } else if d == 3 { '3' }
    else if d == 4 { '4' } else if d == 5 { '5' } else if d == 6 { '6' } else if d == 7 { '7' }
    else if d == 8 { '8' } else { '9' }
}

/// A longer run of digits is worth at least as much as its prefix.
pub proof fn lemma_digits_grow(t: Seq<char>, i: int)
    requires
        0 <= i <= t.len(),
    ensures
        digits_value(t.take(i)) <= digits_value(t),
    decreases t.len() - i,
{
    if i < t.len() {
        lemma_digits_grow(t, i + 1);
        assert(t.take(i + 1).drop_last() =~= t.take(i));
        let v = digits_value(t.take(i));
        let d = ((t.take(i + 1).last() as nat) - ('0' as nat)) as nat;
        assert(v <= v * 10 + d) by (nonlinear_arith);
    } else {
        assert(t.take(i) =~= t);
    }
}

/// `n.to_string()` for an unsigned integer.
pub fn u64_to_decimal(n: u64) -> (r: String)
    ensures
        r@ == decimal(n as nat),
    decreases n,
{
    if n < 10 {
        let mut s = String::new();
        crate::text::push_char(&mut s, digit_of(n));
        proof {
            assert(s@ =~= seq![digit_char(n as nat)]);
        }
        s
    } else {
        let mut s = u64_to_decimal(n / 10);
        crate::text::push_char(&mut s, digit_of(n % 10));
        s
    }
}

/// Equality of two string slices, compared character by character.
pub fn str_eq(a: &str, b: &str) -> (r: bool)
    ensures
        r == (a@ == b@),
{
    let ca = crate::text::chars_of(a);
    let cb = crate::text::chars_of(b);
    if ca.len() != cb.len() {
        return false;
    }
    let mut i: usize = 0;
    while i < ca.len()
        invariant
            i <= ca@.len(),
            ca@ == a@,
            cb@ == b@,
            ca@.len() == cb@.len(),
            forall|j: int| 0 <= j < i ==> ca@[j] == cb@[j],
        decreases ca@.len() - i,
    {
        if ca[i] != cb[i] {
            return false;
        }
        i = i + 1;
    }
    proof {
        assert(a@ =~= b@);
    }
    true
}

/// A fresh `String` with the characters of `s`.
pub fn owned(s: &str) -> (r: String)
    ensures
        r@ == s@,
{
    String::from_str(s)
}

impl Json {
    /// A string value holding the characters of `s`.
    pub fn text(s: &str) -> (r: Json)
        ensures
            r@ == JsonV::Str(s@),
    {
        Json::Str(owned(s))
    }

    /// An object with no entries.
    pub fn empty_object() -> (r: Json)
        ensures
            r@ == JsonV::Object(Seq::empty()),
    {
        let es: Vec<(String, Json)> = Vec::new();
        proof {
            lemma_entries_view(es@);
        }
        let r = Json::Object(es);
        assert(json_view(r) == JsonV::Object(entries_view(es@)));
        assert(entries_view(es@) =~= Seq::empty());
        r
    }

    /// A deep copy.
    #[verifier::loop_isolation(false)]
    pub fn duplicate(&self) -> (r: Json)
        ensures
            r@ == self@,
        decreases self,
    {
        match self {
            Json::Null => Json::Null,
            Json::Bool(b) => Json::Bool(*b),
            Json::Number(s) => Json::Number(s.clone()),
            Json::Str(s) => Json::Str(s.clone()),
            Json::Array(v) => {
                let mut out: Vec<Json> = Vec::new();
                let mut i: usize = 0;
                while i < v.len()
                    invariant
                        i <= v@.len(),
                        seq_view(out@) == seq_view(v@.take(i as int)),
                    decreases v@.len() - i,
                {
                    let c = v[i].duplicate();
                    proof {
                        lemma_seq_view_push(out@, c);
                        lemma_seq_view_push(v@.take(i as int), v@[i as int]);
                        assert(v@.take(i + 1) =~= v@.take(i as int).push(v@[i as int]));
                    }
                    out.push(c);
                    i = i + 1;
                }
                assert(v@.take(v@.len() as int) =~= v@);
                Json::Array(out)
            }
            Json::Object(es) => {
                let mut out: Vec<(String, Json)> = Vec::new();
                let mut i: usize = 0;
                while i < es.len()
                    invariant
                        i <= es@.len(),
                        entries_view(out@) == entries_view(es@.take(i as int)),
                    decreases es@.len() - i,
                {
                    let c = (es[i].0.clone(), es[i].1.duplicate());
                    proof {
                        lemma_entries_view_push(out@, c);
                        lemma_entries_view_push(es@.take(i as int), es@[i as int]);
                        assert(es@.take(i + 1) =~= es@.take(i as int).push(es@[i as int]));
                    }
                    out.push(c);
                    i = i + 1;
                }
                assert(es@.take(es@.len() as int) =~= es@);
                Json::Object(out)
            }
        }
    }

    /// `self.as_u64()`: the value of an unsigned integer number that fits.
    pub fn as_u64(&self) -> (r: Option<u64>)
        ensures
            r == u64_of(self@),
    {
        let t = match self {
            Json::Number(t) => t,
            _ => {
                return None;
            },
        };
        let cs = crate::text::chars_of(t.as_str());
        if cs.len() == 0 {
            return None;
        }
        let mut acc: u64 = 0;
        let mut i: usize = 0;
        while i < cs.len()
            invariant
                i <= cs@.len(),
                cs@ == t@,
                self@ == JsonV::Number(t@),
                acc as nat == digits_value(cs@.take(i as int)),
                forall|k: int| 0 <= k < i ==> is_digit(#[trigger] cs@[k]),
            decreases cs@.len() - i,
        {
            let c = cs[i];
            proof {
                assert(cs@.take(i + 1).drop_last() =~= cs@.take(i as int));
            }
            if !('0' <= c && c <= '9') {
                return None;
            }
            let d: u64 = ((c as u32) - ('0' as u32)) as u64;
            match acc.checked_mul(10) {
                Some(m) => match m.checked_add(d) {
                    Some(v) => {
                        acc = v;
                    },
                    None => {
                        proof {
                            lemma_digits_grow(cs@, i as int + 1);
                        }
                        return None;
                    },
                },
                None => {
                    proof {
                        lemma_digits_grow(cs@, i as int + 1);
                    }
                    return None;
                },
            }
            i = i + 1;
        }
        proof {
            assert(cs@.take(cs@.len() as int) =~= cs@);
        }
        Some(acc)
    }

    /// The position of the first entry under `key`, searching from the front.
    fn find_key(es: &Vec<(String, Json)>, key: &str) -> (r: Option<usize>)
        ensures
            match r {
                Some(i) => i < es@.len() && key_pos(entries_view(es@), key@) == Some(i as int),
                None => key_pos(entries_view(es@), key@) is None,
            },
    {
        proof {
            lemma_entries_view(es@);
        }
        let ghost ev = entries_view(es@);
        let mut i: usize = 0;
        while i < es.len()
            invariant
                i <= es@.len(),
                ev == entries_view(es@),
                ev.len() == es@.len(),
                forall|j: int| 0 <= j < ev.len() ==> #[trigger] ev[j] == (es@[j].0@, json_view(es@[j].1)),
                forall|j: int| 0 <= j < i ==> ev[j].0 != key@,
            decreases es@.len() - i,
        {
            if str_eq(es[i].0.as_str(), key) {
                proof {
                    lemma_first_pos_found(keys_of(ev), key@, i as int);
                }
                return Some(i);
            }
            i = i + 1;
        }
        proof {
            lemma_first_pos_absent(keys_of(ev), key@);
        }
        None
    }

    /// `self.get(key)`: the value under `key` when `self` is an object holding it.
    pub fn get(&self, key: &str) -> (r: Option<&Json>)
        ensures
            match r {
                Some(v) => self@.get(key@) == Some(v@),
                None => self@.get(key@) is None,
            },
    {
        match self {
            Json::Object(es) => {
                proof {
                    lemma_entries_view(es@);
                }
                match Self::find_key(es, key) {
                    Some(i) => Some(&es[i].1),
                    None => None,
                }
            }
            _ => None,
        }
    }

    /// `self[key]`, copied out: `Null` when there is no such entry.
    pub fn at(&self, key: &str) -> (r: Json)
        ensures
            r@ == self@.at(key@),
    {
        match self.get(key) {
            Some(v) => v.duplicate(),
            None => Json::Null,
        }
    }

    /// The text of a string value.
    pub fn as_str(&self) -> (r: Option<&String>)
        ensures
            match r {
                Some(s) => self@ == JsonV::Str(s@),
                None => self@.as_str() is None,
            },
    {
        match self {
            Json::Str(s) => Some(s),
            _ => None,
        }
    }

    /// `self[key]` as a string, when it is one.
    pub fn str_at(&self, key: &str) -> (r: Option<&String>)
        ensures
            match r {
                Some(s) => self@.at(key@) == JsonV::Str(s@),
                None => self@.at(key@).as_str() is None,
            },
    {
        match self.get(key) {
            Some(v) => v.as_str(),
            None => None,
        }
    }

    /// The items of an array value.
    pub fn as_array(&self) -> (r: Option<&Vec<Json>>)
        ensures
            match r {
                Some(a) => self@ == JsonV::Array(seq_view(a@)),
                None => self@.as_array() is None,
            },
    {
        match self {
            Json::Array(a) => Some(a),
            _ => None,
        }
    }

    pub fn is_object(&self) -> (r: bool)
        ensures
            r == self@ is Object,
    {
        match self {
            Json::Object(_) => true,
            _ => false,
        }
    }

    pub fn is_null(&self) -> (r: bool)
        ensures
            r == self@ is Null,
    {
        match self {
            Json::Null => true,
            _ => false,
        }
    }

    pub fn as_bool(&self) -> (r: Option<bool>)
        ensures
            r == (match self@ {
                JsonV::Bool(b) => Some(b),
                _ => None,
            }),
    {
        match self {
            Json::Bool(b) => Some(*b),
            _ => None,
        }
    }

    /// Binds `key` to `v` in a list of object entries.
    fn entries_insert(es: &mut Vec<(String, Json)>, key: String, v: Json)
        ensures
            entries_view(final(es)@) == entries_set(entries_view(old(es)@), key@, v@),
    {
        proof {
            lemma_entries_view(es@);
        }
        let ghost old_es = es@;
        match Self::find_key(es, key.as_str()) {
            Some(i) => {
                let k = es[i].0.clone();
                proof {
                    lemma_entries_view(old_es);
                    lemma_first_pos(keys_of(entries_view(old_es)), key@);
                }
                es.set(i, (k, v));
                proof {
                    lemma_entries_view(es@);
                    assert(entries_view(es@) =~= entries_view(old_es).update(
                        i as int,
                        (key@, json_view(v)),
                    ));
                }
            }
            None => {
                es.push((key, v));
                proof {
                    lemma_entries_view_push(old_es, (key, v));
                }
            }
        }
    }

    /// `self[key] = v` on an object or on `Null` (which becomes an object).
    pub fn set(&mut self, key: String, v: Json)
        requires
            old(self)@ is Object || old(self)@ is Null,
        ensures
            final(self)@ == old(self)@.set(key@, v@),
    {
        match self {
            Json::Object(es) => {
                Self::entries_insert(es, key, v);
            }
            _ => {
                let mut es: Vec<(String, Json)> = Vec::new();
                proof {
                    assert(entries_view(es@) =~= Seq::empty());
                }
                Self::entries_insert(&mut es, key, v);
                *self = Json::Object(es);
            }
        }
    }

    /// Takes the value under `key` out of an object, leaving `Null` in its place.
    pub fn take(&mut self, key: &str) -> (r: Option<Json>)
        ensures
            match r {
                Some(v) => old(self)@.get(key@) == Some(v@) && final(self)@ == old(self)@.set(
                    key@,
                    JsonV::Null,
                ),
                None => old(self)@.get(key@) is None && final(self)@ == old(self)@,
            },
    {
        match self {
            Json::Object(es) => {
                proof {
                    lemma_entries_view(es@);
                }
                let ghost old_es = es@;
                match Self::find_key(es, key) {
                    Some(i) => {
                        let (k, v) = es.remove(i);
                        es.insert(i, (k, Json::Null));
                        proof {
                            lemma_entries_view(es@);
                            lemma_entries_view(old_es);
                            lemma_first_pos(keys_of(entries_view(old_es)), key@);
                            assert(es@ =~= old_es.update(i as int, (k, Json::Null)));
                            assert(entries_view(es@) =~= entries_view(old_es).update(
                                i as int,
                                (key@, JsonV::Null),
                            ));
                        }
                        Some(v)
                    }
                    None => None,
                }
            }
            _ => None,
        }
    }

    /// Removes the entry under `key` from an object and returns its value.
    pub fn remove(&mut self, key: &str) -> (r: Option<Json>)
        ensures
            final(self)@ == old(self)@.remove(key@),
            match r {
                Some(v) => old(self)@.get(key@) == Some(v@),
                None => old(self)@.get(key@) is None,
            },
    {
        match self {
            Json::Object(es) => {
                proof {
                    lemma_entries_view(es@);
                }
                let ghost old_es = es@;
                match Self::find_key(es, key) {
                    Some(i) => {
                        let (_, v) = es.remove(i);
                        proof {
                            lemma_entries_view(es@);
                            assert(entries_view(es@) =~= entries_view(old_es).remove(i as int));
                        }
                        Some(v)
                    }
                    None => None,
                }
            }
            _ => None,
        }
    }
}


/// An optional string as a JSON value: its text, or `null`.
pub open spec fn opt_text_v(o: Option<String>) -> JsonV {
    match o {
        Some(s) => JsonV::Str(s@),
        None => JsonV::Null,
    }
}

/// A list of strings as a JSON array of strings.
pub open spec fn texts_v(v: Seq<String>) -> JsonV {
    JsonV::Array(v.map_values(|s: String| JsonV::Str(s@)))
}

/// An optional list of strings: the array, or `null`.
pub open spec fn opt_texts_v(o: Option<Vec<String>>) -> JsonV {
    match o {
        Some(v) => texts_v(v@),
        None => JsonV::Null,
    }
}

/// An optional boolean: the boolean, or `null`.
pub open spec fn opt_bool_v(o: Option<bool>) -> JsonV {
    match o {
        Some(b) => JsonV::Bool(b),
        None => JsonV::Null,
    }
}

/// An object entry: a key and its value.
pub fn entry(key: &str, v: Json) -> (r: (String, Json))
    ensures
        r.0@ == key@,
        r.1 == v,
{
    (owned(key), v)
}

impl Json {
    /// `json!(o)` for an optional string.
    pub fn opt_text(o: &Option<String>) -> (r: Json)
        ensures
            r@ == opt_text_v(*o),
    {
        match o {
            Some(s) => Json::Str(s.clone()),
            None => Json::Null,
        }
    }

    /// `json!(v)` for a list of strings.
    pub fn texts(v: &Vec<String>) -> (r: Json)
        ensures
            r@ == texts_v(v@),
    {
        let mut out: Vec<Json> = Vec::new();
        let mut i: usize = 0;
        while i < v.len()
            invariant
                i <= v@.len(),
                seq_view(out@) == v@.take(i as int).map_values(|s: String| JsonV::Str(s@)),
            decreases v@.len() - i,
        {
            let item = Json::Str(v[i].clone());
            proof {
                lemma_seq_view_push(out@, item);
                assert(v@.take(i + 1).map_values(|s: String| JsonV::Str(s@)) =~= v@.take(
                    i as int,
                ).map_values(|s: String| JsonV::Str(s@)).push(JsonV::Str(v@[i as int]@)));
            }
            out.push(item);
            i = i + 1;
        }
        assert(v@.take(v@.len() as int) =~= v@);
        Json::Array(out)
    }

    /// `json!(o)` for an optional list of strings.
    pub fn opt_texts(o: &Option<Vec<String>>) -> (r: Json)
        ensures
            r@ == opt_texts_v(*o),
    {
        match o {
            Some(v) => Json::texts(v),
            None => Json::Null,
        }
    }

    /// `json!(o)` for an optional boolean.
    pub fn opt_bool(o: Option<bool>) -> (r: Json)
        ensures
            r@ == opt_bool_v(o),
    {
        match o {
            Some(b) => Json::Bool(b),
            None => Json::Null,
        }
    }
}

/// The values of the `Some` items, in order.
pub open spec fn filter_some(s: Seq<Option<JsonV>>) -> Seq<JsonV>
    decreases s.len(),
{
    if s.len() == 0 {
        Seq::empty()
    } else {
        let r = filter_some(s.drop_last());
        match s.last() {
            Some(v) => r.push(v),
            None => r,
        }
    }
}

pub proof fn lemma_filter_some_push(s: Seq<Option<JsonV>>, x: Option<JsonV>)
    ensures
        filter_some(s.push(x)) == (match x {
            Some(v) => filter_some(s).push(v),
            None => filter_some(s),
        }),
{
    assert(s.push(x).drop_last() =~= s);
}

/// The keys of a path, as character sequences.
pub open spec fn path_view(path: Seq<&str>) -> Seq<Seq<char>> {
    path.map_values(|s: &str| s@)
}

/// `j[k] = ..` can be done: `j` is an object, or `null` (which becomes one).
pub open spec fn settable(j: JsonV) -> bool {
    j is Object || j is Null
}

/// Every value along `path`, from `j` down to the last one indexed, can have a
/// key set.
pub open spec fn path_settable(j: JsonV, path: Seq<Seq<char>>) -> bool
    decreases path.len(),
{
    path.len() == 0 || (settable(j) && path_settable(j.at(path[0]), path.skip(1)))
}

/// `j[p0][p1]..[pn] = v`.
pub open spec fn set_path_v(j: JsonV, path: Seq<Seq<char>>, v: JsonV) -> JsonV
    decreases path.len(),
{
    if path.len() == 0 {
        v
    } else {
        j.set(path[0], set_path_v(j.at(path[0]), path.skip(1), v))
    }
}

impl Json {
    /// `self[path[from]]..[path[last]] = v`, creating objects in place of
    /// `null` along the way.
    pub fn set_path(&mut self, path: &[&str], from: usize, v: Json)
        requires
            from <= path@.len(),
            path_settable(old(self)@, path_view(path@).skip(from as int)),
        ensures
            final(self)@ == set_path_v(old(self)@, path_view(path@).skip(from as int), v@),
        decreases path@.len() - from,
    {
        let ghost pv = path_view(path@).skip(from as int);
        if from == path.len() {
            *self = v;
            return;
        }
        let key = path[from];
        proof {
            assert(pv[0] == key@);
            assert(pv.skip(1) =~= path_view(path@).skip(from + 1));
        }
        let ghost orig = self@;
        let mut child = match self.take(key) {
            Some(c) => c,
            None => Json::Null,
        };
        proof {
            if orig.get(key@) is Some {
                lemma_set_set(orig, key@, JsonV::Null, set_path_v(orig.at(key@), pv.skip(1), v@));
            }
        }
        child.set_path(path, from + 1, v);
        self.set(owned(key), child);
    }
}

/// Every value along any path from `null` can have a key set.
pub proof fn lemma_null_path_settable(path: Seq<Seq<char>>)
    ensures
        path_settable(JsonV::Null, path),
    decreases path.len(),
{
    if path.len() > 0 {
        lemma_null_path_settable(path.skip(1));
    }
}

impl Json {
    /// Whether `self[path[from]]..[path[last]] = v` can be done (see
    /// [`path_settable`]).
    pub fn path_settable_from(&self, path: &[&str], from: usize) -> (b: bool)
        requires
            from <= path@.len(),
        ensures
            b == path_settable(self@, path_view(path@).skip(from as int)),
        decreases path@.len() - from,
    {
        let ghost pv = path_view(path@).skip(from as int);
        if from == path.len() {
            return true;
        }
        let key = path[from];
        proof {
            assert(pv[0] == key@);
            assert(pv.skip(1) =~= path_view(path@).skip(from + 1));
        }
        if !(self.is_object() || self.is_null()) {
            return false;
        }
        match self.get(key) {
            Some(c) => c.path_settable_from(path, from + 1),
            None => {
                proof {
                    lemma_null_path_settable(pv.skip(1));
                }
                true
            },
        }
    }
}

/// In an object whose `i`-th entry is the first under its key, reading that
/// key gives the entry's value.
pub proof fn lemma_get_entry(es: Seq<(Seq<char>, JsonV)>, i: int)
    requires
        0 <= i < es.len(),
        forall|j: int| 0 <= j < i ==> (#[trigger] es[j]).0 != es[i].0,
    ensures
        JsonV::Object(es).get(es[i].0) == Some(es[i].1),
{
    let ks = keys_of(es);
    assert forall|j: int| 0 <= j < i implies ks[j] != es[i].0 by {
        assert(ks[j] == es[j].0);
    }
    lemma_first_pos_found(ks, es[i].0, i);
}

/// Reading a key back after setting it gives the value set.
pub proof fn law_set_then_get(j: JsonV, k: Seq<char>, v: JsonV)
    requires
        settable(j),
    ensures
        j.set(k, v).get(k) == Some(v),
{
    let es = match j {
        JsonV::Object(es) => es,
        _ => Seq::empty(),
    };
    lemma_first_pos(keys_of(es), k);
    match key_pos(es, k) {
        Some(i) => {
            let es1 = es.update(i, (k, v));
            assert(keys_of(es1) =~= keys_of(es));
        },
        None => {
            let es1 = es.push((k, v));
            assert(keys_of(es1) =~= keys_of(es).push(k));
            lemma_first_pos_found(keys_of(es1), k, es.len() as int);
        },
    }
}

/// Setting one key leaves what every other key reads unchanged.
pub proof fn law_set_keeps_other_keys(j: JsonV, k: Seq<char>, v: JsonV, other: Seq<char>)
    requires
        j is Object,
        other != k,
    ensures
        j.set(k, v).get(other) == j.get(other),
{
    let es = j->Object_0;
    lemma_first_pos(keys_of(es), k);
    lemma_first_pos(keys_of(es), other);
    match key_pos(es, k) {
        Some(i) => {
            let es1 = es.update(i, (k, v));
            assert(keys_of(es1) =~= keys_of(es).update(i, k));
            lemma_first_pos(keys_of(es1), other);
            match key_pos(es, other) {
                Some(o) => {
                    assert(first_at(keys_of(es1), other, o));
                    lemma_first_pos_found(keys_of(es1), other, o);
                },
                None => {
                    lemma_first_pos_absent(keys_of(es1), other);
                },
            }
        },
        None => {
            let es1 = es.push((k, v));
            assert(keys_of(es1) =~= keys_of(es).push(k));
            match key_pos(es, other) {
                Some(o) => {
                    assert(first_at(keys_of(es1), other, o));
                    lemma_first_pos_found(keys_of(es1), other, o);
                },
                None => {
                    lemma_first_pos_absent(keys_of(es1), other);
                },
            }
        },
    }
}

/// An object none of whose keys is `k` holds nothing under `k`.
pub proof fn law_absent_key(es: Seq<(Seq<char>, JsonV)>, k: Seq<char>)
    requires
        forall|j: int| 0 <= j < es.len() ==> (#[trigger] es[j]).0 != k,
    ensures
        JsonV::Object(es).get(k) is None,
{
    assert forall|j: int| 0 <= j < keys_of(es).len() implies keys_of(es)[j] != k by {
        assert(keys_of(es)[j] == es[j].0);
    }
    lemma_first_pos_absent(keys_of(es), k);
}

/// Each value `filter_some` keeps is the value of one of the items.
pub proof fn lemma_filter_some_member(s: Seq<Option<JsonV>>, i: int)
    requires
        0 <= i < filter_some(s).len(),
    ensures
        exists|j: int| 0 <= j < s.len() && s[j] == Some(#[trigger] filter_some(s)[i]),
    decreases s.len(),
{
    let r = filter_some(s.drop_last());
    if i < r.len() {
        lemma_filter_some_member(s.drop_last(), i);
        let j = choose|j: int| 0 <= j < s.drop_last().len() && s.drop_last()[j] == Some(r[i]);
        assert(s[j] == Some(filter_some(s)[i]));
    } else {
        assert(s[s.len() - 1] == Some(filter_some(s)[i]));
    }
}

/// No two entries share a key, as in every object a JSON parser yields.
pub open spec fn unique_keys(es: Seq<(Seq<char>, JsonV)>) -> bool {
    forall|i: int, j: int| 0 <= i < j < es.len() ==> es[i].0 != es[j].0
}

/// Removing a key from an object whose keys are distinct leaves nothing under
/// it.
pub proof fn law_remove_then_get(j: JsonV, k: Seq<char>)
    requires
        j is Object,
        unique_keys(j->Object_0),
    ensures
        j.remove(k).get(k) is None,
{
    let es = j->Object_0;
    lemma_first_pos(keys_of(es), k);
    match key_pos(es, k) { Some(i) => {
        let es1 = es.remove(i);
        assert forall|q: int| 0 <= q < keys_of(es1).len() implies keys_of(es1)[q] != k by {
            if q < i {
                assert(keys_of(es1)[q] == es[q].0);
            } else {
                assert(keys_of(es1)[q] == es[q + 1].0);
                assert(es[i].0 != es[q + 1].0);
            }
        }
        lemma_first_pos_absent(keys_of(es1), k);
    }, None => {} }
}

/// Removing one key leaves what every other key reads unchanged.
pub proof fn law_remove_keeps_other_keys(j: JsonV, k: Seq<char>, other: Seq<char>)
    requires
        j is Object,
        other != k,
    ensures
        j.remove(k).get(other) == j.get(other),
{
    let es = j->Object_0;
    lemma_first_pos(keys_of(es), k);
    lemma_first_pos(keys_of(es), other);
    match key_pos(es, k) { Some(i) => {
        let es1 = es.remove(i);
        match key_pos(es, other) {
            Some(o) => {
                let o1 = if o < i {
                    o
                } else {
                    o - 1
                };
                assert(o != i);
                assert(keys_of(es1)[o1] == other);
                assert forall|q: int| 0 <= q < o1 implies keys_of(es1)[q] != other by {
                    if q < i {
                        assert(keys_of(es1)[q] == es[q].0);
                        assert(keys_of(es)[q] == es[q].0);
                    } else {
                        assert(keys_of(es1)[q] == es[q + 1].0);
                        assert(keys_of(es)[q + 1] == es[q + 1].0);
                    }
                }
                lemma_first_pos_found(keys_of(es1), other, o1);
                assert(es1[o1] == es[o]);
            },
            None => {
                assert forall|q: int| 0 <= q < keys_of(es1).len() implies keys_of(es1)[q] != other by {
                    if q < i {
                        assert(keys_of(es1)[q] == es[q].0);
                        assert(keys_of(es)[q] == es[q].0);
                    } else {
                        assert(keys_of(es1)[q] == es[q + 1].0);
                        assert(keys_of(es)[q + 1] == es[q + 1].0);
                    }
                }
                lemma_first_pos_absent(keys_of(es1), other);
            },
        }
    }, None => {} }
}

/// Removing a key keeps the keys distinct.
pub proof fn lemma_remove_unique(j: JsonV, k: Seq<char>)
    requires
        j is Object,
        unique_keys(j->Object_0),
    ensures
        j.remove(k) is Object,
        unique_keys(j.remove(k)->Object_0),
{
    let es = j->Object_0;
    lemma_first_pos(keys_of(es), k);
    match key_pos(es, k) { Some(i) => {
        let es1 = es.remove(i);
        assert forall|a: int, b: int| 0 <= a < b < es1.len() implies es1[a].0 != es1[b].0 by {
            let a0 = if a < i {
                a
            } else {
                a + 1
            };
            let b0 = if b < i {
                b
            } else {
                b + 1
            };
            assert(es1[a] == es[a0]);
            assert(es1[b] == es[b0]);
        }
    }, None => {} }
}

/// Setting a key keeps the keys distinct.
pub proof fn lemma_set_unique(j: JsonV, k: Seq<char>, v: JsonV)
    requires
        j is Object,
        unique_keys(j->Object_0),
    ensures
        j.set(k, v) is Object,
        unique_keys(j.set(k, v)->Object_0),
{
    let es = j->Object_0;
    lemma_first_pos(keys_of(es), k);
    match key_pos(es, k) {
        Some(i) => {
            let es1 = es.update(i, (k, v));
            assert forall|a: int, b: int| 0 <= a < b < es1.len() implies es1[a].0 != es1[b].0 by {
                assert(es1[a].0 == es[a].0);
                assert(es1[b].0 == es[b].0);
            }
        },
        None => {
            let es1 = es.push((k, v));
            assert forall|a: int, b: int| 0 <= a < b < es1.len() implies es1[a].0 != es1[b].0 by {
                if b == es.len() {
                    assert(keys_of(es)[a] != k);
                }
            }
        },
    }
}

} // verus!
