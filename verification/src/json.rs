//! A JSON value as the library reads it: tool-call arguments, statblocks,
//! Foundry records and expected tool inputs.
//!
//! Numbers keep the three readings the logic makes of a JSON number: as an
//! unsigned integer, as a signed integer, and as a double (by its IEEE-754
//! bit pattern, negative zero folded into zero, so that equal doubles have
//! equal bits).

use vstd::prelude::*;
use crate::text::{eq_ignore_case, eq_ignore_case_exec, str_eq};

verus! {

/// A JSON number, by the three readings the logic makes of it.
#[derive(Debug, Clone, Copy, PartialEq, Eq)]
pub struct JsonNumber {
    /// `serde_json::Value::as_u64`.
    pub as_u64: Option<u64>,
    /// `serde_json::Value::as_i64`.
    pub as_i64: Option<i64>,
    /// Bits of `serde_json::Value::as_f64`, with `-0.0` stored as `0.0`.
    pub f64_bits: u64,
}

/// A JSON value; an object keeps its entries in order, keys distinct.
#[derive(Debug)]
pub enum Json {
    Null,
    Bool(bool),
    Number(JsonNumber),
    String(String),
    Array(Vec<Json>),
    Object(Vec<(String, Json)>),
}

pub open spec fn two_pow(e: nat) -> nat
    decreases e,
{
    if e == 0 {
        1
    } else {
        2 * two_pow((e - 1) as nat)
    }
}

pub open spec fn log2_floor(m: nat) -> nat
    decreases m,
{
    if m <= 1 {
        0
    } else {
        1 + log2_floor(m / 2)
    }
}

/// The IEEE-754 double bits of an integer of magnitude below 2^53 (such
/// integers are doubles exactly): sign, biased exponent, fraction.
pub open spec fn int_f64_bits(n: int) -> int {
    if n == 0 {
        0
    } else {
        let m: nat = if n < 0 { (-n) as nat } else { n as nat };
        let e = log2_floor(m);
        (if n < 0 { 0x8000_0000_0000_0000int } else { 0int }) + (1023 + e) * 0x10_0000_0000_0000int + (m
            - two_pow(e)) * two_pow((52 - e) as nat)
    }
}

proof fn lemma_two_pow_log2(m: nat, e: nat)
    requires
        two_pow(e) <= m < 2 * two_pow(e),
    ensures
        log2_floor(m) == e,
    decreases e,
{
    if e > 0 {
        assert(two_pow(e) == 2 * two_pow((e - 1) as nat));
        assert(two_pow((e - 1) as nat) <= m / 2 < 2 * two_pow((e - 1) as nat));
        lemma_two_pow_log2(m / 2, (e - 1) as nat);
    } else {
        assert(m <= 1);
    }
}

impl JsonNumber {
    /// The number `n`, for `|n| < 2^53` (where doubles are exact).
    pub fn from_i64(n: i64) -> (r: JsonNumber)
        requires
            -0x20_0000_0000_0000 < n < 0x20_0000_0000_0000,
        ensures
            r.as_i64 == Some(n),
            r.as_u64 == (if n >= 0 { Some(n as u64) } else { None::<u64> }),
            r.f64_bits as int == int_f64_bits(n as int),
    {
        let bits: u64 = if n == 0 {
            0
        } else {
            let m: u64 = if n < 0 {
                (-n) as u64
            } else {
                n as u64
            };
            let mut e: u64 = 0;
            let mut p: u64 = 1;
            while p <= m / 2
                invariant
                    1 <= m < 0x20_0000_0000_0000,
                    p as nat == two_pow(e as nat),
                    1 <= p <= m,
                    e <= 52,
                    p <= 0x10_0000_0000_0000,
                decreases m - p,
            {
                assert(two_pow((e + 1) as nat) == 2 * two_pow(e as nat));
                p = p * 2;
                e = e + 1;
                assert(p <= m);
                proof {
                    lemma_two_pow_values();
                    if e > 52 {
                        lemma_two_pow_mono(53, e as nat);
                    }
                    lemma_two_pow_mono(e as nat, 52);
                }
            }
            proof {
                lemma_two_pow_log2(m as nat, e as nat);
            }
            proof {
                lemma_two_pow_values();
            }
            let mut mant: u64 = m - p;
            let mut k: u64 = e;
            assert(mant as nat == (m - p) * two_pow((k - e) as nat)) by {
                assert((k - e) as nat == 0);
                assert(two_pow(0) == 1);
                let d = (m - p) as int;
                assert(d * 1 == d);
            }
            while k < 52
                invariant
                    e <= k <= 52,
                    mant as nat == (m - p) * two_pow((k - e) as nat),
                    mant < two_pow(k as nat),
                    p as nat == two_pow(e as nat),
                    m < 2 * p,
                    two_pow(52) == 0x10_0000_0000_0000,
                decreases 52 - k,
            {
                assert(two_pow((k + 1 - e) as nat) == 2 * two_pow((k - e) as nat));
                assert(two_pow((k + 1) as nat) == 2 * two_pow(k as nat));
                proof {
                    lemma_two_pow_mono((k + 1) as nat, 52);
                    let x = two_pow((k - e) as nat);
                    let d = (m - p) as int;
                    assert(d * (2 * x) == 2 * (d * x)) by (nonlinear_arith);
                }
                mant = mant * 2;
                k = k + 1;
            }
            let sign: u64 = if n < 0 {
                0x8000_0000_0000_0000
            } else {
                0
            };
            sign + (1023 + e) * 0x10_0000_0000_0000 + mant
        };
        JsonNumber {
            as_u64: if n >= 0 {
                Some(n as u64)
            } else {
                None
            },
            as_i64: Some(n),
            f64_bits: bits,
        }
    }
}

proof fn lemma_two_pow_values()
    ensures
        two_pow(31) == 0x8000_0000,
        two_pow(52) == 0x10_0000_0000_0000,
        two_pow(53) == 0x20_0000_0000_0000,
{
    reveal_with_fuel(two_pow, 54);
}

proof fn lemma_two_pow_mono(a: nat, b: nat)
    requires
        a <= b,
    ensures
        two_pow(a) <= two_pow(b),
    decreases b,
{
    if a < b {
        lemma_two_pow_mono(a, (b - 1) as nat);
    }
}


/// A JSON value as mathematics: texts as char sequences.
pub enum JsonV {
    Null,
    Bool(bool),
    Number(JsonNumber),
    Str(Seq<char>),
    Array(Seq<JsonV>),
    Object(Seq<(Seq<char>, JsonV)>),
}

pub open spec fn jv(j: Json) -> JsonV
    decreases j,
{
    match j {
        Json::Null => JsonV::Null,
        Json::Bool(b) => JsonV::Bool(b),
        Json::Number(n) => JsonV::Number(n),
        Json::String(s) => JsonV::Str(s@),
        Json::Array(xs) => JsonV::Array(
            Seq::new(
                xs@.len(),
                |i: int|
                    if 0 <= i < xs@.len() {
                        jv(xs@[i])
                    } else {
                        JsonV::Null
                    },
            ),
        ),
        Json::Object(es) => JsonV::Object(
            Seq::new(
                es@.len(),
                |i: int|
                    if 0 <= i < es@.len() {
                        (es@[i].0@, jv(es@[i].1))
                    } else {
                        (Seq::empty(), JsonV::Null)
                    },
            ),
        ),
    }
}

impl View for Json {
    type V = JsonV;

    open spec fn view(&self) -> JsonV {
        jv(*self)
    }
}

/// Index of the first entry at or after `i` whose key is `k`.
pub open spec fn obj_find(es: Seq<(Seq<char>, JsonV)>, k: Seq<char>, i: int) -> Option<int>
    decreases es.len() - i,
{
    if i < 0 || i >= es.len() {
        None
    } else if es[i].0 == k {
        Some(i)
    } else {
        obj_find(es, k, i + 1)
    }
}

/// `serde_json::Value::get(key)`: the value under `k` in an object.
pub open spec fn json_get(j: JsonV, k: Seq<char>) -> Option<JsonV> {
    match j {
        JsonV::Object(es) => match obj_find(es, k, 0) {
            Some(i) => Some(es[i].1),
            None => None,
        },
        _ => None,
    }
}

/// `serde_json::Value::as_str`.
pub open spec fn json_as_str(j: JsonV) -> Option<Seq<char>> {
    match j {
        JsonV::Str(s) => Some(s),
        _ => None,
    }
}

/// `serde_json::Value::as_i64`.
pub open spec fn json_as_i64(j: JsonV) -> Option<i64> {
    match j {
        JsonV::Number(n) => n.as_i64,
        _ => None,
    }
}

/// `serde_json::Value::as_u64`.
pub open spec fn json_as_u64(j: JsonV) -> Option<u64> {
    match j {
        JsonV::Number(n) => n.as_u64,
        _ => None,
    }
}

impl Json {
    /// The value under `key`, when `self` is an object that has one.
    pub fn get(&self, key: &str) -> (r: Option<&Json>)
        ensures
            match r {
                Some(v) => json_get(self@, key@) == Some(v@),
                None => json_get(self@, key@) is None,
            },
    {
        match self {
            Json::Object(es) => {
                let ghost ev = match self@ {
                    JsonV::Object(e) => e,
                    _ => Seq::empty(),
                };
                assert(ev.len() == es@.len());
                let mut i: usize = 0;
                while i < es.len()
                    invariant
                        i <= es@.len(),
                        *self == Json::Object(*es),
                        self@ == JsonV::Object(ev),
                        ev.len() == es@.len(),
                        forall|j: int| 0 <= j < es@.len() ==> #[trigger] ev[j] == (es@[j].0@, jv(es@[j].1)),
                        obj_find(ev, key@, 0) == obj_find(ev, key@, i as int),
                    decreases es@.len() - i,
                {
                    assert(ev[i as int] == (es@[i as int].0@, jv(es@[i as int].1)));
                    if str_eq(es[i].0.as_str(), key) {
                        assert(ev[i as int].0 == key@);
                        assert(obj_find(ev, key@, i as int) == Some(i as int));
                        assert(self@ == JsonV::Object(ev));
                        assert(json_get(self@, key@) == Some(ev[i as int].1));
                        let r = &es[i].1;
                        assert(r@ == jv(es@[i as int].1));
                        return Some(r);
                    }
                    i = i + 1;
                }
                None
            },
            _ => None,
        }
    }

    pub fn as_str(&self) -> (r: Option<&str>)
        ensures
            match r {
                Some(s) => json_as_str(self@) == Some(s@),
                None => json_as_str(self@) is None,
            },
    {
        match self {
            Json::String(s) => Some(s.as_str()),
            _ => None,
        }
    }

    pub fn as_i64(&self) -> (r: Option<i64>)
        ensures
            r == json_as_i64(self@),
    {
        match self {
            Json::Number(n) => n.as_i64,
            _ => None,
        }
    }

    pub fn as_u64(&self) -> (r: Option<u64>)
        ensures
            r == json_as_u64(self@),
    {
        match self {
            Json::Number(n) => n.as_u64,
            _ => None,
        }
    }

    pub fn is_object(&self) -> (r: bool)
        ensures
            r == (self@ is Object),
    {
        match self {
            Json::Object(_) => true,
            _ => false,
        }
    }

    /// A copy of this value.
    pub fn deep_clone(&self) -> (r: Json)
        ensures
            r@ == self@,
        decreases *self,
    {
        match self {
            Json::Null => Json::Null,
            Json::Bool(b) => Json::Bool(*b),
            Json::Number(n) => Json::Number(*n),
            Json::String(s) => Json::String(s.clone()),
            Json::Array(xs) => {
                let mut out: Vec<Json> = Vec::new();
                let mut i: usize = 0;
                while i < xs.len()
                    invariant
                        i <= xs@.len(),
                        *self == Json::Array(*xs),
                        out@.len() == i,
                        forall|j: int| 0 <= j < i ==> #[trigger] jv(out@[j]) == jv(xs@[j]),
                    decreases xs@.len() - i,
                {
                    proof {
                        assert(decreases_to!(*self => self->Array_0));
                        assert(decreases_to!(self->Array_0 => self->Array_0[i as int]));
                    }
                    let c = xs[i].deep_clone();
                    out.push(c);
                    i = i + 1;
                }
                let r = Json::Array(out);
                proof {
                    let sa = jv(r)->Array_0;
                    let sb = jv(*self)->Array_0;
                    assert(sa.len() == sb.len());
                    assert forall|j: int| 0 <= j < sa.len() implies sa[j] == sb[j] by {
                        assert(sa[j] == jv(r->Array_0@[j]));
                    }
                    assert(sa =~= sb);
                }
                r
            },
            Json::Object(es) => {
                let mut out: Vec<(String, Json)> = Vec::new();
                let mut i: usize = 0;
                while i < es.len()
                    invariant
                        i <= es@.len(),
                        *self == Json::Object(*es),
                        out@.len() == i,
                        forall|j: int|
                            0 <= j < i ==> #[trigger] out@[j].0@ == es@[j].0@ && jv(out@[j].1) == jv(
                                es@[j].1,
                            ),
                    decreases es@.len() - i,
                {
                    proof {
                        assert(decreases_to!(*self => self->Object_0));
                        assert(decreases_to!(self->Object_0 => self->Object_0[i as int]));
                        assert(decreases_to!(self->Object_0[i as int] => self->Object_0[i as int].1));
                    }
                    let k = es[i].0.clone();
                    let v = es[i].1.deep_clone();
                    let ghost before = out@;
                    out.push((k, v));
                    proof {
                        assert forall|j: int| 0 <= j < i + 1 implies #[trigger] out@[j].0@ == es@[j].0@ && jv(
                            out@[j].1,
                        ) == jv(es@[j].1) by {
                            if j < i {
                                assert(out@[j] == before[j]);
                            }
                        }
                    }
                    i = i + 1;
                }
                let r = Json::Object(out);
                proof {
                    let sa = jv(r)->Object_0;
                    let sb = jv(*self)->Object_0;
                    assert(sa.len() == sb.len());
                    assert forall|j: int| 0 <= j < sa.len() implies sa[j] == sb[j] by {
                        assert(sa[j] == (r->Object_0@[j].0@, jv(r->Object_0@[j].1)));
                    }
                    assert(sa =~= sb);
                }
                r
            },
        }
    }
}

/// The mathematical entries of an object's entry list.
pub open spec fn entries_view(es: Seq<(String, Json)>) -> Seq<(Seq<char>, JsonV)> {
    es.map_values(|e: (String, Json)| (e.0@, jv(e.1)))
}

/// The mathematical elements of an array's element list.
pub open spec fn items_view(xs: Seq<Json>) -> Seq<JsonV> {
    xs.map_values(|x: Json| jv(x))
}

/// The keys of an object, in order; empty for any other value.
pub open spec fn obj_keys(j: JsonV) -> Seq<Seq<char>> {
    match j {
        JsonV::Object(es) => es.map_values(|e: (Seq<char>, JsonV)| e.0),
        _ => Seq::empty(),
    }
}

/// A JSON string holding `s`.
pub fn jstr(s: &str) -> (j: Json)
    ensures
        j@ == JsonV::Str(s@),
{
    Json::String(s.to_owned())
}

/// A JSON object with the given entries, in order.
pub fn jobj(entries: Vec<(String, Json)>) -> (j: Json)
    ensures
        j@ == JsonV::Object(entries_view(entries@)),
{
    let j = Json::Object(entries);
    assert(jv(j)->Object_0 =~= entries_view(entries@));
    j
}

/// A JSON array with the given elements, in order.
pub fn jarr(items: Vec<Json>) -> (j: Json)
    ensures
        j@ == JsonV::Array(items_view(items@)),
{
    let j = Json::Array(items);
    assert(jv(j)->Array_0 =~= items_view(items@));
    j
}

/// A JSON integer.
pub fn jint(n: i64) -> (j: Json)
    requires
        -0x20_0000_0000_0000 < n < 0x20_0000_0000_0000,
    ensures
        j@ == JsonV::Number(int_number(n as int)),
{
    let r = JsonNumber::from_i64(n);
    proof {
        lemma_int_f64_bits_range(n as int);
    }
    Json::Number(r)
}

/// The JSON number holding the integer `n` (|n| < 2^53): both integer
/// readings where they fit, and its double.
pub open spec fn int_number(n: int) -> JsonNumber {
    JsonNumber {
        as_u64: if n >= 0 { Some(n as u64) } else { None },
        as_i64: Some(n as i64),
        f64_bits: int_f64_bits(n) as u64,
    }
}

proof fn lemma_int_f64_bits_range(n: int)
    requires
        -0x20_0000_0000_0000 < n < 0x20_0000_0000_0000,
    ensures
        0 <= int_f64_bits(n) < 0x1_0000_0000_0000_0000,
{
    if n != 0 {
        let m: nat = if n < 0 { (-n) as nat } else { n as nat };
        let e = log2_floor(m);
        lemma_log2_bounds(m);
        lemma_two_pow_values();
        assert(e <= 52) by {
            if e > 52 {
                lemma_two_pow_mono(53, e);
            }
        }
        lemma_two_pow_split(e);
        let t = two_pow((52 - e) as nat);
        assert(0 <= (m - two_pow(e)) * t <= two_pow(e) * t) by (nonlinear_arith)
            requires
                two_pow(e) <= m < 2 * two_pow(e),
        ;
    }
}

proof fn lemma_log2_bounds(m: nat)
    requires
        m >= 1,
    ensures
        two_pow(log2_floor(m)) <= m < 2 * two_pow(log2_floor(m)),
    decreases m,
{
    if m > 1 {
        lemma_log2_bounds(m / 2);
    }
}

proof fn lemma_two_pow_split(e: nat)
    requires
        e <= 52,
    ensures
        two_pow(e) * two_pow((52 - e) as nat) == two_pow(52),
    decreases e,
{
    if e > 0 {
        let e1 = (e - 1) as nat;
        lemma_two_pow_split(e1);
        assert(two_pow(e) == 2 * two_pow(e1));
        let k = (52 - e) as nat;
        assert((52 - e1) as nat == k + 1);
        assert(two_pow(k + 1) == 2 * two_pow(k));
        let a = two_pow(e1);
        let b = two_pow(k);
        assert(a * two_pow((52 - e1) as nat) == two_pow(52));
        assert((2 * a) * b == a * (2 * b)) by (nonlinear_arith);
        assert(two_pow((52 - e1) as nat) == 2 * b);
        assert(two_pow(e) * b == two_pow(52));
    } else {
        assert(two_pow(0) == 1);
        assert(1 * two_pow(52) == two_pow(52));
    }
}

/// The keys of an entry list are pairwise distinct.
pub open spec fn distinct_keys(es: Seq<(Seq<char>, JsonV)>) -> bool {
    forall|a: int, b: int| 0 <= a < b < es.len() ==> (#[trigger] es[a]).0 != (#[trigger] es[b]).0
}

/// No object, at any depth, repeats a key (as `serde_json` objects never
/// do).
pub open spec fn keys_unique(v: JsonV) -> bool
    decreases v, 0nat,
{
    match v {
        JsonV::Object(es) => distinct_keys(es) && entries_unique(es, es.len()),
        JsonV::Array(xs) => items_unique(xs, xs.len()),
        _ => true,
    }
}

/// The first `n` entries' values repeat no key at any depth.
pub open spec fn entries_unique(es: Seq<(Seq<char>, JsonV)>, n: nat) -> bool
    decreases es, n,
{
    if n == 0 || n > es.len() {
        true
    } else {
        entries_unique(es, (n - 1) as nat) && keys_unique(es[n - 1].1)
    }
}

/// The first `n` items repeat no key at any depth.
pub open spec fn items_unique(xs: Seq<JsonV>, n: nat) -> bool
    decreases xs, n,
{
    if n == 0 || n > xs.len() {
        true
    } else {
        items_unique(xs, (n - 1) as nat) && keys_unique(xs[n - 1])
    }
}

proof fn lemma_find_unique(es: Seq<(Seq<char>, JsonV)>, j: int, i: int)
    requires
        distinct_keys(es),
        0 <= i <= j < es.len(),
    ensures
        obj_find(es, es[j].0, i) == Some(j),
    decreases j - i,
{
    if i < j {
        assert(es[i].0 != es[j].0);
        lemma_find_unique(es, j, i + 1);
    }
}

/// Every value contains itself.
pub proof fn law_contains_reflexive(v: JsonV)
    requires
        keys_unique(v),
    ensures
        contains_spec(v, v),
    decreases v, 0nat,
{
    match v {
        JsonV::Object(es) => {
            lemma_obj_all_refl(es, es.len());
        },
        JsonV::Array(xs) => {
            lemma_arr_all_refl(xs, xs.len());
        },
        _ => {},
    }
}

proof fn lemma_obj_all_refl(es: Seq<(Seq<char>, JsonV)>, n: nat)
    requires
        distinct_keys(es),
        entries_unique(es, n),
        n <= es.len(),
    ensures
        obj_all(es, es, n),
    decreases es, n,
{
    if n > 0 {
        lemma_obj_all_refl(es, (n - 1) as nat);
        lemma_find_unique(es, n - 1, 0);
        law_contains_reflexive(es[n - 1].1);
    }
}

proof fn lemma_arr_all_refl(xs: Seq<JsonV>, n: nat)
    requires
        items_unique(xs, xs.len()),
        n <= xs.len(),
    ensures
        arr_all(xs, xs, n),
    decreases xs, n,
{
    if n > 0 {
        lemma_arr_all_refl(xs, (n - 1) as nat);
        lemma_items_unique_at(xs, xs.len(), n - 1);
        law_contains_reflexive(xs[n - 1]);
        assert(arr_any(xs, xs[n - 1], n));
        if n < xs.len() {
            lemma_arr_any_mono(xs, xs[n - 1], n, xs.len());
        }
    }
}

proof fn lemma_items_unique_at(xs: Seq<JsonV>, n: nat, i: int)
    requires
        items_unique(xs, n),
        0 <= i < n <= xs.len(),
    ensures
        keys_unique(xs[i]),
    decreases n,
{
    if i < n - 1 {
        lemma_items_unique_at(xs, (n - 1) as nat, i);
    }
}

/// `json_contains` as a relation: every key of an expected object is
/// present with a containing value; every element of an expected array is
/// contained in some actual element; strings match up to case (Unicode
/// lower-casing); numbers are equal as doubles; booleans and nulls are
/// equal.
pub open spec fn contains_spec(a: JsonV, e: JsonV) -> bool
    decreases e, 0nat,
{
    match e {
        JsonV::Object(eo) => match a {
            JsonV::Object(ao) => obj_all(ao, eo, eo.len()),
            _ => false,
        },
        JsonV::Array(ea) => match a {
            JsonV::Array(aa) => arr_all(aa, ea, ea.len()),
            _ => false,
        },
        JsonV::Str(y) => match a {
            JsonV::Str(x) => eq_ignore_case(x, y),
            _ => false,
        },
        JsonV::Number(y) => match a {
            JsonV::Number(x) => x.f64_bits == y.f64_bits,
            _ => false,
        },
        JsonV::Bool(y) => match a {
            JsonV::Bool(x) => x == y,
            _ => false,
        },
        JsonV::Null => a is Null,
    }
}

/// The first `n` expected entries are each present in `ao` with a
/// containing value.
pub open spec fn obj_all(ao: Seq<(Seq<char>, JsonV)>, eo: Seq<(Seq<char>, JsonV)>, n: nat) -> bool
    decreases eo, n,
{
    if n == 0 || n > eo.len() {
        n == 0
    } else {
        obj_all(ao, eo, (n - 1) as nat) && match obj_find(ao, eo[n - 1].0, 0) {
            Some(i) => if 0 <= i < ao.len() {
                contains_spec(ao[i].1, eo[n - 1].1)
            } else {
                false
            },
            None => false,
        }
    }
}

/// The first `n` expected elements are each contained in some actual one.
pub open spec fn arr_all(aa: Seq<JsonV>, ea: Seq<JsonV>, n: nat) -> bool
    decreases ea, n,
{
    if n == 0 || n > ea.len() {
        n == 0
    } else {
        arr_all(aa, ea, (n - 1) as nat) && arr_any(aa, ea[n - 1], aa.len())
    }
}

/// One of the first `m` actual elements contains `ev`.
pub open spec fn arr_any(aa: Seq<JsonV>, ev: JsonV, m: nat) -> bool
    decreases ev, m + 1,
{
    if m == 0 || m > aa.len() {
        false
    } else {
        arr_any(aa, ev, (m - 1) as nat) || contains_spec(aa[m - 1], ev)
    }
}


proof fn lemma_obj_all_mono(ao: Seq<(Seq<char>, JsonV)>, eo: Seq<(Seq<char>, JsonV)>, n: nat, m: nat)
    requires
        n <= m <= eo.len(),
        !obj_all(ao, eo, n),
    ensures
        !obj_all(ao, eo, m),
    decreases m - n,
{
    if n < m {
        lemma_obj_all_mono(ao, eo, n, (m - 1) as nat);
    }
}

proof fn lemma_arr_all_mono(aa: Seq<JsonV>, ea: Seq<JsonV>, n: nat, m: nat)
    requires
        n <= m <= ea.len(),
        !arr_all(aa, ea, n),
    ensures
        !arr_all(aa, ea, m),
    decreases m - n,
{
    if n < m {
        lemma_arr_all_mono(aa, ea, n, (m - 1) as nat);
    }
}

proof fn lemma_arr_any_mono(aa: Seq<JsonV>, ev: JsonV, n: nat, m: nat)
    requires
        n <= m <= aa.len(),
        arr_any(aa, ev, n),
    ensures
        arr_any(aa, ev, m),
    decreases m - n,
{
    if n < m {
        lemma_arr_any_mono(aa, ev, n, (m - 1) as nat);
    }
}

pub proof fn lemma_obj_find_range(es: Seq<(Seq<char>, JsonV)>, k: Seq<char>, i: int)
    requires
        0 <= i,
    ensures
        obj_find(es, k, i) matches Some(p) ==> i <= p < es.len() && es[p].0 == k,
    decreases es.len() - i,
{
    if i < es.len() && es[i].0 != k {
        lemma_obj_find_range(es, k, i + 1);
    }
}

/// The value under `k` in an entry list (the first entry with that key).
pub open spec fn entry_get(es: Seq<(Seq<char>, JsonV)>, k: Seq<char>) -> Option<JsonV> {
    match obj_find(es, k, 0) {
        Some(i) => Some(es[i].1),
        None => None,
    }
}

proof fn lemma_find_push(s: Seq<(Seq<char>, JsonV)>, e: (Seq<char>, JsonV), k: Seq<char>, i: int)
    requires
        0 <= i <= s.len(),
    ensures
        obj_find(s.push(e), k, i) == match obj_find(s, k, i) {
            Some(p) => Some(p),
            None => if e.0 == k {
                Some(s.len() as int)
            } else {
                None
            },
        },
    decreases s.len() - i,
{
    if i < s.len() {
        assert(s.push(e)[i] == s[i]);
        if s[i].0 != k {
            lemma_find_push(s, e, k, i + 1);
        }
    } else {
        assert(s.push(e)[i] == e);
        if e.0 != k {
            assert(obj_find(s.push(e), k, i + 1) is None);
        }
    }
}

/// Looking a key up after appending an entry.
pub proof fn lemma_get_push(s: Seq<(Seq<char>, JsonV)>, e: (Seq<char>, JsonV), k: Seq<char>)
    ensures
        entry_get(s.push(e), k) == match entry_get(s, k) {
            Some(x) => Some(x),
            None => if e.0 == k {
                Some(e.1)
            } else {
                None
            },
        },
{
    lemma_find_push(s, e, k, 0);
    lemma_obj_find_range(s, k, 0);
    if let Some(p) = obj_find(s, k, 0) {
        assert(s.push(e)[p] == s[p]);
    } else if e.0 == k {
        assert(s.push(e)[s.len() as int] == e);
    }
}

/// Lists with the same keys, position by position, find a key at the
/// same place.
pub proof fn lemma_find_same_keys(s: Seq<(Seq<char>, JsonV)>, t: Seq<(Seq<char>, JsonV)>, k: Seq<char>, i: int)
    requires
        s.len() == t.len(),
        forall|j: int| 0 <= j < s.len() ==> s[j].0 == #[trigger] t[j].0,
        0 <= i,
    ensures
        obj_find(s, k, i) == obj_find(t, k, i),
    decreases s.len() - i,
{
    if i < s.len() {
        assert(s[i].0 == t[i].0);
        lemma_find_same_keys(s, t, k, i + 1);
    }
}

/// Recursive superset check of `expected` in `actual`: every key of an
/// expected object exists in the actual object with a matching value,
/// every element of an expected array matches some actual element,
/// strings compare case-insensitively (Unicode lower-casing), numbers compare as doubles
/// (so 4 == 4.0), booleans and nulls compare equal.
pub fn json_contains(actual: &Json, expected: &Json) -> (r: bool)
    ensures
        r == contains_spec(actual@, expected@),
    decreases *expected,
{
    match expected {
        Json::Object(eo) => {
            match actual {
                Json::Object(ao) => {
                    let ghost aov = actual@->Object_0;
                    let ghost eov = expected@->Object_0;
                    let mut i: usize = 0;
                    while i < eo.len()
                        invariant
                            i <= eo@.len(),
                            *expected == Json::Object(*eo),
                            *actual == Json::Object(*ao),
                            aov == actual@->Object_0,
                            eov == expected@->Object_0,
                            eov.len() == eo@.len(),
                            obj_all(aov, eov, i as nat),
                        decreases eo@.len() - i,
                    {
                        proof {
                            assert(decreases_to!(*expected => expected->Object_0));
                            assert(decreases_to!(expected->Object_0 => expected->Object_0[i as int]));
                            assert(decreases_to!(expected->Object_0[i as int] => expected->Object_0[i as int].1));
                            assert(eov[i as int] == (eo@[i as int].0@, jv(eo@[i as int].1)));
                        }
                        match actual.get(eo[i].0.as_str()) {
                            Some(av) => {
                                proof {
                                    lemma_obj_find_range(aov, eov[i as int].0, 0);
                                }
                                if !json_contains(av, &eo[i].1) {
                                    proof {
                                        lemma_obj_all_mono(aov, eov, (i + 1) as nat, eov.len());
                                    }
                                    return false;
                                }
                            },
                            None => {
                                proof {
                                    lemma_obj_all_mono(aov, eov, (i + 1) as nat, eov.len());
                                }
                                return false;
                            },
                        }
                        i = i + 1;
                    }
                    true
                },
                _ => false,
            }
        },
        Json::Array(ea) => {
            match actual {
                Json::Array(aa) => {
                    let ghost aav = actual@->Array_0;
                    let ghost eav = expected@->Array_0;
                    let mut i: usize = 0;
                    while i < ea.len()
                        invariant
                            i <= ea@.len(),
                            *expected == Json::Array(*ea),
                            *actual == Json::Array(*aa),
                            aav == actual@->Array_0,
                            eav == expected@->Array_0,
                            eav.len() == ea@.len(),
                            aav.len() == aa@.len(),
                            arr_all(aav, eav, i as nat),
                        decreases ea@.len() - i,
                    {
                        proof {
                            assert(decreases_to!(*expected => expected->Array_0));
                            assert(decreases_to!(expected->Array_0 => expected->Array_0[i as int]));
                            assert(eav[i as int] == jv(ea@[i as int]));
                        }
                        let mut j: usize = 0;
                        let mut found = false;
                        while j < aa.len() && !found
                            invariant
                                j <= aa@.len(),
                                i < ea@.len(),
                                *expected == Json::Array(*ea),
                                *actual == Json::Array(*aa),
                                aav == actual@->Array_0,
                                aav.len() == aa@.len(),
                                eav[i as int] == jv(ea@[i as int]),
                                decreases_to!(*expected => ea@[i as int]),
                                found == arr_any(aav, eav[i as int], j as nat),
                            decreases aa@.len() - j,
                        {
                            assert(aav[j as int] == jv(aa@[j as int]));
                            found = json_contains(&aa[j], &ea[i]);
                            j = j + 1;
                        }
                        if !found {
                            proof {
                                assert(!arr_any(aav, eav[i as int], aav.len()));
                                lemma_arr_all_mono(aav, eav, (i + 1) as nat, eav.len());
                            }
                            return false;
                        }
                        proof {
                            lemma_arr_any_mono(aav, eav[i as int], j as nat, aav.len());
                        }
                        i = i + 1;
                    }
                    true
                },
                _ => false,
            }
        },
        Json::String(y) => match actual {
            Json::String(x) => eq_ignore_case_exec(x.as_str(), y.as_str()),
            _ => false,
        },
        Json::Number(y) => match actual {
            Json::Number(x) => x.f64_bits == y.f64_bits,
            _ => false,
        },
        Json::Bool(y) => match actual {
            Json::Bool(x) => *x == *y,
            _ => false,
        },
        Json::Null => match actual {
            Json::Null => true,
            _ => false,
        },
    }
}

} // verus!
