//! Join keys and the table that a hash join builds.

use crate::compare;
use crate::executor::join_pair;
use crate::parsing;
use crate::schema;
use crate::schema::{Tuple, TupleModel};
use crate::text;
use crate::text::Order;
use crate::value;
use crate::value::{Value, ValueModel};
use std::collections::HashMap;
use vstd::prelude::*;

verus! {

broadcast use vstd::std_specs::hash::group_hash_axioms;

/// Whether two key values are equal for a join: whole numbers of any width by
/// their value, a text and a number where the text spells the number, a text
/// and a UUID where the text spells the UUID, floating-point numbers as numbers,
/// other values where they are the same. NULL equals nothing.
pub open spec fn join_equal(a: ValueModel, b: ValueModel) -> bool {
    match (a, b) {
        (ValueModel::Null, _) => false,
        (_, ValueModel::Null) => false,
        (ValueModel::Uuid(u), ValueModel::String(s)) => parsing::uuid_spelled(s) == Some(u),
        (ValueModel::String(s), ValueModel::Uuid(u)) => parsing::uuid_spelled(s) == Some(u),
        (ValueModel::String(x), ValueModel::String(y)) => x == y,
        (ValueModel::Float4(x), ValueModel::Float4(y)) => compare::float4_order(x, y) == Some(
            Order::Equal,
        ),
        (ValueModel::Float8(x), ValueModel::Float8(y)) => compare::float8_order(x, y) == Some(
            Order::Equal,
        ),
        (ValueModel::Vector(x), ValueModel::Vector(y)) => x.len() == y.len() && forall|i: int|
            0 <= i < x.len() ==> compare::float4_order(#[trigger] x[i], y[i]) == Some(Order::Equal),
        _ => match (compare::int_value(a), compare::int_value(b)) {
            (Some(x), Some(y)) => x == y,
            (Some(n), None) => match b {
                ValueModel::String(s) => text::spelled_i64(s) == Some(n),
                _ => false,
            },
            (None, Some(n)) => match a {
                ValueModel::String(s) => text::spelled_i64(s) == Some(n),
                _ => false,
            },
            (None, None) => a == b,
        },
    }
}

/// What a key value is looked up as.
pub enum LookupClass {
    Number(i64),
    Uuid(u128),
    Other,
}

/// What a key value is looked up as: a text that spells a whole number as that
/// number, a text that spells a UUID as that UUID.
pub open spec fn lookup_class(v: ValueModel) -> LookupClass {
    match compare::int_value(v) {
        Some(n) => LookupClass::Number(n),
        None => match v {
            ValueModel::Uuid(u) => LookupClass::Uuid(u),
            ValueModel::String(s) => match text::spelled_i64(s) {
                Some(n) => LookupClass::Number(n),
                None => match parsing::uuid_spelled(s) {
                    Some(u) => LookupClass::Uuid(u),
                    None => LookupClass::Other,
                },
            },
            _ => LookupClass::Other,
        },
    }
}

/// Whether two key values meet in a join table: they are looked up as the same
/// and are equal.
pub open spec fn values_meet(a: ValueModel, b: ValueModel) -> bool {
    lookup_class(a) == lookup_class(b) && join_equal(a, b)
}

/// Whether two keys meet: value by value.
pub open spec fn keys_meet(a: Seq<ValueModel>, b: Seq<ValueModel>) -> bool {
    a.len() == b.len() && forall|i: int|
        0 <= i < a.len() ==> values_meet(#[trigger] a[i], b[i])
}

/// Meeting goes both ways.
pub proof fn law_meeting_is_symmetric(a: Seq<ValueModel>, b: Seq<ValueModel>)
    ensures
        keys_meet(a, b) == keys_meet(b, a),
{
    assert forall|x: ValueModel, y: ValueModel| join_equal(x, y) == join_equal(y, x) by {}
    if keys_meet(a, b) {
        assert forall|i: int| 0 <= i < b.len() implies values_meet(#[trigger] b[i], a[i]) by {
            assert(values_meet(a[i], b[i]));
        }
    }
    if keys_meet(b, a) {
        assert forall|i: int| 0 <= i < a.len() implies values_meet(#[trigger] a[i], b[i]) by {
            assert(values_meet(b[i], a[i]));
        }
    }
}

/// A key that holds a NULL meets no key.
pub proof fn law_null_keys_meet_nothing(a: Seq<ValueModel>, b: Seq<ValueModel>, i: int)
    requires
        0 <= i < a.len(),
        a[i] == ValueModel::Null,
    ensures
        !keys_meet(a, b),
        !keys_meet(b, a),
{
    if keys_meet(a, b) {
        assert(values_meet(a[i], b[i]));
    }
    if keys_meet(b, a) {
        assert(values_meet(b[i], a[i]));
    }
}

/// Whole numbers meet across widths, by value alone.
pub proof fn law_numbers_meet_across_widths(a: ValueModel, b: ValueModel)
    requires
        compare::int_value(a) is Some,
        compare::int_value(b) is Some,
    ensures
        values_meet(a, b) == (compare::int_value(a) == compare::int_value(b)),
{
}

/// Tests two key values for equality.
pub fn values_equal_for_join(a: &Value, b: &Value) -> (r: bool)
    ensures
        r == join_equal(a@, b@),
{
    match (a, b) {
        (Value::Null, _) => false,
        (_, Value::Null) => false,
        (Value::Uuid(u), Value::String(s)) => string_equals_uuid(s.as_str(), *u),
        (Value::String(s), Value::Uuid(u)) => string_equals_uuid(s.as_str(), *u),
        (Value::String(x), Value::String(y)) => *x == *y,
        (Value::Float4(x), Value::Float4(y)) => matches!(
            compare::compare_float4(*x, *y),
            Some(Order::Equal)
        ),
        (Value::Float8(x), Value::Float8(y)) => matches!(
            compare::compare_float8(*x, *y),
            Some(Order::Equal)
        ),
        (Value::Vector(x), Value::Vector(y)) => equal_vectors(x, y),
        _ => match (compare::value_int(a), compare::value_int(b)) {
            (Some(x), Some(y)) => x == y,
            (Some(n), None) => match b {
                Value::String(s) => text::parse_i64(s.as_str()) == Some(n),
                _ => false,
            },
            (None, Some(n)) => match a {
                Value::String(s) => text::parse_i64(s.as_str()) == Some(n),
                _ => false,
            },
            (None, None) => value::same_value(a, b),
        },
    }
}

fn equal_vectors(x: &Vec<u32>, y: &Vec<u32>) -> (r: bool)
    ensures
        r == (x@.len() == y@.len() && forall|i: int|
            0 <= i < x@.len() ==> compare::float4_order(#[trigger] x@[i], y@[i]) == Some(
                Order::Equal,
            )),
{
    if x.len() != y.len() {
        return false;
    }
    for i in 0..x.len()
        invariant
            x.len() == y.len(),
            forall|j: int|
                0 <= j < i ==> compare::float4_order(#[trigger] x@[j], y@[j]) == Some(Order::Equal),
    {
        match compare::compare_float4(x[i], y[i]) {
            Some(Order::Equal) => {},
            _ => {
                return false;
            },
        }
    }
    true
}

fn string_equals_uuid(s: &str, u: u128) -> (r: bool)
    ensures
        r == (parsing::uuid_spelled(s@) == Some(u)),
{
    match parsing::parse_uuid(s) {
        Some(p) => p == u,
        None => false,
    }
}

fn class_of(v: &Value) -> (r: LookupClass)
    ensures
        r == lookup_class(v@),
{
    match compare::value_int(v) {
        Some(n) => LookupClass::Number(n),
        None => match v {
            Value::Uuid(u) => LookupClass::Uuid(*u),
            Value::String(s) => match text::parse_i64(s.as_str()) {
                Some(n) => LookupClass::Number(n),
                None => match parsing::parse_uuid(s.as_str()) {
                    Some(u) => LookupClass::Uuid(u),
                    None => LookupClass::Other,
                },
            },
            _ => LookupClass::Other,
        },
    }
}

fn do_values_meet(a: &Value, b: &Value) -> (r: bool)
    ensures
        r == values_meet(a@, b@),
{
    let same: bool = match (class_of(a), class_of(b)) {
        (LookupClass::Number(x), LookupClass::Number(y)) => x == y,
        (LookupClass::Uuid(x), LookupClass::Uuid(y)) => x == y,
        (LookupClass::Other, LookupClass::Other) => true,
        _ => false,
    };
    same && values_equal_for_join(a, b)
}

/// The key by which a row is joined: one whole number, one other value, or
/// several values.
pub enum JoinKey {
    Int(i64),
    Single(Value),
    Composite(Vec<Value>),
}

impl View for JoinKey {
    type V = Seq<ValueModel>;

    open spec fn view(&self) -> Seq<ValueModel> {
        match *self {
            JoinKey::Int(n) => seq![ValueModel::Int8(n)],
            JoinKey::Single(v) => seq![v@],
            JoinKey::Composite(vs) => value::values_model(vs@),
        }
    }
}

/// The key of one value: a whole number without its width.
pub open spec fn single_key(v: ValueModel) -> Seq<ValueModel> {
    match compare::int_value(v) {
        Some(n) => seq![ValueModel::Int8(n)],
        None => seq![v],
    }
}

/// The key of given values.
pub open spec fn key_of_values(vs: Seq<ValueModel>) -> Seq<ValueModel> {
    if vs.len() == 1 {
        single_key(vs[0])
    } else {
        vs
    }
}

/// The estimated memory of a key.
pub open spec fn key_size(k: Seq<ValueModel>) -> nat {
    if k.len() == 1 {
        join_pair::value_size(k[0])
    } else {
        24 + join_pair::values_size(k)
    }
}

impl JoinKey {
    /// Whether only several values, or none, are kept as a list.
    pub open spec fn normal(&self) -> bool {
        match *self {
            JoinKey::Composite(vs) => vs.len() != 1,
            _ => true,
        }
    }

    pub fn from_values(values: Vec<Value>) -> (r: JoinKey)
        ensures
            r@ == key_of_values(value::values_model(values@)),
            r.normal(),
    {
        let mut values: Vec<Value> = values;
        if values.len() == 1 {
            let ghost all = value::values_model(values@);
            match values.pop() {
                Some(v) => {
                    assert(all[0] == v@);
                    JoinKey::from_single_value(v)
                },
                None => JoinKey::Composite(values),
            }
        } else {
            JoinKey::Composite(values)
        }
    }

    pub fn from_single_value(v: Value) -> (r: JoinKey)
        ensures
            r@ == single_key(v@),
            r.normal(),
    {
        match compare::value_int(&v) {
            Some(n) => JoinKey::Int(n),
            None => JoinKey::Single(v),
        }
    }

    pub fn from_single_value_ref(v: &Value) -> (r: JoinKey)
        ensures
            r@ == single_key(v@),
            r.normal(),
    {
        match compare::value_int(v) {
            Some(n) => JoinKey::Int(n),
            None => JoinKey::Single(v.clone()),
        }
    }

    /// The number of values.
    pub fn len(&self) -> (r: usize)
        ensures
            r == self@.len(),
    {
        match self {
            JoinKey::Int(_) => 1,
            JoinKey::Single(_) => 1,
            JoinKey::Composite(vs) => {
                proof {
                    value::lemma_values_model(vs@);
                }
                vs.len()
            },
        }
    }

    /// One value of the key.
    fn value(&self, i: usize) -> (r: Value)
        requires
            i < self@.len(),
        ensures
            r@ == self@[i as int],
    {
        match self {
            JoinKey::Int(n) => Value::Int8(*n),
            JoinKey::Single(v) => v.clone(),
            JoinKey::Composite(vs) => {
                proof {
                    value::lemma_values_model(vs@);
                }
                vs[i].clone()
            },
        }
    }

    /// Whether two keys meet.
    pub fn meets(&self, other: &JoinKey) -> (r: bool)
        ensures
            r == keys_meet(self@, other@),
    {
        if let (JoinKey::Int(a), JoinKey::Int(b)) = (self, other) {
            assert(keys_meet(self@, other@) == values_meet(self@[0], other@[0]));
            return *a == *b;
        }
        let n: usize = self.len();
        if n != other.len() {
            return false;
        }
        for i in 0..n
            invariant
                n == self@.len(),
                n == other@.len(),
                forall|j: int| 0 <= j < i ==> values_meet(#[trigger] self@[j], other@[j]),
        {
            if !do_values_meet(&self.value(i), &other.value(i)) {
                assert(!values_meet(self@[i as int], other@[i as int]));
                return false;
            }
        }
        true
    }
}

impl Clone for JoinKey {
    fn clone(&self) -> (r: JoinKey)
        ensures
            r@ == self@,
            r.normal() == self.normal(),
    {
        match self {
            JoinKey::Int(n) => JoinKey::Int(*n),
            JoinKey::Single(v) => JoinKey::Single(v.clone()),
            JoinKey::Composite(vs) => {
                let c: Vec<Value> = value::clone_values(vs);
                proof {
                    value::lemma_values_model(vs@);
                    value::lemma_values_model(c@);
                }
                JoinKey::Composite(c)
            },
        }
    }
}

/// The estimated memory of a key.
pub fn estimate_key_size(key: &JoinKey) -> (r: usize)
    requires
        key.normal(),
    ensures
        r == join_pair::capped(key_size(key@)),
{
    match key {
        JoinKey::Int(_) => 8,
        JoinKey::Single(v) => join_pair::estimate_value_size(v),
        JoinKey::Composite(vs) => {
            proof {
                value::lemma_values_model(vs@);
            }
            join_pair::estimate_values_size(vs)
        },
    }
}

spec fn mixed(h: u64, x: u64) -> u64 {
    h.wrapping_mul(31).wrapping_add(x)
}

fn mix(h: u64, x: u64) -> (r: u64)
    ensures
        r == mixed(h, x),
{
    h.wrapping_mul(31).wrapping_add(x)
}

spec fn text_code(s: Seq<char>) -> u64
    decreases s.len(),
{
    if s.len() == 0 {
        17
    } else {
        mixed(text_code(s.drop_last()), s.last() as u64)
    }
}

fn code_text(s: &str) -> (r: u64)
    ensures
        r == text_code(s@),
{
    let v: Vec<char> = text::chars_of(s);
    let mut h: u64 = 17;
    assert(v@.take(0) =~= Seq::<char>::empty());
    for i in 0..v.len()
        invariant
            v@ == s@,
            h == text_code(v@.take(i as int)),
    {
        assert(v@.take(i + 1).drop_last() =~= v@.take(i as int));
        h = mix(h, v[i] as u64);
    }
    assert(v@.take(v.len() as int) =~= s@);
    h
}

spec fn value_code(v: ValueModel) -> u64 {
    match lookup_class(v) {
        LookupClass::Number(n) => n as u64,
        LookupClass::Uuid(u) => (u % 0x1_0000_0000_0000_0000) as u64,
        LookupClass::Other => match v {
            ValueModel::String(s) => text_code(s),
            ValueModel::Numeric(s) => text_code(s),
            ValueModel::Date(d) => d as u64,
            ValueModel::Timestamp(t) => t.secs as u64,
            ValueModel::Float4(b) => (b % 0x8000_0000) as u64,
            ValueModel::Float8(b) => (b % 0x8000_0000_0000_0000) as u64,
            _ => 0,
        },
    }
}

fn code_value(v: &Value) -> (r: u64)
    ensures
        r == value_code(v@),
{
    match class_of(v) {
        LookupClass::Number(n) => n as u64,
        LookupClass::Uuid(u) => (u % 0x1_0000_0000_0000_0000) as u64,
        LookupClass::Other => match v {
            Value::String(s) => code_text(s.as_str()),
            Value::Numeric(s) => code_text(s.as_str()),
            Value::Date(d) => *d as u64,
            Value::Timestamp(t) => t.secs as u64,
            Value::Float4(b) => (*b % 0x8000_0000) as u64,
            Value::Float8(b) => *b % 0x8000_0000_0000_0000,
            _ => 0,
        },
    }
}

/// The code that a key is filed under.
pub closed spec fn key_code(k: Seq<ValueModel>) -> u64
    decreases k.len(),
{
    if k.len() == 0 {
        7
    } else {
        mixed(key_code(k.drop_last()), value_code(k.last()))
    }
}

impl JoinKey {
    /// The code that the key is filed under.
    pub fn hash_code(&self) -> (r: u64)
        ensures
            r == key_code(self@),
    {
        let n: usize = self.len();
        let mut h: u64 = 7;
        assert(self@.take(0) =~= Seq::<ValueModel>::empty());
        for i in 0..n
            invariant
                n == self@.len(),
                h == key_code(self@.take(i as int)),
        {
            assert(self@.take(i + 1).drop_last() =~= self@.take(i as int));
            h = mix(h, code_value(&self.value(i)));
        }
        assert(self@.take(n as int) =~= self@);
        h
    }
}

proof fn lemma_meeting_values_share_a_code(a: ValueModel, b: ValueModel)
    requires
        values_meet(a, b),
    ensures
        value_code(a) == value_code(b),
{
    match (a, b) {
        (ValueModel::Float4(x), ValueModel::Float4(y)) => {
            assert(compare::float4_rank(x) == compare::float4_rank(y));
        },
        (ValueModel::Float8(x), ValueModel::Float8(y)) => {
            assert(compare::float8_rank(x) == compare::float8_rank(y));
        },
        _ => {},
    }
}

/// Keys that meet have the same code, so that they are found in one bucket.
pub proof fn law_keys_that_meet_share_a_code(a: Seq<ValueModel>, b: Seq<ValueModel>)
    requires
        keys_meet(a, b),
    ensures
        key_code(a) == key_code(b),
    decreases a.len(),
{
    if a.len() > 0 {
        assert(values_meet(a[a.len() - 1], b[b.len() - 1]));
        assert(keys_meet(a.drop_last(), b.drop_last())) by {
            assert forall|i: int| 0 <= i < a.drop_last().len() implies values_meet(
                #[trigger] a.drop_last()[i],
                b.drop_last()[i],
            ) by {
                assert(values_meet(a[i], b[i]));
            }
        }
        law_keys_that_meet_share_a_code(a.drop_last(), b.drop_last());
        lemma_meeting_values_share_a_code(a[a.len() - 1], b[b.len() - 1]);
    }
}

/// The first position from `from` on whose key meets the given one.
pub open spec fn first_meeting(
    keys: Seq<Seq<ValueModel>>,
    key: Seq<ValueModel>,
    from: int,
) -> Option<usize>
    decreases keys.len() - from,
{
    if from < 0 || from >= keys.len() {
        None
    } else if keys_meet(keys[from], key) {
        Some(from as usize)
    } else {
        first_meeting(keys, key, from + 1)
    }
}

pub proof fn lemma_first_meeting_in_range(
    keys: Seq<Seq<ValueModel>>,
    key: Seq<ValueModel>,
    from: int,
)
    requires
        0 <= from,
        keys.len() <= usize::MAX,
    ensures
        first_meeting(keys, key, from) matches Some(i) ==> from <= i < keys.len() && keys_meet(
            keys[i as int],
            key,
        ),
    decreases keys.len() - from,
{
    if from < keys.len() && !keys_meet(keys[from], key) {
        lemma_first_meeting_in_range(keys, key, from + 1);
    }
}

proof fn lemma_first_meeting(keys: Seq<Seq<ValueModel>>, key: Seq<ValueModel>, from: int, at: int)
    requires
        0 <= from <= at <= keys.len(),
        keys.len() <= usize::MAX,
        forall|j: int| from <= j < at ==> !keys_meet(#[trigger] keys[j], key),
        at < keys.len() ==> keys_meet(keys[at], key),
    ensures
        first_meeting(keys, key, from) == if at < keys.len() {
            Some(at as usize)
        } else {
            None::<usize>
        },
    decreases at - from,
{
    if from < at {
        assert(!keys_meet(keys[from], key));
        lemma_first_meeting(keys, key, from + 1, at);
    }
}

/// A list of keys that is searched by code.
pub struct KeyIndex {
    keys: Vec<JoinKey>,
    by_code: HashMap<u64, Vec<usize>>,
}

impl View for KeyIndex {
    type V = Seq<Seq<ValueModel>>;

    closed spec fn view(&self) -> Seq<Seq<ValueModel>> {
        Seq::new(self.keys.len() as nat, |i: int| self.keys@[i]@)
    }
}

impl KeyIndex {
    pub closed spec fn wf(&self) -> bool {
        &&& forall|c: u64, j: int|
            #![trigger self.by_code@[c]@[j]]
            self.by_code@.contains_key(c) && 0 <= j < self.by_code@[c].len() ==> {
                &&& self.by_code@[c]@[j] < self.keys.len()
                &&& key_code(self.keys@[self.by_code@[c]@[j] as int]@) == c
            }
        &&& forall|c: u64, i: int, j: int|
            #![trigger self.by_code@[c]@[i], self.by_code@[c]@[j]]
            self.by_code@.contains_key(c) && 0 <= i < j < self.by_code@[c].len()
                ==> self.by_code@[c]@[i] < self.by_code@[c]@[j]
        &&& forall|i: int|
            0 <= i < self.keys.len() ==> self.by_code@.contains_key(
                key_code((#[trigger] self.keys@[i])@),
            ) && self.by_code@[key_code(self.keys@[i]@)]@.contains(i as usize)
    }

    pub fn new() -> (r: KeyIndex)
        ensures
            r.wf(),
            r@ == Seq::<Seq<ValueModel>>::empty(),
    {
        let r: KeyIndex = KeyIndex { keys: Vec::new(), by_code: HashMap::new() };
        assert(r@ =~= Seq::<Seq<ValueModel>>::empty());
        r
    }

    pub fn len(&self) -> (r: usize)
        ensures
            r == self@.len(),
    {
        self.keys.len()
    }

    /// The first key that meets the given one.
    pub fn find(&self, key: &JoinKey) -> (r: Option<usize>)
        requires
            self.wf(),
        ensures
            r == first_meeting(self@, key@, 0),
            r matches Some(i) ==> i < self@.len() && keys_meet(self@[i as int], key@),
    {
        let code: u64 = key.hash_code();
        let ghost all = self@;
        match self.by_code.get(&code) {
            None => {
                proof {
                    assert forall|j: int| 0 <= j < all.len() implies !keys_meet(
                        #[trigger] all[j],
                        key@,
                    ) by {
                        assert(all[j] == self.keys@[j]@);
                        if keys_meet(all[j], key@) {
                            law_keys_that_meet_share_a_code(all[j], key@);
                        }
                    }
                    lemma_first_meeting(all, key@, 0, all.len() as int);
                }
                None
            },
            Some(at) => {
                for n in 0..at.len()
                    invariant
                        self.wf(),
                        all == self@,
                        code == key_code(key@),
                        self.by_code@.contains_key(code),
                        *at == self.by_code@[code],
                        forall|m: int|
                            0 <= m < n ==> !keys_meet(all[(#[trigger] at@[m]) as int], key@),
                {
                    let i: usize = at[n];
                    assert(self.by_code@[code]@[n as int] == i);
                    assert(all[i as int] == self.keys@[i as int]@);
                    if self.keys[i].meets(key) {
                        proof {
                            assert forall|j: int| 0 <= j < i implies !keys_meet(
                                #[trigger] all[j],
                                key@,
                            ) by {
                                assert(all[j] == self.keys@[j]@);
                                if keys_meet(all[j], key@) {
                                    law_keys_that_meet_share_a_code(all[j], key@);
                                    let m = choose|m: int|
                                        0 <= m < at.len() && at@[m] == j as usize;
                                    assert(self.by_code@[code]@[m] == j);
                                    if m >= n {
                                        if m > n {
                                            assert(self.by_code@[code]@[n as int]
                                                < self.by_code@[code]@[m]);
                                        }
                                    } else {
                                        assert(!keys_meet(all[at@[m] as int], key@));
                                    }
                                }
                            }
                            lemma_first_meeting(all, key@, 0, i as int);
                        }
                        return Some(i);
                    }
                }
                proof {
                    assert forall|j: int| 0 <= j < all.len() implies !keys_meet(
                        #[trigger] all[j],
                        key@,
                    ) by {
                        assert(all[j] == self.keys@[j]@);
                        if keys_meet(all[j], key@) {
                            law_keys_that_meet_share_a_code(all[j], key@);
                            let m = choose|m: int| 0 <= m < at.len() && at@[m] == j as usize;
                            assert(!keys_meet(all[at@[m] as int], key@));
                        }
                    }
                    lemma_first_meeting(all, key@, 0, all.len() as int);
                }
                None
            },
        }
    }

    /// Adds a key behind the others.
    pub fn push(&mut self, key: JoinKey)
        requires
            old(self).wf(),
        ensures
            final(self).wf(),
            final(self)@ == old(self)@.push(key@),
    {
        let code: u64 = key.hash_code();
        let n: usize = self.keys.len();
        let ghost before = *self;
        let mut at: Vec<usize> = match self.by_code.remove(&code) {
            Some(v) => v,
            None => Vec::new(),
        };
        let ghost was = at@;
        at.push(n);
        assert(at@[was.len() as int] == n);
        self.by_code.insert(code, at);
        self.keys.push(key);
        proof {
            assert forall|i: int| 0 <= i < self.keys.len() implies self.by_code@.contains_key(
                key_code((#[trigger] self.keys@[i])@),
            ) && self.by_code@[key_code(self.keys@[i]@)]@.contains(i as usize) by {
                if i < n {
                    assert(self.keys@[i] == before.keys@[i]);
                    let c = key_code(self.keys@[i]@);
                    let m = choose|m: int|
                        0 <= m < before.by_code@[c].len() && before.by_code@[c]@[m] == i as usize;
                    if c == code {
                        assert(at@[m] == was[m]);
                        assert(self.by_code@[c]@[m] == i as usize);
                    } else {
                        assert(self.by_code@[c]@[m] == i as usize);
                    }
                } else {
                    assert(self.by_code@[code]@[was.len() as int] == i as usize);
                }
            }
            assert forall|c: u64, j: int|
                #![trigger self.by_code@[c]@[j]]
                self.by_code@.contains_key(c) && 0 <= j < self.by_code@[c].len() implies {
                &&& self.by_code@[c]@[j] < self.keys.len()
                &&& key_code(self.keys@[self.by_code@[c]@[j] as int]@) == c
            } by {
                if c == code {
                    if j < was.len() {
                        assert(before.by_code@[c]@[j] == self.by_code@[c]@[j]);
                    }
                } else {
                    assert(before.by_code@[c]@[j] == self.by_code@[c]@[j]);
                }
            }
            assert forall|c: u64, i: int, j: int|
                #![trigger self.by_code@[c]@[i], self.by_code@[c]@[j]]
                self.by_code@.contains_key(c) && 0 <= i < j < self.by_code@[c].len() implies
                self.by_code@[c]@[i] < self.by_code@[c]@[j] by {
                if c == code {
                    assert(before.by_code@.contains_key(c) ==> was == before.by_code@[c]@);
                    if j < was.len() {
                        assert(before.by_code@[c]@[i] < before.by_code@[c]@[j]);
                    } else {
                        assert(before.by_code@[c]@[i] < before.keys.len());
                    }
                } else {
                    assert(before.by_code@[c]@[i] < before.by_code@[c]@[j]);
                }
            }
            assert(self@ =~= old(self)@.push(key@));
        }
    }
}

/// The rows that share a key. A single row is kept without a list.
pub enum JoinBucket {
    One(Tuple),
    Many(Vec<Tuple>),
}

impl View for JoinBucket {
    type V = Seq<TupleModel>;

    open spec fn view(&self) -> Seq<TupleModel> {
        match *self {
            JoinBucket::One(t) => seq![t@],
            JoinBucket::Many(ts) => schema::rows_model(ts@),
        }
    }
}

impl JoinBucket {
    /// The bucket with one more row.
    pub fn with(self, tuple: Tuple) -> (r: JoinBucket)
        ensures
            r@ == self@.push(tuple@),
    {
        match self {
            JoinBucket::One(first) => {
                let r: JoinBucket = JoinBucket::Many(vec![first, tuple]);
                assert(r@ =~= self@.push(tuple@));
                r
            },
            JoinBucket::Many(rows) => {
                let mut rows: Vec<Tuple> = rows;
                rows.push(tuple);
                let r: JoinBucket = JoinBucket::Many(rows);
                assert(r@ =~= self@.push(tuple@));
                r
            },
        }
    }

    pub fn len(&self) -> (r: usize)
        ensures
            r == self@.len(),
    {
        match self {
            JoinBucket::One(_) => 1,
            JoinBucket::Many(rows) => rows.len(),
        }
    }

    pub fn get(&self, index: usize) -> (r: Option<&Tuple>)
        ensures
            match r {
                Some(t) => index < self@.len() && t@ == self@[index as int],
                None => index >= self@.len(),
            },
    {
        match self {
            JoinBucket::One(t) => if index == 0 {
                Some(t)
            } else {
                None
            },
            JoinBucket::Many(rows) => if index < rows.len() {
                Some(&rows[index])
            } else {
                None
            },
        }
    }
}

/// The build side of a hash join: rows by key, in the order in which their keys
/// first came.
pub struct JoinTable {
    keys: KeyIndex,
    buckets: Vec<JoinBucket>,
}

/// A key with its rows.
pub type Entry = (Seq<ValueModel>, Seq<TupleModel>);

/// The keys of a table.
pub open spec fn entry_keys(s: Seq<Entry>) -> Seq<Seq<ValueModel>> {
    Seq::new(s.len(), |i: int| s[i].0)
}

/// A table with one more row.
pub open spec fn with_row(s: Seq<Entry>, key: Seq<ValueModel>, row: TupleModel) -> Seq<Entry> {
    match first_meeting(entry_keys(s), key, 0) {
        Some(i) => s.update(i as int, (s[i as int].0, s[i as int].1.push(row))),
        None => s.push((key, seq![row])),
    }
}

impl View for JoinTable {
    type V = Seq<Entry>;

    closed spec fn view(&self) -> Seq<Entry> {
        Seq::new(self.keys@.len(), |i: int| (self.keys@[i], self.buckets@[i]@))
    }
}

impl JoinTable {
    pub closed spec fn wf(&self) -> bool {
        &&& self.keys.wf()
        &&& self.keys@.len() == self.buckets.len()
    }

    pub fn new() -> (r: JoinTable)
        ensures
            r.wf(),
            r@ == Seq::<Entry>::empty(),
    {
        let r: JoinTable = JoinTable { keys: KeyIndex::new(), buckets: Vec::new() };
        assert(r@ =~= Seq::<Entry>::empty());
        r
    }

    pub fn len(&self) -> (r: usize)
        ensures
            r == self@.len(),
    {
        self.keys.len()
    }

    /// The first bucket whose key meets the given one.
    pub fn find(&self, key: &JoinKey) -> (r: Option<usize>)
        requires
            self.wf(),
        ensures
            r == first_meeting(entry_keys(self@), key@, 0),
            r matches Some(i) ==> i < self@.len(),
    {
        assert(entry_keys(self@) =~= self.keys@);
        self.keys.find(key)
    }

    /// The rows of a bucket.
    pub fn bucket(&self, i: usize) -> (r: &JoinBucket)
        requires
            self.wf(),
            i < self@.len(),
        ensures
            r@ == self@[i as int].1,
    {
        &self.buckets[i]
    }

    /// The key of a bucket.
    pub fn key(&self, i: usize) -> (r: &JoinKey)
        requires
            self.wf(),
            i < self@.len(),
        ensures
            r@ == self@[i as int].0,
    {
        &self.keys.keys[i]
    }

    /// Adds a row.
    pub fn insert(&mut self, key: JoinKey, tuple: Tuple)
        requires
            old(self).wf(),
        ensures
            final(self).wf(),
            final(self)@ == with_row(old(self)@, key@, tuple@),
    {
        match self.find(&key) {
            Some(i) => {
                let mut b: JoinBucket = JoinBucket::Many(Vec::new());
                std::mem::swap(&mut b, &mut self.buckets[i]);
                assert(b@ == old(self)@[i as int].1);
                let b: JoinBucket = b.with(tuple);
                self.buckets.set(i, b);
                assert(self@ =~= with_row(old(self)@, key@, tuple@));
            },
            None => {
                self.keys.push(key);
                self.buckets.push(JoinBucket::One(tuple));
                assert(self@ =~= with_row(old(self)@, key@, tuple@));
            },
        }
    }
}

} // verus!
