//! JSON values and their canonical form, in which the members of every object
//! stand in ascending order of their keys.

use crate::order::{
    is_text_before, law_text_order_irreflexive, law_text_order_total, law_text_order_transitive,
    text_before,
};
use vstd::prelude::*;

verus! {

/// The JSON number of `serde_json`, which is carried along unread.
#[verifier::external_type_specification]
#[verifier::external_body]
pub struct ExNumber(serde_json::Number);

/// The JSON value of `serde_json`.
#[verifier::external_type_specification]
#[verifier::external_body]
pub struct ExValue(serde_json::Value);

/// The JSON object of `serde_json`.
#[verifier::external_type_specification]
#[verifier::external_body]
#[verifier::reject_recursive_types(K)]
#[verifier::reject_recursive_types(V)]
pub struct ExObject<K, V>(serde_json::Map<K, V>);

/// One member of an object: its key and its value.
pub type Member = (Seq<char>, Json);

/// What a JSON value says.
pub enum Json {
    Null,
    Bool(bool),
    Integer(int),
    /// A number that is held as a fraction.
    Fraction(serde_json::Number),
    Text(Seq<char>),
    Array(Seq<Json>),
    /// The members of an object, in the order in which a walk meets them.
    Object(Seq<(Seq<char>, Json)>),
}

/// What a `serde_json::Value` says.
pub uninterp spec fn json_of(value: serde_json::Value) -> Json;

/// The members of a `serde_json::Map`, in the order in which a walk meets
/// them.
pub uninterp spec fn members_of(object: serde_json::Map<String, serde_json::Value>) -> Seq<
    (Seq<char>, Json),
>;

/// The JSON text, in bytes, that `serde_json::to_vec` writes for a value that
/// says `json`. A number that holds an integer is written by that integer.
pub uninterp spec fn json_text(json: Json) -> Seq<u8>;

/// The integer that a `serde_json::Number` holds, as its method `as_i128`
/// gives it; none where it holds a fraction.
pub uninterp spec fn integer_of(number: serde_json::Number) -> Option<i128>;

/// What a `serde_json::Number` says.
pub open spec fn number_json(number: serde_json::Number) -> Json {
    match integer_of(number) {
        Some(n) => Json::Integer(n as int),
        None => Json::Fraction(number),
    }
}

/// What the values of a list say.
pub open spec fn jsons_of(values: Seq<serde_json::Value>) -> Seq<Json> {
    values.map_values(|value: serde_json::Value| json_of(value))
}

/// The member that a key and a value make.
pub open spec fn member_of(pair: (String, serde_json::Value)) -> Member {
    (pair.0@, json_of(pair.1))
}

/// The members that a list of keys and values makes.
pub open spec fn pairs_of(pairs: Seq<(String, serde_json::Value)>) -> Seq<Member> {
    pairs.map_values(|pair: (String, serde_json::Value)| member_of(pair))
}

// ---------------------------------------------------------------------------
// Members in key order
// ---------------------------------------------------------------------------

/// Whether the keys of the members ascend strictly.
pub open spec fn keys_ascend(members: Seq<Member>) -> bool {
    forall|i: int, j: int|
        0 <= i < j < members.len() ==> text_before(#[trigger] members[i].0, #[trigger] members[j].0)
}

/// Whether no key occurs twice.
pub open spec fn keys_distinct(members: Seq<Member>) -> bool {
    forall|i: int, j: int|
        0 <= i < j < members.len() ==> (#[trigger] members[i]).0 != (#[trigger] members[j]).0
}

/// Members in key order, with `key` set to `value`: a member with that key is
/// replaced, else one is put in its place.
pub open spec fn with_member(members: Seq<Member>, key: Seq<char>, value: Json) -> Seq<Member>
    decreases members.len(),
{
    if members.len() == 0 || text_before(key, members[0].0) {
        seq![(key, value)] + members
    } else if members[0].0 == key {
        seq![(key, value)] + members.drop_first()
    } else {
        seq![members[0]] + with_member(members.drop_first(), key, value)
    }
}

/// The members without those whose key is `key`.
pub open spec fn without_member(members: Seq<Member>, key: Seq<char>) -> Seq<Member>
    decreases members.len(),
{
    if members.len() == 0 {
        members
    } else if members[0].0 == key {
        without_member(members.drop_first(), key)
    } else {
        seq![members[0]] + without_member(members.drop_first(), key)
    }
}

/// The members in key order; of several with one key the last stays.
pub open spec fn sorted_members(members: Seq<Member>) -> Seq<Member>
    decreases members.len(),
{
    if members.len() == 0 {
        members
    } else {
        with_member(
            sorted_members(members.drop_last()),
            members.last().0,
            members.last().1,
        )
    }
}

/// The canonical form of a value: every object in it, at any depth, has its
/// members in key order.
pub open spec fn canonical(json: Json) -> Json
    decreases json,
{
    match json {
        Json::Array(items) => Json::Array(canonical_items(items)),
        Json::Object(members) => Json::Object(sorted_members(canonical_values(members))),
        other => other,
    }
}

/// The items in canonical form.
pub open spec fn canonical_items(items: Seq<Json>) -> Seq<Json>
    decreases items,
{
    Seq::new(
        items.len(),
        |i: int|
            if 0 <= i < items.len() {
                canonical(items[i])
            } else {
                Json::Null
            },
    )
}

/// The members with every value in canonical form.
pub open spec fn canonical_values(members: Seq<Member>) -> Seq<Member>
    decreases members,
{
    Seq::new(
        members.len(),
        |i: int|
            if 0 <= i < members.len() {
                (members[i].0, canonical(members[i].1))
            } else {
                members[i]
            },
    )
}

/// Setting a member where the list says it belongs: in front of the first
/// later key.
proof fn lemma_with_member_inserts(members: Seq<Member>, key: Seq<char>, value: Json, p: int)
    requires
        0 <= p <= members.len(),
        forall|i: int| 0 <= i < p ==> text_before(#[trigger] members[i].0, key),
        p < members.len() ==> text_before(key, members[p].0),
    ensures
        with_member(members, key, value) == members.insert(p, (key, value)),
    decreases members.len(),
{
    if p == 0 {
        assert(with_member(members, key, value) =~= members.insert(p, (key, value)));
    } else {
        law_text_order_total(members[0].0, key);
        let rest = members.drop_first();
        assert forall|i: int| 0 <= i < p - 1 implies text_before(#[trigger] rest[i].0, key) by {
            assert(rest[i] == members[i + 1]);
        }
        lemma_with_member_inserts(rest, key, value, p - 1);
        assert(with_member(members, key, value) =~= members.insert(p, (key, value)));
    }
}

/// Setting a member whose key is there replaces its value.
proof fn lemma_with_member_replaces(members: Seq<Member>, key: Seq<char>, value: Json, p: int)
    requires
        0 <= p < members.len(),
        forall|i: int| 0 <= i < p ==> text_before(#[trigger] members[i].0, key),
        members[p].0 == key,
    ensures
        with_member(members, key, value) == members.update(p, (key, value)),
    decreases members.len(),
{
    law_text_order_irreflexive(key);
    if p == 0 {
        assert(with_member(members, key, value) =~= members.update(p, (key, value)));
    } else {
        law_text_order_total(members[0].0, key);
        let rest = members.drop_first();
        assert forall|i: int| 0 <= i < p - 1 implies text_before(#[trigger] rest[i].0, key) by {
            assert(rest[i] == members[i + 1]);
        }
        lemma_with_member_replaces(rest, key, value, p - 1);
        assert(with_member(members, key, value) =~= members.update(p, (key, value)));
    }
}

/// Setting a member in an ascending list: the list still ascends, and holds
/// the new member and the old ones with other keys.
proof fn lemma_with_member_contents(members: Seq<Member>, key: Seq<char>, value: Json)
    requires
        keys_ascend(members),
    ensures
        keys_ascend(with_member(members, key, value)),
        forall|m: Member| #[trigger]
            with_member(members, key, value).contains(m) <==> (m == (key, value) || (
            members.contains(m) && m.0 != key)),
{
    let p = lemma_place_of(members, key, members.len() as int);
    let result = with_member(members, key, value);
    if p < members.len() && members[p].0 == key {
        lemma_with_member_replaces(members, key, value, p);
        assert forall|m: Member| #[trigger]
            result.contains(m) <==> (m == (key, value) || (members.contains(m) && m.0 != key)) by {
            if result.contains(m) && m != (key, value) {
                let i = choose|i: int| 0 <= i < result.len() && result[i] == m;
                assert(members[i] == m);
                lemma_ascending_keys_differ(members, i, p);
            }
            if members.contains(m) && m.0 != key {
                let i = choose|i: int| 0 <= i < members.len() && members[i] == m;
                assert(result[i] == m);
            }
            assert(result[p] == (key, value));
        }
    } else {
        lemma_with_member_inserts(members, key, value, p);
        assert forall|i: int, j: int| 0 <= i < j < result.len() implies text_before(
            #[trigger] result[i].0,
            #[trigger] result[j].0,
        ) by {
            if j == p {
                assert(result[i] == members[i]);
            } else if i == p {
                assert(result[j] == members[j - 1]);
                if j - 1 > p {
                    law_text_order_transitive(key, members[p].0, members[j - 1].0);
                }
            }
        }
        assert forall|m: Member| #[trigger]
            result.contains(m) <==> (m == (key, value) || (members.contains(m) && m.0 != key)) by {
            if result.contains(m) && m != (key, value) {
                let i = choose|i: int| 0 <= i < result.len() && result[i] == m;
                let k = if i < p { i } else { i - 1 };
                assert(members[k] == m);
                law_text_order_irreflexive(key);
                if k > p {
                    law_text_order_transitive(key, members[p].0, members[k].0);
                }
            }
            if members.contains(m) && m.0 != key {
                let i = choose|i: int| 0 <= i < members.len() && members[i] == m;
                assert(result[if i < p { i } else { i + 1 }] == m);
            }
            assert(result[p] == (key, value));
        }
    }
}

/// Where `key` belongs among the first `n` members of an ascending list.
proof fn lemma_place_of(members: Seq<Member>, key: Seq<char>, n: int) -> (p: int)
    requires
        keys_ascend(members),
        0 <= n <= members.len(),
    ensures
        0 <= p <= n,
        forall|i: int| 0 <= i < p ==> text_before(#[trigger] members[i].0, key),
        p < n ==> members[p].0 == key || text_before(key, members[p].0),
    decreases n,
{
    if n == 0 {
        0
    } else {
        let p = lemma_place_of(members, key, n - 1);
        law_text_order_total(members[n - 1].0, key);
        if p < n - 1 {
            p
        } else if text_before(members[n - 1].0, key) {
            n
        } else {
            n - 1
        }
    }
}

proof fn lemma_ascending_keys_differ(members: Seq<Member>, i: int, j: int)
    requires
        keys_ascend(members),
        0 <= i < members.len(),
        0 <= j < members.len(),
        i != j,
    ensures
        members[i].0 != members[j].0,
{
    law_text_order_irreflexive(members[i].0);
    if i < j {
        assert(text_before(members[i].0, members[j].0));
    } else {
        assert(text_before(members[j].0, members[i].0));
    }
}

/// Sorting gives ascending keys, whatever the members.
pub proof fn law_sorted_members_ascend(members: Seq<Member>)
    ensures
        keys_ascend(sorted_members(members)),
    decreases members.len(),
{
    if members.len() > 0 {
        law_sorted_members_ascend(members.drop_last());
        lemma_with_member_contents(
            sorted_members(members.drop_last()),
            members.last().0,
            members.last().1,
        );
    }
}

/// Sorting members whose keys differ neither loses nor adds one.
pub proof fn law_sorted_members_keep_all(members: Seq<Member>)
    requires
        keys_distinct(members),
    ensures
        forall|m: Member| #[trigger] sorted_members(members).contains(m) <==> members.contains(m),
    decreases members.len(),
{
    if members.len() > 0 {
        let init = members.drop_last();
        law_sorted_members_ascend(init);
        assert(keys_distinct(init)) by {
            assert forall|i: int, j: int| 0 <= i < j < init.len() implies (#[trigger] init[i]).0
                != (#[trigger] init[j]).0 by {
                assert(init[i] == members[i]);
                assert(init[j] == members[j]);
            }
        }
        law_sorted_members_keep_all(init);
        lemma_with_member_contents(sorted_members(init), members.last().0, members.last().1);
        assert forall|m: Member| #[trigger]
            sorted_members(members).contains(m) <==> members.contains(m) by {
            if members.contains(m) {
                let i = choose|i: int| 0 <= i < members.len() && members[i] == m;
                if i < members.len() - 1 {
                    assert(init[i] == m);
                    assert(members[i].0 != members[members.len() - 1].0);
                }
            }
            if init.contains(m) {
                let i = choose|i: int| 0 <= i < init.len() && init[i] == m;
                assert(members[i] == m);
            }
            assert(members[members.len() - 1] == members.last());
        }
    }
}

/// Sorting members that ascend already changes nothing.
pub proof fn law_sorted_members_fixed(members: Seq<Member>)
    requires
        keys_ascend(members),
    ensures
        sorted_members(members) == members,
    decreases members.len(),
{
    if members.len() > 0 {
        let init = members.drop_last();
        assert(keys_ascend(init)) by {
            assert forall|i: int, j: int| 0 <= i < j < init.len() implies text_before(
                #[trigger] init[i].0,
                #[trigger] init[j].0,
            ) by {
                assert(text_before(members[i].0, members[j].0));
            }
        }
        law_sorted_members_fixed(init);
        assert forall|i: int| 0 <= i < init.len() implies text_before(
            #[trigger] init[i].0,
            members.last().0,
        ) by {
            assert(text_before(members[i].0, members[members.len() - 1].0));
        }
        lemma_with_member_inserts(init, members.last().0, members.last().1, init.len() as int);
        assert(sorted_members(members) =~= members);
    }
}

/// Every member of a sorted list is one of the members that were sorted.
proof fn lemma_sorted_members_come_from(members: Seq<Member>, k: int)
    requires
        0 <= k < sorted_members(members).len(),
    ensures
        exists|i: int| 0 <= i < members.len() && members[i] == sorted_members(members)[k],
    decreases members.len(),
{
    let init = members.drop_last();
    let m = sorted_members(members)[k];
    law_sorted_members_ascend(init);
    lemma_with_member_contents(sorted_members(init), members.last().0, members.last().1);
    assert(sorted_members(members).contains(m));
    if m == members.last() {
        assert(members[members.len() - 1] == m);
    } else {
        assert(sorted_members(init).contains(m));
        let j = choose|j: int| 0 <= j < sorted_members(init).len() && sorted_members(init)[j] == m;
        lemma_sorted_members_come_from(init, j);
        let i = choose|i: int| 0 <= i < init.len() && init[i] == sorted_members(init)[j];
        assert(members[i] == m);
    }
}

/// Lists with the same distinct keys at the same places are the same if they
/// are so once sorted.
pub(crate) proof fn lemma_sorting_tells_apart(x: Seq<Member>, y: Seq<Member>)
    requires
        keys_distinct(x),
        x.len() == y.len(),
        forall|i: int| 0 <= i < x.len() ==> (#[trigger] x[i]).0 == y[i].0,
        sorted_members(x) == sorted_members(y),
    ensures
        x == y,
{
    law_sorted_members_keep_all(x);
    assert forall|i: int| 0 <= i < x.len() implies x[i] == y[i] by {
        assert(x.contains(x[i]));
        assert(sorted_members(x).contains(x[i]));
        let k = choose|k: int| 0 <= k < sorted_members(y).len() && sorted_members(y)[k] == x[i];
        lemma_sorted_members_come_from(y, k);
        let j = choose|j: int| 0 <= j < y.len() && y[j] == sorted_members(y)[k];
        assert(x[j].0 == x[i].0);
        if j < i {
            assert(x[j].0 != x[i].0);
        }
        if i < j {
            assert(x[i].0 != x[j].0);
        }
    }
    assert(x =~= y);
}

/// Removing a key that no member has changes nothing.
pub(crate) proof fn lemma_removing_absent_key(members: Seq<Member>, key: Seq<char>)
    requires
        forall|i: int| 0 <= i < members.len() ==> (#[trigger] members[i]).0 != key,
    ensures
        without_member(members, key) == members,
    decreases members.len(),
{
    if members.len() > 0 {
        let tail = members.drop_first();
        assert forall|i: int| 0 <= i < tail.len() implies (#[trigger] tail[i]).0 != key by {
            assert(members[i + 1].0 != key);
        }
        lemma_removing_absent_key(tail, key);
        assert(members[0].0 != key);
        assert(without_member(members, key) =~= members);
    }
}

/// Setting a key last and removing it again leaves the others sorted.
pub(crate) proof fn lemma_removing_last_key(members: Seq<Member>, key: Seq<char>, value: Json)
    requires
        forall|i: int| 0 <= i < members.len() ==> (#[trigger] members[i]).0 != key,
    ensures
        without_member(sorted_members(members.push((key, value))), key) == sorted_members(members),
{
    let sorted = sorted_members(members);
    assert(members.push((key, value)).drop_last() =~= members);
    law_removing_undoes_setting(sorted, key, value);
    assert forall|k: int| 0 <= k < sorted.len() implies (#[trigger] sorted[k]).0 != key by {
        lemma_sorted_members_come_from(members, k);
        let i = choose|i: int| 0 <= i < members.len() && members[i] == sorted[k];
        assert(members[i].0 != key);
    }
    lemma_removing_absent_key(sorted, key);
}

/// An object has no fractions if its values have none.
pub(crate) proof fn lemma_sorted_object_has_no_fractions(members: Seq<Member>)
    requires
        forall|i: int| 0 <= i < members.len() ==> no_fractions((#[trigger] members[i]).1),
    ensures
        no_fractions(Json::Object(sorted_members(members))),
{
    let sorted = sorted_members(members);
    assert forall|k: int| 0 <= k < sorted.len() implies no_fractions((#[trigger] sorted[k]).1) by {
        lemma_sorted_members_come_from(members, k);
        let i = choose|i: int| 0 <= i < members.len() && members[i] == sorted[k];
        assert(no_fractions(members[i].1));
    }
}

/// An object is ordered throughout if it is sorted and its values are.
pub(crate) proof fn lemma_sorted_object_is_ordered(members: Seq<Member>)
    requires
        forall|i: int| 0 <= i < members.len() ==> keys_ascend_throughout((#[trigger] members[i]).1),
    ensures
        keys_ascend_throughout(Json::Object(sorted_members(members))),
{
    let sorted = sorted_members(members);
    law_sorted_members_ascend(members);
    assert forall|k: int| 0 <= k < sorted.len() implies keys_ascend_throughout(
        (#[trigger] sorted[k]).1,
    ) by {
        lemma_sorted_members_come_from(members, k);
        let i = choose|i: int| 0 <= i < members.len() && members[i] == sorted[k];
        assert(keys_ascend_throughout(members[i].1));
    }
}

proof fn lemma_setting_canonical_value(members: Seq<Member>, key: Seq<char>, value: Json)
    ensures
        with_member(canonical_values(members), key, canonical(value)) == canonical_values(
            with_member(members, key, value),
        ),
    decreases members.len(),
{
    let left = with_member(canonical_values(members), key, canonical(value));
    let right = canonical_values(with_member(members, key, value));
    if members.len() > 0 {
        assert(canonical_values(members).drop_first() =~= canonical_values(members.drop_first()));
        lemma_setting_canonical_value(members.drop_first(), key, value);
    }
    assert(left =~= right);
}

/// Sorting and bringing the values into canonical form may change places.
proof fn lemma_sorting_canonical_values(members: Seq<Member>)
    ensures
        sorted_members(canonical_values(members)) == canonical_values(sorted_members(members)),
    decreases members.len(),
{
    if members.len() > 0 {
        let init = members.drop_last();
        lemma_sorting_canonical_values(init);
        assert(canonical_values(members).drop_last() =~= canonical_values(init));
        lemma_setting_canonical_value(sorted_members(init), members.last().0, members.last().1);
    } else {
        assert(sorted_members(canonical_values(members)) =~= canonical_values(
            sorted_members(members),
        ));
    }
}

// ---------------------------------------------------------------------------
// What the canonical form promises
// ---------------------------------------------------------------------------

/// Whether no object in a value, at any depth, has one key twice.
pub open spec fn keys_distinct_throughout(json: Json) -> bool
    decreases json,
{
    match json {
        Json::Array(items) => forall|i: int|
            0 <= i < items.len() ==> keys_distinct_throughout(#[trigger] items[i]),
        Json::Object(members) => keys_distinct(members) && forall|i: int|
            0 <= i < members.len() ==> keys_distinct_throughout((#[trigger] members[i]).1),
        _ => true,
    }
}

/// Whether every object in a value, at any depth, has its members in strictly
/// ascending key order.
pub open spec fn keys_ascend_throughout(json: Json) -> bool
    decreases json,
{
    match json {
        Json::Array(items) => forall|i: int|
            0 <= i < items.len() ==> keys_ascend_throughout(#[trigger] items[i]),
        Json::Object(members) => keys_ascend(members) && forall|i: int|
            0 <= i < members.len() ==> keys_ascend_throughout((#[trigger] members[i]).1),
        _ => true,
    }
}

/// Whether no number in a value, at any depth, is held as a fraction.
pub open spec fn no_fractions(json: Json) -> bool
    decreases json,
{
    match json {
        Json::Fraction(_) => false,
        Json::Array(items) => forall|i: int|
            0 <= i < items.len() ==> no_fractions(#[trigger] items[i]),
        Json::Object(members) => forall|i: int|
            0 <= i < members.len() ==> no_fractions((#[trigger] members[i]).1),
        _ => true,
    }
}

/// Whether some `serde_json::Value` says `json`.
pub open spec fn is_said(json: Json) -> bool {
    exists|value: serde_json::Value| #[trigger] json_of(value) == json
}

/// Keys that ascend differ.
pub proof fn law_ordered_keys_are_distinct(json: Json)
    requires
        keys_ascend_throughout(json),
    ensures
        keys_distinct_throughout(json),
    decreases json,
{
    match json {
        Json::Array(items) => {
            assert forall|i: int| 0 <= i < items.len() implies keys_distinct_throughout(
                #[trigger] items[i],
            ) by {
                law_ordered_keys_are_distinct(items[i]);
            }
        },
        Json::Object(members) => {
            assert forall|i: int, j: int| 0 <= i < j < members.len() implies (
            #[trigger] members[i]).0 != (#[trigger] members[j]).0 by {
                lemma_ascending_keys_differ(members, i, j);
            }
            assert forall|i: int| 0 <= i < members.len() implies keys_distinct_throughout(
                (#[trigger] members[i]).1,
            ) by {
                law_ordered_keys_are_distinct(members[i].1);
            }
        },
        _ => {},
    }
}

/// Whether two values say the same but for the order of the members of their
/// objects.
pub open spec fn same_up_to_order(a: Json, b: Json) -> bool
    decreases a,
{
    match (a, b) {
        (Json::Array(x), Json::Array(y)) => x.len() == y.len() && forall|i: int|
            0 <= i < x.len() ==> same_up_to_order(#[trigger] x[i], y[i]),
        (Json::Object(x), Json::Object(y)) => {
            &&& forall|i: int| 0 <= i < x.len() ==> occurs_in(#[trigger] x[i], y)
            &&& forall|j: int| 0 <= j < y.len() ==> stems_from(x, #[trigger] y[j])
        },
        _ => a == b,
    }
}

/// Whether a member occurs among others, its value up to order.
pub open spec fn occurs_in(member: Member, others: Seq<Member>) -> bool
    decreases member,
{
    exists|j: int|
        0 <= j < others.len() && member.0 == (#[trigger] others[j]).0 && same_up_to_order(
            member.1,
            others[j].1,
        )
}

/// Whether a member is found among others, their values up to order.
pub open spec fn stems_from(others: Seq<Member>, member: Member) -> bool
    decreases others,
{
    exists|i: int|
        0 <= i < others.len() && (#[trigger] others[i]).0 == member.0 && same_up_to_order(
            others[i].1,
            member.1,
        )
}

/// Two ascending lists with the same members are the same list.
proof fn lemma_ascending_lists_agree(x: Seq<Member>, y: Seq<Member>)
    requires
        keys_ascend(x),
        keys_ascend(y),
        forall|m: Member|
            #![trigger x.contains(m)]
            #![trigger y.contains(m)]
            x.contains(m) <==> y.contains(m),
    ensures
        x == y,
    decreases x.len(),
{
    if x.len() == 0 {
        if y.len() > 0 {
            assert(y.contains(y[0]));
        }
        assert(x =~= y);
    } else {
        assert(x.contains(x[0]));
        let j = choose|j: int| 0 <= j < y.len() && y[j] == x[0];
        assert(y.contains(y[0]));
        assert(x.contains(y[0]));
        let i = choose|i: int| 0 <= i < x.len() && x[i] == y[0];
        if j > 0 {
            assert(text_before(y[0].0, y[j].0));
            law_text_order_total(x[0].0, y[0].0);
            if i > 0 {
                assert(text_before(x[0].0, x[i].0));
            }
            assert(false);
        }
        let u = x.drop_first();
        let v = y.drop_first();
        assert forall|m: Member|
            #![trigger u.contains(m)]
            #![trigger v.contains(m)]
            u.contains(m) <==> v.contains(m) by {
            if u.contains(m) {
                let k = choose|k: int| 0 <= k < u.len() && u[k] == m;
                assert(x[k + 1] == m);
                assert(x.contains(m));
                lemma_ascending_keys_differ(x, 0, k + 1);
                assert(y.contains(m));
                let l = choose|l: int| 0 <= l < y.len() && y[l] == m;
                assert(v[l - 1] == m);
            }
            if v.contains(m) {
                let k = choose|k: int| 0 <= k < v.len() && v[k] == m;
                assert(y[k + 1] == m);
                lemma_ascending_keys_differ(y, 0, k + 1);
                assert(y.contains(m));
                let l = choose|l: int| 0 <= l < x.len() && x[l] == m;
                assert(u[l - 1] == m);
            }
        }
        lemma_tail_ascends(x);
        lemma_tail_ascends(y);
        lemma_ascending_lists_agree(u, v);
        assert(x =~= seq![x[0]] + u);
        assert(y =~= seq![y[0]] + v);
    }
}

proof fn lemma_tail_ascends(members: Seq<Member>)
    requires
        keys_ascend(members),
        members.len() > 0,
    ensures
        keys_ascend(members.drop_first()),
{
    let tail = members.drop_first();
    assert forall|i: int, j: int| 0 <= i < j < tail.len() implies text_before(
        #[trigger] tail[i].0,
        #[trigger] tail[j].0,
    ) by {
        assert(text_before(members[i + 1].0, members[j + 1].0));
    }
}

/// In the canonical form the members of every object, at any depth, stand in
/// strictly ascending key order.
pub proof fn law_canonical_is_ordered(json: Json)
    ensures
        keys_ascend_throughout(canonical(json)),
    decreases json,
{
    match json {
        Json::Array(items) => {
            let ordered = canonical_items(items);
            assert forall|i: int| 0 <= i < ordered.len() implies keys_ascend_throughout(
                #[trigger] ordered[i],
            ) by {
                law_canonical_is_ordered(items[i]);
            }
        },
        Json::Object(members) => {
            let mapped = canonical_values(members);
            let sorted = sorted_members(mapped);
            law_sorted_members_ascend(mapped);
            assert forall|i: int| 0 <= i < sorted.len() implies keys_ascend_throughout(
                (#[trigger] sorted[i]).1,
            ) by {
                lemma_sorted_members_come_from(mapped, i);
                let k = choose|k: int| 0 <= k < mapped.len() && mapped[k] == sorted[i];
                law_canonical_is_ordered(members[k].1);
            }
        },
        _ => {},
    }
}

/// A value whose objects are ordered already is its own canonical form.
pub proof fn law_ordered_is_canonical(json: Json)
    requires
        keys_ascend_throughout(json),
    ensures
        canonical(json) == json,
    decreases json,
{
    match json {
        Json::Array(items) => {
            assert forall|i: int| 0 <= i < items.len() implies canonical_items(items)[i]
                == items[i] by {
                law_ordered_is_canonical(items[i]);
            }
            assert(canonical_items(items) =~= items);
        },
        Json::Object(members) => {
            assert forall|i: int| 0 <= i < members.len() implies canonical_values(members)[i]
                == members[i] by {
                law_ordered_is_canonical(members[i].1);
            }
            assert(canonical_values(members) =~= members);
            law_sorted_members_fixed(members);
        },
        _ => {},
    }
}

/// Taking the canonical form twice is taking it once.
pub proof fn law_canonical_is_idempotent(json: Json)
    ensures
        canonical(canonical(json)) == canonical(json),
{
    law_canonical_is_ordered(json);
    law_ordered_is_canonical(canonical(json));
}

/// Values that differ in the order of members alone have one canonical form.
pub proof fn law_canonical_ignores_order(a: Json, b: Json)
    requires
        keys_distinct_throughout(a),
        keys_distinct_throughout(b),
        same_up_to_order(a, b),
    ensures
        canonical(a) == canonical(b),
    decreases a,
{
    match (a, b) {
        (Json::Array(x), Json::Array(y)) => {
            assert forall|i: int| 0 <= i < x.len() implies canonical_items(x)[i]
                == canonical_items(y)[i] by {
                assert(keys_distinct_throughout(y[i]));
                law_canonical_ignores_order(x[i], y[i]);
            }
            assert(canonical_items(x) =~= canonical_items(y));
        },
        (Json::Object(x), Json::Object(y)) => {
            assert forall|i: int, j: int|
                0 <= i < x.len() && 0 <= j < y.len() && #[trigger] same_up_to_order(
                    x[i].1,
                    y[j].1,
                ) implies canonical(x[i].1) == canonical(y[j].1) by {
                assert(keys_distinct_throughout(x[i].1));
                assert(keys_distinct_throughout(y[j].1));
                law_canonical_ignores_order(x[i].1, y[j].1);
            }
            assert forall|i: int| 0 <= i < x.len() implies has_same_member(
                y,
                #[trigger] x[i],
            ) by {
                assert(occurs_in(x[i], y));
                let j = choose|j: int|
                    0 <= j < y.len() && x[i].0 == (#[trigger] y[j]).0 && same_up_to_order(
                        x[i].1,
                        y[j].1,
                    );
                assert(same_member(y[j], x[i]));
            }
            assert forall|j: int| 0 <= j < y.len() implies has_same_member(
                x,
                #[trigger] y[j],
            ) by {
                assert(stems_from(x, y[j]));
                let i = choose|i: int|
                    0 <= i < x.len() && (#[trigger] x[i]).0 == y[j].0 && same_up_to_order(
                        x[i].1,
                        y[j].1,
                    );
                assert(same_member(x[i], y[j]));
            }
            lemma_same_members_sort_alike(x, y);
        },
        _ => {},
    }
}

/// Whether two members have one key, and values with one canonical form.
spec fn same_member(a: Member, b: Member) -> bool {
    a.0 == b.0 && canonical(a.1) == canonical(b.1)
}

spec fn has_same_member(members: Seq<Member>, m: Member) -> bool {
    exists|i: int| 0 <= i < members.len() && same_member(#[trigger] members[i], m)
}

proof fn lemma_same_members_sort_alike(x: Seq<Member>, y: Seq<Member>)
    requires
        keys_distinct(x),
        keys_distinct(y),
        forall|i: int| 0 <= i < x.len() ==> has_same_member(y, #[trigger] x[i]),
        forall|j: int| 0 <= j < y.len() ==> has_same_member(x, #[trigger] y[j]),
    ensures
        sorted_members(canonical_values(x)) == sorted_members(canonical_values(y)),
{
    let u = canonical_values(x);
    let v = canonical_values(y);
    lemma_canonical_keys_distinct(x);
    lemma_canonical_keys_distinct(y);
    law_sorted_members_ascend(u);
    law_sorted_members_ascend(v);
    law_sorted_members_keep_all(u);
    law_sorted_members_keep_all(v);
    assert forall|m: Member|
        #![trigger sorted_members(u).contains(m)]
        #![trigger sorted_members(v).contains(m)]
        sorted_members(u).contains(m) <==> sorted_members(v).contains(m) by {
        if u.contains(m) {
            let i = choose|i: int| 0 <= i < u.len() && u[i] == m;
            assert(has_same_member(y, x[i]));
            let j = choose|j: int| 0 <= j < y.len() && same_member(#[trigger] y[j], x[i]);
            assert(v[j] == m);
        }
        if v.contains(m) {
            let j = choose|j: int| 0 <= j < v.len() && v[j] == m;
            assert(has_same_member(x, y[j]));
            let i = choose|i: int| 0 <= i < x.len() && same_member(#[trigger] x[i], y[j]);
            assert(u[i] == m);
        }
    }
    lemma_ascending_lists_agree(sorted_members(u), sorted_members(v));
}

proof fn lemma_canonical_keys_distinct(members: Seq<Member>)
    requires
        keys_distinct(members),
    ensures
        keys_distinct(canonical_values(members)),
{
    let mapped = canonical_values(members);
    assert forall|i: int, j: int| 0 <= i < j < mapped.len() implies (#[trigger] mapped[i]).0 != (
    #[trigger] mapped[j]).0 by {
        assert(members[i].0 != members[j].0);
    }
}

/// The canonical form says what the value says: they differ in the order of
/// members alone.
pub proof fn law_canonical_keeps_meaning(json: Json)
    requires
        keys_distinct_throughout(json),
    ensures
        same_up_to_order(json, canonical(json)),
    decreases json,
{
    match json {
        Json::Array(items) => {
            let ordered = canonical_items(items);
            assert(items.len() == ordered.len());
            assert forall|i: int| 0 <= i < items.len() implies same_up_to_order(
                #[trigger] items[i],
                ordered[i],
            ) by {
                law_canonical_keeps_meaning(items[i]);
            }
        },
        Json::Object(x) => {
            let mapped = canonical_values(x);
            let y = sorted_members(mapped);
            lemma_canonical_keys_distinct(x);
            law_sorted_members_keep_all(mapped);
            assert forall|i: int| 0 <= i < x.len() implies occurs_in(#[trigger] x[i], y) by {
                assert(mapped.contains(mapped[i]));
                assert(y.contains(mapped[i]));
                let j = choose|j: int| 0 <= j < y.len() && y[j] == mapped[i];
                law_canonical_keeps_meaning(x[i].1);
                assert(x[i].0 == y[j].0);
            }
            assert forall|j: int| 0 <= j < y.len() implies stems_from(x, #[trigger] y[j]) by {
                lemma_sorted_members_come_from(mapped, j);
                let i = choose|i: int| 0 <= i < mapped.len() && mapped[i] == y[j];
                law_canonical_keeps_meaning(x[i].1);
                assert(x[i].0 == y[j].0);
            }
        },
        _ => {},
    }
}

// ---------------------------------------------------------------------------
// Calls of serde_json
// ---------------------------------------------------------------------------

/// One level of a JSON value.
pub enum Shape {
    Null,
    Bool(bool),
    Number(serde_json::Number),
    Text(String),
    Array(Vec<serde_json::Value>),
    Object(serde_json::Map<String, serde_json::Value>),
}

impl View for Shape {
    type V = Json;

    open spec fn view(&self) -> Json {
        match self {
            Shape::Null => Json::Null,
            Shape::Bool(flag) => Json::Bool(*flag),
            Shape::Number(number) => number_json(*number),
            Shape::Text(text) => Json::Text(text@),
            Shape::Array(items) => Json::Array(jsons_of(items@)),
            Shape::Object(object) => Json::Object(members_of(*object)),
        }
    }
}

/// Tells the variants of `serde_json::Value` apart. Trusted: each variant is
/// handed over with the contents that it holds.
#[verifier::external_body]
fn shape_of(value: serde_json::Value) -> (shape: Shape)
    ensures
        shape@ == json_of(value),
{
    match value {
        serde_json::Value::Null => Shape::Null,
        serde_json::Value::Bool(flag) => Shape::Bool(flag),
        serde_json::Value::Number(number) => Shape::Number(number),
        serde_json::Value::String(text) => Shape::Text(text),
        serde_json::Value::Array(items) => Shape::Array(items),
        serde_json::Value::Object(object) => Shape::Object(object),
    }
}

/// Builds a `serde_json::Value` of each variant. Trusted: the value holds the
/// contents that it was given.
#[verifier::external_body]
fn value_of(shape: Shape) -> (value: serde_json::Value)
    ensures
        json_of(value) == shape@,
{
    match shape {
        Shape::Null => serde_json::Value::Null,
        Shape::Bool(flag) => serde_json::Value::Bool(flag),
        Shape::Number(number) => serde_json::Value::Number(number),
        Shape::Text(text) => serde_json::Value::String(text),
        Shape::Array(items) => serde_json::Value::Array(items),
        Shape::Object(object) => serde_json::Value::Object(object),
    }
}

/// Calls `serde_json::Map::new`. Trusted: the object has no members.
#[verifier::external_body]
fn object_new() -> (object: serde_json::Map<String, serde_json::Value>)
    ensures
        members_of(object) == Seq::<Member>::empty(),
{
    serde_json::Map::new()
}

/// Calls `serde_json::Map::insert`. Trusted: the map, which without the
/// feature `preserve_order` is a `BTreeMap` and has its members in key order,
/// then holds the value under the key, and its other members as before.
#[verifier::external_body]
fn object_insert(
    object: &mut serde_json::Map<String, serde_json::Value>,
    key: String,
    value: serde_json::Value,
)
    ensures
        members_of(*final(object)) == with_member(members_of(*old(object)), key@, json_of(value)),
{
    object.insert(key, value);
}

/// Calls `serde_json::Map::remove`. Trusted: the map then has no member with
/// that key, and its other members as before.
#[verifier::external_body]
fn object_remove(object: &mut serde_json::Map<String, serde_json::Value>, key: &str)
    ensures
        members_of(*final(object)) == without_member(members_of(*old(object)), key@),
{
    object.remove(key);
}

/// Calls the `into_iter` of `serde_json::Map`. Trusted: it hands out the
/// members of the map, in the order in which a walk meets them. That is key
/// order, since without the feature `preserve_order` the map is a `BTreeMap`.
#[verifier::external_body]
fn object_into_pairs(object: serde_json::Map<String, serde_json::Value>) -> (pairs: Vec<
    (String, serde_json::Value),
>)
    ensures
        pairs_of(pairs@) == members_of(object),
        keys_ascend(pairs_of(pairs@)),
{
    object.into_iter().collect()
}

/// Calls `serde_json::Number::from_i128`. Trusted: there is a number for each
/// integer that an `i64` or a `u64` can hold, which holds that integer, and for
/// no other.
#[verifier::external_body]
fn number_from(n: i128) -> (number: Option<serde_json::Number>)
    ensures
        i64::MIN <= n <= u64::MAX ==> number is Some && integer_of(number->0) == Some(n),
        !(i64::MIN <= n <= u64::MAX) ==> number is None,
{
    serde_json::Number::from_i128(n)
}

/// Calls `serde_json::to_vec` on a `serde_json::Value`. Trusted: it does not
/// fail, since all keys are texts; what it writes depends on what the value
/// says alone; and of values without fractions it writes one text only for
/// those that say the same. How fractions are written is left unsaid.
#[verifier::external_body]
pub(crate) fn value_to_vec(value: &serde_json::Value) -> (text: Option<Vec<u8>>)
    ensures
        text is Some,
        text->0@ == json_text(json_of(*value)),
        no_fractions(json_of(*value)) ==> forall|other: serde_json::Value|
            no_fractions(#[trigger] json_of(other)) && json_text(json_of(other)) == text->0@
                ==> json_of(other) == json_of(*value),
{
    serde_json::to_vec(value).ok()
}

// ---------------------------------------------------------------------------
// The canonical form, computed
// ---------------------------------------------------------------------------

/// Sorts members by key; of several with one key the last stays.
fn sort_pairs(pairs: Vec<(String, serde_json::Value)>) -> (sorted: Vec<
    (String, serde_json::Value),
>)
    ensures
        pairs_of(sorted@) == sorted_members(pairs_of(pairs@)),
{
    let ghost waiting = pairs@;
    let ghost all = pairs_of(waiting);
    let mut sorted: Vec<(String, serde_json::Value)> = Vec::new();
    assert(all.take(0) =~= Seq::<Member>::empty());
    assert(pairs_of(sorted@) =~= Seq::<Member>::empty());
    for pair in it: pairs
        invariant
            it.seq() == waiting,
            all == pairs_of(waiting),
            pairs_of(sorted@) == sorted_members(all.take(it.index())),
    {
        let ghost before = sorted@;
        proof {
            let i = it.index();
            assert(all[i] == member_of(pair));
            assert(all.take(i + 1).drop_last() =~= all.take(i));
            assert(all.take(i + 1).last() == member_of(pair));
            law_sorted_members_ascend(all.take(i));
        }
        let mut p: usize = 0;
        while p < sorted.len() && is_text_before(sorted[p].0.as_str(), pair.0.as_str())
            invariant
                p <= sorted@.len(),
                forall|i: int|
                    0 <= i < p ==> text_before(#[trigger] pairs_of(sorted@)[i].0, pair.0@),
            decreases sorted@.len() - p,
        {
            p += 1;
        }
        proof {
            if p < sorted@.len() {
                law_text_order_total(pairs_of(sorted@)[p as int].0, pair.0@);
            }
        }
        if p < sorted.len() && !is_text_before(pair.0.as_str(), sorted[p].0.as_str()) {
            proof {
                lemma_with_member_replaces(pairs_of(before), pair.0@, json_of(pair.1), p as int);
            }
            let ghost member = member_of(pair);
            sorted.set(p, pair);
            assert(pairs_of(sorted@) =~= pairs_of(before).update(p as int, member));
        } else {
            proof {
                lemma_with_member_inserts(pairs_of(before), pair.0@, json_of(pair.1), p as int);
            }
            let ghost member = member_of(pair);
            sorted.insert(p, pair);
            assert(pairs_of(sorted@) =~= pairs_of(before).insert(p as int, member));
        }
    }
    assert(all.take(waiting.len() as int) =~= all);
    sorted
}

/// The value with the members of every object, at any depth, in key order.
/// They stand so in every `serde_json::Value`, which thus says the same as
/// before.
pub fn canonical_json_value(value: serde_json::Value) -> (ordered: serde_json::Value)
    ensures
        json_of(ordered) == canonical(json_of(value)),
        keys_ascend_throughout(json_of(ordered)),
        keys_ascend_throughout(json_of(value)),
        json_of(ordered) == json_of(value),
    decreases json_of(value),
{
    let ghost json = json_of(value);
    proof {
        law_canonical_is_ordered(json);
    }
    match shape_of(value) {
        Shape::Array(items) => {
            let ghost all = json->Array_0;
            let ghost waiting = items@;
            let mut ordered: Vec<serde_json::Value> = Vec::new();
            assert(jsons_of(ordered@) =~= canonical_items(all).take(0));
            for item in it: items
                invariant
                    json == json_of(value),
                    json is Array,
                    all == json->Array_0,
                    it.seq() == waiting,
                    jsons_of(waiting) == all,
                    ordered@.len() == it.index(),
                    jsons_of(ordered@) == canonical_items(all).take(it.index()),
                    forall|k: int| 0 <= k < it.index() ==> keys_ascend_throughout(#[trigger] all[k]),
            {
                let ghost i = it.index();
                proof {
                    assert(jsons_of(waiting)[i] == json_of(waiting[i]));
                    assert(json_of(item) == json->Array_0[i]);
                    assert(decreases_to!(json => json->Array_0));
                    assert(decreases_to!(json->Array_0 => json->Array_0[i]));
                }
                let next = canonical_json_value(item);
                ordered.push(next);
                assert(jsons_of(ordered@) =~= canonical_items(all).take(i + 1));
            }
            assert(waiting.len() == jsons_of(waiting).len());
            assert(jsons_of(ordered@) =~= canonical_items(all));
            proof {
                law_ordered_is_canonical(json);
            }
            value_of(Shape::Array(ordered))
        },
        Shape::Object(object) => {
            let ghost all = json->Object_0;
            let pairs = sort_pairs(object_into_pairs(object));
            let ghost waiting = pairs@;
            let ghost inorder = sorted_members(all);
            proof {
                law_sorted_members_fixed(all);
            }
            let mut ordered = object_new();
            assert(canonical_values(inorder).take(0) =~= Seq::<Member>::empty());
            for pair in it: pairs
                invariant
                    json == json_of(value),
                    json is Object,
                    all == json->Object_0,
                    inorder == sorted_members(all),
                    it.seq() == waiting,
                    pairs_of(waiting) == inorder,
                    members_of(ordered) == sorted_members(
                        canonical_values(inorder).take(it.index()),
                    ),
                    inorder == all,
                    forall|k: int|
                        0 <= k < it.index() ==> keys_ascend_throughout((#[trigger] all[k]).1),
            {
                proof {
                    let i = it.index();
                    assert(pairs_of(waiting)[i] == member_of(pair));
                    assert(pairs_of(waiting).len() == waiting.len());
                    lemma_sorted_members_come_from(all, i);
                    let k = choose|k: int| 0 <= k < all.len() && all[k] == inorder[i];
                    assert(decreases_to!(json => json->Object_0));
                    assert(decreases_to!(json->Object_0 => json->Object_0[k]));
                    assert(decreases_to!(json->Object_0[k] => json->Object_0[k].1));
                    let upto = canonical_values(inorder).take(i + 1);
                    assert(upto.drop_last() =~= canonical_values(inorder).take(i));
                    assert(upto.last() == (inorder[i].0, canonical(inorder[i].1)));
                }
                let (key, member) = pair;
                let next = canonical_json_value(member);
                object_insert(&mut ordered, key, next);
            }
            proof {
                assert(pairs_of(waiting).len() == waiting.len());
                assert(canonical_values(inorder).take(waiting.len() as int) =~= canonical_values(
                    inorder,
                ));
                lemma_sorting_canonical_values(all);
                law_sorted_members_ascend(canonical_values(all));
                law_sorted_members_fixed(sorted_members(canonical_values(all)));
                law_ordered_is_canonical(json);
            }
            value_of(Shape::Object(ordered))
        },
        other => value_of(other),
    }
}

// ---------------------------------------------------------------------------
// Building values
// ---------------------------------------------------------------------------

/// Setting a member and then removing its key is removing the key.
pub proof fn law_removing_undoes_setting(members: Seq<Member>, key: Seq<char>, value: Json)
    ensures
        without_member(with_member(members, key, value), key) == without_member(members, key),
    decreases members.len(),
{
    let set = with_member(members, key, value);
    if members.len() == 0 || text_before(key, members[0].0) {
        assert(set.drop_first() =~= members);
    } else if members[0].0 == key {
        assert(set.drop_first() =~= members.drop_first());
    } else {
        law_removing_undoes_setting(members.drop_first(), key, value);
        assert(set.drop_first() =~= with_member(members.drop_first(), key, value));
    }
}

/// A text, as a JSON value.
pub fn text_value(text: &str) -> (value: serde_json::Value)
    ensures
        json_of(value) == Json::Text(text@),
{
    value_of(Shape::Text(text.to_owned()))
}

/// An integer, as a JSON value.
pub fn integer_value(n: i128) -> (value: serde_json::Value)
    requires
        i64::MIN <= n <= u64::MAX,
    ensures
        json_of(value) == Json::Integer(n as int),
{
    value_of(Shape::Number(number_from(n).unwrap()))
}

/// The JSON null.
pub fn null_value() -> (value: serde_json::Value)
    ensures
        json_of(value) == Json::Null,
{
    value_of(Shape::Null)
}

/// The array of the given values.
pub fn array_value(items: Vec<serde_json::Value>) -> (value: serde_json::Value)
    ensures
        json_of(value) == Json::Array(jsons_of(items@)),
{
    value_of(Shape::Array(items))
}

/// The object with the given members; of several with one key the last
/// stays.
pub fn object_value(pairs: Vec<(String, serde_json::Value)>) -> (value: serde_json::Value)
    ensures
        json_of(value) == Json::Object(sorted_members(pairs_of(pairs@))),
{
    let ghost waiting = pairs@;
    let ghost all = pairs_of(waiting);
    let mut object = object_new();
    assert(all.take(0) =~= Seq::<Member>::empty());
    for pair in it: pairs
        invariant
            it.seq() == waiting,
            all == pairs_of(waiting),
            members_of(object) == sorted_members(all.take(it.index())),
    {
        proof {
            let i = it.index();
            assert(all[i] == member_of(pair));
            assert(all.take(i + 1).drop_last() =~= all.take(i));
            assert(all.take(i + 1).last() == member_of(pair));
        }
        let (key, member) = pair;
        object_insert(&mut object, key, member);
    }
    assert(all.take(waiting.len() as int) =~= all);
    value_of(Shape::Object(object))
}

/// What a value says once `key` is removed, where it is an object.
pub open spec fn without_key(json: Json, key: Seq<char>) -> Json {
    match json {
        Json::Object(members) => Json::Object(without_member(members, key)),
        other => other,
    }
}

/// The value without the member `key`, where it is an object; any other value
/// as it is.
pub fn remove_key(value: serde_json::Value, key: &str) -> (rest: serde_json::Value)
    ensures
        json_of(rest) == without_key(json_of(value), key@),
{
    match shape_of(value) {
        Shape::Object(object) => {
            let mut object = object;
            object_remove(&mut object, key);
            value_of(Shape::Object(object))
        },
        other => value_of(other),
    }
}

/// A list of values says what its values say, one by one; a list of keys and
/// values has one member for each, with that key and that value.
pub proof fn law_lists_go_one_by_one(
    values: Seq<serde_json::Value>,
    pairs: Seq<(String, serde_json::Value)>,
)
    ensures
        jsons_of(values).len() == values.len(),
        forall|i: int|
            0 <= i < values.len() ==> #[trigger] jsons_of(values)[i] == json_of(values[i]),
        pairs_of(pairs).len() == pairs.len(),
        forall|i: int|
            0 <= i < pairs.len() ==> #[trigger] pairs_of(pairs)[i] == (
                pairs[i].0@,
                json_of(pairs[i].1),
            ),
{
}

/// Of several members with one key the last stays, with its own value: a
/// member that no later one replaces is kept, and no other member is there.
pub proof fn law_last_member_stays(members: Seq<Member>, m: Member)
    ensures
        sorted_members(members).contains(m) <==> exists|i: int|
            0 <= i < members.len() && #[trigger] members[i] == m && forall|j: int|
                i < j < members.len() ==> (#[trigger] members[j]).0 != m.0,
    decreases members.len(),
{
    if members.len() > 0 {
        let init = members.drop_last();
        let last = members.last();
        law_last_member_stays(init, m);
        law_sorted_members_ascend(init);
        lemma_with_member_contents(sorted_members(init), last.0, last.1);
        assert(members[members.len() - 1] == last);
        if sorted_members(members).contains(m) {
            if m == last {
                assert(members[members.len() - 1] == m);
            } else {
                assert(sorted_members(init).contains(m) && m.0 != last.0);
                let i = choose|i: int|
                    0 <= i < init.len() && #[trigger] init[i] == m && forall|j: int|
                        i < j < init.len() ==> (#[trigger] init[j]).0 != m.0;
                assert(members[i] == m);
                assert forall|j: int| i < j < members.len() implies (#[trigger] members[j]).0
                    != m.0 by {
                    if j < init.len() {
                        assert(init[j].0 != m.0);
                    }
                }
            }
        }
        if exists|i: int|
            0 <= i < members.len() && #[trigger] members[i] == m && forall|j: int|
                i < j < members.len() ==> (#[trigger] members[j]).0 != m.0 {
            let i = choose|i: int|
                0 <= i < members.len() && #[trigger] members[i] == m && forall|j: int|
                    i < j < members.len() ==> (#[trigger] members[j]).0 != m.0;
            if i < init.len() {
                assert(init[i] == m);
                assert(members[members.len() - 1].0 != m.0);
                assert forall|j: int| i < j < init.len() implies (#[trigger] init[j]).0 != m.0 by {
                    assert(members[j].0 != m.0);
                }
            }
        }
    }
}

/// Removing a key goes member by member, in their order: those with the key
/// go, every other stays. A value that is no object has no members to lose.
pub proof fn law_removal_goes_member_by_member(
    front: Seq<Member>,
    m: Member,
    key: Seq<char>,
    json: Json,
)
    ensures
        without_key(Json::Object(Seq::<Member>::empty()), key) == Json::Object(
            Seq::<Member>::empty(),
        ),
        m.0 == key ==> without_key(Json::Object(front.push(m)), key) == without_key(
            Json::Object(front),
            key,
        ),
        m.0 != key ==> without_key(Json::Object(front.push(m)), key) == Json::Object(
            without_key(Json::Object(front), key)->Object_0.push(m),
        ),
        json !is Object ==> without_key(json, key) == json,
    decreases front.len(),
{
    let whole = front.push(m);
    if front.len() > 0 {
        let rest = front.drop_first();
        law_removal_goes_member_by_member(rest, m, key, json);
        assert(whole.drop_first() =~= rest.push(m));
        assert(whole[0] == front[0]);
        if m.0 != key {
            assert(without_member(whole, key) =~= without_member(front, key).push(m));
        }
    } else {
        assert(whole.drop_first() =~= Seq::<Member>::empty());
        if m.0 == key {
            assert(without_member(whole, key) =~= without_member(front, key));
        } else {
            assert(without_member(whole, key) =~= without_member(front, key).push(m));
        }
    }
}

/// Sorting members whose keys differ keeps their number.
pub(crate) proof fn lemma_sorting_keeps_number(members: Seq<Member>)
    requires
        keys_distinct(members),
    ensures
        sorted_members(members).len() == members.len(),
    decreases members.len(),
{
    if members.len() > 0 {
        let init = members.drop_last();
        let key = members.last().0;
        assert forall|i: int, j: int| 0 <= i < j < init.len() implies (#[trigger] init[i]).0 != (
        #[trigger] init[j]).0 by {
            assert(members[i].0 != members[j].0);
        }
        lemma_sorting_keeps_number(init);
        let sorted = sorted_members(init);
        assert forall|k: int| 0 <= k < sorted.len() implies (#[trigger] sorted[k]).0 != key by {
            lemma_sorted_members_come_from(init, k);
            let i = choose|i: int| 0 <= i < init.len() && init[i] == sorted[k];
            assert(members[i].0 != members[members.len() - 1].0);
        }
        lemma_setting_absent_key(sorted, key, members.last().1);
    }
}

proof fn lemma_setting_absent_key(members: Seq<Member>, key: Seq<char>, value: Json)
    requires
        forall|i: int| 0 <= i < members.len() ==> (#[trigger] members[i]).0 != key,
    ensures
        with_member(members, key, value).len() == members.len() + 1,
    decreases members.len(),
{
    if members.len() > 0 && !text_before(key, members[0].0) {
        let rest = members.drop_first();
        assert forall|i: int| 0 <= i < rest.len() implies (#[trigger] rest[i]).0 != key by {
            assert(members[i + 1].0 != key);
        }
        assert(members[0].0 != key);
        lemma_setting_absent_key(rest, key, value);
    }
}

} // verus!
