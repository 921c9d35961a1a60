//! Reading the fields of an object that was filled one by one.

use vstd::prelude::*;
use crate::json::{ascending, lookup, lookup_put, no_fields, put_names, Fields, JsonView};

verus! {

/// The fields of an object into which these were put, one after the other.
pub open spec fn filled(pairs: Seq<(Seq<char>, JsonView)>) -> Seq<(Seq<char>, JsonView)>
    decreases pairs.len(),
{
    if pairs.len() == 0 {
        no_fields()
    } else {
        filled(pairs.drop_last()).with(pairs.last().0, pairs.last().1)
    }
}

/// Whether no name stands twice.
pub open spec fn names_differ(pairs: Seq<(Seq<char>, JsonView)>) -> bool {
    forall|i: int, j: int|
        0 <= i < j < pairs.len() ==> (#[trigger] pairs[i]).0 != (#[trigger] pairs[j]).0
}

/// Every field that was put is found under its name, and no other name has one.
pub proof fn fields_are_found(pairs: Seq<(Seq<char>, JsonView)>)
    requires
        names_differ(pairs),
    ensures
        ascending(filled(pairs)),
        forall|i: int|
            0 <= i < pairs.len() ==> lookup(filled(pairs), (#[trigger] pairs[i]).0) == Some(pairs[i].1),
        forall|name: Seq<char>|
            (forall|i: int| 0 <= i < pairs.len() ==> (#[trigger] pairs[i]).0 != name) ==> (#[trigger] lookup(
                filled(pairs),
                name,
            )) is None,
    decreases pairs.len(),
{
    if pairs.len() > 0 {
        let rest = pairs.drop_last();
        let last = pairs.last();
        assert forall|i: int, j: int| 0 <= i < j < rest.len() implies (#[trigger] rest[i]).0 != (
        #[trigger] rest[j]).0 by {
            assert(pairs[i].0 != pairs[j].0);
        }
        fields_are_found(rest);
        put_names(filled(rest), last.0, last.1);
        assert forall|i: int| 0 <= i < pairs.len() implies lookup(filled(pairs), (#[trigger] pairs[i]).0) == Some(
            pairs[i].1,
        ) by {
            lookup_put(filled(rest), last.0, last.1, pairs[i].0);
            if i < rest.len() {
                assert(rest[i] == pairs[i]);
                assert(pairs[i].0 != pairs[pairs.len() - 1].0);
            }
        }
        assert forall|name: Seq<char>|
            (forall|i: int| 0 <= i < pairs.len() ==> (#[trigger] pairs[i]).0 != name) implies (#[trigger] lookup(
            filled(pairs),
            name,
        )) is None by {
            lookup_put(filled(rest), last.0, last.1, name);
            assert(pairs[pairs.len() - 1].0 != name);
            assert forall|i: int| 0 <= i < rest.len() implies (#[trigger] rest[i]).0 != name by {
                assert(rest[i] == pairs[i]);
            }
        }
    }
}

/// A field that is put is found under its name, and the others stay.
pub proof fn with_is_found(fields: Seq<(Seq<char>, JsonView)>, key: Seq<char>, value: JsonView)
    requires
        ascending(fields),
    ensures
        ascending(fields.with(key, value)),
        forall|name: Seq<char>| #[trigger]
            lookup(fields.with(key, value), name) == if name == key {
                Some(value)
            } else {
                lookup(fields, name)
            },
{
    put_names(fields, key, value);
    assert forall|name: Seq<char>| #[trigger] lookup(fields.with(key, value), name) == if name == key {
        Some(value)
    } else {
        lookup(fields, name)
    } by {
        lookup_put(fields, key, value, name);
    }
}

/// Without fields nothing is found.
pub proof fn nothing_is_found()
    ensures
        ascending(no_fields()),
        forall|name: Seq<char>| (#[trigger] lookup(no_fields(), name)) is None,
{
}

} // verus!
