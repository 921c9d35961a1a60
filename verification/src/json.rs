//! JSON values: an own tree type with its model, and the text form, which
//! `serde_json` reads and writes.

use vstd::prelude::*;
use vstd::string::*;

use crate::number::{i64_of, parse_i64};
use crate::order::{before, before_irreflexive, before_total, before_transitive, is_before};
use crate::text::{opt_view, same, views};

verus! {

// ---------------------------------------------------------------------------
// The tree and its model
// ---------------------------------------------------------------------------

/// A number of `serde_json` that is not an integer of 64 bits.
#[verifier::external_type_specification]
#[verifier::external_body]
pub struct ExNumber(serde_json::Number);

/// A JSON value of `serde_json`.
#[verifier::external_type_specification]
#[verifier::external_body]
pub struct ExValue(serde_json::Value);

/// A number outside the 64-bit integers, carried as it came. The field is
/// private: a value comes from [`Json::from_number`] or from [`Json::parse`] alone, so no
/// 64-bit integer hides in it.
#[derive(Debug, PartialEq)]
pub struct Real(serde_json::Number);

impl Real {
    pub closed spec fn value(self) -> serde_json::Number {
        self.0
    }

    /// The number itself.
    pub fn number(&self) -> (r: &serde_json::Number)
        ensures
            *r == self.value(),
    {
        &self.0
    }
}

/// A JSON value. The fields of an object stand in ascending order of their
/// names, each name once.
#[derive(Debug, PartialEq)]
pub enum Json {
    Null,
    Bool(bool),
    Unsigned(u64),
    /// A negative integer.
    Negative(i64),
    Real(Real),
    Text(String),
    Array(Vec<Json>),
    Object(Vec<(String, Json)>),
}

/// What a JSON value is, mathematically.
pub enum JsonView {
    Null,
    Bool(bool),
    Unsigned(u64),
    Negative(i64),
    Real(Real),
    Text(Seq<char>),
    Array(Seq<JsonView>),
    Object(Seq<(Seq<char>, JsonView)>),
}

impl View for Json {
    type V = JsonView;

    open spec fn view(&self) -> JsonView
        decreases self,
    {
        match self {
            Json::Null => JsonView::Null,
            Json::Bool(b) => JsonView::Bool(*b),
            Json::Unsigned(n) => JsonView::Unsigned(*n),
            Json::Negative(n) => JsonView::Negative(*n),
            Json::Real(n) => JsonView::Real(*n),
            Json::Text(s) => JsonView::Text(s@),
            Json::Array(items) => JsonView::Array(
                Seq::new(
                    items@.len(),
                    |i: int|
                        if 0 <= i < items@.len() {
                            items@[i].view()
                        } else {
                            JsonView::Null
                        },
                ),
            ),
            Json::Object(fields) => JsonView::Object(
                Seq::new(
                    fields@.len(),
                    |i: int|
                        if 0 <= i < fields@.len() {
                            (fields@[i].0@, fields@[i].1.view())
                        } else {
                            (Seq::<char>::empty(), JsonView::Null)
                        },
                ),
            ),
        }
    }
}

pub broadcast proof fn array_view(items: Vec<Json>)
    ensures
        #[trigger] Json::Array(items)@ == JsonView::Array(views(items@)),
{
    reveal_with_fuel(<Json as View>::view, 2);
    let lhs = Json::Array(items)@->Array_0;
    assert forall|i: int| 0 <= i < items@.len() implies #[trigger] lhs[i] == views(items@)[i] by {
        assert(views(items@)[i] == items@[i].view());
    }
    assert(lhs =~= views(items@));
}

pub broadcast proof fn object_view(fields: Vec<(String, Json)>)
    ensures
        #[trigger] Json::Object(fields)@ == JsonView::Object(views(fields@)),
{
    reveal_with_fuel(<Json as View>::view, 2);
    let lhs = Json::Object(fields)@->Object_0;
    assert forall|i: int| 0 <= i < fields@.len() implies #[trigger] lhs[i] == views(fields@)[i] by {
        assert(views(fields@)[i] == fields@[i].view());
    }
    assert(lhs =~= views(fields@));
}

/// Whether the field names ascend strictly.
pub open spec fn ascending(fields: Seq<(Seq<char>, JsonView)>) -> bool {
    forall|i: int, j: int|
        0 <= i < j < fields.len() ==> before((#[trigger] fields[i]).0, (#[trigger] fields[j]).0)
}

/// The value under `key` among the fields.
pub open spec fn lookup(fields: Seq<(Seq<char>, JsonView)>, key: Seq<char>) -> Option<JsonView>
    decreases fields.len(),
{
    if fields.len() == 0 {
        None
    } else if fields[0].0 == key {
        Some(fields[0].1)
    } else {
        lookup(fields.drop_first(), key)
    }
}

impl JsonView {
    /// Whether every object in the tree has ascending field names and every
    /// negative integer is negative.
    pub open spec fn wf(self) -> bool
        decreases self,
    {
        match self {
            JsonView::Negative(n) => n < 0,
            JsonView::Array(items) => forall|i: int|
                0 <= i < items.len() ==> (#[trigger] items[i]).wf(),
            JsonView::Object(fields) => ascending(fields) && forall|i: int|
                0 <= i < fields.len() ==> (#[trigger] fields[i]).1.wf(),
            _ => true,
        }
    }

    /// Whether the tree has no number outside the 64-bit integers and nests at
    /// most `depth` arrays and objects.
    pub open spec fn plain(self, depth: nat) -> bool
        decreases self,
    {
        match self {
            JsonView::Real(_) => false,
            JsonView::Array(items) => depth > 0 && forall|i: int|
                0 <= i < items.len() ==> (#[trigger] items[i]).plain((depth - 1) as nat),
            JsonView::Object(fields) => depth > 0 && forall|i: int|
                0 <= i < fields.len() ==> (#[trigger] fields[i]).1.plain((depth - 1) as nat),
            _ => true,
        }
    }

    /// The value of a field of an object.
    pub open spec fn get(self, key: Seq<char>) -> Option<JsonView> {
        match self {
            JsonView::Object(fields) => lookup(fields, key),
            _ => None,
        }
    }

    pub open spec fn as_text(self) -> Option<Seq<char>> {
        match self {
            JsonView::Text(s) => Some(s),
            _ => None,
        }
    }

    pub open spec fn as_array(self) -> Option<Seq<JsonView>> {
        match self {
            JsonView::Array(items) => Some(items),
            _ => None,
        }
    }

    pub open spec fn as_unsigned(self) -> Option<u64> {
        match self {
            JsonView::Unsigned(n) => Some(n),
            _ => None,
        }
    }

    pub open spec fn as_bool(self) -> Option<bool> {
        match self {
            JsonView::Bool(b) => Some(b),
            _ => None,
        }
    }

    pub open spec fn is_number(self) -> bool {
        self is Unsigned || self is Negative || self is Real
    }
}

// ---------------------------------------------------------------------------
// Building objects
// ---------------------------------------------------------------------------

/// The fields with `value` under `key`: in place of what stood there, or at
/// its place in the order of names.
pub open spec fn put(
    fields: Seq<(Seq<char>, JsonView)>,
    key: Seq<char>,
    value: JsonView,
) -> Seq<(Seq<char>, JsonView)>
    decreases fields.len(),
{
    if fields.len() == 0 {
        seq![(key, value)]
    } else if fields.last().0 == key {
        fields.drop_last().push((key, value))
    } else if before(fields.last().0, key) {
        fields.push((key, value))
    } else {
        put(fields.drop_last(), key, value).push(fields.last())
    }
}

/// No fields.
pub open spec fn no_fields() -> Seq<(Seq<char>, JsonView)> {
    Seq::empty()
}

pub trait Fields: Sized {
    /// The fields with one more, or with one replaced.
    spec fn with(self, key: Seq<char>, value: JsonView) -> Self;
}

impl Fields for Seq<(Seq<char>, JsonView)> {
    open spec fn with(self, key: Seq<char>, value: JsonView) -> Self {
        put(self, key, value)
    }
}

/// An object with one field.
pub open spec fn object1(key: Seq<char>, value: JsonView) -> JsonView {
    JsonView::Object(seq![(key, value)])
}

/// Putting a field keeps the names in order and adds no name but its own.
pub proof fn put_names(fields: Seq<(Seq<char>, JsonView)>, key: Seq<char>, value: JsonView)
    requires
        ascending(fields),
    ensures
        ascending(put(fields, key, value)),
        forall|i: int|
            0 <= i < put(fields, key, value).len() ==> (#[trigger] put(fields, key, value)[i]).0 == key
                || exists|j: int| 0 <= j < fields.len() && fields[j] == put(fields, key, value)[i],
    decreases fields.len(),
{
    let r = put(fields, key, value);
    if fields.len() > 0 {
        let rest = fields.drop_last();
        let last = fields.last();
        assert(ascending(rest));
        before_total(last.0, key);
        if last.0 == key {
        } else if before(last.0, key) {
            assert forall|i: int, j: int| 0 <= i < j < r.len() implies before(
                (#[trigger] r[i]).0,
                (#[trigger] r[j]).0,
            ) by {
                if j == fields.len() && i < fields.len() - 1 {
                    before_transitive(fields[i].0, last.0, key);
                }
            }
        } else {
            put_names(rest, key, value);
            let inner = put(rest, key, value);
            assert forall|i: int, j: int| 0 <= i < j < r.len() implies before(
                (#[trigger] r[i]).0,
                (#[trigger] r[j]).0,
            ) by {
                if j == r.len() - 1 {
                    assert(r[i] == inner[i]);
                    if r[i].0 != key {
                        let k = choose|k: int| 0 <= k < rest.len() && rest[k] == inner[i];
                        assert(rest[k] == fields[k]);
                        assert(before(fields[k].0, fields[fields.len() - 1].0));
                    }
                } else {
                    assert(r[i] == inner[i] && r[j] == inner[j]);
                }
            }
            assert forall|i: int| 0 <= i < r.len() implies (#[trigger] r[i]).0 == key || exists|j: int|
                0 <= j < fields.len() && fields[j] == r[i] by {
                if i < inner.len() {
                    assert(r[i] == inner[i]);
                    if inner[i].0 != key {
                        let k = choose|k: int| 0 <= k < rest.len() && rest[k] == inner[i];
                        assert(fields[k] == r[i]);
                    }
                } else {
                    assert(fields[fields.len() - 1] == r[i]);
                }
            }
        }
    }
}

/// Fields that form a well-formed object.
pub open spec fn fields_wf(fields: Seq<(Seq<char>, JsonView)>) -> bool {
    JsonView::Object(fields).wf()
}

/// Fields without a number outside the 64-bit integers, each nesting at most
/// `depth` arrays and objects.
pub open spec fn fields_plain(fields: Seq<(Seq<char>, JsonView)>, depth: nat) -> bool {
    forall|i: int| 0 <= i < fields.len() ==> (#[trigger] fields[i]).1.plain(depth)
}

/// Putting a plain value among plain fields keeps them plain.
pub proof fn put_plain(fields: Seq<(Seq<char>, JsonView)>, key: Seq<char>, value: JsonView, depth: nat)
    requires
        fields_plain(fields, depth),
        value.plain(depth),
    ensures
        fields_plain(put(fields, key, value), depth),
    decreases fields.len(),
{
    if fields.len() > 0 {
        let rest = fields.drop_last();
        assert forall|i: int| 0 <= i < rest.len() implies (#[trigger] rest[i]).1.plain(depth) by {
            assert(rest[i] == fields[i]);
        }
        put_plain(rest, key, value, depth);
        assert(fields[fields.len() - 1].1.plain(depth));
    }
}

pub broadcast proof fn put_wf(fields: Seq<(Seq<char>, JsonView)>, key: Seq<char>, value: JsonView)
    requires
        fields_wf(fields),
        value.wf(),
    ensures
        fields_wf(#[trigger] put(fields, key, value)),
    decreases fields.len(),
{
    put_names(fields, key, value);
    let r = put(fields, key, value);
    if fields.len() > 0 {
        let rest = fields.drop_last();
        assert(ascending(rest));
        assert forall|i: int| 0 <= i < rest.len() implies (#[trigger] rest[i]).1.wf() by {
            assert(fields[i].1.wf());
        }
        assert(fields_wf(rest));
        put_wf(rest, key, value);
        let inner = put(rest, key, value);
        assert forall|i: int| 0 <= i < r.len() implies (#[trigger] r[i]).1.wf() by {
            if i < fields.len() {
                assert(fields[i].1.wf());
            }
            if i < inner.len() {
                assert(inner[i].1.wf());
            }
            assert(fields[fields.len() - 1].1.wf());
        }
    }
}

pub broadcast proof fn no_fields_wf()
    ensures
        #[trigger] fields_wf(no_fields()),
{
}

/// An object of one field is well-formed where the field is.
pub broadcast proof fn object1_wf(key: Seq<char>, value: JsonView)
    requires
        value.wf(),
    ensures
        (#[trigger] object1(key, value)).wf(),
{
}

/// An array is well-formed where its items are.
pub proof fn array_wf(items: Seq<JsonView>)
    requires
        forall|i: int| 0 <= i < items.len() ==> (#[trigger] items[i]).wf(),
    ensures
        JsonView::Array(items).wf(),
{
}

/// A field that was put is found.
pub proof fn lookup_put(fields: Seq<(Seq<char>, JsonView)>, key: Seq<char>, value: JsonView, other: Seq<char>)
    requires
        ascending(fields),
    ensures
        lookup(put(fields, key, value), other) == if other == key {
            Some(value)
        } else {
            lookup(fields, other)
        },
    decreases fields.len(),
{
    let r = put(fields, key, value);
    put_names(fields, key, value);
    if fields.len() == 0 {
        assert(r =~= no_fields().push((key, value)));
        lookup_split(no_fields(), (key, value), other);
        assert(lookup(no_fields(), other) is None);
        assert(fields =~= no_fields());
    } else {
        let rest = fields.drop_last();
        let last = fields.last();
        assert(ascending(rest));
        before_total(last.0, key);
        lookup_split(rest, last, other);
        assert(rest.push(last) =~= fields);
        if last.0 == key {
            lookup_split(rest, (key, value), other);
            if other == key {
                lookup_absent(rest, key, last.0);
            }
        } else if before(last.0, key) {
            lookup_split(fields, (key, value), other);
            if other == key {
                lookup_absent(rest, key, last.0);
            }
        } else {
            lookup_put(rest, key, value, other);
            lookup_split(put(rest, key, value), last, other);
            if other == key {
                before_irreflexive(key);
            }
        }
    }
}

/// Fields whose names all come before a bound lack every name that does not.
proof fn lookup_absent(fields: Seq<(Seq<char>, JsonView)>, key: Seq<char>, bound: Seq<char>)
    requires
        ascending(fields),
        key == bound || before(bound, key),
        forall|i: int| 0 <= i < fields.len() ==> before((#[trigger] fields[i]).0, bound),
    ensures
        lookup(fields, key) is None,
    decreases fields.len(),
{
    if fields.len() > 0 {
        before_irreflexive(key);
        if key != bound {
            before_transitive(fields[0].0, bound, key);
        }
        lookup_absent(fields.drop_first(), key, bound);
    }
}

proof fn lookup_split(fields: Seq<(Seq<char>, JsonView)>, last: (Seq<char>, JsonView), key: Seq<char>)
    ensures
        lookup(fields.push(last), key) == match lookup(fields, key) {
            Some(v) => Some(v),
            None => if last.0 == key {
                Some(last.1)
            } else {
                None
            },
        },
    decreases fields.len(),
{
    if fields.len() == 0 {
        assert(fields.push(last).drop_first() =~= Seq::<(Seq<char>, JsonView)>::empty());
    } else {
        assert(fields.push(last).drop_first() =~= fields.drop_first().push(last));
        lookup_split(fields.drop_first(), last, key);
    }
}


// ---------------------------------------------------------------------------
// Text form
// ---------------------------------------------------------------------------

/// The tree that a value of `serde_json` holds.
pub uninterp spec fn value_view(value: serde_json::Value) -> JsonView;

/// What `serde_json::from_str` makes of a text: the tree, or the message of
/// its error.
pub uninterp spec fn json_parse(text: Seq<char>) -> Result<JsonView, Seq<char>>;

/// Whether reading `text` gives `tree`.
pub open spec fn reads_as(text: Seq<char>, tree: JsonView) -> bool {
    match json_parse(text) {
        Ok(read) => read == tree,
        Err(_) => false,
    }
}

/// The compact text that `serde_json` prints for a tree.
pub uninterp spec fn json_text(tree: JsonView) -> Seq<char>;

/// The tree for a number of `serde_json`.
pub uninterp spec fn number_view(n: serde_json::Number) -> JsonView;

/// `serde_json::from_str`: reads one JSON value from the whole text. The error
/// is handed on as the message that it prints.
#[verifier::external_body]
fn parse_value(text: &str) -> (r: Result<serde_json::Value, String>)
    ensures
        match json_parse(text@) {
            Ok(tree) => r is Ok && value_view(r->Ok_0) == tree,
            Err(message) => r is Err && r->Err_0@ == message,
        },
{
    serde_json::from_str(text).map_err(|e| e.to_string())
}

/// `serde_json::Value::to_string`: the compact text. Reading the text of a
/// tree gives the tree back, as far as the reader goes: it stops at 128 nested
/// arrays and objects, and a number outside the 64-bit integers may come back
/// changed in its last digit. The text is one line: a line break inside a string
/// is escaped.
#[verifier::external_body]
fn value_text(value: &serde_json::Value) -> (r: String)
    ensures
        r@ == json_text(value_view(*value)),
        value_view(*value).plain(127) ==> reads_as(r@, value_view(*value)),
        !r@.contains('\n'),
{
    value.to_string()
}

/// `serde_json::Number::as_u64` and `as_i64` tell the integers apart: the
/// number as a tree. What is no 64-bit integer is carried unchanged.
#[verifier::external_body]
fn number(n: serde_json::Number) -> (r: Json)
    ensures
        r@ == number_view(n),
        r@.is_number(),
        r@.wf(),
{
    match (n.as_u64(), n.as_i64()) {
        (Some(u), _) => Json::Unsigned(u),
        (None, Some(i)) => Json::Negative(i),
        (None, None) => Json::Real(Real(n)),
    }
}

/// The variants of `serde_json::Value`, one for one. An object of
/// `serde_json` hands its fields out in ascending order of their names.
#[verifier::external_body]
fn from_value(value: serde_json::Value) -> (r: Json)
    ensures
        r@ == value_view(value),
        r@.wf(),
{
    match value {
        serde_json::Value::Null => Json::Null,
        serde_json::Value::Bool(b) => Json::Bool(b),
        serde_json::Value::Number(n) => number(n),
        serde_json::Value::String(s) => Json::Text(s),
        serde_json::Value::Array(items) => Json::Array(items.into_iter().map(from_value).collect()),
        serde_json::Value::Object(map) => Json::Object(
            map.into_iter().map(|(k, v)| (k, from_value(v))).collect(),
        ),
    }
}

/// The variants of `serde_json::Value`, one for one, the other way.
#[verifier::external_body]
fn to_value(tree: &Json) -> (r: serde_json::Value)
    ensures
        tree@.wf() ==> value_view(r) == tree@,
{
    match tree {
        Json::Null => serde_json::Value::Null,
        Json::Bool(b) => serde_json::Value::from(*b),
        Json::Unsigned(n) => serde_json::Value::from(*n),
        Json::Negative(n) => serde_json::Value::from(*n),
        Json::Real(n) => serde_json::Value::Number(n.0.clone()),
        Json::Text(s) => serde_json::Value::String(s.clone()),
        Json::Array(items) => items.iter().map(to_value).collect(),
        Json::Object(fields) => fields.iter().map(|(k, v)| (k.clone(), to_value(v))).collect(),
    }
}

/// `serde_json::Number::clone`: the same number again.
#[verifier::external_body]
fn same_number(n: &Real) -> (r: Real)
    ensures
        r == *n,
{
    Real(n.0.clone())
}

impl Json {
    /// The same value again.
    pub fn copy(&self) -> (r: Json)
        ensures
            r@ == self@,
        decreases self,
    {
        match self {
            Json::Null => Json::Null,
            Json::Bool(b) => Json::Bool(*b),
            Json::Unsigned(n) => Json::Unsigned(*n),
            Json::Negative(n) => Json::Negative(*n),
            Json::Real(n) => Json::Real(same_number(n)),
            Json::Text(s) => Json::Text(s.clone()),
            Json::Array(items) => {
                let mut copies: Vec<Json> = Vec::new();
                for i in 0..items.len()
                    invariant
                        copies@.len() == i,
                        forall|j: int| 0 <= j < i ==> (#[trigger] copies@[j])@ == items@[j]@,
                {
                    copies.push(items[i].copy());
                }
                proof {
                    array_view(*items);
                    array_view(copies);
                    assert(views(copies@) =~= views(items@));
                }
                Json::Array(copies)
            },
            Json::Object(fields) => {
                let mut copies: Vec<(String, Json)> = Vec::new();
                for i in 0..fields.len()
                    invariant
                        copies@.len() == i,
                        forall|j: int|
                            0 <= j < i ==> (#[trigger] copies@[j]).0@ == fields@[j].0@ && copies@[j].1@
                                == fields@[j].1@,
                {
                    copies.push((fields[i].0.clone(), fields[i].1.copy()));
                }
                proof {
                    object_view(*fields);
                    object_view(copies);
                    assert(views(copies@) =~= views(fields@));
                }
                Json::Object(copies)
            },
        }
    }
}

impl Json {
    /// Reads one JSON value; the error is the reader's message.
    pub fn parse(text: &str) -> (r: Result<Json, String>)
        ensures
            match json_parse(text@) {
                Ok(tree) => r is Ok && r->Ok_0@ == tree && tree.wf(),
                Err(message) => r is Err && r->Err_0@ == message,
            },
    {
        match parse_value(text) {
            Ok(value) => Ok(from_value(value)),
            Err(message) => Err(message),
        }
    }

    /// The compact text of a well-formed tree, on one line.
    pub fn render(&self) -> (r: String)
        ensures
            self@.wf() ==> r@ == json_text(self@),
            self@.wf() && self@.plain(127) ==> reads_as(r@, self@),
            !r@.contains('\n'),
    {
        let value = to_value(self);
        value_text(&value)
    }

    /// A number as a tree.
    pub fn from_number(n: serde_json::Number) -> (r: Json)
        ensures
            r@ == number_view(n),
            r@.is_number(),
            r@.wf(),
    {
        number(n)
    }

    /// A string value.
    pub fn text(s: &str) -> (r: Json)
        ensures
            r@ == JsonView::Text(s@),
    {
        Json::Text(s.to_owned())
    }

    /// The value of a field of an object.
    pub fn get(&self, key: &str) -> (r: Option<&Json>)
        ensures
            match r {
                Some(value) => self@.get(key@) == Some(value@),
                None => self@.get(key@) is None,
            },
            r matches Some(value) ==> self@.wf() ==> value@.wf(),
    {
        match self {
            Json::Object(fields) => {
                proof {
                    object_view(*fields);
                }
                find_field(fields, key)
            },
            _ => None,
        }
    }

    pub fn as_text(&self) -> (r: Option<&String>)
        ensures
            match r {
                Some(s) => self@.as_text() == Some(s@),
                None => self@.as_text() is None,
            },
    {
        match self {
            Json::Text(s) => Some(s),
            _ => None,
        }
    }

    pub fn as_array(&self) -> (r: Option<&Vec<Json>>)
        ensures
            match r {
                Some(items) => self@.as_array() == Some(views(items@)),
                None => self@.as_array() is None,
            },
    {
        match self {
            Json::Array(items) => {
                proof {
                    array_view(*items);
                }
                Some(items)
            },
            _ => None,
        }
    }

    pub fn as_object(&self) -> (r: Option<&Vec<(String, Json)>>)
        ensures
            match r {
                Some(fields) => self@ == JsonView::Object(views(fields@)),
                None => !(self@ is Object),
            },
    {
        match self {
            Json::Object(fields) => {
                proof {
                    object_view(*fields);
                }
                Some(fields)
            },
            _ => None,
        }
    }

    pub fn as_unsigned(&self) -> (r: Option<u64>)
        ensures
            r == self@.as_unsigned(),
    {
        match self {
            Json::Unsigned(n) => Some(*n),
            _ => None,
        }
    }

    pub fn as_bool(&self) -> (r: Option<bool>)
        ensures
            r == self@.as_bool(),
    {
        match self {
            Json::Bool(b) => Some(*b),
            _ => None,
        }
    }

    pub fn is_null(&self) -> (r: bool)
        ensures
            r == (self@ is Null),
    {
        matches!(self, Json::Null)
    }
}

/// The value under `key`.
fn find_field<'a>(fields: &'a Vec<(String, Json)>, key: &str) -> (r: Option<&'a Json>)
    ensures
        match r {
            Some(value) => lookup(views(fields@), key@) == Some(value@),
            None => lookup(views(fields@), key@) is None,
        },
        r matches Some(value) ==> fields_wf(views(fields@)) ==> value@.wf(),
{
    let ghost all = views(fields@);
    proof {
        assert(all.skip(0) =~= all);
    }
    let mut i: usize = 0;
    while i < fields.len()
        invariant
            i <= fields@.len(),
            all == views(fields@),
            lookup(all.skip(i as int), key@) == lookup(all, key@),
        decreases fields@.len() - i,
    {
        proof {
            assert(all.skip(i as int).drop_first() =~= all.skip(i + 1));
            assert(all[i as int] == (fields@[i as int].0@, fields@[i as int].1@));
        }
        if same(&fields[i].0, key) {
            return Some(&fields[i].1);
        }
        i = i + 1;
    }
    None
}

/// An object with one field.
pub fn object_of(key: &str, value: Json) -> (r: Json)
    ensures
        r@ == object1(key@, value@),
        value@.wf() ==> r@.wf(),
{
    let ghost v = value@;
    let mut fields: Vec<(String, Json)> = Vec::new();
    fields.push((key.to_owned(), value));
    proof {
        assert(views(fields@) =~= seq![(key@, v)]);
        object_view(fields);
        if v.wf() {
            object1_wf(key@, v);
        }
    }
    Json::Object(fields)
}

/// Puts a value under a name.
pub fn put_field(fields: &mut Vec<(String, Json)>, key: &str, value: Json)
    ensures
        views(final(fields)@) == put(views(old(fields)@), key@, value@),
        fields_wf(views(old(fields)@)) && value@.wf() ==> fields_wf(views(final(fields)@)),
{
    let ghost start = views(fields@);
    let ghost v = value@;
    proof {
        if fields_wf(start) && v.wf() {
            put_wf(start, key@, v);
        }
        assert(start.take(start.len() as int) =~= start);
    }
    let mut at: usize = fields.len();
    while at > 0 && !same(&fields[at - 1].0, key) && !is_before(&fields[at - 1].0, key)
        invariant
            at <= fields@.len(),
            views(fields@) == start,
            put(start, key@, v) == put(start.take(at as int), key@, v) + start.skip(at as int),
        decreases at,
    {
        proof {
            let head = start.take(at as int);
            assert(head.last() == views(fields@)[at - 1]);
            assert(head.drop_last() =~= start.take(at - 1));
            assert(put(head, key@, v) + start.skip(at as int) =~= put(start.take(at - 1), key@, v)
                + start.skip(at - 1));
        }
        at = at - 1;
    }
    let ghost head = start.take(at as int);
    if at > 0 && same(&fields[at - 1].0, key) {
        let name = key.to_owned();
        fields.set(at - 1, (name, value));
        proof {
            assert(head.last() == start[at - 1]);
            assert(views(fields@) =~= start.update(at - 1, (key@, v)));
            assert(start.update(at - 1, (key@, v)) =~= head.drop_last().push((key@, v)) + start.skip(at as int));
        }
    } else {
        let name = key.to_owned();
        fields.insert(at, (name, value));
        proof {
            if at > 0 {
                assert(head.last() == start[at - 1]);
            }
            assert(put(head, key@, v) =~= head.push((key@, v)));
            assert(views(fields@) =~= head.push((key@, v)) + start.skip(at as int));
        }
    }
}

// ---------------------------------------------------------------------------
// Numbers and flags from text
// ---------------------------------------------------------------------------

/// An integer as a tree.
pub open spec fn integer(n: i64) -> JsonView {
    if n >= 0 {
        JsonView::Unsigned(n as u64)
    } else {
        JsonView::Negative(n)
    }
}

pub fn integer_json(n: i64) -> (r: Json)
    ensures
        r@ == integer(n),
        r@.wf(),
{
    if n >= 0 {
        Json::Unsigned(n as u64)
    } else {
        Json::Negative(n)
    }
}

/// The tree of a number; null where there is none.
pub open spec fn number_or_null(n: Option<serde_json::Number>) -> JsonView {
    match n {
        Some(n) => number_view(n),
        None => JsonView::Null,
    }
}

/// What a text gives as a floating-point number: none where it spells none, and
/// null where the number is not finite.
pub uninterp spec fn real_text(text: Seq<char>) -> Option<JsonView>;

/// `str::parse` to the floating-point type that
/// `serde_json::Number::from_f64` takes: the number that the text spells, if it
/// spells one, and no number where that is infinite or no number at all. Which
/// number a text spells is not said beyond that the text decides it.
#[verifier::external_body]
fn parse_real(text: &str) -> (r: Option<Option<serde_json::Number>>)
    ensures
        r is None <==> real_text(text@) is None,
        r matches Some(n) ==> real_text(text@) == Some(number_or_null(n)),
{
    match text.parse() {
        Ok(x) => Some(serde_json::Number::from_f64(x)),
        Err(_) => None,
    }
}

/// An integer where the text spells one, the text itself otherwise.
pub open spec fn integer_or_text(text: Seq<char>) -> JsonView {
    match i64_of(text) {
        Some(n) => integer(n),
        None => JsonView::Text(text),
    }
}

/// A floating-point number where the text spells one, the text itself
/// otherwise.
pub open spec fn real_or_text(text: Seq<char>) -> JsonView {
    match real_text(text) {
        Some(v) => v,
        None => JsonView::Text(text),
    }
}

/// A flag where the text spells one, the text itself otherwise.
pub open spec fn flag_or_text(text: Seq<char>) -> JsonView {
    if text == "true"@ || text == "1"@ {
        JsonView::Bool(true)
    } else if text == "false"@ || text == "0"@ {
        JsonView::Bool(false)
    } else {
        JsonView::Text(text)
    }
}

pub fn to_integer(text: &str) -> (r: Json)
    ensures
        r@ == integer_or_text(text@),
        r@.wf(),
{
    match parse_i64(text) {
        Some(n) => integer_json(n),
        None => Json::text(text),
    }
}

pub fn to_real(text: &str) -> (r: Json)
    ensures
        r@ == real_or_text(text@),
        r@.wf(),
{
    match parse_real(text) {
        Some(number) => match number {
            Some(n) => Json::from_number(n),
            None => Json::Null,
        },
        None => Json::text(text),
    }
}

/// The finite floating-point number that a text spells, if it spells one.
pub open spec fn finite_real(text: Seq<char>) -> Option<JsonView> {
    match real_text(text) {
        Some(v) => if v is Null {
            None
        } else {
            Some(v)
        },
        None => None,
    }
}

pub fn to_finite_real(text: &str) -> (r: Option<Json>)
    ensures
        opt_view(r) == finite_real(text@),
        r matches Some(v) ==> v@.wf(),
{
    match parse_real(text) {
        Some(number) => match number {
            Some(n) => Some(Json::from_number(n)),
            None => None,
        },
        None => None,
    }
}

pub fn to_flag(text: &str) -> (r: Json)
    ensures
        r@ == flag_or_text(text@),
        r@.wf(),
{
    if same(text, "true") || same(text, "1") {
        Json::Bool(true)
    } else if same(text, "false") || same(text, "0") {
        Json::Bool(false)
    } else {
        Json::text(text)
    }
}

// ---------------------------------------------------------------------------
// Fields of replies
// ---------------------------------------------------------------------------

/// The field of a reply as an array.
pub open spec fn array_field(root: JsonView, key: Seq<char>) -> Option<Seq<JsonView>> {
    match root.get(key) {
        Some(v) => v.as_array(),
        None => None,
    }
}

/// The field of a reply as a text.
pub open spec fn text_field(root: JsonView, key: Seq<char>) -> Option<Seq<char>> {
    match root.get(key) {
        Some(v) => v.as_text(),
        None => None,
    }
}

/// The items of an array field. In a well-formed tree they are well-formed.
pub fn get_array<'a>(root: &'a Json, key: &str) -> (r: Option<&'a Vec<Json>>)
    ensures
        match r {
            Some(items) => array_field(root@, key@) == Some(views(items@)),
            None => array_field(root@, key@) is None,
        },
        r matches Some(items) ==> root@.wf() ==> all_wf(views(items@)),
{
    match root.get(key) {
        Some(v) => v.as_array(),
        None => None,
    }
}

/// Whether all the trees are well-formed.
pub open spec fn all_wf(items: Seq<JsonView>) -> bool {
    forall|i: int| 0 <= i < items.len() ==> (#[trigger] items[i]).wf()
}

pub fn get_text<'a>(root: &'a Json, key: &str) -> (r: Option<&'a String>)
    ensures
        match r {
            Some(s) => text_field(root@, key@) == Some(s@),
            None => text_field(root@, key@) is None,
        },
{
    match root.get(key) {
        Some(v) => v.as_text(),
        None => None,
    }
}

} // verus!
