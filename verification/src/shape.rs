//! What descriptors of shapes have in common: the anchor that says which
//! subjects belong to a shape, and the types of its values.

use vstd::prelude::*;
use vstd::string::*;

use crate::number::{decimal_of, decimal_usize};
use crate::rdf::{Literal, LiteralView, Term, TermView};
use crate::text::{opt_view, same, views};

verus! {

/// Which subjects belong to a shape: those of a class, or those that have each
/// of some predicates.
#[derive(Debug)]
pub struct Anchor {
    pub class: Option<String>,
    pub predicate_signature: Option<Vec<String>>,
}

pub struct AnchorView {
    pub class: Option<Seq<char>>,
    pub predicate_signature: Option<Seq<Seq<char>>>,
}

impl View for Anchor {
    type V = AnchorView;

    open spec fn view(&self) -> AnchorView {
        AnchorView {
            class: opt_view(self.class),
            predicate_signature: match self.predicate_signature {
                Some(v) => Some(views(v@)),
                None => None,
            },
        }
    }
}

/// The pattern of a class.
pub open spec fn class_pattern(class: Seq<char>) -> Seq<char> {
    "?subject a <"@ + class + "> ."@
}

/// The pattern of the predicate at a position of a signature.
pub open spec fn signature_pattern(predicate: Seq<char>, at: nat) -> Seq<char> {
    "?subject <"@ + predicate + "> ?_sig"@ + decimal_of(at) + " ."@
}

/// The patterns of a signature.
pub open spec fn signature_patterns(predicates: Seq<Seq<char>>) -> Seq<Seq<char>> {
    Seq::new(predicates.len(), |i: int| signature_pattern(predicates[i], i as nat))
}

/// The patterns of an anchor; none where it names neither class nor signature.
pub open spec fn anchor_patterns(a: AnchorView) -> Option<Seq<Seq<char>>> {
    match (a.class, a.predicate_signature) {
        (Some(class), _) => Some(seq![class_pattern(class)]),
        (None, Some(sig)) => Some(signature_patterns(sig)),
        (None, None) => None,
    }
}

/// The view of some patterns.
pub open spec fn patterns_view(p: Option<Vec<String>>) -> Option<Seq<Seq<char>>> {
    match p {
        Some(v) => Some(views(v@)),
        None => None,
    }
}

/// The patterns that an anchor stands for.
pub fn patterns_of(a: &Anchor) -> (r: Option<Vec<String>>)
    ensures
        patterns_view(r) == anchor_patterns(a@),
{
    let mut r: Vec<String> = Vec::new();
    match &a.class {
        Some(class) => {
            r.push("?subject a <".to_owned().concat(class).concat("> ."));
            proof {
                assert(views(r@) =~= seq![class_pattern(class@)]);
            }
            Some(r)
        },
        None => match &a.predicate_signature {
            Some(sig) => {
                for i in 0..sig.len()
                    invariant
                        views(r@) == signature_patterns(views(sig@)).take(i as int),
                {
                    r.push(
                        "?subject <".to_owned().concat(&sig[i]).concat("> ?_sig").concat(&decimal_usize(i)).concat(
                            " .",
                        ),
                    );
                    proof {
                        assert(views(r@) =~= signature_patterns(views(sig@)).take(i + 1));
                    }
                }
                proof {
                    assert(views(r@) =~= signature_patterns(views(sig@)));
                }
                Some(r)
            },
            None => None,
        },
    }
}

/// A column of a shape.
#[derive(Debug)]
pub struct Column {
    pub name: String,
    pub role: String,
    pub predicate: Option<String>,
    pub value_type: String,
    pub cardinality: String,
}

pub struct ColumnView {
    pub name: Seq<char>,
    pub role: Seq<char>,
    pub predicate: Option<Seq<char>>,
    pub value_type: Seq<char>,
    pub cardinality: Seq<char>,
}

impl View for Column {
    type V = ColumnView;

    open spec fn view(&self) -> ColumnView {
        ColumnView {
            name: self.name@,
            role: self.role@,
            predicate: opt_view(self.predicate),
            value_type: self.value_type@,
            cardinality: self.cardinality@,
        }
    }
}

/// The type of a column's values where none is given.
pub fn default_type() -> (r: String)
    ensures
        r@ == "string"@,
{
    "string".to_owned()
}

/// How many values a column has where it is not said.
pub fn default_cardinality() -> (r: String)
    ensures
        r@ == "0..1"@,
{
    "0..1".to_owned()
}

// ---------------------------------------------------------------------------
// Types of values
// ---------------------------------------------------------------------------

/// The datatype that a type's name stands for.
pub open spec fn datatype_of(t: Seq<char>) -> Option<Seq<char>> {
    if t == "integer"@ {
        Some("http://www.w3.org/2001/XMLSchema#integer"@)
    } else if t == "decimal"@ {
        Some("http://www.w3.org/2001/XMLSchema#decimal"@)
    } else if t == "boolean"@ {
        Some("http://www.w3.org/2001/XMLSchema#boolean"@)
    } else if t == "date"@ {
        Some("http://www.w3.org/2001/XMLSchema#date"@)
    } else if t == "datetime"@ {
        Some("http://www.w3.org/2001/XMLSchema#dateTime"@)
    } else {
        None
    }
}

pub fn xsd_datatype_for(t: &str) -> (r: Option<String>)
    ensures
        opt_view(r) == datatype_of(t@),
{
    if same(t, "integer") {
        Some("http://www.w3.org/2001/XMLSchema#integer".to_owned())
    } else if same(t, "decimal") {
        Some("http://www.w3.org/2001/XMLSchema#decimal".to_owned())
    } else if same(t, "boolean") {
        Some("http://www.w3.org/2001/XMLSchema#boolean".to_owned())
    } else if same(t, "date") {
        Some("http://www.w3.org/2001/XMLSchema#date".to_owned())
    } else if same(t, "datetime") {
        Some("http://www.w3.org/2001/XMLSchema#dateTime".to_owned())
    } else {
        None
    }
}

/// A term as a value of a type: a literal takes the type's datatype, any other
/// term stays as it is.
pub open spec fn coerced(t: TermView, target: Seq<char>) -> TermView {
    match t {
        TermView::Literal(l) => TermView::Literal(
            LiteralView { value: l.value, datatype: datatype_of(target), language: None },
        ),
        _ => t,
    }
}

pub fn coerce(t: &Term, target: &str) -> (r: Term)
    ensures
        r@ == coerced(t@, target@),
{
    match t {
        Term::Literal(l) => Term::Literal(
            Literal { value: l.value.clone(), datatype: xsd_datatype_for(target), language: None },
        ),
        _ => t.clone(),
    }
}

/// Coercing twice is coercing once, to the last type.
pub proof fn coercion_forgets(t: TermView, first: Seq<char>, last: Seq<char>)
    ensures
        coerced(coerced(t, first), last) == coerced(t, last),
{
}

} // verus!
