//! Variables in the texts of a plan: `${name}` stands for what an earlier step
//! bound to the name.

use vstd::prelude::*;
use vstd::string::*;
use vstd::utf8::{encode_utf8, is_ascii_chars, is_ascii_chars_encode_utf8};

use crate::pipeline::outcome::{render_values_clause, values_clause, OutcomeView, QueryOutcome};
use crate::table::Table;
use crate::text::{bytes_of, decode, decoded};

verus! {

// ---------------------------------------------------------------------------
// Bound values
// ---------------------------------------------------------------------------

/// What a name is bound to.
#[derive(Debug)]
pub enum CtxValue {
    Scalar(String),
    /// All that a step gave.
    Full(QueryOutcome),
}

pub enum CtxView {
    Scalar(Seq<char>),
    Full(OutcomeView),
}

impl View for CtxValue {
    type V = CtxView;

    open spec fn view(&self) -> CtxView {
        match self {
            CtxValue::Scalar(text) => CtxView::Scalar(text@),
            CtxValue::Full(o) => CtxView::Full(o@),
        }
    }
}

/// The values of the names.
pub struct Context {
    pub vars: Table<CtxValue>,
}

impl View for Context {
    type V = Map<Seq<char>, CtxView>;

    open spec fn view(&self) -> Map<Seq<char>, CtxView> {
        Map::new(|k: Seq<char>| self.vars@.contains_key(k), |k: Seq<char>| self.vars@[k]@)
    }
}

impl Default for Context {
    fn default() -> (r: Self)
        ensures
            r@ == Map::<Seq<char>, CtxView>::empty(),
    {
        let r = Context { vars: Table::new() };
        proof {
            assert(r@ =~= Map::<Seq<char>, CtxView>::empty());
        }
        r
    }
}

impl Context {
    /// Binds a name.
    pub fn insert(&mut self, name: String, value: CtxValue)
        ensures
            final(self)@ == old(self)@.insert(name@, value@),
    {
        let ghost was = self@;
        let ghost key = name@;
        self.vars.insert(name, value);
        proof {
            assert(self@ =~= was.insert(key, value@));
        }
    }
}

// ---------------------------------------------------------------------------
// Interpolation
// ---------------------------------------------------------------------------

/// Where a text is used.
#[derive(Copy, Clone, Debug)]
pub enum InterpMode {
    /// In a query or an update, where all that a step gave can stand.
    Sparql,
    Scalar,
}

/// Where the first closing brace stands, at `from` or behind.
pub open spec fn closing(bytes: Seq<u8>, from: int) -> Option<int>
    decreases bytes.len() - from,
{
    if from >= bytes.len() {
        None
    } else if bytes[from] == 125u8 {
        Some(from)
    } else {
        closing(bytes, from + 1)
    }
}

/// The text that a name stands for.
pub open spec fn value_text(
    ctx: Map<Seq<char>, CtxView>,
    name: Seq<char>,
    mode: InterpMode,
) -> Result<Seq<char>, Seq<char>> {
    if !ctx.contains_key(name) {
        Err("unbound variable `${"@ + name + "}`"@)
    } else {
        match ctx[name] {
            CtxView::Scalar(text) => Ok(text),
            CtxView::Full(o) => match mode {
                InterpMode::Sparql => Ok(values_clause(o)),
                InterpMode::Scalar => Err("variable `${"@ + name + "}` is a full binding-set                              (captured via bind_full) but was used in a                              non-SPARQL scalar context; use it inside a                              sparql_query or sparql_update step's text                              instead"@),
            },
        }
    }
}

pub open spec fn text_view(r: Result<String, String>) -> Result<Seq<char>, Seq<char>> {
    match r {
        Ok(text) => Ok(text@),
        Err(e) => Err(e@),
    }
}

fn lookup(ctx: &Context, name: &str, mode: InterpMode) -> (r: Result<String, String>)
    ensures
        text_view(r) == value_text(ctx@, name@, mode),
{
    match ctx.vars.get(name) {
        Some(value) => match value {
            CtxValue::Scalar(text) => Ok(text.clone()),
            CtxValue::Full(o) => match mode {
                InterpMode::Sparql => Ok(render_values_clause(o)),
                InterpMode::Scalar => Err(
                    "variable `${".to_owned().concat(name).concat("}` is a full binding-set                              (captured via bind_full) but was used in a                              non-SPARQL scalar context; use it inside a                              sparql_query or sparql_update step's text                              instead"),
                ),
            },
        },
        None => Err("unbound variable `${".to_owned().concat(name).concat("}`")),
    }
}

/// A text with its variables replaced, from a byte on. What stands outside of
/// variables is taken byte by byte, each as the character of that number.
pub open spec fn expanded(
    bytes: Seq<u8>,
    whole: Seq<char>,
    ctx: Map<Seq<char>, CtxView>,
    mode: InterpMode,
    from: int,
) -> Result<Seq<char>, Seq<char>>
    decreases bytes.len() - from,
{
    if from >= bytes.len() || from < 0 {
        Ok(Seq::empty())
    } else if bytes[from] == 36u8 && bytes.len() - from > 1 && bytes[from + 1] == 123u8 {
        match closing(bytes, from + 2) {
            None => Err("unterminated ${...} in `"@ + whole + "`"@),
            Some(end) => {
                proof {
                    closing_is_behind(bytes, from + 2);
                }
                match decoded(bytes.subrange(from + 2, end)) {
                    Err(e) => Err("interpolation: "@ + e),
                    Ok(name) => match value_text(ctx, name, mode) {
                        Err(e) => Err(e),
                        Ok(text) => led_by(text, expanded(bytes, whole, ctx, mode, end + 1)),
                    },
                }
            },
        }
    } else {
        led_by(seq![bytes[from] as char], expanded(bytes, whole, ctx, mode, from + 1))
    }
}

/// A text with another in front, unless it is an error.
pub open spec fn led_by(front: Seq<char>, r: Result<Seq<char>, Seq<char>>) -> Result<Seq<char>, Seq<char>> {
    match r {
        Ok(text) => Ok(front + text),
        Err(e) => Err(e),
    }
}

pub proof fn closing_is_behind(bytes: Seq<u8>, from: int)
    ensures
        closing(bytes, from) matches Some(end) ==> from <= end < bytes.len(),
    decreases bytes.len() - from,
{
    if from < bytes.len() && bytes[from] != 125u8 {
        closing_is_behind(bytes, from + 1);
    }
}

/// A text with its variables replaced.
pub open spec fn interpolated(s: Seq<char>, ctx: Map<Seq<char>, CtxView>, mode: InterpMode) -> Result<
    Seq<char>,
    Seq<char>,
> {
    expanded(encode_utf8(s), s, ctx, mode, 0)
}

/// Replaces the variables of a query or an update.
pub fn interpolate(s: &str, ctx: &Context) -> (r: Result<String, String>)
    ensures
        text_view(r) == interpolated(s@, ctx@, InterpMode::Sparql),
{
    interpolate_mode(s, ctx, InterpMode::Sparql)
}

fn find_closing(bytes: &Vec<u8>, from: usize) -> (r: Option<usize>)
    requires
        from <= bytes@.len(),
    ensures
        match r {
            Some(end) => closing(bytes@, from as int) == Some(end as int) && from <= end < bytes@.len(),
            None => closing(bytes@, from as int) is None,
        },
{
    let mut end: usize = from;
    while end < bytes.len()
        invariant
            from <= end <= bytes@.len(),
            closing(bytes@, from as int) == closing(bytes@, end as int),
        decreases bytes@.len() - end,
    {
        if bytes[end] == 125u8 {
            return Some(end);
        }
        end += 1;
    }
    None
}

pub fn interpolate_mode(s: &str, ctx: &Context, mode: InterpMode) -> (r: Result<String, String>)
    ensures
        text_view(r) == interpolated(s@, ctx@, mode),
{
    let bytes = bytes_of(s);
    let ghost goal = interpolated(s@, ctx@, mode);
    let mut out = String::new();
    let mut i: usize = 0;
    proof {
        assert(led_by(out@, goal) == goal) by {
            if goal is Ok {
                assert(out@ + goal->Ok_0 =~= goal->Ok_0);
            }
        }
    }
    while i < bytes.len()
        invariant
            i <= bytes@.len(),
            bytes@ == encode_utf8(s@),
            goal == led_by(out@, expanded(bytes@, s@, ctx@, mode, i as int)),
        decreases bytes@.len() - i,
    {
        if bytes[i] == 36u8 && bytes.len() - i > 1 && bytes[i + 1] == 123u8 {
            let end: usize = match find_closing(&bytes, i + 2) {
                Some(end) => end,
                None => {
                    return Err("unterminated ${...} in `".to_owned().concat(s).concat("`"));
                },
            };
            let inside = copy_part(&bytes, i + 2, end);
            let name = match decode(inside.as_slice()) {
                Ok(name) => name,
                Err(e) => {
                    return Err("interpolation: ".to_owned().concat(&e));
                },
            };
            match lookup(ctx, &name, mode) {
                Ok(text) => {
                    let ghost before = out@;
                    out.append(&text);
                    proof {
                        let rest = expanded(bytes@, s@, ctx@, mode, end + 1);
                        if rest is Ok {
                            assert((before + text@) + rest->Ok_0 =~= before + (text@ + rest->Ok_0));
                        }
                    }
                },
                Err(e) => {
                    return Err(e);
                },
            }
            i = end + 1;
        } else {
            let ghost before = out@;
            let c: char = bytes[i] as char;
            out.push(c);
            proof {
                let rest = expanded(bytes@, s@, ctx@, mode, i + 1);
                if rest is Ok {
                    assert(before.push(c) + rest->Ok_0 =~= before + (seq![c] + rest->Ok_0));
                }
            }
            i += 1;
        }
    }
    proof {
        assert(out@ + Seq::<char>::empty() =~= out@);
    }
    Ok(out)
}

fn copy_part(bytes: &Vec<u8>, from: usize, to: usize) -> (r: Vec<u8>)
    requires
        from <= to <= bytes@.len(),
    ensures
        r@ == bytes@.subrange(from as int, to as int),
{
    let mut part: Vec<u8> = Vec::new();
    for i in from..to
        invariant
            to <= bytes@.len(),
            part@ == bytes@.subrange(from as int, i as int),
    {
        part.push(bytes[i]);
        proof {
            assert(part@ =~= bytes@.subrange(from as int, i + 1));
        }
    }
    part
}

// ---------------------------------------------------------------------------
// Laws
// ---------------------------------------------------------------------------

/// The characters whose numbers the bytes are.
pub open spec fn as_chars(bytes: Seq<u8>) -> Seq<char> {
    Seq::new(bytes.len(), |i: int| bytes[i] as char)
}

/// A text without a dollar sign is taken as it is, byte by byte, whatever the
/// names are bound to.
pub proof fn text_without_variables_is_kept(s: Seq<char>, ctx: Map<Seq<char>, CtxView>, mode: InterpMode)
    requires
        forall|i: int| 0 <= i < encode_utf8(s).len() ==> #[trigger] encode_utf8(s)[i] != 36u8,
    ensures
        interpolated(s, ctx, mode) == Ok::<Seq<char>, Seq<char>>(as_chars(encode_utf8(s))),
{
    let bytes = encode_utf8(s);
    rest_is_kept(bytes, s, ctx, mode, 0);
    assert(as_chars(bytes).skip(0) =~= as_chars(bytes));
}

proof fn rest_is_kept(bytes: Seq<u8>, s: Seq<char>, ctx: Map<Seq<char>, CtxView>, mode: InterpMode, from: int)
    requires
        0 <= from <= bytes.len(),
        forall|i: int| 0 <= i < bytes.len() ==> #[trigger] bytes[i] != 36u8,
    ensures
        expanded(bytes, s, ctx, mode, from) == Ok::<Seq<char>, Seq<char>>(as_chars(bytes).skip(from)),
    decreases bytes.len() - from,
{
    if from < bytes.len() {
        rest_is_kept(bytes, s, ctx, mode, from + 1);
        assert(seq![bytes[from] as char] + as_chars(bytes).skip(from + 1) =~= as_chars(bytes).skip(from));
    } else {
        assert(as_chars(bytes).skip(from) =~= Seq::empty());
    }
}

/// An ASCII text without a dollar sign is kept as it is.
pub proof fn ascii_text_without_variables_is_kept(s: Seq<char>, ctx: Map<Seq<char>, CtxView>, mode: InterpMode)
    requires
        is_ascii_chars(s),
        !s.contains('$'),
    ensures
        interpolated(s, ctx, mode) == Ok::<Seq<char>, Seq<char>>(s),
{
    is_ascii_chars_encode_utf8(s);
    let bytes = encode_utf8(s);
    assert forall|i: int| 0 <= i < bytes.len() implies #[trigger] bytes[i] != 36u8 by {
        assert(s[i] as u8 == bytes[i]);
        assert(s[i] != '$');
    }
    text_without_variables_is_kept(s, ctx, mode);
    assert forall|i: int| 0 <= i < bytes.len() implies as_chars(bytes)[i] == s[i] by {
        assert(s[i] as u8 == bytes[i]);
    }
    assert(as_chars(bytes) =~= s);
}

/// Only names that occur in a text matter: binding a name that is not between
/// the braces of any variable changes nothing.
pub proof fn other_names_do_not_matter(
    s: Seq<char>,
    ctx: Map<Seq<char>, CtxView>,
    mode: InterpMode,
    name: Seq<char>,
    value: CtxView,
)
    requires
        forall|i: int, j: int|
            0 <= i <= j <= encode_utf8(s).len() ==> decoded(#[trigger] encode_utf8(s).subrange(i, j)) != Ok::<
                Seq<char>,
                Seq<char>,
            >(name),
    ensures
        interpolated(s, ctx.insert(name, value), mode) == interpolated(s, ctx, mode),
{
    rest_does_not_matter(encode_utf8(s), s, ctx, mode, name, value, 0);
}

proof fn rest_does_not_matter(
    bytes: Seq<u8>,
    s: Seq<char>,
    ctx: Map<Seq<char>, CtxView>,
    mode: InterpMode,
    name: Seq<char>,
    value: CtxView,
    from: int,
)
    requires
        0 <= from,
        forall|i: int, j: int|
            0 <= i <= j <= bytes.len() ==> decoded(#[trigger] bytes.subrange(i, j)) != Ok::<
                Seq<char>,
                Seq<char>,
            >(name),
    ensures
        expanded(bytes, s, ctx.insert(name, value), mode, from) == expanded(bytes, s, ctx, mode, from),
    decreases bytes.len() - from,
{
    if from < bytes.len() {
        closing_is_behind(bytes, from + 2);
        if bytes[from] == 36u8 && bytes.len() - from > 1 && bytes[from + 1] == 123u8 {
            match closing(bytes, from + 2) {
                Some(end) => {
                    rest_does_not_matter(bytes, s, ctx, mode, name, value, end + 1);
                    assert(decoded(bytes.subrange(from + 2, end)) != Ok::<Seq<char>, Seq<char>>(name));
                },
                None => {},
            }
        } else {
            rest_does_not_matter(bytes, s, ctx, mode, name, value, from + 1);
        }
    }
}

} // verus!
