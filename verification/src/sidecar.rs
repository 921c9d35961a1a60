//! `wf_embed_sidecar`: the decisions of a small HTTP server that embeds texts.
//! It knows a handful of models, reads two command-line options, and answers
//! three routes.

use vstd::prelude::*;
use vstd::string::*;

use crate::json::{array_view, array_wf, json_text, Json, JsonView};
use crate::number::{decimal_of, decimal_usize, unsigned_value};
use crate::text::{ascii_lower, lower_all, pieces, same, split, trim, trimmed, views, views_push};

verus! {

// ---------------------------------------------------------------------------
// Models
// ---------------------------------------------------------------------------

/// A model that can be loaded.
#[derive(Copy, Clone, Debug, PartialEq, Eq, Structural)]
pub enum Model {
    BgeSmallEn,
    BgeBaseEn,
    BgeLargeEn,
    AllMiniLmL6V2,
    NomicEmbedText,
}

/// The names of the models with the lengths of their vectors.
pub open spec fn catalog() -> Seq<(Seq<char>, usize)> {
    seq![
        ("bge-small-en"@, 384usize),
        ("all-MiniLM-L6-v2"@, 384usize),
        ("bge-base-en"@, 768usize),
        ("nomic-embed-text"@, 768usize),
        ("bge-large-en"@, 1024usize),
    ]
}

pub open spec fn catalog_view(entries: Seq<(&str, usize)>) -> Seq<(Seq<char>, usize)> {
    Seq::new(entries.len(), |i: int| (entries[i].0@, entries[i].1))
}

pub fn embed_model_catalog() -> (r: Vec<(&'static str, usize)>)
    ensures
        catalog_view(r@) == catalog(),
{
    let r = vec![
        ("bge-small-en", 384usize),
        ("all-MiniLM-L6-v2", 384usize),
        ("bge-base-en", 768usize),
        ("nomic-embed-text", 768usize),
        ("bge-large-en", 1024usize),
    ];
    proof {
        assert(catalog_view(r@) =~= catalog());
    }
    r
}

/// The model of a name in lower case.
pub open spec fn model_named(name: Seq<char>) -> Option<Model> {
    if name == "bge-small-en"@ {
        Some(Model::BgeSmallEn)
    } else if name == "bge-base-en"@ {
        Some(Model::BgeBaseEn)
    } else if name == "bge-large-en"@ {
        Some(Model::BgeLargeEn)
    } else if name == "all-minilm-l6-v2"@ {
        Some(Model::AllMiniLmL6V2)
    } else if name == "nomic-embed-text"@ {
        Some(Model::NomicEmbedText)
    } else {
        None
    }
}

/// The model of a name, whatever the case of its letters.
pub open spec fn model_of(name: Seq<char>) -> Option<Model> {
    model_named(lower_all(name))
}

pub open spec fn unknown_model(name: Seq<char>) -> Seq<char> {
    "embed-text: unknown model: "@ + name
}

pub fn resolve_embedding_model(model: &str) -> (r: Result<Model, String>)
    ensures
        match r {
            Ok(m) => model_of(model@) == Some(m),
            Err(e) => model_of(model@) is None && e@ == unknown_model(model@),
        },
{
    let name = ascii_lower(model);
    if same(&name, "bge-small-en") {
        Ok(Model::BgeSmallEn)
    } else if same(&name, "bge-base-en") {
        Ok(Model::BgeBaseEn)
    } else if same(&name, "bge-large-en") {
        Ok(Model::BgeLargeEn)
    } else if same(&name, "all-minilm-l6-v2") {
        Ok(Model::AllMiniLmL6V2)
    } else if same(&name, "nomic-embed-text") {
        Ok(Model::NomicEmbedText)
    } else {
        Err("embed-text: unknown model: ".to_owned().concat(model))
    }
}

// ---------------------------------------------------------------------------
// Embedding
// ---------------------------------------------------------------------------

/// The key under which a loaded model is kept.
pub fn cache_key(model: &str) -> (r: String)
    ensures
        r@ == lower_all(model@),
{
    ascii_lower(model)
}

/// Refuses the empty text.
pub fn check_text(text: &str) -> (r: Result<(), String>)
    ensures
        match r {
            Ok(_) => text@.len() > 0,
            Err(e) => text@.len() == 0 && e@ == "embed-text: text is empty"@,
        },
{
    proof {
        reveal_strlit("");
    }
    if same(text, "") {
        Err("embed-text: text is empty".to_owned())
    } else {
        proof {
            if text@.len() == 0 {
                assert(text@ =~= ""@);
            }
        }
        Ok(())
    }
}

/// The error of a model that cannot be loaded.
pub fn init_failed(model: &str, e: &str) -> (r: String)
    ensures
        r@ == "embed-text: failed to initialise "@ + model@ + ": "@ + e@,
{
    "embed-text: failed to initialise ".to_owned().concat(model).concat(": ").concat(e)
}

/// The error of a model that fails on a text.
pub fn inference_failed(model: &str, e: &str) -> (r: String)
    ensures
        r@ == "embed-text: inference failed for "@ + model@ + ": "@ + e@,
{
    "embed-text: inference failed for ".to_owned().concat(model).concat(": ").concat(e)
}

/// The vector of the one text that a model was given.
pub fn take_first<T>(model: &str, rows: Vec<T>) -> (r: Result<T, String>)
    ensures
        match r {
            Ok(row) => rows@.len() > 0 && row == rows@[0],
            Err(e) => rows@.len() == 0 && e@ == "embed-text: "@ + model@ + " returned zero rows"@,
        },
{
    let mut rows = rows;
    if rows.len() == 0 {
        Err("embed-text: ".to_owned().concat(model).concat(" returned zero rows"))
    } else {
        Ok(rows.remove(0))
    }
}

// ---------------------------------------------------------------------------
// Command line
// ---------------------------------------------------------------------------

/// What the command line asks for.
pub struct CliArgs {
    pub port: u16,
    /// The models that are loaded at the start.
    pub warm_models: Vec<String>,
}

pub struct CliView {
    pub port: u16,
    pub warm_models: Seq<Seq<char>>,
}

impl View for CliArgs {
    type V = CliView;

    open spec fn view(&self) -> CliView {
        CliView { port: self.port, warm_models: views(self.warm_models@) }
    }
}

/// What parsing `s` as a `u16` gives.
pub open spec fn u16_of(s: Seq<char>) -> Option<u16> {
    match unsigned_value(s) {
        Some(n) => if n <= u16::MAX {
            Some(n as u16)
        } else {
            None
        },
        None => None,
    }
}

/// What `str::parse` says of a text that is no `u16`.
pub uninterp spec fn u16_error(s: Seq<char>) -> Seq<char>;

/// `str::parse` to a `u16`: an optional `+` and digits, where the number fits.
/// Which message an error has is not said beyond that the text decides it.
#[verifier::external_body]
fn parse_u16(s: &str) -> (r: Result<u16, String>)
    ensures
        r is Ok <==> u16_of(s@) is Some,
        r matches Ok(n) ==> u16_of(s@) == Some(n),
        r matches Err(e) ==> e@ == u16_error(s@),
{
    s.parse::<u16>().map_err(|e| e.to_string())
}

/// The models of a list: the pieces between commas, trimmed, without the empty
/// ones.
pub open spec fn listed(parts: Seq<Seq<char>>) -> Seq<Seq<char>>
    decreases parts.len(),
{
    if parts.len() == 0 {
        Seq::empty()
    } else {
        let before = listed(parts.drop_last());
        let name = trimmed(parts.last());
        if name.len() == 0 {
            before
        } else {
            before.push(name)
        }
    }
}

fn list_models(raw: &str) -> (r: Vec<String>)
    ensures
        views(r@) == listed(pieces(raw@, ',')),
{
    broadcast use views_push;

    let parts = split(raw, ',');
    let ghost all = views(parts@);
    let mut out: Vec<String> = Vec::new();
    proof {
        assert(views(out@) =~= listed(all.take(0)));
        reveal_strlit("");
    }
    for i in 0..parts.len()
        invariant
            all == views(parts@),
            ""@.len() == 0,
            views(out@) == listed(all.take(i as int)),
    {
        proof {
            assert(all.take(i + 1).drop_last() =~= all.take(i as int));
            assert(all.take(i + 1).last() == parts@[i as int]@);
        }
        let name = trim(&parts[i]);
        if !same(&name, "") {
            proof {
                if name@.len() == 0 {
                    assert(name@ =~= ""@);
                }
            }
            out.push(name);
        }
    }
    proof {
        assert(all.take(all.len() as int) =~= all);
    }
    out
}

/// The options, from those read so far on.
pub open spec fn options(args: Seq<Seq<char>>, so_far: CliView) -> Result<CliView, Seq<char>>
    decreases args.len(),
{
    if args.len() == 0 {
        Ok(so_far)
    } else if args[0] == "--port"@ {
        if args.len() == 1 {
            Err("--port requires a value"@)
        } else {
            match u16_of(args[1]) {
                Some(port) => options(args.skip(2), CliView { port, ..so_far }),
                None => Err("--port "@ + args[1] + ": "@ + u16_error(args[1])),
            }
        }
    } else if args[0] == "--models"@ {
        if args.len() == 1 {
            Err("--models requires a value"@)
        } else {
            options(args.skip(2), CliView { warm_models: listed(pieces(args[1], ',')), ..so_far })
        }
    } else if args[0] == "--help"@ || args[0] == "-h"@ {
        Err("usage: wf_embed_sidecar [--port <port>] [--models <csv>]"@)
    } else {
        Err("unknown arg: "@ + args[0])
    }
}

/// The first name that no model has.
pub open spec fn first_unknown(names: Seq<Seq<char>>) -> Option<Seq<char>>
    decreases names.len(),
{
    if names.len() == 0 {
        None
    } else if model_of(names[0]) is None {
        Some(names[0])
    } else {
        first_unknown(names.drop_first())
    }
}

/// What a command line asks for. Where it says nothing, any free port and one
/// model.
pub open spec fn parsed(args: Seq<Seq<char>>) -> Result<CliView, Seq<char>> {
    match options(args, CliView { port: 0, warm_models: seq!["bge-small-en"@] }) {
        Err(e) => Err(e),
        Ok(cli) => match first_unknown(cli.warm_models) {
            Some(name) => Err("--models rejected `"@ + name + "`: "@ + unknown_model(name)),
            None => Ok(cli),
        },
    }
}

pub open spec fn cli_view(r: Result<CliArgs, String>) -> Result<CliView, Seq<char>> {
    match r {
        Ok(cli) => Ok(cli@),
        Err(e) => Err(e@),
    }
}

/// Reads a command line, without the program's name.
pub fn parse_args(args: &Vec<String>) -> (r: Result<CliArgs, String>)
    ensures
        cli_view(r) == parsed(views(args@)),
{
    let ghost all = views(args@);
    let mut port: u16 = 0;
    let mut warm_models = vec!["bge-small-en".to_owned()];
    let ghost goal = options(all, CliView { port: 0, warm_models: seq!["bge-small-en"@] });
    let mut i: usize = 0;
    proof {
        assert(views(warm_models@) =~= seq!["bge-small-en"@]);
        assert(all.skip(0) =~= all);
    }
    while i < args.len()
        invariant
            i <= args@.len(),
            all == views(args@),
            goal == options(all, CliView { port: 0, warm_models: seq!["bge-small-en"@] }),
            goal == options(all.skip(i as int), CliView { port, warm_models: views(warm_models@) }),
        decreases args@.len() - i,
    {
        let ghost rest = all.skip(i as int);
        proof {
            assert(rest[0] == args@[i as int]@);
        }
        if same(&args[i], "--port") {
            if args.len() - i == 1 {
                return Err("--port requires a value".to_owned());
            }
            proof {
                assert(rest[1] == args@[i + 1]@);
                assert(rest.skip(2) =~= all.skip(i + 2));
            }
            match parse_u16(&args[i + 1]) {
                Ok(n) => {
                    port = n;
                },
                Err(e) => {
                    return Err("--port ".to_owned().concat(&args[i + 1]).concat(": ").concat(&e));
                },
            }
            i += 2;
        } else if same(&args[i], "--models") {
            if args.len() - i == 1 {
                return Err("--models requires a value".to_owned());
            }
            proof {
                assert(rest[1] == args@[i + 1]@);
                assert(rest.skip(2) =~= all.skip(i + 2));
            }
            warm_models = list_models(&args[i + 1]);
            i += 2;
        } else if same(&args[i], "--help") || same(&args[i], "-h") {
            return Err("usage: wf_embed_sidecar [--port <port>] [--models <csv>]".to_owned());
        } else {
            return Err("unknown arg: ".to_owned().concat(&args[i]));
        }
    }
    let ghost names = views(warm_models@);
    proof {
        assert(names.skip(0) =~= names);
    }
    for k in 0..warm_models.len()
        invariant
            names == views(warm_models@),
            goal == Ok::<CliView, Seq<char>>(CliView { port, warm_models: names }),
            goal == options(all, CliView { port: 0, warm_models: seq!["bge-small-en"@] }),
            first_unknown(names) == first_unknown(names.skip(k as int)),
    {
        proof {
            assert(names.skip(k as int)[0] == warm_models@[k as int]@);
            assert(names.skip(k as int).drop_first() =~= names.skip(k + 1));
        }
        match resolve_embedding_model(&warm_models[k]) {
            Ok(_) => {},
            Err(e) => {
                return Err("--models rejected `".to_owned().concat(&warm_models[k]).concat("`: ").concat(&e));
            },
        }
    }
    Ok(CliArgs { port, warm_models })
}

/// The address to listen at.
pub fn bind_address(port: u16) -> (r: String)
    ensures
        r@ == "127.0.0.1:"@ + decimal_of(port as nat),
{
    "127.0.0.1:".to_owned().concat(&decimal_usize(port as usize))
}

/// The line that tells the port.
pub fn banner(port: u16) -> (r: String)
    ensures
        r@ == "wf_embed_sidecar listening on http://127.0.0.1:"@ + decimal_of(port as nat),
{
    "wf_embed_sidecar listening on http://127.0.0.1:".to_owned().concat(&decimal_usize(port as usize))
}

// ---------------------------------------------------------------------------
// Routes
// ---------------------------------------------------------------------------

#[derive(Copy, Clone, Debug, PartialEq, Eq, Structural)]
pub enum Method {
    Get,
    Post,
    Other,
}

#[derive(Copy, Clone, Debug, PartialEq, Eq, Structural)]
pub enum Route {
    Health,
    Models,
    Embed,
    Nowhere,
}

/// Where a request goes.
pub open spec fn route_of(method: Method, url: Seq<char>) -> Route {
    if method == Method::Get && url == "/health"@ {
        Route::Health
    } else if method == Method::Get && url == "/models"@ {
        Route::Models
    } else if method == Method::Post && url == "/embed"@ {
        Route::Embed
    } else {
        Route::Nowhere
    }
}

pub fn route(method: Method, url: &str) -> (r: Route)
    ensures
        r == route_of(method, url@),
{
    if method == Method::Get && same(url, "/health") {
        Route::Health
    } else if method == Method::Get && same(url, "/models") {
        Route::Models
    } else if method == Method::Post && same(url, "/embed") {
        Route::Embed
    } else {
        Route::Nowhere
    }
}

/// An answer: a status, whether the body is JSON or plain text, and the body.
pub struct Answer {
    pub status: u16,
    pub json: bool,
    pub body: String,
}

/// The answer to a request for the state of the server.
pub fn health_answer() -> (r: Answer)
    ensures
        r.status == 200,
        !r.json,
        r.body@ == "ok"@,
{
    Answer { status: 200, json: false, body: "ok".to_owned() }
}

/// The names of the catalog as values.
pub open spec fn model_names() -> Seq<JsonView> {
    Seq::new(catalog().len(), |i: int| JsonView::Text(catalog()[i].0))
}

/// The answer to a request for the models.
pub fn models_answer() -> (r: Answer)
    ensures
        r.status == 200,
        r.json,
        r.body@ == json_text(JsonView::Array(model_names())),
{
    broadcast use array_view;

    let entries = embed_model_catalog();
    let mut names: Vec<Json> = Vec::new();
    for i in 0..entries.len()
        invariant
            catalog_view(entries@) == catalog(),
            names@.len() == i,
            forall|j: int| 0 <= j < i ==> (#[trigger] names@[j])@ == JsonView::Text(catalog()[j].0),
    {
        proof {
            assert(catalog_view(entries@)[i as int] == (entries@[i as int].0@, entries@[i as int].1));
        }
        names.push(Json::text(entries[i].0));
    }
    proof {
        assert(views(names@) =~= model_names());
        array_wf(views(names@));
    }
    let body = Json::Array(names).render();
    Answer { status: 200, json: true, body }
}

/// The answer to a request that failed, with the error in the body.
pub fn error_answer(e: String) -> (r: Answer)
    ensures
        r.status == 400,
        !r.json,
        r.body@ == e@,
{
    Answer { status: 400, json: false, body: e }
}

/// The answer with a vector, as a text in JSON.
pub fn vector_answer(body: String) -> (r: Answer)
    ensures
        r.status == 200,
        r.json,
        r.body@ == body@,
{
    Answer { status: 200, json: true, body }
}

/// The answer where the vector cannot be written.
pub fn write_failed(e: &str) -> (r: Answer)
    ensures
        r.status == 400,
        !r.json,
        r.body@ == "embed-text: response serialise: "@ + e@,
{
    Answer { status: 400, json: false, body: "embed-text: response serialise: ".to_owned().concat(e) }
}

/// The error of a body that cannot be read.
pub fn unreadable_body(e: &str) -> (r: String)
    ensures
        r@ == "embed-text: failed to read body: "@ + e@,
{
    "embed-text: failed to read body: ".to_owned().concat(e)
}

/// The error of a body that is no request.
pub fn bad_body(e: &str) -> (r: String)
    ensures
        r@ == "embed-text: bad json body: "@ + e@,
{
    "embed-text: bad json body: ".to_owned().concat(e)
}

/// The answer to any other request.
pub fn no_route_answer(method: &str, url: &str) -> (r: Answer)
    ensures
        r.status == 404,
        !r.json,
        r.body@ == "wf_embed_sidecar: no route for "@ + method@ + " "@ + url@,
{
    Answer {
        status: 404,
        json: false,
        body: "wf_embed_sidecar: no route for ".to_owned().concat(method).concat(" ").concat(url),
    }
}

// ---------------------------------------------------------------------------
// Laws
// ---------------------------------------------------------------------------

/// The case of a name's letters does not decide the model.
pub proof fn case_does_not_matter(name: Seq<char>)
    ensures
        model_of(lower_all(name)) == model_of(name),
{
    assert(lower_all(lower_all(name)) =~= lower_all(name));
}

/// Every model of the catalog can be loaded under its name.
pub proof fn catalog_resolves(i: int)
    requires
        0 <= i < catalog().len(),
    ensures
        model_of(catalog()[i].0) is Some,
{
    reveal_strlit("bge-small-en");
    reveal_strlit("all-MiniLM-L6-v2");
    reveal_strlit("all-minilm-l6-v2");
    reveal_strlit("bge-base-en");
    reveal_strlit("nomic-embed-text");
    reveal_strlit("bge-large-en");
    assert(lower_all("bge-small-en"@) =~= "bge-small-en"@);
    assert(lower_all("all-MiniLM-L6-v2"@) =~= "all-minilm-l6-v2"@);
    assert(lower_all("bge-base-en"@) =~= "bge-base-en"@);
    assert(lower_all("nomic-embed-text"@) =~= "nomic-embed-text"@);
    assert(lower_all("bge-large-en"@) =~= "bge-large-en"@);
}

/// A command line that is accepted names models that can be loaded, and no
/// others.
pub proof fn accepted_models_resolve(args: Seq<Seq<char>>, i: int)
    requires
        parsed(args) matches Ok(cli) && 0 <= i < cli.warm_models.len(),
    ensures
        model_of(parsed(args)->Ok_0.warm_models[i]) is Some,
{
    known_models_resolve(parsed(args)->Ok_0.warm_models, i);
}

proof fn known_models_resolve(names: Seq<Seq<char>>, i: int)
    requires
        first_unknown(names) is None,
        0 <= i < names.len(),
    ensures
        model_of(names[i]) is Some,
    decreases names.len(),
{
    if i > 0 {
        known_models_resolve(names.drop_first(), i - 1);
        assert(names.drop_first()[i - 1] == names[i]);
    }
}

} // verus!
