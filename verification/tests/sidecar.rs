use webfunctions::sidecar::{
    bad_body, banner, bind_address, cache_key, check_text, embed_model_catalog, error_answer, health_answer,
    inference_failed, init_failed, models_answer, no_route_answer, parse_args, resolve_embedding_model, route,
    take_first, unreadable_body, vector_answer, write_failed, Method, Model, Route,
};

fn args(items: &[&str]) -> Vec<String> {
    items.iter().map(|s| s.to_string()).collect()
}

fn refusal(items: &[&str]) -> String {
    match parse_args(&args(items)) {
        Err(e) => e,
        Ok(_) => panic!("accepted {items:?}"),
    }
}

#[test]
fn models_resolve_in_any_case() {
    assert_eq!(resolve_embedding_model("BGE-Small-EN"), Ok(Model::BgeSmallEn));
    assert_eq!(resolve_embedding_model("all-MiniLM-L6-v2"), Ok(Model::AllMiniLmL6V2));
    assert_eq!(resolve_embedding_model("nomic-embed-text"), Ok(Model::NomicEmbedText));
    assert_eq!(resolve_embedding_model("bge-base-en"), Ok(Model::BgeBaseEn));
    assert_eq!(resolve_embedding_model("bge-large-en"), Ok(Model::BgeLargeEn));
    assert_eq!(resolve_embedding_model("GPT"), Err("embed-text: unknown model: GPT".to_string()));
    assert_eq!(cache_key("BGE-Small-EN"), "bge-small-en");
}

#[test]
fn catalog_names_resolve() {
    let catalog = embed_model_catalog();
    assert_eq!(
        catalog,
        vec![
            ("bge-small-en", 384),
            ("all-MiniLM-L6-v2", 384),
            ("bge-base-en", 768),
            ("nomic-embed-text", 768),
            ("bge-large-en", 1024),
        ]
    );
    for (name, _) in catalog {
        assert!(resolve_embedding_model(name).is_ok());
    }
}

#[test]
fn arguments_are_parsed() {
    let a = parse_args(&args(&[])).ok().unwrap();
    assert_eq!(a.port, 0);
    assert_eq!(a.warm_models, args(&["bge-small-en"]));
    let a = parse_args(&args(&["--port", "8080", "--models", " bge-base-en ,, bge-large-en"])).ok().unwrap();
    assert_eq!(a.port, 8080);
    assert_eq!(a.warm_models, args(&["bge-base-en", "bge-large-en"]));
    let a = parse_args(&args(&["--models", ""])).ok().unwrap();
    assert!(a.warm_models.is_empty());
}

#[test]
fn wrong_arguments_are_refused() {
    assert_eq!(refusal(&["--port"]), "--port requires a value");
    assert_eq!(refusal(&["--models"]), "--models requires a value");
    assert_eq!(refusal(&["--port", "x"]), "--port x: invalid digit found in string");
    assert_eq!(refusal(&["--port", "70000"]), "--port 70000: number too large to fit in target type");
    assert_eq!(refusal(&["--help"]), "usage: wf_embed_sidecar [--port <port>] [--models <csv>]");
    assert_eq!(refusal(&["-h"]), refusal(&["--help"]));
    assert_eq!(refusal(&["--x"]), "unknown arg: --x");
    assert_eq!(refusal(&["--models", "gpt"]), "--models rejected `gpt`: embed-text: unknown model: gpt");
}

#[test]
fn routes() {
    assert_eq!(route(Method::Get, "/health"), Route::Health);
    assert_eq!(route(Method::Get, "/models"), Route::Models);
    assert_eq!(route(Method::Post, "/embed"), Route::Embed);
    assert_eq!(route(Method::Get, "/embed"), Route::Nowhere);
    assert_eq!(route(Method::Other, "/health"), Route::Nowhere);
}

#[test]
fn answers() {
    let a = health_answer();
    assert_eq!((a.status, a.json, a.body.as_str()), (200, false, "ok"));
    let a = models_answer();
    assert!(a.json);
    assert_eq!(
        a.body,
        r#"["bge-small-en","all-MiniLM-L6-v2","bge-base-en","nomic-embed-text","bge-large-en"]"#
    );
    let a = error_answer("bad".into());
    assert_eq!((a.status, a.json, a.body.as_str()), (400, false, "bad"));
    let a = vector_answer("{}".into());
    assert_eq!((a.status, a.json, a.body.as_str()), (200, true, "{}"));
    let a = write_failed("e");
    assert_eq!((a.status, a.body.as_str()), (400, "embed-text: response serialise: e"));
    let a = no_route_answer("Put", "/x");
    assert_eq!((a.status, a.body.as_str()), (404, "wf_embed_sidecar: no route for Put /x"));
    assert_eq!(unreadable_body("e"), "embed-text: failed to read body: e");
    assert_eq!(bad_body("e"), "embed-text: bad json body: e");
}

#[test]
fn embedding_outcomes() {
    assert_eq!(check_text("").unwrap_err(), "embed-text: text is empty");
    assert!(check_text("x").is_ok());
    assert_eq!(take_first("m", vec![1, 2]), Ok(1));
    assert_eq!(take_first::<u8>("m", vec![]), Err("embed-text: m returned zero rows".to_string()));
    assert_eq!(init_failed("m", "e"), "embed-text: failed to initialise m: e");
    assert_eq!(inference_failed("m", "e"), "embed-text: inference failed for m: e");
    assert_eq!(bind_address(0), "127.0.0.1:0");
    assert_eq!(banner(81), "wf_embed_sidecar listening on http://127.0.0.1:81");
}
