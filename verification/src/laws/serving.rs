//! What a command line of the embedding service asks for, and where requests go.

use vstd::prelude::*;
use crate::number::{decimal_has_value, decimal_of, is_digit};
use crate::sidecar::{first_unknown, listed, model_of, options, parsed, route_of, CliView, Method};
use crate::text::{lower_all, pieces, trimmed};

verus! {

/// A port that is given is taken, whatever comes before and behind; of two the
/// later counts.
pub proof fn port_is_taken(port: u16, rest: Seq<Seq<char>>, so_far: CliView)
    ensures
        options(seq!["--port"@, decimal_of(port as nat)] + rest, so_far) == options(
            rest,
            CliView { port, warm_models: so_far.warm_models },
        ),
        options(Seq::empty(), so_far) == Ok::<CliView, Seq<char>>(so_far),
{
    let args = seq!["--port"@, decimal_of(port as nat)] + rest;
    decimal_has_value(port as nat);
    assert(is_digit(decimal_of(port as nat)[0]));
    assert(args.skip(2) =~= rest);
    assert(args[0] == "--port"@ && args[1] == decimal_of(port as nat));
}

/// The models that are given replace those before.
pub proof fn models_are_taken(list: Seq<char>, rest: Seq<Seq<char>>, so_far: CliView)
    ensures
        options(seq!["--models"@, list] + rest, so_far) == options(
            rest,
            CliView { port: so_far.port, warm_models: listed(pieces(list, ',')) },
        ),
{
    reveal_strlit("--port");
    reveal_strlit("--models");
    assert("--port"@.len() == 6 && "--models"@.len() == 8);
    let args = seq!["--models"@, list] + rest;
    assert(args.skip(2) =~= rest);
    assert(args[0] == "--models"@ && args[1] == list);
}

/// Every name of a list is taken, without the blanks around it, in the order of the
/// list; what is blank is no name.
pub proof fn names_of_a_list(a: Seq<Seq<char>>, b: Seq<Seq<char>>, name: Seq<char>)
    ensures
        listed(a + b) == listed(a) + listed(b),
        trimmed(name).len() > 0 ==> listed(seq![name]) == seq![trimmed(name)],
        trimmed(name).len() == 0 ==> listed(seq![name]) == Seq::<Seq<char>>::empty(),
    decreases b.len(),
{
    reveal_with_fuel(listed, 2);
    assert(seq![name].drop_last() =~= Seq::<Seq<char>>::empty());
    if trimmed(name).len() > 0 {
        assert(listed(seq![name]) =~= seq![trimmed(name)]);
    }
    if b.len() == 0 {
        assert(a + b =~= a);
        assert(listed(a) + listed(b) =~= listed(a));
    } else {
        names_of_a_list(a, b.drop_last(), name);
        assert((a + b).drop_last() =~= a + b.drop_last());
        assert((a + b).last() == b.last());
        assert(listed(a + b) =~= listed(a) + listed(b));
    }
}

/// Whether a name is that of a model that can be loaded.
pub open spec fn loadable(name: Seq<char>) -> bool {
    model_of(name) is Some
}

/// A command line that gives a port and models that can be loaded is accepted, and
/// asks for just these; one that says nothing asks for any free port and the
/// smallest model.
pub proof fn command_line_is_accepted(port: u16, list: Seq<char>)
    requires
        forall|i: int| 0 <= i < listed(pieces(list, ',')).len() ==> loadable(#[trigger] listed(pieces(list, ','))[i]),
    ensures
        parsed(seq!["--port"@, decimal_of(port as nat), "--models"@, list]) == Ok::<CliView, Seq<char>>(
            CliView { port, warm_models: listed(pieces(list, ',')) },
        ),
        parsed(seq!["--models"@, list, "--port"@, decimal_of(port as nat)]) == Ok::<CliView, Seq<char>>(
            CliView { port, warm_models: listed(pieces(list, ',')) },
        ),
        parsed(Seq::empty()) == Ok::<CliView, Seq<char>>(CliView { port: 0, warm_models: seq!["bge-small-en"@] }),
{
    let start = CliView { port: 0, warm_models: seq!["bge-small-en"@] };
    let models = listed(pieces(list, ','));
    let none = Seq::<Seq<char>>::empty();
    port_is_taken(port, seq!["--models"@, list], start);
    models_are_taken(list, none, CliView { port, warm_models: start.warm_models });
    models_are_taken(list, seq!["--port"@, decimal_of(port as nat)], start);
    port_is_taken(port, none, CliView { port: 0, warm_models: models });
    assert(seq!["--models"@, list] + none =~= seq!["--models"@, list]);
    assert(seq!["--port"@, decimal_of(port as nat)] + none =~= seq!["--port"@, decimal_of(port as nat)]);
    assert(seq!["--port"@, decimal_of(port as nat), "--models"@, list] =~= seq!["--port"@, decimal_of(port as nat)]
        + seq!["--models"@, list]);
    assert(seq!["--models"@, list, "--port"@, decimal_of(port as nat)] =~= seq!["--models"@, list]
        + seq!["--port"@, decimal_of(port as nat)]);
    none_is_unknown(models);
    assert(loadable("bge-small-en"@)) by {
        reveal_strlit("bge-small-en");
        assert(lower_all("bge-small-en"@) =~= "bge-small-en"@);
    }
    none_is_unknown(start.warm_models);
}

proof fn none_is_unknown(names: Seq<Seq<char>>)
    requires
        forall|i: int| 0 <= i < names.len() ==> loadable(#[trigger] names[i]),
    ensures
        first_unknown(names) is None,
    decreases names.len(),
{
    if names.len() > 0 {
        assert(loadable(names[0]));
        let rest = names.drop_first();
        assert forall|i: int| 0 <= i < rest.len() implies loadable(#[trigger] rest[i]) by {
            assert(rest[i] == names[i + 1]);
        }
        none_is_unknown(rest);
    }
}

/// A request is served just under its method and path.
pub proof fn routes_are_told_apart(method: Method, path: Seq<char>)
    ensures
        route_of(method, path) is Health <==> method is Get && path == "/health"@,
        route_of(method, path) is Models <==> method is Get && path == "/models"@,
        route_of(method, path) is Embed <==> method is Post && path == "/embed"@,
{
    reveal_strlit("/health");
    reveal_strlit("/models");
    assert("/health"@[1] == 'h' && "/models"@[1] == 'm');
}

} // verus!
