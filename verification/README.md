# webfunctions

Functions that a graph store calls. They turn parts of the graph into tables,
lists and trees at a sink and back, keep search indexes in step with the graph
and with a document store, merge identifiers that are declared equal, derive
statements by rules, describe the predicates of a graph, and run plans of such
steps.

`src/` is the library. Its functions state what they do in contracts over
mathematical models, and Verus proves them. A function that speaks to its host is
a state machine: it takes the host's reply and gives the next request.

`app/` is what runs the machines: the requests to a host, the JSON forms of
descriptors and plans, floating-point shares, and the server of text embeddings.

`tests/` runs the library on examples.
