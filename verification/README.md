# gateway

The verified core of a GraphQL retail gateway, written in Verus.

`src/` is the library; every function in it carries a contract that Verus
proves. It holds the query cost analyzer, the persisted-query cache, the
request-coalescing decisions, persisted-query resolution and error
statuses, the article catalogue, the EAN to material-number mapping, the
subgraph stub stores and response mapping, the point-of-sale cache, feed
and latency tracker, and the settings parser. Public proof functions state
the library's laws (for example: a stored persisted query is found again
under its hash; the persisted-query cache evicts its least recently used
entry; raising the cost limits never rejects an accepted query; identical
requests in flight follow their leader, and a follower whose wait runs out
makes its own call).

`app/` is the server around it: axum routing, the async-graphql schema,
HTTP calls to the subgraphs, the broadcast channels of the coalescer, the
simulated event feed, logging and environment access.

`tests/` exercises the library on concrete values.
