# a3s_boot

Primitives of a modular HTTP framework in the style of Nest, written in
Verus and proved against their contracts:

- `path`, `query`, `request`, `response`, `http`: route paths (validation,
  prefixes, segments, parameters, shapes), query strings, requests and
  responses.
- `provider`, `module_ref`, `registry`: provider tokens and definitions, the
  provider container (scopes, bindings, lookup through visible scopes) and
  module registration (imports, exports, global modules, cycle detection).
- `walk`: the depth-first registration of modules and their imports, one
  step at a time, with imports registered before the modules importing them.
- `route`, `controller`, `pipeline`, `openapi`, `security`, `versioning`:
  route and controller definitions with their pipelines, OpenAPI metadata
  and API versions.
- `route_call`: the decisions of one request through a route's pipes,
  guards, interceptors, handler and exception filters.
- `application`, `lifecycle`: the built application, route uniqueness,
  global prefixes, shutdown signals and the start/stop lifecycle.
- `extractor`: request value pipes (integers, booleans, defaults).
- `websocket`: WebSocket gateway definitions (paths, event subscriptions,
  handler lookup) and the context their initialization hooks receive.

`app/` holds the runtime around the library: module traits and the
registration driver, async execution of the decisions above, typed
providers, JSON helpers, operating-system signals and the axum server.
