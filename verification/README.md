# librustlet

A rustlet container: small handlers ("rustlets") answer HTTP requests mapped
to them, "socklets" answer websocket messages, and RSP pages mix static text
with `<@=name>` tags that run rustlets in place. Requests carry sessions,
cookies, query parameters and headers; responses buffer their body and send
it, chunked on kept-alive connections.

The library under `src/` is verified with Verus:

- `request`: the request, its headers, query, cookies and session calls;
- `response`: the response, header rules, chunk framing, flush and completion plans;
- `session`: the session store and its expiry;
- `rsp`: serving RSP pages as a list of steps;
- `container`: rustlet and socklet registries, routing and websocket decisions;
- `dispatch`: session assignment and error replies;
- `client`: the checks the load-test clients make on what they read;
- `text`, `assoc`: text and association-list helpers;
- `laws`: properties that relate several of the functions above.

`app/` holds the server and client programs around it: the HTTP server
callbacks, the macros rustlets are written with, and the load tests.
