# csml

The verified core of the CSML server, written in Verus.

`src/` is the library; every function in it carries a contract that Verus
proves:

- `tools`: truncation of span labels to the APM server's byte limit, and the
  `X-Api-Key` check against the configured keys.
- `apm`: the tracing set-up decided from the environment (endpoint, service
  name, authorization header, resource attributes, sample-ratio source,
  filter directives, log level), including the idempotent construction of
  the OTLP traces endpoint.
- `storage`: the object-storage requests (bucket, key, content type, body)
  and the refusal of an answer without a body.
- `bots`: paging through bot versions (page asked for, page size, key of the
  next page).
- `memories`: keeping the newest memory of each key.
- `text`, `number`: the string and integer operations these rest on (trim,
  ASCII case-insensitive comparison, comma-separated fields, decimal `i64`
  text).

`app/` is the HTTP server around it: it reads the environment, installs the
OpenTelemetry pipeline, serves the routes, and performs the object-storage
and callback requests.
