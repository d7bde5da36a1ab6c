# connector_cloudflare

Cloudflare Workers connector for Henosis, written in Verus. Components are ordinary Wrangler projects;
`wrangler.toml` is the only authoring source.

## What is proved

`src/` is the connector's logic. Its functions have contracts over mathematical views of their
values, and the laws that tie functions together are public proof functions at the end of each module.

- `context`, `wire`: the opaque component context, its rules, its deployed Worker names and its JSON form
- `slice`: desired levels, their digest and the identity of a component's deployment
- `bindings`: the values that upstream outputs supply to `[vars]` slots, plain or as secrets
- `target`, `wrangler`, `deploy`: the account API and Wrangler, step by step
- `reconciler`, `review`, `passes`, `lifecycle`: planning, observing, applying and retiring levels
- `authoring`, `paths`: deriving a component from a native project
- `retry`: exponential retry delays with bounded jitter
- `handler`, `settings`, `arguments`: requests, environment and command line
- `text`, `entries`, `json`, `hexadecimal`, `model`: the vocabulary that the rest builds on
- `outside`: what is relied on of std, `blake3`, `hex`, `http`, `iddqd` and `serde_json`, stated and not
  proved; of the time that the system clock tells nothing is stated

Functions that depend on the outside world take what has happened so far and return the next step.
`app/` performs those steps: files, processes, HTTP and serialization.

## Value classes

1. **Plan-time:** `url` and `workerName`.
2. **Apply-time:** `deploymentId`, `versionId` and an optional `claimUrl`; a plan declares them as unknown.
3. **Input binding:** a `[vars]` value `${henosis:<producer>.<output>}` takes the current generation's value
   of that output. Outputs ending in `Ref` are references to secrets and never stand on a command line;
   the name in a reference stays under the secret root, or the reference is refused.
