# envoy_filters

Protobuf wire-format handling, gRPC framing, and the decision logic of three
Envoy HTTP filters (a proto filter that sends gRPC payloads to an external
processing service, a gRPC payload extractor, and a response capturer) and of
the mutation service that the proto filter talks to. The library is written in
Verus: every function states its behaviour in `requires`/`ensures` over
mathematical models, and Verus proves the code against them.

## Layout

- `src/proto_encode.rs`, `src/proto_decode.rs`: varints, tags and fields;
  schema-less decoding, with the law that decoding what was encoded gives the
  fields back.
- `src/grpc.rs`: gRPC paths and length-prefixed frames, with the framing law.
- `src/ext_proc.rs`: the ProcessMessage request/response encoding and the
  application of field mutations to a payload.
- `src/display.rs`, `src/text.rs`, `src/base64_text.rs`: text rendering,
  decimal numbers, base64.
- `src/proto.rs`, `src/service_config.rs`, `src/mutation.rs`, `src/admin.rs`:
  the mutation service's messages, configuration, rule engine (matching,
  evaluation, rule management kept in priority order) and admin decisions.
- `src/filter.rs`, `src/extract.rs`, `src/capture.rs`: the three filters as
  state machines: each host callback becomes a call that takes plain values
  and returns what the host is to do.
- `app/`: the service's `main`, its gRPC transport and configuration loading,
  and the proxy-wasm bindings of the filters.
- `tests/`: tests of the library.
