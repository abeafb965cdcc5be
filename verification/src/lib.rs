//! Protobuf wire-format handling, gRPC framing and the decision logic of
//! three Envoy HTTP filters and an external mutation service.

pub mod proto_encode;
pub mod proto_decode;
pub mod text;
pub mod base64_text;
pub mod ext_proc;
pub mod grpc;
pub mod display;
pub mod json;
pub mod proto;
pub mod service_config;
pub mod mutation;
pub mod admin;
pub mod filter;
pub mod extract;
pub mod capture;
