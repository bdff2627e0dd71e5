//! Client-side routing, request rewriting and configuration logic for the
//! ScyllaDB Alternator API.

pub mod affinity_plan;
pub mod attribute_value;
pub mod base64_text;
pub mod batch_votes;
pub mod client;
pub mod compression;
pub mod config;
pub mod discovery;
pub mod float32_vector;
pub mod http;
pub mod interceptors;
pub mod json;
pub mod keyrouting;
pub mod live_nodes;
pub mod node_url;
pub mod optimize_headers;
pub mod query_plan;
pub mod routing_scope;
pub mod sorting;
pub mod text;
pub mod user_agent;
pub mod vector;
pub mod vector_interceptor;
pub mod vector_request;
pub mod vector_response;

pub use crate::affinity_plan::AffinityQueryPlanInterceptor;
pub use crate::attribute_value::AttributeValue;
pub use crate::client::{AlternatorClientBuildError, ClientPlan};
pub use crate::compression::{
    CompressionAlgorithm, CompressionLevel, RequestCompression, ResponseCompression,
    ResponseCompressionAlgorithm,
};
pub use crate::config::{AlternatorBuilder, AlternatorConfig, AlternatorOperationBuilder};
pub use crate::float32_vector::{Float32Vector, Float32VectorError};
pub use crate::interceptors::AlternatorInterceptor;
pub use crate::keyrouting::affinity_config::{KeyRouteAffinityConfig, KeyRouteAffinityType};
pub use crate::live_nodes::LiveNodes;
pub use crate::query_plan::QueryPlan;
pub use crate::routing_scope::RoutingScope;
pub use crate::user_agent::{UserAgent, DEFAULT_USER_AGENT};
