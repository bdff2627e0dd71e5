//! Key route affinity: deciding which requests are routed by partition key,
//! and hashing partition keys the way every Alternator client does.

pub mod affinity_config;
pub mod classifier;
pub mod go_rand;
pub mod hasher;
pub mod murmurhash3;
pub mod resolver;
