//! Deterministic, order-independent fingerprints over nullable string values
//! and key/value pairs, with a streaming aggregate that agrees with the bulk
//! path.

pub mod aggregate;
pub mod array_functions;
pub mod buffer;
pub mod canonical;
pub mod checksum;
pub mod encode;
pub mod error;
pub mod fingerprint;
pub mod identifier;
pub mod laws;
pub mod model;
pub mod normalize;
pub mod order;
pub mod sorting;
pub mod uuid;
pub mod xor_agg;

pub use aggregate::FarmhashState;
pub use aggregate::SeahashState;
pub use canonical::id_iter_to_bytes;
pub use canonical::ids_to_bytes;
pub use checksum::checksum_farmhash;
pub use checksum::checksum_farmhash_extendable;
pub use checksum::checksum_seahash;
pub use checksum::checksum_seahash_extendable;
pub use encode::join_tuple;
pub use error::FingerprintError;
pub use fingerprint::farmhash_fingerprint;
pub use fingerprint::seahash_fingerprint;
pub use identifier::id_farmhash;
pub use identifier::id_seahash;
pub use identifier::id_underscore_md5;
pub use normalize::filter_and_join_tuple;
pub use normalize::filter_and_join_tuple_keep_null_values;
pub use normalize::normalized_pairs_bytes;
pub use normalize::NullPolicy;
pub use order::cmp_option_tuple;
pub use uuid::Uuid;
pub use xor_agg::XorAggUuidState;
