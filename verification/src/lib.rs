//! A portable, serializable status/error taxonomy for service boundaries.
//!
//! A failure is represented as a structured value: a standardized status
//! code, a human-readable message, and an open-ended list of typed detail
//! records. The serialized form (field names and enum tags) is a fixed wire
//! contract, stated here as spec functions and implemented by verified
//! serialization and parsing code.

pub mod text;
pub mod model;
pub mod json;
pub mod parse;
pub mod transport;
pub mod laws;

pub use model::Code;
pub use model::ErrorDetails;
pub use model::ErrorInfo;
pub use model::Status;
pub use model::StatusDetails;
pub use model::StatusResult;
pub use model::ValidationError;
pub use transport::TransportStatus;
