pub mod laws;
pub mod lex;
pub mod model;
pub mod norm;
pub mod session;
pub mod surt;
pub mod text;

pub use model::ParsedUrl;
pub use model::SurtError;
pub use norm::normalize_url;
pub use surt::encode_surt;
pub use surt::generate_surt;
pub use surt::normalize_surt;
