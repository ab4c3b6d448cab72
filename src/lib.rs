//! Country reference data refresh: validation and normalisation of fetched
//! country entries, case-insensitive reconciliation with stored rows, the
//! decisions of the transactional persist step and of the refresh run, and
//! the responses of the query endpoints.

pub mod text;
pub mod sources;
pub mod model;
pub mod normalize;
pub mod table;
pub mod persist;
pub mod reply;
pub mod refresh;
pub mod query;
pub mod laws;
pub mod summary;
