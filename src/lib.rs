pub mod id_gen;
pub mod pcg;
pub mod shuffle;

pub use id_gen::{compose_id, Snowflake};
pub use pcg::{Lcg64Xsh32, Pcg32};
pub use shuffle::shuffle;
