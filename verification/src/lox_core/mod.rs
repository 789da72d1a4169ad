pub mod ids;
pub mod intern_pool;
pub mod interner;
pub mod ordinal;

pub use ids::{StateId, UsizeId};
pub use intern_pool::InternPool;
pub use interner::Interner;
pub use ordinal::Ordinal;
