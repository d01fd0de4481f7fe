//! Contiguous storage cut into rows.

pub mod row;
pub mod weight;

pub use self::row::RowBuffer;
pub use self::weight::WeightBuffer;
