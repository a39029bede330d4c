pub mod byte_order;
pub mod lookup;
