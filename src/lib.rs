pub mod bind;
pub mod broker;
pub mod collect;
pub mod complete;
pub mod context;
pub mod page_info;
pub mod registry;
pub mod resolve;
pub mod schedule;
pub mod session;
pub mod value;

pub use page_info::PageInfo;
