pub mod connect;
pub mod error;
pub mod exchange;
pub mod manager;
pub mod message;
pub mod pool;
pub mod reduce;
