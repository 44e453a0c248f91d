pub mod connect;
pub mod legacy;
pub mod models;
pub mod seed;
