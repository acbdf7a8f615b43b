pub mod clients;
pub mod routes;
pub mod services;
pub mod utils;
