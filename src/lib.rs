pub mod routes;
pub mod task;
pub mod text;
