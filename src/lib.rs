pub mod command_executer;
pub mod command_executor;
pub mod decimal;
pub mod encoder;
pub mod resp;
pub mod resp_decoder;
pub mod store;
pub mod text;
