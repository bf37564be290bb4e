pub mod wire;
pub mod text;
pub mod property;
pub mod publish;
pub mod subscribe;
pub mod will;
pub mod conn;
pub mod message;
pub mod fixed;
pub mod codec;
