pub mod cmd;
pub mod conventional;
pub mod version;
