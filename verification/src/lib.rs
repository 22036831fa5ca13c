pub mod assoc;
pub mod client;
pub mod container;
pub mod dispatch;
pub mod error;
pub mod laws;
pub mod request;
pub mod response;
pub mod rsp;
pub mod session;
pub mod text;
