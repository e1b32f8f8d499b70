pub mod cgi_handler;
pub mod config;
pub mod event_loop;
pub mod http_request;
pub mod http_response;
pub mod laws;
pub mod request_queue;
pub mod routing;
pub mod session;
pub mod text;
pub mod upload;
