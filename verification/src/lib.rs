//! The verified core of an HTTP service toolkit: path normalisation and
//! scopes, prioritised scoped authentication rules and the middleware plan,
//! uniform API responses, the HTTP panel page, and the WebSocket protocol,
//! client handshake settings and hub.
pub mod auth;
pub mod http_panel;
pub mod middleware_orchestrator;
pub mod monitoring;
pub mod path_utils;
pub mod response;
pub mod text;
pub mod websocket;
