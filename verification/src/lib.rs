//! Core of a self-hosted terminal hub.
//!
//! A [`session::TerminalSession`] stands for one terminal that the server owns. Several viewers look
//! at it and type into it; it outlives them. In control mode it talks to tmux by lines and knows
//! windows and panes ([`control`], [`reader`]); otherwise it passes bytes ([`session`]). Sessions
//! that run tmux are remembered and come back ([`launch`], [`store`], [`lifecycle`]). Files go
//! through the terminal as base64 text ([`commands`], [`transfer`]).
//!
//! Each type has a view, a plain mathematical value, and each function says what it does to views.
//! What holds of more than one function is stated as a proof function whose name starts with `law_`.
//! What is believed of code outside this crate stands in [`outside`] and, of `String::push`, in
//! [`text`].
pub mod commands;
pub mod commands_laws;
pub mod control;
pub mod control_laws;
pub mod errors;
pub mod keys;
pub mod keys_laws;
pub mod launch;
pub mod launch_laws;
pub mod layout_laws;
pub mod lifecycle;
pub mod line_laws;
pub mod marker_laws;
pub mod order;
pub mod outside;
pub mod panes;
pub mod quote;
pub mod quote_laws;
pub mod reader;
pub mod reader_laws;
pub mod registry;
pub mod replay;
pub mod requests;
pub mod requests_laws;
pub mod session;
pub mod session_laws;
pub mod store;
pub mod table;
pub mod text;
pub mod text_laws;
pub mod transfer;
pub mod transfer_laws;
pub mod viewer;
pub mod viewer_laws;
pub mod wire;
pub mod wire_laws;
pub mod writing_laws;
