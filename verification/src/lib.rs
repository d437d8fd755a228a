//! Time-based one-time passwords (TOTP, RFC 6238) for a terminal viewer:
//! code generation, the `otpauth://` configuration format, and the
//! selection state of the lists that show the codes.

pub mod clock;
pub mod config;
pub mod crypto;
pub mod list_view;
pub mod otp;
pub mod screen;
pub mod text;
pub mod totp;
pub mod tui;
pub mod ui;
