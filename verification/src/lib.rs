//! Account storage, obfuscation and window-list parsing for a password auto-fill tool.

pub mod text;
pub mod window_list;
pub mod lsappinfo;
pub mod obfuscation;
pub mod accounts;
pub mod macos;
pub mod win32;
