//! Verified core of a Garry's Mod workshop tool: the addon whitelist,
//! workshop-id parsing, the download queue and the small formatting helpers.
#![allow(non_camel_case_types)]

pub mod text;
pub mod steam;
pub mod whitelist;
pub mod tabs;
