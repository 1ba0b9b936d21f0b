use vstd::prelude::*;

pub mod capabilities;
pub mod text;
pub mod sorted;
pub mod json;
pub mod adblock;
pub mod framebuffer;
pub mod theme;
pub mod layout;
pub mod ui_state;
pub mod permissions;
pub mod permission_requests;
pub mod omnibox;
pub mod persist;
pub mod protocol;
pub mod http_client;
pub mod input;
pub mod renderer;
pub mod platform;
pub mod ppm;
pub mod draw;
pub mod page;
pub mod hit_test;
pub mod core_driver;
