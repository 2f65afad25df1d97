//! Decides when the touchpad of a laptop is to be disabled because an external
//! mouse is connected, and when it is to be enabled again.

#![allow(unused_imports)]

pub mod battery;
pub mod counter;
pub mod daemon;
pub mod device;
pub mod laws;
pub mod mice;
mod record;
pub mod search;
pub mod syspath;
pub mod text;
pub mod word;
pub mod xinput;

pub use crate::battery::is_battery_active;
pub use crate::counter::MouseCounter;
pub use crate::device::is_mouse_event_device;
pub use crate::text::contains_ignore_ascii_case;
pub use crate::xinput::{find_touchpad_name, xinput_action};
