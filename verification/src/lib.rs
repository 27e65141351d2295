//! Host-side logic for the Cyberdeck pad: slot codec, dongle protocol,
//! slash composer, dispatch gates and store rules.

pub mod text;
pub mod slots;
pub mod dongle;
pub mod strmap;
pub mod composer;
pub mod composer_write;
pub mod dispatch;
pub mod fire_api;
pub mod paths;
pub mod ydotool_sock;
pub mod store;
pub mod gate;
pub mod actions;
pub mod git_sync;
pub mod pad_sync;
pub mod dongle_link;
pub mod space_keys;
