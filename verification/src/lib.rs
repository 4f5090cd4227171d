pub mod addr;
pub mod answer;
pub mod blocklist;
pub mod clock;
pub mod commands;
pub mod dropdown;
pub mod find_bar;
pub mod icons;
pub mod layout;
pub mod memory;
pub mod menu;
pub mod native;
pub mod number;
pub mod page;
pub mod saver;
pub mod source;
pub mod startup;
pub mod state;
pub mod store;
pub mod suggest;
pub mod tabs;
pub mod text;
pub mod url_util;
pub mod wallpaper;
pub mod watchdog;
pub mod web;
