//! The widgets of the shell: cards with a calendar, tasks, the weather, the media
//! player and the system monitor.
pub mod calendar;
pub mod media_player;
pub mod system_monitor;
pub mod tasks;
pub mod weather;
