//! Graphical user interface: theme, widgets and the window manager.
pub mod canvas;
pub mod events;
pub mod theme;
pub mod widgets;
pub mod widgets_shell;
pub mod wm;
