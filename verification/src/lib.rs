//! The decision core of FeatherDock, a light dock for the Windows desktop.

pub mod activation;
pub mod activation_laws;
pub mod apps;
pub mod atomic;
pub mod autostart;
pub mod behavior;
pub mod behavior_laws;
pub mod casing;
pub mod categories;
pub mod categories_laws;
pub mod command_palette;
pub mod command_palette_laws;
pub mod config;
pub mod config_laws;
pub mod content;
pub mod control_center;
pub mod control_laws;
pub mod desktop_icons;
pub mod desktop_scan;
pub mod desktop_scan_laws;
pub mod dock;
pub mod dock_laws;
pub mod drawer;
pub mod drawer_input;
pub mod drawer_laws;
pub mod drawer_layout;
pub mod drawer_view;
pub mod error_log;
pub mod facts;
pub mod fitting;
pub mod folder_stack;
pub mod icons;
pub mod numbers;
pub mod order;
pub mod panel_laws;
pub mod panel_layout;
pub mod panel_text;
pub mod path_order;
pub mod paths;
pub mod pins;
pub mod quoting;
pub mod repair;
pub mod row_layout;
pub mod settings;
pub mod settings_laws;
pub mod settings_window;
pub mod storage_laws;
pub mod surface_laws;
pub mod sysctl;
pub mod system_laws;
pub mod taskbar;
pub mod text;
pub mod text_laws;
pub mod theme;
pub mod watchdog;
pub mod wifi;
pub mod wifi_laws;
pub mod window_preview;
pub mod windows_list;
pub mod windows_list_laws;
pub mod words;
