//! What the tabs and dialogs decide and show. Painting is left to the caller.

pub mod bench_tab;
pub mod core_map;
pub mod cpu_bars;
pub mod dialogs;
pub mod game_match;
pub mod game_pickers;
pub mod gaming_mode_tab;
pub mod hw_monitor_tab;
pub mod log_tab;
pub mod overview_tab;
pub mod probalance_tab;
pub mod proc_tree;
pub mod process_rows;
pub mod process_tab;
pub mod rule_dialogs;
pub mod rules_tab;
pub mod settings_tab;
pub mod theme;
