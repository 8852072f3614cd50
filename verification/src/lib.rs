//! Process-monitor view logic: text helpers, formatting, parsers and state.
pub mod assoc;
pub mod attribution;
pub mod context_menu;
pub mod graph;
pub mod hover;
pub mod icons;
pub mod menus;
pub mod numfmt;
pub mod order;
pub mod paths;
pub mod perf_detail;
pub mod performance;
pub mod processes;
pub mod ranking;
pub mod services;
pub mod settings;
pub mod sheets;
pub mod startup;
pub mod text;
pub mod widgets;
