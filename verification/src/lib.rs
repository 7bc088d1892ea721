//! What a database editor's surfaces decide and show.
pub mod activity;
pub mod change_bubble;
pub mod clock;
pub mod close_guard;
pub mod connection_form;
pub mod context_menu;
pub mod controls;
pub mod detail_sidebar;
pub mod domain;
pub mod drag_ghost;
pub mod editor_find;
pub mod er_diagram;
pub mod filters;
pub mod grid;
pub mod json_tree;
pub mod keys;
pub mod main_pane;
pub mod motion;
pub mod palette;
pub mod params_sheet;
pub mod plan_view;
pub mod production_guard;
pub mod schema_sheet;
pub mod sidebar;
pub mod status_bar;
pub mod tabs;
pub mod text;
pub mod text_field;
pub mod text_input;
pub mod titlebar;
pub mod toolbar;
pub mod transfer;
