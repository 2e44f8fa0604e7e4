//! Window management over virtual desktops that span several monitors.

pub mod activate_workspace;
pub mod activation_laws;
pub mod active_drag;
pub mod assignment_laws;
pub mod config;
pub mod config_laws;
pub mod container;
pub mod drop_laws;
pub mod error;
pub mod event_laws;
pub mod first_page_laws;
pub mod first_page_placement;
pub mod focus_laws;
pub mod focus_order;
pub mod focus_spanning_workspace;
pub mod focus_workspace;
pub mod gathering_laws;
pub mod geometry;
pub mod handle_mouse_move;
pub mod handle_window_focused;
pub mod handle_window_hidden;
pub mod handle_window_moved_or_resized_end;
pub mod ignore_uncontrollable_window;
pub mod invariants;
pub mod layout_laws;
pub mod merge_spanning_instances;
pub mod monitor;
pub mod monitor_identity;
pub mod orientation;
pub mod packing_laws;
pub mod page_dependence;
pub mod page_display;
pub mod page_keeping;
pub mod page_key;
pub mod page_laws;
pub mod page_permutation;
pub mod page_placement;
pub mod page_stability;
pub mod pending_sync;
pub mod removal_laws;
pub mod remove_monitor;
pub mod repage_laws;
pub mod repage_spanning_desktops;
pub mod rule_laws;
pub mod settled_homes;
pub mod stable_sort;
pub mod state_laws;
pub mod target_laws;
pub mod text;
pub mod tidying_laws;
pub mod untouched;
pub mod user_config;
pub mod window_recovery;
pub mod window_rules;
pub mod wm_error;
pub mod wm_event;
pub mod wm_state;
pub mod workspace;
pub mod workspace_config;
pub mod workspace_map;
