//! The logic of a dual-pane file manager and its directory comparison screen:
//! paths, archives, panels, the clipboard, remote sessions and tree diffs.

pub mod app_state;
pub mod archive;
pub mod archive_clean;
pub mod archive_lines;
pub mod archive_names;
pub mod archive_ops;
pub mod archive_run;
pub mod authorization;
pub mod clipboard;
pub mod creation;
pub mod deletion;
pub mod dialogs;
pub mod diff_ancestors;
pub mod diff_anchor;
pub mod diff_build;
pub mod diff_build_run;
pub mod diff_compare;
pub mod diff_copy;
pub mod diff_delete;
pub mod diff_delete_run;
pub mod diff_entry;
pub mod diff_expand;
pub mod diff_fold;
pub mod diff_input;
pub mod diff_items;
pub mod diff_order;
pub mod diff_reconcile;
pub mod diff_rows;
pub mod diff_run;
pub mod diff_scan;
pub mod diff_settled;
pub mod diff_shape;
pub mod diff_state;
pub mod diff_tree;
pub mod diff_types;
pub mod diff_view;
pub mod diff_walk;
pub mod dup_run;
pub mod fuzzy;
pub mod goto;
pub mod handler;
pub mod names;
pub mod navigation;
pub mod opening;
pub mod outside_programs;
pub mod panel;
pub mod paste;
pub mod paste_resolved;
pub mod paths;
pub mod progress;
pub mod ranking;
pub mod remote_cache;
pub mod remote_connect;
pub mod remote_ops;
pub mod remote_path;
pub mod screens;
pub mod selection;
pub mod settings;
pub mod settings_flow;
pub mod sorted_fields;
pub mod sorting;
pub mod spinner;
pub mod text;
pub mod untar_run;
