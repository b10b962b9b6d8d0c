//! Pure logic of the dozer workspace panels.
pub mod text;
pub mod calendar;
pub mod agent;
pub mod usage;
pub mod usage_view;
pub mod chart;
pub mod kv;
pub mod sftp;
pub mod todo_model;
pub mod todo_state;
pub mod todo_laws;
pub mod todo_view;
pub mod ssh;
pub mod ssh_view;
pub mod external_apps;
pub mod font_style;
pub mod fonts;
