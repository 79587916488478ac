//! Verified core of a desktop database client: text utilities, data export,
//! tab management, connection forms, SQL editor helpers and tree state.

pub mod text;
pub mod connection;
pub mod form;
pub mod storage;
pub mod tree;
pub mod objects;
pub mod home;
pub mod workspace;
pub mod table_view;
pub mod sql_editor;
pub mod tabs;
pub mod export;
pub mod sql_run;
