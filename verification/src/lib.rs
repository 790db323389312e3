//! Token-usage dashboard logic: calendar dates and timestamps, usage records and their token
//! totals, the summary cards and sparklines, the dashboard's key-driven view state, the detail
//! table's rows per model, the daily and weekly history, the usage table's rows and column
//! layout, the cache's query building and bookkeeping decisions, and the OpenCode source's file
//! selection and record mapping.

pub mod date;
pub mod text;
pub mod record;
pub mod scope;
pub mod cards;
pub mod app;
pub mod theme;
pub mod columns;
pub mod table;
pub mod detail;
pub mod history;
pub mod cache;
pub mod opencode;
