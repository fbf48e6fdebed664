//! A message-driven relay that renames terminal panes on behalf of a host
//! session manager: it decodes inbound pipe payloads of the form
//! `"<pane id>:<title>"` and hands the host a rename command for each
//! well-formed one, silently discarding everything else.

pub mod command;
pub mod relay;
