//! Core of an interactive process debugger: byte patching of machine words,
//! the breakpoint table, the process controller's decisions around stops,
//! stack walking, command reading and the orchestration of commands.
//! Beside it stand a linked list, line and word counts, and the decisions
//! of a load-balancing proxy.
pub mod word;
pub mod target;
pub mod breakpoint;
pub mod inferior;
pub mod stack;
pub mod command;
pub mod debugger;
pub mod linked_list;
pub mod wc;
pub mod proxy;
