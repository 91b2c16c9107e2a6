//! ddshark: a passive RTPS/DDS traffic monitor.
//!
//! This crate holds the verified core of the monitor: fragment tracking,
//! IP datagram reassembly, the traffic state and its update rules, and the
//! table navigation logic of the text user interface.

pub mod dashboard;
pub mod defrag_buf;
pub mod digits;
pub mod discovery;
pub mod dispatch;
pub mod display;
pub mod guid;
pub mod latency;
pub mod lockfree;
pub mod message;
pub mod opts;
pub mod packet;
pub mod reassembly;
pub mod replay;
pub mod ring;
pub mod rows;
pub mod rtps;
pub mod state;
pub mod state_cleanup;
pub mod table;
pub mod text;
pub mod tick;
pub mod timed_stat;
pub mod updater;
pub mod vecmap;
pub mod watcher;
pub mod wire;
