//! Z-Sight: the verified core of a ZRAM and memory monitor.
//!
//! The library parses the kernel's ZRAM and swap statistics, decides when
//! alerts fire, ranks processes by resident memory and renders byte counts
//! and timestamps as text. Reading files, the clock, the terminal and desktop
//! notifications is left to the program that uses it.

pub mod alerts;
pub mod calendar;
pub mod fmt;
pub mod history;
pub mod logger;
pub mod main_loop;
pub mod num;
pub mod processes;
pub mod sort;
pub mod swap;
pub mod system;
pub mod text;
pub mod ui;
pub mod zram;
