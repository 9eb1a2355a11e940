//! Process balancing, CPU parking and monitoring logic of Argus-Lasso.

use vstd::prelude::*;

pub mod actions;
pub mod alerts;
pub mod app_state;
pub mod binary;
pub mod cgroup;
pub mod cli;
pub mod config;
pub mod cpu_park;
pub mod cpulist;
pub mod daemon;
pub mod file_dialog;
pub mod gui;
pub mod helper;
pub mod hw_collect;
pub mod hw_monitor;
pub mod hw_parse;
pub mod icon;
pub mod idmap;
pub mod idset;
pub mod logfile;
pub mod lower;
pub mod mem_bench;
pub mod monitor;
pub mod namemap;
pub mod number;
pub mod probalance;
pub mod ring;
pub mod rules;
pub mod sort;
pub mod text;
pub mod topology;

verus! {

} // verus!
