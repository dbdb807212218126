use vstd::prelude::*;

pub mod answer;
pub mod catfile;
pub mod checkrun;
pub mod cleanup;
pub mod config;
pub mod durations;
pub mod expansion;
pub mod fallback;
pub mod finalsel;
pub mod finish;
pub mod gate;
pub mod generator;
pub mod gitparse;
pub mod hash;
pub mod hooks;
pub mod lazyreset;
pub mod options;
pub mod output;
pub mod permissions;
pub mod policy;
pub mod prompt;
pub mod protocol;
pub mod records;
pub mod repo_path;
pub mod response;
pub mod reuse;
pub mod run;
pub mod scope;
pub mod selection;
pub mod startup;
pub mod sessions;

pub mod text;
pub mod threads;
pub mod turnloop;
pub mod turns;
pub mod validation;


verus! {
} // verus!
