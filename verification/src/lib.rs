//! Aureum launcher core: the verified logic of a Minecraft: Java Edition
//! instance manager (dependency resolution, lockfiles, path safety, launch
//! argument assembly, Maven coordinates and catalog rules).

pub mod auth;
pub mod author;
pub mod catalog;
pub mod classpath;
pub mod commands;
pub mod content;
pub mod creator;
pub mod digest;
pub mod drafts;
pub mod error;
pub mod install;
pub mod forge;
pub mod instances;
pub mod json;
pub mod java;
pub mod launch;
pub mod logfiles;
pub mod maven;
pub mod media;
pub mod mods;
pub mod mrpack;
pub mod order;
pub mod text;
pub mod paths;
pub mod resolve;
