//! Builds a disposable, isolated copy of a multi-package workspace so that a
//! dependency-version policy can be evaluated without mutating the real
//! project: discovering which manifests belong to the workspace, mirroring
//! them into a sandbox directory, and rewriting their dependency declarations
//! in two ordered passes (path absolutization, then version widening).

pub mod graph;
pub mod manifest;
pub mod paths;
pub mod project;
pub mod sandbox;
