//! Evidence about a selected llama.cpp installation and its tools.
use vstd::prelude::*;

verus! {

/// A discovered llama.cpp executable with its hash and self-reported help.
#[derive(Debug, Clone, PartialEq, Eq)]
pub struct ToolEvidence {
    pub path: String,
    pub sha256: String,
    pub version_output: String,
    pub help_output: String,
    pub device_output: String,
}

/// A llama.cpp installation directory and the tools found in it.
#[derive(Debug, Clone, PartialEq, Eq)]
pub struct LlamaInstallation {
    pub id: String,
    pub name: String,
    pub root_path: String,
    pub server: Option<ToolEvidence>,
    pub bench: Option<ToolEvidence>,
    pub fit_params: Option<ToolEvidence>,
    pub backend: Option<String>,
    pub capabilities: Vec<String>,
    pub discovered_at_unix_ms: u64,
}

} // verus!
