//! The built-in module and the extension points that integrations implement.
use vstd::prelude::*;
use crate::registry::{RegistryError, SkillRegistry};

verus! {

/// An adapter to a Codex-style agent backend.
pub trait CodexAdapter: Send + Sync {
    /// The adapter's name.
    fn name(&self) -> &'static str;
}

/// A client of a Model Context Protocol server.
pub trait McpClient: Send + Sync {
    /// The client's name.
    fn name(&self) -> &'static str;
}

/// A Model Context Protocol server.
pub trait McpServer: Send + Sync {
    /// The server's name.
    fn name(&self) -> &'static str;
}

/// A module of the runtime: its name, version and description, and the skills it
/// registers. (The tools a module registers come with handlers, which the program that
/// runs the tools provides.)
pub trait AegisModule: Send + Sync {
    /// The module's name.
    fn name(&self) -> &'static str;

    /// The module's version.
    fn version(&self) -> &'static str;

    /// What the module provides.
    fn description(&self) -> &'static str;

    /// Registers the module's skills.
    fn register_skills(&self, registry: &mut SkillRegistry) -> (r: Result<(), RegistryError>)
        requires
            old(registry).wf(),
        ensures
            final(registry).wf(),
    ;
}

/// The built-in module: registries, tools and runtime wiring.
#[derive(Debug, Clone, Copy)]
pub struct CoreModule;

impl AegisModule for CoreModule {
    fn name(&self) -> (r: &'static str)
        ensures
            r@ == "core"@,
    {
        "core"
    }

    fn version(&self) -> (r: &'static str)
        ensures
            r@ == "0.1.0"@,
    {
        "0.1.0"
    }

    fn description(&self) -> (r: &'static str)
        ensures
            r@ == "Built-in registries, tools, and runtime wiring"@,
    {
        "Built-in registries, tools, and runtime wiring"
    }

    /// The built-in module brings no skills: the registry is left as it was.
    fn register_skills(&self, registry: &mut SkillRegistry) -> (r: Result<(), RegistryError>)
        ensures
            r is Ok,
            final(registry)@ == old(registry)@,
    {
        Ok(())
    }
}

} // verus!
