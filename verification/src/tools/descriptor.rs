//! What a tool is called, what it needs, and what it hands back.

use crate::json::{Json, JsonView};
use vstd::prelude::*;

verus! {

/// Authority that a tool's effect needs.
#[derive(Clone, Copy, Debug, PartialEq, Eq, Structural)]
pub enum Capability {
    FileRead,
    FileWrite,
    ProcessSpawn,
    Network,
    SecretUse,
    ExternalWrite,
    MemoryRead,
}

impl DeepView for Capability {
    type V = Capability;

    open spec fn deep_view(&self) -> Capability {
        *self
    }
}

impl Capability {
    /// The name under which policies and messages list a capability.
    pub open spec fn name_spec(self) -> Seq<char> {
        match self {
            Capability::FileRead => "file_read"@,
            Capability::FileWrite => "file_write"@,
            Capability::ProcessSpawn => "process_spawn"@,
            Capability::Network => "network"@,
            Capability::SecretUse => "secret_use"@,
            Capability::ExternalWrite => "external_write"@,
            Capability::MemoryRead => "memory_read"@,
        }
    }

    /// The name under which policies and messages list a capability.
    pub fn name(self) -> (r: &'static str)
        ensures
            r@ == self.name_spec(),
    {
        match self {
            Capability::FileRead => "file_read",
            Capability::FileWrite => "file_write",
            Capability::ProcessSpawn => "process_spawn",
            Capability::Network => "network",
            Capability::SecretUse => "secret_use",
            Capability::ExternalWrite => "external_write",
            Capability::MemoryRead => "memory_read",
        }
    }
}

/// Human-readable tool risk class.
#[derive(Clone, Copy, Debug, PartialEq, Eq, Structural)]
pub enum ToolRisk {
    ReadOnly,
    WorkspaceMutation,
    RestrictedExecution,
    HostExecution,
}

/// Runtime and UX hints that do not weaken policy enforcement.
#[derive(Clone, Copy, Debug, PartialEq, Eq, Structural)]
pub struct ToolAnnotations {
    /// Whether the tool only observes bounded local state.
    pub read_only: bool,
    /// Whether repeating an identical call is expected to have the same effect.
    pub idempotent: bool,
    /// Whether calls may execute concurrently with other parallel-safe calls.
    pub parallel_safe: bool,
    /// Coarse risk shown in traces and tool discovery.
    pub risk: ToolRisk,
}

impl ToolAnnotations {
    /// Standard annotation set for deterministic read-only tools.
    pub open spec fn read_only_spec() -> ToolAnnotations {
        ToolAnnotations {
            read_only: true,
            idempotent: true,
            parallel_safe: true,
            risk: ToolRisk::ReadOnly,
        }
    }

    /// The annotation set of tools that change something, with the given risk.
    pub open spec fn mutating_spec(risk: ToolRisk) -> ToolAnnotations {
        ToolAnnotations { read_only: false, idempotent: false, parallel_safe: false, risk }
    }

    /// The annotations that go with a capability.
    pub open spec fn for_capability_spec(capability: Capability) -> ToolAnnotations {
        match capability {
            Capability::FileRead | Capability::MemoryRead => ToolAnnotations::read_only_spec(),
            Capability::FileWrite => ToolAnnotations::mutating_spec(ToolRisk::WorkspaceMutation),
            _ => ToolAnnotations::mutating_spec(ToolRisk::HostExecution),
        }
    }

    /// The annotations that go with a capability.
    pub fn for_capability(capability: Capability) -> (r: ToolAnnotations)
        ensures
            r == ToolAnnotations::for_capability_spec(capability),
    {
        match capability {
            Capability::FileRead | Capability::MemoryRead => ToolAnnotations {
                read_only: true,
                idempotent: true,
                parallel_safe: true,
                risk: ToolRisk::ReadOnly,
            },
            Capability::FileWrite => ToolAnnotations {
                read_only: false,
                idempotent: false,
                parallel_safe: false,
                risk: ToolRisk::WorkspaceMutation,
            },
            _ => ToolAnnotations {
                read_only: false,
                idempotent: false,
                parallel_safe: false,
                risk: ToolRisk::HostExecution,
            },
        }
    }
}

/// Machine-readable contract presented to a model for one tool.
pub struct ToolDescriptor {
    pub name: String,
    pub description: String,
    pub input_schema: Json,
    pub required_capability: Capability,
    pub annotations: ToolAnnotations,
}

/// A [`ToolDescriptor`] by its texts and its schema's value.
pub struct DescriptorView {
    pub name: Seq<char>,
    pub description: Seq<char>,
    pub input_schema: JsonView,
    pub required_capability: Capability,
    pub annotations: ToolAnnotations,
}

impl DeepView for ToolDescriptor {
    type V = DescriptorView;

    open spec fn deep_view(&self) -> DescriptorView {
        DescriptorView {
            name: self.name@,
            description: self.description@,
            input_schema: self.input_schema.deep_view(),
            required_capability: self.required_capability,
            annotations: self.annotations,
        }
    }
}

impl Clone for ToolDescriptor {
    fn clone(&self) -> (r: Self)
        ensures
            r.deep_view() == self.deep_view(),
    {
        ToolDescriptor {
            name: self.name.clone(),
            description: self.description.clone(),
            input_schema: self.input_schema.clone(),
            required_capability: self.required_capability,
            annotations: self.annotations,
        }
    }
}

/// The descriptor of a tool whose annotations go with its capability.
pub open spec fn descriptor_spec(
    name: Seq<char>,
    description: Seq<char>,
    input_schema: JsonView,
    capability: Capability,
) -> DescriptorView {
    DescriptorView {
        name,
        description,
        input_schema,
        required_capability: capability,
        annotations: ToolAnnotations::for_capability_spec(capability),
    }
}

/// The descriptor of a tool whose annotations go with its capability.
pub fn descriptor(
    name: &str,
    description: &str,
    input_schema: Json,
    required_capability: Capability,
) -> (r: ToolDescriptor)
    ensures
        r.deep_view() == descriptor_spec(
            name@,
            description@,
            input_schema.deep_view(),
            required_capability,
        ),
{
    ToolDescriptor {
        name: name.to_owned(),
        description: description.to_owned(),
        input_schema,
        required_capability,
        annotations: ToolAnnotations::for_capability(required_capability),
    }
}

/// Bounded result of executing one tool call.
pub struct ToolOutput {
    pub content: Json,
    pub summary: String,
    pub observed_effects: Vec<String>,
    pub succeeded: bool,
    pub truncated: bool,
}

/// A [`ToolOutput`] by its value and its texts.
pub struct OutputView {
    pub content: JsonView,
    pub summary: Seq<char>,
    pub observed_effects: Seq<Seq<char>>,
    pub succeeded: bool,
    pub truncated: bool,
}

impl DeepView for ToolOutput {
    type V = OutputView;

    open spec fn deep_view(&self) -> OutputView {
        OutputView {
            content: self.content.deep_view(),
            summary: self.summary@,
            observed_effects: self.observed_effects.deep_view(),
            succeeded: self.succeeded,
            truncated: self.truncated,
        }
    }
}

} // verus!
