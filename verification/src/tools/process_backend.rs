//! The boundaries behind which programs run: what they are, how they are described, and
//! how a restricted container is started. Starting processes is left to the caller.

use crate::digest;
use crate::json;
use crate::json::{Json, JsonView};
use crate::outcome;
use crate::text;
use crate::tools::batch;
use crate::tools::batch::optional_text_value;
use crate::tools::patching;
use crate::tools::patching::has_hex_form;
use crate::tools::process_error;
use crate::tools::process_error::{ProcessBackendError, ProcessFault};
use crate::tools::schema;
use vstd::prelude::*;
use vstd::utf8::*;

verus! {

/// How long a probe of a runtime may take.
pub const RUNTIME_PROBE_SECONDS: u64 = 30;

/// How many bytes of a probe's output are kept.
pub const RUNTIME_PROBE_OUTPUT_BYTES: usize = 65536;

/// How long removing a container may take.
pub const CLEANUP_SECONDS: u64 = 15;

/// Coarse process-execution boundary selected for a run.
#[derive(Clone, Copy, Debug, PartialEq, Eq, Structural)]
pub enum ProcessBackendKind {
    /// Process execution is unavailable.
    Disabled,
    /// Direct execution with the authority of the Pactrail host process.
    NativeTrusted,
    /// Execution through a restricted local OCI container runtime.
    OciRestricted,
}

impl ProcessBackendKind {
    /// The name of a boundary.
    pub open spec fn name_spec(self) -> Seq<char> {
        match self {
            ProcessBackendKind::Disabled => "disabled"@,
            ProcessBackendKind::NativeTrusted => "native_trusted"@,
            ProcessBackendKind::OciRestricted => "oci_restricted"@,
        }
    }

    /// The name of a boundary.
    pub fn name(self) -> (r: &'static str)
        ensures
            r@ == self.name_spec(),
    {
        match self {
            ProcessBackendKind::Disabled => "disabled",
            ProcessBackendKind::NativeTrusted => "native_trusted",
            ProcessBackendKind::OciRestricted => "oci_restricted",
        }
    }
}

/// Stable description recorded alongside process effects.
#[derive(Debug)]
pub struct ProcessBackendDescriptor {
    pub kind: ProcessBackendKind,
    pub strength: String,
    pub runtime: Option<String>,
    pub runtime_fingerprint: Option<String>,
    pub image: Option<String>,
    pub image_identity: Option<String>,
    pub profile_digest: String,
    pub network: String,
    pub filesystem: String,
}

/// A [`ProcessBackendDescriptor`] by its texts.
pub struct BackendView {
    pub kind: ProcessBackendKind,
    pub strength: Seq<char>,
    pub runtime: Option<Seq<char>>,
    pub runtime_fingerprint: Option<Seq<char>>,
    pub image: Option<Seq<char>>,
    pub image_identity: Option<Seq<char>>,
    pub profile_digest: Seq<char>,
    pub network: Seq<char>,
    pub filesystem: Seq<char>,
}

impl DeepView for ProcessBackendDescriptor {
    type V = BackendView;

    open spec fn deep_view(&self) -> BackendView {
        BackendView {
            kind: self.kind,
            strength: self.strength@,
            runtime: self.runtime.deep_view(),
            runtime_fingerprint: self.runtime_fingerprint.deep_view(),
            image: self.image.deep_view(),
            image_identity: self.image_identity.deep_view(),
            profile_digest: self.profile_digest@,
            network: self.network@,
            filesystem: self.filesystem@,
        }
    }
}

impl Clone for ProcessBackendDescriptor {
    fn clone(&self) -> (r: Self)
        ensures
            r.deep_view() == self.deep_view(),
    {
        ProcessBackendDescriptor {
            kind: self.kind,
            strength: self.strength.clone(),
            runtime: text::copy_option(&self.runtime),
            runtime_fingerprint: text::copy_option(&self.runtime_fingerprint),
            image: text::copy_option(&self.image),
            image_identity: text::copy_option(&self.image_identity),
            profile_digest: self.profile_digest.clone(),
            network: self.network.clone(),
            filesystem: self.filesystem.clone(),
        }
    }
}

/// The description of a boundary behind which nothing runs.
pub open spec fn disabled_backend() -> BackendView {
    BackendView {
        kind: ProcessBackendKind::Disabled,
        strength: "disabled"@,
        runtime: None,
        runtime_fingerprint: None,
        image: None,
        image_identity: None,
        profile_digest: digest::blake3_hex(encode_utf8("pactrail:process:disabled:v1"@)),
        network: "denied"@,
        filesystem: "none"@,
    }
}

/// The description of direct execution on the host.
pub open spec fn native_backend() -> BackendView {
    BackendView {
        kind: ProcessBackendKind::NativeTrusted,
        strength: "native_trusted"@,
        runtime: None,
        runtime_fingerprint: None,
        image: None,
        image_identity: None,
        profile_digest: digest::blake3_hex(encode_utf8("pactrail:process:native-trusted:v1"@)),
        network: "host"@,
        filesystem: "host authority; current directory is the isolated candidate"@,
    }
}

impl ProcessBackendDescriptor {
    /// The description of a boundary behind which nothing runs.
    pub fn disabled() -> (r: ProcessBackendDescriptor)
        ensures
            r.deep_view() == disabled_backend(),
    {
        ProcessBackendDescriptor {
            kind: ProcessBackendKind::Disabled,
            strength: "disabled".to_owned(),
            runtime: None,
            runtime_fingerprint: None,
            image: None,
            image_identity: None,
            profile_digest: digest::text_digest("pactrail:process:disabled:v1"),
            network: "denied".to_owned(),
            filesystem: "none".to_owned(),
        }
    }

    /// The description of direct execution on the host.
    pub fn native() -> (r: ProcessBackendDescriptor)
        ensures
            r.deep_view() == native_backend(),
    {
        ProcessBackendDescriptor {
            kind: ProcessBackendKind::NativeTrusted,
            strength: "native_trusted".to_owned(),
            runtime: None,
            runtime_fingerprint: None,
            image: None,
            image_identity: None,
            profile_digest: digest::text_digest("pactrail:process:native-trusted:v1"),
            network: "host".to_owned(),
            filesystem: "host authority; current directory is the isolated candidate".to_owned(),
        }
    }

    /// The description as JSON.
    pub fn to_json(&self) -> (r: Json)
        ensures
            r.deep_view() == backend_json(self.deep_view()),
    {
        let mut out = Json::object4(
            "kind",
            Json::text(self.kind.name()),
            "strength",
            Json::text(self.strength.as_str()),
            "runtime",
            optional_text_value(&self.runtime),
            "runtime_fingerprint",
            optional_text_value(&self.runtime_fingerprint),
        );
        out.set_member("image", optional_text_value(&self.image));
        out.set_member("image_identity", optional_text_value(&self.image_identity));
        out.set_member("profile_digest", Json::text(self.profile_digest.as_str()));
        out.set_member("network", Json::text(self.network.as_str()));
        out.set_member("filesystem", Json::text(self.filesystem.as_str()));
        out
    }
}

/// A description as JSON.
pub open spec fn backend_json(b: BackendView) -> JsonView {
    let base = json::obj4(
        "kind"@,
        JsonView::Text(b.kind.name_spec()),
        "strength"@,
        JsonView::Text(b.strength),
        "runtime"@,
        batch::optional_text_json(b.runtime),
        "runtime_fingerprint"@,
        batch::optional_text_json(b.runtime_fingerprint),
    );
    let image = json::with_member(
        json::with_member(base, "image"@, batch::optional_text_json(b.image)),
        "image_identity"@,
        batch::optional_text_json(b.image_identity),
    );
    json::with_member(
        json::with_member(
            json::with_member(image, "profile_digest"@, JsonView::Text(b.profile_digest)),
            "network"@,
            JsonView::Text(b.network),
        ),
        "filesystem"@,
        JsonView::Text(b.filesystem),
    )
}

/// Validated request passed to a process backend.
#[derive(Debug)]
pub struct ProcessRequest {
    pub program: String,
    pub args: Vec<String>,
    pub timeout_seconds: u64,
    pub max_output_bytes: usize,
    /// Names and values, in the order of the names.
    pub environment: Vec<(String, String)>,
}

/// A [`ProcessRequest`] by its texts.
pub struct ProcessView {
    pub program: Seq<char>,
    pub args: Seq<Seq<char>>,
    pub timeout_seconds: u64,
    pub max_output_bytes: usize,
    pub environment: Seq<(Seq<char>, Seq<char>)>,
}

impl DeepView for ProcessRequest {
    type V = ProcessView;

    open spec fn deep_view(&self) -> ProcessView {
        ProcessView {
            program: self.program@,
            args: text::views(self.args@),
            timeout_seconds: self.timeout_seconds,
            max_output_bytes: self.max_output_bytes,
            environment: self.environment.deep_view(),
        }
    }
}

/// Captured result of one backend execution.
#[derive(Debug)]
pub struct ProcessExecution {
    pub exit_code: Option<i32>,
    pub stdout: Vec<u8>,
    pub stderr: Vec<u8>,
    pub stdout_truncated: bool,
    pub stderr_truncated: bool,
    pub backend: ProcessBackendDescriptor,
}

/// A [`ProcessExecution`] by its bytes and texts.
pub struct ExecutionView {
    pub exit_code: Option<i32>,
    pub stdout: Seq<u8>,
    pub stderr: Seq<u8>,
    pub stdout_truncated: bool,
    pub stderr_truncated: bool,
    pub backend: BackendView,
}

impl DeepView for ProcessExecution {
    type V = ExecutionView;

    open spec fn deep_view(&self) -> ExecutionView {
        ExecutionView {
            exit_code: self.exit_code,
            stdout: self.stdout@,
            stderr: self.stderr@,
            stdout_truncated: self.stdout_truncated,
            stderr_truncated: self.stderr_truncated,
            backend: self.backend.deep_view(),
        }
    }
}

/// Backend that rejects every request.
#[derive(Clone, Copy, Debug)]
pub struct DisabledProcessBackend;

impl DisabledProcessBackend {
    /// The description of the backend.
    pub fn descriptor(&self) -> (r: ProcessBackendDescriptor)
        ensures
            r.deep_view() == disabled_backend(),
    {
        ProcessBackendDescriptor::disabled()
    }

    /// Rejects the request.
    pub fn execute(&self, _request: &ProcessRequest) -> (r: Result<
        ProcessExecution,
        ProcessBackendError,
    >)
        ensures
            outcome::of(r) == Err::<ExecutionView, _>(ProcessFault::Disabled),
    {
        Err(ProcessBackendError::Disabled)
    }
}

/// Explicitly trusted direct host execution.
#[derive(Clone, Copy, Debug)]
pub struct NativeProcessBackend;

impl NativeProcessBackend {
    /// The description of the backend.
    pub fn descriptor(&self) -> (r: ProcessBackendDescriptor)
        ensures
            r.deep_view() == native_backend(),
    {
        ProcessBackendDescriptor::native()
    }
}

/// Supported local OCI command-line interfaces.
#[derive(Clone, Copy, Debug, PartialEq, Eq, Structural)]
pub enum OciRuntimeKind {
    Docker,
    Podman,
}

impl OciRuntimeKind {
    /// The name of a runtime's program, which its version output names too.
    pub open spec fn executable_spec(self) -> Seq<char> {
        match self {
            OciRuntimeKind::Docker => "docker"@,
            OciRuntimeKind::Podman => "podman"@,
        }
    }

    /// The name of a runtime's program.
    pub fn executable_name(self) -> (r: &'static str)
        ensures
            r@ == self.executable_spec(),
    {
        match self {
            OciRuntimeKind::Docker => "docker",
            OciRuntimeKind::Podman => "podman",
        }
    }
}

/// Resource and namespace limits for one restricted container.
#[derive(Clone, Copy, Debug, PartialEq, Eq, Structural)]
pub struct OciSandboxProfile {
    pub memory_bytes: u64,
    pub milli_cpus: u32,
    pub pids_limit: u32,
    pub tmpfs_bytes: u64,
}

impl Default for OciSandboxProfile {
    fn default() -> (r: Self)
        ensures
            r == default_profile(),
    {
        OciSandboxProfile {
            memory_bytes: 2147483648,
            milli_cpus: 2000,
            pids_limit: 128,
            tmpfs_bytes: 536870912,
        }
    }
}

/// The limits where none are given.
pub open spec fn default_profile() -> OciSandboxProfile {
    OciSandboxProfile {
        memory_bytes: 2147483648,
        milli_cpus: 2000,
        pids_limit: 128,
        tmpfs_bytes: 536870912,
    }
}

/// Whether limits may reach a runtime.
pub open spec fn profile_checked(p: OciSandboxProfile) -> Result<(), ProcessFault> {
    if !(67108864 <= p.memory_bytes <= 1099511627776) {
        Err(
            ProcessFault::InvalidConfiguration("OCI memory must be between 64 MiB and 1 TiB"@),
        )
    } else if !(100 <= p.milli_cpus <= 256000) {
        Err(
            ProcessFault::InvalidConfiguration("OCI CPU limit must be between 0.1 and 256 CPUs"@),
        )
    } else if !(16 <= p.pids_limit <= 32768) {
        Err(
            ProcessFault::InvalidConfiguration("OCI PID limit must be between 16 and 32,768"@),
        )
    } else if !(1048576 <= p.tmpfs_bytes <= 68719476736) {
        Err(
            ProcessFault::InvalidConfiguration(
                "OCI temporary space must be between 1 MiB and 64 GiB"@,
            ),
        )
    } else {
        Ok(())
    }
}

/// Limits as JSON.
pub open spec fn profile_json(p: OciSandboxProfile) -> JsonView {
    json::obj4(
        "memory_bytes"@,
        json::num(p.memory_bytes as nat),
        "milli_cpus"@,
        json::num(p.milli_cpus as nat),
        "pids_limit"@,
        json::num(p.pids_limit as nat),
        "tmpfs_bytes"@,
        json::num(p.tmpfs_bytes as nat),
    )
}

/// The digest of limits.
pub open spec fn profile_digest(p: OciSandboxProfile) -> Seq<char> {
    digest::blake3_hex(encode_utf8(json::json_text(profile_json(p))))
}

impl OciSandboxProfile {
    /// Validates limits before they can reach a runtime CLI.
    pub fn validate(&self) -> (r: Result<(), ProcessBackendError>)
        ensures
            outcome::of(r) == profile_checked(*self),
    {
        if !(67108864 <= self.memory_bytes && self.memory_bytes <= 1099511627776) {
            return Err(
                ProcessBackendError::InvalidConfiguration(
                    "OCI memory must be between 64 MiB and 1 TiB".to_owned(),
                ),
            );
        }
        if !(100 <= self.milli_cpus && self.milli_cpus <= 256000) {
            return Err(
                ProcessBackendError::InvalidConfiguration(
                    "OCI CPU limit must be between 0.1 and 256 CPUs".to_owned(),
                ),
            );
        }
        if !(16 <= self.pids_limit && self.pids_limit <= 32768) {
            return Err(
                ProcessBackendError::InvalidConfiguration(
                    "OCI PID limit must be between 16 and 32,768".to_owned(),
                ),
            );
        }
        if !(1048576 <= self.tmpfs_bytes && self.tmpfs_bytes <= 68719476736) {
            return Err(
                ProcessBackendError::InvalidConfiguration(
                    "OCI temporary space must be between 1 MiB and 64 GiB".to_owned(),
                ),
            );
        }
        Ok(())
    }

    /// The digest of the limits.
    pub fn digest(&self) -> (r: String)
        ensures
            r@ == profile_digest(*self),
    {
        let encoded = Json::object4(
            "memory_bytes",
            Json::number(self.memory_bytes),
            "milli_cpus",
            Json::number(self.milli_cpus as u64),
            "pids_limit",
            Json::number(self.pids_limit as u64),
            "tmpfs_bytes",
            Json::number(self.tmpfs_bytes),
        ).to_text();
        digest::text_digest(encoded.as_str())
    }
}

/// OCI backend configuration supplied by the trusted user surface.
#[derive(Debug)]
pub struct OciProcessConfig {
    pub runtime: OciRuntimeKind,
    pub runtime_executable: String,
    pub image: String,
    pub profile: OciSandboxProfile,
}

/// An [`OciProcessConfig`] by its texts.
pub struct ConfigView {
    pub runtime: OciRuntimeKind,
    pub runtime_executable: Seq<char>,
    pub image: Seq<char>,
    pub profile: OciSandboxProfile,
}

impl DeepView for OciProcessConfig {
    type V = ConfigView;

    open spec fn deep_view(&self) -> ConfigView {
        ConfigView {
            runtime: self.runtime,
            runtime_executable: self.runtime_executable@,
            image: self.image@,
            profile: self.profile,
        }
    }
}

/// Whether an image reference may reach a runtime.
pub open spec fn image_reference_checked(image: Seq<char>) -> Result<(), ProcessFault> {
    if text::trim_spec(image).len() == 0 || text::utf8_len(image) > 1024 || text::has_control(image)
        || text::starts_with_spec(image, "-"@) {
        Err(
            ProcessFault::InvalidConfiguration(
                "OCI image reference must be non-empty, at most 1,024 bytes, contain no control characters, and not begin with '-'"@,
            ),
        )
    } else {
        Ok(())
    }
}

/// Refuses image references that must not reach a runtime.
pub fn validate_image_reference(image: &str) -> (r: Result<(), ProcessBackendError>)
    ensures
        outcome::of(r) == image_reference_checked(image@),
{
    let trimmed = text::trim(image);
    proof {
        text::lemma_utf8_len_zero(trimmed@);
    }
    if text::byte_len(trimmed.as_str()) == 0 || text::byte_len(image) > 1024 || text::any_control(
        image,
    ) || text::starts_with(image, "-") {
        return Err(
            ProcessBackendError::InvalidConfiguration(
                "OCI image reference must be non-empty, at most 1,024 bytes, contain no control characters, and not begin with '-'".to_owned(),
            ),
        );
    }
    Ok(())
}

/// Whether a text is the immutable identity of an image.
pub open spec fn is_image_identity(identity: Seq<char>) -> bool {
    text::starts_with_spec(identity, "sha256:"@) && patching::is_hex_text(
        identity.skip("sha256:"@.len() as int),
        64,
    )
}

/// Refuses what is not the immutable identity of an image.
pub fn validate_image_identity(identity: &str) -> (r: Result<(), ProcessBackendError>)
    ensures
        outcome::of(r) == (if is_image_identity(identity@) {
            Ok(())
        } else {
            Err(ProcessFault::InvalidImageIdentity(identity@))
        }),
{
    match text::strip_prefix(identity, "sha256:") {
        Some(hex) => if has_hex_form(hex.as_str(), 64) {
            Ok(())
        } else {
            Err(ProcessBackendError::InvalidImageIdentity(identity.to_owned()))
        },
        None => Err(ProcessBackendError::InvalidImageIdentity(identity.to_owned())),
    }
}

/// A path of the host, as text and by its components.
#[derive(Debug)]
pub struct HostPath {
    pub text: String,
    pub components: Vec<String>,
}

/// A [`HostPath`] by its texts.
pub struct HostPathView {
    pub text: Seq<char>,
    pub components: Seq<Seq<char>>,
}

impl DeepView for HostPath {
    type V = HostPathView;

    open spec fn deep_view(&self) -> HostPathView {
        HostPathView { text: self.text@, components: text::views(self.components@) }
    }
}

/// Whether a path is `root` or lies below it.
pub open spec fn lies_within(path: HostPathView, root: HostPathView) -> bool {
    root.components.len() <= path.components.len() && path.components.take(
        root.components.len() as int,
    ) == root.components
}

fn is_within(path: &HostPath, root: &HostPath) -> (r: bool)
    ensures
        r == lies_within(path.deep_view(), root.deep_view()),
{
    let ghost p = text::views(path.components@);
    let ghost q = text::views(root.components@);
    if root.components.len() > path.components.len() {
        return false;
    }
    let mut i: usize = 0;
    while i < root.components.len()
        invariant
            i <= root.components@.len() <= path.components@.len(),
            p == text::views(path.components@),
            q == text::views(root.components@),
            forall|k: int| 0 <= k < i ==> #[trigger] q[k] == p[k],
        decreases root.components@.len() - i,
    {
        assert(q[i as int] == root.components@[i as int]@);
        assert(p[i as int] == path.components@[i as int]@);
        if !text::same(root.components[i].as_str(), path.components[i].as_str()) {
            assert(p.take(q.len() as int)[i as int] != q[i as int]);
            return false;
        }
        i += 1;
    }
    assert(p.take(q.len() as int) =~= q);
    true
}

/// The first of the roots that holds the runtime decides.
pub open spec fn runtime_checked(
    runtime: HostPathView,
    roots: Seq<HostPathView>,
    count: int,
) -> Result<(), ProcessFault>
    decreases count,
{
    if count <= 0 {
        Ok(())
    } else {
        match runtime_checked(runtime, roots, count - 1) {
            Err(e) => Err(e),
            Ok(()) => if lies_within(runtime, roots[count - 1]) {
                Err(
                    ProcessFault::RuntimeInsideWorkspace {
                        runtime: runtime.text,
                        workspace: roots[count - 1].text,
                    },
                )
            } else {
                Ok(())
            },
        }
    }
}

proof fn lemma_runtime_refused(
    runtime: HostPathView,
    roots: Seq<HostPathView>,
    i: int,
    count: int,
)
    requires
        0 <= i <= count,
        runtime_checked(runtime, roots, i) is Err,
    ensures
        runtime_checked(runtime, roots, count) == runtime_checked(runtime, roots, i),
    decreases count - i,
{
    if i < count {
        lemma_runtime_refused(runtime, roots, i, count - 1);
    }
}

/// Refuses a runtime that lies in one of the roots.
pub fn reject_runtime_inside(runtime: &HostPath, forbidden_roots: &Vec<HostPath>) -> (r: Result<
    (),
    ProcessBackendError,
>)
    ensures
        outcome::of(r) == runtime_checked(
            runtime.deep_view(),
            forbidden_roots.deep_view(),
            forbidden_roots@.len() as int,
        ),
{
    let ghost view = runtime.deep_view();
    let ghost roots = forbidden_roots.deep_view();
    let mut i: usize = 0;
    while i < forbidden_roots.len()
        invariant
            i <= forbidden_roots@.len(),
            view == runtime.deep_view(),
            roots == forbidden_roots.deep_view(),
            runtime_checked(view, roots, i as int) == Ok::<(), ProcessFault>(()),
        decreases forbidden_roots@.len() - i,
    {
        assert(roots[i as int] == forbidden_roots@[i as int].deep_view());
        if is_within(runtime, &forbidden_roots[i]) {
            proof {
                lemma_runtime_refused(view, roots, i + 1, forbidden_roots@.len() as int);
            }
            return Err(
                ProcessBackendError::RuntimeInsideWorkspace {
                    runtime: runtime.text.clone(),
                    workspace: forbidden_roots[i].text.clone(),
                },
            );
        }
        i += 1;
    }
    Ok(())
}

/// A runtime that is accepted lies in none of the roots that the workspace controls.
pub proof fn law_accepted_runtimes_lie_outside(
    runtime: HostPathView,
    roots: Seq<HostPathView>,
    count: int,
    i: int,
)
    requires
        0 <= i < count <= roots.len(),
        runtime_checked(runtime, roots, count) is Ok,
    ensures
        !lies_within(runtime, roots[i]),
    decreases count,
{
    if i < count - 1 {
        law_accepted_runtimes_lie_outside(runtime, roots, count - 1, i);
    }
}

impl OciProcessConfig {
    /// The configuration of a runtime with the default limits.
    pub fn for_runtime(runtime: OciRuntimeKind, image: String) -> (r: OciProcessConfig)
        ensures
            r.deep_view() == (ConfigView {
                runtime,
                runtime_executable: runtime.executable_spec(),
                image: image@,
                profile: default_profile(),
            }),
    {
        OciProcessConfig {
            runtime,
            runtime_executable: runtime.executable_name().to_owned(),
            image,
            profile: OciSandboxProfile::default(),
        }
    }

    /// Refuses limits and image references that must not reach a runtime.
    pub fn validate(&self) -> (r: Result<(), ProcessBackendError>)
        ensures
            outcome::of(r) == config_checked(self.deep_view()),
    {
        match self.profile.validate() {
            Err(e) => Err(e),
            Ok(()) => validate_image_reference(self.image.as_str()),
        }
    }
}

/// Whether a configuration may reach a runtime.
pub open spec fn config_checked(config: ConfigView) -> Result<(), ProcessFault> {
    match profile_checked(config.profile) {
        Err(e) => Err(e),
        Ok(()) => image_reference_checked(config.image),
    }
}

/// Whether a runtime identified itself: it exited well and its output names it.
pub open spec fn identified(kind: OciRuntimeKind, exit_code: Option<i32>, output: Seq<char>) -> bool {
    exit_code == Some(0i32) && text::contains_text(
        text::ascii_lowered(output),
        kind.executable_spec(),
    )
}

/// Whether a runtime identified itself.
pub fn identifies(kind: OciRuntimeKind, exit_code: Option<i32>, output: &str) -> (r: bool)
    ensures
        r == identified(kind, exit_code, output@),
{
    let well = match exit_code {
        Some(code) => code == 0,
        None => false,
    };
    well && text::contains(text::ascii_lower_text(output).as_str(), kind.executable_name())
}

/// Refuses a runtime at `path` that did not identify itself by the version it printed.
pub fn check_runtime(path: &str, kind: OciRuntimeKind, exit_code: Option<i32>, stdout: &Vec<u8>) -> (r:
    Result<(), ProcessBackendError>)
    ensures
        outcome::of(r) == (if identified(kind, exit_code, text::lossy_view(stdout@)) {
            Ok(())
        } else {
            Err(
                ProcessFault::RuntimeMismatch { path: path@, expected: kind.executable_spec() },
            )
        }),
{
    let output = text::lossy_text(stdout.as_slice());
    if identifies(kind, exit_code, output.as_str()) {
        Ok(())
    } else {
        Err(
            ProcessBackendError::RuntimeMismatch {
                path: path.to_owned(),
                expected: kind.executable_name().to_owned(),
            },
        )
    }
}

/// The identity of an image, as a runtime printed it.
pub open spec fn image_identity_of(image: Seq<char>, exit_code: Option<i32>, output: Seq<char>) -> Result<
    Seq<char>,
    ProcessFault,
> {
    let identity = text::trim_spec(output);
    if exit_code != Some(0i32) {
        Err(ProcessFault::ImageUnavailable { image })
    } else if is_image_identity(identity) {
        Ok(identity)
    } else {
        Err(ProcessFault::InvalidImageIdentity(identity))
    }
}

/// The identity of an image, as a runtime printed it.
pub fn printed_image_identity(image: &str, exit_code: Option<i32>, output: &str) -> (r: Result<
    String,
    ProcessBackendError,
>)
    ensures
        outcome::of(r) == image_identity_of(image@, exit_code, output@),
{
    let well = match exit_code {
        Some(code) => code == 0,
        None => false,
    };
    if !well {
        return Err(ProcessBackendError::ImageUnavailable { image: image.to_owned() });
    }
    let identity = text::trim(output);
    match validate_image_identity(identity.as_str()) {
        Ok(()) => Ok(identity),
        Err(e) => Err(e),
    }
}

/// The identity of an image, of which a runtime printed `stdout`.
pub fn resolve_image_identity(image: &str, exit_code: Option<i32>, stdout: &Vec<u8>) -> (r: Result<
    String,
    ProcessBackendError,
>)
    ensures
        outcome::of(r) == image_identity_of(image@, exit_code, text::lossy_view(stdout@)),
{
    printed_image_identity(image, exit_code, text::lossy_text(stdout.as_slice()).as_str())
}

/// What is asked of a runtime.
#[derive(Clone, Copy, Debug, PartialEq, Eq, Structural)]
pub enum RuntimeQuery {
    /// Its version.
    Version,
    /// The identity of an image.
    ImageIdentity,
    /// To remove a container.
    RemoveContainer,
    /// Whether a container exists.
    InspectContainer,
}

/// The arguments of a query about `subject`.
pub open spec fn query_arguments(query: RuntimeQuery, subject: Seq<char>) -> Seq<Seq<char>> {
    match query {
        RuntimeQuery::Version => Seq::<Seq<char>>::empty().push("--version"@),
        RuntimeQuery::ImageIdentity => Seq::<Seq<char>>::empty().push("image"@).push(
            "inspect"@,
        ).push("--format"@).push("{{.Id}}"@).push(subject),
        RuntimeQuery::RemoveContainer => Seq::<Seq<char>>::empty().push("container"@).push(
            "rm"@,
        ).push("--force"@).push(subject),
        RuntimeQuery::InspectContainer => Seq::<Seq<char>>::empty().push("container"@).push(
            "inspect"@,
        ).push(subject),
    }
}

/// The arguments of a query about `subject`.
pub fn runtime_query(query: RuntimeQuery, subject: &str) -> (r: Vec<String>)
    ensures
        text::views(r@) == query_arguments(query, subject@),
{
    let none = schema::no_names();
    match query {
        RuntimeQuery::Version => schema::and_name(none, "--version"),
        RuntimeQuery::ImageIdentity => {
            let two = schema::and_name(schema::and_name(none, "image"), "inspect");
            let four = schema::and_name(schema::and_name(two, "--format"), "{{.Id}}");
            schema::and_name(four, subject)
        },
        RuntimeQuery::RemoveContainer => {
            let three = schema::and_name(
                schema::and_name(schema::and_name(none, "container"), "rm"),
                "--force",
            );
            schema::and_name(three, subject)
        },
        RuntimeQuery::InspectContainer => schema::and_name(
            schema::and_name(schema::and_name(none, "container"), "inspect"),
            subject,
        ),
    }
}

/// Restricted execution through a local Docker or Podman CLI.
#[derive(Debug)]
pub struct OciProcessBackend {
    runtime: OciRuntimeKind,
    runtime_path: String,
    runtime_fingerprint: String,
    image: String,
    image_identity: String,
    profile: OciSandboxProfile,
    descriptor: ProcessBackendDescriptor,
}

/// An [`OciProcessBackend`] by its texts.
pub struct OciView {
    pub runtime: OciRuntimeKind,
    pub runtime_path: Seq<char>,
    pub runtime_fingerprint: Seq<char>,
    pub image: Seq<char>,
    pub image_identity: Seq<char>,
    pub profile: OciSandboxProfile,
    pub descriptor: BackendView,
}

impl DeepView for OciProcessBackend {
    type V = OciView;

    closed spec fn deep_view(&self) -> OciView {
        OciView {
            runtime: self.runtime,
            runtime_path: self.runtime_path@,
            runtime_fingerprint: self.runtime_fingerprint@,
            image: self.image@,
            image_identity: self.image_identity@,
            profile: self.profile,
            descriptor: self.descriptor.deep_view(),
        }
    }
}

/// A backend made of a configuration and of what was found out about it.
pub open spec fn oci_backend(
    config: ConfigView,
    runtime_path: Seq<char>,
    runtime_fingerprint: Seq<char>,
    image_identity: Seq<char>,
    limits_digest: Seq<char>,
) -> OciView {
    OciView {
        runtime: config.runtime,
        runtime_path,
        runtime_fingerprint,
        image: config.image,
        image_identity,
        profile: config.profile,
        descriptor: BackendView {
            kind: ProcessBackendKind::OciRestricted,
            strength: "oci_restricted"@,
            runtime: Some(runtime_path),
            runtime_fingerprint: Some(runtime_fingerprint),
            image: Some(config.image),
            image_identity: Some(image_identity),
            profile_digest: limits_digest,
            network: "none"@,
            filesystem: "candidate read-write; image read-only; bounded temporary filesystem"@,
        },
    }
}

/// The source of the workspace's mount in a container.
pub open spec fn mount_argument(workspace: Seq<char>) -> Result<Seq<char>, ProcessFault> {
    if workspace.contains('\0') || workspace.contains('\n') || workspace.contains('\r') {
        Err(ProcessFault::UnsafeMountPath(workspace))
    } else {
        Ok(
            "type=bind,source=\""@ + text::replace_spec(workspace, "\""@, "\"\""@)
                + "\",target=/workspace"@,
        )
    }
}

/// The mount of the workspace in a container.
pub fn bind_mount_argument(workspace: &str) -> (r: Result<String, ProcessBackendError>)
    ensures
        outcome::of(r) == mount_argument(workspace@),
{
    if text::contains_char(workspace, '\0') || text::contains_char(workspace, '\n')
        || text::contains_char(workspace, '\r') {
        return Err(ProcessBackendError::UnsafeMountPath(workspace.to_owned()));
    }
    let escaped = text::replace(workspace, "\"", "\"\"");
    Ok(text::concat3("type=bind,source=\"", escaped.as_str(), "\",target=/workspace"))
}

/// Three digits of a number below a thousand.
pub open spec fn three_digits(n: nat) -> Seq<char> {
    if n < 10 {
        "00"@ + text::decimal(n)
    } else if n < 100 {
        "0"@ + text::decimal(n)
    } else {
        text::decimal(n)
    }
}

/// Processors as a runtime is told them.
pub open spec fn cpus(milli: u32) -> Seq<char> {
    text::decimal((milli / 1000) as nat) + "."@ + three_digits((milli % 1000) as nat)
}

fn cpus_text(milli: u32) -> (r: String)
    ensures
        r@ == cpus(milli),
{
    let rest: u32 = milli % 1000;
    let digits = text::decimal_text(rest as u64);
    let padded = if rest < 10 {
        text::concat2("00", digits.as_str())
    } else if rest < 100 {
        text::concat2("0", digits.as_str())
    } else {
        digits
    };
    text::concat3(text::decimal_text((milli / 1000) as u64).as_str(), ".", padded.as_str())
}

/// The arguments that fence a container in, up to the program that it runs.
pub open spec fn fence(
    profile: OciSandboxProfile,
    mount: Seq<char>,
    container: Seq<char>,
    program: Seq<char>,
) -> Seq<Seq<char>> {
    let memory = text::decimal(profile.memory_bytes as nat);
    Seq::<Seq<char>>::empty().push("run"@).push("--rm"@).push("--init"@).push("--pull=never"@).push(
        "--name="@ + container,
    ).push("--network=none"@).push("--read-only"@).push("--cap-drop=ALL"@).push(
        "--security-opt=no-new-privileges"@,
    ).push("--ipc=none"@).push("--pids-limit="@ + text::decimal(profile.pids_limit as nat)).push(
        "--memory="@ + memory,
    ).push("--memory-swap="@ + memory).push("--cpus="@ + cpus(profile.milli_cpus)).push(
        "--tmpfs=/tmp:rw,noexec,nosuid,nodev,size="@ + text::decimal(profile.tmpfs_bytes as nat),
    ).push("--mount="@ + mount).push("--workdir=/workspace"@).push("--entrypoint="@ + program)
}

fn fence_arguments(
    profile: &OciSandboxProfile,
    mount: &str,
    container: &str,
    program: &str,
) -> (r: Vec<String>)
    ensures
        text::views(r@) == fence(*profile, mount@, container@, program@),
{
    let memory = text::decimal_text(profile.memory_bytes);
    let mut args = schema::and_name(schema::no_names(), "run");
    args = schema::and_name(args, "--rm");
    args = schema::and_name(args, "--init");
    args = schema::and_name(args, "--pull=never");
    args = schema::and_name(args, text::concat2("--name=", container).as_str());
    args = schema::and_name(args, "--network=none");
    args = schema::and_name(args, "--read-only");
    args = schema::and_name(args, "--cap-drop=ALL");
    args = schema::and_name(args, "--security-opt=no-new-privileges");
    args = schema::and_name(args, "--ipc=none");
    args = schema::and_name(
        args,
        text::concat2(
            "--pids-limit=",
            text::decimal_text(profile.pids_limit as u64).as_str(),
        ).as_str(),
    );
    args = schema::and_name(args, text::concat2("--memory=", memory.as_str()).as_str());
    args = schema::and_name(args, text::concat2("--memory-swap=", memory.as_str()).as_str());
    args = schema::and_name(
        args,
        text::concat2("--cpus=", cpus_text(profile.milli_cpus).as_str()).as_str(),
    );
    args = schema::and_name(
        args,
        text::concat2(
            "--tmpfs=/tmp:rw,noexec,nosuid,nodev,size=",
            text::decimal_text(profile.tmpfs_bytes).as_str(),
        ).as_str(),
    );
    args = schema::and_name(args, text::concat2("--mount=", mount).as_str());
    args = schema::and_name(args, "--workdir=/workspace");
    schema::and_name(args, text::concat2("--entrypoint=", program).as_str())
}

/// The arguments that set the first `count` variables.
pub open spec fn variables(environment: Seq<(Seq<char>, Seq<char>)>, count: int) -> Seq<Seq<char>>
    decreases count,
{
    if count <= 0 {
        Seq::empty()
    } else {
        let (name, value) = environment[count - 1];
        variables(environment, count - 1).push("--env"@).push(name + "="@ + value)
    }
}

/// The arguments of a runtime that runs a program in a restricted container.
pub open spec fn plan(
    backend: OciView,
    workspace: Seq<char>,
    request: ProcessView,
    container: Seq<char>,
) -> Result<Seq<Seq<char>>, ProcessFault> {
    match mount_argument(workspace) {
        Err(e) => Err(e),
        Ok(mount) => Ok(
            (fence(backend.profile, mount, container, request.program) + variables(
                request.environment,
                request.environment.len() as int,
            )).push(backend.image_identity) + request.args,
        ),
    }
}

impl OciProcessBackend {
    /// A backend made of a configuration that was checked and of what was found out about
    /// it, with a digest of its limits that the caller supplies.
    pub fn describe(
        config: OciProcessConfig,
        runtime_path: String,
        runtime_fingerprint: String,
        image_identity: String,
        limits_digest: String,
    ) -> (r: OciProcessBackend)
        ensures
            r.deep_view() == oci_backend(
                config.deep_view(),
                runtime_path@,
                runtime_fingerprint@,
                image_identity@,
                limits_digest@,
            ),
    {
        let descriptor = ProcessBackendDescriptor {
            kind: ProcessBackendKind::OciRestricted,
            strength: "oci_restricted".to_owned(),
            runtime: Some(runtime_path.clone()),
            runtime_fingerprint: Some(runtime_fingerprint.clone()),
            image: Some(config.image.clone()),
            image_identity: Some(image_identity.clone()),
            profile_digest: limits_digest,
            network: "none".to_owned(),
            filesystem: "candidate read-write; image read-only; bounded temporary filesystem".to_owned(),
        };
        OciProcessBackend {
            runtime: config.runtime,
            runtime_path,
            runtime_fingerprint,
            image: config.image,
            image_identity,
            profile: config.profile,
            descriptor,
        }
    }

    /// A backend made of a configuration and of what was found out about it: the path and
    /// the digest of the runtime, and the identity of the image.
    pub fn initialize(
        config: OciProcessConfig,
        runtime_path: String,
        runtime_fingerprint: String,
        image_identity: String,
    ) -> (r: Result<OciProcessBackend, ProcessBackendError>)
        ensures
            outcome::of(r) == (match config_checked(config.deep_view()) {
                Err(e) => Err(e),
                Ok(()) => if !is_image_identity(image_identity@) {
                    Err(ProcessFault::InvalidImageIdentity(image_identity@))
                } else {
                    Ok(
                        oci_backend(
                            config.deep_view(),
                            runtime_path@,
                            runtime_fingerprint@,
                            image_identity@,
                            profile_digest(config.profile),
                        ),
                    )
                },
            }),
    {
        match config.validate() {
            Err(e) => {
                return Err(e);
            },
            Ok(()) => {},
        }
        match validate_image_identity(image_identity.as_str()) {
            Err(e) => {
                return Err(e);
            },
            Ok(()) => {},
        }
        let limits_digest = config.profile.digest();
        Ok(
            OciProcessBackend::describe(
                config,
                runtime_path,
                runtime_fingerprint,
                image_identity,
                limits_digest,
            ),
        )
    }

    /// The arguments of the runtime that run a program in a container that sees only the
    /// workspace, which is named by its canonical path.
    pub fn command_plan(&self, workspace: &str, request: &ProcessRequest, container_name: &str) -> (r:
        Result<Vec<String>, ProcessBackendError>)
        ensures
            match r {
                Ok(args) => plan(
                    self.deep_view(),
                    workspace@,
                    request.deep_view(),
                    container_name@,
                ) == Ok::<_, ProcessFault>(text::views(args@)),
                Err(e) => plan(
                    self.deep_view(),
                    workspace@,
                    request.deep_view(),
                    container_name@,
                ) == Err::<Seq<Seq<char>>, _>(e.deep_view()),
            },
    {
        let mount = match bind_mount_argument(workspace) {
            Err(e) => {
                return Err(e);
            },
            Ok(m) => m,
        };
        let mut args = fence_arguments(
            &self.profile,
            mount.as_str(),
            container_name,
            request.program.as_str(),
        );
        let ghost fenced = text::views(args@);
        let ghost environment = request.deep_view().environment;
        let mut i: usize = 0;
        assert(fenced + variables(environment, 0) =~= fenced);
        while i < request.environment.len()
            invariant
                i <= request.environment@.len(),
                environment == request.deep_view().environment,
                text::views(args@) == fenced + variables(environment, i as int),
            decreases request.environment@.len() - i,
        {
            let entry = &request.environment[i];
            assert(environment[i as int] == (entry.0@, entry.1@));
            let ghost before = text::views(args@);
            args = schema::and_name(args, "--env");
            args = schema::and_name(
                args,
                text::concat3(entry.0.as_str(), "=", entry.1.as_str()).as_str(),
            );
            i += 1;
            assert(fenced + variables(environment, i as int) =~= before.push("--env"@).push(
                entry.0@ + "="@ + entry.1@,
            ));
        }
        args = schema::and_name(args, self.image_identity.as_str());
        let ghost head = text::views(args@);
        let ghost wanted = text::views(request.args@);
        let mut k: usize = 0;
        assert(head + wanted.take(0) =~= head);
        while k < request.args.len()
            invariant
                k <= request.args@.len(),
                wanted == text::views(request.args@),
                text::views(args@) == head + wanted.take(k as int),
            decreases request.args@.len() - k,
        {
            let ghost before = text::views(args@);
            assert(wanted[k as int] == request.args@[k as int]@);
            args = schema::and_name(args, request.args[k].as_str());
            k += 1;
            assert(head + wanted.take(k as int) =~= before.push(wanted[k - 1]));
        }
        assert(wanted.take(k as int) =~= wanted);
        Ok(args)
    }

    /// The kind of the runtime.
    pub fn runtime(&self) -> (r: OciRuntimeKind)
        ensures
            r == self.deep_view().runtime,
    {
        self.runtime
    }

    /// The path of the runtime.
    pub fn runtime_path(&self) -> (r: &str)
        ensures
            r@ == self.deep_view().runtime_path,
    {
        self.runtime_path.as_str()
    }

    /// Returns the resolved runtime fingerprint used in approval binding.
    pub fn runtime_fingerprint(&self) -> (r: &str)
        ensures
            r@ == self.deep_view().runtime_fingerprint,
    {
        self.runtime_fingerprint.as_str()
    }

    /// Returns the configured human-readable image reference.
    pub fn image_reference(&self) -> (r: &str)
        ensures
            r@ == self.deep_view().image,
    {
        self.image.as_str()
    }

    /// The description of the backend.
    pub fn descriptor(&self) -> (r: ProcessBackendDescriptor)
        ensures
            r.deep_view() == self.deep_view().descriptor,
    {
        self.descriptor.clone()
    }
}

/// The fingerprint of a runtime's executable file: the digest of its content.
pub fn digest_file(content: &[u8]) -> (r: String)
    ensures
        r@ == digest::blake3_hex(content@),
        digest::is_digest(r@),
{
    digest::content_digest(content)
}

/// The name of a container, made of the process that starts it and a number that is used
/// once.
pub fn container_name(process_id: u32, sequence: u64) -> (r: String)
    ensures
        r@ == "pactrail-"@ + text::decimal(process_id as nat) + "-"@ + text::decimal(
            sequence as nat,
        ),
{
    text::concat4(
        "pactrail-",
        text::decimal_text(process_id as u64).as_str(),
        "-",
        text::decimal_text(sequence).as_str(),
    )
}

/// How a process ended.
#[derive(Debug)]
pub enum Completion {
    /// It exited, with a code or without one.
    Exited(Option<i32>),
    /// It could not be waited on.
    Lost(String),
    Cancelled,
    TimedOut,
}

/// A [`Completion`] by its text.
pub enum CompletionView {
    Exited(Option<i32>),
    Lost(Seq<char>),
    Cancelled,
    TimedOut,
}

impl DeepView for Completion {
    type V = CompletionView;

    open spec fn deep_view(&self) -> CompletionView {
        match self {
            Completion::Exited(code) => CompletionView::Exited(*code),
            Completion::Lost(m) => CompletionView::Lost(m@),
            Completion::Cancelled => CompletionView::Cancelled,
            Completion::TimedOut => CompletionView::TimedOut,
        }
    }
}

/// The exit code of a process that exited, and the refusal of any other end.
pub open spec fn concluded(
    program: Seq<char>,
    timeout_seconds: u64,
    completion: CompletionView,
) -> Result<Option<i32>, ProcessFault> {
    match completion {
        CompletionView::Exited(code) => Ok(code),
        CompletionView::Lost(message) => Err(ProcessFault::Wait { program, message }),
        CompletionView::Cancelled => Err(ProcessFault::Cancelled { program }),
        CompletionView::TimedOut => Err(
            ProcessFault::Timeout { program, seconds: timeout_seconds },
        ),
    }
}

/// The exit code of a process that exited, and the refusal of any other end.
pub fn conclude(program: &str, timeout_seconds: u64, completion: Completion) -> (r: Result<
    Option<i32>,
    ProcessBackendError,
>)
    ensures
        match r {
            Ok(code) => concluded(program@, timeout_seconds, completion.deep_view()) == Ok::<
                _,
                ProcessFault,
            >(code),
            Err(e) => concluded(program@, timeout_seconds, completion.deep_view()) == Err::<
                Option<i32>,
                _,
            >(e.deep_view()),
        },
{
    match completion {
        Completion::Exited(code) => Ok(code),
        Completion::Lost(message) => Err(
            ProcessBackendError::Wait { program: program.to_owned(), message },
        ),
        Completion::Cancelled => Err(
            ProcessBackendError::Cancelled { program: program.to_owned() },
        ),
        Completion::TimedOut => Err(
            ProcessBackendError::Timeout {
                program: program.to_owned(),
                seconds: timeout_seconds,
            },
        ),
    }
}

/// Whether a container must be looked for after its removal, by what the removal exited
/// with: one that succeeded leaves nothing to look for.
pub fn needs_inspection(removal_exit: Option<i32>) -> (r: bool)
    ensures
        r == (removal_exit != Some(0i32)),
{
    match removal_exit {
        Some(code) => code != 0,
        None => true,
    }
}

/// Whether a container is gone, by what an inspection that followed its removal exited
/// with: an inspection that fails with a code found none.
pub fn check_container_gone(container: &str, inspection_exit: Option<i32>) -> (r: Result<
    (),
    ProcessBackendError,
>)
    ensures
        outcome::of(r) == (match inspection_exit {
            Some(code) => if code != 0 {
                Ok(())
            } else {
                Err(ProcessFault::ContainerCleanup { container: container@ })
            },
            None => Err(ProcessFault::ContainerCleanup { container: container@ }),
        }),
{
    let gone = match inspection_exit {
        Some(code) => code != 0,
        None => false,
    };
    if gone {
        Ok(())
    } else {
        Err(ProcessBackendError::ContainerCleanup { container: container.to_owned() })
    }
}

/// The failure that is reported once the container of a failed run was cleaned up, or
/// could not be.
pub fn after_cleanup(primary: ProcessBackendError, cleanup: Result<(), ProcessBackendError>) -> (r:
    ProcessBackendError)
    ensures
        r.deep_view() == (match outcome::of(cleanup) {
            Ok(_) => primary.deep_view(),
            Err(e) => ProcessFault::CleanupAfterFailure {
                primary: process_error::process_message(primary.deep_view()),
                cleanup: process_error::process_message(e),
            },
        }),
{
    match cleanup {
        Ok(()) => primary,
        Err(e) => ProcessBackendError::CleanupAfterFailure {
            primary: primary.message(),
            cleanup: e.message(),
        },
    }
}

/// What is kept of a stream: its beginning, up to a limit.
#[derive(Debug)]
pub struct BoundedOutput {
    retained: Vec<u8>,
    limit: usize,
    truncated: bool,
}

/// A [`BoundedOutput`] by its bytes.
pub struct BoundedView {
    pub retained: Seq<u8>,
    pub limit: nat,
    pub truncated: bool,
}

impl DeepView for BoundedOutput {
    type V = BoundedView;

    closed spec fn deep_view(&self) -> BoundedView {
        BoundedView {
            retained: self.retained@,
            limit: self.limit as nat,
            truncated: self.truncated,
        }
    }
}

/// What is kept of a stream that consists of `bytes`.
pub open spec fn bounded(bytes: Seq<u8>, limit: nat) -> BoundedView {
    BoundedView {
        retained: if bytes.len() <= limit {
            bytes
        } else {
            bytes.take(limit as int)
        },
        limit,
        truncated: bytes.len() > limit,
    }
}

/// What is kept after one more piece of the stream.
pub open spec fn with_piece(kept: BoundedView, piece: Seq<u8>) -> BoundedView {
    let room = kept.limit - kept.retained.len();
    if piece.len() <= room {
        BoundedView { retained: kept.retained + piece, ..kept }
    } else {
        BoundedView { retained: kept.retained + piece.take(room), truncated: true, ..kept }
    }
}

impl BoundedOutput {
    /// Whether no more is kept than may be.
    pub closed spec fn wf(&self) -> bool {
        self.retained@.len() <= self.limit
    }

    /// Nothing kept yet.
    pub fn new(limit: usize) -> (r: BoundedOutput)
        ensures
            r.wf(),
            r.deep_view() == bounded(Seq::empty(), limit as nat),
    {
        BoundedOutput { retained: Vec::new(), limit, truncated: false }
    }

    /// Takes over the next `count` bytes of the stream, which stand at the beginning of
    /// `buffer`.
    pub fn push_piece(&mut self, buffer: &[u8], count: usize)
        requires
            old(self).wf(),
            count <= buffer@.len(),
        ensures
            final(self).wf(),
            final(self).deep_view() == with_piece(
                old(self).deep_view(),
                buffer@.take(count as int),
            ),
    {
        let room: usize = self.limit - self.retained.len();
        let keep: usize = if count <= room {
            count
        } else {
            room
        };
        let ghost before = self.retained@;
        let ghost piece = buffer@.take(count as int);
        let mut i: usize = 0;
        assert(before + buffer@.take(0) =~= before);
        while i < keep
            invariant
                i <= keep <= buffer@.len(),
                self.limit == old(self).limit,
                self.truncated == old(self).truncated,
                self.retained@ == before + buffer@.take(i as int),
            decreases keep - i,
        {
            self.retained.push(buffer[i]);
            i += 1;
            assert(before + buffer@.take(i as int) =~= (before + buffer@.take(i - 1)).push(
                buffer@[i - 1],
            ));
        }
        assert(piece.take(keep as int) =~= buffer@.take(keep as int));
        assert(piece.take(count as int) =~= piece);
        if keep < count {
            self.truncated = true;
        }
    }

    /// What was kept, and whether there was more.
    pub fn finish(self) -> (r: (Vec<u8>, bool))
        ensures
            r.0@ == self.deep_view().retained,
            r.1 == self.deep_view().truncated,
    {
        (self.retained, self.truncated)
    }
}

/// However a stream comes in pieces, what is kept of it is its beginning up to the limit,
/// and it is marked as truncated exactly if there was more.
pub proof fn law_output_is_a_beginning(stream: Seq<u8>, piece: Seq<u8>, limit: nat)
    ensures
        with_piece(bounded(stream, limit), piece) == bounded(stream + piece, limit),
{
    let now = with_piece(bounded(stream, limit), piece);
    let wanted = bounded(stream + piece, limit);
    if stream.len() > limit {
        let room: int = 0;
        assert(stream.take(limit as int).len() == limit);
        if piece.len() == 0 {
            assert(stream + piece =~= stream);
            assert(stream.take(limit as int) + piece =~= stream.take(limit as int));
        } else {
            assert(stream.take(limit as int) + piece.take(room) =~= (stream + piece).take(
                limit as int,
            ));
        }
    } else if stream.len() + piece.len() > limit {
        assert(stream + piece.take(limit - stream.len()) =~= (stream + piece).take(limit as int));
    }
    assert(now.retained =~= wanted.retained);
}

/// Whatever a model asks for, a plan starts with the arguments that fence the container
/// in, and the image's identity separates what the runtime reads from what the program
/// gets: the model's arguments are exactly what follows it.
pub proof fn law_plans_stay_fenced(
    backend: OciView,
    workspace: Seq<char>,
    request: ProcessView,
    container: Seq<char>,
)
    ensures
        plan(backend, workspace, request, container) matches Ok(args) ==> {
            let fenced = fence(
                backend.profile,
                mount_argument(workspace)->Ok_0,
                container,
                request.program,
            );
            let at = fenced.len() + 2 * request.environment.len();
            &&& args.len() == at + 1 + request.args.len()
            &&& args.take(fenced.len() as int) == fenced
            &&& args[at as int] == backend.image_identity
            &&& args.skip(at as int + 1) == request.args
        },
{
    let args = plan(backend, workspace, request, container);
    if args is Ok {
        let fenced = fence(
            backend.profile,
            mount_argument(workspace)->Ok_0,
            container,
            request.program,
        );
        let n = request.environment.len() as int;
        lemma_variables(request.environment, n);
        let at = fenced.len() + 2 * n;
        assert(args->Ok_0.take(fenced.len() as int) =~= fenced);
        assert(args->Ok_0.skip(at + 1) =~= request.args);
    }
}

proof fn lemma_variables(environment: Seq<(Seq<char>, Seq<char>)>, count: int)
    requires
        0 <= count <= environment.len(),
    ensures
        variables(environment, count).len() == 2 * count,
    decreases count,
{
    if count > 0 {
        lemma_variables(environment, count - 1);
    }
}

/// The fence holds what keeps a container in: no network, no image pulls, a read-only
/// image, no capabilities and no new privileges.
pub proof fn law_fences_hold_their_boundaries(
    profile: OciSandboxProfile,
    mount: Seq<char>,
    container: Seq<char>,
    program: Seq<char>,
)
    ensures
        ({
            let args = fence(profile, mount, container, program);
            &&& args.len() == 18
            &&& args[1] == "--rm"@
            &&& args[3] == "--pull=never"@
            &&& args[5] == "--network=none"@
            &&& args[6] == "--read-only"@
            &&& args[7] == "--cap-drop=ALL"@
            &&& args[8] == "--security-opt=no-new-privileges"@
            &&& args[9] == "--ipc=none"@
            &&& args[15] == "--mount="@ + mount
        }),
{
}

/// The variables of the host that a runtime is given.
pub open spec fn runtime_environment() -> Seq<Seq<char>> {
    Seq::<Seq<char>>::empty().push("PATH"@).push("PATHEXT"@).push("SystemRoot"@).push(
        "WINDIR"@,
    ).push("HOME"@).push("USERPROFILE"@).push("APPDATA"@).push("LOCALAPPDATA"@).push(
        "XDG_RUNTIME_DIR"@,
    ).push("DOCKER_HOST"@).push("DOCKER_CONTEXT"@).push("DOCKER_CONFIG"@).push(
        "CONTAINER_HOST"@,
    ).push("CONTAINERS_CONF"@)
}

/// The variables of the host that a runtime is given.
pub fn runtime_environment_names() -> (r: Vec<String>)
    ensures
        text::views(r@) == runtime_environment(),
{
    let mut names = schema::and_name(schema::no_names(), "PATH");
    names = schema::and_name(names, "PATHEXT");
    names = schema::and_name(names, "SystemRoot");
    names = schema::and_name(names, "WINDIR");
    names = schema::and_name(names, "HOME");
    names = schema::and_name(names, "USERPROFILE");
    names = schema::and_name(names, "APPDATA");
    names = schema::and_name(names, "LOCALAPPDATA");
    names = schema::and_name(names, "XDG_RUNTIME_DIR");
    names = schema::and_name(names, "DOCKER_HOST");
    names = schema::and_name(names, "DOCKER_CONTEXT");
    names = schema::and_name(names, "DOCKER_CONFIG");
    names = schema::and_name(names, "CONTAINER_HOST");
    schema::and_name(names, "CONTAINERS_CONF")
}

} // verus!
