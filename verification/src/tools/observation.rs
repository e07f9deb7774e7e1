//! The tool that reads earlier tool observations piece by piece.

use crate::digest;
use crate::json;
use crate::json::{Json, JsonMap, JsonView};
use crate::outcome;
use crate::text;
use crate::tools::descriptor;
use crate::tools::descriptor::{Capability, DescriptorView, OutputView, ToolDescriptor, ToolOutput};
use crate::tools::error::{ToolError, ToolFault};
use crate::tools::reading;
use crate::tools::reading::{one_effect, success};
use crate::tools::registry;
use crate::tools::registry::{ContextView, ToolContext};
use crate::tools::schema;
use vstd::prelude::*;
use vstd::utf8::*;

verus! {

/// Largest number of bytes of one piece.
pub const MAX_CHUNK_BYTES: u64 = 4096;

/// What `read_observation` is asked for.
pub struct ReadObservationInput {
    /// BLAKE3 digest from a Pactrail compacted tool observation.
    pub digest: String,
    /// UTF-8 byte offset from the beginning of the original JSON.
    pub start_byte: u64,
    /// Maximum bytes to return, from 1 through 4096.
    pub max_bytes: u64,
}

/// A [`ReadObservationInput`] by its text.
pub struct ObservationView {
    pub digest: Seq<char>,
    pub start_byte: u64,
    pub max_bytes: u64,
}

impl DeepView for ReadObservationInput {
    type V = ObservationView;

    open spec fn deep_view(&self) -> ObservationView {
        ObservationView {
            digest: self.digest@,
            start_byte: self.start_byte,
            max_bytes: self.max_bytes,
        }
    }
}

/// The schema of [`ReadObservationInput`].
pub open spec fn observation_schema() -> JsonView {
    schema::document(
        schema::closed_object(
            Map::<Seq<char>, JsonView>::empty().insert(
                "digest"@,
                schema::described(
                    schema::typed("string"@),
                    "BLAKE3 digest from a Pactrail compacted tool observation."@,
                ),
            ).insert(
                "start_byte"@,
                schema::defaulted(
                    schema::described(
                        schema::number_spec(),
                        "UTF-8 byte offset from the beginning of the original JSON."@,
                    ),
                    json::num(0),
                ),
            ).insert(
                "max_bytes"@,
                schema::defaulted(
                    schema::described(
                        schema::number_spec(),
                        "Maximum bytes to return, from 1 through 4096."@,
                    ),
                    json::num(MAX_CHUNK_BYTES as nat),
                ),
            ),
            Seq::<Seq<char>>::empty().push("digest"@),
        ),
        "ReadObservationInput"@,
    )
}

/// Whether an observation may be read: of the current run only, so that run's name comes
/// back.
pub open spec fn observation_prepared(context: ContextView, request: ObservationView) -> Result<
    Seq<char>,
    ToolFault,
> {
    if !(1 <= request.max_bytes <= MAX_CHUNK_BYTES) {
        Err(
            ToolFault::InvalidRange(
                "max_bytes must be between 1 and "@ + text::decimal(MAX_CHUNK_BYTES as nat),
            ),
        )
    } else if !digest::is_digest(request.digest) {
        Err(ToolFault::InvalidRange("digest must be a lowercase BLAKE3 hex value"@))
    } else {
        match context.run_id {
            None => Err(
                ToolFault::InvalidRange("read_observation requires a run identifier"@),
            ),
            Some(run) => match registry::authorized(
                context.policy,
                Capability::FileRead,
                "observation:"@ + request.digest,
                "read_observation"@,
            ) {
                Err(e) => Err(e),
                Ok(()) => Ok(run),
            },
        }
    }
}

/// A piece of a text, by its first character and the one after its last.
pub struct Piece {
    pub from: int,
    pub to: int,
}

/// The piece of a text that starts at byte `start` and takes at most `max` bytes.
pub open spec fn piece(s: Seq<char>, start: nat, max: nat) -> Result<Piece, ToolFault> {
    let from = text::fit_from(s, start, 0);
    let count = text::fit_from(s.skip(from), max, 0);
    if start > usize::MAX {
        Err(ToolFault::InvalidRange("start_byte exceeds the observation length"@))
    } else if text::utf8_len(s.take(from)) != start {
        Err(
            ToolFault::InvalidRange(
                "start_byte must be a valid UTF-8 boundary within the observation"@,
            ),
        )
    } else if count == 0 && from < s.len() {
        Err(ToolFault::InvalidRange("max_bytes cannot fit the next UTF-8 character"@))
    } else {
        Ok(Piece { from, to: from + count })
    }
}

/// What a read of an observation returns.
pub open spec fn observation_output(request: ObservationView, s: Seq<char>) -> Result<
    OutputView,
    ToolFault,
> {
    match piece(s, request.start_byte as nat, request.max_bytes as nat) {
        Err(e) => Err(e),
        Ok(p) => {
            let start = request.start_byte as nat;
            let end = text::utf8_len(s.take(p.to));
            let base = json::obj4(
                "digest"@,
                JsonView::Text(request.digest),
                "start_byte"@,
                json::num(start),
                "end_byte"@,
                json::num(end),
                "total_bytes"@,
                json::num(text::utf8_len(s)),
            );
            let next = if p.to < s.len() {
                json::num(end)
            } else {
                JsonView::Null
            };
            Ok(
                reading::succeeded(
                    json::with_member(
                        json::with_member(base, "next_start_byte"@, next),
                        "content_json"@,
                        JsonView::Text(s.subrange(p.from, p.to)),
                    ),
                    "read observation bytes "@ + text::decimal(start) + ".."@ + text::decimal(end),
                    seq!["artifact.read:"@ + request.digest],
                ),
            )
        },
    }
}

/// What a read returns of the artifact that was found, if it could be read and had the
/// digest asked for.
pub open spec fn observed(request: ObservationView, artifact: Option<Seq<u8>>) -> Result<
    OutputView,
    ToolFault,
> {
    match artifact {
        None => Err(
            ToolFault::InvalidRange(
                "observation artifact is unavailable or failed integrity validation"@,
            ),
        ),
        Some(bytes) => if !valid_utf8(bytes) {
            Err(ToolFault::InvalidRange("observation artifact is not UTF-8 JSON"@))
        } else {
            observation_output(request, decode_utf8(bytes))
        },
    }
}

proof fn lemma_part(s: Seq<char>, a: int, b: int)
    requires
        0 <= a <= b <= s.len(),
    ensures
        text::utf8_len(s.take(b)) == text::utf8_len(s.take(a)) + text::utf8_len(s.subrange(a, b)),
        text::utf8_len(s.take(b)) <= text::utf8_len(s),
        b < s.len() ==> text::utf8_len(s.take(b)) < text::utf8_len(s),
{
    assert(s.take(b) =~= s.take(a) + s.subrange(a, b));
    text::lemma_encode_concat(s.take(a), s.subrange(a, b));
    assert(s =~= s.take(b) + s.skip(b));
    text::lemma_encode_concat(s.take(b), s.skip(b));
    text::lemma_utf8_len_zero(s.skip(b));
}

proof fn lemma_empty_fits(s: Seq<char>)
    ensures
        text::utf8_len(s.take(0)) == 0,
{
    assert(s.take(0) =~= Seq::<char>::empty());
    assert(encode_utf8(s.take(0)) =~= Seq::<u8>::empty());
}

/// Reads one bounded slice of a run-local, integrity-checked tool observation.
pub struct ReadObservationTool {
    root: String,
}

impl View for ReadObservationTool {
    type V = Seq<char>;

    closed spec fn view(&self) -> Seq<char> {
        self.root@
    }
}

/// What `read_observation` presents to a model.
pub open spec fn read_observation_descriptor() -> DescriptorView {
    descriptor::descriptor_spec(
        "read_observation"@,
        "Read up to 4096 exact UTF-8 bytes of an earlier Pactrail tool observation by its digest and byte offset. Use this for details omitted by a compacted observation."@,
        observation_schema(),
        Capability::FileRead,
    )
}

impl ReadObservationTool {
    /// A tool that reads the observations below `root`.
    pub fn new(root: String) -> (r: ReadObservationTool)
        ensures
            r@ == root@,
    {
        ReadObservationTool { root }
    }

    /// What the tool presents to a model.
    pub fn descriptor(&self) -> (r: ToolDescriptor)
        ensures
            r.deep_view() == read_observation_descriptor(),
    {
        let mut properties = JsonMap::new();
        properties.insert(
            "digest",
            schema::described_json(
                schema::typed_json("string"),
                "BLAKE3 digest from a Pactrail compacted tool observation.",
            ),
        );
        properties.insert(
            "start_byte",
            schema::defaulted_json(
                schema::described_json(
                    schema::number_json(),
                    "UTF-8 byte offset from the beginning of the original JSON.",
                ),
                Json::number(0),
            ),
        );
        properties.insert(
            "max_bytes",
            schema::defaulted_json(
                schema::described_json(
                    schema::number_json(),
                    "Maximum bytes to return, from 1 through 4096.",
                ),
                Json::number(MAX_CHUNK_BYTES),
            ),
        );
        let required = schema::and_name(schema::no_names(), "digest");
        descriptor::descriptor(
            "read_observation",
            "Read up to 4096 exact UTF-8 bytes of an earlier Pactrail tool observation by its digest and byte offset. Use this for details omitted by a compacted observation.",
            schema::document_json(
                schema::closed_object_json(properties, &required),
                "ReadObservationInput",
            ),
            Capability::FileRead,
        )
    }

    /// Where the observations of a run are kept.
    pub fn run_root(&self, run_id: &str) -> (r: String)
        ensures
            r@ == text::below_spec(self@, run_id@),
    {
        text::below(self.root.as_str(), run_id)
    }

    /// Checks the request and requires the authority to read the observation; says of
    /// which run it is.
    pub fn prepare(&self, context: &ToolContext, request: &ReadObservationInput) -> (r: Result<
        String,
        ToolError,
    >)
        ensures
            outcome::of(r) == observation_prepared(context.deep_view(), request.deep_view()),
    {
        if !(1 <= request.max_bytes && request.max_bytes <= MAX_CHUNK_BYTES) {
            return Err(
                ToolError::InvalidRange(
                    text::concat2(
                        "max_bytes must be between 1 and ",
                        text::decimal_text(MAX_CHUNK_BYTES).as_str(),
                    ),
                ),
            );
        }
        if !digest::has_digest_form(request.digest.as_str()) {
            return Err(
                ToolError::InvalidRange("digest must be a lowercase BLAKE3 hex value".to_owned()),
            );
        }
        match &context.run_id {
            None => Err(
                ToolError::InvalidRange("read_observation requires a run identifier".to_owned()),
            ),
            Some(run) => match context.authorize(
                Capability::FileRead,
                text::concat2("observation:", request.digest.as_str()).as_str(),
                "read_observation",
            ) {
                Err(e) => Err(e),
                Ok(()) => Ok(run.clone()),
            },
        }
    }

    /// What the read returns of the artifact that was found, if it could be read and had
    /// the digest asked for.
    pub fn execute(&self, request: &ReadObservationInput, artifact: &Option<Vec<u8>>) -> (r: Result<
        ToolOutput,
        ToolError,
    >)
        requires
            1 <= request.max_bytes <= MAX_CHUNK_BYTES,
        ensures
            outcome::of(r) == observed(
                request.deep_view(),
                match artifact {
                    Some(bytes) => Some(bytes@),
                    None => None,
                },
            ),
    {
        let bytes = match artifact {
            None => {
                return Err(
                    ToolError::InvalidRange(
                        "observation artifact is unavailable or failed integrity validation".to_owned(),
                    ),
                );
            },
            Some(b) => b,
        };
        let content = match text::utf8_text(bytes.as_slice()) {
            None => {
                return Err(
                    ToolError::InvalidRange("observation artifact is not UTF-8 JSON".to_owned()),
                );
            },
            Some(t) => t,
        };
        if request.start_byte > usize::MAX as u64 {
            return Err(
                ToolError::InvalidRange("start_byte exceeds the observation length".to_owned()),
            );
        }
        let start: usize = request.start_byte as usize;
        let chars = text::chars_of(content.as_str());
        let ghost s = content@;
        assert(chars@.skip(0) =~= s);
        let from: usize = text::fit(&chars, 0, start);
        assert(chars@.subrange(0, from as int) =~= s.take(from as int));
        if text::byte_len(text::text_of(&chars, 0, from).as_str()) != start {
            return Err(
                ToolError::InvalidRange(
                    "start_byte must be a valid UTF-8 boundary within the observation".to_owned(),
                ),
            );
        }
        let count: usize = text::fit(&chars, from, request.max_bytes as usize);
        if count == 0 && from < chars.len() {
            return Err(
                ToolError::InvalidRange(
                    "max_bytes cannot fit the next UTF-8 character".to_owned(),
                ),
            );
        }
        let shown = text::text_of(&chars, from, from + count);
        let total: usize = text::byte_len(content.as_str());
        proof {
            lemma_part(s, from as int, from + count);
        }
        let end: usize = start + text::byte_len(shown.as_str());
        let next = if from + count < chars.len() {
            Json::count(end)
        } else {
            Json::null()
        };
        let mut output = Json::object4(
            "digest",
            Json::text(request.digest.as_str()),
            "start_byte",
            Json::count(start),
            "end_byte",
            Json::count(end),
            "total_bytes",
            Json::count(total),
        );
        output.set_member("next_start_byte", next);
        output.set_member("content_json", Json::string(shown));
        Ok(
            success(
                output,
                text::concat4(
                    "read observation bytes ",
                    text::decimal_of(start).as_str(),
                    "..",
                    text::decimal_of(end).as_str(),
                ),
                one_effect("artifact.read:", request.digest.as_str()),
            ),
        )
    }
}

/// A piece is exactly what stands at its place in the observation, takes at most the
/// bytes asked for, and starts at the byte asked for.
pub proof fn law_pieces_are_exact(s: Seq<char>, start: nat, max: nat)
    ensures
        piece(s, start, max) matches Ok(p) ==> {
            &&& 0 <= p.from <= p.to <= s.len()
            &&& text::utf8_len(s.take(p.from)) == start
            &&& text::utf8_len(s.subrange(p.from, p.to)) <= max
        },
{
    lemma_empty_fits(s);
    text::lemma_fitting(s, start, 0);
    let from = text::fit_from(s, start, 0);
    let rest = s.skip(from);
    lemma_empty_fits(rest);
    text::lemma_fitting(rest, max, 0);
    let count = text::fit_from(rest, max, 0);
    assert(rest.take(count) =~= s.subrange(from, from + count));
}

/// An observation can be read through: where a piece ends before the observation does,
/// the next read from there is accepted if it may take any character, goes on with the
/// very next character, and gets at least one character further.
pub proof fn law_observations_can_be_read_through(s: Seq<char>, start: nat, max: nat, next_max: nat)
    requires
        piece(s, start, max) is Ok,
        piece(s, start, max)->Ok_0.to < s.len(),
        next_max >= 4,
        text::utf8_len(s) <= usize::MAX,
    ensures
        ({
            let p = piece(s, start, max)->Ok_0;
            let next = piece(s, text::utf8_len(s.take(p.to)), next_max);
            next is Ok && next->Ok_0.from == p.to && next->Ok_0.to > p.to
        }),
{
    law_pieces_are_exact(s, start, max);
    let p = piece(s, start, max)->Ok_0;
    let at = text::utf8_len(s.take(p.to));
    lemma_part(s, 0, p.to);
    lemma_boundary(s, p.to, 0);
    let rest = s.skip(p.to);
    lemma_empty_fits(rest);
    text::lemma_take_width(rest, 0);
    lemma_width_bounded(rest[0]);
    text::lemma_fitting(rest, next_max, 0);
    if text::fit_from(rest, next_max, 0) == 0 {
        assert(text::utf8_len(rest.take(1)) <= next_max);
    }
}

proof fn lemma_width_bounded(c: char)
    ensures
        text::width(c) <= 4,
{
    char_is_scalar(c);
}

proof fn lemma_boundary(s: Seq<char>, to: int, i: int)
    requires
        0 <= i <= to <= s.len(),
    ensures
        text::fit_from(s, text::utf8_len(s.take(to)), i) == to,
    decreases to - i,
{
    if i < to {
        lemma_part(s, i + 1, to);
        lemma_boundary(s, to, i + 1);
    } else if to < s.len() {
        text::lemma_take_width(s, to);
    }
}

} // verus!
