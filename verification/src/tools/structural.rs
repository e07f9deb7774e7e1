//! The tool that searches the repository's symbol graph. The graph itself is built
//! elsewhere.

use crate::json;
use crate::json::{Json, JsonMap, JsonView};
use crate::outcome;
use crate::text;
use crate::tools::batch::single;
use crate::tools::descriptor;
use crate::tools::descriptor::{Capability, DescriptorView, OutputView, ToolDescriptor, ToolOutput};
use crate::tools::error::{ToolError, ToolFault};
use crate::tools::registry;
use crate::tools::registry::ToolContext;
use crate::tools::schema;
use vstd::prelude::*;

verus! {

/// Number of symbols where no number is given.
pub const DEFAULT_MAX_SYMBOLS: usize = 12;

/// Largest number of symbols.
pub const MAX_SYMBOLS: usize = 32;

/// Number of references of a symbol where no number is given.
pub const DEFAULT_MAX_REFERENCES: usize = 20;

/// Largest number of references of a symbol.
pub const MAX_REFERENCES: usize = 128;

/// Largest query, in bytes.
pub const MAX_QUERY_BYTES: usize = 512;

/// What `search_code_graph` is asked for.
pub struct SearchCodeGraphInput {
    /// Function, class, type, trait, or other project-defined symbol to locate.
    pub query: String,
    /// Maximum matching project-defined symbols to return.
    pub max_symbols: usize,
    /// Maximum lexical reference locations retained for each matched symbol.
    pub max_references_per_symbol: usize,
}

/// A [`SearchCodeGraphInput`] by its text.
pub struct GraphView {
    pub query: Seq<char>,
    pub max_symbols: usize,
    pub max_references_per_symbol: usize,
}

impl DeepView for SearchCodeGraphInput {
    type V = GraphView;

    open spec fn deep_view(&self) -> GraphView {
        GraphView {
            query: self.query@,
            max_symbols: self.max_symbols,
            max_references_per_symbol: self.max_references_per_symbol,
        }
    }
}

/// The schema of [`SearchCodeGraphInput`].
pub open spec fn graph_schema() -> JsonView {
    schema::document(
        schema::closed_object(
            Map::<Seq<char>, JsonView>::empty().insert(
                "query"@,
                schema::described(
                    schema::typed("string"@),
                    "Function, class, type, trait, or other project-defined symbol to locate."@,
                ),
            ).insert(
                "max_symbols"@,
                schema::defaulted(
                    schema::described(
                        schema::count_spec(),
                        "Maximum matching project-defined symbols to return."@,
                    ),
                    json::num(DEFAULT_MAX_SYMBOLS as nat),
                ),
            ).insert(
                "max_references_per_symbol"@,
                schema::defaulted(
                    schema::described(
                        schema::count_spec(),
                        "Maximum lexical reference locations retained for each matched symbol."@,
                    ),
                    json::num(DEFAULT_MAX_REFERENCES as nat),
                ),
            ),
            Seq::<Seq<char>>::empty().push("query"@),
        ),
        "SearchCodeGraphInput"@,
    )
}

/// Whether a request can be looked into.
pub open spec fn graph_request(request: GraphView) -> Result<(), ToolFault> {
    let query = text::trim_spec(request.query);
    if query.len() == 0 || text::utf8_len(query) > MAX_QUERY_BYTES || text::has_control(query) {
        Err(
            ToolFault::InvalidRange(
                "query must contain 1 to "@ + text::decimal(MAX_QUERY_BYTES as nat)
                    + " bytes and no control characters"@,
            ),
        )
    } else if !(1 <= request.max_symbols <= MAX_SYMBOLS) {
        Err(
            ToolFault::InvalidRange(
                "max_symbols must be between 1 and "@ + text::decimal(MAX_SYMBOLS as nat),
            ),
        )
    } else if !(1 <= request.max_references_per_symbol <= MAX_REFERENCES) {
        Err(
            ToolFault::InvalidRange(
                "max_references_per_symbol must be between 1 and "@ + text::decimal(
                    MAX_REFERENCES as nat,
                ),
            ),
        )
    } else {
        Ok(())
    }
}

/// Refuses requests that are out of bounds.
pub fn validate_request(request: &SearchCodeGraphInput) -> (r: Result<(), ToolError>)
    ensures
        outcome::of(r) == graph_request(request.deep_view()),
{
    let query = text::trim(request.query.as_str());
    proof {
        text::lemma_utf8_len_zero(query@);
    }
    let bytes: usize = text::byte_len(query.as_str());
    if bytes == 0 || bytes > MAX_QUERY_BYTES || text::any_control(query.as_str()) {
        return Err(
            ToolError::InvalidRange(
                text::concat3(
                    "query must contain 1 to ",
                    text::decimal_of(MAX_QUERY_BYTES).as_str(),
                    " bytes and no control characters",
                ),
            ),
        );
    }
    if !(1 <= request.max_symbols && request.max_symbols <= MAX_SYMBOLS) {
        return Err(
            ToolError::InvalidRange(
                text::concat2(
                    "max_symbols must be between 1 and ",
                    text::decimal_of(MAX_SYMBOLS).as_str(),
                ),
            ),
        );
    }
    if !(1 <= request.max_references_per_symbol && request.max_references_per_symbol
        <= MAX_REFERENCES) {
        return Err(
            ToolError::InvalidRange(
                text::concat2(
                    "max_references_per_symbol must be between 1 and ",
                    text::decimal_of(MAX_REFERENCES).as_str(),
                ),
            ),
        );
    }
    Ok(())
}

/// How often a matched symbol was found.
#[derive(Clone, Copy, Debug)]
pub struct SymbolCounts {
    pub definitions: usize,
    pub references: usize,
    pub references_truncated: bool,
}

/// What the graph says to a query.
pub struct GraphReport {
    /// The digest of the repository that the graph was built from.
    pub repository_digest: String,
    pub report: Json,
    pub symbols: Vec<SymbolCounts>,
    pub result_truncated: bool,
    pub graph_truncated: bool,
}

/// The definitions of the first `count` symbols.
pub open spec fn definitions(symbols: Seq<SymbolCounts>, count: int) -> nat
    decreases count,
{
    if count <= 0 {
        0
    } else {
        definitions(symbols, count - 1) + symbols[count - 1].definitions as nat
    }
}

/// The references of the first `count` symbols.
pub open spec fn references(symbols: Seq<SymbolCounts>, count: int) -> nat
    decreases count,
{
    if count <= 0 {
        0
    } else {
        references(symbols, count - 1) + symbols[count - 1].references as nat
    }
}

/// Whether references of a symbol were left out.
pub open spec fn any_truncated(symbols: Seq<SymbolCounts>) -> bool {
    exists|i: int| 0 <= i < symbols.len() && (#[trigger] symbols[i]).references_truncated
}

proof fn lemma_counts_grow(symbols: Seq<SymbolCounts>, i: int, count: int)
    requires
        0 <= i <= count,
    ensures
        definitions(symbols, i) <= definitions(symbols, count),
        references(symbols, i) <= references(symbols, count),
    decreases count - i,
{
    if i < count {
        lemma_counts_grow(symbols, i, count - 1);
    }
}

/// What a search of the graph returns.
pub open spec fn graph_output(
    repository_digest: Seq<char>,
    report: JsonView,
    symbols: Seq<SymbolCounts>,
    cut: bool,
) -> OutputView {
    OutputView {
        content: json::obj4(
            "method"@,
            JsonView::Text(
                "deterministic project definitions plus bounded lexical identifier references"@,
            ),
            "warning"@,
            JsonView::Text(
                "navigation evidence only; read cited source before editing and do not infer runtime call flow from lexical references"@,
            ),
            "repository_digest"@,
            JsonView::Text(repository_digest),
            "result"@,
            report,
        ),
        summary: "found "@ + text::decimal(definitions(symbols, symbols.len() as int))
            + " definition(s) and "@ + text::decimal(references(symbols, symbols.len() as int))
            + " bounded reference location(s)"@,
        observed_effects: seq!["repository.graph.search"@],
        succeeded: true,
        truncated: cut || any_truncated(symbols),
    }
}

/// Searches a deterministic, current repository-wide symbol evidence graph.
pub struct SearchCodeGraphTool;

/// What `search_code_graph` presents to a model.
pub open spec fn search_code_graph_descriptor() -> DescriptorView {
    descriptor::descriptor_spec(
        "search_code_graph"@,
        "Find project-defined symbols and bounded lexical references across the current isolated workspace. Use it to navigate relationships, then read cited source before editing; references are not runtime call-graph proof."@,
        graph_schema(),
        Capability::FileRead,
    )
}

impl SearchCodeGraphTool {
    /// What the tool presents to a model.
    pub fn descriptor(&self) -> (r: ToolDescriptor)
        ensures
            r.deep_view() == search_code_graph_descriptor(),
    {
        let mut properties = JsonMap::new();
        properties.insert(
            "query",
            schema::described_json(
                schema::typed_json("string"),
                "Function, class, type, trait, or other project-defined symbol to locate.",
            ),
        );
        properties.insert(
            "max_symbols",
            schema::defaulted_json(
                schema::described_json(
                    schema::count_json(),
                    "Maximum matching project-defined symbols to return.",
                ),
                Json::count(DEFAULT_MAX_SYMBOLS),
            ),
        );
        properties.insert(
            "max_references_per_symbol",
            schema::defaulted_json(
                schema::described_json(
                    schema::count_json(),
                    "Maximum lexical reference locations retained for each matched symbol.",
                ),
                Json::count(DEFAULT_MAX_REFERENCES),
            ),
        );
        let required = schema::and_name(schema::no_names(), "query");
        descriptor::descriptor(
            "search_code_graph",
            "Find project-defined symbols and bounded lexical references across the current isolated workspace. Use it to navigate relationships, then read cited source before editing; references are not runtime call-graph proof.",
            schema::document_json(
                schema::closed_object_json(properties, &required),
                "SearchCodeGraphInput",
            ),
            Capability::FileRead,
        )
    }

    /// Checks the request, requires the authority to read the workspace, and says what the
    /// graph is to be asked.
    pub fn prepare(&self, context: &ToolContext, request: &SearchCodeGraphInput) -> (r: Result<
        String,
        ToolError,
    >)
        ensures
            outcome::of(r) == (match graph_request(request.deep_view()) {
                Err(e) => Err(e),
                Ok(()) => match registry::authorized(
                    context.deep_view().policy,
                    Capability::FileRead,
                    "."@,
                    "search_code_graph"@,
                ) {
                    Err(e) => Err(e),
                    Ok(()) => Ok(text::trim_spec(request.query@)),
                },
            }),
    {
        match validate_request(request) {
            Err(e) => {
                return Err(e);
            },
            Ok(()) => {},
        }
        match context.authorize(Capability::FileRead, ".", "search_code_graph") {
            Err(e) => Err(e),
            Ok(()) => Ok(text::trim(request.query.as_str())),
        }
    }

    /// What the search returns.
    pub fn execute(&self, found: GraphReport) -> (r: ToolOutput)
        requires
            definitions(found.symbols@, found.symbols@.len() as int) <= usize::MAX,
            references(found.symbols@, found.symbols@.len() as int) <= usize::MAX,
        ensures
            r.deep_view() == graph_output(
                found.repository_digest@,
                found.report.deep_view(),
                found.symbols@,
                found.result_truncated || found.graph_truncated,
            ),
    {
        let ghost symbols = found.symbols@;
        let mut defined: usize = 0;
        let mut referenced: usize = 0;
        let mut cut = false;
        let mut i: usize = 0;
        while i < found.symbols.len()
            invariant
                i <= found.symbols@.len(),
                symbols == found.symbols@,
                defined == definitions(symbols, i as int),
                referenced == references(symbols, i as int),
                cut == exists|k: int|
                    0 <= k < i && (#[trigger] symbols[k]).references_truncated,
                definitions(symbols, symbols.len() as int) <= usize::MAX,
                references(symbols, symbols.len() as int) <= usize::MAX,
            decreases found.symbols@.len() - i,
        {
            proof {
                lemma_counts_grow(symbols, i + 1, symbols.len() as int);
            }
            let symbol = found.symbols[i];
            assert(symbol == symbols[i as int]);
            defined += symbol.definitions;
            referenced += symbol.references;
            if symbol.references_truncated {
                cut = true;
            }
            i += 1;
        }
        let summary = text::concat5(
            "found ",
            text::decimal_of(defined).as_str(),
            " definition(s) and ",
            text::decimal_of(referenced).as_str(),
            " bounded reference location(s)",
        );
        let truncated = found.result_truncated || found.graph_truncated || cut;
        ToolOutput {
            content: Json::object4(
                "method",
                Json::text(
                    "deterministic project definitions plus bounded lexical identifier references",
                ),
                "warning",
                Json::text(
                    "navigation evidence only; read cited source before editing and do not infer runtime call flow from lexical references",
                ),
                "repository_digest",
                Json::string(found.repository_digest),
                "result",
                found.report,
            ),
            summary,
            observed_effects: single("repository.graph.search"),
            succeeded: true,
            truncated,
        }
    }
}

} // verus!
