//! Laws of requests: the body of a request holds the conversation, the tools and the
//! limits that were asked for, each where the provider reads it from.

use crate::json;
use crate::json::JsonView;
use crate::models::anthropic;
use crate::models::attachments::ImageWire;
use crate::models::gemini;
use crate::models::openai_compatible;
use crate::models::openai_responses;
use crate::models::types::{ItemView, Temperature};
use crate::models::wire_laws;
use crate::tools::descriptor::DescriptorView;
use vstd::prelude::*;

verus! {

/// Whether a value declares a tool: its name, its description and its schema.
pub open spec fn declares(wire: ImageWire, value: JsonView, t: DescriptorView) -> bool {
    match wire {
        ImageWire::Messages => {
            &&& wire_laws::has_text(value, "name"@, t.name)
            &&& wire_laws::has_text(value, "description"@, t.description)
            &&& json::member(value, "input_schema"@) == Some(t.input_schema)
        },
        ImageWire::Contents => {
            &&& wire_laws::has_text(value, "name"@, t.name)
            &&& wire_laws::has_text(value, "description"@, t.description)
            &&& json::member(value, "parameters"@) == Some(t.input_schema)
        },
        ImageWire::Responses => {
            &&& wire_laws::has_text(value, "type"@, "function"@)
            &&& wire_laws::has_text(value, "name"@, t.name)
            &&& wire_laws::has_text(value, "description"@, t.description)
            &&& json::member(value, "parameters"@) == Some(t.input_schema)
        },
        ImageWire::Chat => {
            &&& wire_laws::has_text(value, "type"@, "function"@)
            &&& json::member(value, "function"@) matches Some(f)
            &&& wire_laws::has_text(f, "name"@, t.name)
            &&& wire_laws::has_text(f, "description"@, t.description)
            &&& json::member(f, "parameters"@) == Some(t.input_schema)
        },
    }
}

/// Whether values declare tools, each one, in order.
pub open spec fn declares_all(
    wire: ImageWire,
    values: Seq<JsonView>,
    tools: Seq<DescriptorView>,
) -> bool {
    &&& values.len() == tools.len()
    &&& forall|i: int| 0 <= i < tools.len() ==> declares(wire, #[trigger] values[i], tools[i])
}

/// Whether an object states the temperature that was asked for, or none if none was.
pub open spec fn states_temperature(j: JsonView, temperature: Temperature) -> bool {
    match temperature {
        Temperature::Unset => json::member(j, "temperature"@) is None,
        Temperature::OutOfRange => false,
        Temperature::Value(n) => json::member(j, "temperature"@) == Some(
            JsonView::Number(json::number_view(n)),
        ),
    }
}

/// Whether the member `key` is a number.
pub open spec fn states_number(j: JsonView, key: Seq<char>, n: u64) -> bool {
    json::u64_member(j, key) == Some(n)
}

proof fn lemma_names()
    ensures
        "model"@.len() == 5,
        "messages"@.len() == 8,
        "max_tokens"@.len() == 10,
        "stream"@.len() == 6,
        "system"@.len() == 6,
        "tools"@.len() == 5,
        "tool_choice"@.len() == 11,
        "temperature"@.len() == 11,
        "type"@.len() == 4,
        "name"@.len() == 4,
        "description"@.len() == 11,
        "input_schema"@.len() == 12,
        "parameters"@.len() == 10,
        "function"@.len() == 8,
        "stream_options"@.len() == 14,
        "thinking"@.len() == 8,
        "contents"@.len() == 8,
        "generationConfig"@.len() == 16,
        "systemInstruction"@.len() == 17,
        "toolConfig"@.len() == 10,
        "functionDeclarations"@.len() == 20,
        "input"@.len() == 5,
        "max_output_tokens"@.len() == 17,
        "store"@.len() == 5,
        "truncation"@.len() == 10,
        "parallel_tool_calls"@.len() == 19,
        "maxOutputTokens"@.len() == 15,
        "parts"@.len() == 5,
        "text"@.len() == 4,
        "model"@ != "tools"@,
        "model"@ != "input"@,
        "model"@ != "store"@,
        "model"@ != "parts"@,
        "tools"@ != "input"@,
        "tools"@ != "store"@,
        "tools"@ != "parts"@,
        "input"@ != "store"@,
        "input"@ != "parts"@,
        "store"@ != "parts"@,
        "messages"@ != "function"@,
        "messages"@ != "thinking"@,
        "messages"@ != "contents"@,
        "function"@ != "thinking"@,
        "function"@ != "contents"@,
        "thinking"@ != "contents"@,
        "max_tokens"@ != "parameters"@,
        "max_tokens"@ != "toolConfig"@,
        "max_tokens"@ != "truncation"@,
        "parameters"@ != "toolConfig"@,
        "parameters"@ != "truncation"@,
        "toolConfig"@ != "truncation"@,
        "stream"@ != "system"@,
        "tool_choice"@ != "temperature"@,
        "tool_choice"@ != "description"@,
        "temperature"@ != "description"@,
        "type"@ != "name"@,
        "type"@ != "text"@,
        "name"@ != "text"@,
        "systemInstruction"@ != "max_output_tokens"@,
{
    reveal_strlit("model");
    reveal_strlit("messages");
    reveal_strlit("max_tokens");
    reveal_strlit("stream");
    reveal_strlit("system");
    reveal_strlit("tools");
    reveal_strlit("tool_choice");
    reveal_strlit("temperature");
    reveal_strlit("type");
    reveal_strlit("name");
    reveal_strlit("description");
    reveal_strlit("input_schema");
    reveal_strlit("parameters");
    reveal_strlit("function");
    reveal_strlit("stream_options");
    reveal_strlit("thinking");
    reveal_strlit("contents");
    reveal_strlit("generationConfig");
    reveal_strlit("systemInstruction");
    reveal_strlit("toolConfig");
    reveal_strlit("functionDeclarations");
    reveal_strlit("input");
    reveal_strlit("max_output_tokens");
    reveal_strlit("store");
    reveal_strlit("truncation");
    reveal_strlit("parallel_tool_calls");
    reveal_strlit("maxOutputTokens");
    reveal_strlit("parts");
    reveal_strlit("text");
    assert("model"@[0] != "tools"@[0]);
    assert("model"@[0] != "input"@[0]);
    assert("model"@[0] != "store"@[0]);
    assert("model"@[0] != "parts"@[0]);
    assert("tools"@[0] != "input"@[0]);
    assert("tools"@[0] != "store"@[0]);
    assert("tools"@[0] != "parts"@[0]);
    assert("input"@[0] != "store"@[0]);
    assert("input"@[0] != "parts"@[0]);
    assert("store"@[0] != "parts"@[0]);
    assert("messages"@[0] != "function"@[0]);
    assert("messages"@[0] != "thinking"@[0]);
    assert("messages"@[0] != "contents"@[0]);
    assert("function"@[0] != "thinking"@[0]);
    assert("function"@[0] != "contents"@[0]);
    assert("thinking"@[0] != "contents"@[0]);
    assert("max_tokens"@[0] != "parameters"@[0]);
    assert("max_tokens"@[0] != "toolConfig"@[0]);
    assert("max_tokens"@[0] != "truncation"@[0]);
    assert("parameters"@[0] != "toolConfig"@[0]);
    assert("parameters"@[0] != "truncation"@[0]);
    assert("toolConfig"@[1] != "truncation"@[1]);
    assert("stream"@[1] != "system"@[1]);
    assert("tool_choice"@[1] != "temperature"@[1]);
    assert("tool_choice"@[0] != "description"@[0]);
    assert("temperature"@[0] != "description"@[0]);
    assert("type"@[0] != "name"@[0]);
    assert("type"@[1] != "text"@[1]);
    assert("name"@[0] != "text"@[0]);
    assert("systemInstruction"@[0] != "max_output_tokens"@[0]);
}

/// The body of a request to Anthropic holds the model, the conversation, its instructions
/// if there are some, the tools, the limit on the output and the temperature.
pub proof fn law_anthropic_bodies_hold_the_request(
    config: anthropic::ConfigView,
    conversation: Seq<ItemView>,
    tools: Seq<DescriptorView>,
    max_output_tokens: u64,
    temperature: Temperature,
    stream: bool,
)
    ensures
        match anthropic::body_spec(
            config,
            conversation,
            tools,
            max_output_tokens,
            temperature,
            stream,
        ) {
            Ok(body) => {
                &&& 1 <= max_output_tokens <= config.capabilities.max_output_tokens
                &&& wire_laws::has_text(body, "model"@, config.model)
                &&& states_number(body, "max_tokens"@, max_output_tokens)
                &&& json::member(body, "stream"@) == Some(JsonView::Bool(stream))
                &&& states_temperature(body, temperature)
                &&& anthropic::messages_spec(conversation) matches Ok((system, messages))
                &&& json::array_member(body, "messages"@) == Some(messages)
                &&& json::text_member(body, "system"@) == (if system.len() > 0 {
                    Some(system)
                } else {
                    None
                })
                &&& match json::array_member(body, "tools"@) {
                    Some(values) => tools.len() > 0 && declares_all(
                        ImageWire::Messages,
                        values,
                        tools,
                    ),
                    None => tools.len() == 0,
                }
            },
            Err(_) => true,
        },
{
    lemma_names();
    assert forall|i: int| 0 <= i < tools.len() implies declares(
        ImageWire::Messages,
        anthropic::tool_spec(#[trigger] tools[i]),
        tools[i],
    ) by {}
}

/// The body of a request on an OpenAI-compatible wire holds the model, the conversation,
/// the tools, the limit on the output and the temperature.
pub proof fn law_chat_bodies_hold_the_request(
    config: openai_compatible::ConfigView,
    conversation: Seq<ItemView>,
    tools: Seq<DescriptorView>,
    max_output_tokens: u64,
    temperature: Temperature,
)
    ensures
        match openai_compatible::body_spec(
            config,
            conversation,
            tools,
            max_output_tokens,
            temperature,
        ) {
            Ok(body) => {
                &&& 1 <= max_output_tokens <= config.capabilities.max_output_tokens
                &&& wire_laws::has_text(body, "model"@, config.model)
                &&& states_number(body, "max_tokens"@, max_output_tokens)
                &&& json::member(body, "stream"@) == Some(JsonView::Bool(config.stream))
                &&& json::member(body, "stream_options"@) is Some <==> config.stream
                &&& json::member(body, "thinking"@) is Some <==> config.disable_thinking
                &&& states_temperature(body, temperature)
                &&& openai_compatible::canonical_spec(conversation) matches Ok(messages)
                &&& json::array_member(body, "messages"@) == Some(messages)
                &&& match json::array_member(body, "tools"@) {
                    Some(values) => tools.len() > 0 && declares_all(ImageWire::Chat, values, tools),
                    None => tools.len() == 0,
                }
            },
            Err(_) => true,
        },
{
    lemma_names();
    assert forall|i: int| 0 <= i < tools.len() implies declares(
        ImageWire::Chat,
        openai_compatible::tool_json_spec(#[trigger] tools[i]),
        tools[i],
    ) by {}
}

/// The body of a Responses request holds the model, the conversation, the tools and the
/// limit on the output. Nothing is kept by the provider.
pub proof fn law_responses_bodies_hold_the_request(
    config: openai_responses::ConfigView,
    conversation: Seq<ItemView>,
    tools: Seq<DescriptorView>,
    max_output_tokens: u64,
)
    ensures
        match openai_responses::body_spec(config, conversation, tools, max_output_tokens) {
            Ok(body) => {
                &&& 1 <= max_output_tokens <= config.capabilities.max_output_tokens
                &&& wire_laws::has_text(body, "model"@, config.model)
                &&& states_number(body, "max_output_tokens"@, max_output_tokens)
                &&& json::member(body, "store"@) == Some(JsonView::Bool(false))
                &&& json::member(body, "stream"@) == Some(JsonView::Bool(false))
                &&& openai_responses::inputs_spec(conversation) matches Ok(input)
                &&& json::array_member(body, "input"@) == Some(input)
                &&& match json::array_member(body, "tools"@) {
                    Some(values) => tools.len() > 0 && declares_all(
                        ImageWire::Responses,
                        values,
                        tools,
                    ),
                    None => tools.len() == 0,
                }
            },
            Err(_) => true,
        },
{
    lemma_names();
    assert forall|i: int| 0 <= i < tools.len() implies declares(
        ImageWire::Responses,
        openai_responses::tool_json_spec(#[trigger] tools[i]),
        tools[i],
    ) by {}
}

/// The body of a request to Gemini holds the conversation, its instructions if there are
/// some, the tools, the limit on the output and the temperature.
pub proof fn law_gemini_bodies_hold_the_request(
    config: gemini::ConfigView,
    conversation: Seq<ItemView>,
    tools: Seq<DescriptorView>,
    max_output_tokens: u64,
    temperature: Temperature,
)
    ensures
        match gemini::body_spec(config, conversation, tools, max_output_tokens, temperature) {
            Ok(body) => {
                &&& 1 <= max_output_tokens <= config.capabilities.max_output_tokens
                &&& json::member(body, "generationConfig"@) matches Some(generation)
                &&& states_number(generation, "maxOutputTokens"@, max_output_tokens)
                &&& states_temperature(generation, temperature)
                &&& gemini::contents_spec(conversation) matches Ok((system, contents))
                &&& json::array_member(body, "contents"@) == Some(contents)
                &&& match json::member(body, "systemInstruction"@) {
                    Some(instruction) => {
                        &&& system.len() > 0
                        &&& json::array_member(instruction, "parts"@) matches Some(parts)
                        &&& parts.len() == 1
                        &&& wire_laws::has_text(parts[0], "text"@, system)
                    },
                    None => system.len() == 0,
                }
                &&& match json::array_member(body, "tools"@) {
                    Some(values) => {
                        &&& tools.len() > 0
                        &&& values.len() == 1
                        &&& json::array_member(
                            values[0],
                            "functionDeclarations"@,
                        ) matches Some(all)
                        &&& declares_all(ImageWire::Contents, all, tools)
                    },
                    None => tools.len() == 0,
                }
            },
            Err(_) => true,
        },
{
    lemma_names();
    assert forall|i: int| 0 <= i < tools.len() implies declares(
        ImageWire::Contents,
        gemini::declaration_spec(#[trigger] tools[i]),
        tools[i],
    ) by {}
}

} // verus!
