//! The default set of local coding tools.

use crate::tools::batch;
use crate::tools::batch::{ReadManyFilesTool, RecallMemoryTool, WorkspaceChangesTool};
use crate::tools::descriptor::DescriptorView;
use crate::tools::error::ToolError;
use crate::tools::git;
use crate::tools::git::{GitDiffTool, GitHistoryTool, GitStatusTool};
use crate::tools::listing;
use crate::tools::listing::ListFilesTool;
use crate::tools::process;
use crate::tools::process::RunProcessTool;
use crate::tools::process_backend::ProcessBackendKind;
use crate::tools::reading;
use crate::tools::reading::ReadFileTool;
use crate::tools::registry;
use crate::tools::registry::ToolRegistry;
use crate::tools::searching;
use crate::tools::searching::SearchTool;
use crate::tools::structural;
use crate::tools::structural::SearchCodeGraphTool;
use crate::tools::writing;
use crate::tools::writing::{EditFileTool, RemoveFileTool, ReplaceTextTool, WriteFileTool};
use vstd::prelude::*;

verus! {

/// The tools of the default set, in the order of their registration.
pub open spec fn builtin_tools(kind: ProcessBackendKind) -> Seq<DescriptorView> {
    Seq::<DescriptorView>::empty().push(reading::read_file_descriptor()).push(
        batch::read_many_files_descriptor(),
    ).push(listing::list_files_descriptor()).push(searching::search_descriptor()).push(
        structural::search_code_graph_descriptor(),
    ).push(git::git_status_descriptor()).push(git::git_diff_descriptor()).push(
        git::git_history_descriptor(),
    ).push(writing::write_file_descriptor()).push(writing::replace_text_descriptor()).push(
        writing::edit_file_descriptor(),
    ).push(writing::remove_file_descriptor()).push(batch::workspace_changes_descriptor()).push(
        batch::recall_memory_descriptor(),
    ).push(process::process_descriptor(kind))
}

/// Whether `items` are the tools `wanted`, in the order of their names.
pub open spec fn holds_exactly(items: Seq<DescriptorView>, wanted: Seq<DescriptorView>) -> bool {
    &&& registry::ordered(items)
    &&& items.len() == wanted.len()
    &&& forall|i: int| 0 <= i < wanted.len() ==> items.contains(#[trigger] wanted[i])
    &&& forall|i: int| 0 <= i < items.len() ==> wanted.contains(#[trigger] items[i])
}

/// Whether no two tools have one name.
pub open spec fn names_differ(wanted: Seq<DescriptorView>) -> bool {
    forall|i: int, j: int|
        0 <= i < j < wanted.len() ==> (#[trigger] wanted[i]).name != (#[trigger] wanted[j]).name
}

proof fn lemma_names_differ(kind: ProcessBackendKind)
    ensures
        names_differ(builtin_tools(kind)),
        builtin_tools(kind).len() == 15,
{
    let all = builtin_tools(kind);
    reveal_strlit("read_file");
    reveal_strlit("read_many_files");
    reveal_strlit("list_files");
    reveal_strlit("search");
    reveal_strlit("search_code_graph");
    reveal_strlit("git_status");
    reveal_strlit("git_diff");
    reveal_strlit("git_history");
    reveal_strlit("write_file");
    reveal_strlit("replace_text");
    reveal_strlit("edit_file");
    reveal_strlit("remove_file");
    reveal_strlit("workspace_changes");
    reveal_strlit("recall_memory");
    reveal_strlit("run_process");
    assert(all[0].name.len() == 9 && all[0].name[0] == 'r');
    assert(all[1].name.len() == 15);
    assert(all[2].name.len() == 10 && all[2].name[0] == 'l');
    assert(all[3].name.len() == 6);
    assert(all[4].name.len() == 17 && all[4].name[0] == 's');
    assert(all[5].name.len() == 10 && all[5].name[0] == 'g');
    assert(all[6].name.len() == 8);
    assert(all[7].name.len() == 11 && all[7].name[1] == 'i');
    assert(all[8].name.len() == 10 && all[8].name[0] == 'w');
    assert(all[9].name.len() == 12);
    assert(all[10].name.len() == 9 && all[10].name[0] == 'e');
    assert(all[11].name.len() == 11 && all[11].name[1] == 'e');
    assert(all[12].name.len() == 17 && all[12].name[0] == 'w');
    assert(all[13].name.len() == 13);
    assert(all[14].name.len() == 11 && all[14].name[1] == 'u');
}

proof fn lemma_registered(
    items: Seq<DescriptorView>,
    wanted: Seq<DescriptorView>,
    count: int,
)
    requires
        0 <= count < wanted.len(),
        names_differ(wanted),
        holds_exactly(items, wanted.take(count)),
    ensures
        registry::registered(items, wanted[count]) is Ok,
        holds_exactly(
            registry::registered(items, wanted[count])->Ok_0,
            wanted.take(count + 1),
        ),
{
    let tool = wanted[count];
    let before = wanted.take(count);
    let after = wanted.take(count + 1);
    assert(!registry::has_tool(items, tool.name)) by {
        if registry::has_tool(items, tool.name) {
            let k = choose|k: int|
                0 <= k < items.len() && (#[trigger] items[k]).name == tool.name;
            assert(before.contains(items[k]));
            let j = choose|j: int| 0 <= j < before.len() && before[j] == items[k];
            assert(wanted[j].name == wanted[count].name);
        }
    }
    registry::law_registries_stay_ordered(items, tool);
    registry::lemma_only_the_new(items, tool);
    let next = registry::registered(items, tool)->Ok_0;
    assert forall|i: int| 0 <= i < after.len() implies next.contains(#[trigger] after[i]) by {
        if i < count {
            assert(before[i] == after[i]);
            assert(items.contains(before[i]));
        }
    }
    assert forall|i: int| 0 <= i < next.len() implies after.contains(#[trigger] next[i]) by {
        assert(next.contains(next[i]));
        if items.contains(next[i]) {
            let k = choose|k: int| 0 <= k < items.len() && items[k] == next[i];
            assert(before.contains(items[k]));
            let j = choose|j: int| 0 <= j < before.len() && before[j] == items[k];
            assert(after[j] == next[i]);
        } else {
            assert(after[count] == next[i]);
        }
    }
}

/// Builds the production tool set with an explicitly configured process tool. Process
/// execution is registered but still requires an explicit policy grant.
pub fn builtin_registry_with_process(process_tool: &RunProcessTool) -> (r: Result<
    ToolRegistry,
    ToolError,
>)
    ensures
        r matches Ok(registry) && registry.wf() && holds_exactly(
            registry.deep_view(),
            builtin_tools(process_tool.deep_view().kind),
        ),
{
    let ghost wanted = builtin_tools(process_tool.deep_view().kind);
    proof {
        lemma_names_differ(process_tool.deep_view().kind);
    }
    let mut tools: Vec<crate::tools::descriptor::ToolDescriptor> = Vec::new();
    tools.push(ReadFileTool.descriptor());
    tools.push(ReadManyFilesTool.descriptor());
    tools.push(ListFilesTool.descriptor());
    tools.push(SearchTool.descriptor());
    tools.push(SearchCodeGraphTool.descriptor());
    tools.push(GitStatusTool.descriptor());
    tools.push(GitDiffTool.descriptor());
    tools.push(GitHistoryTool.descriptor());
    tools.push(WriteFileTool.descriptor());
    tools.push(ReplaceTextTool.descriptor());
    tools.push(EditFileTool.descriptor());
    tools.push(RemoveFileTool.descriptor());
    tools.push(WorkspaceChangesTool.descriptor());
    tools.push(RecallMemoryTool.descriptor());
    tools.push(process_tool.descriptor());
    assert(tools.deep_view() =~= wanted);
    let mut registry = ToolRegistry::new();
    let mut i: usize = 0;
    assert(wanted.take(0) =~= Seq::<DescriptorView>::empty());
    while i < tools.len()
        invariant
            i <= tools@.len(),
            tools@.len() == wanted.len(),
            tools.deep_view() == wanted,
            names_differ(wanted),
            registry.wf(),
            holds_exactly(registry.deep_view(), wanted.take(i as int)),
        decreases tools@.len() - i,
    {
        proof {
            lemma_registered(registry.deep_view(), wanted, i as int);
            assert(wanted[i as int] == tools@[i as int].deep_view());
        }
        match registry.register(tools[i].clone()) {
            Ok(()) => {},
            Err(e) => {
                return Err(e);
            },
        }
        i += 1;
    }
    assert(wanted.take(i as int) =~= wanted);
    Ok(registry)
}

/// Builds the production default set of local coding tools: with a process tool that runs
/// nothing.
pub fn builtin_registry() -> (r: Result<ToolRegistry, ToolError>)
    ensures
        r matches Ok(registry) && registry.wf() && holds_exactly(
            registry.deep_view(),
            builtin_tools(ProcessBackendKind::Disabled),
        ),
{
    builtin_registry_with_process(&RunProcessTool::default())
}

} // verus!
