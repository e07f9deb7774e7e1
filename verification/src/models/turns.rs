//! Conversations in which the blocks of one role that follow each other form one
//! turn.

use crate::json;
use crate::json::{Json, JsonView};
use crate::models::driver::{ModelError, ModelFault};
use crate::outcome;
use crate::text;
use vstd::prelude::*;

verus! {

/// The blocks of one role that follow each other.
#[derive(Debug)]
pub struct Turn {
    pub role: String,
    pub blocks: Vec<Json>,
}

/// A [`Turn`] by its role and its blocks' values.
pub struct TurnView {
    pub role: Seq<char>,
    pub blocks: Seq<JsonView>,
}

impl DeepView for Turn {
    type V = TurnView;

    open spec fn deep_view(&self) -> TurnView {
        TurnView { role: self.role@, blocks: self.blocks.deep_view() }
    }
}

/// Turns with more blocks of one role: they join the last turn if that has the
/// role.
pub open spec fn push_spec(turns: Seq<TurnView>, role: Seq<char>, blocks: Seq<JsonView>) -> Seq<
    TurnView,
> {
    if turns.len() > 0 && turns.last().role == role {
        turns.update(
            turns.len() - 1,
            TurnView { role, blocks: turns.last().blocks + blocks },
        )
    } else {
        turns.push(TurnView { role, blocks })
    }
}

/// Adds blocks of one role, of which there must be some.
pub fn push_blocks(turns: &mut Vec<Turn>, role: &str, blocks: Vec<Json>, refusal: &str) -> (r:
    Result<(), ModelError>)
    ensures
        blocks@.len() > 0 ==> r is Ok && final(turns).deep_view() == push_spec(
            old(turns).deep_view(),
            role@,
            blocks.deep_view(),
        ),
        blocks@.len() == 0 ==> final(turns).deep_view() == old(turns).deep_view() && outcome::of(r)
            == Err::<(), ModelFault>(ModelFault::InvalidRequest(refusal@)),
{
    if blocks.len() == 0 {
        return Err(ModelError::invalid(refusal));
    }
    let ghost before = turns.deep_view();
    let ghost added = blocks.deep_view();
    let ghost raw = turns@;
    let count: usize = turns.len();
    if count > 0 {
        assert(before.last() == raw.last().deep_view());
        if text::same(turns[count - 1].role.as_str(), role) {
            let mut last = turns.pop().unwrap();
            let ghost so_far = last.blocks.deep_view();
            let mut more = blocks;
            last.blocks.append(&mut more);
            assert(last.blocks.deep_view() =~= so_far + added);
            turns.push(last);
            assert(turns.deep_view() =~= push_spec(before, role@, added));
            return Ok(());
        }
    }
    turns.push(Turn { role: role.to_owned(), blocks });
    assert(turns.deep_view() =~= push_spec(before, role@, added));
    Ok(())
}

/// Turns on the wire; `key` is the name under which a provider wants the blocks.
pub open spec fn render_spec(turns: Seq<TurnView>, key: Seq<char>) -> Seq<JsonView> {
    Seq::new(
        turns.len(),
        |i: int|
            json::obj2(
                "role"@,
                JsonView::Text(turns[i].role),
                key,
                JsonView::Array(turns[i].blocks),
            ),
    )
}

/// Turns on the wire.
pub fn render(turns: Vec<Turn>, key: &str) -> (r: Vec<Json>)
    ensures
        r.deep_view() == render_spec(turns.deep_view(), key@),
{
    let ghost all = turns.deep_view();
    let ghost raw = turns@;
    let mut rest = turns;
    let mut reversed: Vec<Json> = Vec::new();
    let mut out: Vec<Json> = Vec::new();
    while rest.len() > 0
        invariant
            all.len() == raw.len(),
            forall|i: int| 0 <= i < raw.len() ==> all[i] == (#[trigger] raw[i]).deep_view(),
            rest@.len() <= raw.len(),
            rest@ == raw.take(rest@.len() as int),
            reversed@.len() == raw.len() - rest@.len(),
            forall|k: int|
                0 <= k < reversed@.len() ==> (#[trigger] reversed@[k]).deep_view() == render_spec(
                    all,
                    key@,
                )[raw.len() - 1 - k],
        decreases rest@.len(),
    {
        let ghost n = rest@.len();
        let turn = rest.pop().unwrap();
        assert(turn == raw[n - 1]);
        assert(rest@ =~= raw.take(n - 1));
        reversed.push(
            Json::object2("role", Json::string(turn.role), key, Json::array(turn.blocks)),
        );
    }
    while reversed.len() > 0
        invariant
            all.len() == raw.len(),
            reversed@.len() + out@.len() == raw.len(),
            forall|k: int|
                0 <= k < reversed@.len() ==> (#[trigger] reversed@[k]).deep_view() == render_spec(
                    all,
                    key@,
                )[raw.len() - 1 - k],
            forall|k: int|
                0 <= k < out@.len() ==> (#[trigger] out@[k]).deep_view() == render_spec(
                    all,
                    key@,
                )[k],
        decreases reversed@.len(),
    {
        let item = reversed.pop().unwrap();
        out.push(item);
    }
    assert(out.deep_view() =~= render_spec(all, key@));
    out
}

} // verus!
