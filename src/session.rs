use crate::stayfocused::{context_text, History};
use crate::tools::{
    applied_state, apply_tool_call, decode_tool_call, outcome_is_error, outcome_text, decodes_to, ArgValue,
    ToolInvocation,
};
use vstd::prelude::*;

verus! {

/// The most request rounds one session runs.
pub const TURN_BUDGET: usize = 3;

/// A content block of a model response.
pub enum ResponseBlock {
    Text(String),
    /// The arguments come both as sent (`input`) and as decoding reads
    /// them (`args`).
    ToolUse { id: String, name: String, input: serde_json::Value, args: ArgValue },
    Thinking(String),
    RedactedThinking,
    /// A kind a session has no use for (an image, a document, ...).
    Other,
    /// A tool use run by the service itself, which a session never asks for.
    ServerToolUse,
}

/// A content block of the transcript.
pub enum TurnBlock {
    Text(String),
    /// The arguments come both as sent (`input`) and as decoding reads
    /// them (`args`).
    ToolUse { id: String, name: String, input: serde_json::Value, args: ArgValue },
    ToolResult { tool_use_id: String, text: String, is_error: bool },
}

pub enum Role {
    User,
    Assistant,
}

/// One turn of the transcript.
pub struct Message {
    pub role: Role,
    pub blocks: Vec<TurnBlock>,
}

/// The service returned a tool use that it ran itself, which a session
/// never requests.
pub struct ProtocolViolation;

/// One run of the conversation: the focus state that tool calls mutate, the
/// transcript, the rounds run so far, and whether the run has ended.
pub struct Session {
    pub history: History,
    pub transcript: Vec<Message>,
    pub rounds: usize,
    pub done: bool,
}

/// How a response block enters the transcript: text and tool uses as they
/// are, reasoning as plain text, redacted reasoning and other kinds as a
/// placeholder.
pub open spec fn normalizes_to(b: ResponseBlock, t: TurnBlock) -> bool {
    match b {
        ResponseBlock::Text(s) => t == TurnBlock::Text(s),
        ResponseBlock::ToolUse { id, name, input, args } => t == (TurnBlock::ToolUse {
            id,
            name,
            input,
            args,
        }),
        ResponseBlock::Thinking(s) => t == TurnBlock::Text(s),
        ResponseBlock::RedactedThinking => t is Text && t->Text_0@ == "[Thinking was redacted]"@,
        ResponseBlock::Other => t is Text && t->Text_0@ == "[Content omitted]"@,
        ResponseBlock::ServerToolUse => false,
    }
}

/// Whether any block is a tool use run by the service.
pub open spec fn has_server_tool_use(blocks: Seq<ResponseBlock>) -> bool {
    exists|i: int| 0 <= i < blocks.len() && #[trigger] blocks[i] is ServerToolUse
}

/// The tool uses of a turn, in order, as (id, name, arguments).
pub open spec fn tool_uses(turn: Seq<TurnBlock>) -> Seq<(String, String, ArgValue)>
    decreases turn.len(),
{
    if turn.len() == 0 {
        Seq::empty()
    } else {
        let rest = tool_uses(turn.drop_last());
        match turn.last() {
            TurnBlock::ToolUse { id, name, input: _, args } => rest.push((id, name, args)),
            _ => rest,
        }
    }
}

/// The focus state after each invocation in turn.
pub open spec fn state_after(h: History, calls: Seq<ToolInvocation>) -> History
    decreases calls.len(),
{
    if calls.len() == 0 {
        h
    } else {
        applied_state(state_after(h, calls.drop_last()), calls.last())
    }
}

/// The tool-result blocks that answer `uses` with the outcomes of `calls`,
/// one for each, in order.
pub open spec fn answers(blocks: Seq<TurnBlock>, uses: Seq<(String, String, ArgValue)>, calls: Seq<ToolInvocation>) -> bool {
    blocks.len() == calls.len() && uses.len() == calls.len() && forall|i: int|
        0 <= i < calls.len() ==> {
            &&& #[trigger] blocks[i] is ToolResult
            &&& blocks[i]->ToolResult_tool_use_id == uses[i].0
            &&& blocks[i]->ToolResult_text@ == outcome_text(calls[i])
            &&& blocks[i]->ToolResult_is_error == outcome_is_error(calls[i])
        }
}

/// Brings the blocks of a response into the transcript's form. A tool use
/// run by the service is a protocol violation.
pub fn normalize_response(blocks: Vec<ResponseBlock>) -> (r: Result<Vec<TurnBlock>, ProtocolViolation>)
    ensures
        r is Err <==> has_server_tool_use(blocks@),
        r is Ok ==> {
            &&& r->Ok_0@.len() == blocks@.len()
            &&& forall|i: int| 0 <= i < blocks@.len() ==> normalizes_to(blocks@[i], #[trigger] r->Ok_0@[i])
        },
{
    let ghost all = blocks@;
    let mut rest = blocks;
    let n = rest.len();
    let mut out: Vec<TurnBlock> = Vec::new();
    let mut j: usize = 0;
    while rest.len() > 0
        invariant
            all == blocks@,
            n == all.len(),
            j + rest@.len() == all.len(),
            rest@ == all.subrange(j as int, all.len() as int),
            out@.len() == j,
            forall|i: int| 0 <= i < j ==> normalizes_to(all[i], #[trigger] out@[i]),
            forall|i: int| 0 <= i < j ==> !(#[trigger] all[i] is ServerToolUse),
        decreases rest@.len(),
    {
        let block = rest.remove(0);
        assert(block == all[j as int]);
        let t = match block {
            ResponseBlock::Text(s) => TurnBlock::Text(s),
            ResponseBlock::ToolUse { id, name, input, args } => TurnBlock::ToolUse {
                id,
                name,
                input,
                args,
            },
            ResponseBlock::Thinking(s) => TurnBlock::Text(s),
            ResponseBlock::RedactedThinking => TurnBlock::Text("[Thinking was redacted]".to_owned()),
            ResponseBlock::Other => TurnBlock::Text("[Content omitted]".to_owned()),
            ResponseBlock::ServerToolUse => {
                assert(all[j as int] is ServerToolUse);
                assert(has_server_tool_use(all));
                return Err(ProtocolViolation);
            },
        };
        out.push(t);
        j = j + 1;
        assert(rest@ =~= all.subrange(j as int, all.len() as int));
    }
    Ok(out)
}

/// Decodes the invocation of each tool use of a turn, in order.
pub fn decode_tool_calls(turn: &Vec<TurnBlock>) -> (r: Vec<ToolInvocation>)
    ensures
        r@.len() == tool_uses(turn@).len(),
        forall|i: int| 0 <= i < r@.len() ==> decodes_to(tool_uses(turn@)[i].1@, tool_uses(turn@)[i].2, #[trigger] r@[i]),
{
    let mut calls: Vec<ToolInvocation> = Vec::new();
    let mut k: usize = 0;
    while k < turn.len()
        invariant
            k <= turn@.len(),
            calls@.len() == tool_uses(turn@.take(k as int)).len(),
            forall|i: int|
                0 <= i < calls@.len() ==> decodes_to(
                    tool_uses(turn@.take(k as int))[i].1@,
                    tool_uses(turn@.take(k as int))[i].2,
                    #[trigger] calls@[i],
                ),
        decreases turn@.len() - k,
    {
        assert(turn@.take(k + 1).drop_last() =~= turn@.take(k as int));
        assert(turn@.take(k + 1).last() == turn@[k as int]);
        if let TurnBlock::ToolUse { id: _, name, input: _, args } = &turn[k] {
            let call = decode_tool_call(name, args);
            calls.push(call);
        }
        k = k + 1;
    }
    assert(turn@.take(k as int) =~= turn@);
    calls
}

/// Whether `calls` are the invocations decoded from the tool uses `uses`,
/// one for each, in order.
pub open spec fn decoded_calls(uses: Seq<(String, String, ArgValue)>, calls: Seq<ToolInvocation>) -> bool {
    &&& calls.len() == uses.len()
    &&& forall|i: int| 0 <= i < calls.len() ==> decodes_to(uses[i].1@, uses[i].2, #[trigger] calls[i])
}

/// What a round that stopped for tool use did, given the invocations
/// `calls` decoded from its assistant turn (the message after those of
/// `before`): the focus state went through each invocation in turn, and
/// the results, one per invocation and in order, were appended as one user
/// turn (none when there were no tool uses).
pub open spec fn round_dispatched(before: Session, after: Session, calls: Seq<ToolInvocation>) -> bool {
    let turn = after.transcript@[before.transcript@.len() as int].blocks@;
    &&& decoded_calls(tool_uses(turn), calls)
    &&& after.history == state_after(before.history, calls)
    &&& calls.len() == 0 ==> after.transcript@.len() == before.transcript@.len() + 1
    &&& calls.len() > 0 ==> {
        &&& after.transcript@.len() == before.transcript@.len() + 2
        &&& after.transcript@.last().role is User
        &&& answers(after.transcript@.last().blocks@, tool_uses(turn), calls)
    }
}

/// One request round taken from `before` to `after`: a round may only be
/// taken while the session runs, counts one more round, and keeps the
/// round budget.
pub open spec fn round_step(before: Session, after: Session) -> bool {
    &&& !before.done
    &&& after.rounds == before.rounds + 1
    &&& after.wf()
}

/// However the service answers, a session that starts with no rounds run
/// goes through at most `TURN_BUDGET` request rounds.
pub proof fn lemma_round_budget(run: Seq<Session>)
    requires
        run.len() > 0,
        run[0].rounds == 0,
        run[0].wf(),
        forall|i: int| 0 <= i < run.len() - 1 ==> round_step(#[trigger] run[i], run[i + 1]),
    ensures
        run.len() - 1 <= TURN_BUDGET,
{
    lemma_rounds_counted(run, run.len() - 1);
    if run.len() - 1 > TURN_BUDGET {
        lemma_rounds_counted(run, TURN_BUDGET as int);
        assert(round_step(run[TURN_BUDGET as int], run[TURN_BUDGET + 1]));
    }
}

proof fn lemma_rounds_counted(run: Seq<Session>, k: int)
    requires
        0 <= k < run.len(),
        run[0].rounds == 0,
        forall|i: int| 0 <= i < run.len() - 1 ==> round_step(#[trigger] run[i], run[i + 1]),
    ensures
        run[k].rounds == k,
    decreases k,
{
    if k > 0 {
        lemma_rounds_counted(run, k - 1);
        assert(round_step(run[k - 1], run[k]));
    }
}

impl Session {
    /// The round budget holds: never more than `TURN_BUDGET` rounds, and a
    /// session that has spent it has ended.
    pub open spec fn wf(&self) -> bool {
        &&& self.rounds <= TURN_BUDGET
        &&& self.rounds == TURN_BUDGET ==> self.done
    }

    /// Starts a session whose transcript is one user turn holding the
    /// rendered context of `history`.
    pub fn new(history: History) -> (r: Self)
        ensures
            r.wf(),
            r.rounds == 0,
            !r.done,
            r.history == history,
            r.transcript@.len() == 1,
            r.transcript@[0].role is User,
            r.transcript@[0].blocks@.len() == 1,
            r.transcript@[0].blocks@[0] is Text,
            r.transcript@[0].blocks@[0]->Text_0@ == context_text(history),
    {
        let context = history.render_context();
        let first = Message { role: Role::User, blocks: vec![TurnBlock::Text(context)] };
        Session { history, transcript: vec![first], rounds: 0, done: false }
    }

    /// Whether another request is due.
    pub fn needs_request(&self) -> (r: bool)
        requires
            self.wf(),
        ensures
            r == !self.done,
            r ==> self.rounds < TURN_BUDGET,
    {
        !self.done
    }

    /// Takes in the response of one round, whose blocks have already entered
    /// the transcript's form as `turn`, and the invocations decoded from its
    /// tool uses. The assistant turn is recorded. When the service stopped
    /// for tool use, every invocation is carried out in order and answered
    /// in one user turn (none when there were no tool uses); otherwise the
    /// session ends. It also ends when the round budget is spent.
    pub fn advance(&mut self, turn: Vec<TurnBlock>, calls: Vec<ToolInvocation>, stop_for_tool_use: bool)
        requires
            old(self).wf(),
            !old(self).done,
            calls@.len() == tool_uses(turn@).len(),
        ensures
            final(self).wf(),
            final(self).rounds == old(self).rounds + 1,
            final(self).done == (!stop_for_tool_use || final(self).rounds == TURN_BUDGET),
            final(self).transcript@.len() >= old(self).transcript@.len() + 1,
            final(self).transcript@.subrange(0, old(self).transcript@.len() + 1int)
                == old(self).transcript@.push(Message { role: Role::Assistant, blocks: turn }),
            !stop_for_tool_use ==> {
                &&& final(self).history == old(self).history
                &&& final(self).transcript@.len() == old(self).transcript@.len() + 1
            },
            stop_for_tool_use ==> {
                &&& final(self).history == state_after(old(self).history, calls@)
                &&& calls@.len() == 0 ==> final(self).transcript@.len() == old(self).transcript@.len() + 1
                &&& calls@.len() > 0 ==> {
                    &&& final(self).transcript@.len() == old(self).transcript@.len() + 2
                    &&& final(self).transcript@.last().role is User
                    &&& answers(final(self).transcript@.last().blocks@, tool_uses(turn@), calls@)
                }
            },
    {
        let ghost turn_view = turn@;
        let ghost uses = tool_uses(turn_view);
        let mut ids: Vec<String> = Vec::new();
        let mut k: usize = 0;
        while k < turn.len()
            invariant
                turn@ == turn_view,
                k <= turn@.len(),
                ids@ == tool_uses(turn@.take(k as int)).map_values(|u: (String, String, ArgValue)| u.0),
            decreases turn@.len() - k,
        {
            assert(turn@.take(k + 1).drop_last() =~= turn@.take(k as int));
            assert(turn@.take(k + 1).last() == turn@[k as int]);
            if let TurnBlock::ToolUse { id, name: _, input: _, args: _ } = &turn[k] {
                ids.push(id.clone());
                assert(ids@ =~= tool_uses(turn@.take(k + 1)).map_values(|u: (String, String, ArgValue)| u.0));
            } else {
                assert(ids@ =~= tool_uses(turn@.take(k + 1)).map_values(|u: (String, String, ArgValue)| u.0));
            }
            k = k + 1;
        }
        assert(turn@.take(k as int) =~= turn@);
        self.transcript.push(Message { role: Role::Assistant, blocks: turn });
        self.rounds = self.rounds + 1;
        if !stop_for_tool_use {
            self.done = true;
            return;
        }
        let ghost start = self.history;
        let ghost recorded = self.transcript@;
        let ghost all_calls = calls@;
        let mut results: Vec<TurnBlock> = Vec::new();
        let mut rest = calls;
        let mut j: usize = 0;
        while rest.len() > 0
            invariant
                j + rest@.len() == all_calls.len(),
                rest@ == all_calls.subrange(j as int, all_calls.len() as int),
                ids@.len() == all_calls.len(),
                ids@ == uses.map_values(|u: (String, String, ArgValue)| u.0),
                self.history == state_after(start, all_calls.take(j as int)),
                self.transcript@ == recorded,
                self.rounds == old(self).rounds + 1,
                self.done == old(self).done,
                results@.len() == j,
                forall|i: int|
                    0 <= i < j ==> {
                        &&& #[trigger] results@[i] is ToolResult
                        &&& results@[i]->ToolResult_tool_use_id == uses[i].0
                        &&& results@[i]->ToolResult_text@ == outcome_text(all_calls[i])
                        &&& results@[i]->ToolResult_is_error == outcome_is_error(all_calls[i])
                    },
            decreases rest@.len(),
        {
            let call = rest.remove(0);
            assert(call == all_calls[j as int]);
            assert(all_calls.take(j + 1).drop_last() =~= all_calls.take(j as int));
            let outcome = apply_tool_call(call, &mut self.history);
            let n_ids = ids.len();
            assert(j < n_ids);
            let id = ids[j].clone();
            results.push(TurnBlock::ToolResult { tool_use_id: id, text: outcome.text, is_error: outcome.is_error });
            j = j + 1;
            assert(rest@ =~= all_calls.subrange(j as int, all_calls.len() as int));
        }
        assert(all_calls.take(j as int) =~= all_calls);
        if results.len() > 0 {
            self.transcript.push(Message { role: Role::User, blocks: results });
        }
        self.done = self.rounds == TURN_BUDGET;
    }

    /// Takes in the response of one round: its blocks and whether the
    /// service stopped to have tools run. A tool use run by the service
    /// aborts the session and leaves it as it was. Otherwise the assistant
    /// turn is recorded and, when the service stopped for tool use, every
    /// invocation is decoded and carried out in order.
    pub fn record_response(&mut self, blocks: Vec<ResponseBlock>, stop_for_tool_use: bool) -> (r: Result<(), ProtocolViolation>)
        requires
            old(self).wf(),
            !old(self).done,
        ensures
            r is Err <==> has_server_tool_use(blocks@),
            r is Err ==> *final(self) == *old(self),
            r is Ok ==> {
                &&& round_step(*old(self), *final(self))
                &&& final(self).wf()
                &&& final(self).rounds == old(self).rounds + 1
                &&& final(self).done == (!stop_for_tool_use || final(self).rounds == TURN_BUDGET)
                &&& final(self).transcript@.len() > old(self).transcript@.len()
                &&& final(self).transcript@.subrange(0, old(self).transcript@.len() as int) == old(self).transcript@
                &&& final(self).transcript@[old(self).transcript@.len() as int].role is Assistant
                &&& final(self).transcript@[old(self).transcript@.len() as int].blocks@.len() == blocks@.len()
                &&& forall|i: int| 0 <= i < blocks@.len() ==> normalizes_to(
                    blocks@[i],
                    #[trigger] final(self).transcript@[old(self).transcript@.len() as int].blocks@[i],
                )
                &&& !stop_for_tool_use ==> {
                    &&& final(self).history == old(self).history
                    &&& final(self).transcript@.len() == old(self).transcript@.len() + 1
                }
                &&& stop_for_tool_use ==> exists|calls: Seq<ToolInvocation>|
                    #[trigger] round_dispatched(*old(self), *final(self), calls)
            },
    {
        let turn = match normalize_response(blocks) {
            Ok(turn) => turn,
            Err(e) => return Err(e),
        };
        let calls = decode_tool_calls(&turn);
        let ghost turn_value = turn;
        let ghost calls_view = calls@;
        let ghost before = self.transcript@;
        self.advance(turn, calls, stop_for_tool_use);
        assert(self.transcript@[before.len() as int] == Message { role: Role::Assistant, blocks: turn_value }) by {
            assert(self.transcript@.subrange(0, before.len() + 1int)[before.len() as int] == self.transcript@[before.len() as int]);
        }
        assert(self.transcript@.subrange(0, before.len() as int) =~= before) by {
            assert(self.transcript@.subrange(0, before.len() + 1int).subrange(0, before.len() as int) =~= self.transcript@.subrange(0, before.len() as int));
            assert(before.push(Message { role: Role::Assistant, blocks: turn_value }).subrange(0, before.len() as int) =~= before);
        }
        if stop_for_tool_use {
            assert(round_dispatched(*old(self), *self, calls_view));
        }
        Ok(())
    }

}

} // verus!
