use vstd::prelude::*;

use crate::disasm::DisasmEntry;
use crate::token::{Token, TokenModel};
use crate::value::Value;

verus! {

/// One event on the virtual machine's observation channel. The machine is
/// purely computational; everything it would print — scanned tokens, the
/// per-step execution trace, the final result value — is recorded here for
/// an unverified front end to render.
#[derive(Debug, Clone, PartialEq)]
pub enum TraceEvent {
    /// A token was scanned; `first` says it opened a new source line.
    TokenLine { first: bool, token: Token },
    /// One value of the stack rendering emitted before a dispatch,
    /// oldest-pushed first.
    StackValue { value: Value },
    /// The disassembly of the instruction about to execute.
    Instruction { entry: DisasmEntry },
    /// A `Return` instruction delivered this result value.
    Returned { value: Value },
}

/// The mathematical model of a trace event.
pub enum TraceEventModel {
    TokenLine { first: bool, token: TokenModel },
    StackValue { value: Value },
    Instruction { entry: DisasmEntry },
    Returned { value: Value },
}

impl View for TraceEvent {
    type V = TraceEventModel;

    open spec fn view(&self) -> TraceEventModel {
        match self {
            TraceEvent::TokenLine { first, token } => TraceEventModel::TokenLine {
                first: *first,
                token: token@,
            },
            TraceEvent::StackValue { value } => TraceEventModel::StackValue { value: *value },
            TraceEvent::Instruction { entry } => TraceEventModel::Instruction { entry: *entry },
            TraceEvent::Returned { value } => TraceEventModel::Returned { value: *value },
        }
    }
}

/// The model of a whole observation channel.
pub open spec fn out_view(out: Seq<TraceEvent>) -> Seq<TraceEventModel> {
    out.map_values(|e: TraceEvent| e@)
}

/// The stack rendering emitted before a dispatch: one event per stack
/// slot, oldest first.
pub open spec fn stack_events(stack: Seq<Value>) -> Seq<TraceEventModel> {
    stack.map_values(|v: Value| TraceEventModel::StackValue { value: v })
}

/// Recording one more event extends the channel's model by that event's
/// model.
pub proof fn lemma_out_view_push(s: Seq<TraceEvent>, e: TraceEvent)
    ensures
        out_view(s.push(e)) =~= out_view(s).push(e@),
{
    let sp = s.push(e);
    assert forall|i: int| 0 <= i < sp.len() implies out_view(sp)[i] == out_view(s).push(e@)[i] by {
        assert(out_view(sp)[i] == sp[i]@);
        if i < s.len() {
            assert(sp[i] == s[i]);
            assert(out_view(s)[i] == s[i]@);
        } else {
            assert(sp[i] == e);
        }
    }
}

/// One more stack slot renders as one more event.
pub proof fn lemma_stack_events_push(s: Seq<Value>, v: Value)
    ensures
        stack_events(s.push(v)) =~= stack_events(s).push(
            TraceEventModel::StackValue { value: v },
        ),
{
    let sp = s.push(v);
    assert forall|i: int|
        0 <= i < sp.len() implies stack_events(sp)[i] == stack_events(s).push(
        TraceEventModel::StackValue { value: v },
    )[i] by {
        assert(stack_events(sp)[i] == (TraceEventModel::StackValue { value: sp[i] }));
        if i < s.len() {
            assert(sp[i] == s[i]);
            assert(stack_events(s)[i] == (TraceEventModel::StackValue { value: s[i] }));
        } else {
            assert(sp[i] == v);
        }
    }
}

} // verus!
