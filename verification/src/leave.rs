//! Where `LEAVE` leads: behind the code of the keyword that closes the loop
//! it belongs to, whatever stands between the two.

use crate::deferred::Frame;
use crate::error::SpecError;
use crate::footprint::follows;
use crate::footprint::lemma_step_footprint;
use crate::keyword::keyword_of;
use crate::keyword::Keyword;
use crate::lowering::frame_in_range;
use crate::lowering::innermost_loop;
use crate::lowering::jump_offset;
use crate::lowering::jump_target;
use crate::lowering::lemma_innermost_loop;
use crate::lowering::lemma_lower_all_prefix_error;
use crate::lowering::lemma_lower_all_step;
use crate::lowering::lemma_lower_all_valid;
use crate::lowering::lemma_lower_token_valid;
use crate::lowering::Lowering;
use crate::lowering::Vocabulary;
use crate::opcode::Opcode;
use crate::token::SpecToken;
use vstd::prelude::*;

verus! {

/// The state of the compiler in front of the token at `index`.
pub open spec fn state_before(tokens: Seq<SpecToken>, vocabulary: Vocabulary, index: int) -> Lowering {
    Lowering::start().lower_all(tokens.take(index), vocabulary)->Ok_0
}

/// Where a token sequence can be lowered, so can each of its prefixes, and
/// each state follows from the one before it by the step of one token.
pub proof fn lemma_prefix_states(tokens: Seq<SpecToken>, vocabulary: Vocabulary, index: int)
    requires
        Lowering::start().lower_all(tokens, vocabulary) is Ok,
        0 <= index <= tokens.len(),
    ensures
        Lowering::start().lower_all(tokens.take(index), vocabulary) is Ok,
        state_before(tokens, vocabulary, index).valid(),
        index < tokens.len() ==> state_before(tokens, vocabulary, index).lower_token(
            tokens[index],
            vocabulary,
        ) == Ok::<Lowering, SpecError>(state_before(tokens, vocabulary, index + 1)),
        index == tokens.len() ==> state_before(tokens, vocabulary, index)
            == Lowering::start().lower_all(tokens, vocabulary)->Ok_0,
{
    if Lowering::start().lower_all(tokens.take(index), vocabulary) is Err {
        lemma_lower_all_prefix_error(Lowering::start(), tokens, vocabulary, index);
    }
    lemma_lower_all_valid(Lowering::start(), tokens.take(index), vocabulary);
    if index < tokens.len() {
        lemma_lower_all_step(Lowering::start(), tokens, vocabulary, index);
        if Lowering::start().lower_all(tokens.take(index + 1), vocabulary) is Err {
            lemma_lower_all_prefix_error(Lowering::start(), tokens, vocabulary, index + 1);
        }
    } else {
        assert(tokens.take(index) == tokens);
    }
}

/// No pending construct records `pos` or the position behind it, but for
/// the construct at `owner`, which may record `pos`.
pub open spec fn kept_clear(state: Lowering, pos: int, owner: Option<int>) -> bool {
    forall|index: int, other: int|
        #![trigger state.frames[index].records(other)]
        0 <= index < state.frames.len() && state.frames[index].records(other) ==> other < pos
            || other >= pos + 2 || (other == pos && owner == Some(index))
}

/// The jump pair at `pos` waits for the end of the loop at `owner`.
pub open spec fn pending(state: Lowering, pos: int, owner: int) -> bool {
    &&& state.valid()
    &&& 0 <= pos
    &&& pos + 2 <= state.here()
    &&& state.code[pos + 1] == Opcode::JR
    &&& 0 <= owner < state.frames.len()
    &&& state.frames[owner].is_loop()
    &&& state.frames[owner].records(pos)
    &&& kept_clear(state, pos, Some(owner))
}

/// The jump pair at `pos` is patched: nothing writes to it any more.
pub open spec fn settled(state: Lowering, pos: int, load: Opcode) -> bool {
    &&& state.valid()
    &&& 0 <= pos
    &&& pos + 2 <= state.here()
    &&& state.code[pos] == load
    &&& state.code[pos + 1] == Opcode::JR
    &&& kept_clear(state, pos, None)
}

proof fn lemma_pending_step(
    state: Lowering,
    token: SpecToken,
    vocabulary: Vocabulary,
    pos: int,
    owner: int,
)
    requires
        pending(state, pos, owner),
        state.lower_token(token, vocabulary) is Ok,
    ensures
        ({
            let next = state.lower_token(token, vocabulary)->Ok_0;
            if next.frames.len() > owner {
                pending(next, pos, owner)
            } else {
                &&& next.frames.len() == owner
                &&& crate::lowering::fits_i64(jump_offset(pos, next.here()))
                &&& settled(next, pos, Opcode::LDI(jump_offset(pos, next.here()) as i64))
            }
        }),
{
    let next = state.lower_token(token, vocabulary)->Ok_0;
    lemma_step_footprint(state, token, vocabulary);
    lemma_lower_token_valid(state, token, vocabulary);
    assert(follows(state, next));
    assert(next.code[pos + 1] == state.code[pos + 1]) by {
        if next.code[pos + 1] != state.code[pos + 1] {
            assert(state.frames.last().records(pos + 1));
            assert(state.frames[state.frames.len() - 1].records(pos + 1));
        }
    }
    if next.frames.len() > owner {
        assert(next.frames[owner].is_loop());
        assert(state.frames[owner].records(pos));
        assert(next.frames[owner].records(pos));
        assert forall|index: int, other: int|
            #![trigger next.frames[index].records(other)]
            0 <= index < next.frames.len() && next.frames[index].records(other) implies other < pos
            || other >= pos + 2 || (other == pos && Some(owner) == Some(index)) by {
            if other != state.here() {
                assert(state.frames[index].records(other));
            }
        }
    } else {
        assert(state.frames.len() == owner + 1);
        assert(state.frames.last() == state.frames[owner]);
        assert(state.frames.last().records(pos));
        assert forall|index: int, other: int|
            #![trigger next.frames[index].records(other)]
            0 <= index < next.frames.len() && next.frames[index].records(other) implies other < pos
            || other >= pos + 2 || (other == pos && None::<int> == Some(index)) by {
            if other != state.here() {
                assert(state.frames[index].records(other));
            }
        }
    }
}

proof fn lemma_settled_step(
    state: Lowering,
    token: SpecToken,
    vocabulary: Vocabulary,
    pos: int,
    load: Opcode,
)
    requires
        settled(state, pos, load),
        state.lower_token(token, vocabulary) is Ok,
    ensures
        settled(state.lower_token(token, vocabulary)->Ok_0, pos, load),
{
    let next = state.lower_token(token, vocabulary)->Ok_0;
    lemma_step_footprint(state, token, vocabulary);
    lemma_lower_token_valid(state, token, vocabulary);
    assert(next.code[pos] == state.code[pos]) by {
        if next.code[pos] != state.code[pos] {
            assert(state.frames[state.frames.len() - 1].records(pos));
        }
    }
    assert(next.code[pos + 1] == state.code[pos + 1]) by {
        if next.code[pos + 1] != state.code[pos + 1] {
            assert(state.frames[state.frames.len() - 1].records(pos + 1));
        }
    }
    assert forall|index: int, other: int|
        #![trigger next.frames[index].records(other)]
        0 <= index < next.frames.len() && next.frames[index].records(other) implies other < pos
        || other >= pos + 2 || (other == pos && None::<int> == Some(index)) by {
        if other != state.here() {
            assert(state.frames[index].records(other));
        }
    }
}

/// Behind a `LEAVE` its jump pair waits for the end of the innermost loop.
proof fn lemma_leave_step(state: Lowering, name: Seq<char>, vocabulary: Vocabulary)
    requires
        state.valid(),
        keyword_of(name) == Some(Keyword::Leave),
        state.lower_token(SpecToken::Command(name), vocabulary) is Ok,
    ensures
        innermost_loop(state.frames) is Some,
        pending(
            state.lower_token(SpecToken::Command(name), vocabulary)->Ok_0,
            state.here(),
            innermost_loop(state.frames)->Some_0,
        ),
{
    let token = SpecToken::Command(name);
    let next = state.lower_token(token, vocabulary)->Ok_0;
    let owner = innermost_loop(state.frames)->Some_0;
    let pos = state.here();
    lemma_innermost_loop(state.frames);
    lemma_lower_token_valid(state, token, vocabulary);
    lemma_step_footprint(state, token, vocabulary);
    let exits = state.frames[owner].exits().push(pos);
    assert(exits[exits.len() - 1] == pos);
    assert(next.frames[owner].records(pos));
    assert forall|index: int, other: int|
        #![trigger next.frames[index].records(other)]
        0 <= index < next.frames.len() && next.frames[index].records(other) implies other < pos
        || other >= pos + 2 || (other == pos && Some(owner) == Some(index)) by {
        if other != pos {
            assert(state.frames[index].records(other));
            assert(frame_in_range(state.frames[index], state.here()));
            lemma_recorded_in_range(state.frames[index], state.here(), other);
        } else if index != owner {
            if state.frames[index].records(other) {
                assert(frame_in_range(state.frames[index], state.here()));
                lemma_recorded_in_range(state.frames[index], state.here(), other);
            } else {
                assert(next.frames[index] == state.frames[index]);
            }
        }
    }
}

/// A placeholder that a valid construct records is a jump pair inside the
/// code.
pub proof fn lemma_recorded_in_range(frame: Frame, len: int, pos: int)
    requires
        frame_in_range(frame, len),
        frame.records(pos),
    ensures
        0 <= pos,
        pos + 1 < len,
{
    match frame {
        Frame::If { .. } => {},
        Frame::DoLoop { exits, .. } => {
            let i = choose|i: int| 0 <= i < exits.len() && exits[i] == pos;
            assert(exits[i] == pos);
        },
        Frame::BeginLoop { exits, .. } => {
            let i = choose|i: int| 0 <= i < exits.len() && exits[i] == pos;
            assert(exits[i] == pos);
        },
    }
}

proof fn lemma_pending_until(
    tokens: Seq<SpecToken>,
    vocabulary: Vocabulary,
    leave: int,
    close: int,
    at: int,
    pos: int,
    owner: int,
)
    requires
        Lowering::start().lower_all(tokens, vocabulary) is Ok,
        0 <= leave < at <= close < tokens.len(),
        pending(state_before(tokens, vocabulary, leave + 1), pos, owner),
        forall|m: int|
            leave < m <= close ==> (#[trigger] state_before(tokens, vocabulary, m)).frames.len()
                > owner,
    ensures
        pending(state_before(tokens, vocabulary, at), pos, owner),
    decreases at - leave,
{
    if at > leave + 1 {
        lemma_pending_until(tokens, vocabulary, leave, close, at - 1, pos, owner);
        lemma_prefix_states(tokens, vocabulary, at - 1);
        lemma_pending_step(
            state_before(tokens, vocabulary, at - 1),
            tokens[at - 1],
            vocabulary,
            pos,
            owner,
        );
        assert(state_before(tokens, vocabulary, at).frames.len() > owner);
    }
}

proof fn lemma_settled_from(
    tokens: Seq<SpecToken>,
    vocabulary: Vocabulary,
    from: int,
    at: int,
    pos: int,
    load: Opcode,
)
    requires
        Lowering::start().lower_all(tokens, vocabulary) is Ok,
        0 <= from <= at <= tokens.len(),
        settled(state_before(tokens, vocabulary, from), pos, load),
    ensures
        settled(state_before(tokens, vocabulary, at), pos, load),
    decreases at - from,
{
    if at > from {
        lemma_settled_from(tokens, vocabulary, from, at - 1, pos, load);
        lemma_prefix_states(tokens, vocabulary, at - 1);
        lemma_settled_step(
            state_before(tokens, vocabulary, at - 1),
            tokens[at - 1],
            vocabulary,
            pos,
            load,
        );
    }
}

/// `LEAVE` leads behind its loop. In a token sequence that can be lowered,
/// let the token at `leave` be a `LEAVE`, and let the token at `close` be
/// the first behind it that ends the innermost loop pending at the `LEAVE`.
/// Then in the code of the whole sequence the jump pair of that `LEAVE`
/// leads to the position directly behind the code that the token at `close`
/// emits, whatever the tokens between the two and behind `close` are.
pub proof fn law_leave_leads_behind_its_loop(
    tokens: Seq<SpecToken>,
    vocabulary: Vocabulary,
    leave: int,
    close: int,
)
    requires
        Lowering::start().lower_all(tokens, vocabulary) is Ok,
        0 <= leave < close < tokens.len(),
        tokens[leave] is Command,
        keyword_of(tokens[leave]->Command_0) == Some(Keyword::Leave),
        forall|m: int|
            leave < m <= close ==> (#[trigger] state_before(tokens, vocabulary, m)).frames.len()
                > innermost_loop(state_before(tokens, vocabulary, leave).frames)->Some_0,
        state_before(tokens, vocabulary, close + 1).frames.len() == innermost_loop(
            state_before(tokens, vocabulary, leave).frames,
        )->Some_0,
    ensures
        ({
            let code = Lowering::start().lower_all(tokens, vocabulary)->Ok_0.code;
            let pos = state_before(tokens, vocabulary, leave).here();
            let end = state_before(tokens, vocabulary, close + 1).here();
            &&& 0 <= pos
            &&& pos + 2 <= end <= code.len()
            &&& code[pos] == Opcode::LDI(jump_offset(pos, end) as i64)
            &&& code[pos + 1] == Opcode::JR
            &&& jump_target(code, pos) == end
        }),
{
    let before = state_before(tokens, vocabulary, leave);
    let pos = before.here();
    let owner = innermost_loop(before.frames)->Some_0;
    lemma_prefix_states(tokens, vocabulary, leave);
    lemma_leave_step(before, tokens[leave]->Command_0, vocabulary);
    lemma_pending_until(tokens, vocabulary, leave, close, close, pos, owner);
    lemma_prefix_states(tokens, vocabulary, close);
    let closing = state_before(tokens, vocabulary, close);
    lemma_pending_step(closing, tokens[close], vocabulary, pos, owner);
    let closed = state_before(tokens, vocabulary, close + 1);
    let load = Opcode::LDI(jump_offset(pos, closed.here()) as i64);
    lemma_settled_from(tokens, vocabulary, close + 1, tokens.len() as int, pos, load);
    lemma_prefix_states(tokens, vocabulary, tokens.len() as int);
    lemma_prefix_states(tokens, vocabulary, close + 1);
    lemma_code_grows(tokens, vocabulary, close + 1, tokens.len() as int);
}

/// Code only grows.
pub proof fn lemma_code_grows(tokens: Seq<SpecToken>, vocabulary: Vocabulary, from: int, to: int)
    requires
        Lowering::start().lower_all(tokens, vocabulary) is Ok,
        0 <= from <= to <= tokens.len(),
    ensures
        state_before(tokens, vocabulary, from).here() <= state_before(tokens, vocabulary, to).here(),
    decreases to - from,
{
    if to > from {
        lemma_code_grows(tokens, vocabulary, from, to - 1);
        lemma_prefix_states(tokens, vocabulary, to - 1);
        lemma_lower_token_valid(
            state_before(tokens, vocabulary, to - 1),
            tokens[to - 1],
            vocabulary,
        );
    }
}

} // verus!
