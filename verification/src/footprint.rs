//! What one step of the compiler can touch: it appends code, and it writes
//! into the code emitted before only where the construct that it closes has
//! recorded a placeholder.

use crate::keyword::keyword_of;
use crate::keyword::Keyword;
use crate::lowering::frame_in_range;
use crate::lowering::jump_offset;
use crate::lowering::lemma_innermost_loop;
use crate::lowering::innermost_loop;
use crate::lowering::Lowering;
use crate::lowering::Vocabulary;
use crate::opcode::Opcode;
use crate::token::SpecToken;
use vstd::prelude::*;

verus! {

/// How the state behind a step relates to the state before it.
pub open spec fn follows(state: Lowering, next: Lowering) -> bool {
    &&& next.code.len() >= state.code.len()
    &&& next.frames.len() + 1 >= state.frames.len()
    &&& next.frames.len() <= state.frames.len() + 1
    // a construct that stays keeps its kind and what it has recorded
    &&& forall|index: int|
        0 <= index < next.frames.len() && index < state.frames.len() ==> (
        #[trigger] next.frames[index]).is_loop() == state.frames[index].is_loop()
    &&& forall|index: int, pos: int|
        #![trigger state.frames[index].records(pos)]
        0 <= index < next.frames.len() && index < state.frames.len()
            && state.frames[index].records(pos) ==> next.frames[index].records(pos)
    // what is recorded anew is the position at which the step began
    &&& forall|index: int, pos: int|
        #![trigger next.frames[index].records(pos)]
        0 <= index < next.frames.len() && next.frames[index].records(pos) ==> pos
            == state.here() || (index < state.frames.len() && state.frames[index].records(pos))
    // earlier code changes only where the construct that the step closes
    // has recorded a placeholder
    &&& forall|pos: int|
        0 <= pos < state.code.len() && #[trigger] next.code[pos] != state.code[pos]
            ==> next.frames.len() < state.frames.len() && state.frames.last().records(pos)
    // what the step writes there is an `LDI` whose jump leads to a position
    // of the code
    &&& forall|pos: int|
        0 <= pos < state.code.len() && #[trigger] next.code[pos] != state.code[pos]
            ==> next.code[pos] is LDI && 0 <= crate::lowering::jump_target(next.code, pos)
            <= next.here()
    // the exits of a loop that the step closes lead behind the code of the step
    &&& next.frames.len() < state.frames.len() && state.frames.last().is_loop() ==> forall|
        pos: int,
    |
        #![trigger state.frames.last().records(pos)]
        state.frames.last().records(pos) ==> crate::lowering::fits_i64(
            jump_offset(pos, next.here()),
        ) && next.code[pos] == Opcode::LDI(jump_offset(pos, next.here()) as i64)
}

/// Every step that succeeds from a valid state touches no more than
/// `follows` allows.
pub proof fn lemma_step_footprint(state: Lowering, token: SpecToken, vocabulary: Vocabulary)
    requires
        state.valid(),
        state.lower_token(token, vocabulary) is Ok,
    ensures
        follows(state, state.lower_token(token, vocabulary)->Ok_0),
{
    let next = state.lower_token(token, vocabulary)->Ok_0;
    lemma_innermost_loop(state.frames);
    if state.frames.len() > 0 {
        assert(frame_in_range(state.frames[state.frames.len() - 1], state.here()));
    }
    match token {
        SpecToken::Command(name) => {
            match keyword_of(name) {
                Some(Keyword::Leave) => {
                    let index = innermost_loop(state.frames)->Some_0;
                    assert(frame_in_range(state.frames[index], state.here()));
                    assert forall|i: int, pos: int|
                        #![trigger state.frames[i].records(pos)]
                        0 <= i < next.frames.len() && i < state.frames.len()
                            && state.frames[i].records(pos) implies next.frames[i].records(
                        pos,
                    ) by {
                        if i == index {
                            let exits = state.frames[index].exits();
                            let k = choose|k: int| 0 <= k < exits.len() && exits[k] == pos;
                            assert(exits.push(state.here())[k] == pos);
                        }
                    }
                    assert forall|i: int, pos: int|
                        #![trigger next.frames[i].records(pos)]
                        0 <= i < next.frames.len() && next.frames[i].records(pos) implies pos
                        == state.here() || (i < state.frames.len() && state.frames[i].records(
                        pos,
                    )) by {
                        if i == index {
                            let exits = state.frames[index].exits();
                            let longer = exits.push(state.here());
                            let k = choose|k: int| 0 <= k < longer.len() && longer[k] == pos;
                            if k < exits.len() {
                                assert(exits[k] == pos);
                            }
                        }
                    }
                },
                Some(Keyword::While) => {
                    let last = state.frames.len() - 1;
                    let exits = state.frames[last].exits();
                    assert forall|i: int, pos: int|
                        #![trigger state.frames[i].records(pos)]
                        0 <= i < next.frames.len() && i < state.frames.len()
                            && state.frames[i].records(pos) implies next.frames[i].records(
                        pos,
                    ) by {
                        if i == last {
                            let k = choose|k: int| 0 <= k < exits.len() && exits[k] == pos;
                            assert(exits.push(state.here())[k] == pos);
                        }
                    }
                    assert forall|i: int, pos: int|
                        #![trigger next.frames[i].records(pos)]
                        0 <= i < next.frames.len() && next.frames[i].records(pos) implies pos
                        == state.here() || (i < state.frames.len() && state.frames[i].records(
                        pos,
                    )) by {
                        if i == last {
                            let longer = exits.push(state.here());
                            let k = choose|k: int| 0 <= k < longer.len() && longer[k] == pos;
                            if k < exits.len() {
                                assert(exits[k] == pos);
                            }
                        }
                    }
                },
                _ => {},
            }
        },
        _ => {},
    }
}

} // verus!
