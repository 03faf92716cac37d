//! Jumps and calls come in pairs. The machine takes the offset of a relative
//! jump, and the address of a call, from the number stack. So in compiled
//! code every `JR` and `JRZ` stands directly behind the `LDI` that loads its
//! offset, and leads to a position of the code; and every `CALL` stands
//! directly behind the `LDI` that loads the address of a registered word.

use crate::extract::CompilerState;
use crate::footprint::lemma_step_footprint;
use crate::keyword::keyword_of;
use crate::lowering::compile_spec;
use crate::lowering::is_jump;
use crate::lowering::lemma_lower_all_valid;
use crate::lowering::lemma_lower_token_valid;
use crate::lowering::plain_intrinsics;
use crate::lowering::word_code;
use crate::lowering::Lowering;
use crate::lowering::Vocabulary;
use crate::opcode::Opcode;
use crate::token::SpecToken;
use vstd::prelude::*;

verus! {

/// Whether every relative jump of `code` stands directly behind an `LDI` and
/// leads to a position from the first of `code` to the one behind its last.
pub open spec fn jumps_land_inside(code: Seq<Opcode>) -> bool {
    forall|pos: int|
        0 <= pos < code.len() && is_jump(#[trigger] code[pos]) ==> pos > 0 && code[pos - 1] is LDI
            && 0 <= pos + code[pos - 1]->LDI_0 <= code.len()
}

/// Whether `address` is the address of a word.
pub open spec fn registered(words: Map<Seq<char>, usize>, address: int) -> bool {
    exists|name: Seq<char>| #[trigger] words.contains_key(name) && words[name] == address
}

/// Whether every call of `code` stands directly behind the `LDI` of the
/// address of a word.
pub open spec fn calls_are_registered(code: Seq<Opcode>, words: Map<Seq<char>, usize>) -> bool {
    forall|pos: int|
        0 <= pos < code.len() && #[trigger] code[pos] == Opcode::CALL ==> pos > 0 && code[pos
            - 1] is LDI && registered(words, code[pos - 1]->LDI_0 as int)
}

/// What holds of the compiler's state between two tokens: the jumps and the
/// calls emitted so far are paired, and every placeholder that a pending
/// construct records is the `LDI` of a jump pair.
pub open spec fn paired(state: Lowering, vocabulary: Vocabulary) -> bool {
    &&& jumps_land_inside(state.code)
    &&& calls_are_registered(state.code, vocabulary.words)
    &&& forall|index: int, pos: int|
        #![trigger state.frames[index].records(pos)]
        0 <= index < state.frames.len() && state.frames[index].records(pos) ==> 0 <= pos && pos
            + 1 < state.code.len() && state.code[pos] is LDI && is_jump(state.code[pos + 1])
}

/// A step keeps jumps and calls paired.
pub proof fn lemma_step_paired(state: Lowering, token: SpecToken, vocabulary: Vocabulary)
    requires
        state.valid(),
        paired(state, vocabulary),
        plain_intrinsics(vocabulary.intrinsics),
        state.lower_token(token, vocabulary) is Ok,
    ensures
        paired(state.lower_token(token, vocabulary)->Ok_0, vocabulary),
{
    let next = state.lower_token(token, vocabulary)->Ok_0;
    lemma_step_footprint(state, token, vocabulary);
    lemma_lower_token_valid(state, token, vocabulary);
    crate::lowering::lemma_innermost_loop(state.frames);
    let old_len = state.code.len() as int;
    if state.frames.len() > 0 {
        assert(crate::lowering::frame_in_range(
            state.frames[state.frames.len() - 1],
            state.here(),
        ));
    }
    // what the step appends holds a jump or a call only behind an `LDI` that
    // the step appends too; the jump leads into the code, the call to a word
    assert forall|pos: int| old_len <= pos < next.code.len() && (is_jump(
        #[trigger] next.code[pos],
    ) || next.code[pos] == Opcode::CALL) implies pos > old_len && next.code[pos - 1] is LDI && (
    is_jump(next.code[pos]) ==> 0 <= pos + next.code[pos - 1]->LDI_0 <= next.code.len()) && (
    next.code[pos] == Opcode::CALL ==> registered(
        vocabulary.words,
        next.code[pos - 1]->LDI_0 as int,
    )) by {
        match token {
            SpecToken::Command(name) => {
                if keyword_of(name) is None {
                    let code = word_code(name, vocabulary)->Ok_0;
                    assert(next.code[pos] == code[pos - old_len]);
                    if vocabulary.words.contains_key(name) {
                        assert(registered(vocabulary.words, vocabulary.words[name] as int));
                    } else {
                        assert(vocabulary.intrinsics.contains_key(name));
                    }
                }
            },
            _ => {},
        }
    }
    // what the step writes into earlier code is an `LDI` in place of an `LDI`
    assert forall|pos: int| 0 <= pos < old_len implies (state.code[pos] is LDI
        <==> #[trigger] next.code[pos] is LDI) && (is_jump(state.code[pos]) <==> is_jump(
        next.code[pos],
    )) && (state.code[pos] == Opcode::CALL <==> next.code[pos] == Opcode::CALL) by {
        if next.code[pos] != state.code[pos] {
            let closed = state.frames[state.frames.len() - 1];
            assert(closed.records(pos));
            assert(state.code[pos] is LDI);
        }
    }
    assert forall|pos: int| 0 <= pos < next.code.len() && is_jump(
        #[trigger] next.code[pos],
    ) implies pos > 0 && next.code[pos - 1] is LDI && 0 <= pos + next.code[pos - 1]->LDI_0
        <= next.code.len() by {
        if pos < old_len {
            assert(is_jump(state.code[pos]));
            assert(next.code[pos - 1] is LDI);
        }
    }
    assert forall|pos: int| 0 <= pos < next.code.len() && #[trigger] next.code[pos]
        == Opcode::CALL implies pos > 0 && next.code[pos - 1] is LDI && registered(
        vocabulary.words,
        next.code[pos - 1]->LDI_0 as int,
    ) by {
        if pos < old_len {
            assert(state.code[pos] == Opcode::CALL);
            if next.code[pos - 1] != state.code[pos - 1] {
                let closed = state.frames[state.frames.len() - 1];
                assert(closed.records(pos - 1));
                assert(is_jump(state.code[pos]));
            }
        }
    }
    assert forall|index: int, pos: int|
        #![trigger next.frames[index].records(pos)]
        0 <= index < next.frames.len() && next.frames[index].records(pos) implies 0 <= pos && pos
        + 1 < next.code.len() && next.code[pos] is LDI && is_jump(next.code[pos + 1]) by {
        if index < state.frames.len() && state.frames[index].records(pos) {
            assert(state.code[pos] is LDI && is_jump(state.code[pos + 1]));
            assert(next.code[pos] is LDI);
            assert(is_jump(next.code[pos + 1]));
        } else {
            assert(pos == old_len);
        }
    }
}

/// Lowering keeps jumps and calls paired.
pub proof fn lemma_lower_all_paired(state: Lowering, tokens: Seq<SpecToken>, vocabulary: Vocabulary)
    requires
        state.valid(),
        paired(state, vocabulary),
        plain_intrinsics(vocabulary.intrinsics),
        state.lower_all(tokens, vocabulary) is Ok,
    ensures
        paired(state.lower_all(tokens, vocabulary)->Ok_0, vocabulary),
    decreases tokens.len(),
{
    if tokens.len() > 0 {
        lemma_lower_all_paired(state, tokens.drop_last(), vocabulary);
        lemma_lower_all_valid(state, tokens.drop_last(), vocabulary);
        lemma_step_paired(
            state.lower_all(tokens.drop_last(), vocabulary)->Ok_0,
            tokens.last(),
            vocabulary,
        );
    }
}

/// In the code of every token sequence each relative jump stands directly
/// behind the `LDI` that loads its offset and leads to a position of that
/// code or to the one behind it, and each call stands directly behind the
/// `LDI` of the address of a word, provided that no intrinsic holds a jump
/// or a call of its own.
pub proof fn law_jumps_and_calls_are_paired(tokens: Seq<SpecToken>, vocabulary: Vocabulary)
    requires
        plain_intrinsics(vocabulary.intrinsics),
        compile_spec(tokens, vocabulary) is Ok,
    ensures
        jumps_land_inside(compile_spec(tokens, vocabulary)->Ok_0),
        calls_are_registered(compile_spec(tokens, vocabulary)->Ok_0, vocabulary.words),
{
    lemma_lower_all_paired(Lowering::start(), tokens, vocabulary);
}

/// Whether every relative jump of `code` leads to an instruction of `code`,
/// and every call to an address below `frontier`.
pub open spec fn stays_inside(code: Seq<Opcode>, frontier: int) -> bool {
    &&& forall|pos: int|
        0 <= pos < code.len() && is_jump(#[trigger] code[pos]) ==> pos > 0 && code[pos - 1] is LDI
            && 0 <= pos + code[pos - 1]->LDI_0 < code.len()
    &&& forall|pos: int|
        0 <= pos < code.len() && #[trigger] code[pos] == Opcode::CALL ==> pos > 0 && code[pos
            - 1] is LDI && 0 <= code[pos - 1]->LDI_0 < frontier
}

proof fn lemma_closed_code_stays_inside(
    code: Seq<Opcode>,
    words: Map<Seq<char>, usize>,
    frontier: int,
)
    requires
        jumps_land_inside(code),
        calls_are_registered(code, words),
        forall|name: Seq<char>| #[trigger] words.contains_key(name) ==> words[name] < frontier,
    ensures
        stays_inside(code.push(Opcode::RET), frontier),
{
    let closed = code.push(Opcode::RET);
    assert forall|pos: int| 0 <= pos < closed.len() && is_jump(
        #[trigger] closed[pos],
    ) implies pos > 0 && closed[pos - 1] is LDI && 0 <= pos + closed[pos - 1]->LDI_0
        < closed.len() by {
        assert(closed[pos] == code[pos]);
        assert(closed[pos - 1] == code[pos - 1]);
    }
    assert forall|pos: int| 0 <= pos < closed.len() && #[trigger] closed[pos]
        == Opcode::CALL implies pos > 0 && closed[pos - 1] is LDI && 0 <= closed[pos - 1]->LDI_0
        < frontier by {
        assert(closed[pos] == code[pos]);
        assert(closed[pos - 1] == code[pos - 1]);
        let address = code[pos - 1]->LDI_0 as int;
        assert(registered(words, address));
        let name = choose|name: Seq<char>| #[trigger]
            words.contains_key(name) && words[name] == address;
        assert(words.contains_key(name));
    }
}

/// The code of an installed word runs inside the installed code: each of its
/// jumps leads to an instruction of the word, and each of its calls to the
/// address of a word installed before.
pub proof fn law_installed_code_stays_inside(
    state: CompilerState,
    name: Seq<char>,
    body: Seq<SpecToken>,
)
    requires
        state.wf(),
        state.install(name, body).result is Ok,
    ensures
        stays_inside(state.install(name, body).state.installed.last(), state.frontier),
{
    law_jumps_and_calls_are_paired(body, state.vocabulary());
    lemma_closed_code_stays_inside(
        compile_spec(body, state.vocabulary())->Ok_0,
        state.words,
        state.frontier,
    );
}

/// The code that a call loads runs inside the loaded code: each of its jumps
/// leads to an instruction of that code, and each of its calls to the
/// address of an installed word, below the frontier.
pub proof fn law_loaded_code_stays_inside(state: CompilerState, tokens: Seq<SpecToken>)
    requires
        state.wf(),
        state.compile(tokens).result is Ok,
    ensures
        stays_inside(state.compile(tokens).result->Ok_0, state.compile(tokens).state.frontier),
{
    let extraction = state.extract(tokens, Seq::empty());
    crate::dictionary::lemma_extract_wf(state, tokens, Seq::empty());
    let tail = extraction.result->Ok_0;
    law_jumps_and_calls_are_paired(tail, extraction.state.vocabulary());
    lemma_closed_code_stays_inside(
        compile_spec(tail, extraction.state.vocabulary())->Ok_0,
        extraction.state.words,
        extraction.state.frontier,
    );
}

} // verus!
