//! Code does not depend on where it stands: every jump is relative, so
//! lowering a token sequence behind other code gives the same instructions
//! as lowering it alone, and leaves the constructs that were pending before
//! untouched.

use crate::deferred::Frame;
use crate::error::SpecError;
use crate::keyword::keyword_of;
use crate::keyword::Keyword;
use crate::lowering::compile_spec;
use crate::lowering::exits_fit;
use crate::lowering::innermost_loop;
use crate::lowering::jump_offset;
use crate::lowering::lemma_innermost_loop;
use crate::lowering::lemma_lower_all_valid;
use crate::lowering::loop_tail;
use crate::lowering::patch_exits;
use crate::lowering::frame_in_range;
use crate::lowering::Lowering;
use crate::lowering::Vocabulary;
use crate::opcode::Opcode;
use crate::token::SpecToken;
use vstd::prelude::*;

verus! {

/// The positions of `exits`, each moved up by `by`.
pub open spec fn shift_exits(exits: Seq<int>, by: int) -> Seq<int> {
    exits.map_values(|pos: int| pos + by)
}

/// `frame` with every position moved up by `by`.
pub open spec fn shift_frame(frame: Frame, by: int) -> Frame {
    match frame {
        Frame::If { if_pos, else_pos } => Frame::If {
            if_pos: if_pos + by,
            else_pos: match else_pos {
                Some(pos) => Some(pos + by),
                None => None,
            },
        },
        Frame::DoLoop { prelude_pos, body_start, exits } => Frame::DoLoop {
            prelude_pos: prelude_pos + by,
            body_start: body_start + by,
            exits: shift_exits(exits, by),
        },
        Frame::BeginLoop { body_start, exits } => Frame::BeginLoop {
            body_start: body_start + by,
            exits: shift_exits(exits, by),
        },
    }
}

pub open spec fn shift_frames(frames: Seq<Frame>, by: int) -> Seq<Frame> {
    frames.map_values(|frame: Frame| shift_frame(frame, by))
}

/// The state in which `inner` stands behind `outer`: its code behind the
/// code of `outer`, its pending constructs inside those of `outer`.
pub open spec fn placed(outer: Lowering, inner: Lowering) -> Lowering {
    Lowering {
        code: outer.code + inner.code,
        frames: outer.frames + shift_frames(inner.frames, outer.here()),
    }
}

proof fn lemma_shift_exits_contains(exits: Seq<int>, by: int, pos: int)
    ensures
        shift_exits(exits, by).contains(pos) <==> exits.contains(pos - by),
{
    let shifted = shift_exits(exits, by);
    if shifted.contains(pos) {
        let i = choose|i: int| 0 <= i < shifted.len() && shifted[i] == pos;
        assert(exits[i] == pos - by);
    }
    if exits.contains(pos - by) {
        let i = choose|i: int| 0 <= i < exits.len() && exits[i] == pos - by;
        assert(shifted[i] == pos);
    }
}

proof fn lemma_innermost_loop_placed(outer: Seq<Frame>, inner: Seq<Frame>, by: int)
    requires
        innermost_loop(inner) is Some,
    ensures
        innermost_loop(outer + shift_frames(inner, by)) == Some(
            outer.len() + innermost_loop(inner)->Some_0,
        ),
    decreases inner.len(),
{
    let all = outer + shift_frames(inner, by);
    assert(all.last() == shift_frame(inner.last(), by));
    if !inner.last().is_loop() {
        assert(all.drop_last() =~= outer + shift_frames(inner.drop_last(), by));
        lemma_innermost_loop_placed(outer, inner.drop_last(), by);
    }
}

proof fn lemma_patch_exits_placed(
    outer: Seq<Opcode>,
    code: Seq<Opcode>,
    exits: Seq<int>,
    target: int,
)
    requires
        forall|i: int| 0 <= i < exits.len() ==> 0 <= #[trigger] exits[i],
    ensures
        patch_exits(outer + code, shift_exits(exits, outer.len() as int), target + outer.len())
            == outer + patch_exits(code, exits, target),
        exits_fit(shift_exits(exits, outer.len() as int), target + outer.len()) == exits_fit(
            exits,
            target,
        ),
{
    let by = outer.len() as int;
    let shifted = shift_exits(exits, by);
    let left = patch_exits(outer + code, shifted, target + by);
    let right = outer + patch_exits(code, exits, target);
    assert forall|pos: int| 0 <= pos < left.len() implies left[pos] == right[pos] by {
        lemma_shift_exits_contains(exits, by, pos);
        if exits.contains(pos - by) {
            let i = choose|i: int| 0 <= i < exits.len() && exits[i] == pos - by;
            assert(0 <= exits[i]);
        }
    }
    assert(left =~= right);
    if exits_fit(exits, target) {
        assert forall|i: int| 0 <= i < shifted.len() implies crate::lowering::fits_i64(
            jump_offset(#[trigger] shifted[i], target + by),
        ) by {
            assert(shifted[i] == exits[i] + by);
        }
    }
    if exits_fit(shifted, target + by) {
        assert forall|i: int| 0 <= i < exits.len() implies crate::lowering::fits_i64(
            jump_offset(#[trigger] exits[i], target),
        ) by {
            assert(shifted[i] == exits[i] + by);
        }
    }
}

/// One token behind other code: the step is the one that the token takes
/// alone, placed behind that code.
pub proof fn lemma_lower_token_placed(
    outer: Lowering,
    inner: Lowering,
    token: SpecToken,
    vocabulary: Vocabulary,
)
    requires
        inner.valid(),
        inner.lower_token(token, vocabulary) is Ok,
    ensures
        placed(outer, inner).lower_token(token, vocabulary) == Ok::<Lowering, SpecError>(
            placed(outer, inner.lower_token(token, vocabulary)->Ok_0),
        ),
{
    let by = outer.here();
    let whole = placed(outer, inner);
    let next = inner.lower_token(token, vocabulary)->Ok_0;
    let expected = placed(outer, next);
    if inner.frames.len() > 0 {
        assert(whole.frames.last() == shift_frame(inner.frames.last(), by));
        assert(whole.frames.drop_last() =~= outer.frames + shift_frames(
            inner.frames.drop_last(),
            by,
        ));
        assert(frame_in_range(inner.frames[inner.frames.len() - 1], inner.here()));
    }
    match token {
        SpecToken::Command(name) => {
            match keyword_of(name) {
                Some(Keyword::Leave) => {
                    lemma_innermost_loop(inner.frames);
                    lemma_innermost_loop_placed(outer.frames, inner.frames, by);
                    let index = innermost_loop(inner.frames)->Some_0;
                    let got = whole.lower_token(token, vocabulary)->Ok_0;
                    assert(whole.frames[outer.frames.len() + index] == shift_frame(
                        inner.frames[index],
                        by,
                    ));
                    assert(shift_exits(inner.frames[index].exits().push(inner.here()), by)
                        =~= shift_exits(inner.frames[index].exits(), by).push(whole.here()));
                    assert(got.frames =~= expected.frames);
                    assert(got.code =~= expected.code);
                },
                Some(Keyword::Loop) | Some(Keyword::PlusLoop) | Some(Keyword::Until) | Some(
                    Keyword::Repeat,
                ) | Some(Keyword::Again) => {
                    let keyword = keyword_of(name)->Some_0;
                    let frame = inner.frames.last();
                    let back = jump_offset(
                        inner.here() + crate::lowering::back_jump_index(keyword),
                        match frame {
                            Frame::DoLoop { body_start, .. } => body_start,
                            Frame::BeginLoop { body_start, .. } => body_start,
                            _ => 0,
                        },
                    );
                    let tail = loop_tail(keyword, back as i64);
                    assert((outer.code + inner.code) + tail =~= outer.code + (inner.code + tail));
                    lemma_patch_exits_placed(
                        outer.code,
                        inner.code + tail,
                        frame.exits(),
                        (inner.code + tail).len() as int,
                    );
                    let got = whole.lower_token(token, vocabulary)->Ok_0;
                    assert(got.frames =~= expected.frames);
                    assert(got.code =~= expected.code);
                },
                Some(Keyword::While) => {
                    let got = whole.lower_token(token, vocabulary)->Ok_0;
                    assert(shift_exits(inner.frames.last().exits().push(inner.here()), by)
                        =~= shift_exits(inner.frames.last().exits(), by).push(whole.here()));
                    assert(got.frames =~= expected.frames);
                    assert(got.code =~= expected.code);
                },
                _ => {
                    let got = whole.lower_token(token, vocabulary)->Ok_0;
                    assert(shift_exits(Seq::<int>::empty(), by) =~= Seq::<int>::empty());
                    assert(got.frames =~= expected.frames);
                    assert(got.code =~= expected.code);
                },
            }
        },
        _ => {
            let got = whole.lower_token(token, vocabulary)->Ok_0;
            assert(got.frames =~= expected.frames);
            assert(got.code =~= expected.code);
        },
    }
}

/// A token sequence behind other code: the steps are those that the
/// sequence takes alone, placed behind that code.
pub proof fn lemma_lower_all_placed(
    outer: Lowering,
    inner: Lowering,
    tokens: Seq<SpecToken>,
    vocabulary: Vocabulary,
)
    requires
        inner.valid(),
        inner.lower_all(tokens, vocabulary) is Ok,
    ensures
        placed(outer, inner).lower_all(tokens, vocabulary) == Ok::<Lowering, SpecError>(
            placed(outer, inner.lower_all(tokens, vocabulary)->Ok_0),
        ),
    decreases tokens.len(),
{
    if tokens.len() > 0 {
        let reached = inner.lower_all(tokens.drop_last(), vocabulary)->Ok_0;
        lemma_lower_all_placed(outer, inner, tokens.drop_last(), vocabulary);
        lemma_lower_all_valid(inner, tokens.drop_last(), vocabulary);
        lemma_lower_token_placed(outer, reached, tokens.last(), vocabulary);
    }
}

/// Lowering a concatenation is lowering its parts one after the other.
pub proof fn lemma_lower_all_concat(
    state: Lowering,
    first: Seq<SpecToken>,
    second: Seq<SpecToken>,
    vocabulary: Vocabulary,
)
    ensures
        state.lower_all(first + second, vocabulary) == match state.lower_all(first, vocabulary) {
            Ok(reached) => reached.lower_all(second, vocabulary),
            Err(err) => Err(err),
        },
    decreases second.len(),
{
    if second.len() == 0 {
        assert(first + second == first);
    } else {
        assert((first + second).drop_last() == first + second.drop_last());
        assert((first + second).last() == second.last());
        lemma_lower_all_concat(state, first, second.drop_last(), vocabulary);
    }
}

/// A token sequence that compiles alone compiles anywhere: behind any code
/// and inside any pending constructs it adds its own code, and nothing else
/// changes.
pub proof fn lemma_closed_sequence(
    state: Lowering,
    tokens: Seq<SpecToken>,
    vocabulary: Vocabulary,
)
    requires
        compile_spec(tokens, vocabulary) is Ok,
    ensures
        state.lower_all(tokens, vocabulary) == Ok::<Lowering, SpecError>(
            state.emit(compile_spec(tokens, vocabulary)->Ok_0),
        ),
{
    let alone = Lowering::start().lower_all(tokens, vocabulary)->Ok_0;
    lemma_lower_all_placed(state, Lowering::start(), tokens, vocabulary);
    assert(placed(state, Lowering::start()).code =~= state.code);
    assert(placed(state, Lowering::start()).frames =~= state.frames);
    assert(placed(state, alone).frames =~= state.frames);
}

} // verus!
