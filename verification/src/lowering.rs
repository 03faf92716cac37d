//! What the control-flow compiler computes: a token sequence is lowered one
//! token at a time, each token extending the code emitted so far and opening,
//! changing or closing a pending construct.
//!
//! A relative jump is a pair: an `LDI` that loads the offset, and the jump
//! behind it. The offset counts from the jump, so the `LDI` at position `p`
//! that leads to position `t` loads `t - (p + 1)`.

use crate::deferred::Frame;
use crate::error::SpecError;
use crate::keyword::keyword_of;
use crate::keyword::Keyword;
use crate::opcode::Opcode;
use crate::token::SpecToken;
use vstd::prelude::*;

verus! {

/// The offset that the `LDI` at `ldi_pos` loads so that the jump behind it
/// leads to `target`.
pub open spec fn jump_offset(ldi_pos: int, target: int) -> int {
    target - (ldi_pos + 1)
}

/// Where the jump behind the `LDI` at `ldi_pos` leads.
pub open spec fn jump_target(code: Seq<Opcode>, ldi_pos: int) -> int
    recommends
        0 <= ldi_pos < code.len(),
        code[ldi_pos] is LDI,
{
    ldi_pos + 1 + code[ldi_pos]->LDI_0
}

/// Whether `x` fits the operand of `LDI`.
pub open spec fn fits_i64(x: int) -> bool {
    i64::MIN <= x <= i64::MAX
}

/// `code` with the `LDI` at `ldi_pos` loading the offset to `target`.
pub open spec fn patch_jump(code: Seq<Opcode>, ldi_pos: int, target: int) -> Seq<Opcode> {
    code.update(ldi_pos, Opcode::LDI(jump_offset(ldi_pos, target) as i64))
}

/// `code` with every position listed in `exits` loading the offset to
/// `target`, and every other position unchanged.
pub open spec fn patch_exits(code: Seq<Opcode>, exits: Seq<int>, target: int) -> Seq<Opcode> {
    Seq::new(
        code.len(),
        |pos: int|
            if exits.contains(pos) {
                Opcode::LDI(jump_offset(pos, target) as i64)
            } else {
                code[pos]
            },
    )
}

/// Whether the offset from each exit to `target` fits the operand of `LDI`.
pub open spec fn exits_fit(exits: Seq<int>, target: int) -> bool {
    forall|i: int| 0 <= i < exits.len() ==> fits_i64(jump_offset(#[trigger] exits[i], target))
}

/// Whether each exit is a position inside code of length `len`.
pub open spec fn exits_inside(exits: Seq<int>, len: int) -> bool {
    forall|i: int| 0 <= i < exits.len() ==> 0 <= #[trigger] exits[i] < len
}

/// Whether each exit is the position of a jump pair inside code of length `len`.
pub open spec fn exits_in_range(exits: Seq<int>, len: int) -> bool {
    forall|i: int| 0 <= i < exits.len() ==> 0 <= #[trigger] exits[i] && exits[i] + 1 < len
}

/// Whether the positions that `frame` records lie inside code of length `len`.
pub open spec fn frame_in_range(frame: Frame, len: int) -> bool {
    match frame {
        Frame::If { if_pos, else_pos } => {
            &&& 0 <= if_pos
            &&& if_pos + 1 < len
            &&& (else_pos matches Some(pos) ==> if_pos + 2 <= pos && pos + 1 < len)
        },
        Frame::DoLoop { prelude_pos, body_start, exits } => {
            &&& 0 <= prelude_pos
            &&& body_start == prelude_pos + 1
            &&& body_start <= len
            &&& exits_in_range(exits, len)
        },
        Frame::BeginLoop { body_start, exits } => {
            &&& 0 <= body_start <= len
            &&& exits_in_range(exits, len)
        },
    }
}

/// The innermost pending construct.
pub open spec fn top(frames: Seq<Frame>) -> Option<Frame> {
    if frames.len() > 0 {
        Some(frames.last())
    } else {
        None
    }
}

/// The index of the innermost pending loop: `LEAVE` looks past every `IF`
/// that was opened inside that loop.
pub open spec fn innermost_loop(frames: Seq<Frame>) -> Option<int>
    decreases frames.len(),
{
    if frames.len() == 0 {
        None
    } else if frames.last().is_loop() {
        Some(frames.len() - 1)
    } else {
        innermost_loop(frames.drop_last())
    }
}

pub open spec fn is_jump(op: Opcode) -> bool {
    op == Opcode::JR || op == Opcode::JRZ
}

/// Whether `code` holds neither a relative jump nor a call.
pub open spec fn plain_code(code: Seq<Opcode>) -> bool {
    forall|pos: int|
        0 <= pos < code.len() ==> !is_jump(#[trigger] code[pos]) && code[pos] != Opcode::CALL
}

/// Whether every intrinsic of the table expands to plain code.
pub open spec fn plain_intrinsics(intrinsics: Map<Seq<char>, Seq<Opcode>>) -> bool {
    forall|name: Seq<char>| #[trigger]
        intrinsics.contains_key(name) ==> plain_code(intrinsics[name])
}

/// What the names of a program stand for while it is compiled.
pub struct Vocabulary {
    /// The user's words, each with the address of its code.
    pub words: Map<Seq<char>, usize>,
    /// The built-in words, each with the code it expands to.
    pub intrinsics: Map<Seq<char>, Seq<Opcode>>,
}

/// The state of the control-flow compiler between two tokens.
pub struct Lowering {
    /// The code emitted so far.
    pub code: Seq<Opcode>,
    /// The pending constructs, innermost last.
    pub frames: Seq<Frame>,
}

pub open spec fn msg_else_without_if() -> Seq<char> {
    "ELSE without IF"@
}

pub open spec fn msg_second_else() -> Seq<char> {
    "ELSE after ELSE"@
}

pub open spec fn msg_then_without_if() -> Seq<char> {
    "THEN without IF"@
}

pub open spec fn msg_leave_without_loop() -> Seq<char> {
    "LEAVE without proper loop start like DO or BEGIN"@
}

pub open spec fn msg_unterminated_if() -> Seq<char> {
    "unterminated control-flow: IF"@
}

pub open spec fn msg_unterminated_do() -> Seq<char> {
    "unterminated control-flow: DO"@
}

pub open spec fn msg_unterminated_begin() -> Seq<char> {
    "unterminated control-flow: BEGIN"@
}

/// The complaint about a keyword that finds no loop of its kind to act on.
pub open spec fn msg_without_opener(keyword: Keyword) -> Seq<char> {
    match keyword {
        Keyword::Loop => "LOOP without proper loop start like DO"@,
        Keyword::PlusLoop => "+LOOP without proper loop start like DO"@,
        Keyword::Until => "UNTIL without proper loop start like BEGIN"@,
        Keyword::While => "WHILE without proper loop start like BEGIN"@,
        Keyword::Repeat => "REPEAT without proper loop start like BEGIN"@,
        _ => "AGAIN without proper loop start like BEGIN"@,
    }
}

/// The complaint about the innermost construct that the input left open.
pub open spec fn msg_unterminated(frame: Frame) -> Seq<char> {
    match frame {
        Frame::If { .. } => msg_unterminated_if(),
        Frame::DoLoop { .. } => msg_unterminated_do(),
        Frame::BeginLoop { .. } => msg_unterminated_begin(),
    }
}

/// Whether `keyword` closes a counted loop (`DO`) rather than a `BEGIN` loop.
pub open spec fn closes_counted_loop(keyword: Keyword) -> bool {
    keyword is Loop || keyword is PlusLoop
}

/// The code that a closing keyword emits, `back` being the offset of its
/// backward jump.
pub open spec fn loop_tail(keyword: Keyword, back: i64) -> Seq<Opcode> {
    match keyword {
        Keyword::Loop => seq![
            Opcode::INCLP,
            Opcode::CMPLOOP,
            Opcode::LDI(back),
            Opcode::JRZ,
            Opcode::DROPLP,
        ],
        Keyword::PlusLoop => seq![
            Opcode::ADDLP,
            Opcode::CMPLOOP,
            Opcode::LDI(back),
            Opcode::JRZ,
            Opcode::DROPLP,
        ],
        Keyword::Until => seq![Opcode::LDI(back), Opcode::JRZ],
        _ => seq![Opcode::LDI(back), Opcode::JR],
    }
}

/// The place of the backward jump's `LDI` in the code that a closing keyword
/// emits.
pub open spec fn back_jump_index(keyword: Keyword) -> int {
    if closes_counted_loop(keyword) {
        2
    } else {
        0
    }
}

/// The end of a loop: `code` with the code of the closing keyword and its
/// jump back to `body_start` behind it, and with every recorded exit patched
/// to lead behind that code.
pub open spec fn loop_end_code(
    code: Seq<Opcode>,
    keyword: Keyword,
    body_start: int,
    exits: Seq<int>,
) -> Result<Seq<Opcode>, SpecError> {
    let back = jump_offset(code.len() + back_jump_index(keyword), body_start);
    let closed = code + loop_tail(keyword, back as i64);
    let end = closed.len() as int;
    if fits_i64(back) && exits_fit(exits, end) {
        Ok(patch_exits(closed, exits, end))
    } else {
        Err(SpecError::InternalNumericOverflow)
    }
}

/// The code of a command that is no keyword: a call of the user's word of
/// that name, else the code of the intrinsic of that name.
pub open spec fn word_code(name: Seq<char>, vocabulary: Vocabulary) -> Result<
    Seq<Opcode>,
    SpecError,
> {
    if vocabulary.words.contains_key(name) {
        if vocabulary.words[name] <= i64::MAX {
            Ok(seq![Opcode::LDI(vocabulary.words[name] as i64), Opcode::CALL])
        } else {
            Err(SpecError::InternalNumericOverflow)
        }
    } else if vocabulary.intrinsics.contains_key(name) {
        Ok(vocabulary.intrinsics[name])
    } else {
        Err(SpecError::UnknownToken(name))
    }
}

impl Lowering {
    /// Nothing emitted, nothing pending.
    pub open spec fn start() -> Lowering {
        Lowering { code: Seq::empty(), frames: Seq::empty() }
    }

    /// The position of the next instruction.
    pub open spec fn here(self) -> int {
        self.code.len() as int
    }

    /// Every position that a pending construct records lies inside the code.
    pub open spec fn valid(self) -> bool {
        forall|i: int|
            0 <= i < self.frames.len() ==> frame_in_range(#[trigger] self.frames[i], self.here())
    }

    pub open spec fn emit(self, ops: Seq<Opcode>) -> Lowering {
        Lowering { code: self.code + ops, frames: self.frames }
    }

    /// `IF`: a placeholder jump that skips on zero, and a new pending `IF`.
    pub open spec fn open_if(self) -> Lowering {
        Lowering {
            code: self.code + seq![Opcode::LDI(0), Opcode::JRZ],
            frames: self.frames.push(Frame::If { if_pos: self.here(), else_pos: None }),
        }
    }

    /// `ELSE`: a placeholder jump that ends the first branch, recorded in the
    /// innermost pending construct, which has to be an `IF` without `ELSE`.
    pub open spec fn lower_else(self) -> Result<Lowering, SpecError> {
        match top(self.frames) {
            Some(Frame::If { if_pos, else_pos: None }) => Ok(
                Lowering {
                    code: self.code + seq![Opcode::LDI(0), Opcode::JR],
                    frames: self.frames.drop_last().push(
                        Frame::If { if_pos, else_pos: Some(self.here()) },
                    ),
                },
            ),
            Some(Frame::If { .. }) => Err(SpecError::InvalidSyntax(msg_second_else())),
            _ => Err(SpecError::InvalidSyntax(msg_else_without_if())),
        }
    }

    /// `THEN`: closes the innermost pending construct, which has to be an
    /// `IF`. The jump of `IF` leads behind the first branch: to the end where
    /// there is no `ELSE`, else behind the jump that `ELSE` emitted. The jump
    /// of `ELSE` leads to the end.
    pub open spec fn lower_then(self) -> Result<Lowering, SpecError> {
        match top(self.frames) {
            Some(Frame::If { if_pos, else_pos: None }) => {
                if fits_i64(jump_offset(if_pos, self.here())) {
                    Ok(
                        Lowering {
                            code: patch_jump(self.code, if_pos, self.here()),
                            frames: self.frames.drop_last(),
                        },
                    )
                } else {
                    Err(SpecError::InternalNumericOverflow)
                }
            },
            Some(Frame::If { if_pos, else_pos: Some(else_pos) }) => {
                if fits_i64(jump_offset(if_pos, else_pos + 2)) && fits_i64(
                    jump_offset(else_pos, self.here()),
                ) {
                    Ok(
                        Lowering {
                            code: patch_jump(
                                patch_jump(self.code, if_pos, else_pos + 2),
                                else_pos,
                                self.here(),
                            ),
                            frames: self.frames.drop_last(),
                        },
                    )
                } else {
                    Err(SpecError::InternalNumericOverflow)
                }
            },
            _ => Err(SpecError::InvalidSyntax(msg_then_without_if())),
        }
    }

    /// `DO`: moves the loop's bounds to the loop stack and opens a counted
    /// loop whose body starts behind that instruction.
    pub open spec fn open_do(self) -> Lowering {
        Lowering {
            code: self.code + seq![Opcode::PUSHLP],
            frames: self.frames.push(
                Frame::DoLoop {
                    prelude_pos: self.here(),
                    body_start: self.here() + 1,
                    exits: Seq::empty(),
                },
            ),
        }
    }

    /// `BEGIN`: opens a loop whose body starts here; emits nothing.
    pub open spec fn open_begin(self) -> Lowering {
        Lowering {
            code: self.code,
            frames: self.frames.push(
                Frame::BeginLoop { body_start: self.here(), exits: Seq::empty() },
            ),
        }
    }

    /// Closes the innermost pending construct, a loop with the given start
    /// and exits.
    pub open spec fn finish_loop(self, keyword: Keyword, body_start: int, exits: Seq<int>) -> Result<
        Lowering,
        SpecError,
    > {
        match loop_end_code(self.code, keyword, body_start, exits) {
            Ok(code) => Ok(Lowering { code, frames: self.frames.drop_last() }),
            Err(err) => Err(err),
        }
    }

    /// `LOOP`, `+LOOP`, `UNTIL`, `REPEAT`, `AGAIN`: closes the innermost
    /// pending construct, which has to be a loop of the keyword's kind.
    pub open spec fn close_loop(self, keyword: Keyword) -> Result<Lowering, SpecError> {
        match top(self.frames) {
            Some(Frame::DoLoop { prelude_pos, body_start, exits }) => {
                if closes_counted_loop(keyword) {
                    self.finish_loop(keyword, body_start, exits)
                } else {
                    Err(SpecError::InvalidSyntax(msg_without_opener(keyword)))
                }
            },
            Some(Frame::BeginLoop { body_start, exits }) => {
                if closes_counted_loop(keyword) {
                    Err(SpecError::InvalidSyntax(msg_without_opener(keyword)))
                } else {
                    self.finish_loop(keyword, body_start, exits)
                }
            },
            _ => Err(SpecError::InvalidSyntax(msg_without_opener(keyword))),
        }
    }

    /// `WHILE`: a placeholder jump that leaves the loop on zero, recorded as
    /// an exit of the innermost pending construct, which has to be a `BEGIN`
    /// loop.
    pub open spec fn lower_while(self) -> Result<Lowering, SpecError> {
        match top(self.frames) {
            Some(Frame::BeginLoop { body_start, exits }) => Ok(
                Lowering {
                    code: self.code + seq![Opcode::LDI(0), Opcode::JRZ],
                    frames: self.frames.drop_last().push(
                        Frame::BeginLoop { body_start, exits: exits.push(self.here()) },
                    ),
                },
            ),
            _ => Err(SpecError::InvalidSyntax(msg_without_opener(Keyword::While))),
        }
    }

    /// `LEAVE`: a placeholder jump, recorded as an exit of the innermost
    /// pending loop.
    pub open spec fn lower_leave(self) -> Result<Lowering, SpecError> {
        match innermost_loop(self.frames) {
            Some(index) => Ok(
                Lowering {
                    code: self.code + seq![Opcode::LDI(0), Opcode::JR],
                    frames: self.frames.update(index, self.frames[index].with_exit(self.here())),
                },
            ),
            None => Err(SpecError::InvalidSyntax(msg_leave_without_loop())),
        }
    }

    pub open spec fn lower_keyword(self, keyword: Keyword) -> Result<Lowering, SpecError> {
        match keyword {
            Keyword::If => Ok(self.open_if()),
            Keyword::Else => self.lower_else(),
            Keyword::Then => self.lower_then(),
            Keyword::Do => Ok(self.open_do()),
            Keyword::Begin => Ok(self.open_begin()),
            Keyword::While => self.lower_while(),
            Keyword::Leave => self.lower_leave(),
            Keyword::Loop => self.close_loop(keyword),
            Keyword::PlusLoop => self.close_loop(keyword),
            Keyword::Until => self.close_loop(keyword),
            Keyword::Repeat => self.close_loop(keyword),
            Keyword::Again => self.close_loop(keyword),
        }
    }

    /// A command that is no keyword emits the code of its word.
    pub open spec fn lower_word(self, name: Seq<char>, vocabulary: Vocabulary) -> Result<
        Lowering,
        SpecError,
    > {
        match word_code(name, vocabulary) {
            Ok(code) => Ok(self.emit(code)),
            Err(err) => Err(err),
        }
    }

    /// The effect of one token. Comments and string literals emit nothing; a
    /// colon or a semicolon has no place in code and is reported like an
    /// unknown word.
    pub open spec fn lower_token(self, token: SpecToken, vocabulary: Vocabulary) -> Result<
        Lowering,
        SpecError,
    > {
        match token {
            SpecToken::Number(n) => Ok(self.emit(seq![Opcode::LDI(n)])),
            SpecToken::Command(name) => match keyword_of(name) {
                Some(keyword) => self.lower_keyword(keyword),
                None => self.lower_word(name, vocabulary),
            },
            SpecToken::Colon => Err(SpecError::UnknownToken(":"@)),
            SpecToken::SemiColon => Err(SpecError::UnknownToken(";"@)),
            SpecToken::LineComment(_) => Ok(self),
            SpecToken::BlockComment(_) => Ok(self),
            SpecToken::StringLiteral(_, _) => Ok(self),
        }
    }

    /// The effect of a token sequence: the tokens in order, up to the first
    /// that fails.
    pub open spec fn lower_all(self, tokens: Seq<SpecToken>, vocabulary: Vocabulary) -> Result<
        Lowering,
        SpecError,
    >
        decreases tokens.len(),
    {
        if tokens.len() == 0 {
            Ok(self)
        } else {
            match self.lower_all(tokens.drop_last(), vocabulary) {
                Ok(state) => state.lower_token(tokens.last(), vocabulary),
                Err(err) => Err(err),
            }
        }
    }
}

/// The code of a token sequence: that of its tokens in order, provided that
/// every construct it opens is closed at its end.
pub open spec fn compile_spec(tokens: Seq<SpecToken>, vocabulary: Vocabulary) -> Result<
    Seq<Opcode>,
    SpecError,
> {
    match Lowering::start().lower_all(tokens, vocabulary) {
        Ok(state) => match top(state.frames) {
            None => Ok(state.code),
            Some(frame) => Err(SpecError::InvalidSyntax(msg_unterminated(frame))),
        },
        Err(err) => Err(err),
    }
}

/// The innermost pending loop, where there is one, is a loop, and every
/// construct opened inside it is an `IF`.
pub proof fn lemma_innermost_loop(frames: Seq<Frame>)
    ensures
        match innermost_loop(frames) {
            Some(index) => {
                &&& 0 <= index < frames.len()
                &&& frames[index].is_loop()
                &&& forall|i: int| index < i < frames.len() ==> !(#[trigger] frames[i]).is_loop()
            },
            None => forall|i: int| 0 <= i < frames.len() ==> !(#[trigger] frames[i]).is_loop(),
        },
    decreases frames.len(),
{
    if frames.len() > 0 && !frames.last().is_loop() {
        lemma_innermost_loop(frames.drop_last());
        assert forall|i: int| 0 <= i < frames.len() - 1 implies frames[i] == frames.drop_last()[i] by {}
    }
}

/// A step that succeeds from a valid state leads to a valid state, and takes
/// no code away.
pub proof fn lemma_lower_token_valid(state: Lowering, token: SpecToken, vocabulary: Vocabulary)
    requires
        state.valid(),
        state.lower_token(token, vocabulary) is Ok,
    ensures
        state.lower_token(token, vocabulary)->Ok_0.valid(),
        state.lower_token(token, vocabulary)->Ok_0.code.len() >= state.code.len(),
{
    let next = state.lower_token(token, vocabulary)->Ok_0;
    lemma_innermost_loop(state.frames);
    assert forall|i: int| 0 <= i < next.frames.len() implies frame_in_range(
        #[trigger] next.frames[i],
        next.here(),
    ) by {
        if i < state.frames.len() {
            assert(frame_in_range(state.frames[i], state.here()));
        }
    }
}

/// A failure inside a prefix is the failure of the whole sequence.
pub proof fn lemma_lower_all_prefix_error(
    state: Lowering,
    tokens: Seq<SpecToken>,
    vocabulary: Vocabulary,
    n: int,
)
    requires
        0 <= n <= tokens.len(),
        state.lower_all(tokens.take(n), vocabulary) is Err,
    ensures
        state.lower_all(tokens, vocabulary) == state.lower_all(tokens.take(n), vocabulary),
    decreases tokens.len(),
{
    if n == tokens.len() {
        assert(tokens.take(n) == tokens);
    } else {
        assert(tokens.drop_last().take(n) == tokens.take(n));
        lemma_lower_all_prefix_error(state, tokens.drop_last(), vocabulary, n);
    }
}

/// One more token: the effect of a prefix, then the step of the next token.
pub proof fn lemma_lower_all_step(
    state: Lowering,
    tokens: Seq<SpecToken>,
    vocabulary: Vocabulary,
    n: int,
)
    requires
        0 <= n < tokens.len(),
    ensures
        state.lower_all(tokens.take(n + 1), vocabulary) == match state.lower_all(
            tokens.take(n),
            vocabulary,
        ) {
            Ok(reached) => reached.lower_token(tokens[n], vocabulary),
            Err(err) => Err(err),
        },
{
    assert(tokens.take(n + 1).drop_last() == tokens.take(n));
    assert(tokens.take(n + 1).last() == tokens[n]);
}

/// Lowering from a valid state ends, where it succeeds, in a valid state.
pub proof fn lemma_lower_all_valid(state: Lowering, tokens: Seq<SpecToken>, vocabulary: Vocabulary)
    requires
        state.valid(),
        state.lower_all(tokens, vocabulary) is Ok,
    ensures
        state.lower_all(tokens, vocabulary)->Ok_0.valid(),
        state.lower_all(tokens, vocabulary)->Ok_0.code.len() >= state.code.len(),
    decreases tokens.len(),
{
    if tokens.len() > 0 {
        lemma_lower_all_valid(state, tokens.drop_last(), vocabulary);
        lemma_lower_token_valid(
            state.lower_all(tokens.drop_last(), vocabulary)->Ok_0,
            tokens.last(),
            vocabulary,
        );
    }
}

} // verus!
