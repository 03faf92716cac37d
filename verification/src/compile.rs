//! The control-flow compiler: lowers tokens to code, one token at a time,
//! and patches each jump when the keyword that fixes its target arrives.

use crate::deferred::DeferredBeginLoopStatement;
use crate::deferred::DeferredDoLoopStatement;
use crate::deferred::DeferredIfStatement;
use crate::deferred::DeferredStatement;
use crate::deferred::LoopExits;
use crate::error::ForthError;
use crate::error::SpecError;
use crate::keyword::Keyword;
use crate::lowering::back_jump_index;
use crate::lowering::compile_spec;
use crate::lowering::exits_fit;
use crate::lowering::exits_in_range;
use crate::lowering::exits_inside;
use crate::lowering::fits_i64;
use crate::lowering::frame_in_range;
use crate::lowering::innermost_loop;
use crate::lowering::jump_offset;
use crate::lowering::loop_end_code;
use crate::lowering::loop_tail;
use crate::lowering::patch_exits;
use crate::lowering::word_code;
use crate::lowering::Lowering;
use crate::lowering::Vocabulary;
use crate::opcode::Opcode;
use crate::token::Token;
use vstd::hash_map::StringHashMap;
use vstd::prelude::*;

verus! {

/// The state that the code and the stack of pending constructs stand for.
pub open spec fn state_of(code: Vec<Opcode>, deferred: Vec<DeferredStatement>) -> Lowering {
    Lowering { code: code@, frames: deferred.deep_view() }
}

/// The table of intrinsics that a hash map stands for.
pub open spec fn intrinsics_of(table: StringHashMap<Vec<Opcode>>) -> Map<Seq<char>, Seq<Opcode>> {
    table@.map_values(|code: Vec<Opcode>| code@)
}

/// What the two tables of a compiler stand for.
pub open spec fn vocabulary_of(
    words: StringHashMap<usize>,
    intrinsics: StringHashMap<Vec<Opcode>>,
) -> Vocabulary {
    Vocabulary { words: words@, intrinsics: intrinsics_of(intrinsics) }
}

/// The offset of a forward jump from the `LDI` at `ldi_pos` to `target`.
fn forward_offset(ldi_pos: usize, target: usize) -> (offset: Option<i64>)
    requires
        ldi_pos < target,
    ensures
        fits_i64(jump_offset(ldi_pos as int, target as int)) ==> offset == Some(
            jump_offset(ldi_pos as int, target as int) as i64,
        ),
        !fits_i64(jump_offset(ldi_pos as int, target as int)) ==> offset is None,
{
    let distance: usize = target - ldi_pos - 1;
    match i64::try_from(distance) {
        Ok(offset) => Some(offset),
        Err(_) => None,
    }
}

/// The offset of a backward jump from the `LDI` at `ldi_pos` to `target`.
fn backward_offset(ldi_pos: usize, target: usize) -> (offset: Option<i64>)
    requires
        target <= ldi_pos,
    ensures
        fits_i64(jump_offset(ldi_pos as int, target as int)) ==> offset == Some(
            jump_offset(ldi_pos as int, target as int) as i64,
        ),
        !fits_i64(jump_offset(ldi_pos as int, target as int)) ==> offset is None,
{
    let distance: usize = ldi_pos - target;
    match i64::try_from(distance) {
        Ok(steps) => Some(-steps - 1),
        Err(_) => None,
    }
}

impl LoopExits {
    /// Patches every recorded exit so that its jump leads to the present end
    /// of the code. Nothing is written unless every offset fits.
    pub fn fixup_loop_exits(&self, opcode_vector: &mut Vec<Opcode>) -> (outcome: Result<
        (),
        ForthError,
    >)
        requires
            exits_inside(self@, old(opcode_vector)@.len() as int),
        ensures
            exits_fit(self@, old(opcode_vector)@.len() as int) ==> {
                &&& outcome is Ok
                &&& final(opcode_vector)@ == patch_exits(
                    old(opcode_vector)@,
                    self@,
                    old(opcode_vector)@.len() as int,
                )
            },
            !exits_fit(self@, old(opcode_vector)@.len() as int) ==> {
                &&& outcome is Err
                &&& outcome->Err_0@ == SpecError::InternalNumericOverflow
                &&& final(opcode_vector)@ == old(opcode_vector)@
            },
    {
        let loop_exit_point = opcode_vector.len();
        let ghost before = opcode_vector@;
        let ghost target = loop_exit_point as int;
        let count = self.loop_exit_locations.len();
        let mut checked: usize = 0;
        while checked < count
            invariant
                checked <= count,
                count == self.loop_exit_locations@.len(),
                loop_exit_point == opcode_vector@.len(),
                opcode_vector@ == before,
                exits_inside(self@, target),
                target == loop_exit_point as int,
                exits_fit(self@.take(checked as int), target),
            decreases count - checked,
        {
            let leave_point = self.loop_exit_locations[checked];
            assert(self@[checked as int] == leave_point as int);
            if forward_offset(leave_point, loop_exit_point).is_none() {
                return Err(ForthError::InternalNumericOverflow);
            }
            checked += 1;
        }
        assert(self@.take(count as int) == self@);
        let mut done: usize = 0;
        while done < count
            invariant
                done <= count,
                count == self.loop_exit_locations@.len(),
                loop_exit_point == opcode_vector@.len(),
                before.len() == loop_exit_point,
                target == loop_exit_point as int,
                exits_inside(self@, target),
                exits_fit(self@, target),
                opcode_vector@ == patch_exits(before, self@.take(done as int), target),
            decreases count - done,
        {
            let leave_point = self.loop_exit_locations[done];
            assert(self@[done as int] == leave_point as int);
            match forward_offset(leave_point, loop_exit_point) {
                Some(jump_forward) => {
                    opcode_vector.set(leave_point, Opcode::LDI(jump_forward));
                },
                None => {
                    return Err(ForthError::InternalNumericOverflow);
                },
            }
            proof {
                let earlier = self@.take(done as int);
                let later = self@.take(done as int + 1);
                assert(later == earlier.push(leave_point as int));
                assert forall|pos: int| later.contains(pos) <==> (earlier.contains(pos) || pos
                    == leave_point as int) by {
                    if earlier.contains(pos) {
                        let i = choose|i: int| 0 <= i < earlier.len() && earlier[i] == pos;
                        assert(later[i] == pos);
                    }
                    if pos == leave_point as int {
                        assert(later[done as int] == pos);
                    }
                }
                assert(opcode_vector@ =~= patch_exits(before, later, target));
            }
            done += 1;
        }
        assert(self@.take(count as int) == self@);
        Ok(())
    }
}

fn without_opener(keyword: Keyword) -> (err: ForthError)
    ensures
        err@ == SpecError::InvalidSyntax(crate::lowering::msg_without_opener(keyword)),
{
    let message = match keyword {
        Keyword::Loop => "LOOP without proper loop start like DO",
        Keyword::PlusLoop => "+LOOP without proper loop start like DO",
        Keyword::Until => "UNTIL without proper loop start like BEGIN",
        Keyword::While => "WHILE without proper loop start like BEGIN",
        Keyword::Repeat => "REPEAT without proper loop start like BEGIN",
        _ => "AGAIN without proper loop start like BEGIN",
    };
    ForthError::InvalidSyntax(String::from_str(message))
}

fn compile_if(tv: &mut Vec<Opcode>, deferred: &mut Vec<DeferredStatement>)
    ensures
        state_of(*final(tv), *final(deferred)) == state_of(*old(tv), *old(deferred)).open_if(),
{
    let current_instruction = tv.len();
    deferred.push(DeferredStatement::If(DeferredIfStatement::new(current_instruction)));
    tv.push(Opcode::LDI(0));
    tv.push(Opcode::JRZ);
    proof {
        let expected = state_of(*old(tv), *old(deferred)).open_if();
        assert(tv@ =~= expected.code);
        assert(deferred.deep_view() =~= expected.frames);
    }
}

fn compile_else(tv: &mut Vec<Opcode>, deferred: &mut Vec<DeferredStatement>) -> (outcome: Result<
    (),
    ForthError,
>)
    ensures
        match state_of(*old(tv), *old(deferred)).lower_else() {
            Ok(state) => outcome is Ok && state_of(*final(tv), *final(deferred)) == state,
            Err(err) => outcome is Err && outcome->Err_0@ == err,
        },
{
    let current_instruction = tv.len();
    match deferred.pop() {
        Some(DeferredStatement::If(x)) => {
            if x.else_location.is_some() {
                return Err(ForthError::InvalidSyntax(String::from_str("ELSE after ELSE")));
            }
            let mut x = x;
            x.else_location = Some(current_instruction);
            deferred.push(DeferredStatement::If(x));
            tv.push(Opcode::LDI(0));
            tv.push(Opcode::JR);
            proof {
                let expected = state_of(*old(tv), *old(deferred)).lower_else()->Ok_0;
                assert(tv@ =~= expected.code);
                assert(deferred.deep_view() =~= expected.frames);
            }
            Ok(())
        },
        _ => Err(ForthError::InvalidSyntax(String::from_str("ELSE without IF"))),
    }
}

fn compile_then(tv: &mut Vec<Opcode>, deferred: &mut Vec<DeferredStatement>) -> (outcome: Result<
    (),
    ForthError,
>)
    requires
        state_of(*old(tv), *old(deferred)).valid(),
    ensures
        match state_of(*old(tv), *old(deferred)).lower_then() {
            Ok(state) => outcome is Ok && state_of(*final(tv), *final(deferred)) == state,
            Err(err) => outcome is Err && outcome->Err_0@ == err,
        },
{
    let current_instruction = tv.len();
    proof {
        if old(deferred)@.len() > 0 {
            assert(frame_in_range(
                old(deferred).deep_view()[old(deferred)@.len() - 1],
                current_instruction as int,
            ));
        }
    }
    match deferred.pop() {
        Some(DeferredStatement::If(x)) => {
            assert(deferred.deep_view() =~= old(deferred).deep_view().drop_last());
            let if_jump_location = x.if_location;
            match x.else_location {
                None => match forward_offset(if_jump_location, current_instruction) {
                    Some(if_jump_offset) => {
                        tv.set(if_jump_location, Opcode::LDI(if_jump_offset));
                        Ok(())
                    },
                    None => Err(ForthError::InternalNumericOverflow),
                },
                Some(else_jump_location) => {
                    let if_jump_offset = forward_offset(if_jump_location, else_jump_location + 2);
                    let else_jump_offset = forward_offset(else_jump_location, current_instruction);
                    match (if_jump_offset, else_jump_offset) {
                        (Some(if_jump_offset), Some(else_jump_offset)) => {
                            tv.set(if_jump_location, Opcode::LDI(if_jump_offset));
                            tv.set(else_jump_location, Opcode::LDI(else_jump_offset));
                            Ok(())
                        },
                        _ => Err(ForthError::InternalNumericOverflow),
                    }
                },
            }
        },
        _ => Err(ForthError::InvalidSyntax(String::from_str("THEN without IF"))),
    }
}

fn compile_do(tv: &mut Vec<Opcode>, deferred: &mut Vec<DeferredStatement>)
    ensures
        state_of(*final(tv), *final(deferred)) == state_of(*old(tv), *old(deferred)).open_do(),
{
    let start_of_loop_code = tv.len();
    tv.push(Opcode::PUSHLP);
    let logical_start_of_loop = tv.len();
    deferred.push(
        DeferredStatement::DoLoop(
            DeferredDoLoopStatement::new(start_of_loop_code, logical_start_of_loop),
            LoopExits::new(),
        ),
    );
    proof {
        let expected = state_of(*old(tv), *old(deferred)).open_do();
        assert(tv@ =~= expected.code);
        assert(deferred.deep_view() =~= expected.frames);
    }
}

fn compile_begin(tv: &Vec<Opcode>, deferred: &mut Vec<DeferredStatement>)
    ensures
        state_of(*tv, *final(deferred)) == state_of(*tv, *old(deferred)).open_begin(),
{
    let current_instruction = tv.len();
    deferred.push(
        DeferredStatement::BeginLoop(
            DeferredBeginLoopStatement::new(current_instruction),
            LoopExits::new(),
        ),
    );
    proof {
        let expected = state_of(*tv, *old(deferred)).open_begin();
        assert(deferred.deep_view() =~= expected.frames);
    }
}

/// Emits the code of a closing keyword and patches the exits of its loop.
fn finish_loop(
    keyword: Keyword,
    logical_start: usize,
    loop_exits: &LoopExits,
    tv: &mut Vec<Opcode>,
) -> (outcome: Result<(), ForthError>)
    requires
        keyword is Loop || keyword is PlusLoop || keyword is Until || keyword is Repeat
            || keyword is Again,
        logical_start <= old(tv)@.len(),
        exits_in_range(loop_exits@, old(tv)@.len() as int),
    ensures
        match loop_end_code(old(tv)@, keyword, logical_start as int, loop_exits@) {
            Ok(code) => outcome is Ok && final(tv)@ == code,
            Err(err) => outcome is Err && outcome->Err_0@ == err,
        },
{
    match keyword {
        Keyword::Loop => {
            tv.push(Opcode::INCLP);
            tv.push(Opcode::CMPLOOP);
        },
        Keyword::PlusLoop => {
            tv.push(Opcode::ADDLP);
            tv.push(Opcode::CMPLOOP);
        },
        _ => {},
    }
    let ldi_pos = tv.len();
    assert(ldi_pos == old(tv)@.len() + back_jump_index(keyword));
    match backward_offset(ldi_pos, logical_start) {
        None => Err(ForthError::InternalNumericOverflow),
        Some(jump_back) => {
            tv.push(Opcode::LDI(jump_back));
            match keyword {
                Keyword::Loop => {
                    tv.push(Opcode::JRZ);
                    tv.push(Opcode::DROPLP);
                },
                Keyword::PlusLoop => {
                    tv.push(Opcode::JRZ);
                    tv.push(Opcode::DROPLP);
                },
                Keyword::Until => {
                    tv.push(Opcode::JRZ);
                },
                _ => {
                    tv.push(Opcode::JR);
                },
            }
            assert(tv@ =~= old(tv)@ + loop_tail(keyword, jump_back));
            loop_exits.fixup_loop_exits(tv)
        },
    }
}

fn compile_loop_end(
    keyword: Keyword,
    tv: &mut Vec<Opcode>,
    deferred: &mut Vec<DeferredStatement>,
) -> (outcome: Result<(), ForthError>)
    requires
        keyword is Loop || keyword is PlusLoop || keyword is Until || keyword is Repeat
            || keyword is Again,
        state_of(*old(tv), *old(deferred)).valid(),
    ensures
        match state_of(*old(tv), *old(deferred)).close_loop(keyword) {
            Ok(state) => outcome is Ok && state_of(*final(tv), *final(deferred)) == state,
            Err(err) => outcome is Err && outcome->Err_0@ == err,
        },
{
    let counted = match keyword {
        Keyword::Loop => true,
        Keyword::PlusLoop => true,
        _ => false,
    };
    proof {
        if old(deferred)@.len() > 0 {
            assert(frame_in_range(
                old(deferred).deep_view()[old(deferred)@.len() - 1],
                old(tv)@.len() as int,
            ));
        }
    }
    match deferred.pop() {
        Some(DeferredStatement::DoLoop(loop_def, loop_exits)) => {
            assert(deferred.deep_view() =~= old(deferred).deep_view().drop_last());
            if counted {
                finish_loop(keyword, loop_def.logical_start, &loop_exits, tv)
            } else {
                Err(without_opener(keyword))
            }
        },
        Some(DeferredStatement::BeginLoop(loop_def, loop_exits)) => {
            assert(deferred.deep_view() =~= old(deferred).deep_view().drop_last());
            if counted {
                Err(without_opener(keyword))
            } else {
                finish_loop(keyword, loop_def.logical_start, &loop_exits, tv)
            }
        },
        _ => Err(without_opener(keyword)),
    }
}

fn compile_while(tv: &mut Vec<Opcode>, deferred: &mut Vec<DeferredStatement>) -> (outcome: Result<
    (),
    ForthError,
>)
    ensures
        match state_of(*old(tv), *old(deferred)).lower_while() {
            Ok(state) => outcome is Ok && state_of(*final(tv), *final(deferred)) == state,
            Err(err) => outcome is Err && outcome->Err_0@ == err,
        },
{
    let current_instruction = tv.len();
    match deferred.pop() {
        Some(DeferredStatement::BeginLoop(loop_def, loop_exits)) => {
            let mut loop_exits = loop_exits;
            loop_exits.add_exit_point(current_instruction);
            deferred.push(DeferredStatement::BeginLoop(loop_def, loop_exits));
            tv.push(Opcode::LDI(0));
            tv.push(Opcode::JRZ);
            proof {
                let expected = state_of(*old(tv), *old(deferred)).lower_while()->Ok_0;
                assert(tv@ =~= expected.code);
                assert(deferred.deep_view() =~= expected.frames);
            }
            Ok(())
        },
        _ => Err(without_opener(Keyword::While)),
    }
}

/// The index of the innermost pending loop.
fn find_innermost_loop(deferred: &Vec<DeferredStatement>) -> (found: Option<usize>)
    ensures
        match found {
            Some(index) => index < deferred@.len() && innermost_loop(deferred.deep_view()) == Some(
                index as int,
            ),
            None => innermost_loop(deferred.deep_view()) is None,
        },
{
    let ghost frames = deferred.deep_view();
    let mut above = deferred.len();
    assert(frames.take(above as int) == frames);
    while above > 0
        invariant
            above <= deferred@.len(),
            frames == deferred.deep_view(),
            innermost_loop(frames) == innermost_loop(frames.take(above as int)),
        decreases above,
    {
        above -= 1;
        proof {
            assert(frames.take(above as int + 1).drop_last() == frames.take(above as int));
            assert(frames.take(above as int + 1).last() == deferred@[above as int]@);
        }
        match &deferred[above] {
            DeferredStatement::If(_) => {},
            _ => {
                return Some(above);
            },
        }
    }
    None
}

fn compile_leave(tv: &mut Vec<Opcode>, deferred: &mut Vec<DeferredStatement>) -> (outcome: Result<
    (),
    ForthError,
>)
    ensures
        match state_of(*old(tv), *old(deferred)).lower_leave() {
            Ok(state) => outcome is Ok && state_of(*final(tv), *final(deferred)) == state,
            Err(err) => outcome is Err && outcome->Err_0@ == err,
        },
{
    let current_instruction = tv.len();
    match find_innermost_loop(deferred) {
        Some(index) => {
            let deferred_statement = match deferred.remove(index) {
                DeferredStatement::DoLoop(loop_def, loop_exits) => {
                    let mut loop_exits = loop_exits;
                    loop_exits.add_exit_point(current_instruction);
                    DeferredStatement::DoLoop(loop_def, loop_exits)
                },
                DeferredStatement::BeginLoop(loop_def, loop_exits) => {
                    let mut loop_exits = loop_exits;
                    loop_exits.add_exit_point(current_instruction);
                    DeferredStatement::BeginLoop(loop_def, loop_exits)
                },
                DeferredStatement::If(x) => DeferredStatement::If(x),
            };
            deferred.insert(index, deferred_statement);
            tv.push(Opcode::LDI(0));
            tv.push(Opcode::JR);
            proof {
                let expected = state_of(*old(tv), *old(deferred)).lower_leave()->Ok_0;
                assert(tv@ =~= expected.code);
                assert(deferred.deep_view() =~= expected.frames);
            }
            Ok(())
        },
        None => Err(
            ForthError::InvalidSyntax(
                String::from_str("LEAVE without proper loop start like DO or BEGIN"),
            ),
        ),
    }
}

fn compile_keyword(
    keyword: Keyword,
    tv: &mut Vec<Opcode>,
    deferred: &mut Vec<DeferredStatement>,
) -> (outcome: Result<(), ForthError>)
    requires
        state_of(*old(tv), *old(deferred)).valid(),
    ensures
        match state_of(*old(tv), *old(deferred)).lower_keyword(keyword) {
            Ok(state) => outcome is Ok && state_of(*final(tv), *final(deferred)) == state,
            Err(err) => outcome is Err && outcome->Err_0@ == err,
        },
{
    match keyword {
        Keyword::If => {
            compile_if(tv, deferred);
            Ok(())
        },
        Keyword::Else => compile_else(tv, deferred),
        Keyword::Then => compile_then(tv, deferred),
        Keyword::Do => {
            compile_do(tv, deferred);
            Ok(())
        },
        Keyword::Begin => {
            compile_begin(tv, deferred);
            Ok(())
        },
        Keyword::While => compile_while(tv, deferred),
        Keyword::Leave => compile_leave(tv, deferred),
        Keyword::Loop => compile_loop_end(keyword, tv, deferred),
        Keyword::PlusLoop => compile_loop_end(keyword, tv, deferred),
        Keyword::Until => compile_loop_end(keyword, tv, deferred),
        Keyword::Repeat => compile_loop_end(keyword, tv, deferred),
        Keyword::Again => compile_loop_end(keyword, tv, deferred),
    }
}

/// Emits the call of a user's word, else the code of an intrinsic.
fn compile_word(
    name: &str,
    tv: &mut Vec<Opcode>,
    words: &StringHashMap<usize>,
    intrinsics: &StringHashMap<Vec<Opcode>>,
) -> (outcome: Result<(), ForthError>)
    ensures
        match word_code(name@, vocabulary_of(*words, *intrinsics)) {
            Ok(code) => outcome is Ok && final(tv)@ == old(tv)@ + code,
            Err(err) => outcome is Err && outcome->Err_0@ == err,
        },
{
    match words.get(name) {
        Some(offset) => match i64::try_from(*offset) {
            Ok(address) => {
                tv.push(Opcode::LDI(address));
                tv.push(Opcode::CALL);
                assert(tv@ =~= old(tv)@ + seq![Opcode::LDI(address), Opcode::CALL]);
                Ok(())
            },
            Err(_) => Err(ForthError::InternalNumericOverflow),
        },
        None => match intrinsics.get(name) {
            Some(ol) => {
                let mut copied: usize = 0;
                while copied < ol.len()
                    invariant
                        copied <= ol@.len(),
                        tv@ == old(tv)@ + ol@.take(copied as int),
                    decreases ol@.len() - copied,
                {
                    tv.push(ol[copied]);
                    assert(ol@.take(copied as int + 1) =~= ol@.take(copied as int).push(
                        ol@[copied as int],
                    ));
                    copied += 1;
                }
                assert(ol@.take(copied as int) == ol@);
                Ok(())
            },
            None => Err(ForthError::UnknownToken(String::from_str(name))),
        },
    }
}

/// Lowers one token.
fn compile_token(
    token: &Token,
    tv: &mut Vec<Opcode>,
    deferred: &mut Vec<DeferredStatement>,
    words: &StringHashMap<usize>,
    intrinsics: &StringHashMap<Vec<Opcode>>,
) -> (outcome: Result<(), ForthError>)
    requires
        state_of(*old(tv), *old(deferred)).valid(),
    ensures
        match state_of(*old(tv), *old(deferred)).lower_token(
            token@,
            vocabulary_of(*words, *intrinsics),
        ) {
            Ok(state) => outcome is Ok && state_of(*final(tv), *final(deferred)) == state,
            Err(err) => outcome is Err && outcome->Err_0@ == err,
        },
{
    match token {
        Token::LineComment(_) => Ok(()),
        Token::BlockComment(_) => Ok(()),
        Token::StringLiteral(_, _) => Ok(()),
        Token::Number(n) => {
            tv.push(Opcode::LDI(*n));
            assert(tv@ =~= old(tv)@ + seq![Opcode::LDI(*n)]);
            Ok(())
        },
        Token::Command(s) => match Keyword::parse(s.as_str()) {
            Some(keyword) => compile_keyword(keyword, tv, deferred),
            None => compile_word(s.as_str(), tv, words, intrinsics),
        },
        Token::Colon => Err(ForthError::UnknownToken(String::from_str(":"))),
        Token::SemiColon => Err(ForthError::UnknownToken(String::from_str(";"))),
    }
}

/// The complaint about a construct that the input left open.
fn unterminated(statement: &DeferredStatement) -> (err: ForthError)
    ensures
        err@ == SpecError::InvalidSyntax(crate::lowering::msg_unterminated(statement@)),
{
    let message = match statement {
        DeferredStatement::If(_) => "unterminated control-flow: IF",
        DeferredStatement::DoLoop(_, _) => "unterminated control-flow: DO",
        DeferredStatement::BeginLoop(_, _) => "unterminated control-flow: BEGIN",
    };
    ForthError::InvalidSyntax(String::from_str(message))
}

/// Compiles a token sequence to code with every jump patched. The code ends
/// without a `RET`: to add one is the caller's part.
///
/// Succeeds exactly when every token can be lowered and every construct that
/// the tokens open is closed by them; otherwise the error is that of the first
/// token that cannot be lowered, else the complaint about the innermost
/// construct left open.
pub fn compile_tokens(
    token_vector: &[Token],
    words: &StringHashMap<usize>,
    intrinsics: &StringHashMap<Vec<Opcode>>,
) -> (outcome: Result<Vec<Opcode>, ForthError>)
    ensures
        match compile_spec(token_vector.deep_view(), vocabulary_of(*words, *intrinsics)) {
            Ok(code) => outcome is Ok && outcome->Ok_0@ == code,
            Err(err) => outcome is Err && outcome->Err_0@ == err,
        },
{
    let mut deferred_statements: Vec<DeferredStatement> = Vec::new();
    let mut tv: Vec<Opcode> = Vec::new();
    let ghost tokens = token_vector.deep_view();
    let ghost vocabulary = vocabulary_of(*words, *intrinsics);
    let mut position: usize = 0;
    assert(tokens.take(0) == Seq::<crate::token::SpecToken>::empty());
    assert(state_of(tv, deferred_statements).code =~= Lowering::start().code);
    assert(state_of(tv, deferred_statements).frames =~= Lowering::start().frames);
    while position < token_vector.len()
        invariant
            position <= token_vector@.len(),
            tokens == token_vector.deep_view(),
            vocabulary == vocabulary_of(*words, *intrinsics),
            Lowering::start().lower_all(tokens.take(position as int), vocabulary) == Ok::<
                Lowering,
                SpecError,
            >(state_of(tv, deferred_statements)),
            state_of(tv, deferred_statements).valid(),
        decreases token_vector@.len() - position,
    {
        let ghost reached = state_of(tv, deferred_statements);
        proof {
            crate::lowering::lemma_lower_all_step(
                Lowering::start(),
                tokens,
                vocabulary,
                position as int,
            );
        }
        match compile_token(
            &token_vector[position],
            &mut tv,
            &mut deferred_statements,
            words,
            intrinsics,
        ) {
            Ok(()) => {
                proof {
                    crate::lowering::lemma_lower_token_valid(
                        reached,
                        tokens[position as int],
                        vocabulary,
                    );
                }
            },
            Err(err) => {
                proof {
                    crate::lowering::lemma_lower_all_prefix_error(
                        Lowering::start(),
                        tokens,
                        vocabulary,
                        position as int + 1,
                    );
                }
                return Err(err);
            },
        }
        position += 1;
    }
    assert(tokens.take(position as int) == tokens);
    let open = deferred_statements.len();
    if open > 0 {
        Err(unterminated(&deferred_statements[open - 1]))
    } else {
        Ok(tv)
    }
}

} // verus!
