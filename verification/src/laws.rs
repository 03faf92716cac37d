//! What holds of every program: the shape of the code of each control-flow
//! construct, and where its jumps lead.
//!
//! The bodies `a`, `b`, `x`, `y` of the laws are token sequences that compile
//! alone, so each of them closes every construct it opens. By
//! `lemma_closed_sequence` a construct has the same code wherever it stands.

use crate::context::lemma_closed_sequence;
use crate::context::lemma_lower_all_concat;
use crate::deferred::Frame;
use crate::error::SpecError;
use crate::keyword::keyword_of;
use crate::keyword::Keyword;
use crate::lowering::compile_spec;
use crate::lowering::fits_i64;
use crate::lowering::jump_target;
use crate::lowering::Lowering;
use crate::lowering::Vocabulary;
use crate::opcode::Opcode;
use crate::token::SpecToken;
use vstd::prelude::*;

verus! {

/// The one-token sequence of the command `name`.
pub open spec fn word(name: Seq<char>) -> Seq<SpecToken> {
    seq![SpecToken::Command(name)]
}

/// `Ok(code)` where the offsets fit the operand of `LDI`, else the overflow.
pub open spec fn code_if(fits: bool, code: Seq<Opcode>) -> Result<Seq<Opcode>, SpecError> {
    if fits {
        Ok(code)
    } else {
        Err(SpecError::InternalNumericOverflow)
    }
}

/// Lowering one token is the step of that token.
pub proof fn lemma_lower_one(state: Lowering, token: SpecToken, vocabulary: Vocabulary)
    ensures
        state.lower_all(seq![token], vocabulary) == state.lower_token(token, vocabulary),
{
    assert(seq![token].drop_last() =~= Seq::<SpecToken>::empty());
    assert(seq![token].last() == token);
    assert(state.lower_all(Seq::<SpecToken>::empty(), vocabulary) == Ok::<Lowering, SpecError>(
        state,
    ));
}

/// Lowering a keyword, then a body that compiles alone: the step of the
/// keyword, then the code of the body.
proof fn lemma_open_then_body(
    state: Lowering,
    name: Seq<char>,
    keyword: Keyword,
    body: Seq<SpecToken>,
    vocabulary: Vocabulary,
)
    requires
        keyword_of(name) == Some(keyword),
        state.lower_keyword(keyword) is Ok,
        compile_spec(body, vocabulary) is Ok,
    ensures
        state.lower_all(word(name) + body, vocabulary) == Ok::<Lowering, SpecError>(
            state.lower_keyword(keyword)->Ok_0.emit(compile_spec(body, vocabulary)->Ok_0),
        ),
{
    lemma_lower_one(state, SpecToken::Command(name), vocabulary);
    lemma_lower_all_concat(state, word(name), body, vocabulary);
    lemma_closed_sequence(state.lower_keyword(keyword)->Ok_0, body, vocabulary);
}

/// Lowering a keyword behind other tokens.
proof fn lemma_then_keyword(
    state: Lowering,
    before: Seq<SpecToken>,
    name: Seq<char>,
    keyword: Keyword,
    vocabulary: Vocabulary,
)
    requires
        keyword_of(name) == Some(keyword),
        state.lower_all(before, vocabulary) is Ok,
    ensures
        state.lower_all(before + word(name), vocabulary) == state.lower_all(
            before,
            vocabulary,
        )->Ok_0.lower_keyword(keyword),
{
    lemma_lower_all_concat(state, before, word(name), vocabulary);
    lemma_lower_one(
        state.lower_all(before, vocabulary)->Ok_0,
        SpecToken::Command(name),
        vocabulary,
    );
}

/// Lowering a body that compiles alone behind other tokens.
proof fn lemma_then_body(
    state: Lowering,
    before: Seq<SpecToken>,
    body: Seq<SpecToken>,
    vocabulary: Vocabulary,
)
    requires
        state.lower_all(before, vocabulary) is Ok,
        compile_spec(body, vocabulary) is Ok,
    ensures
        state.lower_all(before + body, vocabulary) == Ok::<Lowering, SpecError>(
            state.lower_all(before, vocabulary)->Ok_0.emit(compile_spec(body, vocabulary)->Ok_0),
        ),
{
    lemma_lower_all_concat(state, before, body, vocabulary);
    lemma_closed_sequence(state.lower_all(before, vocabulary)->Ok_0, body, vocabulary);
}

/// `IF a THEN` compiles to a jump pair that skips the code of `a` on zero,
/// and the code of `a`: the jump leads behind that code.
pub proof fn law_if_then(a: Seq<SpecToken>, vocabulary: Vocabulary)
    requires
        compile_spec(a, vocabulary) is Ok,
    ensures
        ({
            let code_a = compile_spec(a, vocabulary)->Ok_0;
            let code = seq![Opcode::LDI((code_a.len() as int + 1) as i64), Opcode::JRZ] + code_a;
            &&& compile_spec(word("IF"@) + a + word("THEN"@), vocabulary) == code_if(
                fits_i64(code_a.len() as int + 1),
                code,
            )
            &&& fits_i64(code_a.len() as int + 1) ==> jump_target(code, 0) == code.len()
        }),
{
    Keyword::lemma_spellings();
    let code_a = compile_spec(a, vocabulary)->Ok_0;
    let start = Lowering::start();
    lemma_open_then_body(start, "IF"@, Keyword::If, a, vocabulary);
    lemma_then_keyword(start, word("IF"@) + a, "THEN"@, Keyword::Then, vocabulary);
    let opened = start.open_if().emit(code_a);
    assert(opened.frames.last() == Frame::If { if_pos: 0, else_pos: None });
    if fits_i64(code_a.len() as int + 1) {
        let closed = opened.lower_then()->Ok_0;
        let code = seq![Opcode::LDI((code_a.len() as int + 1) as i64), Opcode::JRZ] + code_a;
        assert(closed.code =~= code);
        assert(closed.frames =~= Seq::<Frame>::empty());
    }
}

/// `IF a ELSE b THEN` compiles to a jump pair that skips on zero, the code of
/// `a`, a jump pair, and the code of `b`. On zero the first jump leads to the
/// code of `b`; behind the code of `a` the second jump leads behind the code
/// of `b`.
pub proof fn law_if_else_then(a: Seq<SpecToken>, b: Seq<SpecToken>, vocabulary: Vocabulary)
    requires
        compile_spec(a, vocabulary) is Ok,
        compile_spec(b, vocabulary) is Ok,
    ensures
        ({
            let code_a = compile_spec(a, vocabulary)->Ok_0;
            let code_b = compile_spec(b, vocabulary)->Ok_0;
            let fits = fits_i64(code_a.len() as int + 3) && fits_i64(code_b.len() as int + 1);
            let code = seq![Opcode::LDI((code_a.len() as int + 3) as i64), Opcode::JRZ] + code_a
                + seq![Opcode::LDI((code_b.len() as int + 1) as i64), Opcode::JR] + code_b;
            &&& compile_spec(
                word("IF"@) + a + word("ELSE"@) + b + word("THEN"@),
                vocabulary,
            ) == code_if(fits, code)
            &&& fits ==> jump_target(code, 0) == code_a.len() as int + 4
            &&& fits ==> jump_target(code, code_a.len() as int + 2) == code.len()
        }),
{
    Keyword::lemma_spellings();
    let code_a = compile_spec(a, vocabulary)->Ok_0;
    let code_b = compile_spec(b, vocabulary)->Ok_0;
    let start = Lowering::start();
    lemma_open_then_body(start, "IF"@, Keyword::If, a, vocabulary);
    lemma_then_keyword(start, word("IF"@) + a, "ELSE"@, Keyword::Else, vocabulary);
    let first = start.open_if().emit(code_a);
    assert(first.frames.last() == Frame::If { if_pos: 0, else_pos: None });
    let second = first.lower_else()->Ok_0;
    lemma_then_body(start, word("IF"@) + a + word("ELSE"@), b, vocabulary);
    lemma_then_keyword(
        start,
        word("IF"@) + a + word("ELSE"@) + b,
        "THEN"@,
        Keyword::Then,
        vocabulary,
    );
    let opened = second.emit(code_b);
    assert(opened.frames.last() == Frame::If {
        if_pos: 0,
        else_pos: Some(code_a.len() as int + 2),
    });
    let fits = fits_i64(code_a.len() as int + 3) && fits_i64(code_b.len() as int + 1);
    if fits {
        let closed = opened.lower_then()->Ok_0;
        let code = seq![Opcode::LDI((code_a.len() as int + 3) as i64), Opcode::JRZ] + code_a
            + seq![Opcode::LDI((code_b.len() as int + 1) as i64), Opcode::JR] + code_b;
        assert(closed.code =~= code);
        assert(closed.frames =~= Seq::<Frame>::empty());
    }
}

/// `BEGIN x AGAIN` compiles to the code of `x` and a jump pair that leads
/// back to the start of that code.
pub proof fn law_begin_again(x: Seq<SpecToken>, vocabulary: Vocabulary)
    requires
        compile_spec(x, vocabulary) is Ok,
    ensures
        ({
            let code_x = compile_spec(x, vocabulary)->Ok_0;
            let back = -(code_x.len() as int) - 1;
            let code = code_x + seq![Opcode::LDI(back as i64), Opcode::JR];
            &&& compile_spec(word("BEGIN"@) + x + word("AGAIN"@), vocabulary) == code_if(
                fits_i64(back),
                code,
            )
            &&& fits_i64(back) ==> jump_target(code, code_x.len() as int) == 0
        }),
{
    Keyword::lemma_spellings();
    let code_x = compile_spec(x, vocabulary)->Ok_0;
    let back = -(code_x.len() as int) - 1;
    let start = Lowering::start();
    lemma_open_then_body(start, "BEGIN"@, Keyword::Begin, x, vocabulary);
    lemma_then_keyword(start, word("BEGIN"@) + x, "AGAIN"@, Keyword::Again, vocabulary);
    let opened = start.open_begin().emit(code_x);
    assert(opened.code =~= code_x);
    assert(opened.frames.last() == Frame::BeginLoop { body_start: 0, exits: Seq::empty() });
    if fits_i64(back) {
        let closed = opened.close_loop(Keyword::Again)->Ok_0;
        assert(closed.code =~= code_x + seq![Opcode::LDI(back as i64), Opcode::JR]);
        assert(closed.frames =~= Seq::<Frame>::empty());
    }
}

/// `BEGIN x UNTIL` compiles to the code of `x` and a jump pair that, on zero,
/// leads back to the start of that code.
pub proof fn law_begin_until(x: Seq<SpecToken>, vocabulary: Vocabulary)
    requires
        compile_spec(x, vocabulary) is Ok,
    ensures
        ({
            let code_x = compile_spec(x, vocabulary)->Ok_0;
            let back = -(code_x.len() as int) - 1;
            let code = code_x + seq![Opcode::LDI(back as i64), Opcode::JRZ];
            &&& compile_spec(word("BEGIN"@) + x + word("UNTIL"@), vocabulary) == code_if(
                fits_i64(back),
                code,
            )
            &&& fits_i64(back) ==> jump_target(code, code_x.len() as int) == 0
        }),
{
    Keyword::lemma_spellings();
    let code_x = compile_spec(x, vocabulary)->Ok_0;
    let back = -(code_x.len() as int) - 1;
    let start = Lowering::start();
    lemma_open_then_body(start, "BEGIN"@, Keyword::Begin, x, vocabulary);
    lemma_then_keyword(start, word("BEGIN"@) + x, "UNTIL"@, Keyword::Until, vocabulary);
    let opened = start.open_begin().emit(code_x);
    assert(opened.code =~= code_x);
    assert(opened.frames.last() == Frame::BeginLoop { body_start: 0, exits: Seq::empty() });
    if fits_i64(back) {
        let closed = opened.close_loop(Keyword::Until)->Ok_0;
        assert(closed.code =~= code_x + seq![Opcode::LDI(back as i64), Opcode::JRZ]);
        assert(closed.frames =~= Seq::<Frame>::empty());
    }
}

/// `BEGIN x WHILE y REPEAT` compiles to the code of `x`, a jump pair that
/// leaves the loop on zero, the code of `y`, and a jump pair that leads back
/// to the start. The first jump leads behind the second.
pub proof fn law_begin_while_repeat(x: Seq<SpecToken>, y: Seq<SpecToken>, vocabulary: Vocabulary)
    requires
        compile_spec(x, vocabulary) is Ok,
        compile_spec(y, vocabulary) is Ok,
    ensures
        ({
            let code_x = compile_spec(x, vocabulary)->Ok_0;
            let code_y = compile_spec(y, vocabulary)->Ok_0;
            let out = code_y.len() as int + 3;
            let back = -(code_x.len() as int) - code_y.len() as int - 3;
            let code = code_x + seq![Opcode::LDI(out as i64), Opcode::JRZ] + code_y
                + seq![Opcode::LDI(back as i64), Opcode::JR];
            let fits = fits_i64(out) && fits_i64(back);
            &&& compile_spec(
                word("BEGIN"@) + x + word("WHILE"@) + y + word("REPEAT"@),
                vocabulary,
            ) == code_if(fits, code)
            &&& fits ==> jump_target(code, code_x.len() as int) == code.len()
            &&& fits ==> jump_target(code, code_x.len() as int + 2 + code_y.len() as int) == 0
        }),
{
    Keyword::lemma_spellings();
    let code_x = compile_spec(x, vocabulary)->Ok_0;
    let code_y = compile_spec(y, vocabulary)->Ok_0;
    let out = code_y.len() as int + 3;
    let back = -(code_x.len() as int) - code_y.len() as int - 3;
    let start = Lowering::start();
    lemma_open_then_body(start, "BEGIN"@, Keyword::Begin, x, vocabulary);
    lemma_then_keyword(start, word("BEGIN"@) + x, "WHILE"@, Keyword::While, vocabulary);
    let first = start.open_begin().emit(code_x);
    assert(first.code =~= code_x);
    assert(first.frames.last() == Frame::BeginLoop { body_start: 0, exits: Seq::empty() });
    let second = first.lower_while()->Ok_0;
    lemma_then_body(start, word("BEGIN"@) + x + word("WHILE"@), y, vocabulary);
    lemma_then_keyword(
        start,
        word("BEGIN"@) + x + word("WHILE"@) + y,
        "REPEAT"@,
        Keyword::Repeat,
        vocabulary,
    );
    let opened = second.emit(code_y);
    let exits = Seq::<int>::empty().push(code_x.len() as int);
    assert(opened.frames.last() == Frame::BeginLoop { body_start: 0, exits });
    assert(exits.len() == 1 && exits[0] == code_x.len() as int);
    let before = opened.code + seq![Opcode::LDI(back as i64), Opcode::JR];
    let end = before.len() as int;
    assert(end == code_x.len() + code_y.len() + 4);
    assert(crate::lowering::exits_fit(exits, end) == fits_i64(out)) by {
        assert(crate::lowering::jump_offset(exits[0], end) == out);
    }
    if fits_i64(out) && fits_i64(back) {
        let closed = opened.close_loop(Keyword::Repeat)->Ok_0;
        assert(closed.code == crate::lowering::patch_exits(before, exits, end));
        let code = code_x + seq![Opcode::LDI(out as i64), Opcode::JRZ] + code_y
            + seq![Opcode::LDI(back as i64), Opcode::JR];
        assert(closed.code.len() == code.len());
        assert forall|pos: int| 0 <= pos < code.len() implies closed.code[pos] == code[pos] by {
            if pos == code_x.len() as int {
                assert(exits[0] == pos);
                assert(exits.contains(pos));
            } else {
                assert(!exits.contains(pos));
            }
        }
        assert(closed.code =~= code);
        assert(closed.frames =~= Seq::<Frame>::empty());
    }
}

/// `DO b LOOP` compiles to the instruction that takes the bounds, the code
/// of `b`, the increment and the test of the counter, a jump pair that leads
/// back to the start of the code of `b` while the counter is below the
/// limit, and the instruction that drops the counter.
pub proof fn law_do_loop(b: Seq<SpecToken>, vocabulary: Vocabulary)
    requires
        compile_spec(b, vocabulary) is Ok,
    ensures
        ({
            let code_b = compile_spec(b, vocabulary)->Ok_0;
            let back = -(code_b.len() as int) - 3;
            let code = seq![Opcode::PUSHLP] + code_b + seq![
                Opcode::INCLP,
                Opcode::CMPLOOP,
                Opcode::LDI(back as i64),
                Opcode::JRZ,
                Opcode::DROPLP,
            ];
            &&& compile_spec(word("DO"@) + b + word("LOOP"@), vocabulary) == code_if(
                fits_i64(back),
                code,
            )
            &&& fits_i64(back) ==> jump_target(code, code_b.len() as int + 3) == 1
        }),
{
    Keyword::lemma_spellings();
    let code_b = compile_spec(b, vocabulary)->Ok_0;
    let back = -(code_b.len() as int) - 3;
    let start = Lowering::start();
    lemma_open_then_body(start, "DO"@, Keyword::Do, b, vocabulary);
    lemma_then_keyword(start, word("DO"@) + b, "LOOP"@, Keyword::Loop, vocabulary);
    let opened = start.open_do().emit(code_b);
    assert(opened.frames.last() == Frame::DoLoop {
        prelude_pos: 0,
        body_start: 1,
        exits: Seq::empty(),
    });
    if fits_i64(back) {
        let closed = opened.close_loop(Keyword::Loop)->Ok_0;
        let code = seq![Opcode::PUSHLP] + code_b + seq![
            Opcode::INCLP,
            Opcode::CMPLOOP,
            Opcode::LDI(back as i64),
            Opcode::JRZ,
            Opcode::DROPLP,
        ];
        assert(closed.code =~= code);
        assert(closed.frames =~= Seq::<Frame>::empty());
    }
}

/// `DO b +LOOP` compiles as `DO b LOOP` does, with the instruction that adds
/// the step from the number stack in place of the increment.
pub proof fn law_do_plus_loop(b: Seq<SpecToken>, vocabulary: Vocabulary)
    requires
        compile_spec(b, vocabulary) is Ok,
    ensures
        ({
            let code_b = compile_spec(b, vocabulary)->Ok_0;
            let back = -(code_b.len() as int) - 3;
            let code = seq![Opcode::PUSHLP] + code_b + seq![
                Opcode::ADDLP,
                Opcode::CMPLOOP,
                Opcode::LDI(back as i64),
                Opcode::JRZ,
                Opcode::DROPLP,
            ];
            &&& compile_spec(word("DO"@) + b + word("+LOOP"@), vocabulary) == code_if(
                fits_i64(back),
                code,
            )
            &&& fits_i64(back) ==> jump_target(code, code_b.len() as int + 3) == 1
        }),
{
    Keyword::lemma_spellings();
    let code_b = compile_spec(b, vocabulary)->Ok_0;
    let back = -(code_b.len() as int) - 3;
    let start = Lowering::start();
    lemma_open_then_body(start, "DO"@, Keyword::Do, b, vocabulary);
    lemma_then_keyword(start, word("DO"@) + b, "+LOOP"@, Keyword::PlusLoop, vocabulary);
    let opened = start.open_do().emit(code_b);
    assert(opened.frames.last() == Frame::DoLoop {
        prelude_pos: 0,
        body_start: 1,
        exits: Seq::empty(),
    });
    if fits_i64(back) {
        let closed = opened.close_loop(Keyword::PlusLoop)->Ok_0;
        let code = seq![Opcode::PUSHLP] + code_b + seq![
            Opcode::ADDLP,
            Opcode::CMPLOOP,
            Opcode::LDI(back as i64),
            Opcode::JRZ,
            Opcode::DROPLP,
        ];
        assert(closed.code =~= code);
        assert(closed.frames =~= Seq::<Frame>::empty());
    }
}

} // verus!
