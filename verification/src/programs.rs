//! Whole source texts: what a call compiles where the text holds a single
//! construct and no definition.

use crate::error::SpecError;
use crate::extract::Compilation;
use crate::extract::CompilerState;
use crate::laws::law_begin_again;
use crate::laws::law_begin_until;
use crate::laws::law_begin_while_repeat;
use crate::laws::law_do_loop;
use crate::laws::law_if_else_then;
use crate::laws::law_if_then;
use crate::laws::word;
use crate::lowering::compile_spec;
use crate::lowering::fits_i64;
use crate::lowering::jump_target;
use crate::opcode::Opcode;
use crate::token::SpecToken;
use vstd::prelude::*;

verus! {

/// Whether `tokens` holds neither a colon nor a semicolon.
pub open spec fn without_definitions(tokens: Seq<SpecToken>) -> bool {
    forall|i: int|
        0 <= i < tokens.len() ==> !(#[trigger] tokens[i] is Colon) && !(tokens[i] is SemiColon)
}

/// `code` closed by `RET`, as the code of a call is.
pub open spec fn closed(code: Seq<Opcode>) -> Seq<Opcode> {
    code.push(Opcode::RET)
}

proof fn lemma_extract_without_definitions(
    state: CompilerState,
    tokens: Seq<SpecToken>,
    tail: Seq<SpecToken>,
)
    requires
        without_definitions(tokens),
    ensures
        state.extract(tokens, tail).state == state,
        state.extract(tokens, tail).result == Ok::<Seq<SpecToken>, SpecError>(tail + tokens),
    decreases tokens.len(),
{
    if tokens.len() == 0 {
        assert(tail + tokens =~= tail);
    } else {
        assert(!(tokens[0] is Colon) && !(tokens[0] is SemiColon));
        let rest = tokens.drop_first();
        assert forall|i: int| 0 <= i < rest.len() implies !(#[trigger] rest[i] is Colon) && !(
        rest[i] is SemiColon) by {
            assert(rest[i] == tokens[i + 1]);
        }
        lemma_extract_without_definitions(state, rest, tail.push(tokens.first()));
        assert(tail.push(tokens.first()) + rest =~= tail + tokens);
    }
}

/// A source text without a definition installs nothing and compiles to the
/// code of its tokens, closed by `RET`; where the tokens do not compile, the
/// call fails with their error.
pub proof fn law_text_without_definitions(state: CompilerState, tokens: Seq<SpecToken>)
    requires
        without_definitions(tokens),
    ensures
        state.compile(tokens) == (Compilation {
            state,
            result: match compile_spec(tokens, state.vocabulary()) {
                Ok(code) => Ok(closed(code)),
                Err(err) => Err(err),
            },
        }),
{
    lemma_extract_without_definitions(state, tokens, Seq::empty());
    assert(Seq::<SpecToken>::empty() + tokens =~= tokens);
}

proof fn lemma_word_without_definitions(name: Seq<char>)
    ensures
        without_definitions(word(name)),
{
}

proof fn lemma_three(a: Seq<SpecToken>, b: Seq<SpecToken>, c: Seq<SpecToken>)
    requires
        without_definitions(a),
        without_definitions(b),
        without_definitions(c),
    ensures
        without_definitions(a + b + c),
{
    let all = a + b + c;
    assert forall|i: int| 0 <= i < all.len() implies !(#[trigger] all[i] is Colon) && !(
    all[i] is SemiColon) by {
        if i < a.len() {
            assert(all[i] == a[i]);
        } else if i < a.len() + b.len() {
            assert(all[i] == b[i - a.len()]);
        } else {
            assert(all[i] == c[i - a.len() - b.len()]);
        }
    }
}

/// The source text `BEGIN x AGAIN` compiles to the code of `x`, a jump pair
/// that leads back to the first instruction, and `RET`. The `LDI` loads
/// `-|x| - 1`, the offset from the `JR`; counted from the instruction behind
/// the `JR`, the jump leads back by `|x| + 2`.
pub proof fn law_begin_again_text(state: CompilerState, x: Seq<SpecToken>)
    requires
        without_definitions(x),
        compile_spec(x, state.vocabulary()) is Ok,
        fits_i64(-(compile_spec(x, state.vocabulary())->Ok_0.len() as int) - 1),
    ensures
        ({
            let code_x = compile_spec(x, state.vocabulary())->Ok_0;
            let code = closed(
                code_x + seq![Opcode::LDI((-(code_x.len() as int) - 1) as i64), Opcode::JR],
            );
            let jump = code_x.len() as int + 1;
            &&& state.compile(word("BEGIN"@) + x + word("AGAIN"@)) == (Compilation {
                state,
                result: Ok(code),
            })
            &&& jump_target(code, jump - 1) == 0
            &&& jump_target(code, jump - 1) - (jump + 1) == -(code_x.len() as int) - 2
        }),
{
    lemma_word_without_definitions("BEGIN"@);
    lemma_word_without_definitions("AGAIN"@);
    lemma_three(word("BEGIN"@), x, word("AGAIN"@));
    law_begin_again(x, state.vocabulary());
    law_text_without_definitions(state, word("BEGIN"@) + x + word("AGAIN"@));
}

/// The source text `BEGIN x UNTIL` compiles to the code of `x`, a jump pair
/// that leads back to the first instruction on zero, and `RET`.
pub proof fn law_begin_until_text(state: CompilerState, x: Seq<SpecToken>)
    requires
        without_definitions(x),
        compile_spec(x, state.vocabulary()) is Ok,
        fits_i64(-(compile_spec(x, state.vocabulary())->Ok_0.len() as int) - 1),
    ensures
        ({
            let code_x = compile_spec(x, state.vocabulary())->Ok_0;
            let code = closed(
                code_x + seq![Opcode::LDI((-(code_x.len() as int) - 1) as i64), Opcode::JRZ],
            );
            &&& state.compile(word("BEGIN"@) + x + word("UNTIL"@)) == (Compilation {
                state,
                result: Ok(code),
            })
            &&& jump_target(code, code_x.len() as int) == 0
        }),
{
    lemma_word_without_definitions("BEGIN"@);
    lemma_word_without_definitions("UNTIL"@);
    lemma_three(word("BEGIN"@), x, word("UNTIL"@));
    law_begin_until(x, state.vocabulary());
    law_text_without_definitions(state, word("BEGIN"@) + x + word("UNTIL"@));
}

/// The source text `BEGIN x WHILE y REPEAT` compiles to the code of `x`, a
/// jump pair that on zero leads to the closing `RET`, the code of `y`, a jump
/// pair that leads back to the first instruction, and `RET`.
pub proof fn law_begin_while_repeat_text(
    state: CompilerState,
    x: Seq<SpecToken>,
    y: Seq<SpecToken>,
)
    requires
        without_definitions(x),
        without_definitions(y),
        compile_spec(x, state.vocabulary()) is Ok,
        compile_spec(y, state.vocabulary()) is Ok,
        fits_i64(compile_spec(y, state.vocabulary())->Ok_0.len() as int + 3),
        fits_i64(
            -(compile_spec(x, state.vocabulary())->Ok_0.len() as int) - compile_spec(
                y,
                state.vocabulary(),
            )->Ok_0.len() as int - 3,
        ),
    ensures
        ({
            let code_x = compile_spec(x, state.vocabulary())->Ok_0;
            let code_y = compile_spec(y, state.vocabulary())->Ok_0;
            let out = code_y.len() as int + 3;
            let back = -(code_x.len() as int) - code_y.len() as int - 3;
            let code = closed(
                code_x + seq![Opcode::LDI(out as i64), Opcode::JRZ] + code_y + seq![
                    Opcode::LDI(back as i64),
                    Opcode::JR,
                ],
            );
            &&& state.compile(
                word("BEGIN"@) + x + word("WHILE"@) + y + word("REPEAT"@),
            ) == (Compilation { state, result: Ok(code) })
            &&& jump_target(code, code_x.len() as int) == code.len() - 1
            &&& code[code.len() - 1] == Opcode::RET
            &&& jump_target(code, code_x.len() as int + 2 + code_y.len() as int) == 0
        }),
{
    lemma_word_without_definitions("BEGIN"@);
    lemma_word_without_definitions("WHILE"@);
    lemma_word_without_definitions("REPEAT"@);
    lemma_three(word("BEGIN"@), x, word("WHILE"@));
    lemma_three(word("BEGIN"@) + x + word("WHILE"@), y, word("REPEAT"@));
    law_begin_while_repeat(x, y, state.vocabulary());
    law_text_without_definitions(
        state,
        word("BEGIN"@) + x + word("WHILE"@) + y + word("REPEAT"@),
    );
}

/// The source text `IF a THEN` compiles to a jump pair that on zero leads to
/// the closing `RET`, the code of `a`, and `RET`.
pub proof fn law_if_then_text(state: CompilerState, a: Seq<SpecToken>)
    requires
        without_definitions(a),
        compile_spec(a, state.vocabulary()) is Ok,
        fits_i64(compile_spec(a, state.vocabulary())->Ok_0.len() as int + 1),
    ensures
        ({
            let code_a = compile_spec(a, state.vocabulary())->Ok_0;
            let code = closed(
                seq![Opcode::LDI((code_a.len() as int + 1) as i64), Opcode::JRZ] + code_a,
            );
            &&& state.compile(word("IF"@) + a + word("THEN"@)) == (Compilation {
                state,
                result: Ok(code),
            })
            &&& jump_target(code, 0) == code.len() - 1
        }),
{
    lemma_word_without_definitions("IF"@);
    lemma_word_without_definitions("THEN"@);
    lemma_three(word("IF"@), a, word("THEN"@));
    law_if_then(a, state.vocabulary());
    law_text_without_definitions(state, word("IF"@) + a + word("THEN"@));
}

/// The source text `IF a ELSE b THEN` compiles to a jump pair that on zero
/// leads to the first instruction of `b`, the code of `a`, a jump pair that
/// leads to the closing `RET`, the code of `b`, and `RET`.
pub proof fn law_if_else_then_text(state: CompilerState, a: Seq<SpecToken>, b: Seq<SpecToken>)
    requires
        without_definitions(a),
        without_definitions(b),
        compile_spec(a, state.vocabulary()) is Ok,
        compile_spec(b, state.vocabulary()) is Ok,
        fits_i64(compile_spec(a, state.vocabulary())->Ok_0.len() as int + 3),
        fits_i64(compile_spec(b, state.vocabulary())->Ok_0.len() as int + 1),
    ensures
        ({
            let code_a = compile_spec(a, state.vocabulary())->Ok_0;
            let code_b = compile_spec(b, state.vocabulary())->Ok_0;
            let code = closed(
                seq![Opcode::LDI((code_a.len() as int + 3) as i64), Opcode::JRZ] + code_a + seq![
                    Opcode::LDI((code_b.len() as int + 1) as i64),
                    Opcode::JR,
                ] + code_b,
            );
            &&& state.compile(
                word("IF"@) + a + word("ELSE"@) + b + word("THEN"@),
            ) == (Compilation { state, result: Ok(code) })
            &&& jump_target(code, 0) == code_a.len() as int + 4
            &&& jump_target(code, code_a.len() as int + 2) == code.len() - 1
        }),
{
    lemma_word_without_definitions("IF"@);
    lemma_word_without_definitions("ELSE"@);
    lemma_word_without_definitions("THEN"@);
    lemma_three(word("IF"@), a, word("ELSE"@));
    lemma_three(word("IF"@) + a + word("ELSE"@), b, word("THEN"@));
    law_if_else_then(a, b, state.vocabulary());
    law_text_without_definitions(state, word("IF"@) + a + word("ELSE"@) + b + word("THEN"@));
}

/// The source text `DO b LOOP` compiles to the code of the counted loop and
/// `RET`: the jump pair leads back to the first instruction of `b`.
pub proof fn law_do_loop_text(state: CompilerState, b: Seq<SpecToken>)
    requires
        without_definitions(b),
        compile_spec(b, state.vocabulary()) is Ok,
        fits_i64(-(compile_spec(b, state.vocabulary())->Ok_0.len() as int) - 3),
    ensures
        ({
            let code_b = compile_spec(b, state.vocabulary())->Ok_0;
            let code = closed(
                seq![Opcode::PUSHLP] + code_b + seq![
                    Opcode::INCLP,
                    Opcode::CMPLOOP,
                    Opcode::LDI((-(code_b.len() as int) - 3) as i64),
                    Opcode::JRZ,
                    Opcode::DROPLP,
                ],
            );
            &&& state.compile(word("DO"@) + b + word("LOOP"@)) == (Compilation {
                state,
                result: Ok(code),
            })
            &&& jump_target(code, code_b.len() as int + 3) == 1
        }),
{
    lemma_word_without_definitions("DO"@);
    lemma_word_without_definitions("LOOP"@);
    lemma_three(word("DO"@), b, word("LOOP"@));
    law_do_loop(b, state.vocabulary());
    law_text_without_definitions(state, word("DO"@) + b + word("LOOP"@));
}

} // verus!
