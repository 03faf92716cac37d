//! What holds of the dictionary and of the frontier, whatever the calls.

use crate::error::SpecError;
use crate::extract::lemma_install_wf;
use crate::extract::total_length;
use crate::extract::CompilerState;
use crate::keyword::keyword_of;
use crate::laws::lemma_lower_one;
use crate::lowering::compile_spec;
use crate::lowering::Lowering;
use crate::lowering::Vocabulary;
use crate::machine::resized;
use crate::opcode::Opcode;
use crate::token::SpecToken;
use vstd::prelude::*;

verus! {

/// Code that compiles leaves no construct pending.
pub proof fn law_nothing_pending(tokens: Seq<SpecToken>, vocabulary: Vocabulary)
    requires
        compile_spec(tokens, vocabulary) is Ok,
    ensures
        Lowering::start().lower_all(tokens, vocabulary) is Ok,
        Lowering::start().lower_all(tokens, vocabulary)->Ok_0.frames.len() == 0,
        Lowering::start().lower_all(tokens, vocabulary)->Ok_0.code == compile_spec(
            tokens,
            vocabulary,
        )->Ok_0,
{
}

/// To take the definitions out of a token sequence keeps a compiler well
/// formed, never moves the frontier back and leaves the intrinsics and the
/// number stack alone.
pub proof fn lemma_extract_wf(state: CompilerState, tokens: Seq<SpecToken>, tail: Seq<SpecToken>)
    requires
        state.wf(),
    ensures
        state.extract(tokens, tail).state.wf(),
        state.extract(tokens, tail).state.frontier >= state.frontier,
        state.extract(tokens, tail).state.intrinsics == state.intrinsics,
        state.extract(tokens, tail).state.numbers == state.numbers,
    decreases tokens.len(),
{
    if tokens.len() > 0 {
        match tokens.first() {
            SpecToken::Colon => {
                if tokens.len() >= 2 && tokens[1] is Command {
                    let rest = tokens.skip(2);
                    let length = crate::extract::body_length(rest);
                    if length < rest.len() {
                        let name = tokens[1]->Command_0;
                        let installation = state.install(name, rest.take(length as int));
                        lemma_install_wf(state, name, rest.take(length as int));
                        if installation.result is Ok {
                            lemma_extract_wf(
                                installation.state,
                                rest.skip(length as int + 1),
                                tail,
                            );
                        }
                    }
                }
            },
            SpecToken::SemiColon => {},
            token => {
                lemma_extract_wf(state, tokens.drop_first(), tail.push(token));
            },
        }
    }
}

/// After every call, failed or not, the frontier is the sum of the lengths
/// of the installed words, every word lies below the frontier, and the
/// frontier has not moved back. To compile and to load does not touch the
/// number stack: the machine starts on the numbers that the call found.
pub proof fn law_call_keeps_invariant(state: CompilerState, tokens: Seq<SpecToken>)
    requires
        state.wf(),
    ensures
        state.load(tokens).state.wf(),
        state.load(tokens).state.frontier == total_length(state.load(tokens).state.installed),
        state.load(tokens).state.frontier >= state.frontier,
        state.load(tokens).state.frontier == state.compile(tokens).state.frontier,
        state.load(tokens).state.numbers == state.numbers,
        state.load(tokens).result is Ok ==> state.load(tokens).state.memory.len()
            == state.load(tokens).state.frontier + state.load(tokens).result->Ok_0.len(),
{
    lemma_extract_wf(state, tokens, Seq::empty());
}

/// To install a word succeeds exactly when its body compiles and the word
/// ends at or below the highest address. The frontier then moves by the
/// length of the code and its `RET`, the name is bound to the old frontier,
/// and the code memory is the old memory up to the old frontier, then the
/// code, then `RET`.
pub proof fn law_install(state: CompilerState, name: Seq<char>, body: Seq<SpecToken>)
    requires
        state.wf(),
    ensures
        state.install(name, body).result is Ok <==> compile_spec(body, state.vocabulary()) is Ok
            && state.frontier + compile_spec(body, state.vocabulary())->Ok_0.len() + 1
            <= crate::extract::max_address(),
        state.install(name, body).result is Ok ==> ({
            let after = state.install(name, body).state;
            let code = compile_spec(body, state.vocabulary())->Ok_0.push(Opcode::RET);
            &&& after.frontier == state.frontier + code.len()
            &&& after.words == state.words.insert(name, state.frontier as usize)
            &&& after.words[name] == state.frontier
            &&& after.installed == state.installed.push(code)
            &&& after.memory.len() == after.frontier
            &&& after.memory.subrange(state.frontier, after.frontier) == code
            &&& state.frontier <= state.memory.len() ==> after.memory == state.memory.take(
                state.frontier,
            ) + code
        }),
        state.install(name, body).result is Err ==> state.install(name, body).state
            == state.trimmed(),
{
    if state.install(name, body).result is Ok {
        let after = state.install(name, body).state;
        let code = compile_spec(body, state.vocabulary())->Ok_0.push(Opcode::RET);
        assert(after.memory.subrange(state.frontier, after.frontier) =~= code);
    }
}

proof fn lemma_extract_memory(state: CompilerState, tokens: Seq<SpecToken>, tail: Seq<SpecToken>)
    requires
        state.wf(),
        state.frontier <= state.memory.len(),
    ensures
        state.extract(tokens, tail).state.frontier <= state.extract(
            tokens,
            tail,
        ).state.memory.len(),
    decreases tokens.len(),
{
    if tokens.len() > 0 {
        match tokens.first() {
            SpecToken::Colon => {
                if tokens.len() >= 2 && tokens[1] is Command {
                    let rest = tokens.skip(2);
                    let length = crate::extract::body_length(rest);
                    if length < rest.len() {
                        let name = tokens[1]->Command_0;
                        let installation = state.install(name, rest.take(length as int));
                        lemma_install_wf(state, name, rest.take(length as int));
                        if installation.result is Ok {
                            lemma_extract_memory(
                                installation.state,
                                rest.skip(length as int + 1),
                                tail,
                            );
                        }
                    }
                }
            },
            SpecToken::SemiColon => {},
            token => {
                lemma_extract_memory(state, tokens.drop_first(), tail.push(token));
            },
        }
    }
}

/// The frontier never passes the end of the code memory: where it lies
/// inside the memory before a call, it does so after the call, failed or
/// not.
pub proof fn law_frontier_within_memory(state: CompilerState, tokens: Seq<SpecToken>)
    requires
        state.wf(),
        state.frontier <= state.memory.len(),
    ensures
        state.compile(tokens).state.frontier <= state.compile(tokens).state.memory.len(),
        state.load(tokens).state.frontier <= state.load(tokens).state.memory.len(),
{
    lemma_extract_memory(state, tokens, Seq::empty());
}

/// Source text without a colon installs nothing: compiling it leaves the
/// compiler as it was. Only the semicolon of a definition moves the
/// frontier.
pub proof fn law_frontier_moves_only_at_definitions(
    state: CompilerState,
    tokens: Seq<SpecToken>,
)
    requires
        forall|i: int| 0 <= i < tokens.len() ==> !(#[trigger] tokens[i] is Colon),
    ensures
        state.compile(tokens).state == state,
{
    lemma_extract_without_colon(state, tokens, Seq::empty());
}

proof fn lemma_extract_without_colon(
    state: CompilerState,
    tokens: Seq<SpecToken>,
    tail: Seq<SpecToken>,
)
    requires
        forall|i: int| 0 <= i < tokens.len() ==> !(#[trigger] tokens[i] is Colon),
    ensures
        state.extract(tokens, tail).state == state,
    decreases tokens.len(),
{
    if tokens.len() > 0 {
        assert(!(tokens[0] is Colon));
        if !(tokens.first() is SemiColon) {
            let rest = tokens.drop_first();
            assert forall|i: int| 0 <= i < rest.len() implies !(#[trigger] rest[i] is Colon) by {
                assert(rest[i] == tokens[i + 1]);
            }
            lemma_extract_without_colon(state, rest, tail.push(tokens.first()));
        }
    }
}

/// A name resolves to its most recent definition: once a word is installed,
/// a command of its name compiles to the call of the address at which that
/// word was put, whatever the name stood for before; every other name
/// stands for what it stood for before.
pub proof fn law_latest_definition_wins(
    state: CompilerState,
    name: Seq<char>,
    body: Seq<SpecToken>,
)
    requires
        state.wf(),
        keyword_of(name) is None,
        state.install(name, body).result is Ok,
    ensures
        compile_spec(seq![SpecToken::Command(name)], state.install(name, body).state.vocabulary())
            == Ok::<Seq<Opcode>, SpecError>(
            seq![Opcode::LDI(state.frontier as i64), Opcode::CALL],
        ),
        forall|other: Seq<char>|
            other != name ==> (#[trigger] state.install(name, body).state.words.contains_key(other)
                == state.words.contains_key(other)) && state.install(
                name,
                body,
            ).state.words[other] == state.words[other],
{
    let after = state.install(name, body).state;
    let token = SpecToken::Command(name);
    lemma_lower_one(Lowering::start(), token, after.vocabulary());
    assert(after.words.contains_key(name));
    assert(after.words[name] == state.frontier as usize);
    let lowered = Lowering::start().lower_token(token, after.vocabulary())->Ok_0;
    assert(lowered.code =~= seq![Opcode::LDI(state.frontier as i64), Opcode::CALL]);
}

/// A definition is known to the rest of its source text: behind `: name
/// body ;` a command of that name compiles to the call of the word just
/// installed, and the call is the code that the source text runs.
pub proof fn law_definition_is_known_to_its_source(
    state: CompilerState,
    name: Seq<char>,
    body: Seq<SpecToken>,
)
    requires
        state.wf(),
        keyword_of(name) is None,
        forall|i: int| 0 <= i < body.len() ==> !(#[trigger] body[i] is SemiColon),
        state.install(name, body).result is Ok,
    ensures
        ({
            let source = seq![SpecToken::Colon, SpecToken::Command(name)] + body + seq![
                SpecToken::SemiColon,
                SpecToken::Command(name),
            ];
            &&& state.compile(source).state == state.install(name, body).state
            &&& state.compile(source).result == Ok::<Seq<Opcode>, SpecError>(
                seq![Opcode::LDI(state.frontier as i64), Opcode::CALL, Opcode::RET],
            )
        }),
{
    let call = SpecToken::Command(name);
    let source = seq![SpecToken::Colon, call] + body + seq![SpecToken::SemiColon, call];
    let rest = source.skip(2);
    assert(rest =~= body + seq![SpecToken::SemiColon, call]);
    assert forall|k: int| 0 <= k < body.len() implies !(#[trigger] rest[k] is SemiColon) by {
        assert(rest[k] == body[k]);
    }
    crate::extract::lemma_body_length(rest, body.len() as int);
    assert(rest.take(body.len() as int) =~= body);
    let behind = rest.skip(body.len() as int + 1);
    assert(behind =~= seq![call]);
    let after = state.install(name, body).state;
    let empty = Seq::<SpecToken>::empty();
    assert(behind.drop_first() =~= empty);
    assert(after.extract(empty, empty.push(call)).result == Ok::<Seq<SpecToken>, SpecError>(
        empty.push(call),
    ));
    assert(after.extract(behind, empty) == after.extract(empty, empty.push(call)));
    assert(state.extract(source, empty) == after.extract(behind, empty));
    assert(empty.push(call) =~= seq![call]);
    law_latest_definition_wins(state, name, body);
    assert(seq![Opcode::LDI(state.frontier as i64), Opcode::CALL].push(Opcode::RET) =~= seq![
        Opcode::LDI(state.frontier as i64),
        Opcode::CALL,
        Opcode::RET,
    ]);
}

/// Whether two compilers agree on all that a call reads: the dictionary, the
/// number stack and the code memory below the frontier.
pub open spec fn alike(first: CompilerState, second: CompilerState) -> bool {
    first.trimmed() == second.trimmed()
}

proof fn lemma_extract_alike(
    first: CompilerState,
    second: CompilerState,
    tokens: Seq<SpecToken>,
    tail: Seq<SpecToken>,
)
    requires
        alike(first, second),
    ensures
        first.extract(tokens, tail).result == second.extract(tokens, tail).result,
        alike(first.extract(tokens, tail).state, second.extract(tokens, tail).state),
    decreases tokens.len(),
{
    if tokens.len() > 0 {
        match tokens.first() {
            SpecToken::Colon => {
                if tokens.len() >= 2 && tokens[1] is Command {
                    let rest = tokens.skip(2);
                    let length = crate::extract::body_length(rest);
                    if length < rest.len() {
                        let name = tokens[1]->Command_0;
                        let body = rest.take(length as int);
                        assert(first.vocabulary() == second.vocabulary());
                        assert(first.install(name, body).state == second.install(
                            name,
                            body,
                        ).state);
                        if first.install(name, body).result is Ok {
                            lemma_extract_alike(
                                first.install(name, body).state,
                                second.install(name, body).state,
                                rest.skip(length as int + 1),
                                tail,
                            );
                        }
                    }
                }
            },
            SpecToken::SemiColon => {},
            token => {
                lemma_extract_alike(first, second, tokens.drop_first(), tail.push(token));
            },
        }
    }
}

/// Two calls with the same source text on compilers that are alike end
/// alike: with the same result, the same dictionary and number stack, and,
/// where the text compiles, the same code memory and the same address at
/// which the machine is to start. What an earlier call has left behind the
/// frontier does not matter.
pub proof fn law_equal_calls_load_equal_code(
    first: CompilerState,
    second: CompilerState,
    tokens: Seq<SpecToken>,
)
    requires
        alike(first, second),
    ensures
        first.load(tokens).result == second.load(tokens).result,
        alike(first.load(tokens).state, second.load(tokens).state),
        first.load(tokens).result is Ok ==> first.load(tokens).state == second.load(tokens).state,
{
    lemma_extract_alike(first, second, tokens, Seq::empty());
    let a = first.compile(tokens).state;
    let b = second.compile(tokens).state;
    assert(a.vocabulary() == b.vocabulary());
    if first.load(tokens).result is Ok {
        let program = first.load(tokens).result->Ok_0;
        let loaded = a.loaded(program);
        assert(loaded.frontier >= 0 ==> resized(loaded.memory, loaded.frontier) =~= resized(
            a.memory,
            a.frontier,
        ));
    }
}

/// The code of a call leaves no lasting trace: to load a program behind the
/// frontier cuts away what an earlier call has loaded there, so to load the
/// same program again gives the same code memory.
pub proof fn law_loaded_code_is_replaced(
    state: CompilerState,
    earlier: Seq<Opcode>,
    program: Seq<Opcode>,
)
    requires
        0 <= state.frontier,
    ensures
        state.loaded(earlier).loaded(program) == state.loaded(program),
        state.loaded(program).loaded(program) == state.loaded(program),
        state.loaded(program).memory.len() == state.frontier + program.len(),
        state.loaded(program).memory.subrange(
            state.frontier,
            state.frontier + program.len(),
        ) == program,
{
    let first = state.loaded(earlier);
    assert(resized(first.memory, state.frontier) =~= resized(state.memory, state.frontier));
    let again = state.loaded(program);
    assert(resized(again.memory, state.frontier) =~= resized(state.memory, state.frontier));
    assert(again.memory.subrange(state.frontier, state.frontier + program.len()) =~= program);
}

} // verus!
