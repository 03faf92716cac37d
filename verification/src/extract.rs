//! What the compiler holds between two calls, and what a source text does to
//! it: each `: name … ;` installs a word behind the words installed before,
//! and what stands outside the definitions is compiled, when all of them are
//! installed, to the code that the call runs.

use crate::error::SpecError;
use crate::lowering::compile_spec;
use crate::lowering::plain_intrinsics;
use crate::lowering::Vocabulary;
use crate::machine::resized;
use crate::opcode::Opcode;
use crate::token::SpecToken;
use vstd::prelude::*;

verus! {

/// The sum of the lengths of `bodies`.
pub open spec fn total_length(bodies: Seq<Seq<Opcode>>) -> int
    decreases bodies.len(),
{
    if bodies.len() == 0 {
        0
    } else {
        total_length(bodies.drop_last()) + bodies.last().len()
    }
}

/// The number of tokens that stand before the first semicolon of `tokens`,
/// or the length of `tokens` where it holds none.
pub open spec fn body_length(tokens: Seq<SpecToken>) -> nat
    decreases tokens.len(),
{
    if tokens.len() == 0 || tokens.first() is SemiColon {
        0
    } else {
        1 + body_length(tokens.drop_first())
    }
}

/// The highest address that a word can end at: it fits the operand of `LDI`
/// and an index of the code memory.
pub open spec fn max_address() -> int {
    if usize::MAX <= i64::MAX {
        usize::MAX as int
    } else {
        i64::MAX as int
    }
}

/// The built-in words of a compiler made by `new`.
pub open spec fn basic_intrinsics() -> Map<Seq<char>, Seq<Opcode>> {
    Map::<Seq<char>, Seq<Opcode>>::empty().insert("POP"@, seq![Opcode::DROP]).insert(
        "SWAP"@,
        seq![Opcode::SWAP],
    ).insert("ADD"@, seq![Opcode::ADD]).insert("SUB"@, seq![Opcode::SUB]).insert(
        "MUL"@,
        seq![Opcode::MUL],
    ).insert("DIV"@, seq![Opcode::DIV]).insert("DUP"@, seq![Opcode::DUP]).insert(
        "TRAP"@,
        seq![Opcode::TRAP],
    ).insert("INC"@, seq![Opcode::LDI(1), Opcode::ADD]).insert(
        "DEC"@,
        seq![Opcode::LDI(-1i64), Opcode::ADD],
    )
}

/// The built-in words of a compiler made by `default`: the full table, with
/// the words that read the counters of the counted loops. `=` and `<>` leave
/// -1 for true and 0 for false.
pub open spec fn full_intrinsics() -> Map<Seq<char>, Seq<Opcode>> {
    Map::<Seq<char>, Seq<Opcode>>::empty().insert("POP"@, seq![Opcode::DROP]).insert(
        "DROP"@,
        seq![Opcode::DROP],
    ).insert("2DROP"@, seq![Opcode::DROP, Opcode::DROP]).insert(
        "SWAP"@,
        seq![Opcode::SWAP],
    ).insert("2SWAP"@, seq![Opcode::SWAP2]).insert("2OVER"@, seq![Opcode::OVER2]).insert(
        "DUP"@,
        seq![Opcode::DUP],
    ).insert("2DUP"@, seq![Opcode::DUP2]).insert("NOT"@, seq![Opcode::NOT]).insert(
        "ADD"@,
        seq![Opcode::ADD],
    ).insert("SUB"@, seq![Opcode::SUB]).insert("MUL"@, seq![Opcode::MUL]).insert(
        "DIV"@,
        seq![Opcode::DIV],
    ).insert("="@, seq![Opcode::SUB, Opcode::CMPZ]).insert(
        "<>"@,
        seq![Opcode::SUB, Opcode::CMPNZ],
    ).insert("1+"@, seq![Opcode::LDI(1), Opcode::ADD]).insert(
        "1-"@,
        seq![Opcode::LDI(-1i64), Opcode::ADD],
    ).insert("2+"@, seq![Opcode::LDI(2), Opcode::ADD]).insert(
        "2-"@,
        seq![Opcode::LDI(-2i64), Opcode::ADD],
    ).insert("2*"@, seq![Opcode::LDI(2), Opcode::MUL]).insert(
        "2/"@,
        seq![Opcode::LDI(2), Opcode::DIV],
    ).insert("I"@, seq![Opcode::GETLP]).insert("J"@, seq![Opcode::GETLP2]).insert(
        "TRAP"@,
        seq![Opcode::TRAP],
    )
}

/// A compiler as the contracts see it.
pub struct CompilerState {
    /// The code memory of the machine.
    pub memory: Seq<Opcode>,
    /// The number stack of the machine, bottom first.
    pub numbers: Seq<i64>,
    /// The address behind the last installed word.
    pub frontier: int,
    /// The user's words, each with the address of its code.
    pub words: Map<Seq<char>, usize>,
    /// The built-in words, each with the code it expands to.
    pub intrinsics: Map<Seq<char>, Seq<Opcode>>,
    /// The code of every word installed so far, oldest first, each with its
    /// closing `RET`.
    pub installed: Seq<Seq<Opcode>>,
}

/// A compiler after an attempt to install a word, and how the attempt ended.
pub struct Installation {
    pub state: CompilerState,
    pub result: Result<(), SpecError>,
}

/// A compiler after its definitions were taken out of a token sequence, and
/// the tokens that stood outside of them.
pub struct Extraction {
    pub state: CompilerState,
    pub result: Result<Seq<SpecToken>, SpecError>,
}

/// A compiler after a token sequence was compiled, and the code to run.
pub struct Compilation {
    pub state: CompilerState,
    pub result: Result<Seq<Opcode>, SpecError>,
}

impl CompilerState {
    pub open spec fn vocabulary(self) -> Vocabulary {
        Vocabulary { words: self.words, intrinsics: self.intrinsics }
    }

    /// A compiler that has no word yet and whose code memory is empty.
    pub open spec fn fresh(intrinsics: Map<Seq<char>, Seq<Opcode>>) -> CompilerState {
        CompilerState {
            memory: Seq::empty(),
            numbers: Seq::empty(),
            frontier: 0,
            words: Map::empty(),
            intrinsics,
            installed: Seq::empty(),
        }
    }

    /// The frontier is the sum of the lengths of the installed words and
    /// does not pass the highest address, every word lies below it, and no
    /// intrinsic holds a jump or a call of its own.
    pub open spec fn wf(self) -> bool {
        &&& 0 <= self.frontier <= max_address()
        &&& plain_intrinsics(self.intrinsics)
        &&& self.frontier == total_length(self.installed)
        &&& forall|name: Seq<char>| #[trigger]
            self.words.contains_key(name) ==> self.words[name] < self.frontier
    }

    /// The state with the code memory cut back, or filled up, to the frontier.
    pub open spec fn trimmed(self) -> CompilerState {
        CompilerState { memory: resized(self.memory, self.frontier), ..self }
    }

    /// Installs `name` with the code of `body`: the memory is trimmed to the
    /// frontier, the code and its `RET` are appended there, the name is bound
    /// to the old frontier, and the frontier moves behind the new code. Where
    /// the body does not compile, or the new frontier would not fit the
    /// operand of `LDI`, only the trimming has happened.
    pub open spec fn install(self, name: Seq<char>, body: Seq<SpecToken>) -> Installation {
        match compile_spec(body, self.vocabulary()) {
            Err(err) => Installation { state: self.trimmed(), result: Err(err) },
            Ok(code) => {
                let compiled = code.push(Opcode::RET);
                if self.frontier + compiled.len() <= max_address() {
                    Installation {
                        state: CompilerState {
                            memory: self.trimmed().memory + compiled,
                            numbers: self.numbers,
                            frontier: self.frontier + compiled.len(),
                            words: self.words.insert(name, self.frontier as usize),
                            intrinsics: self.intrinsics,
                            installed: self.installed.push(compiled),
                        },
                        result: Ok(()),
                    }
                } else {
                    Installation {
                        state: self.trimmed(),
                        result: Err(SpecError::InternalNumericOverflow),
                    }
                }
            },
        }
    }

    /// Takes the definitions out of `tokens`, installing each at its
    /// semicolon, and collects the other tokens behind `tail`. The first
    /// error ends the work and leaves installed what was installed before.
    pub open spec fn extract(self, tokens: Seq<SpecToken>, tail: Seq<SpecToken>) -> Extraction
        decreases tokens.len(),
    {
        if tokens.len() == 0 {
            Extraction { state: self, result: Ok(tail) }
        } else {
            match tokens.first() {
                SpecToken::Colon => {
                    if tokens.len() >= 2 && tokens[1] is Command {
                        let rest = tokens.skip(2);
                        let length = body_length(rest);
                        if length < rest.len() {
                            let installation = self.install(
                                tokens[1]->Command_0,
                                rest.take(length as int),
                            );
                            match installation.result {
                                Ok(_) => installation.state.extract(
                                    rest.skip(length as int + 1),
                                    tail,
                                ),
                                Err(err) => Extraction {
                                    state: installation.state,
                                    result: Err(err),
                                },
                            }
                        } else {
                            Extraction {
                                state: self,
                                result: Err(SpecError::MissingSemicolonAfterColon),
                            }
                        }
                    } else {
                        Extraction { state: self, result: Err(SpecError::MissingCommandAfterColon) }
                    }
                },
                SpecToken::SemiColon => Extraction {
                    state: self,
                    result: Err(SpecError::SemicolonBeforeColon),
                },
                token => self.extract(tokens.drop_first(), tail.push(token)),
            }
        }
    }

    /// Compiles a token sequence: installs its definitions, then compiles
    /// what stands outside of them, with every word of the sequence known,
    /// and closes that code with `RET`.
    pub open spec fn compile(self, tokens: Seq<SpecToken>) -> Compilation {
        let extraction = self.extract(tokens, Seq::empty());
        match extraction.result {
            Err(err) => Compilation { state: extraction.state, result: Err(err) },
            Ok(tail) => match compile_spec(tail, extraction.state.vocabulary()) {
                Err(err) => Compilation { state: extraction.state, result: Err(err) },
                Ok(code) => Compilation {
                    state: extraction.state,
                    result: Ok(code.push(Opcode::RET)),
                },
            },
        }
    }

    /// The state with `program` in the code memory behind the frontier.
    pub open spec fn loaded(self, program: Seq<Opcode>) -> CompilerState {
        CompilerState { memory: self.trimmed().memory + program, ..self }
    }

    /// Compiles a token sequence and puts its code behind the frontier, where
    /// the machine is to start.
    pub open spec fn load(self, tokens: Seq<SpecToken>) -> Compilation {
        let compilation = self.compile(tokens);
        match compilation.result {
            Err(err) => compilation,
            Ok(program) => Compilation {
                state: compilation.state.loaded(program),
                result: Ok(program),
            },
        }
    }
}

/// Neither table of intrinsics holds a jump or a call.
pub proof fn lemma_tables_are_plain()
    ensures
        plain_intrinsics(basic_intrinsics()),
        plain_intrinsics(full_intrinsics()),
{
}

/// To install a word keeps a compiler well formed.
pub proof fn lemma_install_wf(state: CompilerState, name: Seq<char>, body: Seq<SpecToken>)
    requires
        state.wf(),
    ensures
        state.install(name, body).state.wf(),
{
    let after = state.install(name, body).state;
    if state.install(name, body).result is Ok {
        let compiled = compile_spec(body, state.vocabulary())->Ok_0.push(Opcode::RET);
        assert(after.installed.drop_last() == state.installed);
    }
}

/// The tokens before the first semicolon are those up to the first position
/// that holds one.
pub proof fn lemma_body_length(tokens: Seq<SpecToken>, n: int)
    requires
        0 <= n <= tokens.len(),
        forall|k: int| 0 <= k < n ==> !(#[trigger] tokens[k] is SemiColon),
        n == tokens.len() || tokens[n] is SemiColon,
    ensures
        body_length(tokens) == n,
    decreases tokens.len(),
{
    if n > 0 {
        assert(!(tokens[0] is SemiColon));
        let rest = tokens.drop_first();
        assert forall|k: int| 0 <= k < n - 1 implies !(#[trigger] rest[k] is SemiColon) by {
            assert(rest[k] == tokens[k + 1]);
        }
        lemma_body_length(rest, n - 1);
    }
}

} // verus!
