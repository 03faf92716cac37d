//! The compiler: a dictionary of words, a table of intrinsics, and the stack
//! machine whose code memory holds the installed words.

use crate::compile::compile_tokens;
use crate::compile::intrinsics_of;
use crate::error::ForthError;
use crate::extract::basic_intrinsics;
use crate::extract::body_length;
use crate::extract::full_intrinsics;
use crate::extract::lemma_body_length;
use crate::extract::lemma_install_wf;
use crate::extract::CompilerState;
use crate::lowering::compile_spec;
use crate::machine::append_code;
use crate::machine::code_of;
use crate::machine::new_machine;
use crate::machine::numbers_of;
use crate::machine::resize_code;
use crate::opcode::Opcode;
use crate::token::handed;
use crate::token::tokenize_string;
use crate::token::tokens_of;
use crate::token::SpecToken;
use crate::token::Token;
use rust_simple_stack_processor::StackMachine;
use vstd::hash_map::StringHashMap;
use vstd::prelude::*;
use vstd::slice::slice_subrange;

verus! {

/// A compiler together with the machine it drives.
pub struct ForthCompiler {
    /// The machine that runs the compiled code.
    pub sm: StackMachine,
    /// The words that are known from the start, each with the code it
    /// expands to.
    intrinsic_words: StringHashMap<Vec<Opcode>>,
    /// Where the code of each installed word starts in the machine's code
    /// memory.
    word_addresses: StringHashMap<usize>,
    /// The address behind the last installed word: where the code of one call
    /// is put and run, to be overwritten by the next.
    last_function: usize,
    /// The code of every word installed so far.
    installed: Ghost<Seq<Seq<Opcode>>>,
}

impl View for ForthCompiler {
    type V = CompilerState;

    closed spec fn view(&self) -> CompilerState {
        CompilerState {
            memory: code_of(self.sm),
            numbers: numbers_of(self.sm),
            frontier: self.last_function as int,
            words: self.word_addresses@,
            intrinsics: intrinsics_of(self.intrinsic_words),
            installed: self.installed@,
        }
    }
}

/// Adds one intrinsic to a table.
fn add_intrinsic(table: &mut StringHashMap<Vec<Opcode>>, name: &str, code: Vec<Opcode>)
    ensures
        intrinsics_of(*final(table)) == intrinsics_of(*old(table)).insert(name@, code@),
{
    table.insert(String::from_str(name), code);
    assert(intrinsics_of(*table) =~= intrinsics_of(*old(table)).insert(name@, code@));
}

fn one(op: Opcode) -> (code: Vec<Opcode>)
    ensures
        code@ == seq![op],
{
    let mut code = Vec::new();
    code.push(op);
    assert(code@ =~= seq![op]);
    code
}

fn two(first: Opcode, second: Opcode) -> (code: Vec<Opcode>)
    ensures
        code@ == seq![first, second],
{
    let mut code = Vec::new();
    code.push(first);
    code.push(second);
    assert(code@ =~= seq![first, second]);
    code
}

impl ForthCompiler {
    /// The invariant that every operation keeps.
    pub open spec fn wf(&self) -> bool {
        self@.wf()
    }

    /// A compiler with an empty dictionary and the basic intrinsics.
    pub fn new() -> (fc: ForthCompiler)
        ensures
            fc@ == CompilerState::fresh(basic_intrinsics()),
            fc.wf(),
    {
        let mut intrinsic_words = StringHashMap::new();
        assert(intrinsics_of(intrinsic_words) =~= Map::<Seq<char>, Seq<Opcode>>::empty());
        proof {
            crate::extract::lemma_tables_are_plain();
        }
        add_intrinsic(&mut intrinsic_words, "POP", one(Opcode::DROP));
        add_intrinsic(&mut intrinsic_words, "SWAP", one(Opcode::SWAP));
        add_intrinsic(&mut intrinsic_words, "ADD", one(Opcode::ADD));
        add_intrinsic(&mut intrinsic_words, "SUB", one(Opcode::SUB));
        add_intrinsic(&mut intrinsic_words, "MUL", one(Opcode::MUL));
        add_intrinsic(&mut intrinsic_words, "DIV", one(Opcode::DIV));
        add_intrinsic(&mut intrinsic_words, "DUP", one(Opcode::DUP));
        add_intrinsic(&mut intrinsic_words, "TRAP", one(Opcode::TRAP));
        add_intrinsic(&mut intrinsic_words, "INC", two(Opcode::LDI(1), Opcode::ADD));
        add_intrinsic(&mut intrinsic_words, "DEC", two(Opcode::LDI(-1), Opcode::ADD));
        ForthCompiler {
            sm: new_machine(),
            intrinsic_words,
            word_addresses: StringHashMap::new(),
            last_function: 0,
            installed: Ghost(Seq::empty()),
        }
    }

    /// The address behind the last installed word.
    pub fn frontier(&self) -> (address: usize)
        ensures
            address == self@.frontier,
    {
        self.last_function
    }

    /// The address of a user's word, if it is installed.
    pub fn word_address(&self, name: &str) -> (address: Option<usize>)
        ensures
            address == if self@.words.contains_key(name@) {
                Some(self@.words[name@])
            } else {
                None
            },
    {
        match self.word_addresses.get(name) {
            Some(address) => Some(*address),
            None => None,
        }
    }

    /// Compiles tokens to code, without a closing `RET`.
    ///
    /// Succeeds exactly when every token can be lowered and every construct
    /// that the tokens open is closed by them.
    pub fn compile_token_vector(&self, token_vector: &[Token]) -> (outcome: Result<
        Vec<Opcode>,
        ForthError,
    >)
        ensures
            match compile_spec(token_vector.deep_view(), self@.vocabulary()) {
                Ok(code) => outcome is Ok && outcome->Ok_0@ == code,
                Err(err) => outcome is Err && outcome->Err_0@ == err,
            },
    {
        compile_tokens(token_vector, &self.word_addresses, &self.intrinsic_words)
    }

    /// Installs a word: compiles `tokens`, puts the code and its `RET` at the
    /// frontier, binds `word_name` to that address and moves the frontier
    /// behind the word. A body that does not compile installs nothing.
    pub fn compile_tokens_as_word(&mut self, word_name: &str, tokens: &[Token]) -> (outcome: Result<
        (),
        ForthError,
    >)
        requires
            old(self).wf(),
        ensures
            final(self).wf(),
            final(self)@ == old(self)@.install(word_name@, tokens.deep_view()).state,
            match old(self)@.install(word_name@, tokens.deep_view()).result {
                Ok(_) => outcome is Ok,
                Err(err) => outcome is Err && outcome->Err_0@ == err,
            },
    {
        proof {
            lemma_install_wf(old(self)@, word_name@, tokens.deep_view());
        }
        resize_code(&mut self.sm, self.last_function);
        let mut compiled = match self.compile_token_vector(tokens) {
            Ok(compiled) => compiled,
            Err(err) => {
                return Err(err);
            },
        };
        compiled.push(Opcode::RET);
        let function_start = self.last_function;
        let next_function = match function_start.checked_add(compiled.len()) {
            Some(next_function) => next_function,
            None => {
                return Err(ForthError::InternalNumericOverflow);
            },
        };
        if i64::try_from(next_function).is_err() {
            return Err(ForthError::InternalNumericOverflow);
        }
        self.last_function = next_function;
        append_code(&mut self.sm, &compiled);
        self.word_addresses.insert(String::from_str(word_name), function_start);
        self.installed = Ghost(self.installed@.push(compiled@));
        Ok(())
    }

    /// Installs every definition of `token_source` and compiles what stands
    /// outside of the definitions to the code of this call, closed by `RET`.
    ///
    /// Fails with `MissingCommandAfterColon` where a colon is not followed by
    /// a command, with `MissingSemicolonAfterColon` where a definition is not
    /// closed, with `SemicolonBeforeColon` where a semicolon closes nothing,
    /// and with the error of the first definition, or else of the rest, that
    /// does not compile. The words installed before the error stay.
    pub fn compile_tokens_compile_and_remove_word_definitions(
        &mut self,
        token_source: &[Token],
    ) -> (outcome: Result<Vec<Opcode>, ForthError>)
        requires
            old(self).wf(),
        ensures
            final(self).wf(),
            final(self)@ == old(self)@.compile(token_source.deep_view()).state,
            match old(self)@.compile(token_source.deep_view()).result {
                Ok(code) => outcome is Ok && outcome->Ok_0@ == code,
                Err(err) => outcome is Err && outcome->Err_0@ == err,
            },
    {
        let mut tvi: Vec<Token> = Vec::new();
        let ghost tokens = token_source.deep_view();
        let count = token_source.len();
        let mut position: usize = 0;
        assert(tokens.skip(0) == tokens);
        assert(tvi.deep_view() =~= Seq::<SpecToken>::empty());
        while position < count
            invariant
                position <= count,
                count == token_source@.len(),
                tokens == token_source.deep_view(),
                self.wf(),
                old(self)@.extract(tokens, Seq::empty()) == self@.extract(
                    tokens.skip(position as int),
                    tvi.deep_view(),
                ),
            decreases count - position,
        {
            let ghost current = tokens.skip(position as int);
            assert(current.first() == token_source@[position as int]@);
            match &token_source[position] {
                Token::Colon => {
                    if position + 1 >= count {
                        return Err(ForthError::MissingCommandAfterColon);
                    }
                    assert(current[1] == token_source@[position as int + 1]@);
                    let word_name = match &token_source[position + 1] {
                        Token::Command(word_name) => word_name,
                        _ => {
                            return Err(ForthError::MissingCommandAfterColon);
                        },
                    };
                    let body_start = position + 2;
                    let ghost rest = current.skip(2);
                    assert(rest == tokens.skip(body_start as int));
                    let mut body_end = body_start;
                    while body_end < count && !token_source[body_end].is_semicolon()
                        invariant
                            body_start <= body_end <= count,
                            count == token_source@.len(),
                            tokens == token_source.deep_view(),
                            rest == tokens.skip(body_start as int),
                            forall|k: int|
                                0 <= k < body_end - body_start ==> !(#[trigger] rest[k]
                                    is SemiColon),
                        decreases count - body_end,
                    {
                        assert(rest[body_end - body_start] == token_source@[body_end as int]@);
                        body_end += 1;
                    }
                    let found_semicolon = body_end < count;
                    proof {
                        if found_semicolon {
                            assert(rest[body_end - body_start] == token_source@[body_end as int]@);
                        }
                        lemma_body_length(rest, body_end - body_start);
                    }
                    if !found_semicolon {
                        return Err(ForthError::MissingSemicolonAfterColon);
                    }
                    let tvc = slice_subrange(token_source, body_start, body_end);
                    assert(tvc.deep_view() =~= rest.take(body_length(rest) as int));
                    match self.compile_tokens_as_word(word_name.as_str(), tvc) {
                        Ok(()) => {},
                        Err(err) => {
                            return Err(err);
                        },
                    }
                    assert(rest.skip(body_length(rest) as int + 1) == tokens.skip(
                        body_end as int + 1,
                    ));
                    position = body_end + 1;
                },
                Token::SemiColon => {
                    return Err(ForthError::SemicolonBeforeColon);
                },
                token => {
                    let ghost before = tvi.deep_view();
                    tvi.push(token.clone());
                    assert(tvi.deep_view() =~= before.push(current.first()));
                    assert(current.drop_first() == tokens.skip(position as int + 1));
                    position += 1;
                },
            }
        }
        let mut compiled_tokens = match self.compile_token_vector(tvi.as_slice()) {
            Ok(compiled_tokens) => compiled_tokens,
            Err(err) => {
                return Err(err);
            },
        };
        compiled_tokens.push(Opcode::RET);
        Ok(compiled_tokens)
    }

    /// Compiles `token_source` and puts the code of the call into the
    /// machine's code memory, directly behind the installed words. Returns the
    /// address of that code, where the machine is to start.
    pub fn load_tokens(&mut self, token_source: &[Token]) -> (outcome: Result<usize, ForthError>)
        requires
            old(self).wf(),
        ensures
            final(self).wf(),
            final(self)@ == old(self)@.load(token_source.deep_view()).state,
            match old(self)@.load(token_source.deep_view()).result {
                Ok(_) => outcome is Ok && outcome->Ok_0 == final(self)@.frontier,
                Err(err) => outcome is Err && outcome->Err_0@ == err,
            },
    {
        let ol = match self.compile_tokens_compile_and_remove_word_definitions(token_source) {
            Ok(ol) => ol,
            Err(err) => {
                return Err(err);
            },
        };
        resize_code(&mut self.sm, self.last_function);
        append_code(&mut self.sm, &ol);
        Ok(self.last_function)
    }

    /// Compiles a source text and puts the code of the call into the
    /// machine's code memory, directly behind the installed words. Returns the
    /// address of that code, where the machine is to start. Every text is
    /// taken.
    pub fn load_string(&mut self, s: &str) -> (outcome: Result<usize, ForthError>)
        requires
            old(self).wf(),
        ensures
            final(self).wf(),
            final(self)@ == old(self)@.load(tokens_of(handed(s@))).state,
            match old(self)@.load(tokens_of(handed(s@))).result {
                Ok(_) => outcome is Ok && outcome->Ok_0 == final(self)@.frontier,
                Err(err) => outcome is Err && outcome->Err_0@ == err,
            },
    {
        let tokens = tokenize_string(s);
        self.load_tokens(tokens.as_slice())
    }
}

impl Default for ForthCompiler {
    /// A compiler with an empty dictionary and the full table of intrinsics.
    fn default() -> (fc: ForthCompiler)
        ensures
            fc@ == CompilerState::fresh(full_intrinsics()),
            fc.wf(),
    {
        let mut intrinsic_words = StringHashMap::new();
        assert(intrinsics_of(intrinsic_words) =~= Map::<Seq<char>, Seq<Opcode>>::empty());
        proof {
            crate::extract::lemma_tables_are_plain();
        }
        add_intrinsic(&mut intrinsic_words, "POP", one(Opcode::DROP));
        add_intrinsic(&mut intrinsic_words, "DROP", one(Opcode::DROP));
        add_intrinsic(&mut intrinsic_words, "2DROP", two(Opcode::DROP, Opcode::DROP));
        add_intrinsic(&mut intrinsic_words, "SWAP", one(Opcode::SWAP));
        add_intrinsic(&mut intrinsic_words, "2SWAP", one(Opcode::SWAP2));
        add_intrinsic(&mut intrinsic_words, "2OVER", one(Opcode::OVER2));
        add_intrinsic(&mut intrinsic_words, "DUP", one(Opcode::DUP));
        add_intrinsic(&mut intrinsic_words, "2DUP", one(Opcode::DUP2));
        add_intrinsic(&mut intrinsic_words, "NOT", one(Opcode::NOT));
        add_intrinsic(&mut intrinsic_words, "ADD", one(Opcode::ADD));
        add_intrinsic(&mut intrinsic_words, "SUB", one(Opcode::SUB));
        add_intrinsic(&mut intrinsic_words, "MUL", one(Opcode::MUL));
        add_intrinsic(&mut intrinsic_words, "DIV", one(Opcode::DIV));
        add_intrinsic(&mut intrinsic_words, "=", two(Opcode::SUB, Opcode::CMPZ));
        add_intrinsic(&mut intrinsic_words, "<>", two(Opcode::SUB, Opcode::CMPNZ));
        add_intrinsic(&mut intrinsic_words, "1+", two(Opcode::LDI(1), Opcode::ADD));
        add_intrinsic(&mut intrinsic_words, "1-", two(Opcode::LDI(-1), Opcode::ADD));
        add_intrinsic(&mut intrinsic_words, "2+", two(Opcode::LDI(2), Opcode::ADD));
        add_intrinsic(&mut intrinsic_words, "2-", two(Opcode::LDI(-2), Opcode::ADD));
        add_intrinsic(&mut intrinsic_words, "2*", two(Opcode::LDI(2), Opcode::MUL));
        add_intrinsic(&mut intrinsic_words, "2/", two(Opcode::LDI(2), Opcode::DIV));
        add_intrinsic(&mut intrinsic_words, "I", one(Opcode::GETLP));
        add_intrinsic(&mut intrinsic_words, "J", one(Opcode::GETLP2));
        add_intrinsic(&mut intrinsic_words, "TRAP", one(Opcode::TRAP));
        ForthCompiler {
            sm: new_machine(),
            intrinsic_words,
            word_addresses: StringHashMap::new(),
            last_function: 0,
            installed: Ghost(Seq::empty()),
        }
    }
}

} // verus!
