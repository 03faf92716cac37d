//! The words that structure control flow. They are recognised before any
//! user word or intrinsic, so no definition can shadow them.

use vstd::prelude::*;

verus! {

#[derive(Clone, Copy, Debug, PartialEq, Eq, Structural)]
pub enum Keyword {
    If,
    Else,
    Then,
    Do,
    Loop,
    PlusLoop,
    Leave,
    Begin,
    Until,
    While,
    Repeat,
    Again,
}

/// The keyword that a command name spells, if any. Names are case-sensitive.
pub open spec fn keyword_of(name: Seq<char>) -> Option<Keyword> {
    if name == "IF"@ {
        Some(Keyword::If)
    } else if name == "ELSE"@ {
        Some(Keyword::Else)
    } else if name == "THEN"@ {
        Some(Keyword::Then)
    } else if name == "DO"@ {
        Some(Keyword::Do)
    } else if name == "LOOP"@ {
        Some(Keyword::Loop)
    } else if name == "+LOOP"@ {
        Some(Keyword::PlusLoop)
    } else if name == "LEAVE"@ {
        Some(Keyword::Leave)
    } else if name == "BEGIN"@ {
        Some(Keyword::Begin)
    } else if name == "UNTIL"@ {
        Some(Keyword::Until)
    } else if name == "WHILE"@ {
        Some(Keyword::While)
    } else if name == "REPEAT"@ {
        Some(Keyword::Repeat)
    } else if name == "AGAIN"@ {
        Some(Keyword::Again)
    } else {
        None
    }
}

/// Whether `name` is spelled `spelling`.
fn spells(name: &String, spelling: &str) -> (same: bool)
    ensures
        same == (name@ == spelling@),
{
    *name == spelling.to_owned()
}

impl Keyword {
    /// Recognises a keyword by its spelling.
    pub fn parse(name: &str) -> (keyword: Option<Keyword>)
        ensures
            keyword == keyword_of(name@),
    {
        let name = name.to_owned();
        if spells(&name, "IF") {
            Some(Keyword::If)
        } else if spells(&name, "ELSE") {
            Some(Keyword::Else)
        } else if spells(&name, "THEN") {
            Some(Keyword::Then)
        } else if spells(&name, "DO") {
            Some(Keyword::Do)
        } else if spells(&name, "LOOP") {
            Some(Keyword::Loop)
        } else if spells(&name, "+LOOP") {
            Some(Keyword::PlusLoop)
        } else if spells(&name, "LEAVE") {
            Some(Keyword::Leave)
        } else if spells(&name, "BEGIN") {
            Some(Keyword::Begin)
        } else if spells(&name, "UNTIL") {
            Some(Keyword::Until)
        } else if spells(&name, "WHILE") {
            Some(Keyword::While)
        } else if spells(&name, "REPEAT") {
            Some(Keyword::Repeat)
        } else if spells(&name, "AGAIN") {
            Some(Keyword::Again)
        } else {
            None
        }
    }

    /// The twelve spellings are pairwise different, so each keyword is
    /// recognised by its own spelling.
    pub proof fn lemma_spellings()
        ensures
            keyword_of("IF"@) == Some(Keyword::If),
            keyword_of("ELSE"@) == Some(Keyword::Else),
            keyword_of("THEN"@) == Some(Keyword::Then),
            keyword_of("DO"@) == Some(Keyword::Do),
            keyword_of("LOOP"@) == Some(Keyword::Loop),
            keyword_of("+LOOP"@) == Some(Keyword::PlusLoop),
            keyword_of("LEAVE"@) == Some(Keyword::Leave),
            keyword_of("BEGIN"@) == Some(Keyword::Begin),
            keyword_of("UNTIL"@) == Some(Keyword::Until),
            keyword_of("WHILE"@) == Some(Keyword::While),
            keyword_of("REPEAT"@) == Some(Keyword::Repeat),
            keyword_of("AGAIN"@) == Some(Keyword::Again),
    {
        reveal_strlit("IF");
        reveal_strlit("ELSE");
        reveal_strlit("THEN");
        reveal_strlit("DO");
        reveal_strlit("LOOP");
        reveal_strlit("+LOOP");
        reveal_strlit("LEAVE");
        reveal_strlit("BEGIN");
        reveal_strlit("UNTIL");
        reveal_strlit("WHILE");
        reveal_strlit("REPEAT");
        reveal_strlit("AGAIN");
        assert("IF"@.len() == 2 && "DO"@.len() == 2);
        assert("IF"@[0] == 'I' && "DO"@[0] == 'D');
        assert("ELSE"@.len() == 4 && "THEN"@.len() == 4 && "LOOP"@.len() == 4);
        assert("ELSE"@[0] == 'E' && "THEN"@[0] == 'T' && "LOOP"@[0] == 'L');
        assert("+LOOP"@.len() == 5 && "LEAVE"@.len() == 5 && "BEGIN"@.len() == 5);
        assert("UNTIL"@.len() == 5 && "WHILE"@.len() == 5 && "AGAIN"@.len() == 5);
        assert("+LOOP"@[0] == '+' && "LEAVE"@[0] == 'L' && "BEGIN"@[0] == 'B');
        assert("UNTIL"@[0] == 'U' && "WHILE"@[0] == 'W' && "AGAIN"@[0] == 'A');
        assert("REPEAT"@.len() == 6);
    }
}

} // verus!
