//! The cursor over the three sections of a specification file.
use vstd::prelude::*;

verus! {

/// The section that the reader is in.
#[derive(Debug, PartialEq, Eq, Structural, Clone, Copy)]
pub enum ParseLexFileState {
    Declaration,
    Rule,
    Helper,
}

impl ParseLexFileState {
    /// The section after a delimiter line; `Helper` is the last one.
    pub open spec fn next(self) -> ParseLexFileState {
        match self {
            ParseLexFileState::Declaration => ParseLexFileState::Rule,
            ParseLexFileState::Rule => ParseLexFileState::Helper,
            ParseLexFileState::Helper => ParseLexFileState::Helper,
        }
    }

    /// Moves to the next section.
    pub fn change(&mut self)
        ensures
            *final(self) == old(self).next(),
    {
        match self {
            ParseLexFileState::Declaration => {
                *self = ParseLexFileState::Rule;
            },
            ParseLexFileState::Rule => {
                *self = ParseLexFileState::Helper;
            },
            ParseLexFileState::Helper => {},
        }
    }
}

/// The cursor starts in `Declaration`; one delimiter moves it to `Rule`, a
/// second to `Helper`, and from there every further delimiter leaves it in
/// `Helper`.
pub proof fn lemma_section_order(s: ParseLexFileState)
    ensures
        ParseLexFileState::Declaration.next() == ParseLexFileState::Rule,
        ParseLexFileState::Declaration.next().next() == ParseLexFileState::Helper,
        ParseLexFileState::Declaration.next().next().next() == ParseLexFileState::Helper,
        s == ParseLexFileState::Helper ==> s.next() == s,
        s.next().next() == ParseLexFileState::Helper,
{
}

} // verus!
