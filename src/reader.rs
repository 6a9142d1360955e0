//! The specification reader: routes each line of a lex-style file by the
//! section it stands in, and fills the definition registry from the
//! declarations section.
use vstd::prelude::*;
use crate::registry::{
    insert_model, placeholder_names, resolve_with, RegexDefinitions, RegistryModel,
};
use crate::section::ParseLexFileState;
use crate::text::{first_space, index_of, lemma_index_of_space, same_text, trim, trimmed};

verus! {

/// What a declaration line `<name> <body>` does to the registry: `body`,
/// trimmed, becomes the raw text of `name`. A line without a space does
/// nothing.
pub open spec fn declare_model(m: RegistryModel, line: Seq<char>) -> RegistryModel {
    let p = index_of(line, ' ');
    if p < line.len() {
        insert_model(m, line.subrange(0, p), trimmed(line.subrange(p + 1, line.len() as int)))
    } else {
        m
    }
}

/// The section delimiter line.
pub open spec fn delimiter() -> Seq<char> {
    seq!['%', '%']
}

/// What one line does to the section and the registry.
pub open spec fn line_model(
    state: ParseLexFileState,
    m: RegistryModel,
    line: Seq<char>,
) -> (ParseLexFileState, RegistryModel) {
    if trimmed(line).len() == 0 {
        (state, m)
    } else if line == delimiter() {
        (state.next(), m)
    } else if state == ParseLexFileState::Declaration {
        (state, declare_model(m, line))
    } else {
        (state, m)
    }
}

/// What a sequence of lines does to the section and the registry, in order.
pub open spec fn lines_model(
    state: ParseLexFileState,
    m: RegistryModel,
    lines: Seq<Seq<char>>,
) -> (ParseLexFileState, RegistryModel)
    decreases lines.len(),
{
    if lines.len() == 0 {
        (state, m)
    } else {
        let prev = lines_model(state, m, lines.drop_last());
        line_model(prev.0, prev.1, lines.last())
    }
}

/// One line of the file, with the section it stands in.
pub struct LineTextParser<'a> {
    pub line_text: &'a String,
    pub state: &'a ParseLexFileState,
}

impl LineTextParser<'_> {
    pub fn new<'a>(line_text: &'a String, state: &'a ParseLexFileState) -> (r: LineTextParser<'a>)
        ensures
            r.line_text == line_text,
            r.state == state,
    {
        LineTextParser { line_text, state }
    }

    /// Hands the line to the handler of its section: a declaration goes into
    /// `definitions`; rule and helper lines change nothing.
    pub fn build(&self, definitions: &mut RegexDefinitions)
        requires
            old(definitions).wf(),
        ensures
            final(definitions).wf(),
            *self.state == ParseLexFileState::Declaration ==> final(definitions)@ == declare_model(
                old(definitions)@,
                self.line_text@,
            ),
            *self.state != ParseLexFileState::Declaration ==> *final(definitions) == *old(
                definitions,
            ),
    {
        match self.state {
            ParseLexFileState::Declaration => {
                let line = self.line_text.as_str();
                let n = line.unicode_len();
                let p = first_space(line);
                if p < n {
                    let key = String::from_str(line.substring_char(0, p));
                    let value = trim(line.substring_char(p + 1, n));
                    definitions.insert(key, value);
                }
            },
            ParseLexFileState::Rule => {},
            ParseLexFileState::Helper => {},
        }
    }
}

/// The reader of one specification file.
pub struct LexParser {
    pub filename: String,
    pub state: ParseLexFileState,
    pub regex_definitions: RegexDefinitions,
}

impl LexParser {
    pub open spec fn wf(&self) -> bool {
        self.regex_definitions.wf()
    }

    pub fn new(filename: &str) -> (r: Self)
        ensures
            r.wf(),
            r.filename@ == filename@,
            r.state == ParseLexFileState::Declaration,
            r.regex_definitions@.0 == Map::<Seq<char>, Seq<char>>::empty(),
            r.regex_definitions@.1 == Map::<Seq<char>, Seq<char>>::empty(),
    {
        LexParser {
            filename: String::from_str(filename),
            state: ParseLexFileState::Declaration,
            regex_definitions: RegexDefinitions::new(),
        }
    }

    /// Moves to the next section.
    pub fn change_state(&mut self)
        ensures
            final(self).state == old(self).state.next(),
            final(self).filename == old(self).filename,
            final(self).regex_definitions == old(self).regex_definitions,
    {
        self.state.change();
    }

    /// Reads one line: a blank line is skipped, a delimiter moves to the next
    /// section, any other line goes to the handler of the current section.
    pub fn read_line(&mut self, text: &String)
        requires
            old(self).wf(),
        ensures
            final(self).wf(),
            final(self).filename == old(self).filename,
            (final(self).state, final(self).regex_definitions@) == line_model(
                old(self).state,
                old(self).regex_definitions@,
                text@,
            ),
    {
        let t = trim(text.as_str());
        if t.as_str().unicode_len() == 0 {
            return;
        }
        proof {
            reveal_strlit("%%");
            assert("%%"@ =~= delimiter());
        }
        if same_text(text.as_str(), "%%") {
            self.change_state();
        } else {
            LineTextParser::new(text, &self.state).build(&mut self.regex_definitions);
        }
    }

    /// Reads the lines of a file, in order.
    pub fn parse(&mut self, lines: &Vec<String>)
        requires
            old(self).wf(),
        ensures
            final(self).wf(),
            final(self).filename == old(self).filename,
            (final(self).state, final(self).regex_definitions@) == lines_model(
                old(self).state,
                old(self).regex_definitions@,
                lines.deep_view(),
            ),
    {
        let ghost all = lines.deep_view();
        let ghost start = (self.state, self.regex_definitions@);
        let mut i: usize = 0;
        assert(all.take(0) =~= Seq::<Seq<char>>::empty());
        while i < lines.len()
            invariant
                self.wf(),
                all == lines.deep_view(),
                self.filename == old(self).filename,
                i <= lines.len(),
                (self.state, self.regex_definitions@) == lines_model(
                    start.0,
                    start.1,
                    all.take(i as int),
                ),
                start == (old(self).state, old(self).regex_definitions@),
            decreases lines.len() - i,
        {
            assert(all[i as int] == lines[i as int]@);
            assert(all.take(i + 1).drop_last() =~= all.take(i as int));
            self.read_line(&lines[i]);
            i = i + 1;
        }
        assert(all.take(lines.len() as int) =~= all);
    }
}

/// A line without a space declares nothing: in any section it leaves the
/// registry as it was.
pub proof fn lemma_line_without_space(
    state: ParseLexFileState,
    m: RegistryModel,
    line: Seq<char>,
)
    requires
        !line.contains(' '),
    ensures
        declare_model(m, line) == m,
        line_model(state, m, line).1 == m,
{
    lemma_index_of_space(line, Seq::empty());
}

/// A declaration line `<name> <body>`, with no space in `name`, stores the
/// trimmed `body` as the raw text of `name`.
pub proof fn lemma_declaration_line(m: RegistryModel, name: Seq<char>, body: Seq<char>)
    requires
        !name.contains(' '),
    ensures
        declare_model(m, name + seq![' '] + body).0 == m.0.insert(name, trimmed(body)),
        ({
            let raw = m.0.insert(name, trimmed(body));
            declare_model(m, name + seq![' '] + body).1 == m.1.insert(
                name,
                resolve_with(raw, placeholder_names(trimmed(body)), trimmed(body)),
            )
        }),
{
    let line = name + seq![' '] + body;
    lemma_index_of_space(name, body);
    assert(line.subrange(0, name.len() as int) =~= name);
    assert(line.subrange(name.len() as int + 1, line.len() as int) =~= body);
}

} // verus!
