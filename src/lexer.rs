//! The tokenizer for pattern strings. It hands out the characters of its
//! input from the last one to the first.
use vstd::prelude::*;

verus! {

/// What a pattern character stands for.
#[derive(Debug, PartialEq, Eq, Structural, Clone, Copy)]
pub enum TokenKind {
    Character,
    Or,
    Wildcard,
    Lparen,
    Rparen,
    Eof,
}

impl TokenKind {
    /// The kind of the pattern character `ch`.
    pub open spec fn of_char(ch: char) -> TokenKind {
        if ch == '|' {
            TokenKind::Or
        } else if ch == '*' {
            TokenKind::Wildcard
        } else if ch == '(' {
            TokenKind::Lparen
        } else if ch == ')' {
            TokenKind::Rparen
        } else {
            TokenKind::Character
        }
    }

    pub fn parse(ch: char) -> (r: Self)
        ensures
            r == Self::of_char(ch),
    {
        match ch {
            '|' => Self::Or,
            '*' => Self::Wildcard,
            '(' => Self::Lparen,
            ')' => Self::Rparen,
            _ => Self::Character,
        }
    }
}

/// A classified pattern character; the end of input carries no character.
#[derive(Debug, PartialEq, Eq, Structural)]
pub struct Token {
    pub value: Option<char>,
    pub kind: TokenKind,
}

impl Token {
    pub fn new(value: Option<char>, kind: TokenKind) -> (r: Self)
        ensures
            r.value == value,
            r.kind == kind,
    {
        Token { value, kind }
    }
}

/// The token for the pattern character `ch`.
pub open spec fn char_token(ch: char) -> Token {
    Token { value: Some(ch), kind: TokenKind::of_char(ch) }
}

/// The end-of-input token.
pub open spec fn eof_token() -> Token {
    Token { value: None, kind: TokenKind::Eof }
}

/// One scan over the characters left: the token it returns and the
/// characters left after it.
pub open spec fn scan_step(chars: Seq<char>) -> (Token, Seq<char>) {
    if chars.len() > 0 {
        (char_token(chars.last()), chars.drop_last())
    } else {
        (eof_token(), chars)
    }
}

/// The tokens of `k` scans in a row over `chars`.
pub open spec fn scan_tokens(chars: Seq<char>, k: nat) -> Seq<Token>
    decreases k,
{
    if k == 0 {
        Seq::empty()
    } else {
        seq![scan_step(chars).0] + scan_tokens(scan_step(chars).1, (k - 1) as nat)
    }
}

/// The tokenizer over one pattern string.
pub struct Lexer {
    pub chars: Vec<char>,
}

impl Lexer {
    pub fn new(str: String) -> (r: Self)
        ensures
            r.chars@ == str@,
    {
        let n = str.as_str().unicode_len();
        let mut chars: Vec<char> = Vec::new();
        let mut i: usize = 0;
        while i < n
            invariant
                n == str@.len(),
                i <= n,
                chars@ == str@.subrange(0, i as int),
            decreases n - i,
        {
            chars.push(str.as_str().get_char(i));
            i = i + 1;
            assert(chars@ =~= str@.subrange(0, i as int));
        }
        assert(chars@ =~= str@);
        Lexer { chars }
    }

    /// The token of the last character left, which it removes; the
    /// end-of-input token once none is left.
    pub fn scan(&mut self) -> (r: Token)
        ensures
            (r, final(self).chars@) == scan_step(old(self).chars@),
    {
        if let Some(ch) = self.chars.pop() {
            Token::new(Some(ch), TokenKind::parse(ch))
        } else {
            Token::new(None, TokenKind::Eof)
        }
    }
}

/// Scans hand out the characters from the last to the first, each with its
/// kind, and then the end-of-input token on every further call.
pub proof fn lemma_scan_order(chars: Seq<char>, k: nat)
    ensures
        scan_tokens(chars, k).len() == k,
        forall|j: int|
            0 <= j < k ==> #[trigger] scan_tokens(chars, k)[j] == if j < chars.len() {
                char_token(chars[chars.len() - 1 - j])
            } else {
                eof_token()
            },
    decreases k,
{
    if k > 0 {
        let rest = scan_step(chars).1;
        lemma_scan_order(rest, (k - 1) as nat);
        assert forall|j: int| 0 <= j < k implies #[trigger] scan_tokens(chars, k)[j] == if j
            < chars.len() {
            char_token(chars[chars.len() - 1 - j])
        } else {
            eof_token()
        } by {
            if j > 0 {
                assert(scan_tokens(chars, k)[j] == scan_tokens(rest, (k - 1) as nat)[j - 1]);
                if chars.len() > 0 {
                    if j < chars.len() {
                        assert(rest[rest.len() - 1 - (j - 1)] == chars[chars.len() - 1 - j]);
                    }
                }
            }
        }
    }
}

} // verus!
