use vstd::prelude::*;
use vstd::string::StrSliceExecFns;

use crate::error::MachineError;

verus! {

/// The eight instruction kinds of the language.
#[derive(Debug, Clone, Copy, PartialEq, Eq, Structural)]
pub enum TokenType {
    Plus,
    Minus,
    Left,
    Right,
    Dot,
    Comma,
    Lpar,
    Rpar,
}

/// One instruction together with its index in the source.
#[derive(Debug, Clone, Copy, PartialEq, Eq, Structural)]
pub struct Token {
    pub typ: TokenType,
    pub pos: usize,
}

impl Token {
    pub fn new(typ: TokenType, pos: usize) -> (r: Token)
        ensures
            r.typ == typ,
            r.pos == pos,
    {
        Token { typ, pos }
    }
}

/// The kind a source character stands for, if any.
pub open spec fn kind_of(c: char) -> Option<TokenType> {
    if c == '+' {
        Some(TokenType::Plus)
    } else if c == '-' {
        Some(TokenType::Minus)
    } else if c == '<' {
        Some(TokenType::Left)
    } else if c == '>' {
        Some(TokenType::Right)
    } else if c == '.' {
        Some(TokenType::Dot)
    } else if c == ',' {
        Some(TokenType::Comma)
    } else if c == '[' {
        Some(TokenType::Lpar)
    } else if c == ']' {
        Some(TokenType::Rpar)
    } else {
        None
    }
}

/// The source character of a kind.
pub open spec fn char_spec(t: TokenType) -> char {
    match t {
        TokenType::Plus => '+',
        TokenType::Minus => '-',
        TokenType::Left => '<',
        TokenType::Right => '>',
        TokenType::Dot => '.',
        TokenType::Comma => ',',
        TokenType::Lpar => '[',
        TokenType::Rpar => ']',
    }
}

pub open spec fn is_instruction(c: char) -> bool {
    kind_of(c) is Some
}

/// Index of the first character of `s` that is no instruction, if there is one.
pub open spec fn first_invalid(s: Seq<char>, i: int) -> bool {
    0 <= i < s.len() && !is_instruction(s[i]) && forall|j: int| 0 <= j < i ==> is_instruction(s[j])
}

/// `toks` is the token sequence of the valid source `s`.
pub open spec fn tokens_of(s: Seq<char>, toks: Seq<Token>) -> bool {
    &&& toks.len() == s.len()
    &&& forall|i: int|
        0 <= i < s.len() ==> {
            &&& kind_of(#[trigger] s[i]) == Some(toks[i].typ)
            &&& toks[i].pos == i
        }
}

/// Every token stands at the index equal to its position.
pub open spec fn positioned(toks: Seq<Token>) -> bool {
    forall|i: int| 0 <= i < toks.len() ==> #[trigger] toks[i].pos == i
}

/// Rebuilds the source text from a token sequence.
pub open spec fn source_of(toks: Seq<Token>) -> Seq<char> {
    toks.map_values(|t: Token| char_spec(t.typ))
}

/// Classifies one character.
pub fn classify(c: char) -> (r: Option<TokenType>)
    ensures
        r == kind_of(c),
{
    match c {
        '+' => Some(TokenType::Plus),
        '-' => Some(TokenType::Minus),
        '<' => Some(TokenType::Left),
        '>' => Some(TokenType::Right),
        '.' => Some(TokenType::Dot),
        ',' => Some(TokenType::Comma),
        '[' => Some(TokenType::Lpar),
        ']' => Some(TokenType::Rpar),
        _ => None,
    }
}

/// The source character of a kind.
pub fn to_char(t: TokenType) -> (c: char)
    ensures
        c == char_spec(t),
{
    match t {
        TokenType::Plus => '+',
        TokenType::Minus => '-',
        TokenType::Left => '<',
        TokenType::Right => '>',
        TokenType::Dot => '.',
        TokenType::Comma => ',',
        TokenType::Lpar => '[',
        TokenType::Rpar => ']',
    }
}

/// Turns a source without whitespace into its tokens, one per character, each
/// at its own index. The first character that is no instruction stops the whole
/// run with a `LexError` naming it and its index.
pub fn lex(program: &String) -> (r: Result<Vec<Token>, MachineError>)
    ensures
        r is Ok <==> forall|j: int| 0 <= j < program@.len() ==> is_instruction(#[trigger] program@[j]),
        r matches Ok(toks) ==> tokens_of(program@, toks@),
        r matches Err(e) ==> exists|i: int|
            first_invalid(program@, i) && e == (MachineError::LexError { ch: program@[i], pos: i as usize }),
{
    let src = program.as_str();
    let n = src.unicode_len();
    let mut tokens: Vec<Token> = Vec::new();
    let mut i: usize = 0;
    while i < n
        invariant
            n == program@.len(),
            src@ == program@,
            i <= n,
            tokens@.len() == i,
            forall|j: int| 0 <= j < i ==> is_instruction(#[trigger] program@[j]),
            forall|j: int|
                0 <= j < i ==> {
                    &&& kind_of(#[trigger] program@[j]) == Some(tokens@[j].typ)
                    &&& tokens@[j].pos == j
                },
        decreases n - i,
    {
        let ch = src.get_char(i);
        match classify(ch) {
            Some(typ) => {
                tokens.push(Token::new(typ, i));
            },
            None => {
                assert(first_invalid(program@, i as int));
                return Err(MachineError::LexError { ch, pos: i });
            },
        }
        i = i + 1;
    }
    Ok(tokens)
}

/// Classification and rendering are inverse to each other on the eight instruction characters.
pub proof fn lemma_kind_char_inverse(c: char, t: TokenType)
    ensures
        kind_of(char_spec(t)) == Some(t),
        kind_of(c) == Some(t) ==> char_spec(t) == c,
{
}

/// Writes a token sequence back out as source characters, one per token.
pub fn render(tokens: &Vec<Token>) -> (r: Vec<char>)
    ensures
        r@ == source_of(tokens@),
{
    let mut out: Vec<char> = Vec::new();
    let mut i: usize = 0;
    while i < tokens.len()
        invariant
            i <= tokens@.len(),
            out@ == source_of(tokens@.subrange(0, i as int)),
        decreases tokens@.len() - i,
    {
        out.push(to_char(tokens[i].typ));
        proof {
            assert(tokens@.subrange(0, i + 1) == tokens@.subrange(0, i as int).push(tokens@[i as int]));
        }
        i = i + 1;
    }
    assert(tokens@.subrange(0, tokens@.len() as int) == tokens@);
    out
}

/// Tokenizing loses nothing: on a source made of the eight instruction
/// characters alone, the characters rebuilt from the token kinds are the source
/// itself, and tokenizing succeeds.
pub proof fn lemma_round_trip(s: Seq<char>, toks: Seq<Token>)
    requires
        forall|j: int| 0 <= j < s.len() ==> is_instruction(#[trigger] s[j]),
        tokens_of(s, toks),
    ensures
        source_of(toks) == s,
        positioned(toks),
{
    assert forall|i: int| 0 <= i < s.len() implies #[trigger] source_of(toks)[i] == s[i] by {
        lemma_kind_char_inverse(s[i], toks[i].typ);
    }
    assert forall|i: int| 0 <= i < toks.len() implies #[trigger] toks[i].pos == i by {
        assert(kind_of(s[i]) == Some(toks[i].typ));
    }
    assert(source_of(toks) =~= s);
}

/// The other direction: tokens rebuilt into a source are exactly what
/// tokenizing that source gives back.
pub proof fn lemma_round_trip_tokens(toks: Seq<Token>)
    requires
        positioned(toks),
    ensures
        forall|j: int| 0 <= j < source_of(toks).len() ==> is_instruction(#[trigger] source_of(toks)[j]),
        tokens_of(source_of(toks), toks),
{
    assert forall|i: int| 0 <= i < toks.len() implies kind_of(#[trigger] source_of(toks)[i]) == Some(toks[i].typ) by {
        lemma_kind_char_inverse(source_of(toks)[i], toks[i].typ);
    }
}

} // verus!
