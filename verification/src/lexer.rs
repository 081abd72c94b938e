//! The tokenizer: one source line in, the ordered stream of lexical symbols out.
//!
//! The meaning of a line is given by the spec function [`tokens_of`], a left-to-right
//! scan that carries the digits of a numeric literal still being read. [`lex`] is its
//! executable counterpart.

use vstd::prelude::*;
use vstd::string::StringExecFns;
use vstd::string::StrSliceExecFns;
use vstd::std_specs::cmp::PartialEqSpecImpl;

verus! {

/// Whether a numeric literal was written with a decimal point.
#[derive(Debug, Clone, Copy, PartialEq, Eq, Structural)]
pub enum NumType {
    FLOAT,
    INT,
}

/// One lexical symbol of a source line.
///
/// A numeric literal keeps the decimal text it was written with; turning that text
/// into a machine number is left to whoever evaluates it.
#[derive(Debug)]
pub enum Token {
    NUM(String, NumType),
    STRING(String),
    NAME(String),
    PRINT,
    INPUT,
    PLUS,
    MINUS,
    STAR,
    SLASH,
    EQUAL,
}

/// The mathematical value of a [`Token`]: the same variants over character sequences.
pub enum TokenView {
    NUM(Seq<char>, NumType),
    STRING(Seq<char>),
    NAME(Seq<char>),
    PRINT,
    INPUT,
    PLUS,
    MINUS,
    STAR,
    SLASH,
    EQUAL,
}

impl TokenView {
    /// The symbol name under which grammar patterns refer to this token.
    pub open spec fn name(self) -> Seq<char> {
        match self {
            TokenView::NUM(_, _) => "NUM"@,
            TokenView::STRING(_) => "STRING"@,
            TokenView::NAME(_) => "NAME"@,
            TokenView::PRINT => "PRINT"@,
            TokenView::INPUT => "INPUT"@,
            TokenView::PLUS => "PLUS"@,
            TokenView::MINUS => "MINUS"@,
            TokenView::STAR => "STAR"@,
            TokenView::SLASH => "SLASH"@,
            TokenView::EQUAL => "EQUAL"@,
        }
    }

    /// The source text this token stands for.
    pub open spec fn value(self) -> Seq<char> {
        match self {
            TokenView::NUM(text, _) => text,
            TokenView::STRING(text) => text,
            TokenView::NAME(text) => text,
            TokenView::PRINT => "print"@,
            TokenView::INPUT => "input"@,
            TokenView::PLUS => "+"@,
            TokenView::MINUS => "-"@,
            TokenView::STAR => "*"@,
            TokenView::SLASH => "/"@,
            TokenView::EQUAL => "="@,
        }
    }
}

impl View for Token {
    type V = TokenView;

    open spec fn view(&self) -> TokenView {
        match self {
            Token::NUM(text, kind) => TokenView::NUM(text@, *kind),
            Token::STRING(text) => TokenView::STRING(text@),
            Token::NAME(text) => TokenView::NAME(text@),
            Token::PRINT => TokenView::PRINT,
            Token::INPUT => TokenView::INPUT,
            Token::PLUS => TokenView::PLUS,
            Token::MINUS => TokenView::MINUS,
            Token::STAR => TokenView::STAR,
            Token::SLASH => TokenView::SLASH,
            Token::EQUAL => TokenView::EQUAL,
        }
    }
}

impl DeepView for Token {
    type V = TokenView;

    open spec fn deep_view(&self) -> TokenView {
        self.view()
    }
}

impl Clone for Token {
    fn clone(&self) -> (r: Self)
        ensures
            r == *self,
    {
        match self {
            Token::NUM(text, kind) => Token::NUM(text.clone(), *kind),
            Token::STRING(text) => Token::STRING(text.clone()),
            Token::NAME(text) => Token::NAME(text.clone()),
            Token::PRINT => Token::PRINT,
            Token::INPUT => Token::INPUT,
            Token::PLUS => Token::PLUS,
            Token::MINUS => Token::MINUS,
            Token::STAR => Token::STAR,
            Token::SLASH => Token::SLASH,
            Token::EQUAL => Token::EQUAL,
        }
    }
}

impl PartialEq for Token {
    fn eq(&self, other: &Token) -> (r: bool) {
        match (self, other) {
            (Token::NUM(a, k), Token::NUM(b, l)) => *a == *b && *k == *l,
            (Token::STRING(a), Token::STRING(b)) => *a == *b,
            (Token::NAME(a), Token::NAME(b)) => *a == *b,
            (Token::PRINT, Token::PRINT) => true,
            (Token::INPUT, Token::INPUT) => true,
            (Token::PLUS, Token::PLUS) => true,
            (Token::MINUS, Token::MINUS) => true,
            (Token::STAR, Token::STAR) => true,
            (Token::SLASH, Token::SLASH) => true,
            (Token::EQUAL, Token::EQUAL) => true,
            _ => false,
        }
    }
}

impl PartialEqSpecImpl for Token {
    open spec fn obeys_eq_spec() -> bool {
        true
    }

    open spec fn eq_spec(&self, other: &Token) -> bool {
        self@ == other@
    }
}

impl Token {
    /// The decimal text of a numeric literal; `None` for every other token.
    pub fn get_num(&self) -> (r: Option<String>)
        ensures
            match self@ {
                TokenView::NUM(text, _) => r matches Some(s) && s@ == text,
                _ => r is None,
            },
    {
        match self {
            Token::NUM(text, _) => Some(text.clone()),
            _ => None,
        }
    }

    /// The integral / fractional tag of a numeric literal; `None` for every other token.
    pub fn get_num_type(&self) -> (r: Option<NumType>)
        ensures
            match self@ {
                TokenView::NUM(_, kind) => r == Some(kind),
                _ => r is None,
            },
    {
        match self {
            Token::NUM(_, kind) => Some(*kind),
            _ => None,
        }
    }

    /// The body of a string literal; `None` for every other token.
    pub fn get_string(&self) -> (r: Option<String>)
        ensures
            match self@ {
                TokenView::STRING(text) => r matches Some(s) && s@ == text,
                _ => r is None,
            },
    {
        match self {
            Token::STRING(text) => Some(text.clone()),
            _ => None,
        }
    }

    /// The spelling of an identifier; `None` for every other token.
    pub fn get_name(&self) -> (r: Option<String>)
        ensures
            match self@ {
                TokenView::NAME(text) => r matches Some(s) && s@ == text,
                _ => r is None,
            },
    {
        match self {
            Token::NAME(text) => Some(text.clone()),
            _ => None,
        }
    }

    /// The source text this token stands for.
    pub fn value(&self) -> (r: String)
        ensures
            r@ == self@.value(),
    {
        match self {
            Token::NAME(text) => text.clone(),
            Token::STRING(text) => text.clone(),
            Token::NUM(text, _) => text.clone(),
            Token::SLASH => String::from_str("/"),
            Token::STAR => String::from_str("*"),
            Token::MINUS => String::from_str("-"),
            Token::PLUS => String::from_str("+"),
            Token::EQUAL => String::from_str("="),
            Token::PRINT => String::from_str("print"),
            Token::INPUT => String::from_str("input"),
        }
    }

    /// The symbol name under which grammar patterns refer to this token.
    pub fn name(&self) -> (r: String)
        ensures
            r@ == self@.name(),
    {
        match self {
            Token::NAME(_) => String::from_str("NAME"),
            Token::STRING(_) => String::from_str("STRING"),
            Token::NUM(_, _) => String::from_str("NUM"),
            Token::PRINT => String::from_str("PRINT"),
            Token::INPUT => String::from_str("INPUT"),
            Token::PLUS => String::from_str("PLUS"),
            Token::MINUS => String::from_str("MINUS"),
            Token::STAR => String::from_str("STAR"),
            Token::SLASH => String::from_str("SLASH"),
            Token::EQUAL => String::from_str("EQUAL"),
        }
    }
}

/// Why a line has no token stream.
#[derive(Debug)]
pub struct LexError {
    /// The numeric literal that holds more than one decimal point.
    pub literal: String,
}

/// A decimal digit.
pub open spec fn is_digit(c: char) -> bool {
    '0' <= c <= '9'
}

/// A letter an identifier is made of: the Latin alphabet in both cases, the German
/// umlauts in both cases, and the sharp s.
pub open spec fn is_letter(c: char) -> bool {
    ||| 'a' <= c <= 'z'
    ||| 'A' <= c <= 'Z'
    ||| c == '\u{e4}'
    ||| c == '\u{f6}'
    ||| c == '\u{fc}'
    ||| c == '\u{c4}'
    ||| c == '\u{d6}'
    ||| c == '\u{dc}'
    ||| c == '\u{df}'
}

/// A character that may stand inside a string literal: printable ASCII without the
/// double quote, the capital letters and the closing square bracket, and besides
/// them the lower-case umlauts, the sharp s, the acute accent, the degree sign, the
/// section sign and the euro sign.
pub open spec fn is_string_char(c: char) -> bool {
    ||| (' ' <= c <= '~' && c != '"' && c != ']' && !('A' <= c <= 'Z'))
    ||| c == '\u{e4}'
    ||| c == '\u{f6}'
    ||| c == '\u{fc}'
    ||| c == '\u{df}'
    ||| c == '\u{b4}'
    ||| c == '\u{b0}'
    ||| c == '\u{a7}'
    ||| c == '\u{20ac}'
}

/// A character that separates tokens and is otherwise discarded.
pub open spec fn is_blank(c: char) -> bool {
    c == ' ' || c == '\t' || c == '\r' || c == '\n'
}

/// The three kinds of character runs the tokenizer measures.
#[derive(Debug, Clone, Copy, PartialEq, Eq, Structural)]
pub enum CharClass {
    Letter,
    Digit,
    StringBody,
}

impl CharClass {
    pub open spec fn contains(self, c: char) -> bool {
        match self {
            CharClass::Letter => is_letter(c),
            CharClass::Digit => is_digit(c),
            CharClass::StringBody => is_string_char(c),
        }
    }

    /// Whether `c` belongs to this class.
    pub fn accepts(self, c: char) -> (r: bool)
        ensures
            r == self.contains(c),
    {
        match self {
            CharClass::Letter => {
                ('a' <= c && c <= 'z') || ('A' <= c && c <= 'Z') || c == '\u{e4}' || c == '\u{f6}'
                    || c == '\u{fc}' || c == '\u{c4}' || c == '\u{d6}' || c == '\u{dc}' || c
                    == '\u{df}'
            },
            CharClass::Digit => '0' <= c && c <= '9',
            CharClass::StringBody => {
                (' ' <= c && c <= '~' && c != '"' && c != ']' && !('A' <= c && c <= 'Z')) || c
                    == '\u{e4}' || c == '\u{f6}' || c == '\u{fc}' || c == '\u{df}' || c
                    == '\u{b4}' || c == '\u{b0}' || c == '\u{a7}' || c == '\u{20ac}'
            },
        }
    }
}

/// The first position at or after `from` that does not hold a character of `class`;
/// the length of `s` where the run reaches the end.
pub open spec fn run_end(s: Seq<char>, from: int, class: CharClass) -> int
    decreases s.len() - from,
{
    if 0 <= from < s.len() && class.contains(s[from]) {
        run_end(s, from + 1, class)
    } else {
        from
    }
}

/// A run never ends before it starts, and it ends inside the line.
pub proof fn lemma_run_end_bounds(s: Seq<char>, from: int, class: CharClass)
    ensures
        from <= run_end(s, from, class),
        from <= s.len() ==> run_end(s, from, class) <= s.len(),
        0 <= from < s.len() && class.contains(s[from]) ==> from < run_end(s, from, class),
    decreases s.len() - from,
{
    if 0 <= from < s.len() && class.contains(s[from]) {
        lemma_run_end_bounds(s, from + 1, class);
    }
}

/// The number of decimal points in `text`.
pub open spec fn count_dots(text: Seq<char>) -> nat
    decreases text.len(),
{
    if text.len() == 0 {
        0
    } else {
        count_dots(text.drop_last()) + if text.last() == '.' {
            1nat
        } else {
            0nat
        }
    }
}

/// The token of a one-character operator.
pub open spec fn operator(c: char) -> Option<TokenView> {
    if c == '=' {
        Some(TokenView::EQUAL)
    } else if c == '+' {
        Some(TokenView::PLUS)
    } else if c == '-' {
        Some(TokenView::MINUS)
    } else if c == '*' {
        Some(TokenView::STAR)
    } else if c == '/' {
        Some(TokenView::SLASH)
    } else {
        None
    }
}

/// The token of an identifier: the two reserved spellings have tokens of their own.
pub open spec fn word(text: Seq<char>) -> TokenView {
    if text == "print"@ {
        TokenView::PRINT
    } else if text == "input"@ {
        TokenView::INPUT
    } else {
        TokenView::NAME(text)
    }
}

/// Whether the character at `i` belongs to the numeric literal being read, whose
/// characters so far are `num`: a digit always does, a decimal point does once the
/// literal has begun, and a minus sign begins one where a digit follows it directly.
pub open spec fn extends_literal(s: Seq<char>, i: int, num: Seq<char>) -> bool {
    let c = s[i];
    ||| is_digit(c)
    ||| (c == '.' && num.len() > 0)
    ||| (c == '-' && num.len() == 0 && i + 1 < s.len() && is_digit(s[i + 1]))
}

/// What ending the literal `num` adds to the stream: nothing where no literal was
/// being read, its token where it holds at most one decimal point, and otherwise
/// the literal itself as the error.
pub open spec fn flushed(num: Seq<char>) -> Result<Seq<TokenView>, Seq<char>> {
    if num.len() == 0 {
        Ok(Seq::empty())
    } else if count_dots(num) > 1 {
        Err(num)
    } else if count_dots(num) == 1 {
        Ok(seq![TokenView::NUM(num, NumType::FLOAT)])
    } else {
        Ok(seq![TokenView::NUM(num, NumType::INT)])
    }
}

/// `head` followed by `tail`; the first error wins.
pub open spec fn then(
    head: Result<Seq<TokenView>, Seq<char>>,
    tail: Result<Seq<TokenView>, Seq<char>>,
) -> Result<Seq<TokenView>, Seq<char>> {
    match head {
        Err(e) => Err(e),
        Ok(a) => match tail {
            Err(e) => Err(e),
            Ok(b) => Ok(a + b),
        },
    }
}

/// The tokens of `s` from position `i` on, while the numeric literal `num` is being
/// read.
///
/// Blanks, operators, a double quote and a letter end the literal. A double quote
/// opens a string whose body runs to the first character that may not stand in a
/// string, which is consumed with it, or to the end of the line. A letter opens an
/// identifier: a run of letters and then a run of digits. Any other character is
/// dropped and leaves the literal open.
pub open spec fn scan(s: Seq<char>, i: int, num: Seq<char>) -> Result<Seq<TokenView>, Seq<char>>
    decreases s.len() - i,
{
    if i < 0 || i >= s.len() {
        flushed(num)
    } else {
        let c = s[i];
        if extends_literal(s, i, num) {
            scan(s, i + 1, num.push(c))
        } else if is_blank(c) {
            then(flushed(num), scan(s, i + 1, Seq::empty()))
        } else if operator(c) is Some {
            then(flushed(num), then(Ok(seq![operator(c).unwrap()]), scan(s, i + 1, Seq::empty())))
        } else if c == '"' {
            let j = run_end(s, i + 1, CharClass::StringBody);
            proof {
                lemma_run_end_bounds(s, i + 1, CharClass::StringBody);
            }
            let next = if j < s.len() {
                j + 1
            } else {
                j
            };
            then(
                flushed(num),
                then(Ok(seq![TokenView::STRING(s.subrange(i + 1, j))]), scan(s, next, Seq::empty())),
            )
        } else if is_letter(c) {
            let k = run_end(s, run_end(s, i, CharClass::Letter), CharClass::Digit);
            proof {
                lemma_run_end_bounds(s, i, CharClass::Letter);
                lemma_run_end_bounds(s, run_end(s, i, CharClass::Letter), CharClass::Digit);
            }
            then(flushed(num), then(Ok(seq![word(s.subrange(i, k))]), scan(s, k, Seq::empty())))
        } else {
            scan(s, i + 1, num)
        }
    }
}

/// The token stream of the line `s`, or the numeric literal that is malformed.
pub open spec fn tokens_of(s: Seq<char>) -> Result<Seq<TokenView>, Seq<char>> {
    scan(s, 0, Seq::empty())
}

/// Joining token streams is associative, errors included.
pub proof fn lemma_then_assoc(
    a: Result<Seq<TokenView>, Seq<char>>,
    b: Result<Seq<TokenView>, Seq<char>>,
    c: Result<Seq<TokenView>, Seq<char>>,
)
    ensures
        then(a, then(b, c)) == then(then(a, b), c),
{
    if a is Ok && b is Ok && c is Ok {
        let x = a->Ok_0;
        let y = b->Ok_0;
        let z = c->Ok_0;
        assert(x + (y + z) =~= (x + y) + z);
    }
}

/// The views of a token vector grow with the vector.
proof fn lemma_views_push(before: Vec<Token>, after: Vec<Token>, token: Token)
    requires
        after@ == before@.push(token),
    ensures
        after.deep_view() == before.deep_view() + seq![token@],
{
    assert(after.deep_view() =~= before.deep_view() + seq![token@]);
}

/// One more character adds its own decimal point to the count.
proof fn lemma_count_dots_push(text: Seq<char>, c: char)
    ensures
        count_dots(text.push(c)) == count_dots(text) + if c == '.' {
            1nat
        } else {
            0nat
        },
        count_dots(text) <= text.len(),
    decreases text.len(),
{
    assert(text.push(c).drop_last() =~= text);
    if text.len() > 0 {
        lemma_count_dots_push(text.drop_last(), text.last());
        assert(text.drop_last().push(text.last()) =~= text);
    }
}

/// The end of the run of `class` characters that starts at `from`.
fn skip_run(line: &str, n: usize, from: usize, class: CharClass) -> (r: usize)
    requires
        n == line@.len(),
        from <= n,
    ensures
        r == run_end(line@, from as int, class),
        from <= r <= n,
{
    let mut j: usize = from;
    while j < n
        invariant
            from <= j <= n,
            n == line@.len(),
            run_end(line@, from as int, class) == run_end(line@, j as int, class),
        ensures
            from <= j <= n,
            run_end(line@, from as int, class) == j,
        decreases n - j,
    {
        if !class.accepts(line.get_char(j)) {
            break ;
        }
        j = j + 1;
    }
    j
}

/// Ends the numeric literal being read, if there is one, and appends its token.
fn flush(num: &mut String, dots: &mut usize, tokens: &mut Vec<Token>) -> (r: Result<(), LexError>)
    requires
        *old(dots) == count_dots(old(num)@),
    ensures
        match flushed(old(num)@) {
            Ok(ts) => {
                &&& r is Ok
                &&& final(tokens).deep_view() == old(tokens).deep_view() + ts
                &&& final(num)@ == Seq::<char>::empty()
                &&& *final(dots) == 0
            },
            Err(text) => r matches Err(e) && e.literal@ == text,
        },
{
    if num.as_str().is_empty() {
        assert(tokens.deep_view() + Seq::<TokenView>::empty() =~= tokens.deep_view());
        assert(num@ =~= Seq::<char>::empty());
        Ok(())
    } else if *dots > 1 {
        Err(LexError { literal: num.clone() })
    } else {
        let kind = if *dots == 1 {
            NumType::FLOAT
        } else {
            NumType::INT
        };
        let token = Token::NUM(num.clone(), kind);
        let ghost before = *tokens;
        let ghost pushed = token;
        tokens.push(token);
        proof {
            lemma_views_push(before, *tokens, pushed);
        }
        *num = String::new();
        *dots = 0;
        Ok(())
    }
}

/// Appends one token.
fn emit(tokens: &mut Vec<Token>, token: Token)
    ensures
        final(tokens).deep_view() == old(tokens).deep_view() + seq![token@],
{
    let ghost before = *tokens;
    let ghost pushed = token;
    tokens.push(token);
    proof {
        lemma_views_push(before, *tokens, pushed);
    }
}

/// Splits a source line into its tokens.
///
/// Fails on the first numeric literal that holds more than one decimal point and
/// hands that literal back.
pub fn lex(line: &str) -> (r: Result<Vec<Token>, LexError>)
    ensures
        match tokens_of(line@) {
            Ok(ts) => r matches Ok(v) && v.deep_view() == ts,
            Err(text) => r matches Err(e) && e.literal@ == text,
        },
{
    let n = line.unicode_len();
    let mut tokens: Vec<Token> = Vec::new();
    let mut num = String::new();
    let mut dots: usize = 0;
    let mut i: usize = 0;
    assert(tokens.deep_view() =~= Seq::<TokenView>::empty());
    assert(Seq::<TokenView>::empty() + Seq::<TokenView>::empty() =~= Seq::<TokenView>::empty());
    while i < n
        invariant
            n == line@.len(),
            i <= n,
            dots == count_dots(num@),
            dots <= i,
            tokens_of(line@) == then(Ok(tokens.deep_view()), scan(line@, i as int, num@)),
        decreases n - i,
    {
        let c = line.get_char(i);
        let pending = !num.as_str().is_empty();
        let ghost s = line@;
        let ghost done = tokens.deep_view();
        let ghost lit = num@;
        if CharClass::Digit.accepts(c) || (c == '.' && pending) || (c == '-' && !pending && i + 1
            < n && CharClass::Digit.accepts(line.get_char(i + 1))) {
            num.append(line.substring_char(i, i + 1));
            proof {
                assert(lit + s.subrange(i as int, i + 1) =~= lit.push(c));
                lemma_count_dots_push(lit, c);
            }
            if c == '.' {
                dots = dots + 1;
            }
            i = i + 1;
        } else if c == ' ' || c == '\t' || c == '\r' || c == '\n' {
            match flush(&mut num, &mut dots, &mut tokens) {
                Err(e) => {
                    return Err(e);
                },
                Ok(()) => {},
            }
            proof {
                lemma_then_assoc(Ok(done), flushed(lit), scan(s, i + 1, Seq::empty()));
            }
            i = i + 1;
        } else if c == '=' || c == '+' || c == '-' || c == '*' || c == '/' {
            match flush(&mut num, &mut dots, &mut tokens) {
                Err(e) => {
                    return Err(e);
                },
                Ok(()) => {},
            }
            let token = if c == '=' {
                Token::EQUAL
            } else if c == '+' {
                Token::PLUS
            } else if c == '-' {
                Token::MINUS
            } else if c == '*' {
                Token::STAR
            } else {
                Token::SLASH
            };
            let ghost one = seq![token@];
            emit(&mut tokens, token);
            proof {
                let rest = scan(s, i + 1, Seq::empty());
                lemma_then_assoc(Ok(done), flushed(lit), then(Ok(one), rest));
                lemma_then_assoc(then(Ok(done), flushed(lit)), Ok(one), rest);
            }
            i = i + 1;
        } else if c == '"' {
            match flush(&mut num, &mut dots, &mut tokens) {
                Err(e) => {
                    return Err(e);
                },
                Ok(()) => {},
            }
            let j = skip_run(line, n, i + 1, CharClass::StringBody);
            let token = Token::STRING(String::from_str(line.substring_char(i + 1, j)));
            let ghost one = seq![token@];
            emit(&mut tokens, token);
            let next = if j < n {
                j + 1
            } else {
                j
            };
            proof {
                let rest = scan(s, next as int, Seq::empty());
                lemma_then_assoc(Ok(done), flushed(lit), then(Ok(one), rest));
                lemma_then_assoc(then(Ok(done), flushed(lit)), Ok(one), rest);
            }
            i = next;
        } else if CharClass::Letter.accepts(c) {
            match flush(&mut num, &mut dots, &mut tokens) {
                Err(e) => {
                    return Err(e);
                },
                Ok(()) => {},
            }
            let j = skip_run(line, n, i, CharClass::Letter);
            let k = skip_run(line, n, j, CharClass::Digit);
            proof {
                lemma_run_end_bounds(s, i as int, CharClass::Letter);
            }
            let text = String::from_str(line.substring_char(i, k));
            let token = if text == String::from_str("print") {
                Token::PRINT
            } else if text == String::from_str("input") {
                Token::INPUT
            } else {
                Token::NAME(text)
            };
            let ghost one = seq![token@];
            emit(&mut tokens, token);
            proof {
                let rest = scan(s, k as int, Seq::empty());
                lemma_then_assoc(Ok(done), flushed(lit), then(Ok(one), rest));
                lemma_then_assoc(then(Ok(done), flushed(lit)), Ok(one), rest);
            }
            i = k;
        } else {
            i = i + 1;
        }
    }
    match flush(&mut num, &mut dots, &mut tokens) {
        Err(e) => Err(e),
        Ok(()) => Ok(tokens),
    }
}

/// The digits and decimal points of a literal: what follows its sign.
pub open spec fn unsigned_part(text: Seq<char>) -> Seq<char> {
    if text.len() > 0 && text[0] == '-' {
        text.subrange(1, text.len() as int)
    } else {
        text
    }
}

/// The shape of a numeric literal that is being read or has been read: after the
/// sign, if there is one, comes a digit, and after it digits and decimal points.
pub open spec fn literal_shape(text: Seq<char>) -> bool {
    let body = unsigned_part(text);
    &&& body.len() >= 1
    &&& is_digit(body[0])
    &&& forall|k: int| 0 <= k < body.len() ==> is_digit(#[trigger] body[k]) || body[k] == '.'
}

/// A token the tokenizer may hand out: any token but a numeric literal that is out
/// of shape, holds more than one decimal point, or wears the wrong tag.
pub open spec fn well_formed(token: TokenView) -> bool {
    token matches TokenView::NUM(text, kind) ==> {
        &&& literal_shape(text)
        &&& count_dots(text) <= 1
        &&& kind == NumType::FLOAT <==> count_dots(text) == 1
    }
}

/// What holds of the literal `num` that is being read when the scan stands at `i`:
/// there is none, or it is a lone sign with a digit next in the line, or it has
/// the shape of a literal.
pub open spec fn literal_in_progress(s: Seq<char>, i: int, num: Seq<char>) -> bool {
    ||| num.len() == 0
    ||| (num == seq!['-'] && 0 <= i < s.len() && is_digit(s[i]))
    ||| literal_shape(num)
}

/// A literal in progress stays one when the scan takes the next character into it.
proof fn lemma_literal_grows(s: Seq<char>, i: int, num: Seq<char>)
    requires
        0 <= i < s.len(),
        literal_in_progress(s, i, num),
        extends_literal(s, i, num),
    ensures
        literal_in_progress(s, i + 1, num.push(s[i])),
{
    let c = s[i];
    let next = num.push(c);
    if num.len() == 0 {
        assert(next =~= seq![c]);
        if !is_digit(c) {
            assert(c == '-');
        } else {
            assert(unsigned_part(next) =~= next);
        }
    } else if num == seq!['-'] {
        assert(is_digit(c));
        assert(unsigned_part(next) =~= seq![c]);
    } else {
        assert(is_digit(c) || c == '.');
        assert(next[0] == num[0]);
        assert(unsigned_part(next) =~= unsigned_part(num).push(c));
    }
}

/// The tokenizer hands out well-formed tokens only: every numeric literal of a
/// token stream is in shape, holds at most one decimal point, and is tagged
/// fractional exactly where it holds one.
pub proof fn lemma_scan_well_formed(s: Seq<char>, i: int, num: Seq<char>)
    requires
        literal_in_progress(s, i, num),
    ensures
        scan(s, i, num) matches Ok(tokens) ==> forall|k: int|
            0 <= k < tokens.len() ==> well_formed(#[trigger] tokens[k]),
    decreases s.len() - i,
{
    if i < 0 || i >= s.len() {
    } else {
        let c = s[i];
        if extends_literal(s, i, num) {
            lemma_literal_grows(s, i, num);
            lemma_scan_well_formed(s, i + 1, num.push(c));
        } else if is_blank(c) {
            lemma_scan_well_formed(s, i + 1, Seq::empty());
        } else if operator(c) is Some {
            lemma_scan_well_formed(s, i + 1, Seq::empty());
        } else if c == '"' {
            let j = run_end(s, i + 1, CharClass::StringBody);
            lemma_run_end_bounds(s, i + 1, CharClass::StringBody);
            let next = if j < s.len() {
                j + 1
            } else {
                j
            };
            lemma_scan_well_formed(s, next, Seq::empty());
        } else if is_letter(c) {
            let k = run_end(s, run_end(s, i, CharClass::Letter), CharClass::Digit);
            lemma_run_end_bounds(s, i, CharClass::Letter);
            lemma_run_end_bounds(s, run_end(s, i, CharClass::Letter), CharClass::Digit);
            lemma_scan_well_formed(s, k, Seq::empty());
        } else {
            lemma_scan_well_formed(s, i + 1, num);
        }
    }
}

/// Every token of a line's token stream is well formed.
pub proof fn lemma_tokens_well_formed(s: Seq<char>)
    ensures
        tokens_of(s) matches Ok(tokens) ==> forall|k: int|
            0 <= k < tokens.len() ==> well_formed(#[trigger] tokens[k]),
{
    lemma_scan_well_formed(s, 0, Seq::empty());
}

} // verus!
