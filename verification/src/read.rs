//! The token classifier and the reader that nests tokens into containers.
use vstd::prelude::*;
use crate::laws::lemma_read_is_readable;
use crate::model::{items_of, lemma_items_of, lemma_items_of_push, well_nested, Form, Item};
use crate::text::{all_digits, chars_of, decimal_value, is_decimal_digit, is_digit, only_digits, parse_decimal, same_text};
use crate::environment::MalEnvironment;
use crate::scan::{kept_groups, lexeme_pattern, lexer, regex_compiles, regex_first_groups, texts_of, trimmed};
use crate::{MalDataType, MalToken};

verus! {

/// Why a text could not be read. The text that a variant holds is the
/// offending lexeme, or for `LexingFailure` the scanner's own message.
/// `IllegalInteger` is a numeral that is empty or too large for the machine
/// word; `MismatchedBracket` is a `]` that would close a list or a `)` that
/// would close a vector.
#[derive(Debug, PartialEq)]
pub enum MalReaderError {
    LexingFailure(String),
    IllegalToken(String),
    IllegalString(String),
    IllegalSymbol(String),
    IllegalInteger(String),
    MismatchedBracket,
    UnterminatedList,
}

/// The model of a reader error.
pub enum Fault {
    LexingFailure(Seq<char>),
    IllegalToken(Seq<char>),
    IllegalString(Seq<char>),
    IllegalSymbol(Seq<char>),
    IllegalInteger(Seq<char>),
    MismatchedBracket,
    UnterminatedList,
}

impl View for MalReaderError {
    type V = Fault;

    open spec fn view(&self) -> Fault {
        match self {
            MalReaderError::LexingFailure(s) => Fault::LexingFailure(s@),
            MalReaderError::IllegalToken(s) => Fault::IllegalToken(s@),
            MalReaderError::IllegalString(s) => Fault::IllegalString(s@),
            MalReaderError::IllegalSymbol(s) => Fault::IllegalSymbol(s@),
            MalReaderError::IllegalInteger(s) => Fault::IllegalInteger(s@),
            MalReaderError::MismatchedBracket => Fault::MismatchedBracket,
            MalReaderError::UnterminatedList => Fault::UnterminatedList,
        }
    }
}

pub type MalReaderResult<T> = Result<T, MalReaderError>;

/// The model of the outcome of classifying or reading one token.
pub open spec fn token_outcome(r: Result<MalToken, MalReaderError>) -> Result<Item, Fault> {
    match r {
        Ok(t) => Ok(t@),
        Err(e) => Err(e@),
    }
}

/// The token that a lexeme stands for, or the reason it stands for none.
/// The first rule that applies decides: the four brackets and the words
/// `nil`, `true`, `false`; a keyword, led by one colon and not by two; a
/// numeral, which must be non-empty and fit the machine word; a string, led
/// and closed by a double quote; and a symbol, which holds no double quote and
/// is not led by a digit.
pub open spec fn classify(s: Seq<char>) -> Result<Item, Fault> {
    if s == "("@ {
        Ok(Item::OpenParen)
    } else if s == ")"@ {
        Ok(Item::CloseParen)
    } else if s == "["@ {
        Ok(Item::OpenBracket)
    } else if s == "]"@ {
        Ok(Item::CloseBracket)
    } else if s == "nil"@ {
        Ok(Item::Data(Form::Nil))
    } else if s == "true"@ {
        Ok(Item::Data(Form::Boolean(true)))
    } else if s == "false"@ {
        Ok(Item::Data(Form::Boolean(false)))
    } else if s.len() > 0 && s[0] == ':' {
        if s.len() > 1 && s[1] == ':' {
            Err(Fault::IllegalToken(s))
        } else {
            Ok(Item::Data(Form::Keyword(s)))
        }
    } else if all_digits(s) {
        if s.len() > 0 && decimal_value(s) <= usize::MAX {
            Ok(Item::Data(Form::Int(decimal_value(s))))
        } else {
            Err(Fault::IllegalInteger(s))
        }
    } else if s[0] == '"' {
        if s.len() >= 2 && s.last() == '"' {
            Ok(Item::Data(Form::Str(s)))
        } else {
            Err(Fault::IllegalString(s))
        }
    } else if s.contains('"') || is_digit(s[0]) {
        Err(Fault::IllegalSymbol(s))
    } else {
        Ok(Item::Data(Form::Symbol(s)))
    }
}

/// Whether `c` occurs in `chars`.
fn has_char(chars: &Vec<char>, c: char) -> (r: bool)
    ensures
        r == chars@.contains(c),
{
    let mut i: usize = 0;
    while i < chars.len()
        invariant
            i <= chars.len(),
            forall|j: int| 0 <= j < i ==> chars@[j] != c,
        decreases chars.len() - i,
    {
        if chars[i] == c {
            return true;
        }
        i += 1;
    }
    false
}

impl MalToken {
    /// Classifies one lexeme.
    pub fn from_str(s: &str) -> (r: Result<MalToken, MalReaderError>)
        ensures
            token_outcome(r) == classify(s@),
    {
        if same_text(s, "(") {
            return Ok(MalToken::OpenParen);
        }
        if same_text(s, ")") {
            return Ok(MalToken::CloseParen);
        }
        if same_text(s, "[") {
            return Ok(MalToken::OpenBracket);
        }
        if same_text(s, "]") {
            return Ok(MalToken::CloseBracket);
        }
        if same_text(s, "nil") {
            return Ok(MalToken::Data(MalDataType::Nil));
        }
        if same_text(s, "true") {
            return Ok(MalToken::Data(MalDataType::Boolean(true)));
        }
        if same_text(s, "false") {
            return Ok(MalToken::Data(MalDataType::Boolean(false)));
        }
        let chars = chars_of(s);
        let n: usize = chars.len();
        if n > 0 && chars[0] == ':' {
            if n > 1 && chars[1] == ':' {
                return Err(MalReaderError::IllegalToken(s.to_owned()));
            }
            return Ok(MalToken::Data(MalDataType::Keyword(s.to_owned())));
        }
        if only_digits(&chars) {
            return match parse_decimal(&chars) {
                Some(value) => Ok(MalToken::Data(MalDataType::Int(value))),
                None => Err(MalReaderError::IllegalInteger(s.to_owned())),
            };
        }
        if chars[0] == '"' {
            if n < 2 || chars[n - 1] != '"' {
                return Err(MalReaderError::IllegalString(s.to_owned()));
            }
            return Ok(MalToken::Data(MalDataType::String(s.to_owned())));
        }
        if has_char(&chars, '"') || is_decimal_digit(chars[0]) {
            return Err(MalReaderError::IllegalSymbol(s.to_owned()));
        }
        Ok(MalToken::Data(MalDataType::Symbol(s.to_owned())))
    }
}

/// Reading the form that starts at `pos` in `ts`: the outcome, and where the
/// cursor then rests. An atom or a closer is handed back as it is, with the
/// cursor on it; a container is read up to its closer, on which the cursor
/// rests. Where the tokens run out the outcome is `UnterminatedList`.
pub open spec fn parse_form(ts: Seq<Item>, pos: nat) -> (Result<Item, Fault>, nat)
    decreases ts.len() - pos, 0nat,
{
    if pos >= ts.len() {
        (Err(Fault::UnterminatedList), pos)
    } else if ts[pos as int] == Item::OpenParen {
        match parse_rest(ts, pos + 1, Item::CloseParen, Seq::empty()) {
            (Ok(items), p) => (Ok(Item::Data(Form::List(items))), p),
            (Err(e), p) => (Err(e), p),
        }
    } else if ts[pos as int] == Item::OpenBracket {
        match parse_rest(ts, pos + 1, Item::CloseBracket, Seq::empty()) {
            (Ok(items), p) => (Ok(Item::Data(Form::Vector(items))), p),
            (Err(e), p) => (Err(e), p),
        }
    } else {
        (Ok(ts[pos as int]), pos)
    }
}

/// Reading the children of a container that is open at `pos`, after those in
/// `acc`: the children up to the first form that is the token `closer`, and
/// where that closer stands. The closer of the other kind of container is a
/// `MismatchedBracket`, with the cursor on it. (A form never ends before it
/// starts nor past the last token, by `lemma_parse_form_bounds`, so the last
/// branch is never taken.)
pub open spec fn parse_rest(ts: Seq<Item>, pos: nat, closer: Item, acc: Seq<Item>) -> (
    Result<Seq<Item>, Fault>,
    nat,
)
    decreases ts.len() - pos, 1nat,
{
    match parse_form(ts, pos) {
        (Err(e), p) => (Err(e), p),
        (Ok(t), p) => if t == closer {
            (Ok(acc), p)
        } else if t == Item::CloseParen || t == Item::CloseBracket {
            (Err(Fault::MismatchedBracket), p)
        } else if pos <= p < ts.len() {
            parse_rest(ts, p + 1, closer, acc.push(t))
        } else {
            (Err(Fault::UnterminatedList), p)
        },
    }
}

/// Reading a form never moves the cursor back, and where it succeeds the
/// cursor rests on a token.
pub proof fn lemma_parse_form_bounds(ts: Seq<Item>, pos: nat)
    ensures
        pos <= parse_form(ts, pos).1,
        parse_form(ts, pos).0 is Ok ==> parse_form(ts, pos).1 < ts.len(),
    decreases ts.len() - pos, 0nat,
{
    if pos < ts.len() {
        if ts[pos as int] == Item::OpenParen {
            lemma_parse_rest_bounds(ts, pos + 1, Item::CloseParen, Seq::empty());
        } else if ts[pos as int] == Item::OpenBracket {
            lemma_parse_rest_bounds(ts, pos + 1, Item::CloseBracket, Seq::empty());
        }
    }
}

/// Reading the children of a container never moves the cursor back, and
/// where it succeeds the cursor rests on a token.
pub proof fn lemma_parse_rest_bounds(ts: Seq<Item>, pos: nat, closer: Item, acc: Seq<Item>)
    ensures
        pos <= parse_rest(ts, pos, closer, acc).1,
        parse_rest(ts, pos, closer, acc).0 is Ok ==> parse_rest(ts, pos, closer, acc).1
            < ts.len(),
    decreases ts.len() - pos, 1nat,
{
    lemma_parse_form_bounds(ts, pos);
    match parse_form(ts, pos) {
        (Ok(t), p) => {
            if t != closer && t != Item::CloseParen && t != Item::CloseBracket {
                lemma_parse_rest_bounds(ts, p + 1, closer, acc.push(t));
            }
        },
        _ => {},
    }
}

/// A token sequence and a cursor into it.
#[derive(Debug)]
pub struct Reader {
    tokens: Vec<MalToken>,
    pos: usize,
}

impl Reader {
    /// The models of the tokens.
    pub closed spec fn items(&self) -> Seq<Item> {
        items_of(self.tokens)
    }

    /// The cursor.
    pub closed spec fn cursor(&self) -> nat {
        self.pos as nat
    }

    /// A reader on `tokens` with its cursor on the first.
    pub fn new(tokens: Vec<MalToken>) -> (r: Reader)
        ensures
            r.items() == items_of(tokens),
            r.cursor() == 0,
    {
        Reader { tokens, pos: 0 }
    }

    /// The token under the cursor; `UnterminatedList` where there is none.
    pub fn peek(&self) -> (r: Result<&MalToken, MalReaderError>)
        ensures
            match r {
                Ok(t) => self.cursor() < self.items().len() && t@ == self.items()[self.cursor() as int],
                Err(e) => self.cursor() >= self.items().len() && e@ == Fault::UnterminatedList,
            },
    {
        proof {
            lemma_items_of(self.tokens);
        }
        if self.pos < self.tokens.len() {
            return Ok(&self.tokens[self.pos]);
        }
        Err(MalReaderError::UnterminatedList)
    }

    /// A copy of the token under the cursor, which stays where it is.
    pub fn read_atom(&self) -> (r: Result<MalToken, MalReaderError>)
        ensures
            match r {
                Ok(t) => self.cursor() < self.items().len() && t@ == self.items()[self.cursor() as int],
                Err(e) => self.cursor() >= self.items().len() && e@ == Fault::UnterminatedList,
            },
    {
        match self.peek() {
            Ok(t) => Ok(t.clone()),
            Err(e) => Err(e),
        }
    }

    /// Reads the children of a container whose opener was just passed: of a
    /// list where `as_list` holds, else of a vector.
    fn read_children(&mut self, as_list: bool) -> (r: Result<MalToken, MalReaderError>)
        ensures
            final(self).items() == old(self).items(),
            as_list ==> (token_outcome(r), final(self).cursor()) == list_outcome(
                parse_rest(old(self).items(), old(self).cursor(), Item::CloseParen, Seq::empty()),
            ),
            !as_list ==> (token_outcome(r), final(self).cursor()) == vector_outcome(
                parse_rest(old(self).items(), old(self).cursor(), Item::CloseBracket, Seq::empty()),
            ),
        decreases old(self).items().len() - old(self).cursor(), 1nat,
    {
        let ghost ts = self.items();
        let ghost start = self.cursor();
        let ghost closer = if as_list {
            Item::CloseParen
        } else {
            Item::CloseBracket
        };
        let mut children: Vec<MalToken> = Vec::new();
        proof {
            lemma_items_of(children);
            assert(items_of(children) =~= Seq::empty());
        }
        loop
            invariant
                ts == old(self).items(),
                start == old(self).cursor(),
                self.items() == ts,
                start <= self.cursor(),
                self.cursor() == start || self.cursor() <= ts.len(),
                closer == if as_list {
                    Item::CloseParen
                } else {
                    Item::CloseBracket
                },
                parse_rest(ts, start, closer, Seq::empty()) == parse_rest(
                    ts,
                    self.cursor(),
                    closer,
                    items_of(children),
                ),
            decreases ts.len() - self.cursor(),
        {
            proof {
                lemma_parse_form_bounds(ts, self.cursor());
            }
            match self.read_form() {
                Ok(token) => {
                    let is_paren = matches!(token, MalToken::CloseParen);
                    let is_bracket = matches!(token, MalToken::CloseBracket);
                    if is_paren || is_bracket {
                        if is_paren != as_list {
                            return Err(MalReaderError::MismatchedBracket);
                        }
                        return Ok(
                            if as_list {
                                MalToken::Data(MalDataType::List(children))
                            } else {
                                MalToken::Data(MalDataType::Vector(children))
                            },
                        );
                    }
                    let ghost before = children;
                    children.push(token);
                    proof {
                        lemma_items_of_push(before, children, token);
                        lemma_items_of(self.tokens);
                    }
                    self.pos += 1;
                },
                Err(e) => {
                    return Err(e);
                },
            }
        }
    }

    /// Reads the rest of a list whose `(` was just passed: the forms up to the
    /// first `)`, on which the cursor then rests. A `]` in its place is a
    /// `MismatchedBracket`.
    pub fn read_list(&mut self) -> (r: Result<MalToken, MalReaderError>)
        ensures
            final(self).items() == old(self).items(),
            (token_outcome(r), final(self).cursor()) == list_outcome(
                parse_rest(old(self).items(), old(self).cursor(), Item::CloseParen, Seq::empty()),
            ),
            old(self).cursor() <= final(self).cursor(),
        decreases old(self).items().len() - old(self).cursor(), 2nat,
    {
        proof {
            lemma_parse_rest_bounds(self.items(), self.cursor(), Item::CloseParen, Seq::empty());
        }
        self.read_children(true)
    }

    /// Reads the rest of a vector whose `[` was just passed: the forms up to
    /// the first `]`, on which the cursor then rests. A `)` in its place is a
    /// `MismatchedBracket`.
    pub fn read_vector(&mut self) -> (r: Result<MalToken, MalReaderError>)
        ensures
            final(self).items() == old(self).items(),
            (token_outcome(r), final(self).cursor()) == vector_outcome(
                parse_rest(old(self).items(), old(self).cursor(), Item::CloseBracket, Seq::empty()),
            ),
            old(self).cursor() <= final(self).cursor(),
        decreases old(self).items().len() - old(self).cursor(), 2nat,
    {
        proof {
            lemma_parse_rest_bounds(self.items(), self.cursor(), Item::CloseBracket, Seq::empty());
        }
        self.read_children(false)
    }

    /// Reads the form under the cursor: a container where an opener stands
    /// there, else the token itself. The cursor never moves back; after a
    /// success it rests on the form's last token.
    pub fn read_form(&mut self) -> (r: Result<MalToken, MalReaderError>)
        ensures
            final(self).items() == old(self).items(),
            (token_outcome(r), final(self).cursor()) == parse_form(
                old(self).items(),
                old(self).cursor(),
            ),
            old(self).cursor() <= final(self).cursor(),
        decreases old(self).items().len() - old(self).cursor(), 0nat,
    {
        proof {
            lemma_items_of(self.tokens);
            lemma_parse_form_bounds(self.items(), self.cursor());
        }
        if self.pos >= self.tokens.len() {
            return Err(MalReaderError::UnterminatedList);
        }
        match &self.tokens[self.pos] {
            MalToken::OpenParen => {
                self.pos += 1;
                self.read_list()
            },
            MalToken::OpenBracket => {
                self.pos += 1;
                self.read_vector()
            },
            _ => self.read_atom(),
        }
    }
}

/// The outcome of reading a list, from that of reading its children.
pub open spec fn list_outcome(rest: (Result<Seq<Item>, Fault>, nat)) -> (Result<Item, Fault>, nat) {
    match rest {
        (Ok(items), p) => (Ok(Item::Data(Form::List(items))), p),
        (Err(e), p) => (Err(e), p),
    }
}

/// The outcome of reading a vector, from that of reading its children.
pub open spec fn vector_outcome(rest: (Result<Seq<Item>, Fault>, nat)) -> (
    Result<Item, Fault>,
    nat,
) {
    match rest {
        (Ok(items), p) => (Ok(Item::Data(Form::Vector(items))), p),
        (Err(e), p) => (Err(e), p),
    }
}

/// The tokens that the lexemes stand for, or the fault of the first lexeme
/// that stands for none.
pub open spec fn classify_all(lexemes: Seq<Seq<char>>) -> Result<Seq<Item>, Fault>
    decreases lexemes.len(),
{
    if lexemes.len() == 0 {
        Ok(Seq::empty())
    } else {
        match classify_all(lexemes.drop_last()) {
            Err(e) => Err(e),
            Ok(items) => match classify(lexemes.last()) {
                Err(e) => Err(e),
                Ok(t) => Ok(items.push(t)),
            },
        }
    }
}

/// The value that a token sequence reads as: its first form, which must be a
/// value; a bracket in its place is an `UnterminatedList`. Tokens after that
/// form are not looked at.
pub open spec fn read_items(items: Seq<Item>) -> Result<Form, Fault> {
    match parse_form(items, 0).0 {
        Ok(Item::Data(f)) => Ok(f),
        Ok(_) => Err(Fault::UnterminatedList),
        Err(e) => Err(e),
    }
}

/// The value that a lexeme sequence reads as.
pub open spec fn read_texts(lexemes: Seq<Seq<char>>) -> Result<Form, Fault> {
    match classify_all(lexemes) {
        Err(e) => Err(e),
        Ok(items) => read_items(items),
    }
}

/// The model of the outcome of reading a value.
pub open spec fn value_outcome(r: Result<MalDataType, MalReaderError>) -> Result<Form, Fault> {
    match r {
        Ok(d) => Ok(d@),
        Err(e) => Err(e@),
    }
}

/// Classifies each lexeme; the first that fails decides the error.
pub fn tokenize(lexemes: &[&str]) -> (r: Result<Vec<MalToken>, MalReaderError>)
    ensures
        match r {
            Ok(tokens) => classify_all(texts_of(lexemes@)) == Ok::<Seq<Item>, Fault>(
                items_of(tokens),
            ),
            Err(e) => classify_all(texts_of(lexemes@)) == Err::<Seq<Item>, Fault>(e@),
        },
{
    let ghost texts = texts_of(lexemes@);
    let mut tokens: Vec<MalToken> = Vec::new();
    let mut i: usize = 0;
    proof {
        lemma_items_of(tokens);
        assert(items_of(tokens) =~= Seq::empty());
        assert(texts.take(0) =~= Seq::empty());
    }
    while i < lexemes.len()
        invariant
            i <= lexemes.len(),
            texts == texts_of(lexemes@),
            classify_all(texts.take(i as int)) == Ok::<Seq<Item>, Fault>(items_of(tokens)),
        decreases lexemes.len() - i,
    {
        proof {
            assert(texts.take(i + 1).drop_last() =~= texts.take(i as int));
            assert(texts.take(i + 1).last() == lexemes@[i as int]@);
        }
        match MalToken::from_str(lexemes[i]) {
            Ok(token) => {
                let ghost before = tokens;
                tokens.push(token);
                proof {
                    lemma_items_of_push(before, tokens, token);
                }
            },
            Err(e) => {
                proof {
                    lemma_classify_all_fails(texts, i + 1);
                }
                return Err(e);
            },
        }
        i += 1;
    }
    assert(texts.take(i as int) =~= texts);
    Ok(tokens)
}

/// Where a prefix of the lexemes fails, the whole fails in the same way.
pub proof fn lemma_classify_all_fails(lexemes: Seq<Seq<char>>, k: int)
    requires
        0 <= k <= lexemes.len(),
        classify_all(lexemes.take(k)) is Err,
    ensures
        classify_all(lexemes) == classify_all(lexemes.take(k)),
    decreases lexemes.len(),
{
    if k == lexemes.len() {
        assert(lexemes.take(k) =~= lexemes);
    } else {
        assert(lexemes.drop_last().take(k) =~= lexemes.take(k));
        lemma_classify_all_fails(lexemes.drop_last(), k);
    }
}

/// Reads one value from tokens: the first form, which must be a value and
/// not a stray bracket.
pub fn read_tokens(tokens: Vec<MalToken>) -> (r: Result<MalDataType, MalReaderError>)
    ensures
        value_outcome(r) == read_items(items_of(tokens)),
{
    let mut reader = Reader::new(tokens);
    match reader.read_form() {
        Ok(MalToken::Data(d)) => Ok(d),
        Ok(_) => Err(MalReaderError::UnterminatedList),
        Err(e) => Err(e),
    }
}

/// Reads one value from lexemes.
pub fn read_lexemes(lexemes: &[&str]) -> (r: Result<MalDataType, MalReaderError>)
    ensures
        value_outcome(r) == read_texts(texts_of(lexemes@)),
        r matches Ok(d) ==> well_nested(d@),
{
    let r = match tokenize(lexemes) {
        Ok(tokens) => read_tokens(tokens),
        Err(e) => Err(e),
    };
    proof {
        if r is Ok {
            lemma_read_is_readable(texts_of(lexemes@), r->Ok_0@);
        }
    }
    r
}

/// Reads one value from text: the text is trimmed and cut into lexemes, the
/// lexemes are classified, and the first form is read. The environment's
/// table is not consulted.
pub fn read_str(s: &str, mal_env: &MalEnvironment) -> (r: Result<MalDataType, MalReaderError>)
    ensures
        regex_compiles(lexeme_pattern()) ==> value_outcome(r) == read_texts(
            kept_groups(regex_first_groups(lexeme_pattern(), trimmed(s@))),
        ),
        !regex_compiles(lexeme_pattern()) ==> r is Err && r.unwrap_err()@ is LexingFailure,
        r matches Ok(d) ==> well_nested(d@),
{
    match lexer(s) {
        Ok(lexemes) => read_lexemes(lexemes.as_slice()),
        Err(e) => Err(e),
    }
}

} // verus!
