//! The printer: a value's canonical text.
use vstd::prelude::*;
use vstd::string::StrSliceExecFns;
use vstd::string::StringExecFns;
use crate::model::{Form, Item, items_of, lemma_items_of};
use crate::text::{decimal_digits, decimal_text};
use crate::{MalDataType, MalToken};

verus! {

/// The text of a value. A container is its children's texts, joined by single
/// spaces, between its brackets; a keyword is a colon and the stored text
/// without its first character; a string and a symbol are their stored text.
pub open spec fn render_form(f: Form) -> Seq<char>
    decreases f, 0nat,
{
    match f {
        Form::Nil => "nil"@,
        Form::Boolean(b) => if b {
            "true"@
        } else {
            "false"@
        },
        Form::Int(n) => decimal_digits(n),
        Form::Str(s) => s,
        Form::Keyword(s) => if s.len() == 0 {
            ":"@
        } else {
            ":"@ + s.subrange(1, s.len() as int)
        },
        Form::Vector(items) => "["@ + render_joined(items, items.len()) + "]"@,
        Form::List(items) => "("@ + render_joined(items, items.len()) + ")"@,
        Form::Symbol(s) => s,
    }
}

/// The text of a token: a bracket, or the text of its value.
pub open spec fn render_item(i: Item) -> Seq<char>
    decreases i, 0nat,
{
    match i {
        Item::OpenParen => "("@,
        Item::CloseParen => ")"@,
        Item::OpenBracket => "["@,
        Item::CloseBracket => "]"@,
        Item::Data(f) => render_form(f),
    }
}

/// The texts of the first `n` items, those that are empty left out, with one
/// space between each two that remain.
pub open spec fn render_joined(items: Seq<Item>, n: nat) -> Seq<char>
    decreases items, n,
{
    if n == 0 || n > items.len() {
        Seq::empty()
    } else {
        let head = render_joined(items, (n - 1) as nat);
        let last = render_item(items[n - 1]);
        if last.len() == 0 {
            head
        } else if head.len() == 0 {
            last
        } else {
            head + " "@ + last
        }
    }
}

/// The texts of `ts`, joined by single spaces.
pub fn render_tokens(ts: &Vec<MalToken>) -> (r: String)
    ensures
        r@ == render_joined(items_of(*ts), ts.len() as nat),
    decreases *ts,
{
    let ghost items = items_of(*ts);
    proof {
        lemma_items_of(*ts);
    }
    let mut out = String::new();
    let mut i: usize = 0;
    while i < ts.len()
        invariant
            i <= ts.len(),
            items == items_of(*ts),
            items.len() == ts.len(),
            forall|j: int| 0 <= j < ts.len() ==> #[trigger] items[j] == ts[j]@,
            out@ == render_joined(items, i as nat),
        decreases ts.len() - i,
    {
        let piece = ts[i].to_string();
        assert(piece@ == render_item(items[i as int]));
        if !piece.as_str().is_empty() {
            if !out.as_str().is_empty() {
                out.append(" ");
            }
            out.append(piece.as_str());
        }
        i += 1;
    }
    out
}

impl MalDataType {
    /// The text of this value.
    pub fn to_string(&self) -> (r: String)
        ensures
            r@ == render_form(self@),
        decreases *self,
    {
        match self {
            MalDataType::Keyword(s) => {
                let mut out = ":".to_owned();
                let n: usize = s.as_str().unicode_len();
                if n > 0 {
                    out.append(s.as_str().substring_char(1, n));
                }
                assert(out@ =~= render_form(self@));
                out
            },
            MalDataType::Nil => "nil".to_owned(),
            MalDataType::Boolean(b) => if *b {
                "true".to_owned()
            } else {
                "false".to_owned()
            },
            MalDataType::Int(n) => decimal_text(*n),
            MalDataType::String(s) => s.clone(),
            MalDataType::Symbol(s) => s.clone(),
            MalDataType::Vector(tokens) => {
                let mut out = "[".to_owned();
                let content = render_tokens(tokens);
                proof {
                    lemma_items_of(*tokens);
                }
                out.append(content.as_str());
                out.append("]");
                assert(out@ =~= render_form(self@));
                out
            },
            MalDataType::List(tokens) => {
                let mut out = "(".to_owned();
                let content = render_tokens(tokens);
                proof {
                    lemma_items_of(*tokens);
                }
                out.append(content.as_str());
                out.append(")");
                assert(out@ =~= render_form(self@));
                out
            },
        }
    }
}

impl MalToken {
    /// The text of this token.
    pub fn to_string(&self) -> (r: String)
        ensures
            r@ == render_item(self@),
        decreases *self,
    {
        match self {
            MalToken::OpenParen => "(".to_owned(),
            MalToken::CloseParen => ")".to_owned(),
            MalToken::OpenBracket => "[".to_owned(),
            MalToken::CloseBracket => "]".to_owned(),
            MalToken::Data(d) => d.to_string(),
        }
    }
}

} // verus!
