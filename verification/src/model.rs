//! The mathematical model of values and tokens: what the contracts speak of.
use vstd::prelude::*;
use crate::{MalDataType, MalToken};

verus! {

/// The model of a value: text as a sequence of characters, a container as a
/// sequence of items.
pub enum Form {
    Nil,
    Boolean(bool),
    Int(nat),
    Str(Seq<char>),
    Keyword(Seq<char>),
    Vector(Seq<Item>),
    List(Seq<Item>),
    Symbol(Seq<char>),
}

/// The model of a token.
pub enum Item {
    OpenParen,
    CloseParen,
    OpenBracket,
    CloseBracket,
    Data(Form),
}

/// The model of a value.
pub open spec fn form_of(d: MalDataType) -> Form
    decreases d, 0nat,
{
    match d {
        MalDataType::Nil => Form::Nil,
        MalDataType::Boolean(b) => Form::Boolean(b),
        MalDataType::Int(n) => Form::Int(n as nat),
        MalDataType::String(s) => Form::Str(s@),
        MalDataType::Keyword(s) => Form::Keyword(s@),
        MalDataType::Vector(ts) => Form::Vector(items_upto(ts, ts.len() as nat)),
        MalDataType::List(ts) => Form::List(items_upto(ts, ts.len() as nat)),
        MalDataType::Symbol(s) => Form::Symbol(s@),
    }
}

/// The model of a token.
pub open spec fn item_of(t: MalToken) -> Item
    decreases t, 0nat,
{
    match t {
        MalToken::OpenParen => Item::OpenParen,
        MalToken::CloseParen => Item::CloseParen,
        MalToken::OpenBracket => Item::OpenBracket,
        MalToken::CloseBracket => Item::CloseBracket,
        MalToken::Data(d) => Item::Data(form_of(d)),
    }
}

/// The models of the first `n` tokens of `ts`, in order.
pub open spec fn items_upto(ts: Vec<MalToken>, n: nat) -> Seq<Item>
    decreases ts, n,
{
    if n == 0 || n > ts.len() {
        Seq::empty()
    } else {
        items_upto(ts, (n - 1) as nat).push(item_of(ts[n - 1]))
    }
}

impl View for MalDataType {
    type V = Form;

    open spec fn view(&self) -> Form {
        form_of(*self)
    }
}

impl View for MalToken {
    type V = Item;

    open spec fn view(&self) -> Item {
        item_of(*self)
    }
}

/// The models of all tokens of `ts`, in order.
pub open spec fn items_of(ts: Vec<MalToken>) -> Seq<Item> {
    items_upto(ts, ts.len() as nat)
}

/// Whether an item is a well-nested value.
pub open spec fn is_nested_value(i: Item) -> bool
    decreases i, 1nat,
{
    match i {
        Item::Data(f) => well_nested(f),
        _ => false,
    }
}

/// The invariant of a value that was read: every child of every container
/// in it is itself a value, and no bracket is kept as a child.
pub open spec fn well_nested(f: Form) -> bool
    decreases f, 0nat,
{
    match f {
        Form::List(items) => forall|i: int|
            0 <= i < items.len() ==> is_nested_value(#[trigger] items[i]),
        Form::Vector(items) => forall|i: int|
            0 <= i < items.len() ==> is_nested_value(#[trigger] items[i]),
        _ => true,
    }
}

/// `items_upto` holds the model of each token at its own index.
pub proof fn lemma_items_upto(ts: Vec<MalToken>, n: nat)
    requires
        n <= ts.len(),
    ensures
        items_upto(ts, n).len() == n,
        forall|i: int| 0 <= i < n ==> #[trigger] items_upto(ts, n)[i] == ts[i]@,
    decreases n,
{
    if n > 0 {
        lemma_items_upto(ts, (n - 1) as nat);
    }
}

/// `items_of` holds the model of each token at its own index.
pub proof fn lemma_items_of(ts: Vec<MalToken>)
    ensures
        items_of(ts).len() == ts.len(),
        forall|i: int| 0 <= i < ts.len() ==> #[trigger] items_of(ts)[i] == ts[i]@,
{
    lemma_items_upto(ts, ts.len() as nat);
}

/// Pushing a token appends its model.
pub proof fn lemma_items_of_push(before: Vec<MalToken>, after: Vec<MalToken>, t: MalToken)
    requires
        after@ == before@.push(t),
    ensures
        items_of(after) == items_of(before).push(t@),
{
    lemma_items_of(before);
    lemma_items_of(after);
    assert(items_of(after) =~= items_of(before).push(t@));
}

/// Token vectors with the same models index by index have the same model.
pub proof fn lemma_items_of_equal(a: Vec<MalToken>, b: Vec<MalToken>)
    requires
        a.len() == b.len(),
        forall|i: int| 0 <= i < a.len() ==> a[i]@ == b[i]@,
    ensures
        items_of(a) == items_of(b),
{
    lemma_items_of(a);
    lemma_items_of(b);
    assert(items_of(a) =~= items_of(b));
}

/// A copy of each token of `ts`, in order.
pub fn clone_tokens(ts: &Vec<MalToken>) -> (r: Vec<MalToken>)
    ensures
        items_of(r) == items_of(*ts),
    decreases *ts,
{
    let mut out: Vec<MalToken> = Vec::new();
    let mut i: usize = 0;
    while i < ts.len()
        invariant
            i <= ts.len(),
            out.len() == i,
            forall|j: int| 0 <= j < i ==> out[j]@ == ts[j]@,
        decreases ts.len() - i,
    {
        let t = ts[i].clone();
        out.push(t);
        i += 1;
    }
    proof {
        lemma_items_of_equal(out, *ts);
    }
    out
}

impl MalDataType {
    /// A copy of this value, children included.
    pub fn clone(&self) -> (r: MalDataType)
        ensures
            r@ == self@,
        decreases *self,
    {
        match self {
            MalDataType::Nil => MalDataType::Nil,
            MalDataType::Boolean(b) => MalDataType::Boolean(*b),
            MalDataType::Int(n) => MalDataType::Int(*n),
            MalDataType::String(s) => MalDataType::String(s.clone()),
            MalDataType::Keyword(s) => MalDataType::Keyword(s.clone()),
            MalDataType::Vector(ts) => MalDataType::Vector(clone_tokens(ts)),
            MalDataType::List(ts) => MalDataType::List(clone_tokens(ts)),
            MalDataType::Symbol(s) => MalDataType::Symbol(s.clone()),
        }
    }
}

impl MalToken {
    /// A copy of this token, children included.
    pub fn clone(&self) -> (r: MalToken)
        ensures
            r@ == self@,
        decreases *self,
    {
        match self {
            MalToken::OpenParen => MalToken::OpenParen,
            MalToken::CloseParen => MalToken::CloseParen,
            MalToken::OpenBracket => MalToken::OpenBracket,
            MalToken::CloseBracket => MalToken::CloseBracket,
            MalToken::Data(d) => MalToken::Data(d.clone()),
        }
    }
}

} // verus!
