//! The lexer: one pattern, matched again and again over the trimmed text by
//! the `regex` crate, cuts the text into lexemes.
use vstd::prelude::*;
use crate::read::MalReaderError;

verus! {

/// The error of the `regex` crate, carried through as it is.
#[verifier::external_type_specification]
#[verifier::external_body]
pub struct ExRegexError(regex::Error);

/// Whether `regex::Regex::new` accepts `pattern`.
pub uninterp spec fn regex_compiles(pattern: Seq<char>) -> bool;

/// For each successive non-overlapping match of `pattern` in `text`, as
/// `regex::Regex::captures_iter` finds them from left to right, what the
/// first capture group matched; `None` where the group took no part.
pub uninterp spec fn regex_first_groups(pattern: Seq<char>, text: Seq<char>) -> Seq<
    Option<Seq<char>>,
>;

/// Whether `char::is_whitespace` holds of `c`: the Unicode property White_Space.
pub uninterp spec fn is_white_space(c: char) -> bool;

/// `s` without its leading white space.
pub open spec fn skip_leading(s: Seq<char>) -> Seq<char>
    decreases s.len(),
{
    if s.len() > 0 && is_white_space(s[0]) {
        skip_leading(s.drop_first())
    } else {
        s
    }
}

/// `s` without its trailing white space.
pub open spec fn skip_trailing(s: Seq<char>) -> Seq<char>
    decreases s.len(),
{
    if s.len() > 0 && is_white_space(s.last()) {
        skip_trailing(s.drop_last())
    } else {
        s
    }
}

/// `s` without its leading and trailing white space.
pub open spec fn trimmed(s: Seq<char>) -> Seq<char> {
    skip_trailing(skip_leading(s))
}

/// The pattern of one lexeme, after any white space and commas: `~@`; one of
/// the characters ``[]{}()'`~^@``; a double-quoted run in which a backslash
/// takes the next character along, closed or not; `;` and the rest of the
/// line; or a run of characters that are neither white space nor one of
/// ``[]{}('"`,;)``.
pub open spec fn lexeme_pattern() -> Seq<char> {
    "[\\s,]*(~@|[\\[\\]{}()'`~^@]|\"(?:\\\\.|[^\\\\\"])*\"?|;.*|[^\\s\\[\\]{}('\"`,;)]*)"@
}

/// The pattern of one lexeme, as text.
pub fn pattern_text() -> (r: &'static str)
    ensures
        r@ == lexeme_pattern(),
{
    "[\\s,]*(~@|[\\[\\]{}()'`~^@]|\"(?:\\\\.|[^\\\\\"])*\"?|;.*|[^\\s\\[\\]{}('\"`,;)]*)"
}

/// The texts of `v`, in order.
pub open spec fn texts_of(v: Seq<&str>) -> Seq<Seq<char>> {
    Seq::new(v.len(), |i: int| v[i]@)
}

/// The texts of `v`, in order, `None` kept.
pub open spec fn groups_of(v: Seq<Option<&str>>) -> Seq<Option<Seq<char>>> {
    Seq::new(
        v.len(),
        |i: int|
            match v[i] {
                Some(s) => Some(s@),
                None => None,
            },
    )
}

/// The groups that matched some text, in order: the lexemes.
pub open spec fn kept_groups(groups: Seq<Option<Seq<char>>>) -> Seq<Seq<char>>
    decreases groups.len(),
{
    if groups.len() == 0 {
        Seq::empty()
    } else {
        let head = kept_groups(groups.drop_last());
        match groups.last() {
            Some(g) => if g.len() > 0 {
                head.push(g)
            } else {
                head
            },
            None => head,
        }
    }
}

/// Calls `regex::Regex::new` on `pattern`, then `captures_iter` on `text`, and
/// takes group 1 of each match with `Captures::get`. Trusted: that it fails
/// exactly where the pattern does not compile, and that what it collects is
/// what those calls return for these two texts, whenever they are made.
#[verifier::external_body]
fn first_groups<'a>(pattern: &str, text: &'a str) -> (r: Result<
    Vec<Option<&'a str>>,
    regex::Error,
>)
    ensures
        r is Ok == regex_compiles(pattern@),
        r matches Ok(v) ==> groups_of(v@) == regex_first_groups(pattern@, text@),
{
    let re = regex::Regex::new(pattern)?;
    Ok(re.captures_iter(text).map(|c| c.get(1).map(|m| m.as_str())).collect())
}

/// Calls `to_string` on an error of the `regex` crate. Nothing is claimed of
/// the message.
#[verifier::external_body]
fn error_message(e: &regex::Error) -> (r: String) {
    e.to_string()
}

/// Calls `str::trim`. Trusted: that it removes the leading and the trailing
/// characters that have the property White_Space, and no others.
#[verifier::external_body]
fn trim_text<'a>(s: &'a str) -> (r: &'a str)
    ensures
        r@ == trimmed(s@),
        r@.len() > 0 ==> !is_white_space(r@[0]) && !is_white_space(r@.last()),
{
    s.trim()
}

/// The lexemes among the groups of successive matches: every group that
/// matched a non-empty text, in order.
pub fn keep_lexemes<'a>(groups: Vec<Option<&'a str>>) -> (r: Vec<&'a str>)
    ensures
        texts_of(r@) == kept_groups(groups_of(groups@)),
{
    let mut out: Vec<&'a str> = Vec::new();
    let mut i: usize = 0;
    assert(groups_of(groups@).take(0) =~= Seq::empty());
    assert(texts_of(out@) =~= Seq::empty());
    while i < groups.len()
        invariant
            i <= groups.len(),
            texts_of(out@) == kept_groups(groups_of(groups@).take(i as int)),
        decreases groups.len() - i,
    {
        let ghost before = out@;
        proof {
            let all = groups_of(groups@);
            assert(all.take(i + 1).drop_last() =~= all.take(i as int));
            assert(all.take(i + 1).last() == all[i as int]);
        }
        match groups[i] {
            Some(s) => {
                if !s.is_empty() {
                    out.push(s);
                    assert(texts_of(out@) =~= texts_of(before).push(s@));
                }
            },
            None => {},
        }
        i += 1;
    }
    assert(groups_of(groups@).take(i as int) =~= groups_of(groups@));
    out
}

/// Cuts `text` into lexemes. Fails only where the pattern does not compile.
pub fn scan<'a>(text: &'a str) -> (r: Result<Vec<&'a str>, MalReaderError>)
    ensures
        match r {
            Ok(v) => regex_compiles(lexeme_pattern()) && texts_of(v@) == kept_groups(
                regex_first_groups(lexeme_pattern(), text@),
            ),
            Err(e) => !regex_compiles(lexeme_pattern()) && e@ is LexingFailure,
        },
{
    match first_groups(pattern_text(), text) {
        Ok(groups) => Ok(keep_lexemes(groups)),
        Err(e) => Err(MalReaderError::LexingFailure(error_message(&e))),
    }
}

/// Cuts `s`, trimmed, into lexemes. Fails only where the pattern does not
/// compile.
pub fn lexer<'a>(s: &'a str) -> (r: Result<Vec<&'a str>, MalReaderError>)
    ensures
        match r {
            Ok(v) => regex_compiles(lexeme_pattern()) && texts_of(v@) == kept_groups(
                regex_first_groups(lexeme_pattern(), trimmed(s@)),
            ),
            Err(e) => !regex_compiles(lexeme_pattern()) && e@ is LexingFailure,
        },
{
    scan(trim_text(s))
}

} // verus!
