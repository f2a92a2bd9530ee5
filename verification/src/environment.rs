//! The reader-macro table: one-character prefixes and the symbols they stand for.
use vstd::prelude::*;
use crate::text::same_text;

verus! {

/// The reader macros that every environment starts with, as pairs of a
/// prefix and the name of its symbol.
pub open spec fn standard_macros() -> Seq<(Seq<char>, Seq<char>)> {
    seq![("@"@, "deref"@), ("'"@, "quote"@)]
}

/// The name that the first entry of `table` with the prefix `prefix` gives.
pub open spec fn macro_named(table: Seq<(Seq<char>, Seq<char>)>, prefix: Seq<char>) -> Option<
    Seq<char>,
>
    decreases table.len(),
{
    if table.len() == 0 {
        None
    } else if table[0].0 == prefix {
        Some(table[0].1)
    } else {
        macro_named(table.drop_first(), prefix)
    }
}

/// The table of reader macros. It is built once and only read afterwards.
#[derive(Debug)]
pub struct MalEnvironment {
    reader_macros: Vec<(String, String)>,
}

/// The model of a table: its pairs, in order.
pub open spec fn pairs_of(table: Seq<(String, String)>) -> Seq<(Seq<char>, Seq<char>)> {
    Seq::new(table.len(), |i: int| (table[i].0@, table[i].1@))
}

/// The reader macros that every environment starts with.
pub fn get_reader_macros() -> (r: Vec<(String, String)>)
    ensures
        pairs_of(r@) == standard_macros(),
{
    let mut reader_macros: Vec<(String, String)> = Vec::new();
    reader_macros.push(("@".to_owned(), "deref".to_owned()));
    reader_macros.push(("'".to_owned(), "quote".to_owned()));
    assert(pairs_of(reader_macros@) =~= standard_macros());
    reader_macros
}

impl MalEnvironment {
    /// The pairs of the table.
    pub closed spec fn macros(&self) -> Seq<(Seq<char>, Seq<char>)> {
        pairs_of(self.reader_macros@)
    }

    /// An environment with the standard reader macros.
    pub fn new() -> (r: Self)
        ensures
            r.macros() == standard_macros(),
    {
        Self { reader_macros: get_reader_macros() }
    }

    /// The symbol name that `prefix` stands for, if it is a reader macro.
    pub fn reader_macro(&self, prefix: &str) -> (r: Option<String>)
        ensures
            match r {
                Some(name) => macro_named(self.macros(), prefix@) == Some(name@),
                None => macro_named(self.macros(), prefix@) is None,
            },
    {
        let mut i: usize = 0;
        assert(self.macros().skip(0) =~= self.macros());
        while i < self.reader_macros.len()
            invariant
                i <= self.reader_macros.len(),
                self.macros().len() == self.reader_macros.len(),
                macro_named(self.macros(), prefix@) == macro_named(
                    self.macros().skip(i as int),
                    prefix@,
                ),
            decreases self.reader_macros.len() - i,
        {
            proof {
                let rest = self.macros().skip(i as int);
                assert(rest[0] == self.macros()[i as int]);
                assert(rest.drop_first() =~= self.macros().skip(i + 1));
            }
            if same_text(self.reader_macros[i].0.as_str(), prefix) {
                return Some(self.reader_macros[i].1.clone());
            }
            i += 1;
        }
        None
    }
}

} // verus!
