//! The rows of the schedule of named values: what a row names, and the names
//! that follow from it.

use crate::error::{error, Error, ErrorKind, ErrorKindView, ErrorView};
use crate::ident::push_char;
use vstd::prelude::*;
use vstd::string::*;

verus! {

/// The text without the white space at its two ends: what `str::trim` of
/// std returns.
pub uninterp spec fn trimmed(text: Seq<char>) -> Seq<char>;

/// The text in upper case: what `str::to_uppercase` of std returns.
pub uninterp spec fn uppercased(text: Seq<char>) -> Seq<char>;

/// The character in upper case, which can be more than one character: what
/// `char::to_uppercase` of std yields.
pub uninterp spec fn char_uppercased(c: char) -> Seq<char>;

/// `str::trim` of std: the text without the white space at its two ends.
#[verifier::external_body]
pub(crate) fn trim(text: &str) -> (r: &str)
    ensures
        r@ == trimmed(text@),
{
    text.trim()
}

/// `str::to_uppercase` of std: the text in upper case.
#[verifier::external_body]
pub(crate) fn to_uppercase(text: &str) -> (r: String)
    ensures
        r@ == uppercased(text@),
{
    text.to_uppercase()
}

/// `char::to_uppercase` of std, collected: the character in upper case.
#[verifier::external_body]
pub(crate) fn char_to_uppercase(c: char) -> (r: String)
    ensures
        r@ == char_uppercased(c),
{
    c.to_uppercase().collect()
}

/// The pieces of the text from position `i` on that commas part, where
/// `cur` is what was read of the first of them before.
pub open spec fn pieces_from(s: Seq<char>, i: int, cur: Seq<char>) -> Seq<Seq<char>>
    decreases s.len() - i,
{
    if i < 0 || i >= s.len() {
        seq![cur]
    } else if s[i] == ',' {
        seq![cur] + pieces_from(s, i + 1, Seq::empty())
    } else {
        pieces_from(s, i + 1, cur.push(s[i]))
    }
}

/// The pieces of the text that commas part: one more than it has commas.
pub open spec fn pieces(s: Seq<char>) -> Seq<Seq<char>> {
    pieces_from(s, 0, Seq::empty())
}

/// The text without its double quotes.
pub open spec fn unquoted(s: Seq<char>) -> Seq<char>
    decreases s.len(),
{
    if s.len() == 0 {
        Seq::empty()
    } else if s.last() == '"' {
        unquoted(s.drop_last())
    } else {
        unquoted(s.drop_last()).push(s.last())
    }
}

/// The text with a space for each underscore.
pub open spec fn spaced(s: Seq<char>) -> Seq<char> {
    Seq::new(s.len(), |i: int| if s[i] == '_' { ' ' } else { s[i] })
}

/// The text with its first character in upper case.
pub open spec fn headlined(s: Seq<char>) -> Seq<char> {
    if s.len() == 0 {
        s
    } else {
        char_uppercased(s[0]) + s.subrange(1, s.len() as int)
    }
}

/// The texts of a list of strings.
pub open spec fn string_views(s: Seq<String>) -> Seq<Seq<char>> {
    Seq::new(s.len(), |i: int| s[i]@)
}

/// The names that follow from a row of the schedule.
#[derive(Clone, Debug, PartialEq, Eq)]
pub struct BaseValues {
    /// The identifier of the value, as the accessors have it in their names.
    pub value_ident: String,
    /// The name of the value in words.
    pub name: String,
    /// The name of the value in words, with its first letter in upper case.
    pub headline: String,
    /// The name of the constant that holds the identifier of the atom.
    pub atom_ident: String,
    /// The identifier of the atom as text.
    pub atom_ident_string: String,
}

/// The mathematical value of a [`BaseValues`].
pub struct BaseValuesView {
    pub value_ident: Seq<char>,
    pub name: Seq<char>,
    pub headline: Seq<char>,
    pub atom_ident: Seq<char>,
    pub atom_ident_string: Seq<char>,
}

impl View for BaseValues {
    type V = BaseValuesView;

    open spec fn view(&self) -> BaseValuesView {
        BaseValuesView {
            value_ident: self.value_ident@,
            name: self.name@,
            headline: self.headline@,
            atom_ident: self.atom_ident@,
            atom_ident_string: self.atom_ident_string@,
        }
    }
}

/// The names that follow from the row `input` of the schedule, which names
/// the identifier of a value and, behind a comma, the identifier of its
/// atom; white space around them and double quotes do not count. A row
/// without one of the two, or with a third part that is not empty, is an
/// error.
pub open spec fn base_values_of(input: Seq<char>) -> Result<BaseValuesView, ErrorView> {
    let parts = pieces(input);
    let value_ident = unquoted(trimmed(parts[0]));
    if value_ident.len() == 0 {
        Err(error(ErrorKindView::Parsing, "Found empty value identifier."))
    } else if parts.len() < 2 {
        Err(
            error(
                ErrorKindView::Parsing,
                "Missing second positional argument: atom ident string",
            ),
        )
    } else if unquoted(trimmed(parts[1])).len() == 0 {
        Err(error(ErrorKindView::Parsing, "Found empty atom identifier string."))
    } else if parts.len() > 2 && trimmed(parts[2]).len() != 0 {
        Err(error(ErrorKindView::Parsing, "Found unexpected third positional argument."))
    } else {
        Ok(
            BaseValuesView {
                value_ident,
                name: spaced(value_ident),
                headline: headlined(spaced(value_ident)),
                atom_ident: "atom::"@ + uppercased(value_ident),
                atom_ident_string: unquoted(trimmed(parts[1])),
            },
        )
    }
}

/// The pieces of the text that commas part.
pub fn split_at_commas(text: &str) -> (r: Vec<String>)
    ensures
        string_views(r@) == pieces(text@),
        r@.len() >= 1,
{
    let n = text.unicode_len();
    let mut done: Vec<String> = Vec::new();
    let mut cur = String::new();
    let mut i: usize = 0;
    assert(string_views(done@) =~= Seq::empty());
    assert(Seq::<Seq<char>>::empty() + pieces_from(text@, 0, Seq::empty()) =~= pieces(text@));
    while i < n
        invariant
            i <= n,
            n == text@.len(),
            string_views(done@) + pieces_from(text@, i as int, cur@) == pieces(text@),
        decreases n - i,
    {
        let c = text.get_char(i);
        let ghost before = string_views(done@);
        if c == ',' {
            assert(string_views(done@.push(cur)) =~= before.push(cur@));
            assert(before.push(cur@) + pieces_from(text@, i + 1, Seq::empty()) =~= before + (
            seq![cur@] + pieces_from(text@, i + 1, Seq::empty())));
            done.push(cur);
            cur = String::new();
        } else {
            push_char(&mut cur, c);
        }
        i += 1;
    }
    let ghost before = string_views(done@);
    assert(string_views(done@.push(cur)) =~= before.push(cur@));
    assert(before.push(cur@) =~= before + seq![cur@]);
    done.push(cur);
    done
}

/// The text without its double quotes.
pub fn remove_quotes(text: &str) -> (r: String)
    ensures
        r@ == unquoted(text@),
{
    let n = text.unicode_len();
    let mut out = String::new();
    let mut i: usize = 0;
    assert(text@.take(0) =~= Seq::empty());
    while i < n
        invariant
            i <= n,
            n == text@.len(),
            out@ == unquoted(text@.take(i as int)),
        decreases n - i,
    {
        let c = text.get_char(i);
        assert(text@.take(i + 1).drop_last() =~= text@.take(i as int));
        assert(text@.take(i + 1).last() == c);
        if c != '"' {
            push_char(&mut out, c);
        }
        i += 1;
    }
    assert(text@.take(n as int) =~= text@);
    out
}

/// The text with a space for each underscore.
pub fn underscores_to_spaces(text: &str) -> (r: String)
    ensures
        r@ == spaced(text@),
{
    let n = text.unicode_len();
    let mut out = String::new();
    let mut i: usize = 0;
    assert(out@ =~= spaced(text@).take(0));
    while i < n
        invariant
            i <= n,
            n == text@.len(),
            out@ == spaced(text@).take(i as int),
        decreases n - i,
    {
        let c = text.get_char(i);
        if c == '_' {
            push_char(&mut out, ' ');
        } else {
            push_char(&mut out, c);
        }
        assert(out@ =~= spaced(text@).take(i + 1));
        i += 1;
    }
    assert(spaced(text@).take(n as int) =~= spaced(text@));
    out
}

/// The text with its first character in upper case.
pub fn headline(text: &str) -> (r: String)
    ensures
        r@ == headlined(text@),
{
    let n = text.unicode_len();
    if n == 0 {
        let r = String::new();
        assert(r@ =~= text@);
        return r;
    }
    let mut out = char_to_uppercase(text.get_char(0));
    let ghost head = out@;
    let mut i: usize = 1;
    assert(out@ =~= head + text@.subrange(1, 1));
    while i < n
        invariant
            1 <= i <= n,
            n == text@.len(),
            out@ == head + text@.subrange(1, i as int),
        decreases n - i,
    {
        push_char(&mut out, text.get_char(i));
        assert(out@ =~= head + text@.subrange(1, i + 1));
        i += 1;
    }
    out
}

/// The names that follow from a row of the schedule.
pub fn base_values(input: &str) -> (r: Result<BaseValues, Error>)
    ensures
        match r {
            Ok(v) => base_values_of(input@) == Ok::<BaseValuesView, ErrorView>(v@),
            Err(e) => base_values_of(input@) == Err::<BaseValuesView, ErrorView>(e@),
        },
{
    let parts = split_at_commas(input);
    assert(string_views(parts@)[0] == parts@[0]@);
    let value_ident = remove_quotes(trim(parts[0].as_str()));
    if value_ident.as_str().unicode_len() == 0 {
        return Err(Error::new(ErrorKind::Parsing, "Found empty value identifier."));
    }
    let name = underscores_to_spaces(value_ident.as_str());
    let headline = headline(name.as_str());
    let mut atom_ident = "atom::".to_owned();
    atom_ident.append(to_uppercase(value_ident.as_str()).as_str());
    if parts.len() < 2 {
        return Err(
            Error::new(
                ErrorKind::Parsing,
                "Missing second positional argument: atom ident string",
            ),
        );
    }
    assert(string_views(parts@)[1] == parts@[1]@);
    let atom_ident_string = remove_quotes(trim(parts[1].as_str()));
    if atom_ident_string.as_str().unicode_len() == 0 {
        return Err(Error::new(ErrorKind::Parsing, "Found empty atom identifier string."));
    }
    if parts.len() > 2 {
        assert(string_views(parts@)[2] == parts@[2]@);
        if trim(parts[2].as_str()).unicode_len() != 0 {
            return Err(
                Error::new(ErrorKind::Parsing, "Found unexpected third positional argument."),
            );
        }
    }
    Ok(BaseValues { value_ident, name, headline, atom_ident, atom_ident_string })
}

} // verus!
