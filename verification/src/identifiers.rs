//! What Lua accepts as the name of a variable.

use vstd::prelude::*;
use crate::names;
use crate::names::Name;

verus! {

/// The reserved words of Lua.
pub const KEYWORDS: [&'static str; 21] = [
    "and", "break", "do", "else", "elseif", "end", "false", "for", "function", "if", "in",
    "local", "nil", "not", "or", "repeat", "return", "then", "true", "until", "while",
];

/// Whether `name` is a reserved word.
pub open spec fn keyword(name: Name) -> bool {
    exists|i: int| 0 <= i < KEYWORDS@.len() && #[trigger] KEYWORDS@[i]@ == name
}

/// Whether an identifier can start with `c`.
pub open spec fn identifier_start(c: char) -> bool {
    'a' <= c <= 'z' || 'A' <= c <= 'Z' || c == '_'
}

/// Whether `name` can name a variable: letters, digits and underscores, the first of which is
/// no digit, that are not a reserved word.
pub open spec fn valid_identifier(name: Name) -> bool {
    &&& name.len() > 0
    &&& identifier_start(name[0])
    &&& forall|i: int|
        0 <= i < name.len() ==> identifier_start(#[trigger] name[i]) || '0' <= name[i] <= '9'
    &&& !keyword(name)
}

/// Whether `name` is a reserved word.
fn is_keyword(name: &str) -> (reserved: bool)
    ensures
        reserved == keyword(name@),
{
    let mut i: usize = 0;
    while i < KEYWORDS.len()
        invariant
            i <= KEYWORDS@.len(),
            forall|j: int| 0 <= j < i ==> #[trigger] KEYWORDS@[j]@ != name@,
        decreases KEYWORDS@.len() - i,
    {
        if names::same_name(KEYWORDS[i], name) {
            assert(KEYWORDS@[i as int]@ == name@);
            return true;
        }
        i += 1;
    }
    false
}

/// Whether `name` can name a variable.
pub fn is_valid_identifier(name: &str) -> (valid: bool)
    ensures
        valid == valid_identifier(name@),
{
    let mut first = true;
    let mut rest = name.chars();
    let ghost mut seen: int = 0;
    loop
        invariant
            0 <= seen <= name@.len(),
            vstd::std_specs::iter::IteratorSpec::remaining(&rest) == name@.skip(seen),
            first == (seen == 0),
            seen > 0 ==> identifier_start(name@[0]),
            forall|i: int|
                0 <= i < seen ==> identifier_start(#[trigger] name@[i]) || '0' <= name@[i] <= '9',
            vstd::std_specs::iter::IteratorSpec::decrease(&rest) is Some,
        decreases vstd::std_specs::iter::IteratorSpec::decrease(&rest)->0,
    {
        match rest.next() {
            None => {
                return !first && !is_keyword(name);
            },
            Some(c) => {
                assert(c == name@[seen]);
                let starts = ('a' <= c && c <= 'z') || ('A' <= c && c <= 'Z') || c == '_';
                let continues = !first && '0' <= c && c <= '9';
                if !starts && !continues {
                    return false;
                }
                first = false;
                proof {
                    assert(name@.skip(seen).drop_first() =~= name@.skip(seen + 1));
                    seen = seen + 1;
                }
            },
        }
    }
}

/// No reserved word of Lua can name a variable.
pub proof fn reserved_words_are_no_identifiers()
    ensures
        !valid_identifier("and"@),
        !valid_identifier("break"@),
        !valid_identifier("do"@),
        !valid_identifier("else"@),
        !valid_identifier("elseif"@),
        !valid_identifier("end"@),
        !valid_identifier("false"@),
        !valid_identifier("for"@),
        !valid_identifier("function"@),
        !valid_identifier("if"@),
        !valid_identifier("in"@),
        !valid_identifier("local"@),
        !valid_identifier("nil"@),
        !valid_identifier("not"@),
        !valid_identifier("or"@),
        !valid_identifier("repeat"@),
        !valid_identifier("return"@),
        !valid_identifier("then"@),
        !valid_identifier("true"@),
        !valid_identifier("until"@),
        !valid_identifier("while"@),
{
    assert(KEYWORDS@[0]@ == "and"@);
    assert(KEYWORDS@[1]@ == "break"@);
    assert(KEYWORDS@[2]@ == "do"@);
    assert(KEYWORDS@[3]@ == "else"@);
    assert(KEYWORDS@[4]@ == "elseif"@);
    assert(KEYWORDS@[5]@ == "end"@);
    assert(KEYWORDS@[6]@ == "false"@);
    assert(KEYWORDS@[7]@ == "for"@);
    assert(KEYWORDS@[8]@ == "function"@);
    assert(KEYWORDS@[9]@ == "if"@);
    assert(KEYWORDS@[10]@ == "in"@);
    assert(KEYWORDS@[11]@ == "local"@);
    assert(KEYWORDS@[12]@ == "nil"@);
    assert(KEYWORDS@[13]@ == "not"@);
    assert(KEYWORDS@[14]@ == "or"@);
    assert(KEYWORDS@[15]@ == "repeat"@);
    assert(KEYWORDS@[16]@ == "return"@);
    assert(KEYWORDS@[17]@ == "then"@);
    assert(KEYWORDS@[18]@ == "true"@);
    assert(KEYWORDS@[19]@ == "until"@);
    assert(KEYWORDS@[20]@ == "while"@);
}

/// Any letters, digits and underscores make a name for a variable, in upper or lower case and of
/// any length, as long as no digit comes first and the whole is no reserved word.
pub proof fn other_words_are_identifiers(name: Name)
    requires
        name.len() > 0,
        !('0' <= name[0] <= '9'),
        forall|i: int|
            0 <= i < name.len() ==> {
                ||| 'a' <= #[trigger] name[i] <= 'z'
                ||| 'A' <= name[i] <= 'Z'
                ||| '0' <= name[i] <= '9'
                ||| name[i] == '_'
            },
        name != "and"@,
        name != "break"@,
        name != "do"@,
        name != "else"@,
        name != "elseif"@,
        name != "end"@,
        name != "false"@,
        name != "for"@,
        name != "function"@,
        name != "if"@,
        name != "in"@,
        name != "local"@,
        name != "nil"@,
        name != "not"@,
        name != "or"@,
        name != "repeat"@,
        name != "return"@,
        name != "then"@,
        name != "true"@,
        name != "until"@,
        name != "while"@,
    ensures
        valid_identifier(name),
{
    if keyword(name) {
        let i = choose|i: int| 0 <= i < KEYWORDS@.len() && #[trigger] KEYWORDS@[i]@ == name;
        assert(KEYWORDS@[0]@ == "and"@);
        assert(KEYWORDS@[1]@ == "break"@);
        assert(KEYWORDS@[2]@ == "do"@);
        assert(KEYWORDS@[3]@ == "else"@);
        assert(KEYWORDS@[4]@ == "elseif"@);
        assert(KEYWORDS@[5]@ == "end"@);
        assert(KEYWORDS@[6]@ == "false"@);
        assert(KEYWORDS@[7]@ == "for"@);
        assert(KEYWORDS@[8]@ == "function"@);
        assert(KEYWORDS@[9]@ == "if"@);
        assert(KEYWORDS@[10]@ == "in"@);
        assert(KEYWORDS@[11]@ == "local"@);
        assert(KEYWORDS@[12]@ == "nil"@);
        assert(KEYWORDS@[13]@ == "not"@);
        assert(KEYWORDS@[14]@ == "or"@);
        assert(KEYWORDS@[15]@ == "repeat"@);
        assert(KEYWORDS@[16]@ == "return"@);
        assert(KEYWORDS@[17]@ == "then"@);
        assert(KEYWORDS@[18]@ == "true"@);
        assert(KEYWORDS@[19]@ == "until"@);
        assert(KEYWORDS@[20]@ == "while"@);
        assert(false);
    }
}

/// Nothing but letters, digits and underscores stands in the name of a variable, which is not
/// empty and does not start with a digit.
pub proof fn identifiers_hold_nothing_else(name: Name)
    requires
        valid_identifier(name),
    ensures
        name.len() > 0,
        !('0' <= name[0] <= '9'),
        forall|i: int|
            0 <= i < name.len() ==> {
                ||| 'a' <= #[trigger] name[i] <= 'z'
                ||| 'A' <= name[i] <= 'Z'
                ||| '0' <= name[i] <= '9'
                ||| name[i] == '_'
            },
{
}

} // verus!
