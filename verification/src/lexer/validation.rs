use vstd::prelude::*;

verus! {

/// Whether `c` has the Unicode `White_Space` property, as `char::is_whitespace` reports it.
pub uninterp spec fn unicode_whitespace(c: char) -> bool;

/// Whether `c` is in one of the Unicode numeric categories, as `char::is_numeric` reports it.
pub uninterp spec fn unicode_numeric(c: char) -> bool;

/// Whether `c` has the Unicode `Alphabetic` property, as `char::is_alphabetic` reports it.
pub uninterp spec fn unicode_alphabetic(c: char) -> bool;

/// `char::is_whitespace` is a function of the character alone; its result is named
/// `unicode_whitespace`.
pub assume_specification[ std::primitive::char::is_whitespace ](c: char) -> (r: bool)
    ensures
        r == unicode_whitespace(c),
;

/// `char::is_numeric` is a function of the character alone; its result is named
/// `unicode_numeric`.
pub assume_specification[ std::primitive::char::is_numeric ](c: char) -> (r: bool)
    ensures
        r == unicode_numeric(c),
;

/// `char::is_alphabetic` is a function of the character alone; its result is named
/// `unicode_alphabetic`.
pub assume_specification[ std::primitive::char::is_alphabetic ](c: char) -> (r: bool)
    ensures
        r == unicode_alphabetic(c),
;

/// Characters that blank space is made of.
pub open spec fn is_whitespace_spec(c: char) -> bool {
    unicode_whitespace(c)
}

/// Characters that a numeric literal is made of: numeric characters and the dot.
pub open spec fn is_number_spec(c: char) -> bool {
    unicode_numeric(c) || c == '.'
}

/// Characters that an identifier is made of: a letter anywhere; after the first
/// position also a numeric character, `_` or `-`.
pub open spec fn is_nomenclature_spec(c: char, first: bool) -> bool {
    unicode_alphabetic(c) || (!first && (unicode_numeric(c) || c == '_' || c == '-'))
}

/// Whether the character is blank.
pub fn is_whitespace(value: &char) -> (r: bool)
    ensures
        r == is_whitespace_spec(*value),
{
    value.is_whitespace()
}

/// Whether a numeric literal can hold the character.
pub fn is_number(value: &char) -> (r: bool)
    ensures
        r == is_number_spec(*value),
{
    value.is_numeric() || *value == '.'
}

/// Whether an identifier can hold the character, in its `first` place or behind it.
pub fn is_nomenclature(value: &char, first: bool) -> (r: bool)
    ensures
        r == is_nomenclature_spec(*value, first),
{
    value.is_alphabetic() || (!first && (value.is_numeric() || *value == '_' || *value == '-'))
}

} // verus!
