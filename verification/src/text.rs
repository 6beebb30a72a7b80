//! Strings and their characters: what the rules need to build
//! descriptions, messages and rendered text.

use vstd::prelude::*;
use vstd::std_specs::iter::IteratorSpec;
use std::borrow::Cow;

verus! {

/// `String::push` appends one character to the end of the string.
pub assume_specification[ String::push ](string: &mut String, item: char)
    ensures
        final(string)@ == old(string)@.push(item),
;

/// The characters of `text`, in order.
pub fn chars_of(text: &str) -> (items: Vec<char>)
    ensures
        items@ == text@,
{
    broadcast use vstd::string::group_string_axioms;

    let mut items: Vec<char> = Vec::new();
    let mut chars = text.chars();
    loop
        invariant
            chars.obeys_prophetic_iter_laws(),
            chars.decrease() is Some,
            items@ + chars.remaining() == text@,
        ensures
            items@ == text@,
        decreases chars.decrease()->0,
    {
        let ghost before = items@;
        let ghost pending = chars.remaining();
        match chars.next() {
            Some(item) => {
                items.push(item);
                assert(items@ + chars.remaining() =~= before + pending);
            },
            None => {
                assert(before + pending =~= before);
                break ;
            },
        }
    }
    items
}

/// The string that `text` holds, borrowed or owned.
pub fn as_str<'a>(text: &'a Cow<'_, str>) -> (string: &'a str)
    ensures
        string@ == text@,
{
    match text {
        Cow::Borrowed(borrowed) => borrowed,
        Cow::Owned(owned) => owned.as_str(),
    }
}

/// A string that holds the single character `item`.
pub fn single(item: char) -> (string: String)
    ensures
        string@ == seq![item],
{
    let mut string = String::new();
    string.push(item);
    assert(string@ =~= seq![item]);
    string
}

/// One line per item: four spaces, a dash, a space, the item and a line
/// feed.
pub open spec fn bulleted(items: Seq<Seq<char>>) -> Seq<char>
    decreases items.len(),
{
    if items.len() == 0 {
        Seq::empty()
    } else {
        bulleted(items.drop_last()) + "    - "@ + items.last() + "\n"@
    }
}

/// What a list of descriptions reads as in a message: `nothing` for none,
/// the description itself for one, and for more a header followed by one
/// bulleted line for each.
pub open spec fn listed(items: Seq<Seq<char>>) -> Seq<char> {
    if items.len() == 0 {
        "nothing"@
    } else if items.len() == 1 {
        items[0]
    } else {
        "one of:\n"@ + bulleted(items)
    }
}

/// Appends the bulleted lines of `items` to `string`.
pub fn append_bulleted(string: &mut String, items: &Vec<String>)
    ensures
        final(string)@ == old(string)@ + bulleted(items.deep_view()),
{
    let ghost lines = items.deep_view();
    let mut index: usize = 0;
    assert(lines.take(0) =~= Seq::<Seq<char>>::empty());
    assert(string@ =~= old(string)@ + bulleted(lines.take(0)));
    while index < items.len()
        invariant
            index <= items.len(),
            lines == items.deep_view(),
            lines.len() == items.len(),
            string@ == old(string)@ + bulleted(lines.take(index as int)),
        decreases items.len() - index,
    {
        let ghost before = string@;
        string.append("    - ");
        string.append(items[index].as_str());
        string.append("\n");
        proof {
            let next = lines.take(index + 1);
            assert(next.drop_last() =~= lines.take(index as int));
            assert(next.last() == items[index as int]@);
            assert(string@ =~= old(string)@ + bulleted(next));
        }
        index = index + 1;
    }
    assert(lines.take(items.len() as int) =~= lines);
}

/// Appends to `string` what `items` reads as in a message.
pub fn append_listed(string: &mut String, items: &Vec<String>)
    ensures
        final(string)@ == old(string)@ + listed(items.deep_view()),
{
    let ghost lines = items.deep_view();
    assert(lines.len() == items.len());
    if items.len() == 0 {
        string.append("nothing");
    } else if items.len() == 1 {
        assert(lines[0] == items[0]@);
        string.append(items[0].as_str());
    } else {
        string.append("one of:\n");
        let ghost before = string@;
        append_bulleted(string, items);
        assert(string@ =~= old(string)@ + ("one of:\n"@ + bulleted(lines)));
    }
}

/// The character of the decimal digit `digit`.
pub open spec fn digit_of(digit: nat) -> char {
    if digit == 0 {
        '0'
    } else if digit == 1 {
        '1'
    } else if digit == 2 {
        '2'
    } else if digit == 3 {
        '3'
    } else if digit == 4 {
        '4'
    } else if digit == 5 {
        '5'
    } else if digit == 6 {
        '6'
    } else if digit == 7 {
        '7'
    } else if digit == 8 {
        '8'
    } else {
        '9'
    }
}

/// The decimal numeral of `number`, without leading zeros.
pub open spec fn decimal(number: nat) -> Seq<char>
    decreases number,
{
    if number < 10 {
        seq![digit_of(number)]
    } else {
        decimal(number / 10).push(digit_of(number % 10))
    }
}

/// The character of a decimal digit.
pub fn digit(value: usize) -> (character: char)
    requires
        value < 10,
    ensures
        character == digit_of(value as nat),
{
    let digit = value;
    if digit == 0 {
        '0'
    } else if digit == 1 {
        '1'
    } else if digit == 2 {
        '2'
    } else if digit == 3 {
        '3'
    } else if digit == 4 {
        '4'
    } else if digit == 5 {
        '5'
    } else if digit == 6 {
        '6'
    } else if digit == 7 {
        '7'
    } else if digit == 8 {
        '8'
    } else {
        '9'
    }
}

/// Appends the decimal numeral of `number` to `string`.
pub fn append_decimal(string: &mut String, number: usize)
    ensures
        final(string)@ == old(string)@ + decimal(number as nat),
    decreases number,
{
    if number >= 10 {
        append_decimal(string, number / 10);
    }
    string.push(digit(number % 10));
    assert(string@ =~= old(string)@ + decimal(number as nat));
}

} // verus!
