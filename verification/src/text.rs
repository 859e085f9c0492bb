//! Text: decimal numbers, white space and the order of names.

use vstd::prelude::*;

verus! {

/// The digit for a number below ten.
pub open spec fn digit_char(digit: nat) -> char {
    (48 + digit) as char
}

/// The decimal digits of a number, without leading zeros.
pub open spec fn digits(number: nat) -> Seq<char>
    decreases number,
{
    if number < 10 {
        seq![digit_char(number)]
    } else {
        digits(number / 10).push(digit_char(number % 10))
    }
}

fn digit_text(digit: usize) -> (text: &'static str)
    requires
        digit < 10,
    ensures
        text@ == seq![digit_char(digit as nat)],
{
    proof {
        reveal_strlit("0");
        reveal_strlit("1");
        reveal_strlit("2");
        reveal_strlit("3");
        reveal_strlit("4");
        reveal_strlit("5");
        reveal_strlit("6");
        reveal_strlit("7");
        reveal_strlit("8");
        reveal_strlit("9");
    }
    let text = if digit == 0 {
        "0"
    } else if digit == 1 {
        "1"
    } else if digit == 2 {
        "2"
    } else if digit == 3 {
        "3"
    } else if digit == 4 {
        "4"
    } else if digit == 5 {
        "5"
    } else if digit == 6 {
        "6"
    } else if digit == 7 {
        "7"
    } else if digit == 8 {
        "8"
    } else {
        "9"
    };
    assert(text@ =~= seq![digit_char(digit as nat)]);
    text
}

/// Writes a number with decimal digits.
pub fn decimal(number: usize) -> (text: String)
    ensures
        text@ == digits(number as nat),
    decreases number,
{
    if number < 10 {
        digit_text(number).to_owned()
    } else {
        let mut text = decimal(number / 10);
        text.append(digit_text(number % 10));
        assert(text@ =~= digits(number as nat));
        text
    }
}

/// Joins two texts.
pub fn joined(first: &str, second: &str) -> (text: String)
    ensures
        text@ == first@ + second@,
{
    let mut text = first.to_owned();
    text.append(second);
    text
}

/// Whether a character has the Unicode property `White_Space`.
#[verifier::allow_in_spec]
pub fn is_white_space(c: char) -> bool
    returns
        ({
            let code = c as u32;
            ||| 0x09 <= code <= 0x0d
            ||| code == 0x20
            ||| code == 0x85
            ||| code == 0xa0
            ||| code == 0x1680
            ||| 0x2000 <= code <= 0x200a
            ||| code == 0x2028
            ||| code == 0x2029
            ||| code == 0x202f
            ||| code == 0x205f
            ||| code == 0x3000
        }),
{
    let code: u32 = c as u32;
    (0x09 <= code && code <= 0x0d) || code == 0x20 || code == 0x85 || code == 0xa0 || code == 0x1680
        || (0x2000 <= code && code <= 0x200a) || code == 0x2028 || code == 0x2029 || code == 0x202f
        || code == 0x205f || code == 0x3000
}

/// The text without white space at its start.
pub open spec fn trimmed_start(text: Seq<char>) -> Seq<char>
    decreases text.len(),
{
    if text.len() > 0 && is_white_space(text[0]) {
        trimmed_start(text.drop_first())
    } else {
        text
    }
}

/// The text without white space at its end.
pub open spec fn trimmed_end(text: Seq<char>) -> Seq<char>
    decreases text.len(),
{
    if text.len() > 0 && is_white_space(text.last()) {
        trimmed_end(text.drop_last())
    } else {
        text
    }
}

/// The text without white space at either end.
pub open spec fn trimmed(text: Seq<char>) -> Seq<char> {
    trimmed_end(trimmed_start(text))
}

/// Removes the white space at both ends.
pub fn trim(text: &str) -> (r: String)
    ensures
        r@ == trimmed(text@),
{
    let len: usize = text.unicode_len();
    let mut start: usize = 0;
    assert(text@.skip(0) =~= text@);
    while start < len && is_white_space(text.get_char(start))
        invariant
            len == text@.len(),
            start <= len,
            trimmed_start(text@) == trimmed_start(text@.skip(start as int)),
        decreases len - start,
    {
        assert(text@.skip(start as int).drop_first() =~= text@.skip(start + 1));
        start += 1;
    }
    let ghost kept = text@.skip(start as int);
    assert(trimmed_start(text@) == kept);
    let mut end: usize = len;
    assert(text@.subrange(start as int, len as int) =~= kept);
    while start < end && is_white_space(text.get_char(end - 1))
        invariant
            len == text@.len(),
            start <= end <= len,
            trimmed_end(kept) == trimmed_end(text@.subrange(start as int, end as int)),
        decreases end - start,
    {
        assert(text@.subrange(start as int, end as int).drop_last() =~= text@.subrange(
            start as int,
            end - 1,
        ));
        end -= 1;
    }
    text.substring_char(start, end).to_owned()
}

/// Whether one text comes before another in the order of their characters' code points, as in a
/// dictionary.
pub open spec fn text_before(a: Seq<char>, b: Seq<char>) -> bool
    decreases a.len(),
{
    if a.len() == 0 {
        b.len() > 0
    } else if b.len() == 0 {
        false
    } else {
        a[0] < b[0] || (a[0] == b[0] && text_before(a.drop_first(), b.drop_first()))
    }
}

/// Compares two texts by the code points of their characters.
pub fn comes_before(a: &str, b: &str) -> (r: bool)
    ensures
        r == text_before(a@, b@),
{
    let a_len: usize = a.unicode_len();
    let b_len: usize = b.unicode_len();
    let mut index: usize = 0;
    assert(a@.skip(0) =~= a@);
    assert(b@.skip(0) =~= b@);
    while index < a_len && index < b_len
        invariant
            a_len == a@.len(),
            b_len == b@.len(),
            index <= a_len,
            index <= b_len,
            text_before(a@, b@) == text_before(a@.skip(index as int), b@.skip(index as int)),
        decreases a_len - index,
    {
        let left: char = a.get_char(index);
        let right: char = b.get_char(index);
        assert(a@.skip(index as int).drop_first() =~= a@.skip(index + 1));
        assert(b@.skip(index as int).drop_first() =~= b@.skip(index + 1));
        if left < right {
            return true;
        }
        if left != right {
            return false;
        }
        index += 1;
    }
    index < b_len
}

/// Removing white space twice removes no more than removing it once.
pub proof fn law_trimming_is_idempotent(text: Seq<char>)
    ensures
        trimmed(trimmed(text)) == trimmed(text),
{
    lemma_trimmed_start_has_no_leading_space(text);
    lemma_trimmed_end_keeps_start(trimmed_start(text));
    lemma_trimmed_end_has_no_trailing_space(trimmed_start(text));
}

proof fn lemma_trimmed_start_has_no_leading_space(text: Seq<char>)
    ensures
        trimmed_start(text).len() > 0 ==> !is_white_space(trimmed_start(text)[0]),
    decreases text.len(),
{
    if text.len() > 0 && is_white_space(text[0]) {
        lemma_trimmed_start_has_no_leading_space(text.drop_first());
    }
}

proof fn lemma_trimmed_end_has_no_trailing_space(text: Seq<char>)
    ensures
        trimmed_end(text).len() > 0 ==> !is_white_space(trimmed_end(text).last()),
    decreases text.len(),
{
    if text.len() > 0 && is_white_space(text.last()) {
        lemma_trimmed_end_has_no_trailing_space(text.drop_last());
    }
}

proof fn lemma_trimmed_end_keeps_start(text: Seq<char>)
    ensures
        trimmed_end(text).len() > 0 ==> trimmed_end(text)[0] == text[0],
    decreases text.len(),
{
    if text.len() > 0 && is_white_space(text.last()) {
        lemma_trimmed_end_keeps_start(text.drop_last());
    }
}

/// No text comes before itself.
pub proof fn law_order_is_irreflexive(a: Seq<char>)
    ensures
        !text_before(a, a),
    decreases a.len(),
{
    if a.len() > 0 {
        law_order_is_irreflexive(a.drop_first());
    }
}

/// Of two different texts one comes before the other.
pub proof fn law_order_is_total(a: Seq<char>, b: Seq<char>)
    ensures
        a == b || text_before(a, b) || text_before(b, a),
    decreases a.len(),
{
    if a.len() == 0 && b.len() == 0 {
        assert(a =~= b);
    }
    if a.len() > 0 && b.len() > 0 && a[0] == b[0] {
        law_order_is_total(a.drop_first(), b.drop_first());
        if a.drop_first() == b.drop_first() {
            assert(a =~= seq![a[0]] + a.drop_first());
            assert(b =~= seq![b[0]] + b.drop_first());
        }
    }
}

/// A text that comes before a second one that comes before a third one comes before the third one.
pub proof fn law_order_is_transitive(a: Seq<char>, b: Seq<char>, c: Seq<char>)
    requires
        text_before(a, b),
        text_before(b, c),
    ensures
        text_before(a, c),
    decreases a.len(),
{
    if a.len() > 0 && a[0] == b[0] && b[0] == c[0] {
        law_order_is_transitive(a.drop_first(), b.drop_first(), c.drop_first());
    }
}

/// The number that a text of decimal digits stands for.
pub open spec fn number_of(text: Seq<char>) -> int
    decreases text.len(),
{
    if text.len() == 0 {
        0
    } else {
        10 * number_of(text.drop_last()) + (text.last() as int - '0' as int)
    }
}

/// The digits of a number stand for it, and only zero starts with a zero.
pub proof fn law_digits_stand_for_their_number(number: nat)
    ensures
        number_of(digits(number)) == number,
        digits(number).len() > 0,
        forall|i: int|
            0 <= i < digits(number).len() ==> '0' as int <= (#[trigger] digits(number)[i]) as int
                <= '9' as int,
        number > 0 ==> digits(number)[0] != '0',
    decreases number,
{
    if number < 10 {
        assert(digits(number).drop_last() =~= Seq::<char>::empty());
        assert(number_of(digits(number).drop_last()) == 0);
    } else {
        law_digits_stand_for_their_number(number / 10);
        assert(digits(number).drop_last() =~= digits(number / 10));
    }
}

} // verus!
