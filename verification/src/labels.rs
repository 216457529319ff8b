//! The labels of progressive `@override`.

use vstd::prelude::*;
use vstd::utf8::is_ascii_chars;

verus! {

/// The pattern of a label that is a name.
pub const LABEL_PATTERN: &'static str = r"^[a-zA-Z][a-zA-Z0-9_\-:./]*$";

/// The pattern of a label that is a percentage; the number is its first group.
pub const PERCENT_PATTERN: &'static str = r"^percent\((\d{1,2}(\.\d{1,8})?|100)\)$";

/// Whether the character is an ASCII letter.
pub open spec fn is_letter(c: char) -> bool {
    'a' <= c <= 'z' || 'A' <= c <= 'Z'
}

/// Whether the character is an ASCII digit.
pub open spec fn is_digit(c: char) -> bool {
    '0' <= c <= '9'
}

/// Whether the text is made of ASCII digits.
pub open spec fn all_digits(text: Seq<char>) -> bool {
    forall|i: int| 0 <= i < text.len() ==> is_digit(#[trigger] text[i])
}

/// Whether the character may stand in a label behind the first one.
pub open spec fn is_label_char(c: char) -> bool {
    is_letter(c) || is_digit(c) || c == '_' || c == '-' || c == ':' || c == '.' || c == '/'
}

/// Whether the text starts with a letter and goes on in alphanumerics, underscores, minuses,
/// colons, periods and slashes.
pub open spec fn is_standard_label(text: Seq<char>) -> bool {
    text.len() > 0 && is_letter(text[0]) && forall|i: int|
        1 <= i < text.len() ==> is_label_char(#[trigger] text[i])
}

/// Whether the text is a number of `whole` digits, without or with one to eight decimals.
pub open spec fn is_decimal(text: Seq<char>, whole: int) -> bool {
    &&& whole <= text.len()
    &&& all_digits(text.take(whole))
    &&& text.len() == whole || (text[whole] == '.' && 1 <= text.len() - whole - 1 <= 8
        && all_digits(text.skip(whole + 1)))
}

/// Whether the text is a number from 0 to 100: one or two digits with at most eight decimals,
/// or `100`.
pub open spec fn is_percentage(text: Seq<char>) -> bool {
    is_decimal(text, 1) || is_decimal(text, 2) || text == "100"@
}

/// The label for a percentage.
pub open spec fn percent_label(number: Seq<char>) -> Seq<char> {
    "percent("@ + number + ")"@
}

/// Whether the text is a valid label: a standard one, or a percentage.
pub open spec fn is_valid_label(text: Seq<char>) -> bool {
    is_standard_label(text) || exists|number: Seq<char>|
        is_percentage(number) && text == #[trigger] percent_label(number)
}

/// Calls `regex::Regex::new` and `Regex::is_match`: the pattern matches a text that starts with
/// an ASCII letter, then holds only characters of the class, up to its very end.
#[verifier::external_body]
fn matches_label_pattern(pattern: &str, text: &str) -> (matching: bool)
    requires
        pattern@ == LABEL_PATTERN@,
    ensures
        matching == is_standard_label(text@),
{
    regex::Regex::new(pattern).unwrap().is_match(text)
}

/// Calls `regex::Regex::new` and `Regex::captures`: the first group of the match is what stands
/// between the brackets.
///
/// The digit class of the pattern takes the digits of every script. What is left unsaid is
/// which texts with digits outside ASCII match.
#[verifier::external_body]
fn capture_percentage(pattern: &str, text: &str) -> (group: Option<String>)
    requires
        pattern@ == PERCENT_PATTERN@,
    ensures
        match group {
            Some(number) => text@ == percent_label(number@) && (is_ascii_chars(number@)
                ==> is_percentage(number@)),
            None => forall|number: Seq<char>|
                is_percentage(number) ==> text@ != #[trigger] percent_label(number),
        },
{
    let pattern = regex::Regex::new(pattern).unwrap();
    pattern.captures(text).and_then(|c| c.get(1)).map(|m| m.as_str().to_owned())
}

/// A percentage is made of ASCII characters.
proof fn lemma_percentage_is_ascii(number: Seq<char>)
    requires
        is_percentage(number),
    ensures
        is_ascii_chars(number),
{
    reveal_strlit("100");
    assert forall|i: int| 0 <= i < number.len() implies '\0' <= #[trigger] number[i]
        <= '\u{7f}' by {
        if number != "100"@ {
            let whole: int = if is_decimal(number, 1) {
                1
            } else {
                2
            };
            if i < whole {
                assert(is_digit(number.take(whole)[i]));
            } else if i > whole {
                assert(is_digit(number.skip(whole + 1)[i - whole - 1]));
            }
        }
    }
}

/// Two percentages with the same label are the same.
proof fn lemma_percent_label_injective(a: Seq<char>, b: Seq<char>)
    requires
        percent_label(a) == percent_label(b),
    ensures
        a == b,
{
    reveal_strlit("percent(");
    reveal_strlit(")");
    assert(percent_label(a).len() == a.len() + 9);
    assert(percent_label(b).len() == b.len() + 9);
    assert forall|i: int| 0 <= i < a.len() implies a[i] == b[i] by {
        assert(percent_label(a)[i + 8] == a[i]);
        assert(percent_label(b)[i + 8] == b[i]);
    }
    assert(a =~= b);
}

/// Whether a label is valid: a letter followed by alphanumerics, underscores, minuses, colons,
/// periods or slashes; or `percent(x)` where x is a number from 0 to 100.
pub fn is_valid_override_label_complete(label: &str) -> (valid: bool)
    ensures
        valid == is_valid_label(label@),
{
    if label.is_empty() {
        proof {
            reveal_strlit("percent(");
            assert forall|number: Seq<char>| is_percentage(number) implies label@
                != #[trigger] percent_label(number) by {
                assert(percent_label(number).len() > 0);
            }
        }
        return false;
    }
    if matches_label_pattern(LABEL_PATTERN, label) {
        return true;
    }
    match capture_percentage(PERCENT_PATTERN, label) {
        Some(number) => {
            let valid = number.as_str().is_ascii();
            proof {
                assert forall|other: Seq<char>|
                    is_percentage(other) && label@ == #[trigger] percent_label(
                        other,
                    ) implies valid by {
                    lemma_percent_label_injective(other, number@);
                    lemma_percentage_is_ascii(other);
                }
            }
            valid
        },
        None => false,
    }
}

/// The value of a sequence of digits.
pub open spec fn digits_value(digits: Seq<char>) -> nat
    decreases digits.len(),
{
    if digits.len() == 0 {
        0
    } else {
        10 * digits_value(digits.drop_last()) + (digits.last() as nat - '0' as nat) as nat
    }
}

/// The part of a number before its decimal point.
pub open spec fn whole_part(number: Seq<char>) -> Seq<char> {
    if number.len() > 1 && number[1] == '.' {
        number.take(1)
    } else if number.len() > 2 && number[2] == '.' {
        number.take(2)
    } else {
        number
    }
}

/// A percentage is below 100, or it is 100 without decimals.
pub proof fn law_percentage_is_at_most_100(number: Seq<char>)
    requires
        is_percentage(number),
    ensures
        all_digits(whole_part(number)),
        digits_value(whole_part(number)) < 100 || (number == "100"@ && digits_value(whole_part(
            number,
        )) == 100),
{
    reveal_strlit("100");
    reveal_with_fuel(digits_value, 4);
    let whole = whole_part(number);
    if number == "100"@ {
        assert(whole.drop_last()[0] == '1');
        assert(whole.drop_last().drop_last()[0] == '1');
    } else if is_decimal(number, 1) {
        assert(whole =~= number.take(1));
        assert(is_digit(whole[0]));
    } else {
        assert(is_digit(number.take(2)[0]) && is_digit(number.take(2)[1]));
        assert(whole =~= number.take(2));
        assert(whole.drop_last()[0] == whole[0]);
    }
}

/// A valid label is not empty.
pub proof fn law_valid_label_is_not_empty(label: Seq<char>)
    requires
        is_valid_label(label),
    ensures
        label.len() > 0,
{
    if !is_standard_label(label) {
        reveal_strlit("percent(");
        let number = choose|number: Seq<char>|
            is_percentage(number) && label == #[trigger] percent_label(number);
        assert(percent_label(number).len() > 0);
    }
}

/// No label is both a name and a percentage: a name has no bracket.
pub proof fn law_label_forms_are_disjoint(number: Seq<char>)
    ensures
        !is_standard_label(percent_label(number)),
{
    reveal_strlit("percent(");
    assert(percent_label(number)[7] == '(');
    assert(!is_label_char(percent_label(number)[7]));
}

} // verus!
