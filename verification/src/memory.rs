//! The memory budget of a survey, as its user writes it: a number, and after
//! it a letter for the unit. `100M` is a hundred times 1024 times 1024 bytes.
//!
//! The text is taken apart by a regular expression, which the crate `regex`
//! matches. What the two groups of the match spell is worked out here.

use vstd::prelude::*;
use vstd::string::*;
use vstd::utf8::is_ascii_chars;
use crate::entries::ENTRY_LEN;

verus! {

/// A compiled regular expression of the crate `regex`. Nothing inside it is
/// visible here.
#[verifier::external_type_specification]
#[verifier::external_body]
pub struct ExRegex(regex::Regex);

/// The error with which the crate `regex` turns a pattern down.
#[verifier::external_type_specification]
#[verifier::external_body]
pub struct ExRegexError(regex::Error);

/// Whether the crate `regex` accepts `pattern`.
pub uninterp spec fn regex_accepts(pattern: Seq<char>) -> bool;

/// The pattern that `re` was compiled from.
pub uninterp spec fn regex_pattern(re: regex::Regex) -> Seq<char>;

/// What the first match of `pattern` in `text` captures: `None` where
/// `pattern` matches nowhere in `text`, else one item for each group of
/// `pattern` in the order of their opening brackets, after one for the
/// whole match. An item is the text that the group matched, or `None` where
/// the group took no part in the match.
pub uninterp spec fn regex_captures(pattern: Seq<char>, text: Seq<char>) -> Option<
    Seq<Option<Seq<char>>>,
>;

/// `Regex::new` of the crate `regex`. Whether it accepts a pattern depends on
/// the pattern alone; the regular expression that comes back is one for that
/// pattern.
#[verifier::external_body]
fn regex_new(pattern: &str) -> (re: Result<regex::Regex, regex::Error>)
    ensures
        re is Ok == regex_accepts(pattern@),
        re is Ok ==> regex_pattern(re->Ok_0) == pattern@,
{
    regex::Regex::new(pattern)
}

/// `Regex::captures` of the crate `regex`, with each group of the match
/// copied out as text. What it finds depends on the pattern and the text
/// alone.
#[verifier::external_body]
fn regex_groups(re: &regex::Regex, text: &str) -> (groups: Option<Vec<Option<String>>>)
    ensures
        groups.deep_view() == regex_captures(regex_pattern(*re), text@),
{
    re.captures(text).map(|caps| caps.iter().map(|m| m.map(|m| m.as_str().to_string())).collect())
}

/// The pattern of a memory budget: a run of digits in the first group, and
/// in the second group the letter of a unit, or nothing.
pub const MEMORY_PATTERN: &'static str = "(\\d+)([bBkKmMgG]?)";

/// Whether `c` is one of the digits `0` to `9`.
pub open spec fn is_digit(c: char) -> bool {
    '0' <= c <= '9'
}

/// The number that a run of digits spells in base ten.
pub open spec fn decimal_value(digits: Seq<char>) -> nat
    decreases digits.len(),
{
    if digits.len() == 0 {
        0
    } else {
        decimal_value(digits.drop_last()) * 10 + (digits.last() as nat - '0' as nat) as nat
    }
}

/// Whether `text` is a run of one or more digits.
pub open spec fn all_digits(text: Seq<char>) -> bool {
    text.len() > 0 && forall|i: int| 0 <= i < text.len() ==> is_digit(#[trigger] text[i])
}

/// The number that `text` spells, where it is a run of digits and the number
/// fits in 64 bits.
pub open spec fn decimal(text: Seq<char>) -> Option<u64> {
    if all_digits(text) && decimal_value(text) <= u64::MAX {
        Some(decimal_value(text) as u64)
    } else {
        None
    }
}

/// The number of bytes in the unit that `suffix` names: `G` or `g` for
/// 1024 * 1024 * 1024, `M` or `m` for 1024 * 1024, `K` or `k` for 1024.
/// Anything else stands for single bytes.
pub open spec fn unit(suffix: Seq<char>) -> nat {
    if suffix == seq!['G'] || suffix == seq!['g'] {
        1024 * 1024 * 1024
    } else if suffix == seq!['M'] || suffix == seq!['m'] {
        1024 * 1024
    } else if suffix == seq!['K'] || suffix == seq!['k'] {
        1024
    } else {
        1
    }
}

/// The number of bytes that a number and a unit spell, where the number is a
/// run of digits and the product fits in 64 bits.
pub open spec fn scaled(number: Seq<char>, suffix: Seq<char>) -> Option<u64> {
    if all_digits(number) && decimal_value(number) * unit(suffix) <= u64::MAX {
        Some((decimal_value(number) * unit(suffix)) as u64)
    } else {
        None
    }
}

/// The number of bytes that the groups of a match spell. The first group is
/// the number and the second the unit. A number that took no part in the
/// match counts as `0`, and a unit that took no part as none.
pub open spec fn memory_usage(groups: Option<Seq<Option<Seq<char>>>>) -> Option<u64> {
    match groups {
        None => None,
        Some(found) => {
            let number = if found.len() > 1 && found[1] is Some {
                found[1]->0
            } else {
                seq!['0']
            };
            let suffix = if found.len() > 2 && found[2] is Some {
                found[2]->0
            } else {
                Seq::empty()
            };
            scaled(number, suffix)
        },
    }
}

/// A longer run of digits spells no smaller a number than its front.
pub proof fn lemma_decimal_value_grows(digits: Seq<char>, n: int)
    requires
        0 <= n <= digits.len(),
    ensures
        decimal_value(digits.take(n)) <= decimal_value(digits),
    decreases digits.len() - n,
{
    if n == digits.len() {
        assert(digits.take(n) =~= digits);
    } else {
        assert(digits.take(n + 1).drop_last() =~= digits.take(n));
        lemma_decimal_value_grows(digits, n + 1);
    }
}

/// Reads a run of digits as a number in base ten.
pub fn parse_decimal(text: &str) -> (value: Option<u64>)
    ensures
        value == decimal(text@),
{
    if !text.is_ascii() {
        return None;
    }
    proof {
        is_ascii_spec_bytes(text);
    }
    let bytes = text.as_bytes();
    if bytes.len() == 0 {
        return None;
    }
    let mut value: u64 = 0;
    let mut i: usize = 0;
    while i < bytes.len()
        invariant
            i <= bytes@.len() == text@.len(),
            is_ascii_chars(text@),
            forall|j: int| 0 <= j < text@.len() ==> bytes@[j] == text@[j] as u8,
            forall|j: int| 0 <= j < i ==> is_digit(#[trigger] text@[j]),
            value == decimal_value(text@.take(i as int)),
        decreases bytes@.len() - i,
    {
        let b = bytes[i];
        if b < 48 || b > 57 {
            assert(!is_digit(text@[i as int]));
            return None;
        }
        assert(is_digit(text@[i as int]));
        let digit = (b - 48) as u64;
        proof {
            assert(text@.take(i + 1).drop_last() =~= text@.take(i as int));
            assert(decimal_value(text@.take(i + 1)) == value * 10 + digit);
            lemma_decimal_value_grows(text@, i + 1);
        }
        let tens = match value.checked_mul(10) {
            Some(tens) => tens,
            None => {
                return None;
            },
        };
        value = match tens.checked_add(digit) {
            Some(sum) => sum,
            None => {
                return None;
            },
        };
        i = i + 1;
    }
    assert(text@.take(i as int) =~= text@);
    Some(value)
}

/// The number of bytes in the unit that `suffix` names.
pub fn unit_of(suffix: &str) -> (bytes: u64)
    ensures
        bytes == unit(suffix@),
{
    proof {
        assert(is_ascii_chars(seq!['G']) && is_ascii_chars(seq!['g']));
        assert(is_ascii_chars(seq!['M']) && is_ascii_chars(seq!['m']));
        assert(is_ascii_chars(seq!['K']) && is_ascii_chars(seq!['k']));
    }
    if !suffix.is_ascii() {
        return 1;
    }
    proof {
        is_ascii_spec_bytes(suffix);
    }
    let bytes = suffix.as_bytes();
    if bytes.len() != 1 {
        return 1;
    }
    let letter = bytes[0];
    assert(suffix@ =~= seq![suffix@[0]]);
    assert(letter == suffix@[0] as u8);
    if letter == 71 || letter == 103 {
        assert(suffix@[0] == 'G' || suffix@[0] == 'g');
        1024 * 1024 * 1024
    } else if letter == 77 || letter == 109 {
        assert(suffix@[0] == 'M' || suffix@[0] == 'm');
        1024 * 1024
    } else if letter == 75 || letter == 107 {
        assert(suffix@[0] == 'K' || suffix@[0] == 'k');
        1024
    } else {
        1
    }
}

/// Works out the number of bytes that a number and a unit spell.
pub fn scale(number: &str, suffix: &str) -> (bytes: Option<u64>)
    ensures
        bytes == scaled(number@, suffix@),
{
    let unit = unit_of(suffix);
    match parse_decimal(number) {
        None => {
            proof {
                if all_digits(number@) {
                    assert(decimal_value(number@) * unit >= decimal_value(number@))
                        by (nonlinear_arith)
                        requires
                            unit >= 1,
                    ;
                }
            }
            None
        },
        Some(value) => value.checked_mul(unit),
    }
}

/// Works out the number of bytes that the groups of a match spell.
pub fn memory_usage_of(groups: &Option<Vec<Option<String>>>) -> (bytes: Option<u64>)
    ensures
        bytes == memory_usage(groups.deep_view()),
{
    match groups {
        None => None,
        Some(found) => {
            let ghost spelled = groups.deep_view()->0;
            assert(spelled.len() == found@.len());
            let number = if found.len() > 1 {
                assert(spelled[1] == found@[1].deep_view());
                match &found[1] {
                    Some(text) => text.as_str(),
                    None => "0",
                }
            } else {
                "0"
            };
            let suffix = if found.len() > 2 {
                assert(spelled[2] == found@[2].deep_view());
                match &found[2] {
                    Some(text) => text.as_str(),
                    None => "",
                }
            } else {
                ""
            };
            proof {
                reveal_strlit("0");
                reveal_strlit("");
                assert("0"@ =~= seq!['0']);
                assert(""@ =~= Seq::<char>::empty());
            }
            scale(number, suffix)
        },
    }
}

/// The number of bytes that `text` asks for, as far as the crate `regex`
/// accepts [`MEMORY_PATTERN`].
pub open spec fn parsed_memory_usage(text: Seq<char>) -> Option<u64> {
    if regex_accepts(MEMORY_PATTERN@) {
        memory_usage(regex_captures(MEMORY_PATTERN@, text))
    } else {
        None
    }
}

/// Reads a memory budget such as `100M`: the first run of digits in
/// `mem_str`, times the unit that the letter after it names. There is no
/// result where `mem_str` holds no digit, or where the number of bytes does
/// not fit in 64 bits.
pub fn parse_memory_usage(mem_str: &str) -> (bytes: Option<u64>)
    ensures
        bytes == parsed_memory_usage(mem_str@),
{
    match regex_new(MEMORY_PATTERN) {
        Err(_) => None,
        Ok(re) => {
            let groups = regex_groups(&re, mem_str);
            memory_usage_of(&groups)
        },
    }
}

/// The number of entries that a sorted run may hold in a memory budget of
/// `memory_usage` bytes: eight tenths of the budget, at [`ENTRY_LEN`] bytes
/// for each entry.
pub fn btree_max_entries(memory_usage: u64) -> (entries: u64)
    ensures
        entries == ((memory_usage as int / 10) * 8) / (ENTRY_LEN as int),
{
    ((memory_usage / 10) * 8) / (ENTRY_LEN as u64)
}

} // verus!
