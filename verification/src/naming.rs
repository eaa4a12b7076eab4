//! How a routing policy is written in a configuration: `RoundRobin`, `Random`,
//! `LeastLoaded`, `Hash`, `PowerOfK[k=2]`, `PowerOfKWithUpdates[k=2]`.

use crate::config::ConfigError;
use crate::selector::SelectorKind;
use vstd::prelude::*;

verus! {

/// `c` is one of the ten decimal digits.
pub open spec fn is_digit(c: char) -> bool {
    '0' <= c <= '9'
}

/// Every character of `text` is a decimal digit.
pub open spec fn all_digits(text: Seq<char>) -> bool {
    forall|i: int| 0 <= i < text.len() ==> is_digit(#[trigger] text[i])
}

/// The number that a row of decimal digits stands for.
pub open spec fn digits_value(digits: Seq<char>) -> nat
    decreases digits.len(),
{
    if digits.len() == 0 {
        0
    } else {
        digits_value(digits.drop_last()) * 10 + (digits.last() as nat - '0' as nat) as nat
    }
}

/// The number that `text` stands for: decimal digits, at least one, with or
/// without a `+` before them, and no greater than a `usize` can hold. Any
/// other text stands for no number.
pub open spec fn number_written(text: Seq<char>) -> Option<usize> {
    let digits = if text.len() > 0 && text[0] == '+' {
        text.skip(1)
    } else {
        text
    };
    if digits.len() > 0 && all_digits(digits) && digits_value(digits) <= usize::MAX {
        Some(digits_value(digits) as usize)
    } else {
        None
    }
}

/// `name` is `opening`, then at least one character, the last of them `]`.
pub open spec fn has_argument(name: Seq<char>, opening: Seq<char>) -> bool {
    &&& opening.is_prefix_of(name)
    &&& name.len() > opening.len()
    &&& name.last() == ']'
}

/// What stands between `opening` and the closing bracket of `name`.
pub open spec fn argument(name: Seq<char>, opening: Seq<char>) -> Seq<char> {
    name.subrange(opening.len() as int, name.len() - 1)
}

/// The policy that `name` names, with the number it is set up with, or what
/// is wrong with the name.
pub open spec fn selector_named(name: Seq<char>) -> Result<SelectorKind, ConfigError> {
    if name == "RoundRobin"@ {
        Ok(SelectorKind::RoundRobin)
    } else if name == "Random"@ {
        Ok(SelectorKind::Random)
    } else if name == "LeastLoaded"@ {
        Ok(SelectorKind::LeastLoaded)
    } else if name == "Hash"@ {
        Ok(SelectorKind::Hash)
    } else if has_argument(name, "PowerOfK[k="@) {
        match number_written(argument(name, "PowerOfK[k="@)) {
            Some(k) => Ok(SelectorKind::PowerOfK(k)),
            None => Err(ConfigError::BadSampleSize),
        }
    } else if has_argument(name, "PowerOfKWithUpdates[k="@) {
        match number_written(argument(name, "PowerOfKWithUpdates[k="@)) {
            Some(k) => Ok(SelectorKind::PowerOfKWithUpdates(k)),
            None => Err(ConfigError::BadSampleSize),
        }
    } else {
        Err(ConfigError::UnknownSelector)
    }
}

/// A beginning of a row of digits stands for no greater a number than the
/// whole row.
pub proof fn lemma_digits_value_grows(digits: Seq<char>, n: int)
    requires
        all_digits(digits),
        0 <= n <= digits.len(),
    ensures
        digits_value(digits.take(n)) <= digits_value(digits),
    decreases digits.len(),
{
    if n == digits.len() {
        assert(digits.take(n) =~= digits);
    } else {
        lemma_digits_value_grows(digits.drop_last(), n);
        assert(digits.drop_last().take(n) =~= digits.take(n));
        assert(is_digit(digits.last()));
    }
}

/// The characters of `text`.
pub(crate) fn chars_of(text: &str) -> (chars: Vec<char>)
    ensures
        chars@ == text@,
{
    let mut chars: Vec<char> = Vec::new();
    for c in iter: text.chars()
        invariant
            iter.seq() == text@,
            chars@ == iter.seq().take(iter.index() as int),
    {
        chars.push(c);
        assert(chars@ =~= iter.seq().take(iter.index() + 1));
    }
    assert(text@.take(text@.len() as int) =~= text@);
    chars
}

/// Whether `name` begins with `opening`.
fn begins_with(name: &Vec<char>, opening: &Vec<char>) -> (begins: bool)
    ensures
        begins == opening@.is_prefix_of(name@),
{
    if name.len() < opening.len() {
        return false;
    }
    let mut i: usize = 0;
    while i < opening.len()
        invariant
            opening@.len() <= name@.len(),
            i <= opening@.len(),
            forall|j: int| 0 <= j < i ==> name@[j] == opening@[j],
        decreases opening@.len() - i,
    {
        if name[i] != opening[i] {
            assert(name@.subrange(0, opening@.len() as int)[i as int] != opening@[i as int]);
            return false;
        }
        i += 1;
    }
    assert(opening@ =~= name@.subrange(0, opening@.len() as int));
    true
}

/// Whether `name` is `literal`.
pub(crate) fn is_text(name: &Vec<char>, literal: &str) -> (same: bool)
    ensures
        same == (name@ == literal@),
{
    let wanted = chars_of(literal);
    if name.len() != wanted.len() {
        return false;
    }
    let same = begins_with(name, &wanted);
    assert(name@.subrange(0, name@.len() as int) =~= name@);
    same
}

/// Where `name` is `opening`, an argument and `]`: the number the argument
/// stands for, if it stands for one. `None` where `name` is not of that form.
fn numbered(name: &Vec<char>, opening: &str) -> (found: Option<Option<usize>>)
    ensures
        found is Some <==> has_argument(name@, opening@),
        found matches Some(number) ==> number == number_written(argument(name@, opening@)),
{
    let wanted = chars_of(opening);
    if name.len() <= wanted.len() || name[name.len() - 1] != ']' || !begins_with(name, &wanted) {
        return None;
    }
    Some(read_number(name, wanted.len(), name.len() - 1))
}

/// The number that the characters of `text` from `from` up to `to` stand for.
fn read_number(text: &Vec<char>, from: usize, to: usize) -> (number: Option<usize>)
    requires
        from <= to <= text@.len(),
    ensures
        number == number_written(text@.subrange(from as int, to as int)),
{
    let ghost whole = text@.subrange(from as int, to as int);
    let start = if from < to && text[from] == '+' {
        from + 1
    } else {
        from
    };
    let ghost digits = text@.subrange(start as int, to as int);
    assert(digits =~= if whole.len() > 0 && whole[0] == '+' {
        whole.skip(1)
    } else {
        whole
    });
    if start == to {
        return None;
    }
    let mut value: usize = 0;
    let mut i: usize = start;
    assert(digits.take(0) =~= Seq::<char>::empty());
    while i < to
        invariant
            from <= start <= i <= to <= text@.len(),
            start < to,
            whole == text@.subrange(from as int, to as int),
            digits == text@.subrange(start as int, to as int),
            digits == if whole.len() > 0 && whole[0] == '+' {
                whole.skip(1)
            } else {
                whole
            },
            all_digits(digits.take(i - start)),
            value == digits_value(digits.take(i - start)),
        decreases to - i,
    {
        let c = text[i];
        assert(c == digits[i - start]);
        if c < '0' || c > '9' {
            assert(!is_digit(digits[i - start]));
            return None;
        }
        let digit = (c as u32 - '0' as u32) as usize;
        proof {
            assert(digits.take(i - start + 1).drop_last() =~= digits.take(i - start));
            assert(digits.take(i - start + 1).last() == c);
            if all_digits(digits) {
                lemma_digits_value_grows(digits, i - start + 1);
            }
        }
        let tenfold = match value.checked_mul(10) {
            Some(tenfold) => tenfold,
            None => {
                return None;
            },
        };
        value = match tenfold.checked_add(digit) {
            Some(sum) => sum,
            None => {
                return None;
            },
        };
        i += 1;
    }
    assert(digits.take(to - start) =~= digits);
    Some(value)
}

/// Reads the name of a routing policy.
pub fn parse_selector_name(name: &str) -> (kind: Result<SelectorKind, ConfigError>)
    ensures
        kind == selector_named(name@),
{
    let chars = chars_of(name);
    if is_text(&chars, "RoundRobin") {
        return Ok(SelectorKind::RoundRobin);
    }
    if is_text(&chars, "Random") {
        return Ok(SelectorKind::Random);
    }
    if is_text(&chars, "LeastLoaded") {
        return Ok(SelectorKind::LeastLoaded);
    }
    if is_text(&chars, "Hash") {
        return Ok(SelectorKind::Hash);
    }
    if let Some(number) = numbered(&chars, "PowerOfK[k=") {
        return match number {
            Some(k) => Ok(SelectorKind::PowerOfK(k)),
            None => Err(ConfigError::BadSampleSize),
        };
    }
    if let Some(number) = numbered(&chars, "PowerOfKWithUpdates[k=") {
        return match number {
            Some(k) => Ok(SelectorKind::PowerOfKWithUpdates(k)),
            None => Err(ConfigError::BadSampleSize),
        };
    }
    Err(ConfigError::UnknownSelector)
}

} // verus!
