//! The rule strings of the front-end: `pattern ':' action`, where the action
//! is `block`, or `shape ':' latency_ms` with an optional `':' jitter_ms`.
//! Several rules are joined by `;`.

use crate::policy::{RuleAction, ShapingConfig};
use crate::text::{ascii_lowercase, same_text, to_ascii_lowercase, trim, trimmed};
use vstd::prelude::*;

verus! {

/// The fields of `text` between the separators; a text without a separator is one field.
pub open spec fn split_spec(text: Seq<char>, separator: char) -> Seq<Seq<char>>
    decreases text.len(),
{
    if text.len() == 0 {
        seq![Seq::empty()]
    } else {
        let before = split_spec(text.drop_last(), separator);
        if text.last() == separator {
            before.push(Seq::empty())
        } else {
            before.update(before.len() - 1, before.last().push(text.last()))
        }
    }
}

/// Every text has at least one field.
pub proof fn lemma_split_nonempty(text: Seq<char>, separator: char)
    ensures
        split_spec(text, separator).len() >= 1,
    decreases text.len(),
{
    if text.len() > 0 {
        lemma_split_nonempty(text.drop_last(), separator);
    }
}

/// The texts of a list of strings.
pub open spec fn fields_view(fields: Seq<String>) -> Seq<Seq<char>> {
    fields.map_values(|f: String| f@)
}

/// Splits `text` at every `separator`.
pub fn split_text(text: &str, separator: char) -> (fields: Vec<String>)
    ensures
        fields_view(fields@) == split_spec(text@, separator),
        fields@.len() >= 1,
{
    let len: usize = text.unicode_len();
    let mut fields: Vec<String> = Vec::new();
    let mut start: usize = 0;
    let mut i: usize = 0;
    proof {
        assert(text@.take(0) =~= Seq::<char>::empty());
        assert(fields_view(fields@).push(text@.subrange(0, 0)) =~= split_spec(text@.take(0), separator));
    }
    while i < len
        invariant
            start <= i <= len,
            len == text@.len(),
            fields_view(fields@).push(text@.subrange(start as int, i as int)) == split_spec(
                text@.take(i as int),
                separator,
            ),
        decreases len - i,
    {
        let c = text.get_char(i);
        let ghost done = fields_view(fields@);
        proof {
            assert(text@.take(i + 1).drop_last() =~= text@.take(i as int));
            assert(text@.take(i + 1).last() == c);
        }
        if c == separator {
            let ghost field_start = start as int;
            let field = String::from_str(text.substring_char(start, i));
            fields.push(field);
            start = i + 1;
            proof {
                assert(fields_view(fields@) =~= done.push(text@.subrange(field_start, i as int)));
                assert(text@.subrange(start as int, i + 1) =~= Seq::<char>::empty());
            }
        } else {
            proof {
                assert(text@.subrange(start as int, i + 1) =~= text@.subrange(
                    start as int,
                    i as int,
                ).push(c));
                let whole = done.push(text@.subrange(start as int, i as int));
                assert(whole.update(whole.len() - 1, whole.last().push(c)) =~= done.push(
                    text@.subrange(start as int, i + 1),
                ));
            }
        }
        i = i + 1;
    }
    let ghost done = fields_view(fields@);
    let field = String::from_str(text.substring_char(start, len));
    fields.push(field);
    proof {
        assert(text@.take(len as int) =~= text@);
        assert(fields_view(fields@) =~= done.push(text@.subrange(start as int, len as int)));
    }
    fields
}

/// The number that decimal digits spell; `None` for no digits or any other character.
pub open spec fn digits_value(text: Seq<char>) -> Option<nat>
    decreases text.len(),
{
    if text.len() == 0 {
        None
    } else if !('0' <= text.last() && text.last() <= '9') {
        None
    } else if text.len() == 1 {
        Some((text.last() as u32 - '0' as u32) as nat)
    } else {
        match digits_value(text.drop_last()) {
            Some(value) => Some(value * 10 + (text.last() as u32 - '0' as u32) as nat),
            None => None,
        }
    }
}

/// The number that `text` spells: an optional `+` and decimal digits, with a
/// value that a `u32` holds.
pub open spec fn decimal_u32(text: Seq<char>) -> Option<u32> {
    let digits = if text.len() > 0 && text[0] == '+' {
        text.drop_first()
    } else {
        text
    };
    match digits_value(digits) {
        Some(value) => if value <= u32::MAX {
            Some(value as u32)
        } else {
            None
        },
        None => None,
    }
}

/// A number does not get smaller with more digits, and a text with a
/// character that is no digit spells no number.
proof fn lemma_digits_extend(text: Seq<char>, n: int)
    requires
        1 <= n <= text.len(),
    ensures
        digits_value(text.take(n)) is None ==> digits_value(text) is None,
        (digits_value(text.take(n)) is Some && digits_value(text) is Some) ==> digits_value(
            text,
        )->0 >= digits_value(text.take(n))->0,
    decreases text.len() - n,
{
    if n < text.len() {
        lemma_digits_extend(text.drop_last(), n);
        assert(text.drop_last().take(n) =~= text.take(n));
    } else {
        assert(text.take(n) =~= text);
    }
}

/// Reads `text` as a decimal number.
pub fn parse_u32(text: &str) -> (r: Option<u32>)
    ensures
        r == decimal_u32(text@),
{
    let len: usize = text.unicode_len();
    if len == 0 {
        return None;
    }
    let first: usize = if text.get_char(0) == '+' {
        1
    } else {
        0
    };
    let ghost digits = if first == 1 {
        text@.drop_first()
    } else {
        text@
    };
    if first == len {
        assert(digits =~= Seq::<char>::empty());
        return None;
    }
    assert(digits =~= text@.subrange(first as int, len as int));
    let mut acc: u64 = 0;
    let mut i: usize = first;
    while i < len
        invariant
            first <= i <= len,
            first <= 1,
            len == text@.len(),
            digits == text@.subrange(first as int, len as int),
            digits == (if text@.len() > 0 && text@[0] == '+' {
                text@.drop_first()
            } else {
                text@
            }),
            acc <= u32::MAX,
            i > first ==> digits_value(digits.take(i - first)) == Some(acc as nat),
            i == first ==> acc == 0,
        decreases len - i,
    {
        let c = text.get_char(i);
        let ghost n = (i - first + 1) as int;
        proof {
            assert(digits.take(n).last() == c);
            assert(digits.take(n).drop_last() =~= digits.take(n - 1));
            lemma_digits_extend(digits, n);
        }
        if !(c >= '0' && c <= '9') {
            return None;
        }
        let digit: u64 = ((c as u32) - ('0' as u32)) as u64;
        let next: u64 = acc * 10 + digit;
        if next > 0xFFFF_FFFF {
            return None;
        }
        acc = next;
        i = i + 1;
    }
    proof {
        assert(digits.take(len - first) =~= digits);
    }
    Some(acc as u32)
}

/// A rule as the front-end reads it.
#[derive(Debug)]
pub struct ParsedRule {
    pub pattern: String,
    pub action: RuleAction,
}

/// Why a rule string was refused.
#[derive(Debug, Clone, Copy, PartialEq, Eq, Structural)]
pub enum RuleError {
    MissingPattern,
    MissingAction,
    MissingLatency,
    InvalidLatency,
    UnknownAction,
}

impl RuleError {
    /// The message for the error.
    pub fn message(&self) -> (r: &'static str)
        ensures
            r@ == (match self {
                RuleError::MissingPattern => "rule is missing its pattern"@,
                RuleError::MissingAction => "rule is missing its action"@,
                RuleError::MissingLatency => "missing latency"@,
                RuleError::InvalidLatency => "invalid latency"@,
                RuleError::UnknownAction => "unknown action"@,
            }),
    {
        match self {
            RuleError::MissingPattern => "rule is missing its pattern",
            RuleError::MissingAction => "rule is missing its action",
            RuleError::MissingLatency => "missing latency",
            RuleError::InvalidLatency => "invalid latency",
            RuleError::UnknownAction => "unknown action",
        }
    }
}

/// What a rule string means, field by field: the pattern in lower case, and
/// the action `block`, or `shape` with its latency and, where one is given
/// and is a number, its jitter.
pub open spec fn rule_of_fields(fields: Seq<Seq<char>>) -> Result<(Seq<char>, RuleAction), RuleError> {
    if fields.len() < 1 || trimmed(fields[0]).len() == 0 {
        Err(RuleError::MissingPattern)
    } else if fields.len() < 2 {
        Err(RuleError::MissingAction)
    } else {
        let pattern = ascii_lowercase(trimmed(fields[0]));
        let action = ascii_lowercase(trimmed(fields[1]));
        if action == "block"@ {
            Ok((pattern, RuleAction::Block))
        } else if action == "shape"@ {
            if fields.len() < 3 {
                Err(RuleError::MissingLatency)
            } else {
                match decimal_u32(trimmed(fields[2])) {
                    None => Err(RuleError::InvalidLatency),
                    Some(latency_ms) => {
                        let jitter_ms = if fields.len() < 4 {
                            0
                        } else {
                            match decimal_u32(trimmed(fields[3])) {
                                Some(value) => value,
                                None => 0,
                            }
                        };
                        Ok((pattern, RuleAction::Shape(ShapingConfig { latency_ms, jitter_ms })))
                    },
                }
            }
        } else {
            Err(RuleError::UnknownAction)
        }
    }
}

/// What a rule string means.
pub open spec fn parse_rule_spec(input: Seq<char>) -> Result<(Seq<char>, RuleAction), RuleError> {
    rule_of_fields(split_spec(input, ':'))
}

/// Reads one rule.
pub fn parse_rule(input: &str) -> (r: Result<ParsedRule, RuleError>)
    ensures
        match r {
            Ok(rule) => parse_rule_spec(input@) == Ok::<(Seq<char>, RuleAction), RuleError>(
                (rule.pattern@, rule.action),
            ),
            Err(error) => parse_rule_spec(input@) == Err::<(Seq<char>, RuleAction), RuleError>(
                error,
            ),
        },
{
    let fields = split_text(input, ':');
    let ghost texts = fields_view(fields@);
    assert(texts[0] == fields@[0]@);
    let first = trim(fields[0].as_str());
    if first.as_str().unicode_len() == 0 {
        return Err(RuleError::MissingPattern);
    }
    if fields.len() < 2 {
        return Err(RuleError::MissingAction);
    }
    assert(texts[1] == fields@[1]@);
    let pattern = to_ascii_lowercase(first.as_str());
    let action = to_ascii_lowercase(trim(fields[1].as_str()).as_str());
    if same_text(action.as_str(), "block") {
        return Ok(ParsedRule { pattern, action: RuleAction::Block });
    }
    if !same_text(action.as_str(), "shape") {
        return Err(RuleError::UnknownAction);
    }
    if fields.len() < 3 {
        return Err(RuleError::MissingLatency);
    }
    assert(texts[2] == fields@[2]@);
    let latency_ms = match parse_u32(trim(fields[2].as_str()).as_str()) {
        Some(value) => value,
        None => {
            return Err(RuleError::InvalidLatency);
        },
    };
    let jitter_ms: u32 = if fields.len() < 4 {
        0
    } else {
        assert(texts[3] == fields@[3]@);
        match parse_u32(trim(fields[3].as_str()).as_str()) {
            Some(value) => value,
            None => 0,
        }
    };
    Ok(ParsedRule { pattern, action: RuleAction::Shape(ShapingConfig { latency_ms, jitter_ms }) })
}

/// What reading a rule gave, as a mathematical value.
pub open spec fn rule_result(read: Result<ParsedRule, RuleError>) -> Result<
    (Seq<char>, RuleAction),
    RuleError,
> {
    match read {
        Ok(rule) => Ok((rule.pattern@, rule.action)),
        Err(error) => Err(error),
    }
}

/// What a list of entries means: an entry that is empty once trimmed is
/// passed over, and every other entry gives its rule or its error, in the
/// order of the list.
pub open spec fn rules_of_entries(entries: Seq<Seq<char>>) -> Seq<
    Result<(Seq<char>, RuleAction), RuleError>,
>
    decreases entries.len(),
{
    if entries.len() == 0 {
        Seq::empty()
    } else {
        let before = rules_of_entries(entries.drop_last());
        let entry = trimmed(entries.last());
        if entry.len() == 0 {
            before
        } else {
            before.push(parse_rule_spec(entry))
        }
    }
}

/// Reads the rules of a list joined by `;`: an entry that is empty once
/// trimmed is passed over, and every other entry gives its rule or its error.
pub fn parse_rules(spec: &str) -> (rules: Vec<Result<ParsedRule, RuleError>>)
    ensures
        rules@.map_values(|r: Result<ParsedRule, RuleError>| rule_result(r)) == rules_of_entries(
            split_spec(spec@, ';'),
        ),
{
    let entries = split_text(spec, ';');
    let ghost texts = fields_view(entries@);
    let mut rules: Vec<Result<ParsedRule, RuleError>> = Vec::new();
    let mut i: usize = 0;
    proof {
        assert(texts.take(0) =~= Seq::<Seq<char>>::empty());
    }
    while i < entries.len()
        invariant
            i <= entries@.len(),
            texts == fields_view(entries@),
            texts == split_spec(spec@, ';'),
            rules@.map_values(|r: Result<ParsedRule, RuleError>| rule_result(r))
                =~= rules_of_entries(texts.take(i as int)),
        decreases entries@.len() - i,
    {
        let ghost done = rules@.map_values(|r: Result<ParsedRule, RuleError>| rule_result(r));
        proof {
            assert(texts.take(i + 1).drop_last() =~= texts.take(i as int));
            assert(texts.take(i + 1).last() == entries@[i as int]@);
        }
        let entry = trim(entries[i].as_str());
        if entry.as_str().unicode_len() > 0 {
            let read = parse_rule(entry.as_str());
            proof {
                assert(rule_result(read) == parse_rule_spec(entry@));
            }
            rules.push(read);
            proof {
                assert(rules@.map_values(|r: Result<ParsedRule, RuleError>| rule_result(r))
                    =~= done.push(parse_rule_spec(entry@)));
            }
        }
        i = i + 1;
    }
    proof {
        assert(texts.take(entries@.len() as int) =~= texts);
    }
    rules
}

} // verus!
