//! The lint sample: one function per rule, each named after the rule that it
//! is written to draw.

use vstd::prelude::*;
use vstd::string::StringExecFns;
use crate::text::{split_bytes, SPACE};

verus! {

/// Binds a value and never reads it.
pub fn unused_variable() {
    let x: i32 = 42;
}

/// Hands its argument back; the lifetime it names could be left out.
pub fn foo<'a>(s: &'a str) -> (same: &'a str)
    ensures
        same == s,
{
    s
}

/// Holds `foo`, which is never called.
pub fn needless_lifetimes() {
}

/// Splits a text at a pattern of one character and drops the pieces.
pub fn single_char_pattern() {
    let s = "hello world";
    let _ = split_bytes(s.as_bytes(), SPACE);
}

/// Compares a length with zero. Returns the line to print: none, since the
/// list is not empty.
pub fn len_zero() -> (line: Option<&'static str>)
    ensures
        line is None,
{
    let v: Vec<i32> = vec![1, 2, 3];
    if v.len() == 0 {
        Some("empty")
    } else {
        None
    }
}

/// Clones a string that is not used again.
pub fn redundant_clone() {
    let s = String::from_str("hello");
    let _ = s.clone();
}

/// Tests a range by two comparisons. Returns the line to print.
pub fn manual_range_contains() -> (line: Option<&'static str>)
    ensures
        line matches Some(text) && text@ == "in range"@,
{
    let x: i32 = 5;
    if x >= 0 && x < 10 {
        Some("in range")
    } else {
        None
    }
}

/// Borrows where the value would do.
pub fn needless_borrow() {
    let s = String::from_str("hello");
    let _ = &s;
}

/// Counts the items of a loop by hand.
pub fn explicit_counter() {
    let mut i: i32 = 0;
    let items: Vec<i32> = vec![1, 2, 3];
    let mut at: usize = 0;
    while at < items.len()
        invariant
            at <= items@.len(),
            items@.len() == 3,
            i == at,
        decreases items@.len() - at,
    {
        let _item = items[at];
        i += 1;
        at += 1;
    }
}

/// Casts to a narrower type; the value fits.
pub fn cast_possible_truncation() {
    let x: u64 = 1000;
    let _: u32 = x as u32;
}

/// Takes by value what it only reads. Returns the line to print.
pub fn needless_pass_by_value() -> (line: String)
    ensures
        line@ == "hello"@,
{
    let s = String::from_str("hello");
    takes_owned(s)
}

/// The text to print for an owned string: the string itself.
pub fn takes_owned(s: String) -> (line: String)
    ensures
        line == s,
{
    s
}

/// Matches with two arms alike. Returns the line to print.
pub fn match_same_arms() -> (line: &'static str)
    ensures
        line@ == "other"@,
{
    let x: i32 = 5;
    match x {
        1 => "one",
        2 => "one",
        _ => "other",
    }
}

/// Nests two tests that could be one. Returns the line to print.
pub fn collapsible_if() -> (line: Option<&'static str>)
    ensures
        line matches Some(text) && text@ == "both positive"@,
{
    let x: i32 = 5;
    let y: i32 = 10;
    if x > 0 {
        if y > 0 {
            return Some("both positive");
        }
    }
    None
}

/// Compares a flag with `true`. Returns the line to print.
pub fn needless_bool() -> (line: Option<&'static str>)
    ensures
        line matches Some(text) && text@ == "true"@,
{
    let x = true;
    if x == true {
        Some("true")
    } else {
        None
    }
}

/// Adds zero and multiplies by one.
pub fn identity_op() {
    let x: i32 = 5;
    let _ = x + 0;
    let _ = x * 1;
}

/// Maps an option and falls back on another.
pub fn suspicious_map_or() {
    let opt: Option<i32> = Some(5);
    let f = |x: i32| -> (y: i32)
        requires
            x < i32::MAX,
        ensures
            y == x + 1,
        { x + 1 };
    let _ = match opt.map(f) {
        Some(y) => Some(y),
        None => Some(0),
    };
}

/// Tests ten thresholds, one inside the other. Returns the line to print:
/// none, since the value passes five of them only.
pub fn cognitive_complexity() -> (line: Option<&'static str>)
    ensures
        line is None,
{
    let x: i32 = 5;
    if x > 0 {
        if x > 1 {
            if x > 2 {
                if x > 3 {
                    if x > 4 {
                        if x > 5 {
                            if x > 6 {
                                if x > 7 {
                                    if x > 8 {
                                        if x > 9 {
                                            return Some("deep");
                                        }
                                    }
                                }
                            }
                        }
                    }
                }
            }
        }
    }
    None
}

/// The lines that the lint sample prints, in order.
pub open spec fn sample_lines() -> Seq<Seq<char>> {
    seq!["in range"@, "hello"@, "other"@, "both positive"@, "true"@]
}

/// The texts held by a list of strings.
pub open spec fn texts(lines: Seq<String>) -> Seq<Seq<char>> {
    lines.map_values(|l: String| l@)
}

/// Runs every function of the sample and returns what they give to print,
/// in order.
pub fn call_functions() -> (lines: Vec<String>)
    ensures
        texts(lines@) == sample_lines(),
{
    let mut lines: Vec<String> = Vec::new();
    unused_variable();
    needless_lifetimes();
    single_char_pattern();
    if let Some(text) = len_zero() {
        lines.push(String::from_str(text));
    }
    redundant_clone();
    if let Some(text) = manual_range_contains() {
        lines.push(String::from_str(text));
    }
    needless_borrow();
    explicit_counter();
    cast_possible_truncation();
    lines.push(needless_pass_by_value());
    lines.push(String::from_str(match_same_arms()));
    if let Some(text) = collapsible_if() {
        lines.push(String::from_str(text));
    }
    if let Some(text) = needless_bool() {
        lines.push(String::from_str(text));
    }
    identity_op();
    suspicious_map_or();
    if let Some(text) = cognitive_complexity() {
        lines.push(String::from_str(text));
    }
    assert(texts(lines@) =~= sample_lines());
    lines
}

} // verus!
