//! Regular expressions of the standard library.

use ::regex::Regex as CompiledPattern;
use vstd::prelude::*;
use vstd::string::StringExecFns;

use crate::error::{ErrorV, Lovm2Error, Lovm2Result};
use crate::value::data::box_spec;
use crate::value::heap::Heap;
use crate::value::{view_values, Value, ValueV};

verus! {

broadcast use crate::value::group_value_views;

#[verifier::external_type_specification]
#[verifier::external_body]
pub struct ExCompiledPattern(CompiledPattern);

/// Text of the error of a pattern that does not compile, or `None` where it
/// compiles (`regex::Regex::new`).
pub uninterp spec fn regex_error(pattern: Seq<char>) -> Option<Seq<char>>;

/// Whether the pattern matches somewhere in the text (`Regex::is_match`).
pub uninterp spec fn regex_matches(pattern: Seq<char>, text: Seq<char>) -> bool;

/// Groups of the first match of the pattern in the text, `None` for a group
/// that took no part, or `None` where nothing matches (`Regex::captures`).
pub uninterp spec fn regex_captures(pattern: Seq<char>, text: Seq<char>) -> Option<Seq<Option<Seq<char>>>>;

/// A compiled regular expression together with its pattern.
pub struct Regex {
    pattern: String,
    inner: CompiledPattern,
}

impl Regex {
    /// The pattern the expression was compiled from.
    pub closed spec fn pattern(&self) -> Seq<char> {
        self.pattern@
    }
}

/// Compiles a pattern (`regex::Regex::new`); the error is given by its text.
#[verifier::external_body]
fn compile(pattern: &str) -> (r: Result<CompiledPattern, String>)
    ensures
        match r {
            Ok(_) => regex_error(pattern@) is None,
            Err(m) => regex_error(pattern@) == Some(m@),
        },
{
    CompiledPattern::new(pattern).map_err(|e| e.to_string())
}

/// Whether the compiled pattern of `re` matches the text
/// (`regex::Regex::is_match`).
#[verifier::external_body]
fn matches_text(re: &Regex, text: &str) -> (r: bool)
    ensures
        r == regex_matches(re.pattern(), text@),
{
    re.inner.is_match(text)
}

/// Groups of the first match of `re` in the text (`regex::Regex::captures`),
/// each group as owned text.
#[verifier::external_body]
fn captures_text(re: &Regex, text: &str) -> (r: Option<Vec<Option<String>>>)
    ensures
        match (r, regex_captures(re.pattern(), text@)) {
            (Some(v), Some(g)) => v@.map_values(|x: Option<String>| match x {
                Some(s) => Some(s@),
                None => None,
            }) == g,
            (None, None) => true,
            _ => false,
        },
{
    re.inner.captures(text).map(|c| (0..c.len()).map(|i| c.get(i).map(|m| m.as_str().to_string())).collect())
}

/// Compile `pat`; an error carries the text of the compiler's error.
pub fn new_regex(pat: &str) -> (r: Lovm2Result<Regex>)
    ensures
        match (r, regex_error(pat@)) {
            (Ok(re), None) => re.pattern() == pat@,
            (Err(e), Some(m)) => e@ == (ErrorV { ty: None, msg: m }),
            _ => false,
        },
{
    match compile(pat) {
        Ok(inner) => Ok(Regex { pattern: String::from_str(pat), inner }),
        Err(m) => Err(Lovm2Error::from_string(m)),
    }
}

/// Whether the expression matches somewhere in the text.
pub fn is_match(regex: &Regex, text: &str) -> (r: bool)
    ensures
        r == regex_matches(regex.pattern(), text@),
{
    matches_text(regex, text)
}

/// A group as value: its text, or `Nil` where it took no part.
pub open spec fn group_value(g: Option<Seq<char>>) -> ValueV {
    match g {
        Some(s) => ValueV::Str(s),
        None => ValueV::Nil,
    }
}

/// The groups of the first match as a list in a new cell, or `None` where
/// the expression does not match.
pub fn captures(heap: &mut Heap, regex: &Regex, text: &str) -> (r: Option<Value>)
    ensures
        match regex_captures(regex.pattern(), text@) {
            Some(g) => r matches Some(v) && (final(heap).cells_v(), v@) == box_spec(
                old(heap).cells_v(),
                ValueV::List(g.map_values(|x: Option<Seq<char>>| group_value(x))),
            ),
            None => r is None && final(heap).cells_v() == old(heap).cells_v(),
        },
{
    let groups = match captures_text(regex, text) {
        Some(g) => g,
        None => {
            return None;
        },
    };
    let ghost gv = groups@.map_values(|x: Option<String>| match x {
        Some(s) => Some(s@),
        None => None,
    });
    let mut vals: Vec<Value> = Vec::new();
    let mut i: usize = 0;
    while i < groups.len()
        invariant
            i <= groups@.len(),
            gv == groups@.map_values(|x: Option<String>| match x {
                Some(s) => Some(s@),
                None => None,
            }),
            view_values(vals@) == gv.take(i as int).map_values(|x: Option<Seq<char>>| group_value(x)),
        decreases groups@.len() - i,
    {
        let v = match &groups[i] {
            Some(s) => Value::Str(s.clone()),
            None => Value::Nil,
        };
        let ghost before = view_values(vals@);
        vals.push(v);
        assert(view_values(vals@) =~= before.push(v@));
        assert(gv.take(i + 1).map_values(|x: Option<Seq<char>>| group_value(x)) =~= gv.take(i as int).map_values(
            |x: Option<Seq<char>>| group_value(x),
        ).push(group_value(gv[i as int])));
        i += 1;
    }
    assert(gv.take(i as int) =~= gv);
    Some(heap.box_value(Value::List(vals)))
}

} // verus!
