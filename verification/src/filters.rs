//! The one rule for what an exclude pattern may be, and the rule for the
//! per-process transfer setting.
//!
//! Refusing rather than repairing is the point. rclone strips a filters-file
//! line but hands a command-line value to its matcher untouched, so a padded
//! pattern would select one set of files for the empty-source probe and another
//! for the sync that probe guards.
use crate::text::{
    concat, contains_char, decimal, decimal_string, is_blank, is_trimmed, trim,
};
use vstd::prelude::*;

verus! {

/// `format!("{:?}", s)`: the Debug form of a string (quoted, with escapes).
pub uninterp spec fn debug_form(s: Seq<char>) -> Seq<char>;

/// `format!("{:?}", s)` through `<str as Debug>::fmt`. The result is named,
/// not spelled out: it is a function of the text alone.
#[verifier::external_body]
pub(crate) fn debug_text(s: &str) -> (r: String)
    ensures
        r@ == debug_form(s@),
{
    format!("{:?}", s)
}

pub open spec fn has_line_break(s: Seq<char>) -> bool {
    s.contains('\n') || s.contains('\r')
}

/// What the exclude rule makes of one settings row.
pub enum PatternVerdict {
    /// Refused: a line break would forge extra filter rules.
    LineBreak,
    /// Empty or only spaces: a blank row, not a filter.
    Blank,
    /// Refused: whitespace at either end.
    Padded,
    /// A filter pattern, used as written.
    Pattern,
}

pub open spec fn pattern_verdict(s: Seq<char>) -> PatternVerdict {
    if has_line_break(s) {
        PatternVerdict::LineBreak
    } else if trim(s).len() == 0 {
        PatternVerdict::Blank
    } else if trim(s) != s {
        PatternVerdict::Padded
    } else {
        PatternVerdict::Pattern
    }
}

pub open spec fn line_break_message(s: Seq<char>) -> Seq<char> {
    "Exclude pattern contains a line break, which would forge extra filter rules: "@
        + debug_form(s)
}

pub open spec fn padding_message(s: Seq<char>) -> Seq<char> {
    "Exclude pattern has leading or trailing whitespace. rclone strips it from a filters file but not from a command-line argument, so the two would select different files. Remove the spaces: "@
        + debug_form(s)
}

/// The refusal for a pattern, if the rule refuses it.
pub open spec fn pattern_error(s: Seq<char>) -> Option<Seq<char>> {
    match pattern_verdict(s) {
        PatternVerdict::LineBreak => Some(line_break_message(s)),
        PatternVerdict::Padded => Some(padding_message(s)),
        _ => None,
    }
}

/// Check one exclude pattern, where it is saved and again where it is read.
///
/// A line break is rejected before anything else, so an entry that is only
/// whitespace and a newline is refused rather than passed over as blank.
pub fn validate_exclude_pattern(pattern: &str) -> (r: Result<Option<&str>, String>)
    ensures
        match r {
            Ok(None) => pattern_verdict(pattern@) is Blank,
            Ok(Some(p)) => pattern_verdict(pattern@) is Pattern && p@ == pattern@,
            Err(e) => pattern_error(pattern@) == Some(e@),
        },
{
    if contains_char(pattern, '\n') || contains_char(pattern, '\r') {
        let d = debug_text(pattern);
        return Err(
            concat(
                "Exclude pattern contains a line break, which would forge extra filter rules: ",
                d.as_str(),
            ),
        );
    }
    if is_blank(pattern) {
        return Ok(None);
    }
    if !is_trimmed(pattern) {
        let d = debug_text(pattern);
        return Err(
            concat(
                "Exclude pattern has leading or trailing whitespace. rclone strips it from a filters file but not from a command-line argument, so the two would select different files. Remove the spaces: ",
                d.as_str(),
            ),
        );
    }
    Ok(Some(pattern))
}

/// The refusal for a list: that of its first refused entry.
pub open spec fn first_pattern_error(patterns: Seq<Seq<char>>) -> Option<Seq<char>>
    decreases patterns.len(),
{
    if patterns.len() == 0 {
        None
    } else {
        match pattern_error(patterns[0]) {
            Some(e) => Some(e),
            None => first_pattern_error(patterns.drop_first()),
        }
    }
}

pub proof fn lemma_first_pattern_error_prefix(ps: Seq<Seq<char>>, i: int)
    requires
        0 <= i < ps.len(),
        forall|j: int| 0 <= j < i ==> pattern_error(#[trigger] ps[j]) is None,
    ensures
        first_pattern_error(ps) == first_pattern_error(ps.subrange(i, ps.len() as int)),
    decreases i,
{
    if i > 0 {
        assert(ps.drop_first().subrange(i - 1, ps.drop_first().len() as int) =~= ps.subrange(
            i,
            ps.len() as int,
        ));
        assert(pattern_error(ps[0]) is None);
        lemma_first_pattern_error_prefix(ps.drop_first(), i - 1);
    } else {
        assert(ps.subrange(0, ps.len() as int) =~= ps);
    }
}

pub proof fn lemma_first_pattern_error_none(ps: Seq<Seq<char>>)
    requires
        forall|j: int| 0 <= j < ps.len() ==> pattern_error(#[trigger] ps[j]) is None,
    ensures
        first_pattern_error(ps) is None,
    decreases ps.len(),
{
    if ps.len() > 0 {
        assert(pattern_error(ps[0]) is None);
        lemma_first_pattern_error_none(ps.drop_first());
    }
}

/// The patterns are refused exactly when one of them is, and then with the
/// error of the first one refused: every pattern before it is accepted.
pub proof fn law_first_pattern_error_is_the_least_failing(ps: Seq<Seq<char>>)
    ensures
        first_pattern_error(ps) is None <==> forall|i: int|
            0 <= i < ps.len() ==> pattern_error(#[trigger] ps[i]) is None,
        first_pattern_error(ps) matches Some(e) ==> exists|i: int|
            0 <= i < ps.len() && pattern_error(#[trigger] ps[i]) == Some(e) && forall|j: int|
                0 <= j < i ==> pattern_error(#[trigger] ps[j]) is None,
    decreases ps.len(),
{
    if ps.len() > 0 {
        law_first_pattern_error_is_the_least_failing(ps.drop_first());
        assert forall|i: int| 0 < i < ps.len() implies ps[i] == ps.drop_first()[i - 1] by {}
        if pattern_error(ps[0]) is None {
            if first_pattern_error(ps) is None {
                assert forall|i: int| 0 <= i < ps.len() implies pattern_error(#[trigger] ps[i]) is None by {
                    if i > 0 {
                        assert(ps[i] == ps.drop_first()[i - 1]);
                    }
                }
            }
            if let Some(e) = first_pattern_error(ps) {
                let k = choose|k: int|
                    0 <= k < ps.drop_first().len() && pattern_error(#[trigger] ps.drop_first()[k]) == Some(e)
                        && forall|j: int| 0 <= j < k ==> pattern_error(#[trigger] ps.drop_first()[j]) is None;
                assert(ps[k + 1] == ps.drop_first()[k]);
                assert forall|j: int| 0 <= j < k + 1 implies pattern_error(#[trigger] ps[j]) is None by {
                    if j > 0 {
                        assert(ps[j] == ps.drop_first()[j - 1]);
                    }
                }
            }
            if forall|i: int| 0 <= i < ps.len() ==> pattern_error(#[trigger] ps[i]) is None {
                assert forall|i: int| 0 <= i < ps.drop_first().len() implies pattern_error(
                    #[trigger] ps.drop_first()[i],
                ) is None by {
                    assert(ps.drop_first()[i] == ps[i + 1]);
                }
            }
        }
    }
}

/// Validate a whole list, rejecting on the first bad entry.
pub fn validate_excludes(patterns: &[String]) -> (r: Result<(), String>)
    ensures
        match r {
            Ok(_) => first_pattern_error(patterns@.map_values(|s: String| s@)) is None,
            Err(e) => first_pattern_error(patterns@.map_values(|s: String| s@)) == Some(e@),
        },
{
    let ghost ps = patterns@.map_values(|s: String| s@);
    let mut i: usize = 0;
    while i < patterns.len()
        invariant
            i <= patterns.len(),
            ps == patterns@.map_values(|s: String| s@),
            forall|j: int| 0 <= j < i ==> pattern_error(#[trigger] ps[j]) is None,
        decreases patterns.len() - i,
    {
        match validate_exclude_pattern(patterns[i].as_str()) {
            Err(e) => {
                proof {
                    lemma_first_pattern_error_prefix(ps, i as int);
                    assert(ps.subrange(i as int, ps.len() as int)[0] == ps[i as int]);
                }
                return Err(e);
            },
            Ok(_) => {},
        }
        i = i + 1;
    }
    proof {
        lemma_first_pattern_error_none(ps);
    }
    Ok(())
}

pub open spec fn transfers_ok(value: Option<i32>) -> bool {
    match value {
        None => true,
        Some(v) => 1 <= v <= 8,
    }
}

pub open spec fn transfers_message(v: i32) -> Seq<char> {
    "rclone transfers must be between 1 and 8, or unset for Automatic; got "@ + decimal(v as int)
}

/// Accept only Automatic (`None`) or 1 through 8. A hand-edited negative
/// still reaches this check and reports a real error.
pub fn validate_rclone_transfers(value: Option<i32>) -> (r: Result<(), String>)
    ensures
        r is Ok <==> transfers_ok(value),
        r matches Err(e) ==> e@ == transfers_message(value->0),
{
    match value {
        None => Ok(()),
        Some(v) => {
            if 1 <= v && v <= 8 {
                Ok(())
            } else {
                let n = decimal_string(v as i64);
                Err(
                    concat(
                        "rclone transfers must be between 1 and 8, or unset for Automatic; got ",
                        n.as_str(),
                    ),
                )
            }
        },
    }
}

} // verus!
