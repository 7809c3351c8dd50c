//! The checks a judgment goes through before it is recorded and written,
//! and the decisions of the sidecar writer around each write.

use vstd::prelude::*;

use crate::index::Flag;
use crate::sidecar::{retry_delay, two_to, SidecarFormat, RETRY_BASE, RETRY_LIMIT};
use crate::text::{concat, push_char};
use vstd::string::StrSliceExecFns;

verus! {

/// The decimal digits of `n`.
pub open spec fn digits_of(n: nat) -> Seq<char>
    decreases n,
{
    if n < 10 {
        seq![('0' as nat + n) as char]
    } else {
        digits_of(n / 10).push(('0' as nat + n % 10) as char)
    }
}

/// `n` as `Display` writes it: a `-` before a negative number, then its
/// digits.
pub open spec fn int_text(n: int) -> Seq<char> {
    if n < 0 {
        seq!['-'] + digits_of((-n) as nat)
    } else {
        digits_of(n as nat)
    }
}

/// The digit char of `d`.
fn digit_char(d: u64) -> (c: char)
    requires
        d < 10,
    ensures
        c == ('0' as nat + d) as char,
{
    let digits = ['0', '1', '2', '3', '4', '5', '6', '7', '8', '9'];
    let c = digits[d as usize];
    assert(c == ('0' as nat + d) as char) by {
        assert(d == 0 || d == 1 || d == 2 || d == 3 || d == 4 || d == 5 || d == 6 || d == 7 || d
            == 8 || d == 9);
    }
    c
}

/// The decimal digits of `n`.
pub fn digits(n: u64) -> (r: String)
    ensures
        r@ == digits_of(n as nat),
    decreases n,
{
    if n < 10 {
        let mut s = String::new();
        push_char(&mut s, digit_char(n));
        assert(s@ =~= digits_of(n as nat));
        s
    } else {
        let mut s = digits(n / 10);
        push_char(&mut s, digit_char(n % 10));
        s
    }
}

/// `n` as `Display` writes it.
pub fn int_to_text(n: i64) -> (r: String)
    ensures
        r@ == int_text(n as int),
{
    if n < 0 {
        let magnitude: u64 = if n == i64::MIN {
            9223372036854775808u64
        } else {
            (-n) as u64
        };
        proof {
            reveal_strlit("-");
        }
        assert("-"@ =~= seq!['-']);
        concat("-", digits(magnitude).as_str())
    } else {
        digits(n as u64)
    }
}

/// The message a rating outside `-1..=5` gets.
pub open spec fn rating_range_error(rating: i8) -> Seq<char> {
    "rating "@ + int_text(rating as int) + " is outside -1..=5"@
}

/// A judgment as it is recorded: the stars (`-1` a reject, `None` unrated),
/// the pick flag, and the color label.
#[derive(Debug, PartialEq, Eq)]
pub struct Judgment {
    pub rating: Option<i8>,
    pub pick: bool,
    pub label: Option<String>,
}

/// The view of an optional string.
pub open spec fn opt_text(o: Option<String>) -> Option<Seq<char>> {
    match o {
        Some(s) => Some(s@),
        None => None,
    }
}

/// What `set_rating` records for `rating`, `pick` and `label` under
/// `format`: `0` is unrated; a pick is only kept on a non-rejected file
/// while `.dop` is selected (XMP has nowhere to put it); an empty label is
/// no label.
pub open spec fn judgment_of(rating: i8, pick: bool, label: Option<Seq<char>>, format: SidecarFormat) -> (
    Option<i8>,
    bool,
    Option<Seq<char>>,
) {
    (
        if rating == 0 {
            None
        } else {
            Some(rating)
        },
        pick && rating != -1 && format == SidecarFormat::Dop,
        match label {
            Some(l) => if l.len() == 0 {
                None
            } else {
                Some(l)
            },
            None => None,
        },
    )
}

/// Check and normalise a judgment from the frontend: a rating outside
/// `-1..=5` is refused; otherwise see `judgment_of`.
pub fn judgment_for(rating: i8, pick: bool, label: Option<String>, format: SidecarFormat) -> (r: Result<
    Judgment,
    String,
>)
    ensures
        !(-1 <= rating <= 5) ==> (r matches Err(e) && e@ == rating_range_error(rating)),
        -1 <= rating <= 5 ==> (r matches Ok(j) && (j.rating, j.pick, opt_text(j.label))
            == judgment_of(rating, pick, opt_text(label), format)),
{
    if rating < -1 || rating > 5 {
        let head = concat("rating ", int_to_text(rating as i64).as_str());
        return Err(concat(head.as_str(), " is outside -1..=5"));
    }
    let stars = if rating == 0 {
        None
    } else {
        Some(rating)
    };
    let keep_pick = pick && rating != -1 && format == SidecarFormat::Dop;
    let label = match label {
        Some(l) => if l.as_str().unicode_len() == 0 {
            None
        } else {
            Some(l)
        },
        None => None,
    };
    proof {
        if let Some(l) = &label {
            assert(l@.len() > 0);
        }
    }
    Ok(Judgment { rating: stars, pick: keep_pick, label })
}

/// The stars and flag a recorded judgment is stored as: a `-1` rating is a
/// reject with no stars, a kept pick is a pick, anything else no flag.
pub open spec fn stored_as(rating: Option<i8>, pick: bool) -> (Option<i8>, Flag) {
    if rating == Some(-1i8) {
        (None, Flag::Reject)
    } else if pick {
        (rating, Flag::Pick)
    } else {
        (rating, Flag::Unflagged)
    }
}

impl Judgment {
    /// The stars and flag this judgment is stored as; see `stored_as`.
    pub fn stars_and_flag(&self) -> (r: (Option<i8>, Flag))
        ensures
            r == stored_as(self.rating, self.pick),
            self.rating == Some(-1i8) ==> r.0 is None && r.1 == Flag::Reject,
            self.rating != Some(-1i8) ==> r.0 == self.rating,
            self.rating != Some(-1i8) && self.pick ==> r.1 == Flag::Pick,
            self.rating != Some(-1i8) && !self.pick ==> r.1 == Flag::Unflagged,
    {
        if self.rating == Some(-1i8) {
            (None, Flag::Reject)
        } else if self.pick {
            (self.rating, Flag::Pick)
        } else {
            (self.rating, Flag::Unflagged)
        }
    }
}

/// A judgment is stored by what it says: a rating of `-1` is a reject with
/// no stars; any other judgment keeps its own stars, and is a pick exactly
/// when its pick is set. So a kept pick is never stored as no flag, and a
/// reject is never stored as a pick.
pub proof fn law_a_judgment_is_stored_by_what_it_says(rating: Option<i8>, pick: bool)
    ensures
        (stored_as(rating, pick).1 == Flag::Reject) == (rating == Some(-1i8)),
        (stored_as(rating, pick).1 == Flag::Pick) == (pick && rating != Some(-1i8)),
        (stored_as(rating, pick).1 == Flag::Unflagged) == (!pick && rating != Some(-1i8)),
        stored_as(rating, pick).0 == if rating == Some(-1i8) {
            None
        } else {
            rating
        },
{
}

/// The confirmation asked before moving `count` rejected files to the
/// trash, or the refusal when there are none.
pub open spec fn trash_prompt_for(count: nat) -> Result<Seq<char>, Seq<char>> {
    if count == 0 {
        Err("no rejected files to move"@)
    } else if count == 1 {
        Ok("Move 1 rejected file to the Trash?"@)
    } else {
        Ok("Move "@ + digits_of(count) + " rejected files to the Trash?"@)
    }
}

/// The confirmation asked before moving `count` rejected files to the
/// trash, or the refusal when there are none.
pub fn trash_prompt(count: usize) -> (r: Result<String, String>)
    ensures
        match trash_prompt_for(count as nat) {
            Ok(m) => r matches Ok(s) && s@ == m,
            Err(m) => r matches Err(s) && s@ == m,
        },
{
    if count == 0 {
        return Err("no rejected files to move".to_string());
    }
    if count == 1 {
        return Ok("Move 1 rejected file to the Trash?".to_string());
    }
    let head = concat("Move ", digits(count as u64).as_str());
    Ok(concat(head.as_str(), " rejected files to the Trash?"))
}

/// How a sidecar that does not exist yet is written for a judgment.
#[derive(Clone, Copy, Debug, PartialEq, Eq, Structural)]
pub enum FreshSidecar {
    /// Nothing is judged: no sidecar is minted, so clearing a rating on a
    /// file that has none does not litter the folder with an empty one.
    Skip,
    /// Only a label: the label is written into a fresh sidecar.
    LabelOnly,
    /// The rating and flag first, then the label.
    RatingThenLabel,
}

/// How a sidecar that does not exist yet is written for `rating`, `flag`
/// and a label (`has_label`).
pub open spec fn fresh_sidecar_for(rating: Option<i8>, flag: Flag, has_label: bool) -> FreshSidecar {
    if rating is None && flag == Flag::Unflagged && !has_label {
        FreshSidecar::Skip
    } else if rating is None && flag == Flag::Unflagged {
        FreshSidecar::LabelOnly
    } else {
        FreshSidecar::RatingThenLabel
    }
}

/// A sidecar that does not exist yet is minted with the rating and flag
/// exactly when there are stars or a flag (a pick or a reject) to keep; it
/// is left unwritten only when nothing at all is judged, and gets only the
/// label when the label is all there is.
pub proof fn law_a_fresh_sidecar_keeps_every_judgment(rating: Option<i8>, flag: Flag, has_label: bool)
    ensures
        (fresh_sidecar_for(rating, flag, has_label) == FreshSidecar::RatingThenLabel) == (
        rating is Some || flag == Flag::Pick || flag == Flag::Reject),
        (fresh_sidecar_for(rating, flag, has_label) == FreshSidecar::Skip) == (rating is None
            && flag == Flag::Unflagged && !has_label),
        (fresh_sidecar_for(rating, flag, has_label) == FreshSidecar::LabelOnly) == (rating is None
            && flag == Flag::Unflagged && has_label),
{
}

/// How a sidecar that does not exist yet is written for a judgment.
pub fn fresh_sidecar(rating: Option<i8>, flag: Flag, has_label: bool) -> (r: FreshSidecar)
    ensures
        r == fresh_sidecar_for(rating, flag, has_label),
        flag == Flag::Reject ==> r == FreshSidecar::RatingThenLabel,
        flag == Flag::Pick ==> r == FreshSidecar::RatingThenLabel,
        rating is Some ==> r == FreshSidecar::RatingThenLabel,
        rating is None && flag == Flag::Unflagged && has_label ==> r == FreshSidecar::LabelOnly,
        rating is None && flag == Flag::Unflagged && !has_label ==> r == FreshSidecar::Skip,
{
    if rating.is_none() && flag == Flag::Unflagged && !has_label {
        FreshSidecar::Skip
    } else if rating.is_none() && flag == Flag::Unflagged {
        FreshSidecar::LabelOnly
    } else {
        FreshSidecar::RatingThenLabel
    }
}

/// Whether an existing sidecar, once its rating and flag are patched, also
/// gets its label written: always, except when the label is cleared and the
/// sidecar holds none (clearing a label that is not there would still bump
/// the `.dop` timestamps).
pub fn label_write_needed(label_given: bool, label_in_sidecar: bool) -> (r: bool)
    ensures
        r == (label_given || label_in_sidecar),
{
    label_given || label_in_sidecar
}

/// The label written for a judgment: the caller's, when it knows the
/// file's label, else the one the newest existing sidecar holds, so an
/// unknown label never clears one another tool wrote.
pub fn resolved_label(label_known: bool, label: Option<String>, newest_label: Option<String>) -> (r:
    Option<String>)
    ensures
        opt_text(r) == if label_known {
            opt_text(label)
        } else {
            opt_text(newest_label)
        },
{
    if label_known {
        label
    } else {
        newest_label
    }
}

/// The delay in seconds before a failed write is tried again, after its
/// `attempts`-th failure: none in a drain, or once the retries are used up.
pub open spec fn retry_after_of(attempts: u32, draining: bool) -> Option<u64> {
    if draining || !(1 <= attempts <= RETRY_LIMIT) {
        None
    } else {
        Some((RETRY_BASE * two_to((attempts - 1) as nat)) as u64)
    }
}

/// The delay in seconds before a failed write is tried again, after its
/// `attempts`-th failure: none in a drain (quitting never waits out a
/// backoff), or once the retries are used up.
pub fn retry_after(attempts: u32, draining: bool) -> (r: Option<u64>)
    ensures
        r == retry_after_of(attempts, draining),
        draining ==> r is None,
        !draining && 1 <= attempts <= RETRY_LIMIT ==> r == Some(
            (RETRY_BASE * two_to((attempts - 1) as nat)) as u64,
        ),
        !(1 <= attempts <= RETRY_LIMIT) ==> r is None,
{
    if draining {
        None
    } else {
        retry_delay(attempts)
    }
}

} // verus!
