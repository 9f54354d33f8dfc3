//! The decisions of an interactive session: which phase follows which, and
//! how a candidate set is shown.
use vstd::prelude::*;

verus! {

/// The phases of a session.
#[derive(Clone, Copy, Debug, PartialEq, Eq)]
pub enum Phase {
    /// The three constraints are read from the user.
    GatherConstraints,
    /// The candidate set is computed.
    Filter,
    /// The user is asked whether to see the candidates.
    OfferDisplay,
    /// The user is asked whether to refine the constraints further.
    OfferContinue,
    /// The session is over.
    Done,
}

/// How the candidate set is shown.
#[derive(Clone, Copy, Debug, PartialEq, Eq)]
pub enum Display {
    /// Not shown.
    Skip,
    /// Printed directly, one word per line.
    Direct,
    /// Handed to a pager.
    Pager,
}

/// A reply is affirmative when it starts with `'y'`.
pub open spec fn affirmative(reply: Seq<char>) -> bool {
    reply.len() > 0 && reply[0] == 'y'
}

/// The phase after `phase`, given the user's reply to the phase's prompt
/// (only the reply to the continue prompt matters).
pub open spec fn following(phase: Phase, reply: Seq<char>) -> Phase {
    match phase {
        Phase::GatherConstraints => Phase::Filter,
        Phase::Filter => Phase::OfferDisplay,
        Phase::OfferDisplay => Phase::OfferContinue,
        Phase::OfferContinue => if affirmative(reply) {
            Phase::GatherConstraints
        } else {
            Phase::Done
        },
        Phase::Done => Phase::Done,
    }
}

/// How a candidate set of `count` words is shown when the user answered
/// `reply` and sets under `threshold` words are printed directly.
pub open spec fn display_for(reply: Seq<char>, count: nat, threshold: nat) -> Display {
    if !affirmative(reply) {
        Display::Skip
    } else if count < threshold {
        Display::Direct
    } else {
        Display::Pager
    }
}

/// Whether the reply starts with `'y'`.
pub fn is_affirmative(reply: &str) -> (r: bool)
    ensures
        r == affirmative(reply@),
{
    reply.unicode_len() > 0 && reply.get_char(0) == 'y'
}

/// The phase that follows `phase` on the reply `reply`.
pub fn next_phase(phase: Phase, reply: &str) -> (r: Phase)
    ensures
        r == following(phase, reply@),
{
    match phase {
        Phase::GatherConstraints => Phase::Filter,
        Phase::Filter => Phase::OfferDisplay,
        Phase::OfferDisplay => Phase::OfferContinue,
        Phase::OfferContinue => if is_affirmative(reply) {
            Phase::GatherConstraints
        } else {
            Phase::Done
        },
        Phase::Done => Phase::Done,
    }
}

/// How to show `count` candidates on the reply `reply`: not at all unless
/// the reply is affirmative, directly under `threshold` words, else in a pager.
pub fn display_choice(reply: &str, count: usize, threshold: usize) -> (r: Display)
    ensures
        r == display_for(reply@, count as nat, threshold as nat),
{
    if !is_affirmative(reply) {
        Display::Skip
    } else if count < threshold {
        Display::Direct
    } else {
        Display::Pager
    }
}

} // verus!
