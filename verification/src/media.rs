//! The media test facade's answer to a request to start A2DP.
use vstd::prelude::*;

verus! {

/// What the facade does with a request to start A2DP.
#[derive(Clone, Copy, Debug, PartialEq, Eq, Structural)]
pub enum A2dpStartAction {
    /// The source side needs nothing more: answer at once.
    Answer,
    /// Initialize the A2DP sink profile, then answer.
    InitializeSinkAndAnswer,
    /// The request asks for neither side: it gets no answer.
    NoAnswer,
}

/// What the facade does with a request to start A2DP: a request for the
/// source is answered at once (and wins over one for the sink); one for the
/// sink first initializes the sink profile.
pub fn start_a2dp_action(start_a2dp_source: bool, start_a2dp_sink: bool) -> (a: A2dpStartAction)
    ensures
        a == (if start_a2dp_source {
            A2dpStartAction::Answer
        } else if start_a2dp_sink {
            A2dpStartAction::InitializeSinkAndAnswer
        } else {
            A2dpStartAction::NoAnswer
        }),
{
    if start_a2dp_source {
        A2dpStartAction::Answer
    } else if start_a2dp_sink {
        A2dpStartAction::InitializeSinkAndAnswer
    } else {
        A2dpStartAction::NoAnswer
    }
}

} // verus!
