//! The named nodes of the decision graph, the two kinds of transition
//! between them, and the outcome of evaluating one node.

use vstd::prelude::*;

verus! {

/// The engine gives up if a run has not reached a terminal node after this
/// many transitions; the graph itself never needs that many.
pub const MAX_STATE_MACHINE_TRANSITIONS: u8 = 100;

/// A node of the decision graph. `End` carries the status to emit and
/// `A3Options` answers an OPTIONS request; both are terminal.
#[derive(Debug, Clone, Copy, PartialEq, Eq, Structural)]
#[allow(missing_docs)]
pub enum Decision {
    Start,
    End(u16),
    A3Options,
    B3Options,
    B4RequestEntityTooLarge,
    B5UnknownContentType,
    B6UnsupportedContentHeader,
    B7Forbidden,
    B8Authorized,
    B9MalformedRequest,
    B10MethodAllowed,
    B11UriTooLong,
    B12KnownMethod,
    B13Available,
    C3AcceptExists,
    C4AcceptableMediaTypeAvailable,
    D4AcceptLanguageExists,
    D5AcceptableLanguageAvailable,
    E5AcceptCharsetExists,
    E6AcceptableCharsetAvailable,
    F6AcceptEncodingExists,
    F7AcceptableEncodingAvailable,
    G7ResourceExists,
    G8IfMatchExists,
    G9IfMatchStarExists,
    G11EtagInIfMatch,
    H7IfMatchStarExists,
    H10IfUnmodifiedSinceExists,
    H11IfUnmodifiedSinceValid,
    H12LastModifiedGreaterThanUMS,
    I4HasMovedPermanently,
    I7Put,
    I12IfNoneMatchExists,
    I13IfNoneMatchStarExists,
    J18GetHead,
    K5HasMovedPermanently,
    K7ResourcePreviouslyExisted,
    K13ETagInIfNoneMatch,
    L5HasMovedTemporarily,
    L7Post,
    L13IfModifiedSinceExists,
    L14IfModifiedSinceValid,
    L15IfModifiedSinceGreaterThanNow,
    L17IfLastModifiedGreaterThanMS,
    M5Post,
    M7PostToMissingResource,
    M16Delete,
    M20DeleteEnacted,
    N5PostToMissingResource,
    N11Redirect,
    N16Post,
    O14Conflict,
    O16Put,
    O18MultipleRepresentations,
    O20ResponseHasBody,
    P3Conflict,
    P11NewResource,
}

impl Decision {
    /// Whether a run stops at this node.
    pub open spec fn spec_is_terminal(self) -> bool {
        self is End || self is A3Options
    }

    /// Whether a run stops at this node.
    pub fn is_terminal(&self) -> (r: bool)
        ensures
            r == self.spec_is_terminal(),
    {
        matches!(self, Decision::End(_) | Decision::A3Options)
    }
}

/// What follows a node: an unconditional move, or a branch on the node's
/// predicate.
#[derive(Debug, Clone, Copy, PartialEq, Eq, Structural)]
#[allow(missing_docs)]
pub enum Transition {
    To(Decision),
    Branch(Decision, Decision),
}

/// The outcome of evaluating one node's predicate: a truth value with a
/// diagnostic message, or a status code that ends the run at once.
#[derive(Debug, Clone, PartialEq)]
#[allow(missing_docs)]
pub enum DecisionResult {
    True(String),
    False(String),
    StatusCode(u16),
}

impl DecisionResult {
    /// Wraps a plain truth value, keeping the reason for tracing.
    pub fn wrap(result: bool, reason: &str) -> (r: DecisionResult)
        ensures
            result <==> r is True,
            !result <==> r is False,
    {
        let mut message = String::new();
        if result {
            message.append("is: ");
            message.append(reason);
            DecisionResult::True(message)
        } else {
            message.append("is not: ");
            message.append(reason);
            DecisionResult::False(message)
        }
    }
}

} // verus!
