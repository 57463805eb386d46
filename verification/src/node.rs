//! The trait that is implemented across all nodes belonging to the parser.

use std::sync::Arc;

use vstd::prelude::*;

use crate::span::Span;

verus! {

/// A trait that is implemented across all nodes belonging to the parser.
///
/// Every node owns the `Span` that bounds it; a well-formed node's span is
/// a sound range of the session's text.
pub trait ParserNode {
    /// The span that bounds the node, as a specification value.
    spec fn spec_span(&self) -> Span;

    /// The node's span is sound.
    spec fn node_wf(&self) -> bool;

    /// A well-formed node has a well-formed span.
    proof fn node_wf_implies_span_wf(&self)
        requires
            self.node_wf(),
        ensures
            self.spec_span().wf(),
    ;

    /// The `Span` that bounds the node.
    fn span(&self) -> (r: &Arc<Span>)
        ensures
            **r == self.spec_span(),
    ;

    /// The whole content of the node.
    fn content(&self) -> (r: &str)
        requires
            self.node_wf(),
        ensures
            r@ == self.spec_span().text(),
    {
        proof {
            self.node_wf_implies_span_wf();
        }
        let span = self.span();
        span.content()
    }
}

} // verus!
