//! Literal values of the Mosfet language. Numbers are the representative
//! literal; the alternation discipline is ready for further variants.

use std::sync::Arc;

use vstd::prelude::*;

use crate::context::ParserContext;
use crate::integer::{prefixed_number_failures, Radix};
use crate::node::ParserNode;
use crate::numbers::Number;
use crate::reader::Reader;
use crate::result::{node_span_shape, warnings_only_added, ParserResult, ParserResultError};
use crate::span::Span;

verus! {

/// A literal value in the Mosfet language, like a number.
#[derive(Debug)]
pub enum Literal {
    Number(Number),
}

impl Literal {
    /// The span of the node, as a specification value.
    pub open spec fn spec_span(&self) -> Span {
        match self {
            Literal::Number(n) => *n.span,
        }
    }

    /// The node's variant is sound.
    pub open spec fn wf(&self) -> bool {
        match self {
            Literal::Number(n) => n.wf(),
        }
    }

    // GETTERS ----------------------------------------------------------------
    /// The span of the node.
    pub fn span(&self) -> (r: &Arc<Span>)
        ensures
            **r == self.spec_span(),
    {
        match self {
            Literal::Number(n) => &n.span,
        }
    }

    // STATIC METHODS ---------------------------------------------------------
    /// Parses a literal, trying each variant in its declared order and
    /// propagating the first hard error without trying further variants.
    pub fn parse(reader: &mut Reader, context: &mut ParserContext) -> (r: ParserResult<Literal>)
        requires
            old(reader).wf(),
            old(context).wf(),
        ensures
            final(reader).wf(),
            final(reader).same_source(old(reader)),
            old(reader).pos() <= final(reader).pos(),
            final(context).wf(),
            prefixed_number_failures(r, *old(reader), *final(reader), *old(context), *final(context)),
            r matches Ok(l) ==> {
                &&& l.wf()
                &&& node_span_shape(*old(reader), *final(reader), l.spec_span())
                &&& final(reader).pos() == crate::numbers::number_full_end(
                    old(reader).text(),
                    old(reader).pos(),
                )
                &&& final(reader).pos() > old(reader).pos()
                &&& warnings_only_added(*old(context), *final(context))
            },
    {
        match Number::parse(reader, context) {
            Ok(node) => {
                proof {
                    let s = old(reader).text();
                    let p = old(reader).pos();
                    let pr = crate::integer::prefix_radix_at(s, p);
                    let radix = if pr is Some {
                        pr->0
                    } else {
                        Radix::Decimal
                    };
                    let dstart: int = if pr is Some {
                        p + 2
                    } else {
                        p
                    };
                    let rs = crate::integer::radix_digit_ranges(radix);
                    let ie = crate::integer::number_end(s, dstart, rs);
                    crate::numbers::lemma_number_warnings_only(
                        *old(context),
                        *context,
                        s,
                        dstart,
                        ie,
                        crate::numbers::fraction_end(s, ie, rs),
                    );
                }
                return Ok(Literal::Number(node));
            },
            Err(ParserResultError::NotFound) => {},
            Err(ParserResultError::Error) => {
                return Err(ParserResultError::Error);
            },
        }
        Err(ParserResultError::NotFound)
    }
}

impl ParserNode for Literal {
    open spec fn spec_span(&self) -> Span {
        match self {
            Literal::Number(n) => *n.span,
        }
    }

    open spec fn node_wf(&self) -> bool {
        self.wf()
    }

    proof fn node_wf_implies_span_wf(&self) {
        assert(self.node_wf());
        match self {
            Literal::Number(n) => {
                assert(n.span.wf());
                assert(self.spec_span() == *n.span);
            },
        }
    }

    fn span(&self) -> (r: &Arc<Span>) {
        match self {
            Literal::Number(n) => &n.span,
        }
    }
}

} // verus!
