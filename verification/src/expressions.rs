//! Expressions of the Mosfet language: a literal value or a variable
//! access, tried in that order.

use std::sync::Arc;

use vstd::prelude::*;

use crate::context::ParserContext;
use crate::identifier::{identifier_start, Identifier};
use crate::integer::{prefix_radix_at, radix_digit_ranges, Radix};
use crate::literals::Literal;
use crate::node::ParserNode;
use crate::reader::Reader;
use crate::result::{
    messages_unchanged, node_span_shape, warnings_only_added, ParserResult, ParserResultError,
};
use crate::span::Span;
use crate::text::in_ranges;

verus! {

/// An expression can start here: a literal or an identifier does.
pub open spec fn expression_start(s: Seq<char>, p: int) -> bool {
    ||| prefix_radix_at(s, p) is Some
    ||| p < s.len() && in_ranges(radix_digit_ranges(Radix::Decimal), s[p])
    ||| identifier_start(s, p)
}

/// Where the expression that starts at `p` ends: a number literal when one
/// starts here (literals are tried first), an identifier otherwise.
pub open spec fn expression_end(s: Seq<char>, p: int) -> int {
    if prefix_radix_at(s, p) is Some || (p < s.len() && in_ranges(
        radix_digit_ranges(Radix::Decimal),
        s[p],
    )) {
        crate::numbers::number_full_end(s, p)
    } else {
        crate::identifier::identifier_end(s, p)
    }
}

/// A parsed expression reaches strictly past its start and stays within
/// the text.
pub proof fn lemma_expression_end_bounds(s: Seq<char>, p: int)
    requires
        0 <= p <= s.len(),
        expression_start(s, p),
        !crate::integer::number_error_at(s, p),
    ensures
        p < expression_end(s, p) <= s.len(),
{
    let pr = prefix_radix_at(s, p);
    if pr is Some || (p < s.len() && in_ranges(radix_digit_ranges(Radix::Decimal), s[p])) {
        let radix = if pr is Some {
            pr->0
        } else {
            Radix::Decimal
        };
        let dstart: int = if pr is Some {
            p + 2
        } else {
            p
        };
        let rs = radix_digit_ranges(radix);
        crate::text::lemma_class_run_end_bounds(s, dstart, rs);
        let d0 = crate::text::class_run_end(s, dstart, rs);
        crate::integer::lemma_grouped_end_bounds(s, d0, rs);
        let ie = crate::integer::number_end(s, dstart, rs);
        match crate::numbers::fraction_end(s, ie, rs) {
            Some(e) => {
                crate::text::lemma_class_run_end_bounds(s, ie + 1, rs);
                crate::integer::lemma_grouped_end_bounds(
                    s,
                    crate::text::class_run_end(s, ie + 1, rs),
                    rs,
                );
            },
            None => {},
        }
    } else {
        crate::text::lemma_class_run_end_bounds(s, p + 1, crate::identifier::body_ranges());
    }
}

/// An expression in the Mosfet language, like a value or variable access.
#[derive(Debug)]
pub enum Expression {
    Literal(Literal),
    VariableAccess(Identifier),
}

impl Expression {
    /// The span of the node, as a specification value.
    pub open spec fn spec_span(&self) -> Span {
        match self {
            Expression::Literal(l) => l.spec_span(),
            Expression::VariableAccess(n) => *n.span,
        }
    }

    /// The node's variant is sound.
    pub open spec fn wf(&self) -> bool {
        match self {
            Expression::Literal(l) => l.wf(),
            Expression::VariableAccess(n) => n.wf(),
        }
    }

    // GETTERS ----------------------------------------------------------------
    /// The span of the node.
    pub fn span(&self) -> (r: &Arc<Span>)
        ensures
            **r == self.spec_span(),
    {
        match self {
            Expression::Literal(l) => l.span(),
            Expression::VariableAccess(n) => &n.span,
        }
    }

    // STATIC METHODS ---------------------------------------------------------
    /// Parses an expression, trying each alternative in its declared order:
    /// `NotFound` exactly when neither a literal nor an identifier starts
    /// here; the first hard error propagates without trying the sibling.
    pub fn parse(reader: &mut Reader, context: &mut ParserContext) -> (r: ParserResult<Expression>)
        requires
            old(reader).wf(),
            old(context).wf(),
        ensures
            final(reader).wf(),
            final(reader).same_source(old(reader)),
            old(reader).pos() <= final(reader).pos(),
            final(context).wf(),
            crate::result::messages_extended(*old(context), *final(context)),
            ({
                let s = old(reader).text();
                let p = old(reader).pos();
                &&& (r == ParserResult::<Expression>::Err(ParserResultError::NotFound)
                    <==> !expression_start(s, p))
                &&& r == ParserResult::<Expression>::Err(ParserResultError::NotFound)
                    ==> final(reader).cursor == old(reader).cursor && messages_unchanged(
                    *old(context),
                    *final(context),
                )
                &&& (r == ParserResult::<Expression>::Err(ParserResultError::Error)
                    <==> crate::integer::number_error_at(s, p))
                &&& r == ParserResult::<Expression>::Err(ParserResultError::Error)
                    ==> crate::result::one_error_reported(
                    *old(context),
                    *final(context),
                    crate::integer::number_error_code(s, p),
                ) && final(reader).pos() > p
                &&& r matches Ok(e) ==> {
                    &&& e.wf()
                    &&& node_span_shape(*old(reader), *final(reader), e.spec_span())
                    &&& final(reader).pos() == expression_end(s, p)
                    &&& final(reader).pos() > p
                    &&& warnings_only_added(*old(context), *final(context))
                }
            }),
    {
        match Literal::parse(reader, context) {
            Ok(node) => {
                proof {
                    let s = old(reader).text();
                    let p = old(reader).pos();
                    assert(prefix_radix_at(s, p) is Some || (p < s.len() && in_ranges(
                        radix_digit_ranges(Radix::Decimal),
                        s[p],
                    )));
                    assert(reader.pos() == expression_end(s, p));
                }
                return Ok(Expression::Literal(node));
            },
            Err(ParserResultError::NotFound) => {},
            Err(ParserResultError::Error) => {
                return Err(ParserResultError::Error);
            },
        }
        proof {
            assert(context.messages@.subrange(0, old(context).messages@.len() as int) =~= old(
                context,
            ).messages@);
        }
        match Identifier::parse(reader, context) {
            Ok(node) => {
                proof {
                    let s = old(reader).text();
                    let p = old(reader).pos();
                    assert(!(prefix_radix_at(s, p) is Some || (p < s.len() && in_ranges(
                        radix_digit_ranges(Radix::Decimal),
                        s[p],
                    ))));
                    assert(reader.pos() == expression_end(s, p));
                    assert(context.messages@.subrange(0, old(context).messages@.len() as int)
                        =~= old(context).messages@);
                }
                return Ok(Expression::VariableAccess(node));
            },
            Err(ParserResultError::NotFound) => {},
            Err(ParserResultError::Error) => {
                return Err(ParserResultError::Error);
            },
        }
        Err(ParserResultError::NotFound)
    }
}

impl ParserNode for Expression {
    open spec fn spec_span(&self) -> Span {
        match self {
            Expression::Literal(l) => l.spec_span(),
            Expression::VariableAccess(n) => *n.span,
        }
    }

    open spec fn node_wf(&self) -> bool {
        self.wf()
    }

    proof fn node_wf_implies_span_wf(&self) {
        assert(self.node_wf());
        match self {
            Expression::Literal(l) => {
                match l {
                    Literal::Number(n) => {
                        assert(n.span.wf());
                        assert(self.spec_span() == *n.span);
                    },
                }
            },
            Expression::VariableAccess(n) => {
                assert(n.span.wf());
                assert(self.spec_span() == *n.span);
            },
        }
    }

    fn span(&self) -> (r: &Arc<Span>) {
        match self {
            Expression::Literal(l) => l.span(),
            Expression::VariableAccess(n) => &n.span,
        }
    }
}

} // verus!
