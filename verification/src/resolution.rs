//! A resolver together with the record of what it was asked and what it
//! answered, so that analysis can state how its result follows from the answers.

use vstd::prelude::*;

use crate::diagnostic::AnalysisError;
use crate::diagnostic::Diagnostic;
use crate::diagnostic::EvalError;
use crate::named_entity::TypeEnt;
use crate::package_instance::Resolver;
use crate::package_instance::ResolverAnswer;
use crate::package_instance::ResolverQuery;
use crate::region::Region;
use crate::syntax::Expression;
use crate::syntax::Name;
use crate::syntax::SrcPos;
use crate::syntax::WithPos;

verus! {

/// A resolver, reached only through the methods below, each of which records
/// the question it passes on and the answer that comes back.
pub struct Resolution<R> {
    resolver: R,
    questions: Ghost<Seq<ResolverAnswer>>,
    packages: Ghost<Seq<(WithPos<Name>, Result<Region, AnalysisError>)>>,
}

impl<R: Resolver> Resolution<R> {
    /// The questions about actuals that the resolver was asked, in order, each
    /// with its answer.
    pub closed spec fn log(&self) -> Seq<ResolverAnswer> {
        self.questions@
    }

    /// The package names that the resolver was asked about, in order, each with
    /// its answer.
    pub closed spec fn packages(&self) -> Seq<(WithPos<Name>, Result<Region, AnalysisError>)> {
        self.packages@
    }

    /// A resolution that has asked `resolver` nothing yet.
    pub fn new(resolver: R) -> (r: Self)
        ensures
            r.log() == Seq::<ResolverAnswer>::empty(),
            r.packages() == Seq::<(WithPos<Name>, Result<Region, AnalysisError>)>::empty(),
    {
        Resolution { resolver, questions: Ghost(Seq::empty()), packages: Ghost(Seq::empty()) }
    }

    /// The resolver.
    pub fn resolver(&self) -> &R {
        &self.resolver
    }

    /// Asks the resolver which package `package_name` names.
    pub fn package(&mut self, package_name: &mut WithPos<Name>) -> (r: Result<Region, AnalysisError>)
        ensures
            final(self).packages() == old(self).packages().push((*old(package_name), r)),
            final(self).log() == old(self).log(),
    {
        let ghost asked = *package_name;
        let r = self.resolver.analyze_package_instance_name(package_name);
        self.packages = Ghost(self.packages@.push((asked, r)));
        r
    }

    /// Asks the resolver which type `name`, written at `pos`, denotes; what it
    /// reports is added to `diagnostics`.
    pub fn type_of_name(&mut self, pos: &SrcPos, name: &mut Name, diagnostics: &mut Vec<Diagnostic>) -> (r: Result<
        TypeEnt,
        EvalError,
    >)
        ensures
            final(self).packages() == old(self).packages(),
            final(self).log().len() == old(self).log().len() + 1,
            final(self).log().drop_last() == old(self).log(),
            final(self).log().last().query == ResolverQuery::TypeName(*pos, *old(name)),
            final(self).log().last().typ == (match r {
                Ok(t) => Some(t.0),
                Err(_) => None,
            }),
            final(self).log().last().error == (match r {
                Ok(_) => None,
                Err(e) => Some(e),
            }),
            final(diagnostics)@ == old(diagnostics)@ + final(self).log().last().reported,
    {
        let ghost asked = ResolverQuery::TypeName(*pos, *name);
        let mut reported: Vec<Diagnostic> = Vec::new();
        let r = self.resolver.resolve_type_name(pos, name, &mut reported);
        let ghost answer = ResolverAnswer {
            query: asked,
            typ: match &r {
                Ok(t) => Some(t.0),
                Err(_) => None,
            },
            error: match &r {
                Ok(_) => None,
                Err(e) => Some(*e),
            },
            reported: reported@,
        };
        self.questions = Ghost(self.questions@.push(answer));
        diagnostics.append(&mut reported);
        proof {
            assert(self.questions@.drop_last() =~= old(self).questions@);
        }
        r
    }

    /// Asks the resolver whether `expr`, written at `pos`, can have type `ttyp`;
    /// what it reports is added to `diagnostics`.
    pub fn expression(
        &mut self,
        ttyp: &TypeEnt,
        pos: &SrcPos,
        expr: &mut Expression,
        diagnostics: &mut Vec<Diagnostic>,
    ) -> (r: Result<(), EvalError>)
        ensures
            final(self).packages() == old(self).packages(),
            final(self).log().len() == old(self).log().len() + 1,
            final(self).log().drop_last() == old(self).log(),
            final(self).log().last().query == ResolverQuery::Expression(*ttyp, *pos, *old(expr)),
            final(self).log().last().typ is None,
            final(self).log().last().error == (match r {
                Ok(_) => None,
                Err(e) => Some(e),
            }),
            final(diagnostics)@ == old(diagnostics)@ + final(self).log().last().reported,
    {
        let ghost asked = ResolverQuery::Expression(*ttyp, *pos, *expr);
        let mut reported: Vec<Diagnostic> = Vec::new();
        let r = self.resolver.expr_pos_with_ttyp(ttyp, pos, expr, &mut reported);
        let ghost answer = ResolverAnswer {
            query: asked,
            typ: None,
            error: match &r {
                Ok(_) => None,
                Err(e) => Some(*e),
            },
            reported: reported@,
        };
        self.questions = Ghost(self.questions@.push(answer));
        diagnostics.append(&mut reported);
        proof {
            assert(self.questions@.drop_last() =~= old(self).questions@);
        }
        r
    }

    /// Asks the resolver what `name`, written at `pos`, denotes; what it reports
    /// is added to `diagnostics`.
    pub fn name(&mut self, pos: &SrcPos, name: &mut Name, diagnostics: &mut Vec<Diagnostic>) -> (r: Result<(), EvalError>)
        ensures
            final(self).packages() == old(self).packages(),
            final(self).log().len() == old(self).log().len() + 1,
            final(self).log().drop_last() == old(self).log(),
            final(self).log().last().query == ResolverQuery::Name(*pos, *old(name)),
            final(self).log().last().typ is None,
            final(self).log().last().error == (match r {
                Ok(_) => None,
                Err(e) => Some(e),
            }),
            final(diagnostics)@ == old(diagnostics)@ + final(self).log().last().reported,
    {
        let ghost asked = ResolverQuery::Name(*pos, *name);
        let mut reported: Vec<Diagnostic> = Vec::new();
        let r = self.resolver.name_resolve(pos, name, &mut reported);
        let ghost answer = ResolverAnswer {
            query: asked,
            typ: None,
            error: match &r {
                Ok(_) => None,
                Err(e) => Some(*e),
            },
            reported: reported@,
        };
        self.questions = Ghost(self.questions@.push(answer));
        diagnostics.append(&mut reported);
        proof {
            assert(self.questions@.drop_last() =~= old(self).questions@);
        }
        r
    }
}

} // verus!
