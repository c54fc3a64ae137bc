//! The router context and the parameter lookup over it.

use crate::params::Params;
use vstd::prelude::*;

verus! {

/// One successful match of an incoming request against a route pattern,
/// carrying the parameter values the pattern extracted.
#[derive(Debug)]
pub struct RouteMatch {
    pub params: Params,
}

/// The accumulated match history of one request, in match order: the last
/// entry is the most specific, most recently matched route.
pub struct RouterContext {
    pub matches: Vec<RouteMatch>,
}

/// The parameter mapping a context currently exposes: that of its last
/// match, or the empty mapping when no route has matched. Earlier matches
/// are never consulted or merged.
pub open spec fn params_of(context: RouterContext) -> Map<Seq<char>, Seq<char>> {
    if context.matches@.len() == 0 {
        Map::empty()
    } else {
        context.matches@.last().params@
    }
}

/// The parameters of the most recently matched route, as a mapping owned
/// independently by the caller; empty when no route has matched or the last
/// match extracted no parameters.
pub fn use_params(context: &RouterContext) -> (r: Params)
    ensures
        r@ == params_of(*context),
        context.matches@.len() == 0 ==> r@ == Map::<Seq<char>, Seq<char>>::empty(),
        context.matches@.len() > 0 ==> r@ == context.matches@.last().params@,
        context.matches@.len() > 0 && context.matches@.last().params@ == Map::<
            Seq<char>,
            Seq<char>,
        >::empty() ==> r@ == Map::<Seq<char>, Seq<char>>::empty(),
{
    let n = context.matches.len();
    if n == 0 {
        Params::new()
    } else {
        let last_match = &context.matches[n - 1];
        if last_match.params.is_empty() {
            Params::new()
        } else {
            last_match.params.clone()
        }
    }
}

/// Only the last match is observable: two contexts whose last matches carry
/// equal parameter mappings expose equal mappings, whatever their earlier
/// matches hold; in particular keys that occur only in earlier matches never
/// appear in the result.
pub proof fn lemma_only_last_match_observable(c1: RouterContext, c2: RouterContext)
    requires
        c1.matches@.len() > 0,
        c2.matches@.len() > 0,
        c1.matches@.last().params@ == c2.matches@.last().params@,
    ensures
        params_of(c1) == params_of(c2),
{
}

/// The lookup is idempotent: any two results `use_params` returns for the
/// same unchanged context are value-equal mappings.
pub proof fn lemma_use_params_idempotent(context: RouterContext, r1: Params, r2: Params)
    requires
        r1@ == params_of(context),
        r2@ == params_of(context),
    ensures
        r1@ == r2@,
{
}

} // verus!
