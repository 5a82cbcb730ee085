//! Graph query text shared by storage backends.
use vstd::prelude::*;

use crate::text::{join_seq, join_strs, strs_view};

verus! {

/// GQL label expression for node labels: the labels joined by `:`.
pub fn compose_gql_labels(labels: &[&str]) -> (expression: String)
    ensures
        expression@ == join_seq(strs_view(labels@), ":"@),
{
    join_strs(labels, ":")
}

} // verus!
