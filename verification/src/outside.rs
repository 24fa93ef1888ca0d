use vstd::prelude::*;
use crate::node::{docs_of, FormatNode};
use crate::text::intersperse;

verus! {

/// `Itertools::intersperse` of itertools, collected: the nodes with a copy of
/// the separator between each two neighbours.
#[verifier::external_body]
pub(crate) fn intersperse_nodes(nodes: Vec<FormatNode>, separator: FormatNode) -> (r: Vec<
    FormatNode,
>)
    ensures
        docs_of(r@) == intersperse(docs_of(nodes@), separator@),
{
    itertools::Itertools::intersperse(nodes.into_iter(), separator).collect()
}

/// `ToPrimitive::to_u32` of num-traits on a `usize`: the same number when it
/// fits in a `u32`, else `None`.
#[verifier::external_body]
pub(crate) fn usize_to_u32(x: usize) -> (r: Option<u32>)
    ensures
        r == (if x <= u32::MAX {
            Some(x as u32)
        } else {
            None::<u32>
        }),
{
    num_traits::ToPrimitive::to_u32(&x)
}

} // verus!
