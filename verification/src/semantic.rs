use vstd::prelude::*;

verus! {

/// Coarse semantic classification attached to solver goals and candidates.
#[derive(Debug, Clone, Copy, PartialEq, Eq, Hash, Structural)]
pub enum SemanticTag {
    EvalLike,
    ApplyLike,
    BranchLike,
    LoopLike,
    LookupLike,
    MapLike,
    HelperDispatchLike,
    VmOpLike,
    Unknown,
}

/// The snake-case label of a semantic tag.
pub open spec fn semantic_tag_label(tag: SemanticTag) -> Seq<char> {
    match tag {
        SemanticTag::EvalLike => "eval_like"@,
        SemanticTag::ApplyLike => "apply_like"@,
        SemanticTag::BranchLike => "branch_like"@,
        SemanticTag::LoopLike => "loop_like"@,
        SemanticTag::LookupLike => "lookup_like"@,
        SemanticTag::MapLike => "map_like"@,
        SemanticTag::HelperDispatchLike => "helper_dispatch_like"@,
        SemanticTag::VmOpLike => "vm_op_like"@,
        SemanticTag::Unknown => "unknown"@,
    }
}

impl SemanticTag {
    pub fn label(self) -> (label: &'static str)
        ensures
            label@ == semantic_tag_label(self),
    {
        match self {
            SemanticTag::EvalLike => "eval_like",
            SemanticTag::ApplyLike => "apply_like",
            SemanticTag::BranchLike => "branch_like",
            SemanticTag::LoopLike => "loop_like",
            SemanticTag::LookupLike => "lookup_like",
            SemanticTag::MapLike => "map_like",
            SemanticTag::HelperDispatchLike => "helper_dispatch_like",
            SemanticTag::VmOpLike => "vm_op_like",
            SemanticTag::Unknown => "unknown",
        }
    }
}


/// A copy of a list of tags.
pub fn copy_tags(v: &Vec<SemanticTag>) -> (r: Vec<SemanticTag>)
    ensures
        r@ == v@,
{
    let mut r: Vec<SemanticTag> = Vec::new();
    let mut i: usize = 0;
    while i < v.len()
        invariant
            i <= v.len(),
            r@ == v@.take(i as int),
        decreases v.len() - i,
    {
        r.push(v[i]);
        assert(v@.take(i + 1) =~= v@.take(i as int).push(v@[i as int]));
        i += 1;
    }
    assert(v@.take(v.len() as int) =~= v@);
    r
}

} // verus!
