//! What holds of merged layouts: a merge is a union by index, in which nothing is held
//! twice and nothing is lost.

use vstd::prelude::*;
use crate::layout::{
    BindGroupDescriptorView, BindingDescriptorView, ShaderLayoutView, group_at, group_with_index,
    has_binding, merged_bind_groups, union_bindings, union_group, union_groups,
};
use crate::search::lemma_first_match_sound;

verus! {

/// No two of the bindings have the same binding index.
pub open spec fn binding_indices_distinct(bindings: Seq<BindingDescriptorView>) -> bool {
    forall|i: int, j: int|
        0 <= i < j < bindings.len() ==> (#[trigger] bindings[i]).index != (
        #[trigger] bindings[j]).index
}

/// No two of the groups have the same group index.
pub open spec fn group_indices_distinct(groups: Seq<BindGroupDescriptorView>) -> bool {
    forall|i: int, j: int|
        0 <= i < j < groups.len() ==> (#[trigger] groups[i]).index != (#[trigger] groups[j]).index
}

/// Nothing is held twice: each group index occurs once, and within each group each
/// binding index occurs once.
pub open spec fn deduplicated(groups: Seq<BindGroupDescriptorView>) -> bool {
    &&& group_indices_distinct(groups)
    &&& forall|k: int|
        0 <= k < groups.len() ==> binding_indices_distinct((#[trigger] groups[k]).bindings)
}

/// Some group with the group index `group` has a binding with the binding index
/// `binding`.
pub open spec fn names_binding(groups: Seq<BindGroupDescriptorView>, group: u32, binding: u32) -> bool {
    exists|k: int|
        0 <= k < groups.len() && (#[trigger] groups[k]).index == group && has_binding(
            groups[k].bindings,
            binding,
        )
}

/// Some stage layout names the binding `binding` of the group `group`.
pub open spec fn stage_names_binding(layouts: Seq<ShaderLayoutView>, group: u32, binding: u32) -> bool {
    exists|i: int|
        0 <= i < layouts.len() && names_binding((#[trigger] layouts[i]).bind_groups, group, binding)
}

/// The union of two lists of bindings starts with the first list: the earlier binding
/// stands for both where the binding indices collide.
pub proof fn lemma_union_bindings_prefix(
    bindings: Seq<BindingDescriptorView>,
    extra: Seq<BindingDescriptorView>,
)
    ensures
        union_bindings(bindings, extra).len() >= bindings.len(),
        union_bindings(bindings, extra).take(bindings.len() as int) == bindings,
    decreases extra.len(),
{
    if extra.len() == 0 {
        assert(bindings.take(bindings.len() as int) =~= bindings);
    } else {
        lemma_union_bindings_prefix(bindings, extra.drop_last());
        let merged = union_bindings(bindings, extra.drop_last());
        assert(merged.push(extra.last()).take(bindings.len() as int) =~= merged.take(
            bindings.len() as int,
        ));
    }
}

/// The union of two lists of bindings holds a binding index exactly where one of the
/// lists holds it.
pub proof fn lemma_union_bindings_covers(
    bindings: Seq<BindingDescriptorView>,
    extra: Seq<BindingDescriptorView>,
    index: u32,
)
    ensures
        has_binding(union_bindings(bindings, extra), index) <==> has_binding(bindings, index)
            || has_binding(extra, index),
    decreases extra.len(),
{
    if extra.len() > 0 {
        let earlier = extra.drop_last();
        let last = extra.last();
        let merged = union_bindings(bindings, earlier);
        lemma_union_bindings_covers(bindings, earlier, index);
        lemma_union_bindings_covers(bindings, earlier, last.index);
        assert(has_binding(extra, index) <==> has_binding(earlier, index) || last.index == index)
            by {
            if has_binding(extra, index) {
                let k = choose|k: int| 0 <= k < extra.len() && (#[trigger] extra[k]).index == index;
                if k < earlier.len() {
                    assert(earlier[k].index == index);
                }
            }
            if has_binding(earlier, index) {
                let k = choose|k: int|
                    0 <= k < earlier.len() && (#[trigger] earlier[k]).index == index;
                assert(extra[k].index == index);
            }
            if last.index == index {
                assert(extra[extra.len() - 1].index == index);
            }
        }
        if !has_binding(merged, last.index) {
            let longer = merged.push(last);
            assert(has_binding(longer, index) <==> has_binding(merged, index) || last.index
                == index) by {
                if has_binding(longer, index) {
                    let k = choose|k: int|
                        0 <= k < longer.len() && (#[trigger] longer[k]).index == index;
                    if k < merged.len() {
                        assert(merged[k].index == index);
                    }
                }
                if has_binding(merged, index) {
                    let k = choose|k: int|
                        0 <= k < merged.len() && (#[trigger] merged[k]).index == index;
                    assert(longer[k].index == index);
                }
                if last.index == index {
                    assert(longer[merged.len() as int].index == index);
                }
            }
        }
    }
}

/// The union of two lists of bindings holds no binding index twice, as long as the
/// first list holds none twice.
pub proof fn lemma_union_bindings_distinct(
    bindings: Seq<BindingDescriptorView>,
    extra: Seq<BindingDescriptorView>,
)
    requires
        binding_indices_distinct(bindings),
    ensures
        binding_indices_distinct(union_bindings(bindings, extra)),
    decreases extra.len(),
{
    if extra.len() > 0 {
        let last = extra.last();
        let merged = union_bindings(bindings, extra.drop_last());
        lemma_union_bindings_distinct(bindings, extra.drop_last());
        if !has_binding(merged, last.index) {
            let longer = merged.push(last);
            assert forall|i: int, j: int| 0 <= i < j < longer.len() implies (
            #[trigger] longer[i]).index != (#[trigger] longer[j]).index by {
                assert(longer[i] == merged[i]);
                if j < merged.len() {
                    assert(longer[j] == merged[j]);
                }
            }
        }
    }
}

/// Each binding of the union of two lists is a binding of one of the lists.
pub proof fn lemma_union_bindings_origin(
    bindings: Seq<BindingDescriptorView>,
    extra: Seq<BindingDescriptorView>,
    k: int,
)
    requires
        0 <= k < union_bindings(bindings, extra).len(),
    ensures
        bindings.contains(union_bindings(bindings, extra)[k]) || extra.contains(
            union_bindings(bindings, extra)[k],
        ),
    decreases extra.len(),
{
    if extra.len() == 0 {
        assert(bindings[k] == union_bindings(bindings, extra)[k]);
    } else {
        let earlier = extra.drop_last();
        let merged = union_bindings(bindings, earlier);
        if k < merged.len() {
            lemma_union_bindings_origin(bindings, earlier, k);
            if earlier.contains(merged[k]) {
                let at = choose|at: int| 0 <= at < earlier.len() && earlier[at] == merged[k];
                assert(extra[at] == merged[k]);
            }
        } else {
            assert(extra[extra.len() - 1] == extra.last());
        }
    }
}

/// Merging one group into a list of groups keeps the list free of duplicates.
pub proof fn lemma_union_group_deduplicated(
    groups: Seq<BindGroupDescriptorView>,
    group: BindGroupDescriptorView,
)
    requires
        deduplicated(groups),
    ensures
        deduplicated(union_group(groups, group)),
{
    let after = union_group(groups, group);
    lemma_first_match_sound(groups, group_with_index(group.index));
    match group_at(groups, group.index) {
        Some(at) => {
            lemma_union_bindings_distinct(groups[at].bindings, group.bindings);
            assert forall|i: int, j: int| 0 <= i < j < after.len() implies (
            #[trigger] after[i]).index != (#[trigger] after[j]).index by {
                assert(after[i].index == groups[i].index);
                assert(after[j].index == groups[j].index);
            }
            assert forall|k: int| 0 <= k < after.len() implies binding_indices_distinct(
                (#[trigger] after[k]).bindings,
            ) by {
                if k != at {
                    assert(after[k] == groups[k]);
                }
            }
        },
        None => {
            lemma_union_bindings_distinct(Seq::empty(), group.bindings);
            assert forall|i: int, j: int| 0 <= i < j < after.len() implies (
            #[trigger] after[i]).index != (#[trigger] after[j]).index by {
                assert(after[i] == groups[i]);
                if j < groups.len() {
                    assert(after[j] == groups[j]);
                } else {
                    assert(!group_with_index(group.index)(groups[i]));
                }
            }
            assert forall|k: int| 0 <= k < after.len() implies binding_indices_distinct(
                (#[trigger] after[k]).bindings,
            ) by {
                if k < groups.len() {
                    assert(after[k] == groups[k]);
                }
            }
        },
    }
}

/// Merging one group into a list of groups loses nothing and invents nothing: the list
/// names a binding afterwards exactly where it named it before or the group names it.
pub proof fn lemma_union_group_covers(
    groups: Seq<BindGroupDescriptorView>,
    group: BindGroupDescriptorView,
    group_index: u32,
    binding_index: u32,
)
    ensures
        names_binding(union_group(groups, group), group_index, binding_index) <==> names_binding(
            groups,
            group_index,
            binding_index,
        ) || (group.index == group_index && has_binding(group.bindings, binding_index)),
{
    let after = union_group(groups, group);
    lemma_first_match_sound(groups, group_with_index(group.index));
    match group_at(groups, group.index) {
        Some(at) => {
            lemma_union_bindings_covers(groups[at].bindings, group.bindings, binding_index);
            if names_binding(after, group_index, binding_index) {
                let k = choose|k: int|
                    0 <= k < after.len() && (#[trigger] after[k]).index == group_index
                        && has_binding(after[k].bindings, binding_index);
                if k != at {
                    assert(after[k] == groups[k]);
                    assert(groups[k].index == group_index);
                } else if has_binding(groups[at].bindings, binding_index) {
                    assert(groups[at].index == group_index);
                }
            }
            if names_binding(groups, group_index, binding_index) {
                let k = choose|k: int|
                    0 <= k < groups.len() && (#[trigger] groups[k]).index == group_index
                        && has_binding(groups[k].bindings, binding_index);
                if k != at {
                    assert(after[k] == groups[k]);
                }
                assert(after[k].index == group_index);
            }
            if group.index == group_index && has_binding(group.bindings, binding_index) {
                assert(after[at].index == group_index);
            }
        },
        None => {
            lemma_union_bindings_covers(Seq::empty(), group.bindings, binding_index);
            let last = after[groups.len() as int];
            if names_binding(after, group_index, binding_index) {
                let k = choose|k: int|
                    0 <= k < after.len() && (#[trigger] after[k]).index == group_index
                        && has_binding(after[k].bindings, binding_index);
                if k < groups.len() {
                    assert(after[k] == groups[k]);
                    assert(groups[k].index == group_index);
                }
            }
            if names_binding(groups, group_index, binding_index) {
                let k = choose|k: int|
                    0 <= k < groups.len() && (#[trigger] groups[k]).index == group_index
                        && has_binding(groups[k].bindings, binding_index);
                assert(after[k] == groups[k]);
                assert(after[k].index == group_index);
            }
            if group.index == group_index && has_binding(group.bindings, binding_index) {
                assert(last.index == group_index);
            }
        },
    }
}

/// Merging a list of groups into another keeps the other free of duplicates.
pub proof fn lemma_union_groups_deduplicated(
    groups: Seq<BindGroupDescriptorView>,
    extra: Seq<BindGroupDescriptorView>,
)
    requires
        deduplicated(groups),
    ensures
        deduplicated(union_groups(groups, extra)),
    decreases extra.len(),
{
    if extra.len() > 0 {
        lemma_union_groups_deduplicated(groups, extra.drop_last());
        lemma_union_group_deduplicated(union_groups(groups, extra.drop_last()), extra.last());
    }
}

/// Merging a list of groups into another loses nothing and invents nothing.
pub proof fn lemma_union_groups_covers(
    groups: Seq<BindGroupDescriptorView>,
    extra: Seq<BindGroupDescriptorView>,
    group_index: u32,
    binding_index: u32,
)
    ensures
        names_binding(union_groups(groups, extra), group_index, binding_index) <==> names_binding(
            groups,
            group_index,
            binding_index,
        ) || names_binding(extra, group_index, binding_index),
    decreases extra.len(),
{
    if extra.len() == 0 {
        assert(!names_binding(extra, group_index, binding_index));
    } else {
        let earlier = extra.drop_last();
        let last = extra.last();
        lemma_union_groups_covers(groups, earlier, group_index, binding_index);
        lemma_union_group_covers(union_groups(groups, earlier), last, group_index, binding_index);
        assert(names_binding(extra, group_index, binding_index) <==> names_binding(
            earlier,
            group_index,
            binding_index,
        ) || (last.index == group_index && has_binding(last.bindings, binding_index))) by {
            if names_binding(extra, group_index, binding_index) {
                let k = choose|k: int|
                    0 <= k < extra.len() && (#[trigger] extra[k]).index == group_index
                        && has_binding(extra[k].bindings, binding_index);
                if k < earlier.len() {
                    assert(earlier[k] == extra[k]);
                    assert(earlier[k].index == group_index);
                }
            }
            if names_binding(earlier, group_index, binding_index) {
                let k = choose|k: int|
                    0 <= k < earlier.len() && (#[trigger] earlier[k]).index == group_index
                        && has_binding(earlier[k].bindings, binding_index);
                assert(extra[k] == earlier[k]);
                assert(extra[k].index == group_index);
            }
            if last.index == group_index && has_binding(last.bindings, binding_index) {
                assert(extra[extra.len() - 1].index == group_index);
            }
        }
    }
}

/// The merged bind groups of a pipeline hold nothing twice: a binding that several
/// stages name is merged, not duplicated.
pub proof fn lemma_merged_deduplicated(layouts: Seq<ShaderLayoutView>)
    ensures
        deduplicated(merged_bind_groups(layouts)),
    decreases layouts.len(),
{
    if layouts.len() > 0 {
        lemma_merged_deduplicated(layouts.drop_last());
        lemma_union_groups_deduplicated(
            merged_bind_groups(layouts.drop_last()),
            layouts.last().bind_groups,
        );
    }
}

/// The merged bind groups of a pipeline are the union of the bind groups of its
/// stages: they name a binding exactly where some stage names it.
pub proof fn lemma_merged_covers(layouts: Seq<ShaderLayoutView>, group_index: u32, binding_index: u32)
    ensures
        names_binding(merged_bind_groups(layouts), group_index, binding_index)
            <==> stage_names_binding(layouts, group_index, binding_index),
    decreases layouts.len(),
{
    if layouts.len() == 0 {
        assert(!names_binding(merged_bind_groups(layouts), group_index, binding_index));
    } else {
        let earlier = layouts.drop_last();
        let last = layouts.last();
        lemma_merged_covers(earlier, group_index, binding_index);
        lemma_union_groups_covers(
            merged_bind_groups(earlier),
            last.bind_groups,
            group_index,
            binding_index,
        );
        if stage_names_binding(layouts, group_index, binding_index) {
            let i = choose|i: int|
                0 <= i < layouts.len() && names_binding(
                    (#[trigger] layouts[i]).bind_groups,
                    group_index,
                    binding_index,
                );
            if i < earlier.len() {
                assert(earlier[i] == layouts[i]);
                assert(names_binding(earlier[i].bind_groups, group_index, binding_index));
            }
        }
        if stage_names_binding(earlier, group_index, binding_index) {
            let i = choose|i: int|
                0 <= i < earlier.len() && names_binding(
                    (#[trigger] earlier[i]).bind_groups,
                    group_index,
                    binding_index,
                );
            assert(layouts[i] == earlier[i]);
            assert(names_binding(layouts[i].bind_groups, group_index, binding_index));
        }
        if names_binding(last.bind_groups, group_index, binding_index) {
            assert(layouts[layouts.len() - 1] == last);
            assert(names_binding(
                layouts[layouts.len() - 1].bind_groups,
                group_index,
                binding_index,
            ));
        }
    }
}

} // verus!
