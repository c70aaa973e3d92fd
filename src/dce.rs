//! Component-level dead-code elimination.
//!
//! One nesting level of a component is described by the sequence of
//! [`ComponentItem`]s that matter for the component index space. The
//! analysis decides which nested component definitions are reachable and
//! how the surviving component indices are renumbered.

use vstd::prelude::*;

verus! {

/// A record of one nesting level that bears on the component index space.
#[derive(Clone, Copy, Debug, PartialEq, Eq, Structural)]
pub enum ComponentItem {
    /// An import whose type is a component.
    ComponentImport,
    /// A nested component definition.
    Subcomponent,
    /// An instantiate record with its component-index operand.
    Instantiate(u32),
    /// An export of kind component, with the exported component index.
    ComponentExport(u32),
    /// An outer alias to a component: hop count and index.
    OuterAlias { count: u32, index: u32 },
}

/// The component index that an item uses at its own level, if any.
pub open spec fn item_use(it: ComponentItem) -> Option<u32> {
    match it {
        ComponentItem::Instantiate(i) => Some(i),
        ComponentItem::ComponentExport(i) => Some(i),
        ComponentItem::OuterAlias { count, index } => if count == 0 {
            Some(index)
        } else {
            None
        },
        _ => None,
    }
}

/// Number of component imports in `s`.
pub open spec fn imports_in(s: Seq<ComponentItem>) -> nat
    decreases s.len(),
{
    if s.len() == 0 {
        0
    } else {
        imports_in(s.drop_last()) + if s.last() == ComponentItem::ComponentImport {
            1nat
        } else {
            0nat
        }
    }
}

/// Number of nested component definitions in `s`.
pub open spec fn defs_in(s: Seq<ComponentItem>) -> nat
    decreases s.len(),
{
    if s.len() == 0 {
        0
    } else {
        defs_in(s.drop_last()) + if s.last() == ComponentItem::Subcomponent {
            1nat
        } else {
            0nat
        }
    }
}

/// Some item of `s` uses the unified component index `u`.
pub open spec fn is_used(s: Seq<ComponentItem>, u: int) -> bool {
    exists|j: int| 0 <= j < s.len() && #[trigger] item_use(s[j]) == Some(u as u32) && 0 <= u <= u32::MAX
}

/// Definition `d` exists and is used by some item at this level.
pub open spec fn reachable(s: Seq<ComponentItem>, d: int) -> bool {
    0 <= d < defs_in(s) && is_used(s, imports_in(s) + d)
}

/// Number of reachable definitions with index below `d`.
pub open spec fn kept_before(s: Seq<ComponentItem>, d: int) -> nat
    decreases d,
{
    if d <= 0 {
        0
    } else {
        kept_before(s, d - 1) + if reachable(s, d - 1) {
            1nat
        } else {
            0nat
        }
    }
}

/// Where the unified component index `u` goes: imports keep their index,
/// reachable definitions are numbered densely after them in their original
/// order, and unreachable definitions are gone.
pub open spec fn remap(s: Seq<ComponentItem>, u: int) -> Option<int> {
    if 0 <= u < imports_in(s) {
        Some(u)
    } else if reachable(s, u - imports_in(s)) {
        Some((imports_in(s) + kept_before(s, u - imports_in(s))) as int)
    } else {
        None
    }
}

/// The result of analysing one nesting level.
#[derive(Debug)]
pub struct DcePlan {
    /// Number of nested component definitions.
    pub total_components: u32,
    /// Number of definitions that are kept.
    pub kept_components: u32,
    /// Number of definitions that are removed.
    pub removed: u32,
    /// For each definition index, whether it is kept.
    pub keep: Vec<bool>,
    /// For each unified component index, its new index, or `None` if removed.
    pub component_map: Vec<Option<u32>>,
}

/// `map` is the remap table of `s`, one entry per unified component index.
pub open spec fn is_remap_table(s: Seq<ComponentItem>, map: Seq<Option<u32>>) -> bool {
    &&& map.len() == imports_in(s) + defs_in(s)
    &&& forall|u: int|
        0 <= u < map.len() ==> match #[trigger] map[u] {
            Some(v) => remap(s, u) == Some(v as int),
            None => remap(s, u) is None,
        }
}

impl DcePlan {
    /// This plan is the analysis of `s`.
    pub open spec fn describes(&self, s: Seq<ComponentItem>) -> bool {
        &&& self.total_components == defs_in(s)
        &&& self.kept_components == kept_before(s, defs_in(s) as int)
        &&& self.removed == defs_in(s) - kept_before(s, defs_in(s) as int)
        &&& self.keep@.len() == defs_in(s)
        &&& forall|d: int| 0 <= d < self.keep@.len() ==> #[trigger] self.keep@[d] == reachable(s, d)
        &&& is_remap_table(s, self.component_map@)
    }
}


/// The component index that `it` uses at its own level, if any.
pub fn use_of(it: &ComponentItem) -> (r: Option<u32>)
    ensures
        r == item_use(*it),
{
    match *it {
        ComponentItem::Instantiate(i) => Some(i),
        ComponentItem::ComponentExport(i) => Some(i),
        ComponentItem::OuterAlias { count, index } => if count == 0 {
            Some(index)
        } else {
            None
        },
        _ => None,
    }
}

proof fn lemma_counts_step(s: Seq<ComponentItem>, i: int)
    requires
        0 <= i < s.len(),
    ensures
        imports_in(s.take(i + 1)) == imports_in(s.take(i)) + if s[i] == ComponentItem::ComponentImport {
            1nat
        } else {
            0nat
        },
        defs_in(s.take(i + 1)) == defs_in(s.take(i)) + if s[i] == ComponentItem::Subcomponent {
            1nat
        } else {
            0nat
        },
{
    assert(s.take(i + 1).drop_last() =~= s.take(i));
}

/// Imports and definitions together never outnumber the items.
pub proof fn lemma_counts_bounded(s: Seq<ComponentItem>)
    ensures
        imports_in(s) + defs_in(s) <= s.len(),
    decreases s.len(),
{
    if s.len() > 0 {
        lemma_counts_bounded(s.drop_last());
    }
}

/// Analyses one nesting level: counts component imports and definitions,
/// marks the definitions that some instantiate record, component export or
/// same-level outer alias uses, and numbers the kept ones densely after the
/// imports.
pub fn analyze_component(items: &Vec<ComponentItem>) -> (plan: DcePlan)
    requires
        items.len() <= u32::MAX,
    ensures
        plan.describes(items@),
{
    let ghost s = items@;
    let mut imports: u32 = 0;
    let mut defs: u32 = 0;
    let mut i: usize = 0;
    while i < items.len()
        invariant
            i <= items.len() <= u32::MAX,
            s == items@,
            imports == imports_in(s.take(i as int)),
            defs == defs_in(s.take(i as int)),
            imports + defs <= i,
        decreases items.len() - i,
    {
        proof {
            lemma_counts_step(s, i as int);
        }
        match items[i] {
            ComponentItem::ComponentImport => imports = imports + 1,
            ComponentItem::Subcomponent => defs = defs + 1,
            _ => {},
        }
        i = i + 1;
    }
    proof {
        assert(s.take(i as int) =~= s);
    }
    let mut keep: Vec<bool> = Vec::new();
    let mut d: u32 = 0;
    while d < defs
        invariant
            d <= defs,
            keep@.len() == d,
            forall|k: int| 0 <= k < d ==> !#[trigger] keep@[k],
        decreases defs - d,
    {
        keep.push(false);
        d = d + 1;
    }
    let mut i: usize = 0;
    while i < items.len()
        invariant
            i <= items.len() <= u32::MAX,
            s == items@,
            imports == imports_in(s),
            defs == defs_in(s),
            imports + defs <= u32::MAX,
            keep@.len() == defs,
            forall|k: int|
                0 <= k < defs ==> #[trigger] keep@[k] == exists|j: int|
                    0 <= j < i && #[trigger] item_use(s[j]) == Some((imports + k) as u32),
        decreases items.len() - i,
    {
        let used = use_of(&items[i]);
        let ghost old_keep = keep@;
        if let Some(u) = used {
            if u >= imports {
                let dk = u - imports;
                if dk < defs {
                    keep.set(dk as usize, true);
                }
            }
        }
        assert forall|k: int| 0 <= k < defs implies #[trigger] keep@[k] == exists|j: int|
            0 <= j < i + 1 && #[trigger] item_use(s[j]) == Some((imports + k) as u32) by {
            if item_use(s[i as int]) == Some((imports + k) as u32) {
                assert(keep@[k]);
            } else {
                assert(keep@[k] == old_keep[k]);
                if keep@[k] {
                    let j = choose|j: int| 0 <= j < i && #[trigger] item_use(s[j]) == Some((imports + k) as u32);
                    assert(0 <= j < i + 1 && item_use(s[j]) == Some((imports + k) as u32));
                } else {
                    assert forall|j: int| 0 <= j < i + 1 implies #[trigger] item_use(s[j]) != Some((imports + k) as u32) by {
                        if j < i {
                        }
                    }
                }
            }
        }
        i = i + 1;
    }
    assert forall|k: int| 0 <= k < defs implies #[trigger] keep@[k] == reachable(s, k) by {
        if keep@[k] {
            let j = choose|j: int| 0 <= j < items.len() && #[trigger] item_use(s[j]) == Some((imports + k) as u32);
            assert(is_used(s, imports + k));
        } else if is_used(s, imports + k) {
            let j = choose|j: int| 0 <= j < s.len() && #[trigger] item_use(s[j]) == Some((imports + k) as u32) && 0 <= imports + k <= u32::MAX;
            assert(item_use(s[j]) == Some((imports + k) as u32));
        }
    }
    let mut component_map: Vec<Option<u32>> = Vec::new();
    let mut u: u32 = 0;
    while u < imports
        invariant
            u <= imports,
            s == items@,
            imports == imports_in(s),
            component_map@.len() == u,
            forall|k: int| 0 <= k < u ==> #[trigger] component_map@[k] == Some(k as u32),
        decreases imports - u,
    {
        component_map.push(Some(u));
        u = u + 1;
    }
    let mut next: u32 = 0;
    let mut d: u32 = 0;
    while d < defs
        invariant
            d <= defs,
            next <= d,
            s == items@,
            imports == imports_in(s),
            defs == defs_in(s),
            imports + defs <= u32::MAX,
            keep@.len() == defs,
            forall|k: int| 0 <= k < defs ==> #[trigger] keep@[k] == reachable(s, k),
            next == kept_before(s, d as int),
            component_map@.len() == imports + d,
            forall|k: int|
                0 <= k < component_map@.len() ==> match #[trigger] component_map@[k] {
                    Some(v) => remap(s, k) == Some(v as int),
                    None => remap(s, k) is None,
                },
        decreases defs - d,
    {
        if keep[d as usize] {
            component_map.push(Some(imports + next));
            next = next + 1;
        } else {
            component_map.push(None);
        }
        d = d + 1;
    }
    DcePlan {
        total_components: defs,
        kept_components: next,
        removed: defs - next,
        keep,
        component_map,
    }
}

/// The decisions that the re-encoder of one nesting level makes: which
/// nested components to keep and how component indices are translated.
///
/// Depth counts how far the walk is inside a kept nested component; only
/// indices at depth 0 belong to the analysed level.
pub struct DceReencoder {
    pub depth: u32,
    pub keep: Vec<bool>,
    pub component_map: Vec<Option<u32>>,
    pub next_component: u32,
}

/// The translated index: the remap table's entry, or 0 where it has none.
pub open spec fn mapped_or_zero(map: Seq<Option<u32>>, ty: u32) -> u32 {
    if ty < map.len() {
        match map[ty as int] {
            Some(v) => v,
            None => 0,
        }
    } else {
        0
    }
}

impl DceReencoder {
    /// A re-encoder at depth 0 that follows a plan's `keep` vector and
    /// remap table.
    pub fn new(keep: Vec<bool>, component_map: Vec<Option<u32>>) -> (r: Self)
        ensures
            r.depth == 0,
            r.keep == keep,
            r.component_map == component_map,
            r.next_component == 0,
    {
        DceReencoder { depth: 0, keep, component_map, next_component: 0 }
    }

    /// Enters a nested component.
    pub fn push_depth(&mut self)
        requires
            old(self).depth < u32::MAX,
        ensures
            final(self).depth == old(self).depth + 1,
            final(self).keep == old(self).keep,
            final(self).component_map == old(self).component_map,
            final(self).next_component == old(self).next_component,
    {
        self.depth = self.depth + 1;
    }

    /// Leaves a nested component; the depth never goes below 0.
    pub fn pop_depth(&mut self)
        ensures
            final(self).depth == if old(self).depth == 0 {
                0
            } else {
                old(self).depth - 1
            },
            final(self).keep == old(self).keep,
            final(self).component_map == old(self).component_map,
            final(self).next_component == old(self).next_component,
    {
        if self.depth > 0 {
            self.depth = self.depth - 1;
        }
    }

    /// Translates a component index: through the remap table at depth 0,
    /// unchanged deeper down.
    pub fn component_index(&self, ty: u32) -> (r: u32)
        ensures
            r == if self.depth == 0 {
                mapped_or_zero(self.component_map@, ty)
            } else {
                ty
            },
    {
        if self.depth == 0 {
            if (ty as usize) < self.component_map.len() {
                match self.component_map[ty as usize] {
                    Some(v) => v,
                    None => 0,
                }
            } else {
                0
            }
        } else {
            ty
        }
    }

    /// Translates the index of an outer alias to a component: only an alias
    /// to this very level (hop count 0) at depth 0 is remapped.
    pub fn outer_component_index(&self, count: u32, component: u32) -> (r: u32)
        ensures
            r == if self.depth == 0 && count == 0 {
                mapped_or_zero(self.component_map@, component)
            } else {
                component
            },
    {
        if self.depth == 0 && count == 0 {
            self.component_index(component)
        } else {
            component
        }
    }

    /// Called when the walk meets a nested component; says whether it is
    /// kept. At depth 0 it consumes the next definition index and keeps the
    /// component only if the plan does; deeper nested components are always
    /// kept, as they belong to another level.
    pub fn keeps_next_subcomponent(&mut self) -> (r: bool)
        requires
            old(self).depth == 0 ==> old(self).next_component < u32::MAX,
        ensures
            final(self).depth == old(self).depth,
            final(self).keep == old(self).keep,
            final(self).component_map == old(self).component_map,
            old(self).depth == 0 ==> final(self).next_component == old(self).next_component + 1,
            old(self).depth != 0 ==> final(self).next_component == old(self).next_component,
            r == (old(self).depth != 0 || (old(self).next_component < old(self).keep@.len()
                && old(self).keep@[old(self).next_component as int])),
    {
        if self.depth == 0 {
            let idx = self.next_component;
            self.next_component = idx + 1;
            (idx as usize) < self.keep.len() && self.keep[idx as usize]
        } else {
            true
        }
    }
}

/// The new index that the re-encoder writes for a used index `u`: its remap,
/// or 0 where it has none.
pub open spec fn remapped(s: Seq<ComponentItem>, u: u32) -> u32 {
    match remap(s, u as int) {
        Some(v) => v as u32,
        None => 0,
    }
}

/// What the re-encoder writes for an item that it keeps at depth 0.
pub open spec fn rewritten_item(s: Seq<ComponentItem>, it: ComponentItem) -> ComponentItem {
    match it {
        ComponentItem::Instantiate(i) => ComponentItem::Instantiate(remapped(s, i)),
        ComponentItem::ComponentExport(i) => ComponentItem::ComponentExport(remapped(s, i)),
        ComponentItem::OuterAlias { count, index } => if count == 0 {
            ComponentItem::OuterAlias { count, index: remapped(s, index) }
        } else {
            it
        },
        _ => it,
    }
}

/// The level that the re-encoder writes for the first `n` items of `s`:
/// unreachable definitions are dropped and every other item is rewritten.
pub open spec fn pruned_prefix(s: Seq<ComponentItem>, n: int) -> Seq<ComponentItem>
    decreases n,
{
    if n <= 0 || n > s.len() {
        Seq::empty()
    } else {
        let prev = pruned_prefix(s, n - 1);
        if s[n - 1] == ComponentItem::Subcomponent && !reachable(s, defs_in(s.take(n - 1)) as int) {
            prev
        } else {
            prev.push(rewritten_item(s, s[n - 1]))
        }
    }
}

/// The level that the re-encoder writes for `s`.
pub open spec fn pruned(s: Seq<ComponentItem>) -> Seq<ComponentItem> {
    pruned_prefix(s, s.len() as int)
}

/// A valid level: its component index space fits in `u32` and every index
/// used at this level names an import or a definition of it.
pub open spec fn well_formed(s: Seq<ComponentItem>) -> bool {
    &&& imports_in(s) + defs_in(s) <= u32::MAX
    &&& forall|j: int|
        0 <= j < s.len() ==> match #[trigger] item_use(s[j]) {
            Some(u) => u < imports_in(s) + defs_in(s),
            None => true,
        }
}

proof fn lemma_push_counts(t: Seq<ComponentItem>, x: ComponentItem)
    ensures
        imports_in(t.push(x)) == imports_in(t) + if x == ComponentItem::ComponentImport {
            1nat
        } else {
            0nat
        },
        defs_in(t.push(x)) == defs_in(t) + if x == ComponentItem::Subcomponent {
            1nat
        } else {
            0nat
        },
{
    assert(t.push(x).drop_last() =~= t);
}

proof fn lemma_kept_before_monotone(s: Seq<ComponentItem>, a: int, b: int)
    requires
        0 <= a <= b,
    ensures
        kept_before(s, a) <= kept_before(s, b),
        kept_before(s, b) <= kept_before(s, a) + (b - a),
    decreases b - a,
{
    if a < b {
        lemma_kept_before_monotone(s, a, b - 1);
    }
}

proof fn lemma_kept_rank_witness(s: Seq<ComponentItem>, n: int, r: int)
    requires
        0 <= r < kept_before(s, n),
    ensures
        exists|d: int| 0 <= d < n && reachable(s, d) && #[trigger] kept_before(s, d) == r,
    decreases n,
{
    if n > 0 {
        if r < kept_before(s, n - 1) {
            lemma_kept_rank_witness(s, n - 1, r);
            let d = choose|d: int| 0 <= d < n - 1 && reachable(s, d) && #[trigger] kept_before(s, d) == r;
            assert(0 <= d < n && reachable(s, d) && kept_before(s, d) == r);
        } else {
            assert(reachable(s, n - 1) && kept_before(s, n - 1) == r);
        }
    }
}

proof fn lemma_all_reachable_rank(t: Seq<ComponentItem>, n: int)
    requires
        0 <= n,
        forall|d: int| 0 <= d < n ==> reachable(t, d),
    ensures
        kept_before(t, n) == n,
    decreases n,
{
    if n > 0 {
        lemma_all_reachable_rank(t, n - 1);
    }
}

proof fn lemma_defs_prefix_le(s: Seq<ComponentItem>, n: int)
    requires
        0 <= n <= s.len(),
    ensures
        defs_in(s.take(n)) <= defs_in(s),
    decreases s.len() - n,
{
    if n < s.len() {
        lemma_counts_step(s, n);
        lemma_defs_prefix_le(s, n + 1);
    } else {
        assert(s.take(n) =~= s);
    }
}

proof fn lemma_pruned_counts(s: Seq<ComponentItem>, n: int)
    requires
        0 <= n <= s.len(),
    ensures
        imports_in(pruned_prefix(s, n)) == imports_in(s.take(n)),
        defs_in(pruned_prefix(s, n)) == kept_before(s, defs_in(s.take(n)) as int),
    decreases n,
{
    if n == 0 {
        assert(s.take(0) =~= Seq::<ComponentItem>::empty());
    } else {
        lemma_pruned_counts(s, n - 1);
        lemma_counts_step(s, n - 1);
        let prev = pruned_prefix(s, n - 1);
        let x = rewritten_item(s, s[n - 1]);
        lemma_push_counts(prev, x);
    }
}

proof fn lemma_pruned_origin(s: Seq<ComponentItem>, n: int, k: int)
    requires
        0 <= n <= s.len(),
        0 <= k < pruned_prefix(s, n).len(),
    ensures
        exists|j: int| 0 <= j < n && pruned_prefix(s, n)[k] == #[trigger] rewritten_item(s, s[j]),
    decreases n,
{
    let prev = pruned_prefix(s, n - 1);
    if k < prev.len() {
        lemma_pruned_origin(s, n - 1, k);
        let j = choose|j: int| 0 <= j < n - 1 && prev[k] == #[trigger] rewritten_item(s, s[j]);
        assert(pruned_prefix(s, n)[k] == rewritten_item(s, s[j]));
    } else {
        assert(pruned_prefix(s, n)[k] == rewritten_item(s, s[n - 1]));
    }
}

proof fn lemma_pruned_keeps(s: Seq<ComponentItem>, n: int, j: int)
    requires
        0 <= j < n <= s.len(),
        s[j] != ComponentItem::Subcomponent,
    ensures
        exists|k: int|
            0 <= k < pruned_prefix(s, n).len() && #[trigger] pruned_prefix(s, n)[k] == rewritten_item(s, s[j]),
    decreases n,
{
    let prev = pruned_prefix(s, n - 1);
    if j == n - 1 {
        assert(pruned_prefix(s, n)[prev.len() as int] == rewritten_item(s, s[j]));
    } else {
        lemma_pruned_keeps(s, n - 1, j);
        let k = choose|k: int| 0 <= k < prev.len() && #[trigger] prev[k] == rewritten_item(s, s[j]);
        assert(pruned_prefix(s, n)[k] == prev[k]);
    }
}

/// A used index of a well-formed level has a new index below the kept count.
proof fn lemma_use_remaps(s: Seq<ComponentItem>, j: int)
    requires
        well_formed(s),
        0 <= j < s.len(),
        item_use(s[j]) is Some,
    ensures
        remap(s, item_use(s[j])->0 as int) is Some,
        remap(s, item_use(s[j])->0 as int)->0 < imports_in(s) + kept_before(s, defs_in(s) as int),
{
    let u = item_use(s[j])->0;
    let i = imports_in(s);
    let dd = defs_in(s) as int;
    if u >= i {
        let d = u - i;
        assert(is_used(s, i + d));
        lemma_kept_before_monotone(s, d + 1, dd);
    } else {
        lemma_kept_before_monotone(s, 0, dd);
    }
}

/// A used index keeps a new index below the kept count, or falls back to 0.
proof fn lemma_remapped_range(s: Seq<ComponentItem>, u0: u32)
    requires
        imports_in(s) + defs_in(s) <= u32::MAX,
    ensures
        remapped(s, u0) < imports_in(s) + kept_before(s, defs_in(s) as int) || remapped(s, u0) == 0,
        remap(s, u0 as int) matches Some(v) ==> v < imports_in(s) + kept_before(s, defs_in(s) as int),
{
    let i = imports_in(s);
    let dd = defs_in(s) as int;
    lemma_counts_bounded(s);
    lemma_kept_before_monotone(s, 0, dd);
    if u0 >= i && reachable(s, u0 - i) {
        lemma_kept_before_monotone(s, u0 - i + 1, dd);
    }
}

/// The level written for any level whose index space fits keeps the
/// imports, has every definition in it reachable, and uses only indices
/// below its own count or the fallback index 0.
proof fn lemma_pruned_general(s: Seq<ComponentItem>)
    requires
        imports_in(s) + defs_in(s) <= u32::MAX,
    ensures
        imports_in(pruned(s)) == imports_in(s),
        defs_in(pruned(s)) == kept_before(s, defs_in(s) as int),
        forall|d: int| 0 <= d < defs_in(pruned(s)) ==> #[trigger] reachable(pruned(s), d),
        forall|k: int|
            0 <= k < pruned(s).len() ==> match #[trigger] item_use(pruned(s)[k]) {
                Some(u) => u < imports_in(pruned(s)) + defs_in(pruned(s)) || u == 0,
                None => true,
            },
{
    let p = pruned(s);
    let n = s.len() as int;
    lemma_pruned_counts(s, n);
    assert(s.take(n) =~= s);
    let i = imports_in(s);
    lemma_counts_bounded(s);
    lemma_kept_before_monotone(s, 0, defs_in(s) as int);
    assert forall|k: int| 0 <= k < p.len() implies match #[trigger] item_use(p[k]) {
        Some(u) => u < imports_in(p) + defs_in(p) || u == 0,
        None => true,
    } by {
        lemma_pruned_origin(s, n, k);
        let j = choose|j: int| 0 <= j < n && p[k] == #[trigger] rewritten_item(s, s[j]);
        if item_use(s[j]) is Some {
            lemma_remapped_range(s, item_use(s[j])->0);
        }
    }
    assert forall|d: int| 0 <= d < defs_in(p) implies #[trigger] reachable(p, d) by {
        lemma_kept_rank_witness(s, defs_in(s) as int, d);
        let d0 = choose|d0: int| 0 <= d0 < defs_in(s) && reachable(s, d0) && #[trigger] kept_before(s, d0) == d;
        let j = choose|j: int| 0 <= j < s.len() && #[trigger] item_use(s[j]) == Some((i + d0) as u32) && 0 <= i + d0 <= u32::MAX;
        lemma_pruned_keeps(s, n, j);
        let k = choose|k: int| 0 <= k < p.len() && #[trigger] p[k] == rewritten_item(s, s[j]);
        assert(item_use(p[k]) == Some((i + d) as u32));
    }
}

/// The level written for a well-formed level is well-formed, keeps the
/// imports, and every definition in it is reachable.
proof fn lemma_pruned_shape(s: Seq<ComponentItem>)
    requires
        well_formed(s),
    ensures
        imports_in(pruned(s)) == imports_in(s),
        defs_in(pruned(s)) == kept_before(s, defs_in(s) as int),
        well_formed(pruned(s)),
        forall|d: int| 0 <= d < defs_in(pruned(s)) ==> #[trigger] reachable(pruned(s), d),
{
    let p = pruned(s);
    let n = s.len() as int;
    lemma_counts_bounded(s);
    lemma_pruned_general(s);
    lemma_kept_before_monotone(s, 0, defs_in(s) as int);
    assert forall|k: int| 0 <= k < p.len() implies match #[trigger] item_use(p[k]) {
        Some(u) => u < imports_in(p) + defs_in(p),
        None => true,
    } by {
        lemma_pruned_origin(s, n, k);
        let j = choose|j: int| 0 <= j < n && p[k] == #[trigger] rewritten_item(s, s[j]);
        if item_use(s[j]) is Some {
            lemma_use_remaps(s, j);
        }
    }
}

proof fn lemma_identity_prefix(p: Seq<ComponentItem>, n: int)
    requires
        0 <= n <= p.len(),
        forall|d: int| 0 <= d < defs_in(p) ==> #[trigger] reachable(p, d),
        forall|k: int| 0 <= k < p.len() ==> #[trigger] rewritten_item(p, p[k]) == p[k],
    ensures
        pruned_prefix(p, n) == p.take(n),
    decreases n,
{
    if n == 0 {
        assert(p.take(0) =~= Seq::<ComponentItem>::empty());
    } else {
        lemma_identity_prefix(p, n - 1);
        lemma_counts_step(p, n - 1);
        lemma_defs_prefix_le(p, n);
        assert(p.take(n - 1).push(p[n - 1]) =~= p.take(n));
    }
}

/// Re-encoding is idempotent: pruning the level written for a level writes
/// it again unchanged. Only the index limit is assumed: an index that names
/// nothing is written as 0 the first time and stays 0.
pub proof fn lemma_prune_idempotent(s: Seq<ComponentItem>)
    requires
        s.len() <= u32::MAX,
    ensures
        pruned(pruned(s)) == pruned(s),
{
    lemma_counts_bounded(s);
    lemma_pruned_general(s);
    let p = pruned(s);
    let i = imports_in(p);
    let kk = defs_in(p) as int;
    lemma_all_reachable_rank(p, kk);
    assert forall|d: int| 0 <= d <= kk implies #[trigger] kept_before(p, d) == d by {
        lemma_all_reachable_rank(p, d);
    }
    assert forall|k: int| 0 <= k < p.len() implies #[trigger] rewritten_item(p, p[k]) == p[k] by {
        if item_use(p[k]) is Some {
            let u = item_use(p[k])->0;
            if u < i + kk {
                if u >= i {
                    assert(kept_before(p, u - i) == u - i);
                }
            }
            assert(remapped(p, u) == u);
        }
    }
    lemma_identity_prefix(p, p.len() as int);
    assert(p.take(p.len() as int) =~= p);
}

/// Soundness of reachability: every index that the written level uses
/// names one of its imports or one of its kept definitions, and is the new
/// index of an index that the original level used.
pub proof fn lemma_prune_sound(s: Seq<ComponentItem>, k: int)
    requires
        well_formed(s),
        0 <= k < pruned(s).len(),
        item_use(pruned(s)[k]) is Some,
    ensures
        item_use(pruned(s)[k])->0 < imports_in(pruned(s)) + defs_in(pruned(s)),
        exists|j: int|
            0 <= j < s.len() && #[trigger] item_use(s[j]) is Some && remap(s, item_use(s[j])->0 as int)
                == Some(item_use(pruned(s)[k])->0 as int),
{
    lemma_pruned_shape(s);
    let n = s.len() as int;
    lemma_pruned_origin(s, n, k);
    let j = choose|j: int| 0 <= j < n && pruned(s)[k] == #[trigger] rewritten_item(s, s[j]);
    lemma_use_remaps(s, j);
    lemma_counts_bounded(s);
    lemma_kept_before_monotone(s, 0, defs_in(s) as int);
}

/// Imports are never renumbered or removed: each import keeps its index and
/// the written level has as many imports as the original.
pub proof fn lemma_imports_invariant(s: Seq<ComponentItem>, u: int)
    requires
        0 <= u < imports_in(s),
    ensures
        remap(s, u) == Some(u),
        imports_in(pruned(s)) == imports_in(s),
{
    lemma_pruned_counts(s, s.len() as int);
    assert(s.take(s.len() as int) =~= s);
}

/// A remap table translates each used index exactly as the model does.
pub proof fn lemma_table_translates(s: Seq<ComponentItem>, map: Seq<Option<u32>>, u: u32)
    requires
        is_remap_table(s, map),
    ensures
        mapped_or_zero(map, u) == remapped(s, u),
{
    if u < map.len() {
        let e = map[u as int];
    }
}

fn copy_keep(v: &Vec<bool>) -> (r: Vec<bool>)
    ensures
        r@ == v@,
{
    let mut out: Vec<bool> = Vec::new();
    let mut k: usize = 0;
    while k < v.len()
        invariant
            k <= v.len(),
            out@ == v@.take(k as int),
        decreases v.len() - k,
    {
        out.push(v[k]);
        assert(v@.take(k + 1) =~= v@.take(k as int).push(v@[k as int]));
        k = k + 1;
    }
    assert(v@.take(k as int) =~= v@);
    out
}

fn copy_map(v: &Vec<Option<u32>>) -> (r: Vec<Option<u32>>)
    ensures
        r@ == v@,
{
    let mut out: Vec<Option<u32>> = Vec::new();
    let mut k: usize = 0;
    while k < v.len()
        invariant
            k <= v.len(),
            out@ == v@.take(k as int),
        decreases v.len() - k,
    {
        out.push(v[k]);
        assert(v@.take(k + 1) =~= v@.take(k as int).push(v@[k as int]));
        k = k + 1;
    }
    assert(v@.take(k as int) =~= v@);
    out
}

/// Re-encodes one level as the re-encoder does at depth 0, following the
/// plan of that level: unreachable nested components are left out, and
/// every component index is translated through the remap table.
pub fn prune_level(items: &Vec<ComponentItem>, plan: &DcePlan) -> (r: Vec<ComponentItem>)
    requires
        plan.describes(items@),
    ensures
        r@ == pruned(items@),
{
    let ghost s = items@;
    let mut re = DceReencoder::new(copy_keep(&plan.keep), copy_map(&plan.component_map));
    let mut out: Vec<ComponentItem> = Vec::new();
    let mut i: usize = 0;
    assert(s.take(0) =~= Seq::<ComponentItem>::empty());
    assert(out@ =~= pruned_prefix(s, 0));
    while i < items.len()
        invariant
            i <= items.len(),
            s == items@,
            plan.describes(s),
            re.depth == 0,
            re.keep@ == plan.keep@,
            re.component_map@ == plan.component_map@,
            re.next_component == defs_in(s.take(i as int)),
            out@ == pruned_prefix(s, i as int),
        decreases items.len() - i,
    {
        proof {
            lemma_counts_step(s, i as int);
            lemma_defs_prefix_le(s, i + 1);
        }
        let ghost before = out@;
        match items[i] {
            ComponentItem::Subcomponent => {
                if re.keeps_next_subcomponent() {
                    out.push(ComponentItem::Subcomponent);
                }
            },
            ComponentItem::ComponentImport => out.push(ComponentItem::ComponentImport),
            ComponentItem::Instantiate(u) => {
                proof {
                    lemma_table_translates(s, plan.component_map@, u);
                }
                out.push(ComponentItem::Instantiate(re.component_index(u)));
            },
            ComponentItem::ComponentExport(u) => {
                proof {
                    lemma_table_translates(s, plan.component_map@, u);
                }
                out.push(ComponentItem::ComponentExport(re.component_index(u)));
            },
            ComponentItem::OuterAlias { count, index } => {
                proof {
                    lemma_table_translates(s, plan.component_map@, index);
                }
                out.push(ComponentItem::OuterAlias { count, index: re.outer_component_index(count, index) });
            },
        }
        assert(out@ == pruned_prefix(s, i + 1));
        i = i + 1;
    }
    out
}

/// Idempotence of the analysis: analysing the level written for a level
/// keeps every definition and renumbers nothing, so a second pass removes
/// nothing and changes no index.
pub proof fn lemma_reanalysis_identity(s: Seq<ComponentItem>, plan: DcePlan)
    requires
        s.len() <= u32::MAX,
        plan.describes(pruned(s)),
    ensures
        plan.removed == 0,
        forall|d: int| 0 <= d < plan.keep@.len() ==> #[trigger] plan.keep@[d],
        forall|u: int| 0 <= u < plan.component_map@.len() ==> #[trigger] plan.component_map@[u] == Some(u as u32),
{
    lemma_counts_bounded(s);
    lemma_pruned_general(s);
    let p = pruned(s);
    let i = imports_in(p);
    let kk = defs_in(p) as int;
    lemma_all_reachable_rank(p, kk);
    assert forall|u: int| 0 <= u < plan.component_map@.len() implies #[trigger] plan.component_map@[u] == Some(
        u as u32,
    ) by {
        if u >= i {
            lemma_all_reachable_rank(p, u - i);
            assert(reachable(p, u - i));
        }
        assert(remap(p, u) == Some(u));
    }
}

/// The kind of an imported or exported item.
#[derive(Clone, Copy, Debug, PartialEq, Eq, Structural)]
pub enum ExternKind {
    Component,
    Other,
}

/// A record of one nesting level as the binary holds it, before the
/// records that do not bear on the component index space are set aside.
#[derive(Clone, Copy, Debug, PartialEq, Eq, Structural)]
pub enum LevelRecord {
    /// An import of the given kind.
    Import(ExternKind),
    /// A nested component definition.
    Subcomponent,
    /// An instantiation of the component with this index.
    Instantiate(u32),
    /// An export of the given kind and index.
    Export { kind: ExternKind, index: u32 },
    /// An outer alias: whether it names a component, hop count and index.
    OuterAlias { component: bool, count: u32, index: u32 },
    /// Any other record.
    Other,
}

/// The item that a record gives, if it bears on the component index space.
pub open spec fn item_of(r: LevelRecord) -> Option<ComponentItem> {
    match r {
        LevelRecord::Import(ExternKind::Component) => Some(ComponentItem::ComponentImport),
        LevelRecord::Subcomponent => Some(ComponentItem::Subcomponent),
        LevelRecord::Instantiate(i) => Some(ComponentItem::Instantiate(i)),
        LevelRecord::Export { kind: ExternKind::Component, index } => Some(ComponentItem::ComponentExport(index)),
        LevelRecord::OuterAlias { component: true, count, index } => Some(
            ComponentItem::OuterAlias { count, index },
        ),
        _ => None,
    }
}

/// The items that the records give, in order.
pub open spec fn items_of(rs: Seq<LevelRecord>) -> Seq<ComponentItem>
    decreases rs.len(),
{
    if rs.len() == 0 {
        Seq::empty()
    } else {
        match item_of(rs.last()) {
            Some(it) => items_of(rs.drop_last()).push(it),
            None => items_of(rs.drop_last()),
        }
    }
}

/// Keeps the records that bear on the component index space: component
/// imports, nested components, instantiations, component exports and outer
/// aliases to components.
pub fn level_items(records: &Vec<LevelRecord>) -> (r: Vec<ComponentItem>)
    ensures
        r@ == items_of(records@),
{
    let mut out: Vec<ComponentItem> = Vec::new();
    let mut i: usize = 0;
    while i < records.len()
        invariant
            i <= records.len(),
            out@ == items_of(records@.take(i as int)),
        decreases records.len() - i,
    {
        assert(records@.take(i + 1).drop_last() =~= records@.take(i as int));
        match records[i] {
            LevelRecord::Import(ExternKind::Component) => out.push(ComponentItem::ComponentImport),
            LevelRecord::Subcomponent => out.push(ComponentItem::Subcomponent),
            LevelRecord::Instantiate(c) => out.push(ComponentItem::Instantiate(c)),
            LevelRecord::Export { kind: ExternKind::Component, index } => out.push(
                ComponentItem::ComponentExport(index),
            ),
            LevelRecord::OuterAlias { component: true, count, index } => out.push(
                ComponentItem::OuterAlias { count, index },
            ),
            _ => {},
        }
        i = i + 1;
    }
    assert(records@.take(i as int) =~= records@);
    out
}

} // verus!
