use moon_component::dce::{
    analyze_component, level_items, prune_level, use_of, ComponentItem, DcePlan, DceReencoder,
    ExternKind, LevelRecord,
};

fn reencode(items: &[ComponentItem], plan: &DcePlan) -> Vec<ComponentItem> {
    prune_level(&items.to_vec(), plan)
}

fn count_components(items: &[ComponentItem]) -> usize {
    items.iter().filter(|i| **i == ComponentItem::Subcomponent).count()
}

fn first_instance_component_index(items: &[ComponentItem]) -> Option<u32> {
    items.iter().find_map(|i| match i {
        ComponentItem::Instantiate(c) => Some(*c),
        _ => None,
    })
}

#[test]
fn dce_trims_trailing_unused_components() {
    let items = vec![
        ComponentItem::Subcomponent,
        ComponentItem::Subcomponent,
        ComponentItem::Instantiate(0),
    ];
    let original_count = count_components(&items);
    let plan = analyze_component(&items);
    let optimized = reencode(&items, &plan);

    assert_eq!(original_count, 2);
    assert_eq!(plan.total_components, 2);
    assert_eq!(plan.kept_components, 1);
    assert_eq!(plan.removed, 1);
    assert!(optimized.len() < items.len());
    assert_eq!(count_components(&optimized), 1);
}

#[test]
fn dce_remaps_non_trailing_components() {
    let items = vec![
        ComponentItem::Subcomponent,
        ComponentItem::Subcomponent,
        ComponentItem::Subcomponent,
        ComponentItem::Instantiate(1),
    ];
    let plan = analyze_component(&items);
    let optimized = reencode(&items, &plan);

    assert_eq!(plan.total_components, 3);
    assert_eq!(plan.kept_components, 1);
    assert_eq!(plan.removed, 2);
    assert_eq!(count_components(&optimized), 1);
    assert_eq!(first_instance_component_index(&optimized), Some(0));
}

#[test]
fn dce_recurses_into_subcomponents() {
    // The nested level: one used and one unused component.
    let inner = vec![
        ComponentItem::Subcomponent,
        ComponentItem::Subcomponent,
        ComponentItem::Instantiate(0),
    ];
    // The outer level: the nested component, instantiated.
    let outer = vec![ComponentItem::Subcomponent, ComponentItem::Instantiate(0)];

    assert_eq!(count_components(&inner), 2);
    let inner_plan = analyze_component(&inner);
    let inner_opt = reencode(&inner, &inner_plan);
    assert_eq!(count_components(&inner_opt), 1);
    let again = analyze_component(&inner_opt);
    assert_eq!(count_components(&reencode(&inner_opt, &again)), 1);

    let plan = analyze_component(&outer);
    let optimized = reencode(&outer, &plan);
    assert_eq!(plan.total_components, 1);
    assert_eq!(plan.kept_components, 1);
    assert_eq!(plan.removed, 0);
    assert_eq!(count_components(&optimized), 1);
}

#[test]
fn second_pass_changes_nothing() {
    let items = vec![
        ComponentItem::ComponentImport,
        ComponentItem::Subcomponent,
        ComponentItem::Subcomponent,
        ComponentItem::Subcomponent,
        ComponentItem::ComponentExport(3),
        ComponentItem::OuterAlias { count: 0, index: 1 },
        ComponentItem::Instantiate(0),
    ];
    let plan = analyze_component(&items);
    let once = reencode(&items, &plan);
    let plan2 = analyze_component(&once);
    let twice = reencode(&once, &plan2);
    assert_eq!(once, twice);
    assert_eq!(plan2.removed, 0);
    assert_eq!(plan2.component_map, vec![Some(0), Some(1), Some(2)]);
    assert!(plan2.keep.iter().all(|k| *k));
}

#[test]
fn imports_keep_their_indices() {
    let items = vec![
        ComponentItem::ComponentImport,
        ComponentItem::ComponentImport,
        ComponentItem::Subcomponent,
        ComponentItem::Subcomponent,
        ComponentItem::Instantiate(3),
    ];
    let plan = analyze_component(&items);
    assert_eq!(plan.component_map, vec![Some(0), Some(1), None, Some(2)]);
    assert_eq!(plan.keep, vec![false, true]);
}

#[test]
fn every_kept_reference_resolves() {
    let items = vec![
        ComponentItem::Subcomponent,
        ComponentItem::Subcomponent,
        ComponentItem::Subcomponent,
        ComponentItem::Subcomponent,
        ComponentItem::Instantiate(3),
        ComponentItem::ComponentExport(1),
    ];
    let plan = analyze_component(&items);
    let out = reencode(&items, &plan);
    let kept = count_components(&out) as u32;
    for it in &out {
        if let Some(u) = use_of(it) {
            assert!(u < kept);
        }
    }
    assert_eq!(out[2], ComponentItem::Instantiate(1));
    assert_eq!(out[3], ComponentItem::ComponentExport(0));
}

#[test]
fn ancestor_alias_is_no_use() {
    let items = vec![
        ComponentItem::Subcomponent,
        ComponentItem::OuterAlias { count: 1, index: 0 },
    ];
    let plan = analyze_component(&items);
    assert_eq!(plan.removed, 1);
    assert_eq!(plan.component_map, vec![None]);
    let same_level = vec![
        ComponentItem::Subcomponent,
        ComponentItem::OuterAlias { count: 0, index: 0 },
    ];
    assert_eq!(analyze_component(&same_level).kept_components, 1);
}

#[test]
fn nested_level_keeps_indices_and_components() {
    let mut r = DceReencoder::new(vec![false], vec![None]);
    r.push_depth();
    assert_eq!(r.component_index(7), 7);
    assert_eq!(r.outer_component_index(0, 5), 5);
    assert!(r.keeps_next_subcomponent());
    assert_eq!(r.next_component, 0);
    r.pop_depth();
    r.pop_depth();
    assert_eq!(r.depth, 0);
    assert!(!r.keeps_next_subcomponent());
    assert_eq!(r.component_index(0), 0);
    assert_eq!(r.component_index(9), 0);
}

#[test]
fn empty_level() {
    let plan = analyze_component(&Vec::new());
    assert_eq!(plan.total_components, 0);
    assert!(plan.component_map.is_empty());
}

#[test]
fn records_filtered_to_items() {
    let records = vec![
        LevelRecord::Import(ExternKind::Component),
        LevelRecord::Import(ExternKind::Other),
        LevelRecord::Subcomponent,
        LevelRecord::Other,
        LevelRecord::Instantiate(1),
        LevelRecord::Export { kind: ExternKind::Other, index: 4 },
        LevelRecord::Export { kind: ExternKind::Component, index: 1 },
        LevelRecord::OuterAlias { component: false, count: 0, index: 2 },
        LevelRecord::OuterAlias { component: true, count: 1, index: 3 },
    ];
    assert_eq!(
        level_items(&records),
        vec![
            ComponentItem::ComponentImport,
            ComponentItem::Subcomponent,
            ComponentItem::Instantiate(1),
            ComponentItem::ComponentExport(1),
            ComponentItem::OuterAlias { count: 1, index: 3 },
        ]
    );
}

#[test]
fn dangling_reference_is_stable() {
    let items = vec![
        ComponentItem::Subcomponent,
        ComponentItem::Subcomponent,
        ComponentItem::Instantiate(9),
        ComponentItem::Instantiate(1),
    ];
    let once = prune_level(&items, &analyze_component(&items));
    assert_eq!(
        once,
        vec![
            ComponentItem::Subcomponent,
            ComponentItem::Instantiate(0),
            ComponentItem::Instantiate(0),
        ]
    );
    let plan2 = analyze_component(&once);
    assert_eq!(plan2.removed, 0);
    assert_eq!(prune_level(&once, &plan2), once);
}
