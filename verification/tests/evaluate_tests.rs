//! Frame evaluation: recomputation, change lists, and traversal order.

use subduction::layer::id::SurfaceId;
use subduction::layer::clip::ClipShape;
use subduction::layer::evaluate::FrameChanges;
use subduction::layer::store::{LayerFlags, LayerStore};
use subduction::transform::Transform3d;

fn mul3d(a: Transform3d, b: Transform3d) -> Transform3d {
    let af = a.to_cols_array_2d();
    let bf = b.to_cols_array_2d();
    let mut out = [[0u64; 4]; 4];
    for j in 0..4 {
        for i in 0..4 {
            let mut acc = 0.0f64;
            for m in 0..4 {
                acc += f64::from_bits(af[m][i]) * f64::from_bits(bf[j][m]);
            }
            out[j][i] = acc.to_bits();
        }
    }
    Transform3d::from_cols_array_2d(out)
}

fn blend_opacity(a: u32, b: u32) -> u32 {
    (f32::from_bits(a) * f32::from_bits(b)).to_bits()
}

fn translation3d(x: f64, y: f64, z: f64) -> Transform3d {
    let zero = 0.0f64.to_bits();
    let one = 1.0f64.to_bits();
    Transform3d::from_cols_array_2d([
        [one, zero, zero, zero],
        [zero, one, zero, zero],
        [zero, zero, one, zero],
        [x.to_bits(), y.to_bits(), z.to_bits(), one],
    ])
}

fn opacity_of(store: &LayerStore, id: subduction::layer::id::LayerId) -> f32 {
    f32::from_bits(store.effective_opacity(id))
}

#[test]
fn evaluate_computes_world_transforms() {
    let mut store = LayerStore::new();
    let parent = store.create_layer();
    let child = store.create_layer();

    let parent_xf = translation3d(10.0, 0.0, 0.0);
    let child_xf = translation3d(0.0, 5.0, 0.0);

    store.set_transform(parent, parent_xf);
    store.set_transform(child, child_xf);
    store.add_child(parent, child);

    let _changes = store.evaluate(mul3d, blend_opacity);

    assert_eq!(store.world_transform(parent), parent_xf);
    let expected = mul3d(parent_xf, child_xf);
    assert_eq!(store.world_transform(child), expected);
}

#[test]
fn chain_of_three_composes_to_the_root_translation() {
    let mut store = LayerStore::new();
    let a = store.create_layer();
    let b = store.create_layer();
    let c = store.create_layer();
    store.add_child(a, b);
    store.add_child(b, c);
    store.set_transform(a, translation3d(10.0, 0.0, 0.0));

    let changes = store.evaluate(mul3d, blend_opacity);

    assert_eq!(store.world_transform(c), translation3d(10.0, 0.0, 0.0));
    assert!(changes.transforms.contains(&a.index()));
    assert!(changes.transforms.contains(&b.index()));
    assert!(changes.transforms.contains(&c.index()));
}

#[test]
fn evaluate_computes_effective_opacity() {
    let mut store = LayerStore::new();
    let parent = store.create_layer();
    let child = store.create_layer();

    store.set_opacity(parent, 0.5f32.to_bits());
    store.set_opacity(child, 0.8f32.to_bits());
    store.add_child(parent, child);

    let _changes = store.evaluate(mul3d, blend_opacity);

    let eps = 1e-6;
    assert!((opacity_of(&store, parent) - 0.5).abs() < eps);
    assert!((opacity_of(&store, child) - 0.4).abs() < eps);
}

#[test]
fn no_change_evaluate_returns_empty() {
    let mut store = LayerStore::new();
    let _root = store.create_layer();

    let _ = store.evaluate(mul3d, blend_opacity);

    let changes = store.evaluate(mul3d, blend_opacity);
    assert!(changes.transforms.is_empty());
    assert!(changes.opacities.is_empty());
    assert!(changes.clips.is_empty());
    assert!(changes.content.is_empty());
    assert!(changes.added.is_empty());
    assert!(changes.removed.is_empty());
    assert!(!changes.topology_changed);
}

#[test]
fn empty_store_second_evaluate_is_entirely_empty() {
    let mut store = LayerStore::new();
    let mut buf = FrameChanges::new();
    store.evaluate_into(&mut buf, mul3d, blend_opacity);
    store.evaluate_into(&mut buf, mul3d, blend_opacity);
    assert!(buf.transforms.is_empty());
    assert!(buf.opacities.is_empty());
    assert!(buf.clips.is_empty());
    assert!(buf.content.is_empty());
    assert!(buf.hidden.is_empty());
    assert!(buf.unhidden.is_empty());
    assert!(buf.added.is_empty());
    assert!(buf.removed.is_empty());
    assert!(!buf.topology_changed);
}

#[test]
fn traversal_order_is_depth_first() {
    let mut store = LayerStore::new();
    let a = store.create_layer();
    let b = store.create_layer();
    let c = store.create_layer();
    let d = store.create_layer();

    store.add_child(a, b);
    store.add_child(a, c);
    store.add_child(b, d);

    let _ = store.evaluate(mul3d, blend_opacity);

    let order = store.traversal_order();
    assert_eq!(order, &vec![a.index(), b.index(), d.index(), c.index()]);
}

#[test]
fn evaluate_tracks_clip_and_content_changes() {

    let mut store = LayerStore::new();
    let id = store.create_layer();
    let _ = store.evaluate(mul3d, blend_opacity);

    store.set_clip(
        id,
        Some(ClipShape::Rect {
            x0: 0.0f64.to_bits(),
            y0: 0.0f64.to_bits(),
            x1: 50.0f64.to_bits(),
            y1: 50.0f64.to_bits(),
        }),
    );
    store.set_content(id, Some(SurfaceId(1)));
    let changes = store.evaluate(mul3d, blend_opacity);
    assert!(changes.clips.contains(&id.index()));
    assert!(changes.content.contains(&id.index()));
}

#[test]
fn evaluate_multiple_roots() {
    let mut store = LayerStore::new();
    let root_a = store.create_layer();
    let child_a = store.create_layer();
    let root_b = store.create_layer();

    store.add_child(root_a, child_a);

    let parent_xf = translation3d(1.0, 0.0, 0.0);
    let child_xf = translation3d(0.0, 2.0, 0.0);
    let root_b_xf = translation3d(3.0, 0.0, 0.0);

    store.set_transform(root_a, parent_xf);
    store.set_transform(child_a, child_xf);
    store.set_transform(root_b, root_b_xf);

    let _ = store.evaluate(mul3d, blend_opacity);

    assert_eq!(store.world_transform(root_a), parent_xf);
    assert_eq!(store.world_transform(child_a), mul3d(parent_xf, child_xf));
    assert_eq!(store.world_transform(root_b), root_b_xf);
}

#[test]
fn evaluate_propagates_opacity_to_descendants() {
    let mut store = LayerStore::new();
    let grandparent = store.create_layer();
    let parent = store.create_layer();
    let child = store.create_layer();

    store.add_child(grandparent, parent);
    store.add_child(parent, child);

    store.set_opacity(grandparent, 0.5f32.to_bits());
    store.set_opacity(parent, 0.8f32.to_bits());
    store.set_opacity(child, 0.5f32.to_bits());

    let _ = store.evaluate(mul3d, blend_opacity);

    let eps = 1e-6;
    assert!((opacity_of(&store, grandparent) - 0.5).abs() < eps);
    assert!((opacity_of(&store, parent) - 0.4).abs() < eps);
    assert!((opacity_of(&store, child) - 0.2).abs() < eps);
}

#[test]
fn evaluate_added_and_removed_lifecycle() {
    let mut store = LayerStore::new();
    let id = store.create_layer();

    let changes = store.evaluate(mul3d, blend_opacity);
    assert!(changes.added.contains(&id.index()));
    assert!(changes.removed.is_empty());

    let changes = store.evaluate(mul3d, blend_opacity);
    assert!(changes.added.is_empty());
    assert!(changes.removed.is_empty());

    store.destroy_layer(id);
    let changes = store.evaluate(mul3d, blend_opacity);
    assert!(changes.removed.contains(&id.index()));
    assert!(changes.added.is_empty());
}

#[test]
fn hidden_layer_is_effectively_hidden() {
    let mut store = LayerStore::new();
    let root = store.create_layer();
    let _ = store.evaluate(mul3d, blend_opacity);

    store.set_flags(root, LayerFlags { hidden: true });
    let changes = store.evaluate(mul3d, blend_opacity);

    assert!(store.effective_hidden(root));
    assert!(changes.hidden.contains(&root.index()));
    assert!(changes.unhidden.is_empty());
}

#[test]
fn hidden_propagates_to_children() {
    let mut store = LayerStore::new();
    let parent = store.create_layer();
    let child = store.create_layer();
    store.add_child(parent, child);
    let _ = store.evaluate(mul3d, blend_opacity);

    store.set_flags(parent, LayerFlags { hidden: true });
    let changes = store.evaluate(mul3d, blend_opacity);

    assert!(store.effective_hidden(parent));
    assert!(store.effective_hidden(child));
    assert!(changes.hidden.contains(&parent.index()));
    assert!(changes.hidden.contains(&child.index()));
}

#[test]
fn unhide_restores_visibility() {
    let mut store = LayerStore::new();
    let root = store.create_layer();
    let _ = store.evaluate(mul3d, blend_opacity);

    store.set_flags(root, LayerFlags { hidden: true });
    let _ = store.evaluate(mul3d, blend_opacity);
    assert!(store.effective_hidden(root));

    store.set_flags(root, LayerFlags { hidden: false });
    let changes = store.evaluate(mul3d, blend_opacity);

    assert!(!store.effective_hidden(root));
    assert!(changes.unhidden.contains(&root.index()));
    assert!(changes.hidden.is_empty());
}

#[test]
fn hidden_layer_still_computes_transform() {
    let mut store = LayerStore::new();
    let parent = store.create_layer();
    let child = store.create_layer();
    store.add_child(parent, child);

    let parent_xf = translation3d(10.0, 0.0, 0.0);
    let child_xf = translation3d(0.0, 5.0, 0.0);
    store.set_transform(parent, parent_xf);
    store.set_transform(child, child_xf);
    store.set_flags(parent, LayerFlags { hidden: true });

    let _ = store.evaluate(mul3d, blend_opacity);

    assert_eq!(store.world_transform(parent), parent_xf);
    assert_eq!(store.world_transform(child), mul3d(parent_xf, child_xf));
    assert!(store.effective_hidden(parent));
    assert!(store.effective_hidden(child));
}

#[test]
fn mutation_while_hidden() {
    let mut store = LayerStore::new();
    let root = store.create_layer();
    store.set_flags(root, LayerFlags { hidden: true });
    let _ = store.evaluate(mul3d, blend_opacity);

    let xf = translation3d(42.0, 0.0, 0.0);
    store.set_transform(root, xf);
    let _ = store.evaluate(mul3d, blend_opacity);
    assert_eq!(store.world_transform(root), xf);

    store.set_flags(root, LayerFlags { hidden: false });
    let changes = store.evaluate(mul3d, blend_opacity);

    assert!(!store.effective_hidden(root));
    assert!(changes.unhidden.contains(&root.index()));
    assert_eq!(store.world_transform(root), xf);
}

#[test]
fn topology_add_child_recomputes_inherited_properties_for_subtree() {
    let mut store = LayerStore::new();
    let parent = store.create_layer();
    let child = store.create_layer();
    let grandchild = store.create_layer();
    store.add_child(child, grandchild);
    let _ = store.evaluate(mul3d, blend_opacity);

    store.set_transform(parent, translation3d(10.0, 0.0, 0.0));
    store.set_opacity(parent, 0.5f32.to_bits());
    store.set_flags(parent, LayerFlags { hidden: true });
    let _ = store.evaluate(mul3d, blend_opacity);

    store.add_child(parent, child);
    let changes = store.evaluate(mul3d, blend_opacity);

    assert!(changes.transforms.contains(&child.index()));
    assert!(changes.transforms.contains(&grandchild.index()));
    assert!(changes.opacities.contains(&child.index()));
    assert!(changes.opacities.contains(&grandchild.index()));
    assert!(changes.hidden.contains(&child.index()));
    assert!(changes.hidden.contains(&grandchild.index()));

    assert_eq!(store.world_transform(child), translation3d(10.0, 0.0, 0.0));
    assert_eq!(
        store.world_transform(grandchild),
        translation3d(10.0, 0.0, 0.0)
    );

    let eps = 1e-6;
    assert!((opacity_of(&store, child) - 0.5).abs() < eps);
    assert!((opacity_of(&store, grandchild) - 0.5).abs() < eps);
    assert!(store.effective_hidden(child));
    assert!(store.effective_hidden(grandchild));
}

#[test]
fn topology_remove_from_parent_recomputes_inherited_properties_for_subtree() {
    let mut store = LayerStore::new();
    let parent = store.create_layer();
    let child = store.create_layer();
    let grandchild = store.create_layer();

    store.add_child(parent, child);
    store.add_child(child, grandchild);

    store.set_transform(parent, translation3d(10.0, 0.0, 0.0));
    store.set_opacity(parent, 0.5f32.to_bits());
    store.set_flags(parent, LayerFlags { hidden: true });
    let _ = store.evaluate(mul3d, blend_opacity);

    store.remove_from_parent(child);
    let changes = store.evaluate(mul3d, blend_opacity);

    assert!(changes.transforms.contains(&child.index()));
    assert!(changes.transforms.contains(&grandchild.index()));
    assert!(changes.opacities.contains(&child.index()));
    assert!(changes.opacities.contains(&grandchild.index()));
    assert!(changes.unhidden.contains(&child.index()));
    assert!(changes.unhidden.contains(&grandchild.index()));

    assert_eq!(store.world_transform(child), Transform3d::identity());
    assert_eq!(store.world_transform(grandchild), Transform3d::identity());

    let eps = 1e-6;
    assert!((opacity_of(&store, child) - 1.0).abs() < eps);
    assert!((opacity_of(&store, grandchild) - 1.0).abs() < eps);
    assert!(!store.effective_hidden(child));
    assert!(!store.effective_hidden(grandchild));
}

#[test]
fn topology_reparent_recomputes_inherited_properties_for_subtree() {
    let mut store = LayerStore::new();
    let old_parent = store.create_layer();
    let new_parent = store.create_layer();
    let child = store.create_layer();
    let grandchild = store.create_layer();

    store.add_child(child, grandchild);
    store.add_child(old_parent, child);

    store.set_transform(old_parent, translation3d(10.0, 0.0, 0.0));
    store.set_opacity(old_parent, 0.5f32.to_bits());
    store.set_flags(old_parent, LayerFlags { hidden: true });

    store.set_transform(new_parent, translation3d(25.0, 0.0, 0.0));
    store.set_opacity(new_parent, 0.25f32.to_bits());
    store.set_flags(new_parent, LayerFlags { hidden: false });
    let _ = store.evaluate(mul3d, blend_opacity);

    store.reparent(child, new_parent);
    let changes = store.evaluate(mul3d, blend_opacity);

    assert!(changes.transforms.contains(&child.index()));
    assert!(changes.transforms.contains(&grandchild.index()));
    assert!(changes.opacities.contains(&child.index()));
    assert!(changes.opacities.contains(&grandchild.index()));
    assert!(changes.unhidden.contains(&child.index()));
    assert!(changes.unhidden.contains(&grandchild.index()));

    assert_eq!(store.world_transform(child), translation3d(25.0, 0.0, 0.0));
    assert_eq!(
        store.world_transform(grandchild),
        translation3d(25.0, 0.0, 0.0)
    );

    let eps = 1e-6;
    assert!((opacity_of(&store, child) - 0.25).abs() < eps);
    assert!((opacity_of(&store, grandchild) - 0.25).abs() < eps);
    assert!(!store.effective_hidden(child));
    assert!(!store.effective_hidden(grandchild));
}

#[test]
fn evaluate_into_reuses_buffer() {
    let mut store = LayerStore::new();
    let a = store.create_layer();
    let b = store.create_layer();

    let mut changes = FrameChanges::new();

    store.evaluate_into(&mut changes, mul3d, blend_opacity);
    assert_eq!(changes.added.len(), 2);

    store.set_opacity(a, 0.5f32.to_bits());
    store.evaluate_into(&mut changes, mul3d, blend_opacity);

    assert!(changes.added.is_empty(), "added should be cleared");
    assert!(
        changes.opacities.contains(&a.index()),
        "opacity change should be present"
    );
    assert!(
        !changes.opacities.contains(&b.index()),
        "unchanged layer should not appear"
    );
}
