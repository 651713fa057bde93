//! Layer allocation, topology, and property behaviour.

use subduction::layer::id::SurfaceId;
use subduction::layer::clip::ClipShape;
use subduction::layer::id::LayerId;
use subduction::layer::store::{LayerFlags, LayerStore, OPACITY_ONE};
use subduction::transform::Transform3d;

#[test]
fn create_and_destroy() {
    let mut store = LayerStore::new();
    let id = store.create_layer();
    assert!(store.is_alive(id));
    store.destroy_layer(id);
    assert!(!store.is_alive(id));
}

#[test]
fn generation_prevents_stale_access() {
    let mut store = LayerStore::new();
    let id1 = store.create_layer();
    store.destroy_layer(id1);
    let id2 = store.create_layer();
    assert!(!store.is_alive(id1));
    assert!(store.is_alive(id2));
    assert_eq!(id1.index(), id2.index());
    assert_ne!(id1.generation(), id2.generation());
}

#[test]
fn add_child_and_query() {
    let mut store = LayerStore::new();
    let parent = store.create_layer();
    let child1 = store.create_layer();
    let child2 = store.create_layer();

    store.add_child(parent, child1);
    store.add_child(parent, child2);

    assert_eq!(store.parent(child1), Some(parent));
    assert_eq!(store.parent(child2), Some(parent));

    let kids: Vec<LayerId> = store.children(parent);
    assert_eq!(kids.len(), 2);
    assert_eq!(kids[0], child1);
    assert_eq!(kids[1], child2);
}

#[test]
fn remove_from_parent_works() {
    let mut store = LayerStore::new();
    let parent = store.create_layer();
    let child = store.create_layer();

    store.add_child(parent, child);
    assert_eq!(store.parent(child), Some(parent));

    store.remove_from_parent(child);
    assert_eq!(store.parent(child), None);
    assert!(store.children(parent).is_empty());
}

#[test]
fn reparent_works() {
    let mut store = LayerStore::new();
    let p1 = store.create_layer();
    let p2 = store.create_layer();
    let child = store.create_layer();

    store.add_child(p1, child);
    assert_eq!(store.parent(child), Some(p1));

    store.reparent(child, p2);
    assert_eq!(store.parent(child), Some(p2));
    assert!(store.children(p1).is_empty());
}

#[test]
fn roots_returns_parentless_layers() {
    let mut store = LayerStore::new();
    let a = store.create_layer();
    let b = store.create_layer();
    let c = store.create_layer();

    store.add_child(a, c);

    let roots = store.roots();
    assert!(roots.contains(&a));
    assert!(roots.contains(&b));
    assert!(!roots.contains(&c));
}

#[test]
fn set_transform_marks_dirty() {
    let mut store = LayerStore::new();
    let id = store.create_layer();
    let t = scale3d(2.0, 2.0, 2.0);
    store.set_transform(id, t);
    assert_eq!(store.local_transform(id), t);
}

fn mul3d(a: Transform3d, b: Transform3d) -> Transform3d {
    let af = a.to_cols_array_2d();
    let bf = b.to_cols_array_2d();
    let mut out = [[0u64; 4]; 4];
    for j in 0..4 {
        for i in 0..4 {
            let mut acc = 0.0f64;
            for m in 0..4 {
                acc += f64::from_bits(af[m][i]) * f64::from_bits(bf[j][m]);
            }
            out[j][i] = acc.to_bits();
        }
    }
    Transform3d::from_cols_array_2d(out)
}

fn blend_opacity(a: u32, b: u32) -> u32 {
    (f32::from_bits(a) * f32::from_bits(b)).to_bits()
}

fn scale3d(x: f64, y: f64, z: f64) -> Transform3d {
    let zero = 0.0f64.to_bits();
    let one = 1.0f64.to_bits();
    Transform3d::from_cols_array_2d([
        [x.to_bits(), zero, zero, zero],
        [zero, y.to_bits(), zero, zero],
        [zero, zero, z.to_bits(), zero],
        [zero, zero, zero, one],
    ])
}

#[test]
fn set_opacity_marks_dirty() {
    let mut store = LayerStore::new();
    let id = store.create_layer();
    let _ = store.evaluate(mul3d, blend_opacity);

    store.set_opacity(id, 0.5f32.to_bits());
    let changes = store.evaluate(mul3d, blend_opacity);
    assert!(
        changes.opacities.contains(&id.index()),
        "opacity channel should contain the layer"
    );
}

#[test]
fn set_clip_marks_dirty() {

    let mut store = LayerStore::new();
    let id = store.create_layer();
    let _ = store.evaluate(mul3d, blend_opacity);

    store.set_clip(
        id,
        Some(ClipShape::Rect {
            x0: 0.0f64.to_bits(),
            y0: 0.0f64.to_bits(),
            x1: 100.0f64.to_bits(),
            y1: 100.0f64.to_bits(),
        }),
    );
    let changes = store.evaluate(mul3d, blend_opacity);
    assert!(
        changes.clips.contains(&id.index()),
        "clip channel should contain the layer"
    );
}

#[test]
fn set_content_marks_dirty() {

    let mut store = LayerStore::new();
    let id = store.create_layer();
    let _ = store.evaluate(mul3d, blend_opacity);

    store.set_content(id, Some(SurfaceId(42)));
    let changes = store.evaluate(mul3d, blend_opacity);
    assert!(
        changes.content.contains(&id.index()),
        "content channel should contain the layer"
    );
}

#[test]
fn set_flags_marks_dirty() {
    let mut store = LayerStore::new();
    let id = store.create_layer();
    let _ = store.evaluate(mul3d, blend_opacity);

    store.set_flags(id, LayerFlags { hidden: true });
    let changes = store.evaluate(mul3d, blend_opacity);
    assert!(
        changes.transforms.contains(&id.index()),
        "flags marks the transform channel"
    );
}

#[test]
fn new_layer_starts_with_defaults() {
    let mut store = LayerStore::new();
    let id = store.create_layer();
    assert_eq!(store.local_transform(id), Transform3d::identity());
    assert_eq!(store.local_opacity(id), OPACITY_ONE);
    assert_eq!(store.clip(id), None);
    assert_eq!(store.content(id), None);
    assert!(!store.flags(id).hidden);
    assert!(!store.effective_hidden(id));
}

#[test]
fn insert_before_works() {
    let mut store = LayerStore::new();
    let parent = store.create_layer();
    let a = store.create_layer();
    let b = store.create_layer();
    let c = store.create_layer();

    store.add_child(parent, a);
    store.add_child(parent, c);
    store.insert_before(b, c);

    let kids: Vec<LayerId> = store.children(parent);
    assert_eq!(kids, vec![a, b, c]);
}
