//! Struct-of-arrays layer storage with allocation, topology, and property
//! management.
//!
//! Every property lives in a dense array indexed by slot. A free list
//! recycles destroyed slots and generation counters make stale handles
//! detectable. Dirty state is a set of per-slot flags per channel; the
//! inherited channels (transform, opacity) mark a whole subtree eagerly on
//! every mutation. The tree itself is a forest of doubly-linked child
//! lists, mirrored by a ghost map from parent to child sequence that the
//! contracts speak of.

use vstd::prelude::*;

use crate::layer::clip::ClipShape;
use crate::layer::evaluate::FrameChanges;
use crate::layer::id::{LayerId, SurfaceId, INVALID};
use crate::transform::{identity_spec, Transform3d};

verus! {

/// The 32-bit word encoding opacity one (fully opaque).
pub const OPACITY_ONE: u32 = 0x3F80_0000;

/// Per-layer boolean flags.
///
/// Setting `hidden` suppresses all visual contribution of the layer and its
/// entire subtree. Properties can still be mutated while hidden; unhiding
/// restores state immediately without re-evaluation.
#[derive(Clone, Copy, PartialEq, Eq, Structural, Hash, Debug)]
pub struct LayerFlags {
    /// Whether the layer (and its subtree) is hidden.
    pub hidden: bool,
}

impl Default for LayerFlags {
    /// Not hidden.
    fn default() -> (r: Self)
        ensures
            !r.hidden,
    {
        LayerFlags { hidden: false }
    }
}

/// Struct-of-arrays storage for all layers.
pub struct LayerStore {
    // -- Topology --
    pub(crate) parent: Vec<u32>,
    pub(crate) first_child: Vec<u32>,
    pub(crate) next_sibling: Vec<u32>,
    pub(crate) prev_sibling: Vec<u32>,
    // -- Local properties (set by callers) --
    pub(crate) local_transform: Vec<Transform3d>,
    pub(crate) local_opacity: Vec<u32>,
    pub(crate) clip: Vec<Option<ClipShape>>,
    pub(crate) content: Vec<Option<SurfaceId>>,
    pub(crate) flags: Vec<LayerFlags>,
    // -- Computed properties (written by evaluate) --
    pub(crate) world_transform: Vec<Transform3d>,
    pub(crate) effective_opacity: Vec<u32>,
    pub(crate) effective_hidden: Vec<bool>,
    // -- Allocation --
    pub(crate) generation: Vec<u32>,
    pub(crate) alive: Vec<bool>,
    pub(crate) free_list: Vec<u32>,
    // -- Dirty flags, one per channel --
    pub(crate) dirty_transform: Vec<bool>,
    pub(crate) dirty_opacity: Vec<bool>,
    pub(crate) dirty_clip: Vec<bool>,
    pub(crate) dirty_content: Vec<bool>,
    pub(crate) dirty_topology: Vec<bool>,
    // -- Traversal cache --
    pub(crate) traversal: Vec<u32>,
    pub(crate) traversal_dirty: bool,
    // -- Lifecycle tracking --
    pub(crate) pending_added: Vec<u32>,
    pub(crate) pending_removed: Vec<u32>,
    // -- Ghost mirror of the child lists --
    pub(crate) kids: Ghost<Map<u32, Seq<u32>>>,
    // -- Ghost witness that the forest is acyclic: each live slot's depth --
    pub(crate) depth: Ghost<Map<u32, nat>>,
}

impl LayerStore {
    /// Number of slots ever allocated.
    pub closed spec fn n(self) -> int {
        self.parent@.len() as int
    }

    /// Whether slot `i` currently holds a live layer.
    pub closed spec fn live(self, i: u32) -> bool {
        i < self.n() && self.alive@[i as int]
    }

    /// The parent slot of `i`, or [`INVALID`].
    pub closed spec fn parent_of(self, i: u32) -> u32 {
        self.parent@[i as int]
    }

    /// The current generation of slot `i`.
    pub closed spec fn gen_of(self, i: u32) -> u32 {
        self.generation@[i as int]
    }

    /// The children of slot `p`, in sibling order.
    pub closed spec fn kids_of(self, p: u32) -> Seq<u32> {
        self.kids@[p]
    }

    /// The local transform words of slot `i`.
    pub closed spec fn local_transform_of(self, i: u32) -> Transform3d {
        self.local_transform@[i as int]
    }

    /// The local opacity word of slot `i`.
    pub closed spec fn local_opacity_of(self, i: u32) -> u32 {
        self.local_opacity@[i as int]
    }

    /// The clip shape of slot `i`.
    pub closed spec fn clip_of(self, i: u32) -> Option<ClipShape> {
        self.clip@[i as int]
    }

    /// The content surface of slot `i`.
    pub closed spec fn content_of(self, i: u32) -> Option<SurfaceId> {
        self.content@[i as int]
    }

    /// The flags of slot `i`.
    pub closed spec fn flags_of(self, i: u32) -> LayerFlags {
        self.flags@[i as int]
    }

    /// The computed world transform words of slot `i`.
    pub closed spec fn world_of(self, i: u32) -> Transform3d {
        self.world_transform@[i as int]
    }

    /// The computed effective opacity word of slot `i`.
    pub closed spec fn eff_opacity_of(self, i: u32) -> u32 {
        self.effective_opacity@[i as int]
    }

    /// The computed effective hidden flag of slot `i`.
    pub closed spec fn eff_hidden_of(self, i: u32) -> bool {
        self.effective_hidden@[i as int]
    }

    /// Whether the transform channel is dirty at slot `i`.
    pub closed spec fn dirty_t(self, i: u32) -> bool {
        self.dirty_transform@[i as int]
    }

    /// Whether the opacity channel is dirty at slot `i`.
    pub closed spec fn dirty_o(self, i: u32) -> bool {
        self.dirty_opacity@[i as int]
    }

    /// Whether the clip channel is dirty at slot `i`.
    pub closed spec fn dirty_c(self, i: u32) -> bool {
        self.dirty_clip@[i as int]
    }

    /// Whether the content channel is dirty at slot `i`.
    pub closed spec fn dirty_ct(self, i: u32) -> bool {
        self.dirty_content@[i as int]
    }

    /// Whether the topology channel is dirty at slot `i`.
    pub closed spec fn dirty_tp(self, i: u32) -> bool {
        self.dirty_topology@[i as int]
    }

    /// The cached traversal order.
    pub closed spec fn trav(self) -> Seq<u32> {
        self.traversal@
    }

    /// Whether the traversal cache is stale.
    pub closed spec fn trav_dirty(self) -> bool {
        self.traversal_dirty
    }

    /// The distance of slot `i` from its root (a ghost witness; zero for
    /// roots, one more than the parent otherwise).
    pub closed spec fn depth_of(self, i: u32) -> nat {
        self.depth@[i]
    }

    /// Depths are consistent with the parent links: the forest is acyclic.
    pub closed spec fn depth_ok(self) -> bool {
        forall|i: u32|
            self.live(i) ==> (if self.parent_of(i) == INVALID {
                #[trigger] self.depth_of(i) == 0
            } else {
                self.depth_of(i) == self.depth_of(self.parent_of(i)) + 1
            })
    }

    /// The currently free (recyclable) slots, most recently freed last.
    pub closed spec fn free_view(self) -> Seq<u32> {
        self.free_list@
    }

    /// Slots created since the last evaluation.
    pub closed spec fn added_view(self) -> Seq<u32> {
        self.pending_added@
    }

    /// Slots destroyed since the last evaluation.
    pub closed spec fn removed_view(self) -> Seq<u32> {
        self.pending_removed@
    }

    /// Whether `id` is a valid handle to a live layer: its slot exists, is
    /// live, and carries the handle's generation.
    pub open spec fn valid_id(self, id: LayerId) -> bool {
        self.live(id.idx) && self.gen_of(id.idx) == id.generation
    }

    /// An upward parent chain: every element is live and each one's parent
    /// is the next.
    pub open spec fn chain(self, p: Seq<u32>) -> bool {
        &&& p.len() >= 1
        &&& forall|i: int| 0 <= i < p.len() ==> self.live(#[trigger] p[i])
        &&& forall|i: int| 0 <= i < p.len() - 1 ==> self.parent_of(#[trigger] p[i]) == p[i + 1]
    }

    /// Whether `anc` is `k` or one of its ancestors: some upward chain leads
    /// from `k` to `anc`.
    pub open spec fn in_subtree(self, anc: u32, k: u32) -> bool {
        exists|p: Seq<u32>| self.chain(p) && p[0] == k && p.last() == anc
    }

    /// Consistency of one child list: entries are live children of `p` in
    /// both directions of the sibling links, the list has no repeats, and
    /// every live child of `p` appears.
    pub closed spec fn kids_ok(self, p: u32) -> bool {
        let k = self.kids_of(p);
        &&& k.no_duplicates()
        &&& forall|j: int| 0 <= j < k.len() ==> self.live(#[trigger] k[j]) && self.parent_of(k[j])
            == p
        &&& self.first_child@[p as int] == (if k.len() > 0 {
            k[0]
        } else {
            INVALID
        })
        &&& forall|j: int| 0 <= j < k.len() ==> self.next_sibling@[#[trigger] k[j] as int] == (
        if j + 1 < k.len() {
            k[j + 1]
        } else {
            INVALID
        })
        &&& forall|j: int| 0 <= j < k.len() ==> self.prev_sibling@[#[trigger] k[j] as int] == (
        if j > 0 {
            k[j - 1]
        } else {
            INVALID
        })
    }

    /// All property arrays have one entry per slot.
    pub closed spec fn lens_ok(self) -> bool {
        let n = self.n();
        &&& n < INVALID
        &&& self.first_child@.len() == n
        &&& self.next_sibling@.len() == n
        &&& self.prev_sibling@.len() == n
        &&& self.local_transform@.len() == n
        &&& self.local_opacity@.len() == n
        &&& self.clip@.len() == n
        &&& self.content@.len() == n
        &&& self.flags@.len() == n
        &&& self.world_transform@.len() == n
        &&& self.effective_opacity@.len() == n
        &&& self.effective_hidden@.len() == n
        &&& self.generation@.len() == n
        &&& self.alive@.len() == n
        &&& self.dirty_transform@.len() == n
        &&& self.dirty_opacity@.len() == n
        &&& self.dirty_clip@.len() == n
        &&& self.dirty_content@.len() == n
        &&& self.dirty_topology@.len() == n
    }

    /// Live slots point at live parents; dead slots carry no links and no
    /// dirtiness.
    pub closed spec fn links_ok(self) -> bool {
        &&& forall|i: u32|
            self.live(i) ==> (#[trigger] self.parent_of(i) == INVALID || self.live(
                self.parent_of(i),
            ))
        &&& forall|i: u32|
            self.live(i) && #[trigger] self.parent_of(i) == INVALID ==> self.next_sibling@[
                i as int
            ] == INVALID && self.prev_sibling@[i as int] == INVALID
        &&& forall|i: u32|
            i < self.n() && !self.live(i) ==> #[trigger] self.parent_of(i) == INVALID
                && self.first_child@[i as int] == INVALID && self.next_sibling@[i as int]
                == INVALID && self.prev_sibling@[i as int] == INVALID
    }

    /// Every live slot has a consistent child list, and every live child
    /// stands in its parent's list.
    pub closed spec fn kids_all_ok(self) -> bool {
        &&& forall|i: u32| self.live(i) ==> #[trigger] self.kids@.contains_key(i)
        &&& forall|i: u32| self.live(i) ==> #[trigger] self.kids_ok(i)
        &&& forall|c: u32|
            self.live(c) && self.parent_of(c) != INVALID ==> #[trigger] self.kids_of(
                self.parent_of(c),
            ).contains(c)
    }

    /// The free list holds exactly the dead slots, once each.
    pub closed spec fn free_ok(self) -> bool {
        &&& self.free_list@.no_duplicates()
        &&& forall|j: int|
            0 <= j < self.free_list@.len() ==> #[trigger] self.free_list@[j] < self.n()
                && !self.live(self.free_list@[j])
        &&& forall|i: u32| i < self.n() && !self.live(i) ==> #[trigger] self.free_list@.contains(i)
    }

    /// Structural well-formedness of the whole store.
    pub closed spec fn wf(self) -> bool {
        &&& self.lens_ok()
        &&& self.links_ok()
        &&& self.kids_all_ok()
        &&& self.free_ok()
        &&& self.depth_ok()
        &&& (!self.trav_dirty() ==> self.trav_ok())
    }

    /// Soundness of the traversal cache: entries are live, unrepeated, and
    /// every non-root entry's parent stands earlier in the order.
    pub open spec fn trav_ok(self) -> bool {
        let t = self.trav();
        &&& t.no_duplicates()
        &&& forall|j: int| 0 <= j < t.len() ==> self.live(#[trigger] t[j])
        &&& forall|j: int|
            0 <= j < t.len() && self.parent_of(#[trigger] t[j]) != INVALID ==> exists|m: int|
                0 <= m < j && t[m] == self.parent_of(t[j])
        &&& forall|i: u32| self.live(i) ==> #[trigger] t.contains(i)
    }

    /// Creates an empty layer store.
    pub fn new() -> (r: Self)
        ensures
            r.wf(),
            r.n() == 0,
            r.trav_dirty(),
            r.added_view() == Seq::<u32>::empty(),
            r.removed_view() == Seq::<u32>::empty(),
    {
        LayerStore {
            parent: Vec::new(),
            first_child: Vec::new(),
            next_sibling: Vec::new(),
            prev_sibling: Vec::new(),
            local_transform: Vec::new(),
            local_opacity: Vec::new(),
            clip: Vec::new(),
            content: Vec::new(),
            flags: Vec::new(),
            world_transform: Vec::new(),
            effective_opacity: Vec::new(),
            effective_hidden: Vec::new(),
            generation: Vec::new(),
            alive: Vec::new(),
            free_list: Vec::new(),
            dirty_transform: Vec::new(),
            dirty_opacity: Vec::new(),
            dirty_clip: Vec::new(),
            dirty_content: Vec::new(),
            dirty_topology: Vec::new(),
            traversal: Vec::new(),
            traversal_dirty: true,
            pending_added: Vec::new(),
            pending_removed: Vec::new(),
            kids: Ghost(Map::empty()),
            depth: Ghost(Map::new(|x: u32| true, |x: u32| 0nat)),
        }
    }

    /// Creates a new layer and returns its handle.
    ///
    /// The layer starts with an identity transform, full opacity, no clip,
    /// no content, no parent, and no children. Destroyed slots are recycled
    /// before the arrays grow.
    #[verifier::rlimit(100)]
    #[verifier::spinoff_prover]
    pub fn create_layer(&mut self) -> (id: LayerId)
        requires
            old(self).wf(),
            old(self).n() < INVALID - 1,
        ensures
            final(self).wf(),
            final(self).valid_id(id),
            final(self).kids_of(id.idx).len() == 0,
            final(self).parent_of(id.idx) == INVALID,
            final(self).local_transform_of(id.idx) == identity_spec(),
            final(self).local_opacity_of(id.idx) == OPACITY_ONE,
            final(self).clip_of(id.idx) is None,
            final(self).content_of(id.idx) is None,
            !final(self).flags_of(id.idx).hidden,
            final(self).world_of(id.idx) == identity_spec(),
            final(self).eff_opacity_of(id.idx) == OPACITY_ONE,
            !final(self).eff_hidden_of(id.idx),
            // the slot was not live before, and everything else stands
            !old(self).live(id.idx),
            forall|i: u32|
                i != id.idx ==> #[trigger] final(self).live(i) == old(self).live(i) && final(self).gen_of_or_zero(i) == old(self).gen_of_or_zero(i),
            forall|id2: LayerId|
                id2.idx != id.idx ==> #[trigger] final(self).valid_id(id2) == old(self).valid_id(
                    id2,
                ),
            forall|i: u32|
                i != id.idx && i < old(self).n() ==> properties_unchanged_at(
                    *old(self),
                    *final(self),
                    i,
                ) && links_unchanged_at(*old(self), *final(self), i),
            forall|p: u32|
                old(self).live(p) ==> #[trigger] final(self).kids_of(p) == old(self).kids_of(p),
            final(self).added_view() == old(self).added_view().push(id.idx),
            final(self).removed_view() == old(self).removed_view(),
            final(self).trav_dirty(),
            final(self).dirty_tp(id.idx),
            forall|i: u32|
                i < old(self).n() && i != id.idx ==> dirty_unchanged_at(
                    *old(self),
                    *final(self),
                    i,
                ),
            !final(self).dirty_t(id.idx),
            !final(self).dirty_o(id.idx),
            !final(self).dirty_c(id.idx),
            !final(self).dirty_ct(id.idx),
            // freed slots are recycled before the arrays grow, and a
            // recycled slot's generation moves on so stale handles stay
            // stale
            old(self).free_view().len() > 0 ==> final(self).n() == old(self).n() && id.idx
                == old(self).free_view().last() && id.generation == succ_gen(
                old(self).gen_of(id.idx),
            ),
            old(self).free_view().len() == 0 ==> final(self).n() == old(self).n() + 1 && id.idx
                == old(self).n() && id.generation == 0,
    {
        let idx: u32;
        if self.free_list.len() > 0 {
            let last = self.free_list.len() - 1;
            idx = self.free_list.remove(last);
            let i = idx as usize;
            let g = self.generation[i];
            self.generation[i] = if g == u32::MAX {
                0
            } else {
                g + 1
            };
            self.alive[i] = true;
            self.parent[i] = INVALID;
            self.first_child[i] = INVALID;
            self.next_sibling[i] = INVALID;
            self.prev_sibling[i] = INVALID;
            self.local_transform[i] = Transform3d::identity();
            self.local_opacity[i] = OPACITY_ONE;
            self.clip[i] = None;
            self.content[i] = None;
            self.flags[i] = LayerFlags { hidden: false };
            self.world_transform[i] = Transform3d::identity();
            self.effective_opacity[i] = OPACITY_ONE;
            self.effective_hidden[i] = false;
            self.dirty_transform[i] = false;
            self.dirty_opacity[i] = false;
            self.dirty_clip[i] = false;
            self.dirty_content[i] = false;
            self.dirty_topology[i] = false;
            proof {
                // the popped entry was the only free-list entry for idx
                let a = *old(self);
                let fl = old(self).free_list@;
                assert(self.free_list@ =~= fl.subrange(0, fl.len() - 1));
                assert forall|i2: u32|
                    i2 < self.n() && !self.live(i2) implies #[trigger] self.free_list@.contains(
                    i2,
                ) by {
                    assert(fl.contains(i2));
                    let j = choose|j: int| 0 <= j < fl.len() && fl[j] == i2;
                    assert(j < fl.len() - 1 || fl[j] == idx);
                    if j < fl.len() - 1 {
                        assert(self.free_list@[j] == i2);
                    }
                }
                assert(self.free_list@.no_duplicates()) by {
                    assert forall|x: int, y: int|
                        0 <= x < y < self.free_list@.len() implies self.free_list@[x]
                        != self.free_list@[y] by {
                        assert(fl[x] != fl[y]);
                    }
                }
                assert forall|j: int| 0 <= j < self.free_list@.len() implies #[trigger] self
                    .free_list@[j] < self.n() && !self.live(self.free_list@[j]) by {
                    assert(self.free_list@[j] == fl[j]);
                    assert(fl[j] < a.n() && !a.live(fl[j]));
                    assert(fl[fl.len() - 1] == idx);
                    assert(fl[j] != idx);
                }
            }
        } else {
            idx = self.parent.len() as u32;
            self.parent.push(INVALID);
            self.first_child.push(INVALID);
            self.next_sibling.push(INVALID);
            self.prev_sibling.push(INVALID);
            self.local_transform.push(Transform3d::identity());
            self.local_opacity.push(OPACITY_ONE);
            self.clip.push(None);
            self.content.push(None);
            self.flags.push(LayerFlags { hidden: false });
            self.world_transform.push(Transform3d::identity());
            self.effective_opacity.push(OPACITY_ONE);
            self.effective_hidden.push(false);
            self.generation.push(0);
            self.alive.push(true);
            self.dirty_transform.push(false);
            self.dirty_opacity.push(false);
            self.dirty_clip.push(false);
            self.dirty_content.push(false);
            self.dirty_topology.push(false);
        }

        self.traversal_dirty = true;
        self.pending_added.push(idx);
        self.dirty_topology[idx as usize] = true;
        proof {
            self.kids@ = self.kids@.insert(idx, Seq::empty());
            self.depth@ = self.depth@.insert(idx, 0nat);
        }

        let gen = self.generation[idx as usize];
        proof {
            let a = *old(self);
            assert forall|i: u32| self.live(i) implies #[trigger] self.kids_ok(i) by {
                if i != idx {
                    assert(a.live(i));
                    assert(a.kids_ok(i));
                    assert(self.kids_of(i) == a.kids_of(i));
                    let k = a.kids_of(i);
                    assert forall|j: int| 0 <= j < k.len() implies self.live(#[trigger] k[j])
                        && self.parent_of(k[j]) == i by {
                        assert(a.live(k[j]) && a.parent_of(k[j]) == i);
                        assert(k[j] != idx);
                    }
                }
            }
            assert forall|i: u32|
                self.live(i) implies (#[trigger] self.parent_of(i) == INVALID || self.live(
                self.parent_of(i),
            )) by {
                if i != idx {
                    assert(a.live(i));
                    assert(a.parent_of(i) == INVALID || a.live(a.parent_of(i)));
                    assert(self.parent_of(i) == a.parent_of(i));
                }
            }
            assert forall|i: u32|
                i < self.n() && !self.live(i) implies #[trigger] self.parent_of(i) == INVALID
                    && self.first_child@[i as int] == INVALID && self.next_sibling@[i as int]
                    == INVALID && self.prev_sibling@[i as int] == INVALID by {
                assert(i != idx);
                assert(i < a.n() && !a.live(i));
                assert(a.parent_of(i) == INVALID);
                assert(a.first_child@[i as int] == INVALID);
                assert(a.next_sibling@[i as int] == INVALID);
                assert(a.prev_sibling@[i as int] == INVALID);
            }
            assert forall|c: u32|
                self.live(c) && self.parent_of(c) != INVALID implies #[trigger] self.kids_of(
                self.parent_of(c),
            ).contains(c) by {
                assert(c != idx);
                assert(a.live(c) && a.parent_of(c) != INVALID);
                assert(a.kids_of(a.parent_of(c)).contains(c));
                assert(a.live(a.parent_of(c)));
                assert(a.parent_of(c) != idx);
            }
            if a.free_list@.len() == 0 {
                assert forall|i2: u32|
                    i2 < self.n() && !self.live(i2) implies #[trigger] self.free_list@.contains(
                    i2,
                ) by {
                    assert(i2 < a.n() && !a.live(i2));
                }
            }
            assert forall|q: u32|
                self.live(q) && #[trigger] self.parent_of(q) == INVALID implies self
                .next_sibling@[q as int] == INVALID && self.prev_sibling@[q as int]
                == INVALID by {
                if q != idx {
                    assert(a.live(q) && a.parent_of(q) == INVALID);
                }
            }
            assert(self.lens_ok());
            assert(self.links_ok());
            assert(self.kids_all_ok());
            assert(self.free_ok());
            assert(self.depth_ok()) by {
                assert forall|q: u32|
                    self.live(q) implies (if self.parent_of(q) == INVALID {
                    #[trigger] self.depth_of(q) == 0
                } else {
                    self.depth_of(q) == self.depth_of(self.parent_of(q)) + 1
                }) by {
                    if q != idx {
                        assert(a.live(q));
                        assert(a.parent_of(q) == INVALID || a.live(a.parent_of(q)));
                        assert(a.parent_of(q) != idx);
                        assert(if a.parent_of(q) == INVALID {
                            a.depth_of(q) == 0
                        } else {
                            a.depth_of(q) == a.depth_of(a.parent_of(q)) + 1
                        });
                    }
                }
            }
            assert(self.wf());
        }
        LayerId { idx, generation: gen }
    }

    /// Destroys a layer, freeing its slot for reuse.
    ///
    /// The layer must have no children; remove them first. The handle
    /// becomes stale: its generation no longer matches the slot's.
    #[verifier::rlimit(100)]
    #[verifier::spinoff_prover]
    pub fn destroy_layer(&mut self, id: LayerId)
        requires
            old(self).wf(),
            old(self).valid_id(id),
            old(self).kids_of(id.idx).len() == 0,
        ensures
            final(self).wf(),
            !final(self).live(id.idx),
            !final(self).valid_id(id),
            final(self).n() == old(self).n(),
            final(self).gen_of(id.idx) == succ_gen(old(self).gen_of(id.idx)),
            forall|i: u32|
                i != id.idx ==> #[trigger] final(self).live(i) == old(self).live(i) && final(self).gen_of_or_zero(i) == old(self).gen_of_or_zero(i),
            forall|id2: LayerId|
                id2.idx != id.idx ==> #[trigger] final(self).valid_id(id2) == old(self).valid_id(
                    id2,
                ),
            forall|i: u32|
                i < old(self).n() && i != id.idx ==> properties_unchanged_at(
                    *old(self),
                    *final(self),
                    i,
                ),
            forall|p: u32|
                final(self).live(p) ==> #[trigger] final(self).kids_of(p) == (
                if old(self).parent_of(id.idx) == p {
                    old(self).kids_of(p).remove_value(id.idx)
                } else {
                    old(self).kids_of(p)
                }),
            final(self).added_view() == old(self).added_view(),
            final(self).removed_view() == old(self).removed_view().push(id.idx),
            final(self).trav_dirty(),
            forall|i: u32|
                i < old(self).n() && i != id.idx && old(self).parent_of(id.idx) != i
                    ==> dirty_unchanged_at(*old(self), *final(self), i),
    {
        let idx = id.idx;
        proof {
            assert(old(self).lens_ok());
        }
        let ghost mut au = *self;
        if self.parent[idx as usize] != INVALID {
            let p = self.parent[idx as usize];
            proof {
                assert(old(self).parent_of(idx) == p);
                assert(old(self).live(p));
            }
            self.unlink_from_parent(idx);
            proof {
                au = *self;
            }
            proof {
                assert(au.wf());
                assert(au.lens_ok());
                assert(au.live(p));
                assert(au.kids_of(idx) == old(self).kids_of(idx)) by {
                    if old(self).parent_of(idx) == idx {
                        assert(old(self).kids_of(old(self).parent_of(idx)).contains(idx));
                    }
                }
            }
            self.dirty_topology[p as usize] = true;
            proof {
                // marking a live slot's topology flag keeps the store
                // well-formed
                assert(self.lens_ok());
                lemma_wf_dirty_only(au, *self);
            }
        }
        let ghost mid = *self;
        proof {
            assert(mid.wf());
            assert(mid.lens_ok() && mid.links_ok() && mid.kids_all_ok() && mid.free_ok());
            assert(mid.parent_of(idx) == INVALID);
            assert(mid.kids_of(idx).len() == 0);
            assert(mid.live(idx));
        }
        let i = idx as usize;
        self.dirty_transform[i] = false;
        self.dirty_opacity[i] = false;
        self.dirty_clip[i] = false;
        self.dirty_content[i] = false;
        self.dirty_topology[i] = false;
        let g = self.generation[i];
        self.generation[i] = if g == u32::MAX {
            0
        } else {
            g + 1
        };
        self.alive[i] = false;
        self.free_list.push(idx);
        self.traversal_dirty = true;
        self.pending_removed.push(idx);
        proof {
            self.kids@ = self.kids@.remove(idx);
            assert(self.lens_ok());
            // a root with no children leaves no trace in any child list
            assert forall|q: u32| self.live(q) implies #[trigger] self.kids_ok(q) by {
                assert(q != idx);
                assert(mid.live(q));
                assert(mid.kids_ok(q));
                assert(self.kids_of(q) == mid.kids_of(q));
                let k = mid.kids_of(q);
                assert forall|j: int| 0 <= j < k.len() implies self.live(#[trigger] k[j])
                    && self.parent_of(k[j]) == q by {
                    assert(mid.live(k[j]) && mid.parent_of(k[j]) == q);
                    assert(k[j] != idx);
                }
            }
            assert(self.links_ok()) by {
                assert forall|q: u32|
                    q < self.n() && !self.live(q) implies #[trigger] self.parent_of(q) == INVALID
                        && self.first_child@[q as int] == INVALID && self.next_sibling@[q as int]
                        == INVALID && self.prev_sibling@[q as int] == INVALID by {
                    if q == idx {
                        assert(mid.kids_ok(idx));
                        assert(mid.first_child@[idx as int] == INVALID);
                        assert(mid.next_sibling@[idx as int] == INVALID);
                        assert(mid.prev_sibling@[idx as int] == INVALID);
                    } else {
                        assert(!mid.live(q));
                        assert(mid.parent_of(q) == INVALID);
                        assert(mid.first_child@[q as int] == INVALID);
                        assert(mid.next_sibling@[q as int] == INVALID);
                        assert(mid.prev_sibling@[q as int] == INVALID);
                    }
                }
                assert forall|q: u32|
                    self.live(q) implies (#[trigger] self.parent_of(q) == INVALID || self.live(
                    self.parent_of(q),
                )) by {
                    assert(mid.live(q) && q != idx);
                    assert(mid.parent_of(q) == INVALID || mid.live(mid.parent_of(q)));
                    if mid.parent_of(q) != INVALID {
                        assert(mid.parent_of(q) != idx) by {
                            if mid.parent_of(q) == idx {
                                assert(mid.kids_of(idx).contains(q));
                            }
                        }
                    }
                }
                assert forall|q: u32|
                    self.live(q) && #[trigger] self.parent_of(q) == INVALID implies self
                    .next_sibling@[q as int] == INVALID && self.prev_sibling@[q as int]
                    == INVALID by {
                    assert(mid.live(q));
                    assert(mid.parent_of(q) == INVALID);
                    assert(mid.next_sibling@[q as int] == INVALID);
                    assert(mid.prev_sibling@[q as int] == INVALID);
                }
            }
            assert(self.kids_all_ok()) by {
                assert forall|c: u32|
                    self.live(c) && self.parent_of(c) != INVALID implies #[trigger] self.kids_of(
                    self.parent_of(c),
                ).contains(c) by {
                    assert(c != idx);
                    assert(mid.kids_of(mid.parent_of(c)).contains(c));
                    assert(mid.parent_of(c) != idx) by {
                        if mid.parent_of(c) == idx {
                            assert(mid.kids_of(idx).contains(c));
                        }
                    }
                }
            }
            assert(self.depth_ok()) by {
                assert forall|q2: u32|
                    self.live(q2) implies (if self.parent_of(q2) == INVALID {
                    #[trigger] self.depth_of(q2) == 0
                } else {
                    self.depth_of(q2) == self.depth_of(self.parent_of(q2)) + 1
                }) by {
                    assert(q2 != idx);
                    assert(mid.live(q2));
                    assert(if mid.parent_of(q2) == INVALID {
                        mid.depth_of(q2) == 0
                    } else {
                        mid.depth_of(q2) == mid.depth_of(mid.parent_of(q2)) + 1
                    });
                }
            }
            assert(self.free_ok()) by {
                assert(!mid.free_list@.contains(idx)) by {
                    if mid.free_list@.contains(idx) {
                        let j = choose|j: int|
                            0 <= j < mid.free_list@.len() && mid.free_list@[j] == idx;
                        assert(!mid.live(mid.free_list@[j]));
                    }
                }
                assert forall|i2: u32|
                    i2 < self.n() && !self.live(i2) implies #[trigger] self.free_list@.contains(
                    i2,
                ) by {
                    if i2 == idx {
                        assert(self.free_list@.last() == idx);
                    } else {
                        assert(mid.free_list@.contains(i2));
                        let j = choose|j: int|
                            0 <= j < mid.free_list@.len() && mid.free_list@[j] == i2;
                        assert(self.free_list@[j] == i2);
                    }
                }
            }
            assert(self.wf());
            // frame conditions, carried through the detach and the updates
            let a = *old(self);
            assert forall|i2: u32|
                i2 != idx implies #[trigger] self.live(i2) == a.live(i2) && self.gen_of_or_zero(
                i2,
            ) == a.gen_of_or_zero(i2) by {
                assert(au.live(i2) == a.live(i2));
                assert(mid.live(i2) == au.live(i2));
                if i2 < a.n() {
                    assert(au.gen_of(i2) == a.gen_of(i2));
                    assert(mid.gen_of(i2) == au.gen_of(i2));
                }
            }
            assert forall|id2: LayerId|
                id2.idx != idx implies #[trigger] self.valid_id(id2) == a.valid_id(id2) by {
                assert(self.live(id2.idx) == a.live(id2.idx));
                if id2.idx < a.n() {
                    assert(self.gen_of(id2.idx) == a.gen_of(id2.idx));
                }
            }
            assert forall|i2: u32|
                i2 < a.n() && i2 != idx implies properties_unchanged_at(a, *self, i2) by {
                assert(properties_unchanged_at(a, au, i2));
                assert(properties_unchanged_at(au, mid, i2));
            }
            assert forall|q: u32|
                self.live(q) implies #[trigger] self.kids_of(q) == (
                if a.parent_of(idx) == q {
                    a.kids_of(q).remove_value(idx)
                } else {
                    a.kids_of(q)
                }) by {
                assert(q != idx);
                assert(self.kids_of(q) == mid.kids_of(q));
                assert(mid.kids_of(q) == au.kids_of(q));
                assert(au.live(q));
                assert(au.kids_of(q) == (if a.parent_of(idx) == q {
                    a.kids_of(q).remove_value(idx)
                } else {
                    a.kids_of(q)
                }));
            }
            assert forall|i2: u32|
                i2 < a.n() && i2 != idx && a.parent_of(idx) != i2 implies dirty_unchanged_at(
                    a,
                    *self,
                    i2,
                ) by {
                assert(dirty_unchanged_at(a, au, i2));
                assert(dirty_unchanged_at(au, mid, i2) || i2 == a.parent_of(idx));
            }
        }
    }

    /// Returns whether the given handle refers to a live layer.
    pub fn is_alive(&self, id: LayerId) -> (r: bool)
        requires
            self.wf(),
        ensures
            r == self.valid_id(id),
    {
        let n = self.parent.len();
        (id.idx as usize) < n && self.generation[id.idx as usize] == id.generation
            && self.alive[id.idx as usize]
    }

    /// Returns the parent of a layer, if any.
    pub fn parent(&self, id: LayerId) -> (r: Option<LayerId>)
        requires
            self.wf(),
            self.valid_id(id),
        ensures
            match r {
                Some(p) => self.parent_of(id.idx) == p.idx && self.valid_id(p),
                None => self.parent_of(id.idx) == INVALID,
            },
    {
        let p = self.parent[id.idx as usize];
        if p == INVALID {
            None
        } else {
            proof {
                assert(self.parent_of(id.idx) == INVALID || self.live(self.parent_of(id.idx)));
                assert(self.live(p));
            }
            Some(LayerId { idx: p, generation: self.generation[p as usize] })
        }
    }

    /// Returns the direct children of a layer, in sibling order.
    pub fn children(&self, id: LayerId) -> (r: Vec<LayerId>)
        requires
            self.wf(),
            self.valid_id(id),
        ensures
            r@.len() == self.kids_of(id.idx).len(),
            forall|j: int|
                0 <= j < r@.len() ==> #[trigger] r@[j].idx == self.kids_of(id.idx)[j]
                    && self.valid_id(r@[j]),
    {
        let mut out: Vec<LayerId> = Vec::new();
        let mut c = self.first_child[id.idx as usize];
        let ghost k = self.kids_of(id.idx);
        proof {
            assert(self.kids_ok(id.idx));
        }
        while c != INVALID
            invariant
                self.wf(),
                self.valid_id(id),
                k == self.kids_of(id.idx),
                out@.len() <= k.len(),
                forall|j: int|
                    0 <= j < out@.len() ==> #[trigger] out@[j].idx == k[j] && self.valid_id(
                        out@[j],
                    ),
                c == (if out@.len() < k.len() {
                    k[out@.len() as int]
                } else {
                    INVALID
                }),
            decreases k.len() - out@.len(),
        {
            proof {
                assert(self.kids_ok(id.idx));
                if out@.len() >= k.len() {
                    assert(c == INVALID);
                }
                assert(c == k[out@.len() as int]);
                assert(self.live(c));
            }
            out.push(LayerId { idx: c, generation: self.generation[c as usize] });
            proof {
                let j = out@.len() - 1;
                assert(self.next_sibling@[k[j] as int] == (if j + 1 < k.len() {
                    k[j + 1]
                } else {
                    INVALID
                }));
            }
            c = self.next_sibling[c as usize];
        }
        proof {
            assert(self.kids_ok(id.idx));
            if out@.len() < k.len() {
                assert(self.live(k[out@.len() as int]));
                assert(k[out@.len() as int] < self.n());
                assert(self.lens_ok());
            }
            assert(out@.len() == k.len());
        }
        out
    }

    /// Returns the live root layers (those with no parent) in ascending
    /// slot order.
    pub fn roots(&self) -> (r: Vec<LayerId>)
        requires
            self.wf(),
        ensures
            forall|j: int|
                0 <= j < r@.len() ==> self.valid_id(#[trigger] r@[j]) && self.parent_of(r@[j].idx)
                    == INVALID,
            forall|i: u32|
                self.live(i) && self.parent_of(i) == INVALID ==> exists|j: int|
                    0 <= j < r@.len() && #[trigger] r@[j].idx == i,
            forall|j1: int, j2: int| 0 <= j1 < j2 < r@.len() ==> r@[j1].idx < r@[j2].idx,
    {
        let mut out: Vec<LayerId> = Vec::new();
        let n = self.parent.len();
        let mut i: usize = 0;
        while i < n
            invariant
                self.wf(),
                n == self.n(),
                i <= n,
                forall|j: int|
                    0 <= j < out@.len() ==> self.valid_id(#[trigger] out@[j]) && self.parent_of(
                        out@[j].idx,
                    ) == INVALID && out@[j].idx < i,
                forall|i2: u32|
                    i2 < i && self.live(i2) && self.parent_of(i2) == INVALID ==> exists|j: int|
                        0 <= j < out@.len() && #[trigger] out@[j].idx == i2,
                forall|j1: int, j2: int| 0 <= j1 < j2 < out@.len() ==> out@[j1].idx < out@[j2].idx,
            decreases n - i,
        {
            let ghost prev_out = out@;
            if self.alive[i] && self.parent[i] == INVALID {
                out.push(LayerId { idx: i as u32, generation: self.generation[i] });
            }
            proof {
                assert forall|i2: u32|
                    i2 < i + 1 && self.live(i2) && self.parent_of(i2) == INVALID implies exists|
                    j: int,
                |
                    0 <= j < out@.len() && #[trigger] out@[j].idx == i2 by {
                    if i2 < i {
                        let j = choose|j: int|
                            0 <= j < prev_out.len() && #[trigger] prev_out[j].idx == i2;
                        assert(out@[j].idx == i2);
                    } else {
                        assert(out@[out@.len() - 1].idx == i2);
                    }
                }
            }
            i = i + 1;
        }
        out
    }

    // -- Property getters (read-only, no dirty marking) --

    /// Returns the local transform of a layer.
    pub fn local_transform(&self, id: LayerId) -> (r: Transform3d)
        requires
            self.wf(),
            self.valid_id(id),
        ensures
            r == self.local_transform_of(id.idx),
    {
        self.local_transform[id.idx as usize]
    }

    /// Returns the local opacity word of a layer.
    pub fn local_opacity(&self, id: LayerId) -> (r: u32)
        requires
            self.wf(),
            self.valid_id(id),
        ensures
            r == self.local_opacity_of(id.idx),
    {
        self.local_opacity[id.idx as usize]
    }

    /// Returns the clip shape of a layer.
    pub fn clip(&self, id: LayerId) -> (r: Option<ClipShape>)
        requires
            self.wf(),
            self.valid_id(id),
        ensures
            r == self.clip_of(id.idx),
    {
        self.clip[id.idx as usize]
    }

    /// Returns the surface content of a layer.
    pub fn content(&self, id: LayerId) -> (r: Option<SurfaceId>)
        requires
            self.wf(),
            self.valid_id(id),
        ensures
            r == self.content_of(id.idx),
    {
        self.content[id.idx as usize]
    }

    /// Returns the flags of a layer.
    pub fn flags(&self, id: LayerId) -> (r: LayerFlags)
        requires
            self.wf(),
            self.valid_id(id),
        ensures
            r == self.flags_of(id.idx),
    {
        self.flags[id.idx as usize]
    }

    /// Returns the computed world transform of a layer; meaningful after an
    /// evaluation.
    pub fn world_transform(&self, id: LayerId) -> (r: Transform3d)
        requires
            self.wf(),
            self.valid_id(id),
        ensures
            r == self.world_of(id.idx),
    {
        self.world_transform[id.idx as usize]
    }

    /// Returns the computed effective opacity word of a layer; meaningful
    /// after an evaluation.
    pub fn effective_opacity(&self, id: LayerId) -> (r: u32)
        requires
            self.wf(),
            self.valid_id(id),
        ensures
            r == self.eff_opacity_of(id.idx),
    {
        self.effective_opacity[id.idx as usize]
    }

    /// Returns whether the layer is effectively hidden (including by an
    /// ancestor's flag); meaningful after an evaluation.
    pub fn effective_hidden(&self, id: LayerId) -> (r: bool)
        requires
            self.wf(),
            self.valid_id(id),
        ensures
            r == self.eff_hidden_of(id.idx),
    {
        self.effective_hidden[id.idx as usize]
    }

    // -- Raw-index accessors for backends --

    /// Returns the computed world transform at raw slot `idx`.
    pub fn world_transform_at(&self, idx: u32) -> (r: Transform3d)
        requires
            self.wf(),
            idx < self.n(),
        ensures
            r == self.world_of(idx),
    {
        self.world_transform[idx as usize]
    }

    /// Returns the computed effective opacity word at raw slot `idx`.
    pub fn effective_opacity_at(&self, idx: u32) -> (r: u32)
        requires
            self.wf(),
            idx < self.n(),
        ensures
            r == self.eff_opacity_of(idx),
    {
        self.effective_opacity[idx as usize]
    }

    /// Returns whether the layer at raw slot `idx` is effectively hidden.
    pub fn effective_hidden_at(&self, idx: u32) -> (r: bool)
        requires
            self.wf(),
            idx < self.n(),
        ensures
            r == self.eff_hidden_of(idx),
    {
        self.effective_hidden[idx as usize]
    }

    /// Returns the clip shape at raw slot `idx`.
    pub fn clip_at(&self, idx: u32) -> (r: Option<ClipShape>)
        requires
            self.wf(),
            idx < self.n(),
        ensures
            r == self.clip_of(idx),
    {
        self.clip[idx as usize]
    }

    /// Returns the surface content at raw slot `idx`.
    pub fn content_at(&self, idx: u32) -> (r: Option<SurfaceId>)
        requires
            self.wf(),
            idx < self.n(),
        ensures
            r == self.content_of(idx),
    {
        self.content[idx as usize]
    }

    /// Returns the flags at raw slot `idx`.
    pub fn flags_at(&self, idx: u32) -> (r: LayerFlags)
        requires
            self.wf(),
            idx < self.n(),
        ensures
            r == self.flags_of(idx),
    {
        self.flags[idx as usize]
    }

    /// Returns the cached traversal order (depth-first pre-order),
    /// meaningful after an evaluation.
    pub fn traversal_order(&self) -> (r: &Vec<u32>)
        ensures
            r@ == self.trav(),
    {
        &self.traversal
    }

    // -- Mutation API (auto-marks dirty) --

    /// Sets the local transform of a layer and marks the transform channel
    /// dirty; evaluation recomputes the whole subtree.
    pub fn set_transform(&mut self, id: LayerId, transform: Transform3d)
        requires
            old(self).wf(),
            old(self).valid_id(id),
        ensures
            final(self).wf(),
            final(self).local_transform_of(id.idx) == transform,
            final(self).dirty_t(id.idx),
            forall|i: u32|
                i < old(self).n() ==> final(self).dirty_t(i) == (old(self).dirty_t(i) || i
                    == id.idx),
            setter_frame(*old(self), *final(self), id.idx),
            forall|i: u32|
                i < old(self).n() && i != id.idx ==> #[trigger] final(self).local_transform_of(i)
                    == old(self).local_transform_of(i),
            forall|i: u32|
                i < old(self).n() ==> final(self).dirty_o(i) == old(self).dirty_o(i) && final(self).dirty_c(i) == old(self).dirty_c(i) && final(self).dirty_ct(i) == old(self).dirty_ct(i) && final(self).dirty_tp(i) == old(self).dirty_tp(i),
            forall|i: u32|
                i < old(self).n() ==> #[trigger] final(self).local_opacity_of(i) == old(self).local_opacity_of(i) && final(self).clip_of(i) == old(self).clip_of(i) && final(self).content_of(i) == old(self).content_of(i) && final(self).flags_of(i) == old(self).flags_of(i),
    {
        self.local_transform[id.idx as usize] = transform;
        self.dirty_transform[id.idx as usize] = true;
        proof {
            assert(self.lens_ok());
            lemma_wf_dirty_only(*old(self), *self);
        }
    }

    /// Sets the local opacity word of a layer and marks the opacity channel
    /// dirty; evaluation recomputes the whole subtree.
    pub fn set_opacity(&mut self, id: LayerId, opacity: u32)
        requires
            old(self).wf(),
            old(self).valid_id(id),
        ensures
            final(self).wf(),
            final(self).local_opacity_of(id.idx) == opacity,
            final(self).dirty_o(id.idx),
            forall|i: u32|
                i < old(self).n() ==> final(self).dirty_o(i) == (old(self).dirty_o(i) || i
                    == id.idx),
            setter_frame(*old(self), *final(self), id.idx),
            forall|i: u32|
                i < old(self).n() && i != id.idx ==> #[trigger] final(self).local_opacity_of(i)
                    == old(self).local_opacity_of(i),
            forall|i: u32|
                i < old(self).n() ==> final(self).dirty_t(i) == old(self).dirty_t(i) && final(self).dirty_c(i) == old(self).dirty_c(i) && final(self).dirty_ct(i) == old(self).dirty_ct(i) && final(self).dirty_tp(i) == old(self).dirty_tp(i),
            forall|i: u32|
                i < old(self).n() ==> #[trigger] final(self).local_transform_of(i) == old(self).local_transform_of(i) && final(self).clip_of(i) == old(self).clip_of(i) && final(self).content_of(i) == old(self).content_of(i) && final(self).flags_of(i) == old(self).flags_of(i),
    {
        self.local_opacity[id.idx as usize] = opacity;
        self.dirty_opacity[id.idx as usize] = true;
        proof {
            assert(self.lens_ok());
            lemma_wf_dirty_only(*old(self), *self);
        }
    }

    /// Sets the clip shape of a layer and marks the clip channel dirty.
    pub fn set_clip(&mut self, id: LayerId, clip: Option<ClipShape>)
        requires
            old(self).wf(),
            old(self).valid_id(id),
        ensures
            final(self).wf(),
            final(self).clip_of(id.idx) == clip,
            final(self).dirty_c(id.idx),
            forall|i: u32|
                i < old(self).n() ==> final(self).dirty_c(i) == (old(self).dirty_c(i) || i
                    == id.idx),
            setter_frame(*old(self), *final(self), id.idx),
            forall|i: u32|
                i < old(self).n() && i != id.idx ==> #[trigger] final(self).clip_of(i) == old(self).clip_of(i),
            forall|i: u32|
                i < old(self).n() ==> final(self).dirty_t(i) == old(self).dirty_t(i) && final(self).dirty_o(i) == old(self).dirty_o(i) && final(self).dirty_ct(i) == old(self).dirty_ct(i) && final(self).dirty_tp(i) == old(self).dirty_tp(i),
            forall|i: u32|
                i < old(self).n() ==> #[trigger] final(self).local_transform_of(i) == old(self).local_transform_of(i) && final(self).local_opacity_of(i) == old(self).local_opacity_of(i) && final(self).content_of(i) == old(self).content_of(i)
                    && final(self).flags_of(i) == old(self).flags_of(i),
    {
        self.clip[id.idx as usize] = clip;
        self.dirty_clip[id.idx as usize] = true;
        proof {
            assert(self.lens_ok());
            lemma_wf_dirty_only(*old(self), *self);
        }
    }

    /// Sets the surface content of a layer and marks the content channel
    /// dirty.
    pub fn set_content(&mut self, id: LayerId, content: Option<SurfaceId>)
        requires
            old(self).wf(),
            old(self).valid_id(id),
        ensures
            final(self).wf(),
            final(self).content_of(id.idx) == content,
            final(self).dirty_ct(id.idx),
            forall|i: u32|
                i < old(self).n() ==> final(self).dirty_ct(i) == (old(self).dirty_ct(i) || i
                    == id.idx),
            setter_frame(*old(self), *final(self), id.idx),
            forall|i: u32|
                i < old(self).n() && i != id.idx ==> #[trigger] final(self).content_of(i) == old(self).content_of(i),
            forall|i: u32|
                i < old(self).n() ==> final(self).dirty_t(i) == old(self).dirty_t(i) && final(self).dirty_o(i) == old(self).dirty_o(i) && final(self).dirty_c(i) == old(self).dirty_c(i) && final(self).dirty_tp(i) == old(self).dirty_tp(i),
            forall|i: u32|
                i < old(self).n() ==> #[trigger] final(self).local_transform_of(i) == old(self).local_transform_of(i) && final(self).local_opacity_of(i) == old(self).local_opacity_of(i) && final(self).clip_of(i) == old(self).clip_of(i) && final(self).flags_of(i) == old(self).flags_of(i),
    {
        self.content[id.idx as usize] = content;
        self.dirty_content[id.idx as usize] = true;
        proof {
            assert(self.lens_ok());
            lemma_wf_dirty_only(*old(self), *self);
        }
    }

    /// Sets the flags of a layer. The hidden flag affects the whole
    /// subtree's effective visibility, so this marks the transform channel,
    /// whose drain recomputes both world transforms and effective hidden
    /// state.
    pub fn set_flags(&mut self, id: LayerId, flags: LayerFlags)
        requires
            old(self).wf(),
            old(self).valid_id(id),
        ensures
            final(self).wf(),
            final(self).flags_of(id.idx) == flags,
            final(self).dirty_t(id.idx),
            forall|i: u32|
                i < old(self).n() ==> final(self).dirty_t(i) == (old(self).dirty_t(i) || i
                    == id.idx),
            setter_frame(*old(self), *final(self), id.idx),
            forall|i: u32|
                i < old(self).n() && i != id.idx ==> #[trigger] final(self).flags_of(i) == old(self).flags_of(i),
            forall|i: u32|
                i < old(self).n() ==> final(self).dirty_o(i) == old(self).dirty_o(i) && final(self).dirty_c(i) == old(self).dirty_c(i) && final(self).dirty_ct(i) == old(self).dirty_ct(i) && final(self).dirty_tp(i) == old(self).dirty_tp(i),
            forall|i: u32|
                i < old(self).n() ==> #[trigger] final(self).local_transform_of(i) == old(self).local_transform_of(i) && final(self).local_opacity_of(i) == old(self).local_opacity_of(i) && final(self).clip_of(i) == old(self).clip_of(i) && final(self).content_of(i) == old(self).content_of(i),
    {
        self.flags[id.idx as usize] = flags;
        self.dirty_transform[id.idx as usize] = true;
        proof {
            assert(self.lens_ok());
            lemma_wf_dirty_only(*old(self), *self);
        }
    }

    /// Appends `c` as the last child of `p`, marking the traversal cache
    /// stale. `c` must be a live root distinct from `p`.
    #[verifier::rlimit(100)]
    #[verifier::spinoff_prover]
    pub(crate) fn link_last(&mut self, p: u32, c: u32)
        requires
            old(self).wf(),
            old(self).live(p),
            old(self).live(c),
            old(self).parent_of(c) == INVALID,
            c != p,
            !old(self).in_subtree(c, p),
        ensures
            final(self).wf(),
            final(self).parent_of(c) == p,
            forall|q: u32|
                final(self).live(q) ==> #[trigger] final(self).kids_of(q) == (
                if q == p {
                    old(self).kids_of(q).push(c)
                } else {
                    old(self).kids_of(q)
                }),
            final(self).n() == old(self).n(),
            forall|i: u32| #[trigger] final(self).live(i) == old(self).live(i),
            forall|i: u32| i < old(self).n() ==> #[trigger] final(self).gen_of(i) == old(self).gen_of(i),
            forall|i: u32|
                i < old(self).n() && i != c ==> #[trigger] final(self).parent_of(i) == old(self).parent_of(i),
            forall|i: u32| i < old(self).n() ==> properties_unchanged_at(
                *old(self),
                *final(self),
                i,
            ),
            forall|i: u32| i < old(self).n() ==> dirty_unchanged_at(*old(self), *final(self), i),
            final(self).added_view() == old(self).added_view(),
            final(self).removed_view() == old(self).removed_view(),
            final(self).trav_dirty(),
    {
        self.traversal_dirty = true;
        let ghost a0 = *self;
        proof {
            assert(a0.lens_ok());
            lemma_wf_dirty_only(*old(self), a0);
            assert(a0.wf());
            assert(a0.kids_ok(p));
        }
        let ghost oldk = self.kids@[p];

        let i = c as usize;
        self.parent[i] = p;
        self.next_sibling[i] = INVALID;
        if self.first_child[p as usize] == INVALID {
            proof {
                assert(oldk.len() == 0);
            }
            self.first_child[p as usize] = c;
            self.prev_sibling[i] = INVALID;
        } else {
            let mut last = self.first_child[p as usize];
            let ghost mut j: int = 0;
            proof {
                assert(last == oldk[0]);
                assert(a0.live(last));
            }
            while self.next_sibling[last as usize] != INVALID
                invariant
                    a0.kids_ok(p),
                    oldk.len() > 0,
                    0 <= j < oldk.len(),
                    last == oldk[j],
                    a0.live(last),
                    self.parent@ == a0.parent@.update(c as int, p),
                    self.next_sibling@ == a0.next_sibling@.update(c as int, INVALID),
                    self.prev_sibling@ == a0.prev_sibling@,
                    self.first_child@ == a0.first_child@,
                    self.local_transform@ == a0.local_transform@,
                    self.local_opacity@ == a0.local_opacity@,
                    self.clip@ == a0.clip@,
                    self.content@ == a0.content@,
                    self.flags@ == a0.flags@,
                    self.world_transform@ == a0.world_transform@,
                    self.effective_opacity@ == a0.effective_opacity@,
                    self.effective_hidden@ == a0.effective_hidden@,
                    self.generation@ == a0.generation@,
                    self.alive@ == a0.alive@,
                    self.free_list@ == a0.free_list@,
                    self.traversal@ == a0.traversal@,
                    self.traversal_dirty == a0.traversal_dirty,
                    self.dirty_transform@ == a0.dirty_transform@,
                    self.dirty_opacity@ == a0.dirty_opacity@,
                    self.dirty_clip@ == a0.dirty_clip@,
                    self.dirty_content@ == a0.dirty_content@,
                    self.dirty_topology@ == a0.dirty_topology@,
                    self.pending_added@ == a0.pending_added@,
                    self.pending_removed@ == a0.pending_removed@,
                    self.kids@ == a0.kids@,
                    a0.lens_ok(),
                    a0.live(p),
                    a0.live(c),
                    a0.parent_of(c) == INVALID,
                    c != p,
                    oldk == a0.kids_of(p),
                    forall|m: int| 0 <= m < oldk.len() ==> #[trigger] oldk[m] != c,
                decreases oldk.len() - j,
            {
                proof {
                    assert(a0.next_sibling@[oldk[j] as int] == (if j + 1 < oldk.len() {
                        oldk[j + 1]
                    } else {
                        INVALID
                    }));
                    assert(oldk[j] != c);
                    assert(self.next_sibling@[last as int] == a0.next_sibling@[last as int]);
                    assert(j + 1 < oldk.len());
                    assert(a0.live(oldk[j + 1]));
                    j = j + 1;
                }
                last = self.next_sibling[last as usize];
            }
            proof {
                assert(self.next_sibling@[last as int] == INVALID);
                assert(a0.next_sibling@[oldk[j] as int] == (if j + 1 < oldk.len() {
                    oldk[j + 1]
                } else {
                    INVALID
                }));
                if j + 1 < oldk.len() {
                    assert(oldk[j] != c);
                    assert(a0.live(oldk[j + 1]));
                    assert(oldk[j + 1] < a0.n());
                    assert(a0.lens_ok());
                }
                assert(j == oldk.len() - 1);
            }
            self.next_sibling[last as usize] = c;
            self.prev_sibling[i] = last;
        }

        proof {
            let k2 = oldk.push(c);
            self.kids@ = self.kids@.insert(p, k2);
            // the attached subtree drops below its new parent
            let dp = a0.depth_of(p);
            self.depth@ = Map::new(
                |x: u32| true,
                |x: u32|
                    if a0.in_subtree(c, x) {
                        (a0.depth_of(x) + dp + 1) as nat
                    } else {
                        a0.depth_of(x)
                    },
            );
            assert(!a0.in_subtree(c, p)) by {
                lemma_in_subtree_same(*old(self), a0, c, p);
            }
            lemma_depth_after_attach(a0, *self, p, c);
            lemma_wf_after_append(a0, *self, p, c);
        }
    }

    /// Adds `child` as the last child of `parent`.
    ///
    /// The child must be a root, and the parent must not lie in the child's
    /// subtree (the tree stays acyclic). The child's subtree is recomputed
    /// on the next evaluation.
    #[verifier::rlimit(100)]
    #[verifier::spinoff_prover]
    pub fn add_child(&mut self, parent: LayerId, child: LayerId)
        requires
            old(self).wf(),
            old(self).valid_id(parent),
            old(self).valid_id(child),
            old(self).parent_of(child.idx) == INVALID,
            !old(self).in_subtree(child.idx, parent.idx),
        ensures
            final(self).wf(),
            final(self).parent_of(child.idx) == parent.idx,
            forall|q: u32|
                final(self).live(q) ==> #[trigger] final(self).kids_of(q) == (
                if q == parent.idx {
                    old(self).kids_of(q).push(child.idx)
                } else {
                    old(self).kids_of(q)
                }),
            forall|i: u32| #[trigger] final(self).live(i) == old(self).live(i),
            forall|i: u32| i < old(self).n() ==> #[trigger] final(self).gen_of(i) == old(self).gen_of(i),
            forall|i: u32|
                i < old(self).n() && i != child.idx ==> #[trigger] final(self).parent_of(i)
                    == old(self).parent_of(i),
            forall|i: u32| i < old(self).n() ==> properties_unchanged_at(
                *old(self),
                *final(self),
                i,
            ),
            forall|i: u32|
                i < old(self).n() ==> #[trigger] final(self).dirty_t(i) == (old(self).dirty_t(i)
                    || i == child.idx),
            forall|i: u32|
                i < old(self).n() ==> #[trigger] final(self).dirty_o(i) == (old(self).dirty_o(i)
                    || i == child.idx),
            forall|i: u32|
                i < old(self).n() ==> #[trigger] final(self).dirty_tp(i) == (old(self).dirty_tp(
                    i,
                ) || i == parent.idx),
            forall|i: u32|
                i < old(self).n() ==> #[trigger] final(self).dirty_c(i) == old(self).dirty_c(i),
            forall|i: u32|
                i < old(self).n() ==> #[trigger] final(self).dirty_ct(i) == old(self).dirty_ct(
                    i,
                ),
            final(self).added_view() == old(self).added_view(),
            final(self).removed_view() == old(self).removed_view(),
            final(self).trav_dirty(),
    {
        proof {
            lemma_in_subtree_refl(*old(self), child.idx);
        }
        self.link_last(parent.idx, child.idx);
        let ghost al = *self;
        self.dirty_transform[child.idx as usize] = true;
        self.dirty_opacity[child.idx as usize] = true;
        self.dirty_topology[parent.idx as usize] = true;
        proof {
            assert(self.lens_ok());
            lemma_wf_dirty_only(al, *self);
            let a = *old(self);
            assert forall|q: u32|
                self.live(q) implies #[trigger] self.kids_of(q) == (
                if q == parent.idx {
                    a.kids_of(q).push(child.idx)
                } else {
                    a.kids_of(q)
                }) by {
                assert(al.live(q));
                assert(al.kids_of(q) == (if q == parent.idx {
                    a.kids_of(q).push(child.idx)
                } else {
                    a.kids_of(q)
                }));
            }
            assert forall|i: u32| #[trigger] self.live(i) == a.live(i) by {
                assert(al.live(i) == a.live(i));
            }
            assert forall|i: u32| i < a.n() implies #[trigger] self.gen_of(i) == a.gen_of(i) by {
                assert(al.gen_of(i) == a.gen_of(i));
            }
            assert forall|i: u32|
                i < a.n() && i != child.idx implies #[trigger] self.parent_of(i) == a.parent_of(
                i,
            ) by {
                assert(al.parent_of(i) == a.parent_of(i));
            }
            assert forall|i: u32| i < a.n() implies properties_unchanged_at(a, *self, i) by {
                assert(properties_unchanged_at(a, al, i));
            }
            assert forall|i: u32|
                i < a.n() implies #[trigger] self.dirty_t(i) == (a.dirty_t(i) || i
                == child.idx) by {
                assert(dirty_unchanged_at(a, al, i));
            }
            assert forall|i: u32|
                i < a.n() implies #[trigger] self.dirty_o(i) == (a.dirty_o(i) || i
                == child.idx) by {
                assert(dirty_unchanged_at(a, al, i));
            }
            assert forall|i: u32|
                i < a.n() implies #[trigger] self.dirty_tp(i) == (a.dirty_tp(i) || i
                == parent.idx) by {
                assert(dirty_unchanged_at(a, al, i));
            }
            assert forall|i: u32|
                i < a.n() implies #[trigger] self.dirty_c(i) == a.dirty_c(i) by {
                assert(dirty_unchanged_at(a, al, i));
            }
            assert forall|i: u32|
                i < a.n() implies #[trigger] self.dirty_ct(i) == a.dirty_ct(i) by {
                assert(dirty_unchanged_at(a, al, i));
            }
        }
    }

    /// Removes `child` from its current parent, making it a root. The
    /// child's subtree is recomputed on the next evaluation.
    #[verifier::rlimit(100)]
    #[verifier::spinoff_prover]
    pub fn remove_from_parent(&mut self, child: LayerId)
        requires
            old(self).wf(),
            old(self).valid_id(child),
            old(self).parent_of(child.idx) != INVALID,
        ensures
            final(self).wf(),
            final(self).parent_of(child.idx) == INVALID,
            forall|q: u32|
                final(self).live(q) ==> #[trigger] final(self).kids_of(q) == (
                if old(self).parent_of(child.idx) == q {
                    old(self).kids_of(q).remove_value(child.idx)
                } else {
                    old(self).kids_of(q)
                }),
            forall|i: u32| #[trigger] final(self).live(i) == old(self).live(i),
            forall|i: u32| i < old(self).n() ==> #[trigger] final(self).gen_of(i) == old(self).gen_of(i),
            forall|i: u32|
                i < old(self).n() && i != child.idx ==> #[trigger] final(self).parent_of(i)
                    == old(self).parent_of(i),
            forall|i: u32| i < old(self).n() ==> properties_unchanged_at(
                *old(self),
                *final(self),
                i,
            ),
            forall|i: u32|
                i < old(self).n() ==> #[trigger] final(self).dirty_t(i) == (old(self).dirty_t(i)
                    || i == child.idx),
            forall|i: u32|
                i < old(self).n() ==> #[trigger] final(self).dirty_o(i) == (old(self).dirty_o(i)
                    || i == child.idx),
            forall|i: u32|
                i < old(self).n() ==> #[trigger] final(self).dirty_tp(i) == (old(self).dirty_tp(
                    i,
                ) || i == old(self).parent_of(child.idx)),
            forall|i: u32|
                i < old(self).n() ==> #[trigger] final(self).dirty_c(i) == old(self).dirty_c(i),
            forall|i: u32|
                i < old(self).n() ==> #[trigger] final(self).dirty_ct(i) == old(self).dirty_ct(
                    i,
                ),
            final(self).added_view() == old(self).added_view(),
            final(self).removed_view() == old(self).removed_view(),
            final(self).trav_dirty(),
    {
        let p = self.parent[child.idx as usize];
        proof {
            assert(old(self).live(p));
        }
        self.unlink_from_parent(child.idx);
        let ghost au = *self;
        self.traversal_dirty = true;
        let ghost al = *self;
        proof {
            assert(au.wf());
            assert(al.lens_ok());
            lemma_wf_dirty_only(au, al);
            assert(al.wf());
        }
        self.dirty_transform[child.idx as usize] = true;
        self.dirty_opacity[child.idx as usize] = true;
        self.dirty_topology[p as usize] = true;
        proof {
            assert(self.lens_ok());
            lemma_wf_dirty_only(al, *self);
            let a = *old(self);
            assert forall|q: u32|
                self.live(q) implies #[trigger] self.kids_of(q) == (
                if a.parent_of(child.idx) == q {
                    a.kids_of(q).remove_value(child.idx)
                } else {
                    a.kids_of(q)
                }) by {
                assert(au.live(q));
                assert(au.kids_of(q) == (if a.parent_of(child.idx) == q {
                    a.kids_of(q).remove_value(child.idx)
                } else {
                    a.kids_of(q)
                }));
                assert(al.kids_of(q) == au.kids_of(q));
            }
            assert forall|i: u32| #[trigger] self.live(i) == a.live(i) by {
                assert(au.live(i) == a.live(i));
                assert(al.live(i) == au.live(i));
            }
            assert forall|i: u32| i < a.n() implies #[trigger] self.gen_of(i) == a.gen_of(i) by {
                assert(au.gen_of(i) == a.gen_of(i));
            }
            assert forall|i: u32|
                i < a.n() && i != child.idx implies #[trigger] self.parent_of(i) == a.parent_of(
                i,
            ) by {
                assert(au.parent_of(i) == a.parent_of(i));
            }
            assert forall|i: u32| i < a.n() implies properties_unchanged_at(a, *self, i) by {
                assert(properties_unchanged_at(a, au, i));
            }
            assert forall|i: u32|
                i < a.n() implies #[trigger] self.dirty_t(i) == (a.dirty_t(i) || i
                == child.idx) by {
                assert(dirty_unchanged_at(a, au, i));
                assert(al.dirty_t(i) == au.dirty_t(i));
            }
            assert forall|i: u32|
                i < a.n() implies #[trigger] self.dirty_o(i) == (a.dirty_o(i) || i
                == child.idx) by {
                assert(dirty_unchanged_at(a, au, i));
                assert(al.dirty_o(i) == au.dirty_o(i));
            }
            assert forall|i: u32|
                i < a.n() implies #[trigger] self.dirty_tp(i) == (a.dirty_tp(i) || i == p) by {
                assert(dirty_unchanged_at(a, au, i));
                assert(al.dirty_tp(i) == au.dirty_tp(i));
            }
            assert forall|i: u32|
                i < a.n() implies #[trigger] self.dirty_c(i) == a.dirty_c(i) by {
                assert(dirty_unchanged_at(a, au, i));
                assert(al.dirty_c(i) == au.dirty_c(i));
            }
            assert forall|i: u32|
                i < a.n() implies #[trigger] self.dirty_ct(i) == a.dirty_ct(i) by {
                assert(dirty_unchanged_at(a, au, i));
                assert(al.dirty_ct(i) == au.dirty_ct(i));
            }
        }
    }

    /// Moves `child` to be the last child of `new_parent`, detaching it
    /// from its current parent first. The new parent must not lie in the
    /// child's subtree. The child's subtree is recomputed on the next
    /// evaluation.
    #[verifier::rlimit(100)]
    #[verifier::spinoff_prover]
    pub fn reparent(&mut self, child: LayerId, new_parent: LayerId)
        requires
            old(self).wf(),
            old(self).valid_id(child),
            old(self).valid_id(new_parent),
            !old(self).in_subtree(child.idx, new_parent.idx),
        ensures
            final(self).wf(),
            final(self).parent_of(child.idx) == new_parent.idx,
            forall|q: u32|
                final(self).live(q) ==> #[trigger] final(self).kids_of(q) == (
                if q == new_parent.idx {
                    (if old(self).parent_of(child.idx) == q {
                        old(self).kids_of(q).remove_value(child.idx)
                    } else {
                        old(self).kids_of(q)
                    }).push(child.idx)
                } else if old(self).parent_of(child.idx) == q {
                    old(self).kids_of(q).remove_value(child.idx)
                } else {
                    old(self).kids_of(q)
                }),
            forall|i: u32| #[trigger] final(self).live(i) == old(self).live(i),
            forall|i: u32| i < old(self).n() ==> #[trigger] final(self).gen_of(i) == old(self).gen_of(i),
            forall|i: u32|
                i < old(self).n() && i != child.idx ==> #[trigger] final(self).parent_of(i)
                    == old(self).parent_of(i),
            forall|i: u32| i < old(self).n() ==> properties_unchanged_at(
                *old(self),
                *final(self),
                i,
            ),
            forall|i: u32|
                i < old(self).n() ==> #[trigger] final(self).dirty_t(i) == (old(self).dirty_t(i)
                    || i == child.idx),
            forall|i: u32|
                i < old(self).n() ==> #[trigger] final(self).dirty_o(i) == (old(self).dirty_o(i)
                    || i == child.idx),
            forall|i: u32|
                i < old(self).n() ==> #[trigger] final(self).dirty_c(i) == old(self).dirty_c(i),
            forall|i: u32|
                i < old(self).n() ==> #[trigger] final(self).dirty_ct(i) == old(self).dirty_ct(
                    i,
                ),
            final(self).added_view() == old(self).added_view(),
            final(self).removed_view() == old(self).removed_view(),
            final(self).trav_dirty(),
    {
        proof {
            lemma_in_subtree_refl(*old(self), child.idx);
        }
        if self.parent[child.idx as usize] != INVALID {
            let old_p = self.parent[child.idx as usize];
            proof {
                assert(old(self).parent_of(child.idx) == old_p);
                assert(old(self).live(old_p));
            }
            self.unlink_from_parent(child.idx);
            let ghost au = *self;
            proof {
                assert(au.wf());
                assert(au.live(old_p));
            }
            self.dirty_topology[old_p as usize] = true;
            proof {
                assert(self.lens_ok());
                lemma_wf_dirty_only(au, *self);
                let a = *old(self);
                assert forall|i: u32| #[trigger] self.live(i) == a.live(i) by {
                    assert(au.live(i) == a.live(i));
                }
                assert forall|i: u32| i < a.n() implies #[trigger] self.gen_of(i) == a.gen_of(
                    i,
                ) by {
                    assert(au.gen_of(i) == a.gen_of(i));
                }
                assert forall|i: u32|
                    i < a.n() && i != child.idx implies #[trigger] self.parent_of(i)
                    == a.parent_of(i) by {
                    assert(au.parent_of(i) == a.parent_of(i));
                }
                assert forall|i: u32| i < a.n() implies properties_unchanged_at(a, *self, i) by {
                    assert(properties_unchanged_at(a, au, i));
                }
                assert forall|i: u32|
                    i < a.n() implies #[trigger] self.dirty_t(i) == a.dirty_t(i) && self.dirty_o(
                    i,
                ) == a.dirty_o(i) && self.dirty_c(i) == a.dirty_c(i) && self.dirty_ct(i)
                    == a.dirty_ct(i) by {
                    assert(dirty_unchanged_at(a, au, i));
                }
                assert forall|q: u32|
                    self.live(q) implies #[trigger] self.kids_of(q) == (
                if a.parent_of(child.idx) == q {
                    a.kids_of(q).remove_value(child.idx)
                } else {
                    a.kids_of(q)
                }) by {
                    assert(au.live(q));
                    assert(au.kids_of(q) == (if a.parent_of(child.idx) == q {
                        a.kids_of(q).remove_value(child.idx)
                    } else {
                        a.kids_of(q)
                    }));
                }
            }
        }
        let ghost am = *self;
        proof {
            assert(am.wf());
            assert(am.parent_of(child.idx) == INVALID);
            assert(am.live(child.idx) == old(self).live(child.idx));
            assert(am.live(new_parent.idx) == old(self).live(new_parent.idx));
            assert(child.idx != new_parent.idx);
            // detaching the child changed only its own upward link, so the
            // acyclicity precondition still stands
            assert(!am.in_subtree(child.idx, new_parent.idx)) by {
                assert(am.alive@ =~= old(self).alive@) by {
                    assert forall|j: int|
                        0 <= j < am.alive@.len() implies am.alive@[j] == old(self).alive@[j] by {
                        assert(am.live(j as u32) == old(self).live(j as u32));
                    }
                }
                assert(forall|i: u32|
                    i != child.idx && i < old(self).parent@.len() ==> #[trigger] am.parent_of(i)
                        == old(self).parent_of(i));
                lemma_subtree_of_detached(*old(self), am, child.idx, new_parent.idx);
            }
        }
        self.link_last(new_parent.idx, child.idx);
        let ghost al = *self;
        self.dirty_transform[child.idx as usize] = true;
        self.dirty_opacity[child.idx as usize] = true;
        self.dirty_topology[new_parent.idx as usize] = true;
        proof {
            assert(self.lens_ok());
            lemma_wf_dirty_only(al, *self);
            let a = *old(self);
            assert forall|i: u32| #[trigger] self.live(i) == a.live(i) by {
                assert(al.live(i) == am.live(i));
                assert(am.live(i) == a.live(i));
            }
            assert forall|i: u32| i < a.n() implies #[trigger] self.gen_of(i) == a.gen_of(i) by {
                assert(al.gen_of(i) == am.gen_of(i));
                assert(am.gen_of(i) == a.gen_of(i));
            }
            assert forall|i: u32|
                i < a.n() && i != child.idx implies #[trigger] self.parent_of(i) == a.parent_of(
                i,
            ) by {
                assert(al.parent_of(i) == am.parent_of(i));
                assert(am.parent_of(i) == a.parent_of(i));
            }
            assert forall|i: u32| i < a.n() implies properties_unchanged_at(a, *self, i) by {
                assert(properties_unchanged_at(a, am, i));
                assert(properties_unchanged_at(am, al, i));
            }
            assert forall|i: u32|
                i < a.n() implies #[trigger] self.dirty_t(i) == (a.dirty_t(i) || i
                == child.idx) by {
                assert(dirty_unchanged_at(am, al, i));
                assert(am.dirty_t(i) == a.dirty_t(i));
            }
            assert forall|i: u32|
                i < a.n() implies #[trigger] self.dirty_o(i) == (a.dirty_o(i) || i
                == child.idx) by {
                assert(dirty_unchanged_at(am, al, i));
                assert(am.dirty_o(i) == a.dirty_o(i));
            }
            assert forall|i: u32|
                i < a.n() implies #[trigger] self.dirty_c(i) == a.dirty_c(i) by {
                assert(dirty_unchanged_at(am, al, i));
                assert(am.dirty_c(i) == a.dirty_c(i));
            }
            assert forall|i: u32|
                i < a.n() implies #[trigger] self.dirty_ct(i) == a.dirty_ct(i) by {
                assert(dirty_unchanged_at(am, al, i));
                assert(am.dirty_ct(i) == a.dirty_ct(i));
            }
            assert forall|q: u32|
                self.live(q) implies #[trigger] self.kids_of(q) == (
                if q == new_parent.idx {
                    (if old(self).parent_of(child.idx) == q {
                        old(self).kids_of(q).remove_value(child.idx)
                    } else {
                        old(self).kids_of(q)
                    }).push(child.idx)
                } else if old(self).parent_of(child.idx) == q {
                    old(self).kids_of(q).remove_value(child.idx)
                } else {
                    old(self).kids_of(q)
                }) by {
                assert(am.live(q));
                assert(al.kids_of(q) == (if q == new_parent.idx {
                    am.kids_of(q).push(child.idx)
                } else {
                    am.kids_of(q)
                }));
            }
        }
    }

    /// Whether slot `i` must recompute its world transform and effective
    /// hidden flag: some slot in whose subtree it lies is marked on the
    /// transform channel.
    pub open spec fn t_affected(self, i: u32) -> bool {
        exists|d: u32| #[trigger] self.dirty_t(d) && self.in_subtree(d, i)
    }

    /// Whether slot `i` must recompute its effective opacity: some slot in
    /// whose subtree it lies is marked on the opacity channel.
    pub open spec fn o_affected(self, i: u32) -> bool {
        exists|d: u32| #[trigger] self.dirty_o(d) && self.in_subtree(d, i)
    }

    /// Rebuilds the traversal cache as a depth-first pre-order over the
    /// current forest, roots in ascending slot order.
    #[verifier::rlimit(100)]
    #[verifier::spinoff_prover]
    #[verifier::loop_isolation(false)]
    pub(crate) fn rebuild_traversal(&mut self)
        requires
            old(self).wf(),
        ensures
            final(self).wf(),
            !final(self).trav_dirty(),
            final(self).trav_ok(),
            stores_equal_but_traversal(*old(self), *final(self)),
    {
        let order = self.compute_traversal();
        self.traversal = order;
        self.traversal_dirty = false;
        proof {
            lemma_wf_new_traversal(*old(self), *self);
        }
    }

    /// Walks the forest depth-first from the roots (ascending) and returns
    /// the visiting order: every live slot exactly once, parents first.
    #[verifier::rlimit(100)]
    #[verifier::spinoff_prover]
    #[verifier::loop_isolation(false)]
    fn compute_traversal(&self) -> (order: Vec<u32>)
        requires
            self.wf(),
        ensures
            order@.no_duplicates(),
            forall|j: int| 0 <= j < order@.len() ==> self.live(#[trigger] order@[j]),
            forall|j: int|
                0 <= j < order@.len() && self.parent_of(#[trigger] order@[j]) != INVALID
                    ==> exists|m: int| 0 <= m < j && order@[m] == self.parent_of(order@[j]),
            forall|i: u32| self.live(i) ==> #[trigger] order@.contains(i),
    {

        let n = self.parent.len();
        let mut order: Vec<u32> = Vec::new();
        let mut stack: Vec<u32> = Vec::new();
        let mut seen: Vec<bool> = Vec::new();
        let mut z: usize = 0;
        while z < n
            invariant
                z <= n,
                seen@.len() == z,
                forall|m: int| 0 <= m < z ==> !(#[trigger] seen@[m]),
            decreases n - z,
        {
            seen.push(false);
            z = z + 1;
        }
        let ghost mut unseen: Set<int> = vstd::set_lib::set_int_range(0, n as int);
        proof {
            vstd::set_lib::lemma_int_range(0, n as int);
        }

        // seed the stack with roots in descending order, so pops come out
        // ascending
        let mut i: usize = n;
        while i > 0
            invariant
                self.wf(),
                n == self.n(),
                i <= n,
                seen@.len() == n,
                unseen.finite(),
                forall|m: int| #[trigger] unseen.contains(m) <==> (0 <= m < n && !seen@[m]),
                forall|m: int| 0 <= m < i ==> !(#[trigger] seen@[m]),
                stack@.no_duplicates(),
                forall|j: int|
                    0 <= j < stack@.len() ==> self.live(#[trigger] stack@[j]) && seen@[stack@[j] as int] && self.parent_of(stack@[j]) == INVALID,
                forall|x: u32|
                    i <= x && (x as int) < n && self.live(x) && self.parent_of(x) == INVALID
                        ==> #[trigger] seen@[x as int],
                forall|x: u32|
                    (x as int) < n && #[trigger] seen@[x as int] ==> stack@.contains(x),
            decreases i,
        {
            i = i - 1;
            if self.alive[i] && self.parent[i] == INVALID {
                let ghost prev = stack@;
                proof {
                    assert(!seen@[i as int]);
                    assert(unseen.contains(i as int));
                }
                stack.push(i as u32);
                seen[i] = true;
                proof {
                    unseen = unseen.remove(i as int);
                    assert forall|j: int|
                        0 <= j < stack@.len() implies self.live(#[trigger] stack@[j]) && seen@[
                        stack@[j] as int
                    ] && self.parent_of(stack@[j]) == INVALID by {
                        if j < prev.len() {
                            assert(prev[j] == stack@[j]);
                        }
                    }
                    assert(stack@.no_duplicates()) by {
                        assert forall|x: int, y: int|
                            0 <= x < y < stack@.len() implies stack@[x] != stack@[y] by {
                            if y == stack@.len() - 1 {
                                assert(seen@[prev[x] as int]);
                            } else {
                                assert(prev[x] != prev[y]);
                            }
                        }
                    }
                    assert forall|x: u32|
                        (x as int) < n && #[trigger] seen@[x as int] implies stack@.contains(
                        x,
                    ) by {
                        if x == i as u32 {
                            assert(stack@.last() == x);
                        } else {
                            let m = choose|m: int| 0 <= m < prev.len() && prev[m] == x;
                            assert(stack@[m] == x);
                        }
                    }
                }
            }
        }

        // depth-first walk: pop a slot, record it, push its children
        while stack.len() > 0
            invariant
                self.wf(),
                n == self.n(),
                seen@.len() == n,
                unseen.finite(),
                forall|m: int| #[trigger] unseen.contains(m) <==> (0 <= m < n && !seen@[m]),
                stack@.no_duplicates(),
                order@.no_duplicates(),
                forall|j: int|
                    0 <= j < stack@.len() ==> self.live(#[trigger] stack@[j]) && seen@[stack@[j] as int],
                forall|j: int| 0 <= j < order@.len() ==> self.live(#[trigger] order@[j]) && seen@[
                    order@[j] as int
                ],
                forall|j: int, m: int|
                    0 <= j < stack@.len() && 0 <= m < order@.len() ==> stack@[j] != order@[m],
                forall|j: int|
                    0 <= j < stack@.len() ==> self.parent_of(#[trigger] stack@[j]) == INVALID
                        || order@.contains(self.parent_of(stack@[j])),
                forall|j: int|
                    0 <= j < order@.len() && self.parent_of(#[trigger] order@[j]) != INVALID
                        ==> exists|m: int| 0 <= m < j && order@[m] == self.parent_of(order@[j]),
                forall|x: u32|
                    self.live(x) && self.parent_of(x) == INVALID ==> #[trigger] seen@[x as int],
                forall|x: u32|
                    (x as int) < n && #[trigger] seen@[x as int] ==> stack@.contains(x)
                        || order@.contains(x),
                forall|j: int, m: int|
                    0 <= j < order@.len() && 0 <= m < self.kids_of(order@[j]).len() ==> #[trigger] seen@[(self.kids_of(order@[j])[m]) as int],
            decreases unseen.len(), stack@.len(),
        {
            let ghost entry_stack = stack@;
            let x = stack.pop().unwrap();
            let ghost popped = stack@;
            let ghost order0 = order@;
            order.push(x);
            proof {
                assert(order@.no_duplicates());
                assert forall|j: int|
                    0 <= j < order@.len() && self.parent_of(#[trigger] order@[j])
                        != INVALID implies exists|m: int|
                    0 <= m < j && order@[m] == self.parent_of(order@[j]) by {
                    if j < order0.len() {
                        assert(order0[j] == order@[j]);
                        let m = choose|m: int|
                            0 <= m < j && order0[m] == self.parent_of(order0[j]);
                        assert(order@[m] == self.parent_of(order@[j]));
                    } else {
                        assert(order@[j] == x);
                        if self.parent_of(x) != INVALID {
                            assert(order0.contains(self.parent_of(x)));
                            let m = choose|m: int|
                                0 <= m < order0.len() && order0[m] == self.parent_of(x);
                            assert(order@[m] == self.parent_of(x));
                        }
                    }
                }
                assert(self.kids_ok(x));
                assert forall|y: u32|
                    (y as int) < n && #[trigger] seen@[y as int] implies stack@.contains(y)
                        || order@.contains(y) by {
                    if y == x {
                        assert(order@.last() == x);
                    } else {
                        assert(entry_stack.contains(y) || order0.contains(y));
                        if order0.contains(y) {
                            let m = choose|m: int| 0 <= m < order0.len() && order0[m] == y;
                            assert(order@[m] == y);
                        } else {
                            let m = choose|m: int|
                                0 <= m < entry_stack.len() && entry_stack[m] == y;
                            assert(m < entry_stack.len() - 1) by {
                                if m == entry_stack.len() - 1 {
                                    assert(entry_stack[m] == x);
                                }
                            }
                            assert(popped[m] == y);
                        }
                    }
                }
                assert forall|j: int|
                    0 <= j < stack@.len() implies self.parent_of(#[trigger] stack@[j])
                    == INVALID || order@.contains(self.parent_of(stack@[j])) by {
                    if self.parent_of(stack@[j]) != INVALID {
                        let p2 = self.parent_of(stack@[j]);
                        if order0.contains(p2) {
                            let m = choose|m: int| 0 <= m < order0.len() && order0[m] == p2;
                            assert(order@[m] == p2);
                        }
                    }
                }
            }
            // collect the children once, then push them in reverse so the
            // first child pops first
            let ghost k = self.kids_of(x);
            let mut kidv: Vec<u32> = Vec::new();
            let mut c = self.first_child[x as usize];
            while c != INVALID
                invariant
                    self.wf(),
                    self.live(x),
                    k == self.kids_of(x),
                    self.kids_ok(x),
                    kidv@.len() <= k.len(),
                    forall|j: int| 0 <= j < kidv@.len() ==> #[trigger] kidv@[j] == k[j],
                    c == (if kidv@.len() < k.len() {
                        k[kidv@.len() as int]
                    } else {
                        INVALID
                    }),
                decreases k.len() - kidv@.len(),
            {
                proof {
                    if kidv@.len() >= k.len() {
                        assert(c == INVALID);
                    }
                    assert(self.live(k[kidv@.len() as int]));
                }
                kidv.push(c);
                proof {
                    let j = kidv@.len() - 1;
                    assert(self.next_sibling@[k[j] as int] == (if j + 1 < k.len() {
                        k[j + 1]
                    } else {
                        INVALID
                    }));
                }
                c = self.next_sibling[c as usize];
            }
            proof {
                if kidv@.len() < k.len() {
                    assert(self.live(k[kidv@.len() as int]));
                    assert(self.lens_ok());
                }
                assert(kidv@.len() == k.len());
            }
            let ghost unseen0 = unseen;
            let ghost stack1 = stack@;
            let mut r: usize = kidv.len();
            while r > 0
                invariant
                    self.wf(),
                    n == self.n(),
                    self.live(x),
                    k == self.kids_of(x),
                    self.kids_ok(x),
                    r <= k.len(),
                    kidv@.len() == k.len(),
                    forall|j: int| 0 <= j < kidv@.len() ==> #[trigger] kidv@[j] == k[j],
                    seen@.len() == n,
                    unseen.finite(),
                    unseen.len() <= unseen0.len(),
                    forall|m: int| #[trigger] unseen.contains(m) ==> unseen0.contains(m),
                    forall|m: int| #[trigger] unseen.contains(m) <==> (0 <= m < n && !seen@[m]),
                    stack@.no_duplicates(),
                    order@ == order0.push(x),
                    order@.no_duplicates(),
                    forall|j: int|
                        0 <= j < stack@.len() ==> self.live(#[trigger] stack@[j]) && seen@[stack@[j] as int],
                    forall|j: int| 0 <= j < order@.len() ==> self.live(#[trigger] order@[j])
                        && seen@[order@[j] as int],
                    forall|j: int, m: int|
                        0 <= j < stack@.len() && 0 <= m < order@.len() ==> stack@[j] != order@[m],
                    forall|j: int|
                        0 <= j < stack@.len() ==> self.parent_of(#[trigger] stack@[j]) == INVALID
                            || order@.contains(self.parent_of(stack@[j])),
                    forall|j: int|
                        0 <= j < order@.len() && self.parent_of(#[trigger] order@[j]) != INVALID
                            ==> exists|m: int|
                            0 <= m < j && order@[m] == self.parent_of(order@[j]),
                    unseen.len() < unseen0.len() || stack@ == stack1,
                    forall|x2: u32|
                        self.live(x2) && self.parent_of(x2) == INVALID ==> #[trigger] seen@[x2 as int],
                    forall|y: u32|
                        (y as int) < n && #[trigger] seen@[y as int] ==> stack@.contains(y)
                            || order@.contains(y),
                    forall|j: int, m: int|
                        0 <= j < order0.len() && 0 <= m < self.kids_of(order0[j]).len() ==> #[trigger] seen@[(self.kids_of(order0[j])[m]) as int],
                    forall|m: int| r <= m < k.len() ==> #[trigger] seen@[(k[m]) as int],
                decreases r,
            {
                r = r - 1;
                let c2 = kidv[r];
                proof {
                    assert(c2 == k[r as int]);
                    assert(self.live(c2));
                    assert(self.lens_ok());
                }
                if !seen[c2 as usize] {
                    let ghost prevs = stack@;
                    let ghost prev_seen = seen@;
                    proof {
                        assert(unseen.contains(c2 as int));
                    }
                    seen[c2 as usize] = true;
                    stack.push(c2);
                    proof {
                        unseen = unseen.remove(c2 as int);
                        assert(unseen.len() < unseen0.len());
                        assert forall|j: int, m: int|
                            0 <= j < order0.len() && 0 <= m < self.kids_of(order0[j]).len()
                                implies #[trigger] seen@[(self.kids_of(order0[j])[m]) as int] by {
                            assert(order@[j] == order0[j]);
                            assert(self.live(order0[j]));
                            assert(self.kids_ok(order0[j]));
                            assert(self.live(self.kids_of(order0[j])[m]));
                            assert(prev_seen[(self.kids_of(order0[j])[m]) as int]);
                        }
                        assert forall|j: int|
                            0 <= j < stack@.len() implies self.live(#[trigger] stack@[j])
                            && seen@[stack@[j] as int] by {
                            if j < prevs.len() {
                                assert(prevs[j] == stack@[j]);
                            }
                        }
                        assert(stack@.no_duplicates()) by {
                            assert forall|x2: int, y: int|
                                0 <= x2 < y < stack@.len() implies stack@[x2] != stack@[y] by {
                                if y == stack@.len() - 1 {
                                    assert(seen@[prevs[x2] as int]);
                                } else {
                                    assert(prevs[x2] != prevs[y]);
                                }
                            }
                        }
                        assert forall|j: int, m: int|
                            0 <= j < stack@.len() && 0 <= m < order@.len() implies stack@[j]
                            != order@[m] by {
                            if j < prevs.len() {
                                assert(prevs[j] == stack@[j]);
                            } else {
                                assert(stack@[j] == c2);
                                assert(seen@[order@[m] as int]);
                            }
                        }
                        assert forall|j: int|
                            0 <= j < stack@.len() implies self.parent_of(#[trigger] stack@[j])
                            == INVALID || order@.contains(self.parent_of(stack@[j])) by {
                            if j < prevs.len() {
                                assert(prevs[j] == stack@[j]);
                            } else {
                                assert(stack@[j] == c2);
                                assert(self.parent_of(c2) == x);
                                assert(order@[order@.len() - 1] == x);
                            }
                        }
                        assert forall|y: u32|
                            (y as int) < n && #[trigger] seen@[y as int] implies stack@
                            .contains(y) || order@.contains(y) by {
                            if y == c2 {
                                assert(stack@.last() == c2);
                            } else if prevs.contains(y) {
                                let m = choose|m: int|
                                    0 <= m < prevs.len() && prevs[m] == y;
                                assert(stack@[m] == y);
                            }
                        }
                    }
                }
            }
        }
        proof {
            // the walk is exhaustive: roots are seeded, a recorded slot's
            // children are all marked, and at exit everything marked was
            // recorded, so by induction on depth every live slot was
            assert forall|x: u32| self.live(x) implies order@.contains(x) by {
                lemma_live_in_order(*self, order@, seen@, x);
            }
        }
        order
    }


    /// Inserts `child` immediately before `sibling` in the sibling list.
    ///
    /// The child must be a root, the sibling must have a parent, and that
    /// parent must not lie in the child's subtree. The child's subtree is
    /// recomputed on the next evaluation.
    #[verifier::rlimit(100)]
    #[verifier::spinoff_prover]
    pub fn insert_before(&mut self, child: LayerId, sibling: LayerId)
        requires
            old(self).wf(),
            old(self).valid_id(child),
            old(self).valid_id(sibling),
            old(self).parent_of(child.idx) == INVALID,
            old(self).parent_of(sibling.idx) != INVALID,
            !old(self).in_subtree(child.idx, old(self).parent_of(sibling.idx)),
        ensures
            final(self).wf(),
            final(self).parent_of(child.idx) == old(self).parent_of(sibling.idx),
            forall|q: u32|
                final(self).live(q) ==> #[trigger] final(self).kids_of(q) == (
                if q == old(self).parent_of(sibling.idx) {
                    old(self).kids_of(q).insert(
                        old(self).kids_of(q).index_of(sibling.idx),
                        child.idx,
                    )
                } else {
                    old(self).kids_of(q)
                }),
            forall|i: u32| #[trigger] final(self).live(i) == old(self).live(i),
            forall|i: u32| i < old(self).n() ==> #[trigger] final(self).gen_of(i) == old(self).gen_of(i),
            forall|i: u32|
                i < old(self).n() && i != child.idx ==> #[trigger] final(self).parent_of(i)
                    == old(self).parent_of(i),
            forall|i: u32| i < old(self).n() ==> properties_unchanged_at(
                *old(self),
                *final(self),
                i,
            ),
            forall|i: u32|
                i < old(self).n() ==> #[trigger] final(self).dirty_t(i) == (old(self).dirty_t(i)
                    || i == child.idx),
            forall|i: u32|
                i < old(self).n() ==> #[trigger] final(self).dirty_o(i) == (old(self).dirty_o(i)
                    || i == child.idx),
            forall|i: u32|
                i < old(self).n() ==> #[trigger] final(self).dirty_c(i) == old(self).dirty_c(i),
            forall|i: u32|
                i < old(self).n() ==> #[trigger] final(self).dirty_ct(i) == old(self).dirty_ct(
                    i,
                ),
            final(self).added_view() == old(self).added_view(),
            final(self).removed_view() == old(self).removed_view(),
            final(self).trav_dirty(),
    {
        self.traversal_dirty = true;
        let ghost a0 = *self;
        proof {
            assert(a0.lens_ok());
            lemma_wf_dirty_only(*old(self), a0);
            assert(a0.wf());
            lemma_in_subtree_refl(a0, child.idx);
        }
        let c = child.idx;
        let s_idx = sibling.idx;
        let p = self.parent[s_idx as usize];
        proof {
            assert(a0.live(p));
            assert(a0.live(s_idx));
            assert(a0.parent_of(s_idx) == p);
            assert(a0.kids_of(a0.parent_of(s_idx)).contains(s_idx));
            assert(a0.kids_of(p).contains(s_idx));
            assert(a0.kids_ok(p));
            assert(c != p) by {
                lemma_in_subtree_same(*old(self), a0, c, p);
            }
        }
        let ghost oldk = self.kids@[p];
        let ghost ji = choose|j: int| 0 <= j < oldk.len() && oldk[j] == s_idx;
        proof {
            assert(0 <= ji < oldk.len() && oldk[ji] == s_idx);
            if ji > 0 {
                assert(a0.live(oldk[ji - 1]));
            }
            assert(self.prev_sibling@[s_idx as int] == (if ji > 0 {
                oldk[ji - 1]
            } else {
                INVALID
            }));
        }
        let prev = self.prev_sibling[s_idx as usize];
        let i = c as usize;
        self.parent[i] = p;
        self.next_sibling[i] = s_idx;
        self.prev_sibling[i] = prev;
        if prev != INVALID {
            self.next_sibling[prev as usize] = c;
        } else {
            self.first_child[p as usize] = c;
        }
        self.prev_sibling[s_idx as usize] = c;

        let ghost al0 = *self;
        proof {
            let k2 = oldk.insert(ji, c);
            self.kids@ = self.kids@.insert(p, k2);
            let dp = a0.depth_of(p);
            self.depth@ = Map::new(
                |x: u32| true,
                |x: u32|
                    if a0.in_subtree(c, x) {
                        (a0.depth_of(x) + dp + 1) as nat
                    } else {
                        a0.depth_of(x)
                    },
            );
            assert(!a0.in_subtree(c, p)) by {
                lemma_in_subtree_same(*old(self), a0, c, p);
            }
            lemma_depth_after_attach(a0, *self, p, c);
            lemma_wf_after_insert(a0, *self, p, s_idx, c, ji);
            assert(oldk.index_of(s_idx) == ji) by {
                let fi = oldk.index_of(s_idx);
                assert(oldk[fi] == s_idx);
            }
        }
        let ghost al = *self;
        self.dirty_transform[c as usize] = true;
        self.dirty_opacity[c as usize] = true;
        self.dirty_topology[p as usize] = true;
        proof {
            assert(self.lens_ok());
            lemma_wf_dirty_only(al, *self);
            let a = *old(self);
            assert forall|q: u32|
                self.live(q) implies #[trigger] self.kids_of(q) == (
                if q == p {
                    a.kids_of(q).insert(a.kids_of(q).index_of(s_idx), c)
                } else {
                    a.kids_of(q)
                }) by {
                assert(al.live(q));
                assert(al.kids_of(q) == (if q == p {
                    oldk.insert(ji, c)
                } else {
                    a.kids_of(q)
                }));
            }
            assert forall|i2: u32| #[trigger] self.live(i2) == a.live(i2) by {
                assert(al.live(i2) == a.live(i2));
            }
            assert forall|i2: u32|
                i2 < a.n() implies #[trigger] self.gen_of(i2) == a.gen_of(i2) by {
                assert(al.gen_of(i2) == a.gen_of(i2));
            }
            assert forall|i2: u32|
                i2 < a.n() && i2 != c implies #[trigger] self.parent_of(i2) == a.parent_of(
                i2,
            ) by {
                assert(al.parent_of(i2) == a.parent_of(i2));
            }
            assert forall|i2: u32| i2 < a.n() implies properties_unchanged_at(a, *self, i2) by {
                assert(properties_unchanged_at(a, al, i2));
            }
            assert forall|i2: u32|
                i2 < a.n() implies #[trigger] self.dirty_t(i2) == (a.dirty_t(i2) || i2 == c) by {
                assert(al.dirty_t(i2) == a.dirty_t(i2));
            }
            assert forall|i2: u32|
                i2 < a.n() implies #[trigger] self.dirty_o(i2) == (a.dirty_o(i2) || i2 == c) by {
                assert(al.dirty_o(i2) == a.dirty_o(i2));
            }
            assert forall|i2: u32|
                i2 < a.n() implies #[trigger] self.dirty_c(i2) == a.dirty_c(i2) by {
                assert(al.dirty_c(i2) == a.dirty_c(i2));
            }
            assert forall|i2: u32|
                i2 < a.n() implies #[trigger] self.dirty_ct(i2) == a.dirty_ct(i2) by {
                assert(al.dirty_ct(i2) == a.dirty_ct(i2));
            }
        }
    }

    /// Evaluates the layer tree: rebuilds the traversal order if the
    /// topology changed, recomputes the subtrees marked on the inherited
    /// channels in parent-before-child order, reports the marked clip and
    /// content slots, hands over the lifecycle lists, and clears all
    /// dirtiness.
    ///
    /// The caller supplies the scalar arithmetic: `compose` combines a
    /// parent's world transform words with a child's local words, and
    /// `blend` combines a parent's effective opacity word with a child's
    /// local word. Roots combine with the identity words.
    #[verifier::rlimit(100)]
    #[verifier::spinoff_prover]
    pub fn evaluate_into<FT: Fn(Transform3d, Transform3d) -> Transform3d, FO: Fn(
        u32,
        u32,
    ) -> u32>(&mut self, changes: &mut FrameChanges, compose: FT, blend: FO)
        requires
            old(self).wf(),
            forall|a: Transform3d, b: Transform3d| #[trigger] call_requires(compose, (a, b)),
            forall|a: u32, b: u32| #[trigger] call_requires(blend, (a, b)),
        ensures
            final(self).wf(),
            !final(self).trav_dirty(),
            final(self).trav_ok(),
            final(changes).topology_changed == old(self).trav_dirty(),
            !old(self).trav_dirty() ==> final(self).trav() == old(self).trav(),
            evaluate_frame(*old(self), *final(self)),
            forall|i: u32| i < old(self).n() ==> !(#[trigger] final(self).dirty_t(i)),
            forall|i: u32| i < old(self).n() ==> !(#[trigger] final(self).dirty_o(i)),
            forall|i: u32| i < old(self).n() ==> !(#[trigger] final(self).dirty_c(i)),
            forall|i: u32| i < old(self).n() ==> !(#[trigger] final(self).dirty_ct(i)),
            forall|i: u32| i < old(self).n() ==> !(#[trigger] final(self).dirty_tp(i)),
            final(changes).added@ == old(self).added_view(),
            final(changes).removed@ == old(self).removed_view(),
            final(self).added_view().len() == 0,
            final(self).removed_view().len() == 0,
            final(changes).transforms@ == final(self).trav().filter(
                |i: u32| old(self).t_affected(i),
            ),
            final(changes).opacities@ == final(self).trav().filter(
                |i: u32| old(self).o_affected(i),
            ),
            final(changes).clips@ == slot_seq(old(self).n() as nat).filter(
                |i: u32| old(self).dirty_c(i),
            ),
            final(changes).content@ == slot_seq(old(self).n() as nat).filter(
                |i: u32| old(self).dirty_ct(i),
            ),
            // recomputation: every listed slot combines its parent's final
            // value with its own local value; everything else keeps its
            // computed values
            forall|m: int|
                0 <= m < final(changes).transforms@.len() ==> transform_recomputed(
                    *old(self),
                    *final(self),
                    compose,
                    #[trigger] final(changes).transforms@[m],
                ),
            forall|m: int|
                0 <= m < final(changes).opacities@.len() ==> opacity_recomputed(
                    *old(self),
                    *final(self),
                    blend,
                    #[trigger] final(changes).opacities@[m],
                ),
            forall|i: u32|
                i < old(self).n() && !final(changes).transforms@.contains(i) ==> #[trigger] final(self).world_of(i) == old(self).world_of(i) && final(self).eff_hidden_of(i) == old(self).eff_hidden_of(i),
            forall|i: u32|
                i < old(self).n() && !final(changes).opacities@.contains(i) ==> #[trigger] final(self).eff_opacity_of(i) == old(self).eff_opacity_of(i),
            // visibility transitions: each entry flipped with the frame,
            // and every listed slot that flipped is reported
            forall|j: int|
                0 <= j < final(changes).hidden@.len() ==> final(changes).transforms@.contains(
                    #[trigger] final(changes).hidden@[j],
                ) && final(self).eff_hidden_of(final(changes).hidden@[j]) && !old(self).eff_hidden_of(final(changes).hidden@[j]),
            forall|j: int|
                0 <= j < final(changes).unhidden@.len() ==> final(changes).transforms@.contains(
                    #[trigger] final(changes).unhidden@[j],
                ) && !final(self).eff_hidden_of(final(changes).unhidden@[j]) && old(self).eff_hidden_of(final(changes).unhidden@[j]),
            forall|m: int|
                0 <= m < final(changes).transforms@.len() && final(self).eff_hidden_of(
                    #[trigger] final(changes).transforms@[m],
                ) != old(self).eff_hidden_of(final(changes).transforms@[m]) ==> final(changes).hidden@.contains(final(changes).transforms@[m]) || final(changes).unhidden@.contains(final(changes).transforms@[m]),
    {
        changes.clear();

        if self.traversal_dirty {
            self.rebuild_traversal();
            changes.topology_changed = true;
        }
        let ghost s0 = *self;
        proof {
            assert(s0.wf());
            assert(s0.trav_ok());
            lemma_affected_same(*old(self), s0);
        }

        let n = self.parent.len();
        // -- transform channel: recompute world transforms and hidden state
        let mut aff_t: Vec<bool> = Vec::new();
        let mut z: usize = 0;
        while z < n
            invariant
                z <= n,
                aff_t@.len() == z,
                forall|m: int| 0 <= m < z ==> !(#[trigger] aff_t@[m]),
            decreases n - z,
        {
            aff_t.push(false);
            z = z + 1;
        }
        let ghost trav = s0.trav();
        let mut k: usize = 0;
        while k < self.traversal.len()
            invariant
                s0.wf(),
                s0.trav_ok(),
                computed_pass_frame(s0, *self),
                trav == s0.trav(),
                self.traversal@ == trav,
                n == s0.n(),
                forall|a2: Transform3d, b2: Transform3d| #[trigger] call_requires(
                    compose,
                    (a2, b2),
                ),
                k <= trav.len(),
                aff_t@.len() == n,
                forall|m: int|
                    0 <= m < k ==> #[trigger] aff_t@[trav[m] as int] == s0.t_affected(trav[m]),
                self.dirty_clip@ == old(self).dirty_clip@,
                self.dirty_content@ == old(self).dirty_content@,
                forall|i: u32|
                    i < n && !trav.subrange(0, k as int).contains(i) ==> !(#[trigger] aff_t@[
                        i as int
                    ]),
                self.effective_opacity@ == s0.effective_opacity@,
                changes.transforms@ == trav.subrange(0, k as int).filter(
                    |i: u32| old(self).t_affected(i),
                ),
                forall|i2: u32| #[trigger] s0.t_affected(i2) == old(self).t_affected(i2),
                forall|m: int|
                    0 <= m < k && s0.t_affected(#[trigger] trav[m]) ==> transform_recomputed(
                        s0,
                        *self,
                        compose,
                        trav[m],
                    ),
                forall|i: u32|
                    i < n && !trav.subrange(0, k as int).filter(|i2: u32| old(self).t_affected(i2)).contains(i) ==> #[trigger] self.world_of(i) == s0.world_of(i)
                        && self.eff_hidden_of(i) == s0.eff_hidden_of(i),
                forall|j: int|
                    0 <= j < changes.hidden@.len() ==> changes.transforms@.contains(
                        #[trigger] changes.hidden@[j],
                    ) && self.eff_hidden_of(changes.hidden@[j]) && !s0.eff_hidden_of(
                        changes.hidden@[j],
                    ),
                forall|j: int|
                    0 <= j < changes.unhidden@.len() ==> changes.transforms@.contains(
                        #[trigger] changes.unhidden@[j],
                    ) && !self.eff_hidden_of(changes.unhidden@[j]) && s0.eff_hidden_of(
                        changes.unhidden@[j],
                    ),
                forall|m: int|
                    0 <= m < changes.transforms@.len() && self.eff_hidden_of(
                        #[trigger] changes.transforms@[m],
                    ) != s0.eff_hidden_of(changes.transforms@[m]) ==> changes.hidden@.contains(
                        changes.transforms@[m],
                    ) || changes.unhidden@.contains(changes.transforms@[m]),
                changes.opacities@ == Seq::<u32>::empty(),
                changes.clips@ == Seq::<u32>::empty(),
                changes.content@ == Seq::<u32>::empty(),
                changes.added@ == Seq::<u32>::empty(),
                changes.removed@ == Seq::<u32>::empty(),
                changes.topology_changed == old(self).trav_dirty(),
            decreases trav.len() - k,
        {
            let i = self.traversal[k];
            proof {
                assert(s0.live(trav[k as int]));
                assert(s0.lens_ok());
                lemma_affected_unfold(s0, i);
                if s0.parent_of(i) != INVALID {
                    assert(s0.live(s0.parent_of(i)));
                    let m0 = choose|m0: int|
                        0 <= m0 < k && trav[m0] == s0.parent_of(trav[k as int]);
                    assert(aff_t@[s0.parent_of(i) as int] == s0.t_affected(s0.parent_of(i)));
                }
            }
            let pa = self.parent[i as usize];
            let is_aff = self.dirty_transform[i as usize] || (pa != INVALID && aff_t[pa as usize]);
            proof {
                assert(is_aff == s0.t_affected(i));
                assert(is_aff == old(self).t_affected(i));
            }
            let ghost pre = *self;
            let ghost pre_changes = *changes;
            aff_t[i as usize] = is_aff;
            if is_aff {
                let pw = if pa == INVALID {
                    Transform3d::identity()
                } else {
                    self.world_transform[pa as usize]
                };
                let w = compose(pw, self.local_transform[i as usize]);
                self.world_transform[i as usize] = w;
                let ph = if pa == INVALID {
                    false
                } else {
                    self.effective_hidden[pa as usize]
                };
                let nh = ph || self.flags[i as usize].hidden;
                let oh = self.effective_hidden[i as usize];
                if nh != oh {
                    if nh {
                        changes.hidden.push(i);
                    } else {
                        changes.unhidden.push(i);
                    }
                    self.effective_hidden[i as usize] = nh;
                }
                changes.transforms.push(i);
            }
            proof {
                let sub0 = trav.subrange(0, k as int);
                let sub1 = trav.subrange(0, k as int + 1);
                let pred = |i2: u32| old(self).t_affected(i2);
                assert(sub1.drop_last() =~= sub0);
                assert(sub1.last() == trav[k as int]);
                reveal(Seq::filter);
                assert(changes.transforms@ == sub1.filter(pred));
                assert(!sub0.contains(trav[k as int]));
                assert forall|i2: u32| sub0.filter(pred).contains(i2) implies sub1.filter(
                    pred,
                ).contains(i2) by {
                    let m = choose|m: int|
                        0 <= m < sub0.filter(pred).len() && sub0.filter(pred)[m] == i2;
                    assert(sub1.filter(pred)[m] == i2);
                }
                if is_aff {
                    assert(transform_recomputed(s0, *self, compose, trav[k as int])) by {
                        if s0.parent_of(i) != INVALID {
                            assert(self.world_of(s0.parent_of(i)) == pre.world_of(
                                s0.parent_of(i),
                            ));
                            assert(self.eff_hidden_of(s0.parent_of(i)) == pre.eff_hidden_of(
                                s0.parent_of(i),
                            ));
                        }
                    }
                    assert forall|m: int|
                        0 <= m < k && s0.t_affected(#[trigger] trav[m]) implies
                        transform_recomputed(s0, *self, compose, trav[m]) by {
                        assert(transform_recomputed(s0, pre, compose, trav[m]));
                        assert(trav[m] != trav[k as int]);
                        if s0.parent_of(trav[m]) != INVALID {
                            assert(s0.parent_of(trav[m]) != trav[k as int]) by {
                                if s0.parent_of(trav[m]) == trav[k as int] {
                                    let m2 = choose|m2: int|
                                        0 <= m2 < m && trav[m2] == s0.parent_of(trav[m]);
                                }
                            }
                        }
                    }
                }
                assert forall|i2: u32|
                    i2 < n && !sub1.filter(pred).contains(i2) implies #[trigger] self.world_of(
                    i2,
                ) == s0.world_of(i2) && self.eff_hidden_of(i2) == s0.eff_hidden_of(i2) by {
                    assert(!sub0.filter(pred).contains(i2));
                    assert(pre.world_of(i2) == s0.world_of(i2));
                    assert(pre.eff_hidden_of(i2) == s0.eff_hidden_of(i2));
                    if is_aff {
                        assert(sub1.filter(pred).contains(trav[k as int])) by {
                            assert(sub1.filter(pred).last() == trav[k as int]);
                        }
                        assert(i2 != trav[k as int]);
                    }
                }
                // the already-listed slots keep their values, so the
                // transition lists stay correct
                assert(!sub0.filter(pred).contains(trav[k as int])) by {
                    if sub0.filter(pred).contains(trav[k as int]) {
                        sub0.lemma_filter_contains_rev(pred, trav[k as int]);
                    }
                }
                assert(trav[k as int] < n);
                assert(pre.world_of(trav[k as int]) == s0.world_of(trav[k as int]));
                assert(pre.eff_hidden_of(trav[k as int]) == s0.eff_hidden_of(trav[k as int]));
                assert forall|m: int|
                    0 <= m < pre_changes.transforms@.len() implies #[trigger] pre_changes
                    .transforms@[m] != trav[k as int] && self.eff_hidden_of(
                    pre_changes.transforms@[m],
                ) == pre.eff_hidden_of(pre_changes.transforms@[m]) by {
                    let x = pre_changes.transforms@[m];
                    assert(sub0.filter(pred)[m] == x);
                    assert(sub0.filter(pred).contains(x));
                    sub0.lemma_filter_contains_rev(pred, x);
                    assert(sub0.contains(x));
                    assert(x != trav[k as int]);
                }
                assert forall|j: int|
                    0 <= j < changes.hidden@.len() implies changes.transforms@.contains(
                    #[trigger] changes.hidden@[j],
                ) && self.eff_hidden_of(changes.hidden@[j]) && !s0.eff_hidden_of(
                    changes.hidden@[j],
                ) by {
                    if j < pre_changes.hidden@.len() {
                        assert(changes.hidden@[j] == pre_changes.hidden@[j]);
                        let m = choose|m: int|
                            0 <= m < pre_changes.transforms@.len() && pre_changes.transforms@[m]
                                == pre_changes.hidden@[j];
                        assert(changes.transforms@[m] == changes.hidden@[j]);
                    } else {
                        assert(changes.hidden@[j] == trav[k as int]);
                        assert(changes.transforms@.last() == trav[k as int]);
                    }
                }
                assert forall|j: int|
                    0 <= j < changes.unhidden@.len() implies changes.transforms@.contains(
                    #[trigger] changes.unhidden@[j],
                ) && !self.eff_hidden_of(changes.unhidden@[j]) && s0.eff_hidden_of(
                    changes.unhidden@[j],
                ) by {
                    if j < pre_changes.unhidden@.len() {
                        assert(changes.unhidden@[j] == pre_changes.unhidden@[j]);
                        let m = choose|m: int|
                            0 <= m < pre_changes.transforms@.len() && pre_changes.transforms@[m]
                                == pre_changes.unhidden@[j];
                        assert(changes.transforms@[m] == changes.unhidden@[j]);
                    } else {
                        assert(changes.unhidden@[j] == trav[k as int]);
                        assert(changes.transforms@.last() == trav[k as int]);
                    }
                }
                assert forall|m: int|
                    0 <= m < changes.transforms@.len() && self.eff_hidden_of(
                        #[trigger] changes.transforms@[m],
                    ) != s0.eff_hidden_of(changes.transforms@[m]) implies changes
                    .hidden@.contains(changes.transforms@[m]) || changes.unhidden@.contains(
                    changes.transforms@[m],
                ) by {
                    if m < pre_changes.transforms@.len() {
                        assert(changes.transforms@[m] == pre_changes.transforms@[m]);
                        if pre.eff_hidden_of(pre_changes.transforms@[m]) != s0.eff_hidden_of(
                            pre_changes.transforms@[m],
                        ) {
                            if pre_changes.hidden@.contains(pre_changes.transforms@[m]) {
                                let j2 = choose|j2: int|
                                    0 <= j2 < pre_changes.hidden@.len() && pre_changes.hidden@[j2]
                                        == pre_changes.transforms@[m];
                                assert(changes.hidden@[j2] == changes.transforms@[m]);
                            } else {
                                let j2 = choose|j2: int|
                                    0 <= j2 < pre_changes.unhidden@.len()
                                        && pre_changes.unhidden@[j2] == pre_changes.transforms@[m];
                                assert(changes.unhidden@[j2] == changes.transforms@[m]);
                            }
                        }
                    } else {
                        assert(changes.transforms@[m] == trav[k as int]);
                        if self.eff_hidden_of(trav[k as int]) != s0.eff_hidden_of(
                            trav[k as int],
                        ) {
                            assert(changes.hidden@.last() == trav[k as int] || changes
                                .unhidden@.last() == trav[k as int]);
                        }
                    }
                }
            }
            k = k + 1;
        }
        proof {
            assert(trav.subrange(0, trav.len() as int) =~= trav);
        }

        // -- opacity channel --
        let mut aff_o: Vec<bool> = Vec::new();
        let mut z2: usize = 0;
        while z2 < n
            invariant
                z2 <= n,
                aff_o@.len() == z2,
                forall|m: int| 0 <= m < z2 ==> !(#[trigger] aff_o@[m]),
            decreases n - z2,
        {
            aff_o.push(false);
            z2 = z2 + 1;
        }
        let ghost after_t = *self;
        let ghost tch = *changes;
        let mut k2: usize = 0;
        while k2 < self.traversal.len()
            invariant
                s0.wf(),
                s0.trav_ok(),
                computed_pass_frame(s0, *self),
                trav == s0.trav(),
                self.traversal@ == trav,
                n == s0.n(),
                forall|a2: u32, b2: u32| #[trigger] call_requires(blend, (a2, b2)),
                k2 <= trav.len(),
                aff_o@.len() == n,
                forall|m: int|
                    0 <= m < k2 ==> #[trigger] aff_o@[trav[m] as int] == s0.o_affected(trav[m]),
                self.dirty_clip@ == old(self).dirty_clip@,
                self.dirty_content@ == old(self).dirty_content@,
                forall|i: u32|
                    i < n && !trav.subrange(0, k2 as int).contains(i) ==> !(#[trigger] aff_o@[
                        i as int
                    ]),
                changes.opacities@ == trav.subrange(0, k2 as int).filter(
                    |i: u32| old(self).o_affected(i),
                ),
                forall|i2: u32| #[trigger] s0.o_affected(i2) == old(self).o_affected(i2),
                forall|m: int|
                    0 <= m < k2 && s0.o_affected(#[trigger] trav[m]) ==> opacity_recomputed(
                        s0,
                        *self,
                        blend,
                        trav[m],
                    ),
                forall|i: u32|
                    i < n && !trav.subrange(0, k2 as int).filter(|i2: u32| old(self).o_affected(i2)).contains(i) ==> #[trigger] self.eff_opacity_of(i) == s0.eff_opacity_of(
                        i,
                    ),
                self.world_transform@ == after_t.world_transform@,
                self.effective_hidden@ == after_t.effective_hidden@,
                *changes == (FrameChanges { opacities: changes.opacities, ..tch }),
            decreases trav.len() - k2,
        {
            let i = self.traversal[k2];
            proof {
                assert(s0.live(trav[k2 as int]));
                assert(s0.lens_ok());
                lemma_affected_unfold(s0, i);
                if s0.parent_of(i) != INVALID {
                    assert(s0.live(s0.parent_of(i)));
                    let m0 = choose|m0: int|
                        0 <= m0 < k2 && trav[m0] == s0.parent_of(trav[k2 as int]);
                    assert(aff_o@[s0.parent_of(i) as int] == s0.o_affected(s0.parent_of(i)));
                }
            }
            let pa = self.parent[i as usize];
            let is_aff = self.dirty_opacity[i as usize] || (pa != INVALID && aff_o[pa as usize]);
            proof {
                assert(is_aff == s0.o_affected(i));
                assert(is_aff == old(self).o_affected(i));
            }
            let ghost pre = *self;
            aff_o[i as usize] = is_aff;
            if is_aff {
                let po = if pa == INVALID {
                    OPACITY_ONE
                } else {
                    self.effective_opacity[pa as usize]
                };
                let v = blend(po, self.local_opacity[i as usize]);
                self.effective_opacity[i as usize] = v;
                changes.opacities.push(i);
            }
            proof {
                let sub0 = trav.subrange(0, k2 as int);
                let sub1 = trav.subrange(0, k2 as int + 1);
                let pred = |i2: u32| old(self).o_affected(i2);
                assert(sub1.drop_last() =~= sub0);
                assert(sub1.last() == trav[k2 as int]);
                reveal(Seq::filter);
                assert(changes.opacities@ == sub1.filter(pred));
                assert(!sub0.contains(trav[k2 as int]));
                assert forall|i2: u32| sub0.filter(pred).contains(i2) implies sub1.filter(
                    pred,
                ).contains(i2) by {
                    let m = choose|m: int|
                        0 <= m < sub0.filter(pred).len() && sub0.filter(pred)[m] == i2;
                    assert(sub1.filter(pred)[m] == i2);
                }
                assert forall|i2: u32|
                    i2 < n && !sub1.filter(pred).contains(i2) implies #[trigger] self
                    .eff_opacity_of(i2) == s0.eff_opacity_of(i2) by {
                    assert(!sub0.filter(pred).contains(i2));
                    assert(pre.eff_opacity_of(i2) == s0.eff_opacity_of(i2));
                    if is_aff {
                        assert(sub1.filter(pred).contains(trav[k2 as int])) by {
                            assert(sub1.filter(pred).last() == trav[k2 as int]);
                        }
                        assert(i2 != trav[k2 as int]);
                    }
                }
                if is_aff {
                    assert(opacity_recomputed(s0, *self, blend, trav[k2 as int])) by {
                        if s0.parent_of(i) != INVALID {
                            assert(self.eff_opacity_of(s0.parent_of(i)) == pre.eff_opacity_of(
                                s0.parent_of(i),
                            ));
                        }
                    }
                    assert forall|m: int|
                        0 <= m < k2 && s0.o_affected(#[trigger] trav[m]) implies
                        opacity_recomputed(s0, *self, blend, trav[m]) by {
                        assert(opacity_recomputed(s0, pre, blend, trav[m]));
                        assert(trav[m] != trav[k2 as int]);
                        if s0.parent_of(trav[m]) != INVALID {
                            assert(s0.parent_of(trav[m]) != trav[k2 as int]) by {
                                if s0.parent_of(trav[m]) == trav[k2 as int] {
                                    let m2 = choose|m2: int|
                                        0 <= m2 < m && trav[m2] == s0.parent_of(trav[m]);
                                }
                            }
                        }
                    }
                }
            }
            k2 = k2 + 1;
        }
        proof {
            assert(trav.subrange(0, trav.len() as int) =~= trav);
        }

        // -- clip and content channels: report markings in slot order --
        let ghost after_o = *self;
        let ghost och = *changes;
        let mut i3: usize = 0;
        while i3 < n
            invariant
                s0.wf(),
                computed_pass_frame(s0, *self),
                *self == after_o,
                n == s0.n(),
                i3 <= n,
                changes.clips@ == slot_seq(i3 as nat).filter(|i: u32| old(self).dirty_c(i)),
                self.dirty_clip@ == old(self).dirty_clip@,
                self.dirty_content@ == old(self).dirty_content@,
                changes.content@ == slot_seq(i3 as nat).filter(|i: u32| old(self).dirty_ct(i)),
                *changes == (FrameChanges { clips: changes.clips, content: changes.content, ..och }),
            decreases n - i3,
        {
            proof {
                assert(s0.lens_ok());
                let sub1 = slot_seq((i3 + 1) as nat);
                assert(sub1.drop_last() =~= slot_seq(i3 as nat));
                assert(sub1.last() == i3 as u32);
                reveal(Seq::filter);
            }
            if self.dirty_clip[i3] {
                changes.clips.push(i3 as u32);
            }
            if self.dirty_content[i3] {
                changes.content.push(i3 as u32);
            }
            i3 = i3 + 1;
        }

        // -- clear all dirtiness and hand over the lifecycle lists --
        let ghost before_clear = *self;
        let mut i4: usize = 0;
        while i4 < n
            invariant
                s0.wf(),
                before_clear == (LayerStore {
                    dirty_transform: before_clear.dirty_transform,
                    dirty_opacity: before_clear.dirty_opacity,
                    dirty_clip: before_clear.dirty_clip,
                    dirty_content: before_clear.dirty_content,
                    dirty_topology: before_clear.dirty_topology,
                    ..*self
                }),
                n == s0.n(),
                i4 <= n,
                self.dirty_transform@.len() == n,
                self.dirty_opacity@.len() == n,
                self.dirty_clip@.len() == n,
                self.dirty_content@.len() == n,
                self.dirty_topology@.len() == n,
                forall|m: int| 0 <= m < i4 ==> !(#[trigger] self.dirty_transform@[m]),
                forall|m: int| 0 <= m < i4 ==> !(#[trigger] self.dirty_opacity@[m]),
                forall|m: int| 0 <= m < i4 ==> !(#[trigger] self.dirty_clip@[m]),
                forall|m: int| 0 <= m < i4 ==> !(#[trigger] self.dirty_content@[m]),
                forall|m: int| 0 <= m < i4 ==> !(#[trigger] self.dirty_topology@[m]),
            decreases n - i4,
        {
            self.dirty_transform[i4] = false;
            self.dirty_opacity[i4] = false;
            self.dirty_clip[i4] = false;
            self.dirty_content[i4] = false;
            self.dirty_topology[i4] = false;
            i4 = i4 + 1;
        }
        proof {
            assert(computed_pass_frame(s0, before_clear));
            lemma_wf_computed_only(s0, before_clear);
            assert(self.lens_ok());
            lemma_wf_dirty_only(before_clear, *self);
        }
        let ghost before_swap = *self;
        core::mem::swap(&mut self.pending_added, &mut changes.added);
        core::mem::swap(&mut self.pending_removed, &mut changes.removed);
        proof {
            assert(self.lens_ok());
            lemma_wf_pending_only(before_swap, *self);
            assert forall|i2: u32| i2 < n implies !(#[trigger] self.dirty_t(i2)) by {
                assert(!before_swap.dirty_transform@[i2 as int]);
            }
            assert forall|i2: u32| i2 < n implies !(#[trigger] self.dirty_o(i2)) by {
                assert(!before_swap.dirty_opacity@[i2 as int]);
            }
            assert forall|i2: u32| i2 < n implies !(#[trigger] self.dirty_c(i2)) by {
                assert(!before_swap.dirty_clip@[i2 as int]);
            }
            assert forall|i2: u32| i2 < n implies !(#[trigger] self.dirty_ct(i2)) by {
                assert(!before_swap.dirty_content@[i2 as int]);
            }
            assert forall|i2: u32| i2 < n implies !(#[trigger] self.dirty_tp(i2)) by {
                assert(!before_swap.dirty_topology@[i2 as int]);
            }
            // tie the per-pass facts to the final state and the caller's
            // view of the markings
            let a = *old(self);
            let tp = |i2: u32| old(self).t_affected(i2);
            let op = |i2: u32| old(self).o_affected(i2);
            assert(before_clear.world_transform@ == after_o.world_transform@);
            assert(after_o.world_transform@ == after_t.world_transform@);
            assert(self.world_transform@ == after_t.world_transform@);
            assert(self.effective_hidden@ == after_t.effective_hidden@);
            assert(self.effective_opacity@ == after_o.effective_opacity@);
            assert(changes.transforms@ == trav.filter(tp));
            assert(changes.opacities@ == trav.filter(op));
            assert forall|m: int|
                0 <= m < changes.transforms@.len() implies transform_recomputed(
                a,
                *self,
                compose,
                #[trigger] changes.transforms@[m],
            ) by {
                let i2 = changes.transforms@[m];
                #[allow(deprecated)] trav.filter_lemma(tp);
                assert(trav.filter(tp)[m] == i2);
                assert(tp(i2));
                assert(trav.filter(tp).contains(i2));
                trav.lemma_filter_contains_rev(tp, i2);
                assert(trav.contains(i2));
                assert(s0.t_affected(i2)) by {
                    lemma_affected_same(*old(self), s0);
                }
                let j = choose|j: int| 0 <= j < trav.len() && trav[j] == i2;
                assert(transform_recomputed(s0, after_t, compose, i2));
                assert(a.parent_of(i2) == s0.parent_of(i2));
                assert(a.local_transform_of(i2) == s0.local_transform_of(i2));
                assert(a.flags_of(i2) == s0.flags_of(i2));
                assert(self.world_of(i2) == after_t.world_of(i2));
                assert(self.eff_hidden_of(i2) == after_t.eff_hidden_of(i2));
                if s0.parent_of(i2) != INVALID {
                    assert(s0.live(s0.parent_of(i2)));
                    assert(self.world_of(s0.parent_of(i2)) == after_t.world_of(
                        s0.parent_of(i2),
                    ));
                    assert(self.eff_hidden_of(s0.parent_of(i2)) == after_t.eff_hidden_of(
                        s0.parent_of(i2),
                    ));
                }
            }
            assert forall|m: int|
                0 <= m < changes.opacities@.len() implies opacity_recomputed(
                a,
                *self,
                blend,
                #[trigger] changes.opacities@[m],
            ) by {
                let i2 = changes.opacities@[m];
                #[allow(deprecated)] trav.filter_lemma(op);
                assert(trav.filter(op)[m] == i2);
                assert(op(i2));
                assert(trav.filter(op).contains(i2));
                trav.lemma_filter_contains_rev(op, i2);
                assert(trav.contains(i2));
                assert(s0.o_affected(i2)) by {
                    lemma_affected_same(*old(self), s0);
                }
                assert(opacity_recomputed(s0, after_o, blend, i2));
                assert(a.parent_of(i2) == s0.parent_of(i2));
                assert(a.local_opacity_of(i2) == s0.local_opacity_of(i2));
                assert(self.eff_opacity_of(i2) == after_o.eff_opacity_of(i2));
                if s0.parent_of(i2) != INVALID {
                    assert(s0.live(s0.parent_of(i2)));
                    assert(self.eff_opacity_of(s0.parent_of(i2)) == after_o.eff_opacity_of(
                        s0.parent_of(i2),
                    ));
                }
            }
            assert forall|i2: u32|
                i2 < n && !changes.transforms@.contains(i2) implies #[trigger] self.world_of(i2)
                == a.world_of(i2) && self.eff_hidden_of(i2) == a.eff_hidden_of(i2) by {
                assert(after_t.world_of(i2) == s0.world_of(i2));
                assert(after_t.eff_hidden_of(i2) == s0.eff_hidden_of(i2));
                assert(s0.world_of(i2) == a.world_of(i2));
                assert(s0.eff_hidden_of(i2) == a.eff_hidden_of(i2));
            }
            assert forall|i2: u32|
                i2 < n && !changes.opacities@.contains(i2) implies #[trigger] self.eff_opacity_of(
                i2,
            ) == a.eff_opacity_of(i2) by {
                assert(after_o.eff_opacity_of(i2) == s0.eff_opacity_of(i2));
                assert(s0.eff_opacity_of(i2) == a.eff_opacity_of(i2));
            }
            assert(changes.hidden@ == tch.hidden@ && changes.unhidden@ == tch.unhidden@
                && changes.transforms@ == tch.transforms@);
            assert forall|j: int|
                0 <= j < changes.hidden@.len() implies changes.transforms@.contains(
                #[trigger] changes.hidden@[j],
            ) && self.eff_hidden_of(changes.hidden@[j]) && !a.eff_hidden_of(
                changes.hidden@[j],
            ) by {
                assert(after_t.eff_hidden_of(tch.hidden@[j]) && !s0.eff_hidden_of(
                    tch.hidden@[j],
                ));
                assert(self.eff_hidden_of(changes.hidden@[j]) == after_t.eff_hidden_of(
                    changes.hidden@[j],
                ));
                assert(s0.eff_hidden_of(changes.hidden@[j]) == a.eff_hidden_of(
                    changes.hidden@[j],
                ));
            }
            assert forall|j: int|
                0 <= j < changes.unhidden@.len() implies changes.transforms@.contains(
                #[trigger] changes.unhidden@[j],
            ) && !self.eff_hidden_of(changes.unhidden@[j]) && a.eff_hidden_of(
                changes.unhidden@[j],
            ) by {
                assert(!after_t.eff_hidden_of(tch.unhidden@[j]) && s0.eff_hidden_of(
                    tch.unhidden@[j],
                ));
                assert(self.eff_hidden_of(changes.unhidden@[j]) == after_t.eff_hidden_of(
                    changes.unhidden@[j],
                ));
                assert(s0.eff_hidden_of(changes.unhidden@[j]) == a.eff_hidden_of(
                    changes.unhidden@[j],
                ));
            }
            assert forall|m: int|
                0 <= m < changes.transforms@.len() && self.eff_hidden_of(
                    #[trigger] changes.transforms@[m],
                ) != a.eff_hidden_of(changes.transforms@[m]) implies changes.hidden@.contains(
                changes.transforms@[m],
            ) || changes.unhidden@.contains(changes.transforms@[m]) by {
                assert(self.eff_hidden_of(changes.transforms@[m]) == after_t.eff_hidden_of(
                    changes.transforms@[m],
                ));
                assert(s0.eff_hidden_of(changes.transforms@[m]) == a.eff_hidden_of(
                    changes.transforms@[m],
                ));
                assert(after_t.eff_hidden_of(tch.transforms@[m]) != s0.eff_hidden_of(
                    tch.transforms@[m],
                ) ==> tch.hidden@.contains(tch.transforms@[m]) || tch.unhidden@.contains(
                    tch.transforms@[m],
                ));
            }
        }
    }

    /// Evaluates the layer tree into a fresh change-set; see
    /// [`LayerStore::evaluate_into`].
    pub fn evaluate<FT: Fn(Transform3d, Transform3d) -> Transform3d, FO: Fn(u32, u32) -> u32>(
        &mut self,
        compose: FT,
        blend: FO,
    ) -> (changes: FrameChanges)
        requires
            old(self).wf(),
            forall|a: Transform3d, b: Transform3d| #[trigger] call_requires(compose, (a, b)),
            forall|a: u32, b: u32| #[trigger] call_requires(blend, (a, b)),
        ensures
            final(self).wf(),
            !final(self).trav_dirty(),
            final(self).trav_ok(),
            changes.topology_changed == old(self).trav_dirty(),
            evaluate_frame(*old(self), *final(self)),
            changes.added@ == old(self).added_view(),
            changes.removed@ == old(self).removed_view(),
            changes.transforms@ == final(self).trav().filter(|i: u32| old(self).t_affected(i)),
            changes.opacities@ == final(self).trav().filter(|i: u32| old(self).o_affected(i)),
            changes.clips@ == slot_seq(old(self).n() as nat).filter(
                |i: u32| old(self).dirty_c(i),
            ),
            changes.content@ == slot_seq(old(self).n() as nat).filter(
                |i: u32| old(self).dirty_ct(i),
            ),
            forall|m: int|
                0 <= m < changes.transforms@.len() ==> transform_recomputed(
                    *old(self),
                    *final(self),
                    compose,
                    #[trigger] changes.transforms@[m],
                ),
            forall|m: int|
                0 <= m < changes.opacities@.len() ==> opacity_recomputed(
                    *old(self),
                    *final(self),
                    blend,
                    #[trigger] changes.opacities@[m],
                ),
    {
        let mut changes = FrameChanges::new();
        self.evaluate_into(&mut changes, compose, blend);
        changes
    }

    /// The generation of slot `i`, or zero past the arrays (a helper for
    /// frame conditions).
    pub open spec fn gen_of_or_zero(self, i: u32) -> u32 {
        if i < self.n() {
            self.gen_of(i)
        } else {
            0
        }
    }

    /// Removes `idx` from its parent's child list without touching dirty
    /// state; the slot keeps no parent and no siblings afterwards.
    #[verifier::rlimit(100)]
    #[verifier::spinoff_prover]
    pub(crate) fn unlink_from_parent(&mut self, idx: u32)
        requires
            old(self).wf(),
            old(self).live(idx),
            old(self).parent_of(idx) != INVALID,
        ensures
            final(self).wf(),
            final(self).parent_of(idx) == INVALID,
            forall|p: u32|
                final(self).live(p) ==> #[trigger] final(self).kids_of(p) == (
                if old(self).parent_of(idx) == p {
                    old(self).kids_of(p).remove_value(idx)
                } else {
                    old(self).kids_of(p)
                }),
            unchanged_but_links(*old(self), *final(self)),
            forall|i: u32| #[trigger] final(self).live(i) == old(self).live(i),
            forall|i: u32|
                i < old(self).n() && i != idx ==> #[trigger] final(self).parent_of(i) == old(self).parent_of(i),
    {
        let i = idx as usize;
        let p = self.parent[i];
        let prev = self.prev_sibling[i];
        let next = self.next_sibling[i];

        proof {
            assert(old(self).live(p));
            assert(old(self).kids_of(p).contains(idx));
            assert(old(self).kids_ok(p));
        }
        let ghost oldk = self.kids@[p];
        let ghost ji = choose|j: int| 0 <= j < oldk.len() && oldk[j] == idx;
        proof {
            assert(0 <= ji < oldk.len() && oldk[ji] == idx);
            assert(prev == (if ji > 0 {
                oldk[ji - 1]
            } else {
                INVALID
            }));
            assert(next == (if ji + 1 < oldk.len() {
                oldk[ji + 1]
            } else {
                INVALID
            }));
            if ji > 0 {
                assert(old(self).live(oldk[ji - 1]));
            }
            if ji + 1 < oldk.len() {
                assert(old(self).live(oldk[ji + 1]));
            }
        }

        if prev != INVALID {
            self.next_sibling[prev as usize] = next;
        } else {
            self.first_child[p as usize] = next;
        }
        if next != INVALID {
            self.prev_sibling[next as usize] = prev;
        }
        self.parent[i] = INVALID;
        self.prev_sibling[i] = INVALID;
        self.next_sibling[i] = INVALID;

        proof {
            let a = *old(self);
            let k2 = oldk.remove(ji);
            self.kids@ = self.kids@.insert(p, k2);
            // the detached subtree rises to root depth
            let dk = a.depth_of(idx);
            self.depth@ = Map::new(
                |x: u32| true,
                |x: u32|
                    if a.in_subtree(idx, x) {
                        (a.depth_of(x) - dk) as nat
                    } else {
                        a.depth_of(x)
                    },
            );
            lemma_depth_after_detach(a, *self, idx, p);
            // `remove_value` strips the same element: with no repeats, the
            // chosen index is the first occurrence.
            assert(oldk.remove_value(idx) =~= k2) by {
                oldk.index_of_first_ensures(idx);
                let fio = oldk.index_of_first(idx);
                assert(fio is Some);
                assert(oldk[fio->0] == idx);
                assert(fio->0 == ji);
            }
            // every child list is still consistent
            assert forall|q: u32| self.live(q) implies #[trigger] self.kids_ok(q) by {
                assert(a.kids_ok(q));
                if q == p {
                    lemma_child_list_after_removal(a, *self, p, idx, ji);
                } else {
                    // q's list and its members' links are untouched: its
                    // members belong to q, while the relinked slots belong
                    // to p (or are idx itself)
                    assert(self.kids_of(q) == a.kids_of(q));
                    let k = a.kids_of(q);
                    assert forall|j: int| 0 <= j < k.len() implies self.live(#[trigger] k[j])
                        && self.parent_of(k[j]) == q && self.next_sibling@[k[j] as int] == (
                    if j + 1 < k.len() {
                        k[j + 1]
                    } else {
                        INVALID
                    }) && self.prev_sibling@[k[j] as int] == (
                    if j > 0 {
                        k[j - 1]
                    } else {
                        INVALID
                    }) by {
                        assert(a.live(k[j]) && a.parent_of(k[j]) == q);
                        assert(k[j] != idx);
                        if ji > 0 {
                            assert(a.parent_of(oldk[ji - 1]) == p);
                            assert(k[j] != oldk[ji - 1]);
                        }
                        if ji + 1 < oldk.len() {
                            assert(a.parent_of(oldk[ji + 1]) == p);
                            assert(k[j] != oldk[ji + 1]);
                        }
                    }
                }
            }
            // membership: every live child still stands in its parent's list
            assert forall|c: u32|
                self.live(c) && self.parent_of(c) != INVALID implies #[trigger] self.kids_of(
                self.parent_of(c),
            ).contains(c) by {
                assert(c != idx);
                assert(a.kids_of(a.parent_of(c)).contains(c));
                if a.parent_of(c) == p {
                    let j = choose|j: int| 0 <= j < oldk.len() && oldk[j] == c;
                    assert(j != ji);
                    if j < ji {
                        assert(k2[j] == c);
                    } else {
                        assert(k2[j - 1] == c);
                    }
                }
            }
            if !self.traversal_dirty {
                assert forall|j: int|
                    0 <= j < self.trav().len() && self.parent_of(#[trigger] self.trav()[j])
                        != INVALID implies exists|m: int|
                    0 <= m < j && self.trav()[m] == self.parent_of(self.trav()[j]) by {
                    let x = self.trav()[j];
                    assert(a.trav_ok());
                    assert(x != idx);
                    assert(a.parent_of(x) != INVALID);
                    let m = choose|m: int| 0 <= m < j && a.trav()[m] == a.parent_of(x);
                    assert(self.trav()[m] == self.parent_of(x));
                }
                assert forall|i: u32| self.live(i) implies #[trigger] self.trav().contains(
                    i,
                ) by {
                    assert(a.trav_ok());
                    assert(a.live(i));
                    assert(a.trav().contains(i));
                }
                assert(self.trav_ok());
            }
            assert forall|q: u32|
                self.live(q) implies (#[trigger] self.parent_of(q) == INVALID || self.live(
                self.parent_of(q),
            )) by {
                if q != idx {
                    assert(a.parent_of(q) == INVALID || a.live(a.parent_of(q)));
                }
            }
            assert forall|q: u32|
                q < self.n() && !self.live(q) implies #[trigger] self.parent_of(q) == INVALID
                    && self.first_child@[q as int] == INVALID && self.next_sibling@[q as int]
                    == INVALID && self.prev_sibling@[q as int] == INVALID by {
                assert(!a.live(q));
                assert(q != idx);
                assert(a.parent_of(q) == INVALID);
                assert(a.first_child@[q as int] == INVALID);
                assert(a.next_sibling@[q as int] == INVALID);
                assert(a.prev_sibling@[q as int] == INVALID);
                assert(q != p);
                if ji > 0 {
                    assert(q != oldk[ji - 1]);
                }
                if ji + 1 < oldk.len() {
                    assert(q != oldk[ji + 1]);
                }
            }
            assert forall|q: u32|
                self.live(q) && #[trigger] self.parent_of(q) == INVALID implies self
                .next_sibling@[q as int] == INVALID && self.prev_sibling@[q as int]
                == INVALID by {
                if q != idx {
                    assert(a.parent_of(q) == INVALID);
                    assert(a.next_sibling@[q as int] == INVALID);
                    assert(a.prev_sibling@[q as int] == INVALID);
                    if ji > 0 {
                        assert(a.parent_of(oldk[ji - 1]) == p);
                        assert(q != oldk[ji - 1]);
                    }
                    if ji + 1 < oldk.len() {
                        assert(a.parent_of(oldk[ji + 1]) == p);
                        assert(q != oldk[ji + 1]);
                    }
                }
            }
            assert(self.lens_ok());
            assert(self.links_ok());
            assert(self.kids_all_ok());
            assert(self.free_ok());
            assert(self.wf());
        }
    }
}

/// After removing position `ji` (holding `idx`) from `p`'s child list and
/// splicing the sibling links around it, `p`'s list is consistent again.
proof fn lemma_child_list_after_removal(a: LayerStore, b: LayerStore, p: u32, idx: u32, ji: int)
    requires
        a.wf(),
        a.live(idx),
        a.parent_of(idx) == p,
        a.live(p),
        0 <= ji < a.kids_of(p).len(),
        a.kids_of(p)[ji] == idx,
        b.kids_of(p) == a.kids_of(p).remove(ji),
        b.n() == a.n(),
        forall|i: u32| #[trigger] b.live(i) == a.live(i),
        // the splice: idx detached, neighbours joined
        b.parent@ =~= a.parent@.update(idx as int, INVALID),
        b.first_child@ =~= (if ji == 0 {
            a.first_child@.update(
                p as int,
                if a.kids_of(p).len() > 1 {
                    a.kids_of(p)[1]
                } else {
                    INVALID
                },
            )
        } else {
            a.first_child@
        }),
        b.next_sibling@ =~= (if ji > 0 {
            a.next_sibling@.update(
                a.kids_of(p)[ji - 1] as int,
                if ji + 1 < a.kids_of(p).len() {
                    a.kids_of(p)[ji + 1]
                } else {
                    INVALID
                },
            )
        } else {
            a.next_sibling@
        }).update(idx as int, INVALID),
        b.prev_sibling@ =~= (if ji + 1 < a.kids_of(p).len() {
            a.prev_sibling@.update(
                a.kids_of(p)[ji + 1] as int,
                if ji > 0 {
                    a.kids_of(p)[ji - 1]
                } else {
                    INVALID
                },
            )
        } else {
            a.prev_sibling@
        }).update(idx as int, INVALID),
    ensures
        b.kids_ok(p),
{
    let oldk = a.kids_of(p);
    let k2 = b.kids_of(p);
    assert(a.kids_ok(p));
    assert(k2.no_duplicates()) by {
        assert forall|x: int, y: int| 0 <= x < y < k2.len() implies k2[x] != k2[y] by {
            if y < ji {
                assert(oldk[x] != oldk[y]);
            } else if x < ji {
                assert(oldk[x] != oldk[y + 1]);
            } else {
                assert(oldk[x + 1] != oldk[y + 1]);
            }
        }
    }
    assert forall|j: int| 0 <= j < k2.len() implies b.live(#[trigger] k2[j]) && b.parent_of(k2[j])
        == p by {
        let jo = if j < ji {
            j
        } else {
            j + 1
        };
        assert(k2[j] == oldk[jo]);
        assert(a.live(oldk[jo]) && a.parent_of(oldk[jo]) == p);
        assert(oldk[jo] != idx);
    }
    assert forall|j: int| 0 <= j < k2.len() implies b.next_sibling@[#[trigger] k2[j] as int] == (
    if j + 1 < k2.len() {
        k2[j + 1]
    } else {
        INVALID
    }) by {
        let jo = if j < ji {
            j
        } else {
            j + 1
        };
        assert(k2[j] == oldk[jo]);
        assert(oldk[jo] != idx);
        if j == ji - 1 {
            // the joined slot
            assert(b.next_sibling@[k2[j] as int] == (if ji + 1 < oldk.len() {
                oldk[ji + 1]
            } else {
                INVALID
            }));
        } else {
            if ji > 0 {
                assert(oldk[jo] != oldk[ji - 1]);
            }
            assert(b.next_sibling@[k2[j] as int] == a.next_sibling@[oldk[jo] as int]);
        }
    }
    assert forall|j: int| 0 <= j < k2.len() implies b.prev_sibling@[#[trigger] k2[j] as int] == (
    if j > 0 {
        k2[j - 1]
    } else {
        INVALID
    }) by {
        let jo = if j < ji {
            j
        } else {
            j + 1
        };
        assert(k2[j] == oldk[jo]);
        assert(oldk[jo] != idx);
        if j == ji {
            assert(jo == ji + 1);
            assert(b.prev_sibling@[k2[j] as int] == (if ji > 0 {
                oldk[ji - 1]
            } else {
                INVALID
            }));
        } else {
            if ji + 1 < oldk.len() {
                assert(oldk[jo] != oldk[ji + 1]);
            }
            assert(b.prev_sibling@[k2[j] as int] == a.prev_sibling@[oldk[jo] as int]);
        }
    }
    assert(b.first_child@[p as int] == (if k2.len() > 0 {
        k2[0]
    } else {
        INVALID
    })) by {
        if ji == 0 {
        } else {
            assert(b.first_child@[p as int] == a.first_child@[p as int]);
            assert(k2[0] == oldk[0]);
        }
    }
}

/// The generation that follows `g`: the successor, wrapping to zero at the
/// top so a bump always changes the value.
pub open spec fn succ_gen(g: u32) -> u32 {
    if g == u32::MAX {
        0u32
    } else {
        (g + 1) as u32
    }
}

/// Properties of slot `i` (local and computed) are the same in both stores.
pub open spec fn properties_unchanged_at(a: LayerStore, b: LayerStore, i: u32) -> bool {
    &&& b.local_transform_of(i) == a.local_transform_of(i)
    &&& b.local_opacity_of(i) == a.local_opacity_of(i)
    &&& b.clip_of(i) == a.clip_of(i)
    &&& b.content_of(i) == a.content_of(i)
    &&& b.flags_of(i) == a.flags_of(i)
    &&& b.world_of(i) == a.world_of(i)
    &&& b.eff_opacity_of(i) == a.eff_opacity_of(i)
    &&& b.eff_hidden_of(i) == a.eff_hidden_of(i)
}

/// The parent link of slot `i` is the same in both stores.
pub open spec fn links_unchanged_at(a: LayerStore, b: LayerStore, i: u32) -> bool {
    b.parent_of(i) == a.parent_of(i)
}

/// The dirty flags of slot `i` are the same in both stores.
pub open spec fn dirty_unchanged_at(a: LayerStore, b: LayerStore, i: u32) -> bool {
    &&& b.dirty_t(i) == a.dirty_t(i)
    &&& b.dirty_o(i) == a.dirty_o(i)
    &&& b.dirty_c(i) == a.dirty_c(i)
    &&& b.dirty_ct(i) == a.dirty_ct(i)
    &&& b.dirty_tp(i) == a.dirty_tp(i)
}

/// Everything except the sibling/parent/first-child links and the kids
/// mirror is unchanged between two stores.
pub open spec fn unchanged_but_links(a: LayerStore, b: LayerStore) -> bool {
    &&& b.n() == a.n()
    &&& forall|i: u32| i < a.n() ==> properties_unchanged_at(a, b, i)
    &&& forall|i: u32| i < a.n() ==> dirty_unchanged_at(a, b, i)
    &&& forall|i: u32| i < a.n() ==> b.gen_of(i) == a.gen_of(i)
    &&& b.added_view() == a.added_view()
    &&& b.removed_view() == a.removed_view()
    &&& b.trav() == a.trav()
    &&& b.trav_dirty() == a.trav_dirty()
}


/// If two stores agree on topology, liveness, the kids mirror, the free
/// list, and the traversal cache, and the second keeps dead slots clean,
/// then well-formedness carries over: dirty flags of live slots are free to
/// differ.
proof fn lemma_wf_dirty_only(a: LayerStore, b: LayerStore)
    requires
        a.wf(),
        b.parent@ == a.parent@,
        b.first_child@ == a.first_child@,
        b.next_sibling@ == a.next_sibling@,
        b.prev_sibling@ == a.prev_sibling@,
        b.alive@ == a.alive@,
        b.kids@ == a.kids@,
        b.free_list@ == a.free_list@,
        b.traversal@ == a.traversal@,
        b.traversal_dirty == a.traversal_dirty || b.traversal_dirty,
        b.depth@ == a.depth@,
        b.lens_ok(),
    ensures
        b.wf(),
{
    assert(b.n() == a.n());
    assert(forall|i: u32| #[trigger] b.live(i) == a.live(i));
    assert(forall|i: u32| #[trigger] b.parent_of(i) == a.parent_of(i));
    assert(forall|i: u32| #[trigger] b.kids_of(i) == a.kids_of(i));
    assert(b.links_ok()) by {
        assert forall|i: u32|
            b.live(i) implies (#[trigger] b.parent_of(i) == INVALID || b.live(b.parent_of(i)))
            by {
            assert(a.parent_of(i) == INVALID || a.live(a.parent_of(i)));
        }
        assert forall|i: u32|
            b.live(i) && #[trigger] b.parent_of(i) == INVALID implies b.next_sibling@[i as int]
            == INVALID && b.prev_sibling@[i as int] == INVALID by {
            assert(a.parent_of(i) == INVALID);
            assert(a.next_sibling@[i as int] == INVALID);
            assert(a.prev_sibling@[i as int] == INVALID);
        }
        assert forall|i: u32|
            i < b.n() && !b.live(i) implies #[trigger] b.parent_of(i) == INVALID
                && b.first_child@[i as int] == INVALID && b.next_sibling@[i as int] == INVALID
                && b.prev_sibling@[i as int] == INVALID by {
            assert(a.parent_of(i) == INVALID);
            assert(a.first_child@[i as int] == INVALID);
            assert(a.next_sibling@[i as int] == INVALID);
            assert(a.prev_sibling@[i as int] == INVALID);
        }
    }
    assert(b.kids_all_ok()) by {
        assert forall|i: u32| b.live(i) implies #[trigger] b.kids@.contains_key(i) by {
            assert(a.kids@.contains_key(i));
        }
        assert forall|i: u32| b.live(i) implies #[trigger] b.kids_ok(i) by {
            assert(a.kids_ok(i));
            let k = a.kids_of(i);
            assert(b.kids_of(i) == k);
            assert forall|j: int| 0 <= j < k.len() implies b.live(#[trigger] k[j])
                && b.parent_of(k[j]) == i by {
                assert(a.live(k[j]) && a.parent_of(k[j]) == i);
            }
        }
        assert forall|c: u32|
            b.live(c) && b.parent_of(c) != INVALID implies #[trigger] b.kids_of(
            b.parent_of(c),
        ).contains(c) by {
            assert(a.kids_of(a.parent_of(c)).contains(c));
        }
    }
    assert(b.free_ok()) by {
        assert forall|j: int|
            0 <= j < b.free_list@.len() implies #[trigger] b.free_list@[j] < b.n() && !b.live(
            b.free_list@[j],
        ) by {
            assert(a.free_list@[j] < a.n() && !a.live(a.free_list@[j]));
        }
        assert forall|i: u32|
            i < b.n() && !b.live(i) implies #[trigger] b.free_list@.contains(i) by {
            assert(a.free_list@.contains(i));
        }
    }
    assert(b.depth_ok()) by {
        assert forall|i: u32|
            b.live(i) implies (if b.parent_of(i) == INVALID {
            #[trigger] b.depth_of(i) == 0
        } else {
            b.depth_of(i) == b.depth_of(b.parent_of(i)) + 1
        }) by {
            assert(a.live(i));
            assert(if a.parent_of(i) == INVALID {
                a.depth_of(i) == 0
            } else {
                a.depth_of(i) == a.depth_of(a.parent_of(i)) + 1
            });
        }
    }
    if !b.trav_dirty() {
        assert(a.trav_ok());
        assert(b.trav_ok()) by {
            let t = b.trav();
            assert forall|j: int| 0 <= j < t.len() implies b.live(#[trigger] t[j]) by {
                assert(a.live(t[j]));
            }
            assert forall|j: int|
                0 <= j < t.len() && b.parent_of(#[trigger] t[j]) != INVALID implies exists|
                m: int,
            |
                0 <= m < j && t[m] == b.parent_of(t[j]) by {
                assert(a.parent_of(t[j]) != INVALID);
                let m = choose|m: int| 0 <= m < j && a.trav()[m] == a.parent_of(t[j]);
                assert(t[m] == b.parent_of(t[j]));
            }
            assert forall|i: u32| b.live(i) implies #[trigger] t.contains(i) by {
                assert(a.live(i));
                assert(a.trav().contains(i));
            }
        }
    }
}


/// What every property setter leaves untouched: topology, liveness,
/// generations, the traversal cache, the pending lists, and the computed
/// values.
pub open spec fn setter_frame(a: LayerStore, b: LayerStore, idx: u32) -> bool {
    &&& b.n() == a.n()
    &&& forall|i: u32| #[trigger] b.live(i) == a.live(i)
    &&& forall|i: u32| i < a.n() ==> #[trigger] b.gen_of(i) == a.gen_of(i)
    &&& forall|i: u32| i < a.n() ==> #[trigger] b.parent_of(i) == a.parent_of(i)
    &&& forall|p: u32| a.live(p) ==> #[trigger] b.kids_of(p) == a.kids_of(p)
    &&& forall|i: u32|
        i < a.n() ==> #[trigger] b.world_of(i) == a.world_of(i) && b.eff_opacity_of(i)
            == a.eff_opacity_of(i) && b.eff_hidden_of(i) == a.eff_hidden_of(i)
    &&& b.trav() == a.trav()
    &&& b.trav_dirty() == a.trav_dirty()
    &&& b.added_view() == a.added_view()
    &&& b.removed_view() == a.removed_view()
}


/// After appending `c` (a live root) to `p`'s child list and splicing the
/// sibling links, the store is well-formed again.
#[verifier::rlimit(100)]
#[verifier::spinoff_prover]
proof fn lemma_wf_after_append(a: LayerStore, b: LayerStore, p: u32, c: u32)
    requires
        a.wf(),
        a.live(p),
        a.live(c),
        a.parent_of(c) == INVALID,
        c != p,
        !a.in_subtree(c, p),
        b.depth_ok(),
        b.kids@ == a.kids@.insert(p, a.kids_of(p).push(c)),
        b.parent@ =~= a.parent@.update(c as int, p),
        b.next_sibling@ =~= (if a.kids_of(p).len() > 0 {
            a.next_sibling@.update(a.kids_of(p).last() as int, c)
        } else {
            a.next_sibling@
        }).update(c as int, INVALID),
        b.prev_sibling@ =~= a.prev_sibling@.update(
            c as int,
            if a.kids_of(p).len() > 0 {
                a.kids_of(p).last()
            } else {
                INVALID
            },
        ),
        b.first_child@ =~= (if a.kids_of(p).len() == 0 {
            a.first_child@.update(p as int, c)
        } else {
            a.first_child@
        }),
        b.alive@ == a.alive@,
        b.generation@ == a.generation@,
        b.free_list@ == a.free_list@,
        b.traversal@ == a.traversal@,
        b.traversal_dirty,
        b.local_transform@ == a.local_transform@,
        b.local_opacity@ == a.local_opacity@,
        b.clip@ == a.clip@,
        b.content@ == a.content@,
        b.flags@ == a.flags@,
        b.world_transform@ == a.world_transform@,
        b.effective_opacity@ == a.effective_opacity@,
        b.effective_hidden@ == a.effective_hidden@,
        b.dirty_transform@ == a.dirty_transform@,
        b.dirty_opacity@ == a.dirty_opacity@,
        b.dirty_clip@ == a.dirty_clip@,
        b.dirty_content@ == a.dirty_content@,
        b.dirty_topology@ == a.dirty_topology@,
    ensures
        b.wf(),
{
    let oldk = a.kids_of(p);
    let k2 = oldk.push(c);
    assert(a.kids_ok(p));
    assert(b.n() == a.n());
    assert(forall|i: u32| #[trigger] b.live(i) == a.live(i));
    assert(b.lens_ok());
    assert(a.lens_ok());
    assert(p < a.n());
    assert(forall|m: int| 0 <= m < oldk.len() ==> #[trigger] oldk[m] != c);
    assert forall|q: u32| b.live(q) implies #[trigger] b.kids_ok(q) by {
        assert(a.kids_ok(q));
        if q == p {
            assert(k2.no_duplicates());
            assert forall|j2: int| 0 <= j2 < k2.len() implies b.live(#[trigger] k2[j2])
                && b.parent_of(k2[j2]) == p by {
                if j2 < oldk.len() {
                    assert(a.live(oldk[j2]) && a.parent_of(oldk[j2]) == p);
                    assert(oldk[j2] != c);
                }
            }
            assert forall|j2: int|
                0 <= j2 < k2.len() implies b.next_sibling@[#[trigger] k2[j2] as int] == (
            if j2 + 1 < k2.len() {
                k2[j2 + 1]
            } else {
                INVALID
            }) by {
                if j2 + 1 < oldk.len() {
                    assert(k2[j2] == oldk[j2]);
                    assert(oldk[j2] != c);
                    assert(oldk[j2] != oldk[oldk.len() - 1]);
                } else if j2 + 1 == oldk.len() {
                    assert(k2[j2] == oldk[oldk.len() - 1]);
                } else {
                    assert(k2[j2] == c);
                }
            }
            assert forall|j2: int|
                0 <= j2 < k2.len() implies b.prev_sibling@[#[trigger] k2[j2] as int] == (
            if j2 > 0 {
                k2[j2 - 1]
            } else {
                INVALID
            }) by {
                if j2 < oldk.len() {
                    assert(k2[j2] == oldk[j2]);
                    assert(oldk[j2] != c);
                } else {
                    assert(k2[j2] == c);
                }
            }
            assert(b.first_child@[p as int] == k2[0]) by {
                if oldk.len() > 0 {
                    assert(oldk[0] != c);
                }
            }
        } else {
            assert(b.kids_of(q) == a.kids_of(q));
            let k = a.kids_of(q);
            assert forall|j2: int| 0 <= j2 < k.len() implies b.live(#[trigger] k[j2])
                && b.parent_of(k[j2]) == q && b.next_sibling@[k[j2] as int] == (
            if j2 + 1 < k.len() {
                k[j2 + 1]
            } else {
                INVALID
            }) && b.prev_sibling@[k[j2] as int] == (
            if j2 > 0 {
                k[j2 - 1]
            } else {
                INVALID
            }) by {
                assert(a.live(k[j2]) && a.parent_of(k[j2]) == q);
                assert(k[j2] != c);
                if oldk.len() > 0 {
                    assert(a.parent_of(oldk[oldk.len() - 1]) == p);
                    assert(k[j2] != oldk[oldk.len() - 1]);
                }
            }
            assert(b.first_child@[q as int] == a.first_child@[q as int]);
        }
    }
    assert(b.links_ok()) by {
        assert forall|q: u32|
            b.live(q) implies (#[trigger] b.parent_of(q) == INVALID || b.live(b.parent_of(q)))
            by {
            if q != c {
                assert(a.parent_of(q) == INVALID || a.live(a.parent_of(q)));
            } else {
                assert(b.parent_of(q) == p);
            }
        }
        assert forall|q: u32|
            b.live(q) && #[trigger] b.parent_of(q) == INVALID implies b.next_sibling@[q as int]
            == INVALID && b.prev_sibling@[q as int] == INVALID by {
            assert(q != c);
            assert(a.parent_of(q) == INVALID);
            assert(a.next_sibling@[q as int] == INVALID);
            assert(a.prev_sibling@[q as int] == INVALID);
            if oldk.len() > 0 {
                assert(a.parent_of(oldk[oldk.len() - 1]) == p);
                assert(q != oldk[oldk.len() - 1]);
            }
        }
        assert forall|q: u32|
            q < b.n() && !b.live(q) implies #[trigger] b.parent_of(q) == INVALID
                && b.first_child@[q as int] == INVALID && b.next_sibling@[q as int] == INVALID
                && b.prev_sibling@[q as int] == INVALID by {
            assert(!a.live(q));
            assert(q != c && q != p);
            assert(a.parent_of(q) == INVALID);
            assert(a.first_child@[q as int] == INVALID);
            assert(a.next_sibling@[q as int] == INVALID);
            assert(a.prev_sibling@[q as int] == INVALID);
            if oldk.len() > 0 {
                assert(a.live(oldk[oldk.len() - 1]));
                assert(q != oldk[oldk.len() - 1]);
            }
        }
    }
    assert(b.kids_all_ok()) by {
        assert forall|i: u32| b.live(i) implies #[trigger] b.kids@.contains_key(i) by {
            assert(a.kids@.contains_key(i));
        }
        assert forall|c2: u32|
            b.live(c2) && b.parent_of(c2) != INVALID implies #[trigger] b.kids_of(
            b.parent_of(c2),
        ).contains(c2) by {
            if c2 == c {
                assert(b.kids_of(p)[k2.len() - 1] == c);
            } else {
                assert(a.kids_of(a.parent_of(c2)).contains(c2));
                if a.parent_of(c2) == p {
                    let m = choose|m: int| 0 <= m < oldk.len() && oldk[m] == c2;
                    assert(k2[m] == c2);
                }
            }
        }
    }
    assert(b.free_ok()) by {
        assert forall|j2: int|
            0 <= j2 < b.free_list@.len() implies #[trigger] b.free_list@[j2] < b.n() && !b.live(
            b.free_list@[j2],
        ) by {
            assert(a.free_list@[j2] < a.n() && !a.live(a.free_list@[j2]));
        }
        assert forall|i2: u32|
            i2 < b.n() && !b.live(i2) implies #[trigger] b.free_list@.contains(i2) by {
            assert(a.free_list@.contains(i2));
        }
    }
}


/// Every live slot lies in its own subtree, by the one-element chain.
proof fn lemma_in_subtree_refl(s: LayerStore, x: u32)
    requires
        s.live(x),
    ensures
        s.in_subtree(x, x),
{
    let q: Seq<u32> = seq![x];
    assert(s.chain(q));
    assert(q[0] == x && q.last() == x);
}


/// The two stores agree on everything except the traversal cache.
pub closed spec fn stores_equal_but_traversal(a: LayerStore, b: LayerStore) -> bool {
    &&& b.parent@ == a.parent@
    &&& b.first_child@ == a.first_child@
    &&& b.next_sibling@ == a.next_sibling@
    &&& b.prev_sibling@ == a.prev_sibling@
    &&& b.local_transform@ == a.local_transform@
    &&& b.local_opacity@ == a.local_opacity@
    &&& b.clip@ == a.clip@
    &&& b.content@ == a.content@
    &&& b.flags@ == a.flags@
    &&& b.world_transform@ == a.world_transform@
    &&& b.effective_opacity@ == a.effective_opacity@
    &&& b.effective_hidden@ == a.effective_hidden@
    &&& b.generation@ == a.generation@
    &&& b.alive@ == a.alive@
    &&& b.free_list@ == a.free_list@
    &&& b.kids@ == a.kids@
    &&& b.dirty_transform@ == a.dirty_transform@
    &&& b.dirty_opacity@ == a.dirty_opacity@
    &&& b.dirty_clip@ == a.dirty_clip@
    &&& b.dirty_content@ == a.dirty_content@
    &&& b.dirty_topology@ == a.dirty_topology@
    &&& b.pending_added@ == a.pending_added@
    &&& b.pending_removed@ == a.pending_removed@
    &&& b.depth@ == a.depth@
}

/// A store that only replaced its traversal cache with a sound one is still
/// well-formed.
proof fn lemma_wf_new_traversal(a: LayerStore, b: LayerStore)
    requires
        a.wf(),
        stores_equal_but_traversal(a, b),
        !b.trav_dirty() ==> b.trav_ok(),
    ensures
        b.wf(),
{
    assert(b.n() == a.n());
    assert(b.lens_ok());
    assert(forall|i: u32| #[trigger] b.live(i) == a.live(i));
    assert(b.links_ok()) by {
        assert forall|q: u32|
            b.live(q) implies (#[trigger] b.parent_of(q) == INVALID || b.live(b.parent_of(q)))
            by {
            assert(a.parent_of(q) == INVALID || a.live(a.parent_of(q)));
        }
        assert forall|q: u32|
            b.live(q) && #[trigger] b.parent_of(q) == INVALID implies b.next_sibling@[q as int]
            == INVALID && b.prev_sibling@[q as int] == INVALID by {
            assert(a.parent_of(q) == INVALID);
            assert(a.next_sibling@[q as int] == INVALID);
            assert(a.prev_sibling@[q as int] == INVALID);
        }
        assert forall|q: u32|
            q < b.n() && !b.live(q) implies #[trigger] b.parent_of(q) == INVALID
                && b.first_child@[q as int] == INVALID && b.next_sibling@[q as int] == INVALID
                && b.prev_sibling@[q as int] == INVALID by {
            assert(a.parent_of(q) == INVALID);
            assert(a.first_child@[q as int] == INVALID);
            assert(a.next_sibling@[q as int] == INVALID);
            assert(a.prev_sibling@[q as int] == INVALID);
        }
    }
    assert(b.kids_all_ok()) by {
        assert forall|i: u32| b.live(i) implies #[trigger] b.kids@.contains_key(i) by {
            assert(a.kids@.contains_key(i));
        }
        assert forall|i: u32| b.live(i) implies #[trigger] b.kids_ok(i) by {
            assert(a.kids_ok(i));
            let k = a.kids_of(i);
            assert forall|j: int| 0 <= j < k.len() implies b.live(#[trigger] k[j])
                && b.parent_of(k[j]) == i by {
                assert(a.live(k[j]) && a.parent_of(k[j]) == i);
            }
        }
        assert forall|c: u32|
            b.live(c) && b.parent_of(c) != INVALID implies #[trigger] b.kids_of(
            b.parent_of(c),
        ).contains(c) by {
            assert(a.kids_of(a.parent_of(c)).contains(c));
        }
    }
    assert(b.free_ok()) by {
        assert forall|j: int|
            0 <= j < b.free_list@.len() implies #[trigger] b.free_list@[j] < b.n() && !b.live(
            b.free_list@[j],
        ) by {
            assert(a.free_list@[j] < a.n() && !a.live(a.free_list@[j]));
        }
        assert forall|i: u32|
            i < b.n() && !b.live(i) implies #[trigger] b.free_list@.contains(i) by {
            assert(a.free_list@.contains(i));
        }
    }
    assert(b.depth_ok()) by {
        assert forall|i: u32|
            b.live(i) implies (if b.parent_of(i) == INVALID {
            #[trigger] b.depth_of(i) == 0
        } else {
            b.depth_of(i) == b.depth_of(b.parent_of(i)) + 1
        }) by {
            assert(a.live(i));
            assert(if a.parent_of(i) == INVALID {
                a.depth_of(i) == 0
            } else {
                a.depth_of(i) == a.depth_of(a.parent_of(i)) + 1
            });
        }
    }
}


/// The slots `0 .. n` in ascending order.
pub open spec fn slot_seq(n: nat) -> Seq<u32> {
    Seq::new(n, |i: int| i as u32)
}

/// The frame every evaluation keeps: allocation, topology, and the local
/// properties are untouched.
pub open spec fn evaluate_frame(a: LayerStore, b: LayerStore) -> bool {
    &&& b.n() == a.n()
    &&& forall|i: u32| #[trigger] b.live(i) == a.live(i)
    &&& forall|i: u32| i < a.n() ==> #[trigger] b.gen_of(i) == a.gen_of(i)
    &&& forall|i: u32| i < a.n() ==> #[trigger] b.parent_of(i) == a.parent_of(i)
    &&& forall|p: u32| a.live(p) ==> #[trigger] b.kids_of(p) == a.kids_of(p)
    &&& forall|i: u32|
        i < a.n() ==> #[trigger] b.local_transform_of(i) == a.local_transform_of(i)
            && b.local_opacity_of(i) == a.local_opacity_of(i) && b.clip_of(i) == a.clip_of(i)
            && b.content_of(i) == a.content_of(i) && b.flags_of(i) == a.flags_of(i)
}

/// During a recomputation pass, only the computed arrays move: topology,
/// dirtiness, allocation, the traversal, and the pending lists stay put.
pub closed spec fn computed_pass_frame(a: LayerStore, b: LayerStore) -> bool {
    &&& b.parent@ == a.parent@
    &&& b.first_child@ == a.first_child@
    &&& b.next_sibling@ == a.next_sibling@
    &&& b.prev_sibling@ == a.prev_sibling@
    &&& b.local_transform@ == a.local_transform@
    &&& b.local_opacity@ == a.local_opacity@
    &&& b.clip@ == a.clip@
    &&& b.content@ == a.content@
    &&& b.flags@ == a.flags@
    &&& b.world_transform@.len() == a.world_transform@.len()
    &&& b.effective_opacity@.len() == a.effective_opacity@.len()
    &&& b.effective_hidden@.len() == a.effective_hidden@.len()
    &&& b.generation@ == a.generation@
    &&& b.alive@ == a.alive@
    &&& b.free_list@ == a.free_list@
    &&& b.kids@ == a.kids@
    &&& b.dirty_transform@ == a.dirty_transform@
    &&& b.dirty_opacity@ == a.dirty_opacity@
    &&& b.dirty_clip@ == a.dirty_clip@
    &&& b.dirty_content@ == a.dirty_content@
    &&& b.dirty_topology@ == a.dirty_topology@
    &&& b.traversal@ == a.traversal@
    &&& b.traversal_dirty == a.traversal_dirty
    &&& b.pending_added@ == a.pending_added@
    &&& b.pending_removed@ == a.pending_removed@
    &&& b.depth@ == a.depth@
}

/// Slot `i`'s world transform in `b` is what the composition callback
/// produced from its parent's final world words (identity for roots) and
/// its own local words, and its hidden flag is the parent's final flag
/// joined with its own.
pub open spec fn transform_recomputed<FT: Fn(Transform3d, Transform3d) -> Transform3d>(
    a: LayerStore,
    b: LayerStore,
    compose: FT,
    i: u32,
) -> bool {
    let pw = if a.parent_of(i) == INVALID {
        identity_spec()
    } else {
        b.world_of(a.parent_of(i))
    };
    let ph = if a.parent_of(i) == INVALID {
        false
    } else {
        b.eff_hidden_of(a.parent_of(i))
    };
    &&& call_ensures(compose, (pw, a.local_transform_of(i)), b.world_of(i))
    &&& b.eff_hidden_of(i) == (ph || a.flags_of(i).hidden)
}

/// Slot `i`'s effective opacity in `b` is what the blend callback produced
/// from its parent's final opacity word (one for roots) and its own local
/// word.
pub open spec fn opacity_recomputed<FO: Fn(u32, u32) -> u32>(
    a: LayerStore,
    b: LayerStore,
    blend: FO,
    i: u32,
) -> bool {
    let po = if a.parent_of(i) == INVALID {
        OPACITY_ONE
    } else {
        b.eff_opacity_of(a.parent_of(i))
    };
    call_ensures(blend, (po, a.local_opacity_of(i)), b.eff_opacity_of(i))
}

/// Unfolds subtree-closure membership one parent step: a slot must
/// recompute exactly when it is marked itself or its parent must.
proof fn lemma_affected_unfold(s: LayerStore, i: u32)
    requires
        s.wf(),
        s.live(i),
    ensures
        s.t_affected(i) == (s.dirty_t(i) || (s.parent_of(i) != INVALID && s.t_affected(
            s.parent_of(i),
        ))),
        s.o_affected(i) == (s.dirty_o(i) || (s.parent_of(i) != INVALID && s.o_affected(
            s.parent_of(i),
        ))),
{
    lemma_in_subtree_refl(s, i);
    if s.dirty_t(i) {
        assert(s.t_affected(i));
    }
    if s.dirty_o(i) {
        assert(s.o_affected(i));
    }
    let px = s.parent_of(i);
    if px != INVALID {
        assert(s.live(px));
        if s.t_affected(px) {
            let d = choose|d: u32| s.dirty_t(d) && s.in_subtree(d, px);
            let q = choose|q: Seq<u32>| s.chain(q) && q[0] == px && q.last() == d;
            let q2 = seq![i] + q;
            assert(s.chain(q2)) by {
                assert forall|m: int| 0 <= m < q2.len() implies s.live(#[trigger] q2[m]) by {
                    if m > 0 {
                        assert(q2[m] == q[m - 1]);
                    }
                }
                assert forall|m: int|
                    0 <= m < q2.len() - 1 implies s.parent_of(#[trigger] q2[m]) == q2[m + 1] by {
                    if m > 0 {
                        assert(q2[m] == q[m - 1] && q2[m + 1] == q[m]);
                    }
                }
            }
            assert(q2[0] == i && q2.last() == d);
            assert(s.t_affected(i));
        }
        if s.o_affected(px) {
            let d = choose|d: u32| s.dirty_o(d) && s.in_subtree(d, px);
            let q = choose|q: Seq<u32>| s.chain(q) && q[0] == px && q.last() == d;
            let q2 = seq![i] + q;
            assert(s.chain(q2)) by {
                assert forall|m: int| 0 <= m < q2.len() implies s.live(#[trigger] q2[m]) by {
                    if m > 0 {
                        assert(q2[m] == q[m - 1]);
                    }
                }
                assert forall|m: int|
                    0 <= m < q2.len() - 1 implies s.parent_of(#[trigger] q2[m]) == q2[m + 1] by {
                    if m > 0 {
                        assert(q2[m] == q[m - 1] && q2[m + 1] == q[m]);
                    }
                }
            }
            assert(q2[0] == i && q2.last() == d);
            assert(s.o_affected(i));
        }
    }
    if s.t_affected(i) && !s.dirty_t(i) {
        let d = choose|d: u32| s.dirty_t(d) && s.in_subtree(d, i);
        let q = choose|q: Seq<u32>| s.chain(q) && q[0] == i && q.last() == d;
        assert(q.len() >= 2) by {
            if q.len() == 1 {
                assert(q.last() == i);
            }
        }
        assert(s.parent_of(i) == q[1]);
        assert(px != INVALID) by {
            assert(s.live(q[1]));
            assert(s.lens_ok());
        }
        let q3 = q.drop_first();
        assert(s.chain(q3)) by {
            assert forall|m: int| 0 <= m < q3.len() implies s.live(#[trigger] q3[m]) by {
                assert(q3[m] == q[m + 1]);
            }
            assert forall|m: int|
                0 <= m < q3.len() - 1 implies s.parent_of(#[trigger] q3[m]) == q3[m + 1] by {
                assert(q3[m] == q[m + 1] && q3[m + 1] == q[m + 2]);
            }
        }
        assert(q3[0] == px && q3.last() == d);
        assert(s.t_affected(px));
    }
    if s.o_affected(i) && !s.dirty_o(i) {
        let d = choose|d: u32| s.dirty_o(d) && s.in_subtree(d, i);
        let q = choose|q: Seq<u32>| s.chain(q) && q[0] == i && q.last() == d;
        assert(q.len() >= 2) by {
            if q.len() == 1 {
                assert(q.last() == i);
            }
        }
        assert(s.parent_of(i) == q[1]);
        assert(px != INVALID) by {
            assert(s.live(q[1]));
            assert(s.lens_ok());
        }
        let q3 = q.drop_first();
        assert(s.chain(q3)) by {
            assert forall|m: int| 0 <= m < q3.len() implies s.live(#[trigger] q3[m]) by {
                assert(q3[m] == q[m + 1]);
            }
            assert forall|m: int|
                0 <= m < q3.len() - 1 implies s.parent_of(#[trigger] q3[m]) == q3[m + 1] by {
                assert(q3[m] == q[m + 1] && q3[m + 1] == q[m + 2]);
            }
        }
        assert(q3[0] == px && q3.last() == d);
        assert(s.o_affected(px));
    }
}

/// A store that only emptied its pending lists is still well-formed.
proof fn lemma_wf_pending_only(a: LayerStore, b: LayerStore)
    requires
        a.wf(),
        b == (LayerStore { pending_added: b.pending_added, pending_removed: b.pending_removed, ..a }),
    ensures
        b.wf(),
{
    assert(b.lens_ok());
    lemma_wf_dirty_only(a, b);
}


/// Subtree membership depends only on the parent links and liveness.
proof fn lemma_in_subtree_same(a: LayerStore, b: LayerStore, anc: u32, k: u32)
    requires
        b.parent@ == a.parent@,
        b.alive@ == a.alive@,
    ensures
        a.in_subtree(anc, k) == b.in_subtree(anc, k),
{
    assert(forall|i: u32| #[trigger] a.live(i) == b.live(i));
    assert(forall|i: u32| #[trigger] a.parent_of(i) == b.parent_of(i));
    if a.in_subtree(anc, k) {
        let q = choose|q: Seq<u32>| a.chain(q) && q[0] == k && q.last() == anc;
        assert(b.chain(q)) by {
            assert(forall|m: int| 0 <= m < q.len() ==> b.live(#[trigger] q[m]) == a.live(q[m]));
        }
    }
    if b.in_subtree(anc, k) {
        let q = choose|q: Seq<u32>| b.chain(q) && q[0] == k && q.last() == anc;
        assert(a.chain(q)) by {
            assert(forall|m: int| 0 <= m < q.len() ==> b.live(#[trigger] q[m]) == a.live(q[m]));
        }
    }
}

/// The subtree-closure markings depend only on the parent links, liveness,
/// and the channel flags.
proof fn lemma_affected_same(a: LayerStore, b: LayerStore)
    requires
        b.parent@ == a.parent@,
        b.alive@ == a.alive@,
        b.dirty_transform@ == a.dirty_transform@,
        b.dirty_opacity@ == a.dirty_opacity@,
    ensures
        forall|i: u32| #[trigger] a.t_affected(i) == b.t_affected(i),
        forall|i: u32| #[trigger] a.o_affected(i) == b.o_affected(i),
{
    assert forall|i: u32| #[trigger] a.t_affected(i) == b.t_affected(i) by {
        if a.t_affected(i) {
            let d = choose|d: u32| a.dirty_t(d) && a.in_subtree(d, i);
            lemma_in_subtree_same(a, b, d, i);
            assert(b.dirty_t(d) && b.in_subtree(d, i));
        }
        if b.t_affected(i) {
            let d = choose|d: u32| b.dirty_t(d) && b.in_subtree(d, i);
            lemma_in_subtree_same(a, b, d, i);
            assert(a.dirty_t(d) && a.in_subtree(d, i));
        }
    }
    assert forall|i: u32| #[trigger] a.o_affected(i) == b.o_affected(i) by {
        if a.o_affected(i) {
            let d = choose|d: u32| a.dirty_o(d) && a.in_subtree(d, i);
            lemma_in_subtree_same(a, b, d, i);
            assert(b.dirty_o(d) && b.in_subtree(d, i));
        }
        if b.o_affected(i) {
            let d = choose|d: u32| b.dirty_o(d) && b.in_subtree(d, i);
            lemma_in_subtree_same(a, b, d, i);
            assert(a.dirty_o(d) && a.in_subtree(d, i));
        }
    }
}


/// A store whose computed arrays moved (same lengths) is still well-formed:
/// well-formedness never reads the computed values.
proof fn lemma_wf_computed_only(a: LayerStore, b: LayerStore)
    requires
        a.wf(),
        computed_pass_frame(a, b),
    ensures
        b.wf(),
{
    assert(b.lens_ok());
    lemma_wf_dirty_only(a, b);
}


/// Live slots sit below the slot count: the fact a client needs to connect
/// per-slot clauses (which quantify below the count) to liveness.
pub proof fn lemma_live_in_range(s: LayerStore, i: u32)
    requires
        s.live(i),
    ensures
        i < s.n(),
{
}

/// With nothing marked on a channel (which is exactly what an evaluation
/// leaves behind), the channel's next drain is empty: an evaluation with no
/// intervening mutations produces empty change lists.
pub proof fn lemma_quiescent_drain(s: LayerStore, t: Seq<u32>)
    requires
        forall|d: u32| d < s.n() ==> !(#[trigger] s.dirty_t(d)),
        forall|d: u32| d < s.n() ==> !(#[trigger] s.dirty_o(d)),
    ensures
        t.filter(|i: u32| s.t_affected(i)) == Seq::<u32>::empty(),
        t.filter(|i: u32| s.o_affected(i)) == Seq::<u32>::empty(),
    decreases t.len(),
{
    assert forall|i: u32| !(#[trigger] s.t_affected(i)) by {
        if s.t_affected(i) {
            let d = choose|d: u32| s.dirty_t(d) && s.in_subtree(d, i);
            let q = choose|q: Seq<u32>| s.chain(q) && q[0] == i && q.last() == d;
            assert(s.live(d));
            assert(d < s.n());
        }
    }
    assert forall|i: u32| !(#[trigger] s.o_affected(i)) by {
        if s.o_affected(i) {
            let d = choose|d: u32| s.dirty_o(d) && s.in_subtree(d, i);
            let q = choose|q: Seq<u32>| s.chain(q) && q[0] == i && q.last() == d;
            assert(s.live(d));
            assert(d < s.n());
        }
    }
    reveal(Seq::filter);
    if t.len() > 0 {
        lemma_quiescent_drain(s, t.drop_last());
    }
}

/// Marking a slot reaches its whole subtree: every layer under a marked
/// slot that the traversal lists is reported by the corresponding drain.
pub proof fn lemma_marked_subtree_reported(s: LayerStore, t: Seq<u32>, d: u32, k: u32)
    requires
        s.in_subtree(d, k),
        t.contains(k),
    ensures
        s.dirty_t(d) ==> t.filter(|i: u32| s.t_affected(i)).contains(k),
        s.dirty_o(d) ==> t.filter(|i: u32| s.o_affected(i)).contains(k),
{
    let j = choose|j: int| 0 <= j < t.len() && t[j] == k;
    if s.dirty_t(d) {
        assert(s.t_affected(k));
        t.lemma_filter_contains(|i: u32| s.t_affected(i), j);
    }
    if s.dirty_o(d) {
        assert(s.o_affected(k));
        t.lemma_filter_contains(|i: u32| s.o_affected(i), j);
    }
}


/// After splicing `c` (a live root) into `p`'s child list immediately
/// before position `ji`, the store is well-formed again.
#[verifier::rlimit(100)]
#[verifier::spinoff_prover]
proof fn lemma_wf_after_insert(a: LayerStore, b: LayerStore, p: u32, s_idx: u32, c: u32, ji: int)
    requires
        a.wf(),
        a.live(p),
        a.live(c),
        a.live(s_idx),
        a.parent_of(c) == INVALID,
        a.parent_of(s_idx) == p,
        c != p,
        !a.in_subtree(c, p),
        b.depth_ok(),
        0 <= ji < a.kids_of(p).len(),
        a.kids_of(p)[ji] == s_idx,
        b.kids@ == a.kids@.insert(p, a.kids_of(p).insert(ji, c)),
        b.parent@ =~= a.parent@.update(c as int, p),
        b.next_sibling@ =~= (if ji > 0 {
            a.next_sibling@.update(a.kids_of(p)[ji - 1] as int, c)
        } else {
            a.next_sibling@
        }).update(c as int, s_idx),
        b.prev_sibling@ =~= a.prev_sibling@.update(s_idx as int, c).update(
            c as int,
            if ji > 0 {
                a.kids_of(p)[ji - 1]
            } else {
                INVALID
            },
        ),
        b.first_child@ =~= (if ji == 0 {
            a.first_child@.update(p as int, c)
        } else {
            a.first_child@
        }),
        b.alive@ == a.alive@,
        b.generation@ == a.generation@,
        b.free_list@ == a.free_list@,
        b.traversal@ == a.traversal@,
        b.traversal_dirty,
        b.local_transform@ == a.local_transform@,
        b.local_opacity@ == a.local_opacity@,
        b.clip@ == a.clip@,
        b.content@ == a.content@,
        b.flags@ == a.flags@,
        b.world_transform@ == a.world_transform@,
        b.effective_opacity@ == a.effective_opacity@,
        b.effective_hidden@ == a.effective_hidden@,
        b.dirty_transform@ == a.dirty_transform@,
        b.dirty_opacity@ == a.dirty_opacity@,
        b.dirty_clip@ == a.dirty_clip@,
        b.dirty_content@ == a.dirty_content@,
        b.dirty_topology@ == a.dirty_topology@,
    ensures
        b.wf(),
{
    let oldk = a.kids_of(p);
    let k2 = oldk.insert(ji, c);
    assert(a.kids_ok(p));
    assert(b.n() == a.n());
    assert(forall|i: u32| #[trigger] b.live(i) == a.live(i));
    assert(b.lens_ok());
    assert(a.lens_ok());
    assert(p < a.n());
    assert(forall|m: int| 0 <= m < oldk.len() ==> #[trigger] oldk[m] != c);
    assert(k2.len() == oldk.len() + 1);
    assert(forall|m: int| 0 <= m < ji ==> #[trigger] k2[m] == oldk[m]);
    assert(k2[ji] == c);
    assert(forall|m: int| ji < m < k2.len() ==> #[trigger] k2[m] == oldk[m - 1]);
    assert forall|q: u32| b.live(q) implies #[trigger] b.kids_ok(q) by {
        assert(a.kids_ok(q));
        if q == p {
            assert(k2.no_duplicates()) by {
                assert forall|x: int, y: int| 0 <= x < y < k2.len() implies k2[x] != k2[y] by {
                    if x == ji {
                        assert(k2[y] == oldk[y - 1]);
                    } else if y == ji {
                        assert(k2[x] == oldk[x]);
                    } else {
                        let xo = if x < ji {
                            x
                        } else {
                            x - 1
                        };
                        let yo = if y < ji {
                            y
                        } else {
                            y - 1
                        };
                        assert(k2[x] == oldk[xo] && k2[y] == oldk[yo]);
                        assert(xo < yo);
                    }
                }
            }
            assert forall|j2: int| 0 <= j2 < k2.len() implies b.live(#[trigger] k2[j2])
                && b.parent_of(k2[j2]) == p by {
                if j2 != ji {
                    let jo = if j2 < ji {
                        j2
                    } else {
                        j2 - 1
                    };
                    assert(k2[j2] == oldk[jo]);
                    assert(a.live(oldk[jo]) && a.parent_of(oldk[jo]) == p);
                    assert(oldk[jo] != c);
                }
            }
            assert forall|j2: int|
                0 <= j2 < k2.len() implies b.next_sibling@[#[trigger] k2[j2] as int] == (
            if j2 + 1 < k2.len() {
                k2[j2 + 1]
            } else {
                INVALID
            }) by {
                if j2 == ji {
                    assert(k2[j2] == c);
                    assert(b.next_sibling@[c as int] == s_idx);
                    assert(k2[ji + 1] == oldk[ji]);
                } else if j2 == ji - 1 {
                    assert(k2[j2] == oldk[ji - 1]);
                    assert(b.next_sibling@[oldk[ji - 1] as int] == c);
                } else {
                    let jo = if j2 < ji {
                        j2
                    } else {
                        j2 - 1
                    };
                    assert(k2[j2] == oldk[jo]);
                    assert(oldk[jo] != c);
                    if ji > 0 {
                        assert(oldk[jo] != oldk[ji - 1]);
                    }
                    assert(b.next_sibling@[oldk[jo] as int] == a.next_sibling@[oldk[jo] as int]);
                    if j2 + 1 < k2.len() {
                        if j2 + 1 == ji {
                            assert(jo == ji - 1);
                        } else {
                            let j1o = if j2 + 1 < ji {
                                j2 + 1
                            } else {
                                j2
                            };
                            assert(k2[j2 + 1] == oldk[j1o]);
                        }
                    }
                }
            }
            assert forall|j2: int|
                0 <= j2 < k2.len() implies b.prev_sibling@[#[trigger] k2[j2] as int] == (
            if j2 > 0 {
                k2[j2 - 1]
            } else {
                INVALID
            }) by {
                if j2 == ji {
                    assert(k2[j2] == c);
                } else if j2 == ji + 1 {
                    assert(k2[j2] == oldk[ji]);
                    assert(oldk[ji] == s_idx);
                    assert(b.prev_sibling@[s_idx as int] == c);
                } else {
                    let jo = if j2 < ji {
                        j2
                    } else {
                        j2 - 1
                    };
                    assert(k2[j2] == oldk[jo]);
                    assert(oldk[jo] != c);
                    assert(oldk[jo] != s_idx);
                    assert(b.prev_sibling@[oldk[jo] as int] == a.prev_sibling@[oldk[jo] as int]);
                }
            }
            assert(b.first_child@[p as int] == k2[0]) by {
                if ji == 0 {
                } else {
                    assert(k2[0] == oldk[0]);
                    assert(oldk[0] != c);
                }
            }
        } else {
            assert(b.kids_of(q) == a.kids_of(q));
            let k = a.kids_of(q);
            assert forall|j2: int| 0 <= j2 < k.len() implies b.live(#[trigger] k[j2])
                && b.parent_of(k[j2]) == q && b.next_sibling@[k[j2] as int] == (
            if j2 + 1 < k.len() {
                k[j2 + 1]
            } else {
                INVALID
            }) && b.prev_sibling@[k[j2] as int] == (
            if j2 > 0 {
                k[j2 - 1]
            } else {
                INVALID
            }) by {
                assert(a.live(k[j2]) && a.parent_of(k[j2]) == q);
                assert(k[j2] != c);
                assert(k[j2] != s_idx);
                if ji > 0 {
                    assert(a.parent_of(oldk[ji - 1]) == p);
                    assert(k[j2] != oldk[ji - 1]);
                }
            }
            assert(b.first_child@[q as int] == a.first_child@[q as int]);
        }
    }
    assert(b.links_ok()) by {
        assert forall|q: u32|
            b.live(q) implies (#[trigger] b.parent_of(q) == INVALID || b.live(b.parent_of(q)))
            by {
            if q != c {
                assert(a.parent_of(q) == INVALID || a.live(a.parent_of(q)));
            } else {
                assert(b.parent_of(q) == p);
            }
        }
        assert forall|q: u32|
            b.live(q) && #[trigger] b.parent_of(q) == INVALID implies b.next_sibling@[q as int]
            == INVALID && b.prev_sibling@[q as int] == INVALID by {
            assert(q != c);
            assert(a.parent_of(q) == INVALID);
            assert(a.next_sibling@[q as int] == INVALID);
            assert(a.prev_sibling@[q as int] == INVALID);
            assert(q != s_idx);
            if ji > 0 {
                assert(a.parent_of(oldk[ji - 1]) == p);
                assert(q != oldk[ji - 1]);
            }
        }
        assert forall|q: u32|
            q < b.n() && !b.live(q) implies #[trigger] b.parent_of(q) == INVALID
                && b.first_child@[q as int] == INVALID && b.next_sibling@[q as int] == INVALID
                && b.prev_sibling@[q as int] == INVALID by {
            assert(!a.live(q));
            assert(q != c && q != p && q != s_idx);
            assert(a.parent_of(q) == INVALID);
            assert(a.first_child@[q as int] == INVALID);
            assert(a.next_sibling@[q as int] == INVALID);
            assert(a.prev_sibling@[q as int] == INVALID);
            if ji > 0 {
                assert(a.live(oldk[ji - 1]));
                assert(q != oldk[ji - 1]);
            }
        }
    }
    assert(b.kids_all_ok()) by {
        assert forall|i: u32| b.live(i) implies #[trigger] b.kids@.contains_key(i) by {
            assert(a.kids@.contains_key(i));
        }
        assert forall|c2: u32|
            b.live(c2) && b.parent_of(c2) != INVALID implies #[trigger] b.kids_of(
            b.parent_of(c2),
        ).contains(c2) by {
            if c2 == c {
                assert(b.kids_of(p)[ji] == c);
            } else {
                assert(a.kids_of(a.parent_of(c2)).contains(c2));
                if a.parent_of(c2) == p {
                    let m = choose|m: int| 0 <= m < oldk.len() && oldk[m] == c2;
                    if m < ji {
                        assert(k2[m] == c2);
                    } else {
                        assert(k2[m + 1] == c2);
                    }
                }
            }
        }
    }
    assert(b.free_ok()) by {
        assert forall|j2: int|
            0 <= j2 < b.free_list@.len() implies #[trigger] b.free_list@[j2] < b.n() && !b.live(
            b.free_list@[j2],
        ) by {
            assert(a.free_list@[j2] < a.n() && !a.live(a.free_list@[j2]));
        }
        assert forall|i2: u32|
            i2 < b.n() && !b.live(i2) implies #[trigger] b.free_list@.contains(i2) by {
            assert(a.free_list@.contains(i2));
        }
    }
}


/// A strict subtree member has a live parent that is also in the subtree.
proof fn lemma_subtree_parent_in(s: LayerStore, anc: u32, x: u32)
    requires
        s.lens_ok(),
        s.in_subtree(anc, x),
        x != anc,
    ensures
        s.parent_of(x) != INVALID,
        s.live(s.parent_of(x)),
        s.in_subtree(anc, s.parent_of(x)),
{
    let q = choose|q: Seq<u32>| s.chain(q) && q[0] == x && q.last() == anc;
    assert(q.len() >= 2) by {
        if q.len() == 1 {
            assert(q.last() == x);
        }
    }
    assert(s.parent_of(x) == q[1]);
    assert(s.live(q[1]));
    assert(q[1] < s.n());
    let q3 = q.drop_first();
    assert(s.chain(q3)) by {
        assert forall|m: int| 0 <= m < q3.len() implies s.live(#[trigger] q3[m]) by {
            assert(q3[m] == q[m + 1]);
        }
        assert forall|m: int|
            0 <= m < q3.len() - 1 implies s.parent_of(#[trigger] q3[m]) == q3[m + 1] by {
            assert(q3[m] == q[m + 1] && q3[m + 1] == q[m + 2]);
        }
    }
    assert(q3[0] == s.parent_of(x) && q3.last() == anc);
}

/// A live child of a subtree member is in the subtree.
proof fn lemma_subtree_child(s: LayerStore, anc: u32, px: u32, x: u32)
    requires
        s.in_subtree(anc, px),
        s.live(x),
        s.parent_of(x) == px,
    ensures
        s.in_subtree(anc, x),
{
    let q = choose|q: Seq<u32>| s.chain(q) && q[0] == px && q.last() == anc;
    let q2 = seq![x] + q;
    assert(s.chain(q2)) by {
        assert forall|m: int| 0 <= m < q2.len() implies s.live(#[trigger] q2[m]) by {
            if m > 0 {
                assert(q2[m] == q[m - 1]);
            }
        }
        assert forall|m: int|
            0 <= m < q2.len() - 1 implies s.parent_of(#[trigger] q2[m]) == q2[m + 1] by {
            if m > 0 {
                assert(q2[m] == q[m - 1] && q2[m + 1] == q[m]);
            }
        }
    }
    assert(q2[0] == x && q2.last() == anc);
}

/// Along an upward chain the depth falls by one per step.
proof fn lemma_chain_depth(s: LayerStore, q: Seq<u32>)
    requires
        s.lens_ok(),
        s.depth_ok(),
        s.chain(q),
    ensures
        s.depth_of(q[0]) == s.depth_of(q.last()) + q.len() - 1,
    decreases q.len(),
{
    if q.len() > 1 {
        assert(s.parent_of(q[0]) == q[1]);
        assert(s.live(q[1]));
        assert(q[1] < s.n());
        assert(s.parent_of(q[0]) != INVALID);
        assert(s.depth_of(q[0]) == s.depth_of(q[1]) + 1);
        let q3 = q.drop_first();
        assert(s.chain(q3)) by {
            assert forall|m: int| 0 <= m < q3.len() implies s.live(#[trigger] q3[m]) by {
                assert(q3[m] == q[m + 1]);
            }
            assert forall|m: int|
                0 <= m < q3.len() - 1 implies s.parent_of(#[trigger] q3[m]) == q3[m + 1] by {
                assert(q3[m] == q[m + 1] && q3[m + 1] == q[m + 2]);
            }
        }
        lemma_chain_depth(s, q3);
        assert(q3[0] == q[1] && q3.last() == q.last());
    }
}

/// A subtree member sits at least as deep as the subtree's root.
proof fn lemma_subtree_depth_ge(s: LayerStore, anc: u32, x: u32)
    requires
        s.lens_ok(),
        s.depth_ok(),
        s.in_subtree(anc, x),
    ensures
        s.depth_of(x) >= s.depth_of(anc),
        s.depth_of(x) - s.depth_of(anc) + 1 >= 1,
{
    let q = choose|q: Seq<u32>| s.chain(q) && q[0] == x && q.last() == anc;
    lemma_chain_depth(s, q);
}

/// A live root belongs to no subtree but its own: any chain from it is the
/// one-element chain.
proof fn lemma_root_subtree_self(s: LayerStore, anc: u32, x: u32)
    requires
        s.lens_ok(),
        s.live(x),
        s.parent_of(x) == INVALID,
        s.in_subtree(anc, x),
    ensures
        anc == x,
{
    let q = choose|q: Seq<u32>| s.chain(q) && q[0] == x && q.last() == anc;
    if q.len() >= 2 {
        assert(s.parent_of(q[0]) == q[1]);
        assert(s.live(q[1]));
        assert(q[1] < s.n());
    }
    assert(q.len() == 1);
    assert(q.last() == x);
}

/// Membership in `c`'s subtree ignores `c`'s own parent link: a chain ends
/// at `c`, so only the links of slots before the first occurrence of `c`
/// matter.
proof fn lemma_subtree_of_detached(a: LayerStore, b: LayerStore, c: u32, k: u32)
    requires
        b.alive@ == a.alive@,
        b.parent@.len() == a.parent@.len(),
        forall|i: u32|
            i != c && i < a.parent@.len() ==> #[trigger] b.parent_of(i) == a.parent_of(i),
    ensures
        a.in_subtree(c, k) == b.in_subtree(c, k),
{
    assert(forall|i: u32| #[trigger] a.live(i) == b.live(i));
    if a.in_subtree(c, k) {
        let q = choose|q: Seq<u32>| a.chain(q) && q[0] == k && q.last() == c;
        let q2 = lemma_chain_truncate_at(a, q, c);
        assert(b.chain(q2)) by {
            assert(forall|m: int| 0 <= m < q2.len() ==> b.live(#[trigger] q2[m]) == a.live(q2[m]));
            assert forall|m: int|
                0 <= m < q2.len() - 1 implies b.parent_of(#[trigger] q2[m]) == q2[m + 1] by {
                assert(q2[m] != c);
                assert(a.live(q2[m]));
                assert(q2[m] < a.parent@.len());
                assert(a.parent_of(q2[m]) == q2[m + 1]);
            }
        }
        assert(b.in_subtree(c, k));
    }
    if b.in_subtree(c, k) {
        let q = choose|q: Seq<u32>| b.chain(q) && q[0] == k && q.last() == c;
        let q2 = lemma_chain_truncate_at(b, q, c);
        assert(a.chain(q2)) by {
            assert(forall|m: int| 0 <= m < q2.len() ==> b.live(#[trigger] q2[m]) == a.live(q2[m]));
            assert forall|m: int|
                0 <= m < q2.len() - 1 implies a.parent_of(#[trigger] q2[m]) == q2[m + 1] by {
                assert(q2[m] != c);
                assert(b.live(q2[m]));
                assert(q2[m] < a.parent@.len());
                assert(b.parent_of(q2[m]) == q2[m + 1]);
            }
        }
        assert(a.in_subtree(c, k));
    }
}

/// Cuts a chain ending at `c` down to its first occurrence of `c`: the
/// result is a chain with the same start, ending at `c`, with no interior
/// occurrence of `c`.
proof fn lemma_chain_truncate_at(s: LayerStore, q: Seq<u32>, c: u32) -> (q2: Seq<u32>)
    requires
        s.chain(q),
        q.last() == c,
    ensures
        s.chain(q2),
        q2[0] == q[0],
        q2.last() == c,
        forall|m: int| 0 <= m < q2.len() - 1 ==> #[trigger] q2[m] != c,
    decreases q.len(),
{
    if exists|m: int| 0 <= m < q.len() - 1 && q[m] == c {
        let m = choose|m: int| 0 <= m < q.len() - 1 && q[m] == c;
        let qp = q.subrange(0, m + 1);
        assert(s.chain(qp)) by {
            assert forall|j: int| 0 <= j < qp.len() implies s.live(#[trigger] qp[j]) by {
                assert(qp[j] == q[j]);
            }
            assert forall|j: int|
                0 <= j < qp.len() - 1 implies s.parent_of(#[trigger] qp[j]) == qp[j + 1] by {
                assert(qp[j] == q[j] && qp[j + 1] == q[j + 1]);
            }
        }
        assert(qp.last() == c);
        lemma_chain_truncate_at(s, qp, c)
    } else {
        q
    }
}


/// Attaching the root `c` (previously at depth zero) under `p` sinks `c`'s
/// subtree below its new parent; the adjusted depth witness is consistent.
proof fn lemma_depth_after_attach(a: LayerStore, b: LayerStore, p: u32, c: u32)
    requires
        a.wf(),
        a.live(p),
        a.live(c),
        a.parent_of(c) == INVALID,
        c != p,
        !a.in_subtree(c, p),
        b.parent@ =~= a.parent@.update(c as int, p),
        b.alive@ == a.alive@,
        b.depth@ == Map::new(
            |x: u32| true,
            |x: u32|
                if a.in_subtree(c, x) {
                    (a.depth_of(x) + a.depth_of(p) + 1) as nat
                } else {
                    a.depth_of(x)
                },
        ),
    ensures
        b.depth_ok(),
{
    let dp = a.depth_of(p);
    lemma_in_subtree_refl(a, c);
    assert(a.depth_of(c) == 0);
    assert(b.n() == a.n());
    assert(forall|i: u32| #[trigger] b.live(i) == a.live(i));
    assert forall|x: u32|
        b.live(x) implies (if b.parent_of(x) == INVALID {
        #[trigger] b.depth_of(x) == 0
    } else {
        b.depth_of(x) == b.depth_of(b.parent_of(x)) + 1
    }) by {
        assert(a.live(x));
        if x == c {
            assert(a.in_subtree(c, x));
            assert(b.depth_of(c) == dp + 1);
            assert(b.parent_of(c) == p);
            assert(b.depth_of(p) == dp);
        } else {
            assert(b.parent_of(x) == a.parent_of(x));
            let px = a.parent_of(x);
            assert(if px == INVALID {
                a.depth_of(x) == 0
            } else {
                a.depth_of(x) == a.depth_of(px) + 1
            });
            if a.in_subtree(c, x) {
                lemma_subtree_parent_in(a, c, x);
                assert(px != INVALID && a.in_subtree(c, px));
                assert(b.depth_of(x) == a.depth_of(x) + dp + 1);
                assert(b.depth_of(px) == a.depth_of(px) + dp + 1);
            } else {
                assert(b.depth_of(x) == a.depth_of(x));
                if px != INVALID {
                    assert(!a.in_subtree(c, px)) by {
                        if a.in_subtree(c, px) {
                            lemma_subtree_child(a, c, px, x);
                        }
                    }
                    assert(b.depth_of(px) == a.depth_of(px));
                }
            }
        }
    }
}


/// The exhaustive-walk induction: when every live root is marked, the
/// children of every recorded slot are marked, and every marked slot is
/// recorded, every live slot is recorded. Induction on the slot's depth.
proof fn lemma_live_in_order(s: LayerStore, order: Seq<u32>, seen: Seq<bool>, x: u32)
    requires
        s.wf(),
        seen.len() == s.n(),
        forall|r: u32|
            s.live(r) && s.parent_of(r) == INVALID ==> #[trigger] seen[r as int],
        forall|y: u32| (y as int) < s.n() && #[trigger] seen[y as int] ==> order.contains(y),
        forall|j: int, m: int|
            0 <= j < order.len() && 0 <= m < s.kids_of(order[j]).len() ==> #[trigger] seen[(s.kids_of(order[j])[m]) as int],
        s.live(x),
    ensures
        order.contains(x),
        seen[x as int],
    decreases s.depth_of(x),
{
    let px = s.parent_of(x);
    if px == INVALID {
        assert(seen[x as int]);
    } else {
        assert(s.live(px));
        assert(s.depth_of(x) == s.depth_of(px) + 1);
        lemma_live_in_order(s, order, seen, px);
        let j = choose|j: int| 0 <= j < order.len() && order[j] == px;
        assert(s.kids_of(s.parent_of(x)).contains(x));
        let m = choose|m: int| 0 <= m < s.kids_of(px).len() && s.kids_of(px)[m] == x;
        assert(s.kids_of(order[j])[m] == x);
        assert(seen[x as int]);
    }
}


/// Detaching `idx` from its parent raises `idx`'s subtree to root level;
/// the adjusted depth witness is consistent.
proof fn lemma_depth_after_detach(a: LayerStore, b: LayerStore, idx: u32, p: u32)
    requires
        a.wf(),
        a.live(idx),
        a.parent_of(idx) == p,
        p != INVALID,
        a.live(p),
        b.parent@ =~= a.parent@.update(idx as int, INVALID),
        b.alive@ == a.alive@,
        b.depth@ == Map::new(
            |x: u32| true,
            |x: u32|
                if a.in_subtree(idx, x) {
                    (a.depth_of(x) - a.depth_of(idx)) as nat
                } else {
                    a.depth_of(x)
                },
        ),
    ensures
        b.depth_ok(),
{
    let dk = a.depth_of(idx);
    lemma_in_subtree_refl(a, idx);
    assert(a.depth_of(idx) == a.depth_of(p) + 1);
    assert(b.n() == a.n());
    assert(forall|i: u32| #[trigger] b.live(i) == a.live(i));
    assert forall|x: u32|
        b.live(x) implies (if b.parent_of(x) == INVALID {
        #[trigger] b.depth_of(x) == 0
    } else {
        b.depth_of(x) == b.depth_of(b.parent_of(x)) + 1
    }) by {
        assert(a.live(x));
        if x == idx {
            assert(a.in_subtree(idx, x));
            assert(b.depth_of(x) == 0);
        } else {
            assert(b.parent_of(x) == a.parent_of(x));
            let px = a.parent_of(x);
            assert(if px == INVALID {
                a.depth_of(x) == 0
            } else {
                a.depth_of(x) == a.depth_of(px) + 1
            });
            if a.in_subtree(idx, x) {
                lemma_subtree_parent_in(a, idx, x);
                assert(px != INVALID && a.in_subtree(idx, px));
                lemma_subtree_depth_ge(a, idx, px);
                assert(a.depth_of(px) >= dk);
                assert(b.depth_of(x) == a.depth_of(x) - dk);
                assert(b.depth_of(px) == a.depth_of(px) - dk);
            } else {
                assert(b.depth_of(x) == a.depth_of(x));
                if px != INVALID {
                    assert(!a.in_subtree(idx, px)) by {
                        if a.in_subtree(idx, px) {
                            lemma_subtree_child(a, idx, px, x);
                        }
                    }
                    assert(b.depth_of(px) == a.depth_of(px));
                }
            }
        }
    }
}

} // verus!
