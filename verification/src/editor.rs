//! What happens to the cache bank in a frame: the lists of features in
//! view are made anew where the view has drifted too far or a refresh was
//! asked for, and the pending caches are refreshed in the order of their
//! dependencies.

use crate::cache::{reads, EditorOsmData, MAX_VIEW_OFFSET};
use crate::data::{
    lemma_closed_ways, merge_store, store_closed, ways_closed, Coordinate, Id, OsmData,
};
use crate::geometry::{Pos2, Vec2};
use crate::model::listed_in;
use crate::osm::Bbox;
use crate::r_star::{nodes_located, ways_located, Aabb};
use crate::refresh::{all_projected, is_all_projected, lemma_filter_ids, ways_projected};
use crate::states::{CacheBitflag, CacheFlag};
use crate::visual::FillMode;
use vstd::prelude::*;

verus! {

/// The view has drifted by more than the threshold in some direction.
pub open spec fn drifted(diff: Vec2) -> bool {
    diff.x > MAX_VIEW_OFFSET || diff.x < -MAX_VIEW_OFFSET || diff.y > MAX_VIEW_OFFSET || diff.y
        < -MAX_VIEW_OFFSET
}

/// Whether the view has drifted by more than the threshold.
pub fn has_drifted(diff: Vec2) -> (r: bool)
    ensures
        r == drifted(diff),
{
    diff.x > MAX_VIEW_OFFSET || diff.x < -MAX_VIEW_OFFSET || diff.y > MAX_VIEW_OFFSET || diff.y
        < -MAX_VIEW_OFFSET
}

/// The corner of `bbox` at its top and left.
pub open spec fn top_left(bbox: Bbox) -> Coordinate {
    Coordinate { lat: bbox.top, lon: bbox.left }
}

/// The corner of `bbox` at its bottom and right.
pub open spec fn bottom_right(bbox: Bbox) -> Coordinate {
    Coordinate { lat: bbox.bottom, lon: bbox.right }
}

/// What a frame did to the lists of features in view.
#[derive(Debug, Clone, Copy, PartialEq, Eq, Structural)]
pub enum FrameOutcome {
    /// The lists were made anew and every cache with them.
    Invalidated,
    /// The lists stayed; pending caches were refreshed, the others moved by
    /// their offsets.
    Moved,
}

impl EditorOsmData {
    /// Where the flags of `before` tell the truth, a refresh of its pending
    /// caches leaves every cache fresh and none pending.
    pub proof fn lemma_refresh_settles<F: Fn(Coordinate) -> Pos2>(
        &self,
        before: &Self,
        project: &F,
        current_pos: Coordinate,
        current_projected: Pos2,
    )
        requires
            self.wf(),
            self.refreshed_from(before, project, current_pos, current_projected),
            before.settled(),
            before.closed(),
        ensures
            self.all_fresh(),
            self.cache_flags.is_clean(),
    {
        let flags = before.cache_flags;
        // what a cache is computed from is pending with it
        assert(reads(CacheFlag::NodeDedup, CacheFlag::NodeOrphan));
        assert(reads(CacheFlag::NodeDedup, CacheFlag::WayArea));
        assert(reads(CacheFlag::NodeProjection, CacheFlag::NodeDedup));
        assert(reads(CacheFlag::WayMeshAndAreaSize, CacheFlag::WayArea));
        assert(reads(CacheFlag::WayMeshAndAreaSize, CacheFlag::NodeProjection));
        assert(reads(CacheFlag::AreaSizeOrdered, CacheFlag::NodeProjection));
        assert(reads(CacheFlag::AreaSizeOrdered, CacheFlag::WayArea));
        assert(self.usage_fresh()) by {
            assert(before.fresh(CacheFlag::NodeUsage) || flags.has(CacheFlag::NodeUsage));
        }
        assert(self.orphans_fresh()) by {
            assert(before.fresh(CacheFlag::NodeOrphan) || flags.has(CacheFlag::NodeOrphan));
        }
        assert(self.way_area_fresh()) by {
            assert(before.fresh(CacheFlag::WayArea) || flags.has(CacheFlag::WayArea));
        }
        assert(self.dedup_fresh()) by {
            assert(before.fresh(CacheFlag::NodeDedup) || flags.has(CacheFlag::NodeDedup));
        }
        assert(self.projection_covers()) by {
            assert(before.fresh(CacheFlag::NodeProjection) || flags.has(CacheFlag::NodeProjection));
            if !flags.has(CacheFlag::NodeProjection) {
                assert(self.projected() == before.projected());
            }
        }
        self.lemma_areas_projected();
        assert(self.meshes_fresh()) by {
            assert(before.fresh(CacheFlag::WayMeshAndAreaSize) || flags.has(
                CacheFlag::WayMeshAndAreaSize,
            ));
            if !flags.has(CacheFlag::WayMeshAndAreaSize) {
                assert(self.meshes() =~= before.meshes());
            }
        }
        assert(self.paint_order_fresh()) by {
            assert(before.fresh(CacheFlag::AreaSizeOrdered) || flags.has(
                CacheFlag::AreaSizeOrdered,
            ));
        }
    }

    /// Asks for the lists of features in view to be made anew in the next
    /// frame.
    pub fn request_view_refresh(&mut self)
        ensures
            *final(self) == (EditorOsmData { refresh_in_view_flag: true, ..*old(self) }),
            final(self).sound(),
    {
        self.refresh_in_view_flag = true;
    }

    /// Takes in features that were fetched, and asks for the lists of
    /// features in view to be made anew.
    pub fn receive_map(&mut self, data: OsmData)
        requires
            old(self).wf(),
            data.wf(),
            data@.nodes.dom().len() > 0 || data@.ways.dom().len() > 0 ==> store_closed(
                merge_store(old(self).data@, data@),
            ),
        ensures
            final(self).wf(),
            final(self).data@ == merge_store(old(self).data@, data@),
            forall|f: CacheFlag|
                #![trigger final(self).cache_flags.has(f)]
                final(self).cache_flags.has(f) == (old(self).cache_flags.has(f) || (
                data@.ways.dom().len() > 0 && crate::cache::way_related(f)) || (
                data@.nodes.dom().len() > 0 && crate::cache::node_related(f))),
            data@.nodes.dom().len() > 0 || data@.ways.dom().len() > 0
                ==> final(self).rtree_data.indexes(final(self).data@),
            data@.nodes.dom().len() == 0 && data@.ways.dom().len() == 0 ==> final(self).rtree_data
                == old(self).rtree_data,
            final(self).refresh_in_view_flag,
            final(self).log() == old(self).log(),
            final(self).same_caches(&EditorOsmData {
                cache_flags: final(self).cache_flags,
                refresh_in_view_flag: true,
                ..*old(self)
            }),
            final(self).sound(),
    {
        self.append_new_nodes_ways(data);
        self.refresh_in_view_flag = true;
    }

    /// Takes in features that were fetched, unless a way would then list a
    /// node that the store does not hold: such a batch is refused and nothing
    /// changes. Says whether the batch was taken in.
    pub fn try_receive_map(&mut self, data: OsmData) -> (taken: bool)
        requires
            old(self).wf(),
            data.wf(),
        ensures
            taken == (data@.nodes.dom().len() == 0 && data@.ways.dom().len() == 0 || store_closed(
                merge_store(old(self).data@, data@),
            )),
            !taken ==> *final(self) == *old(self),
            taken ==> final(self).wf() && final(self).sound() && final(self).refresh_in_view_flag
                && final(self).data@ == merge_store(old(self).data@, data@) && final(self).log()
                == old(self).log(),
            taken ==> forall|f: CacheFlag|
                #![trigger final(self).cache_flags.has(f)]
                final(self).cache_flags.has(f) == (old(self).cache_flags.has(f) || (
                data@.ways.dom().len() > 0 && crate::cache::way_related(f)) || (
                data@.nodes.dom().len() > 0 && crate::cache::node_related(f))),
    {
        if data.is_empty() || self.data.closed_with(&data) {
            self.receive_map(data);
            true
        } else {
            false
        }
    }

    /// Notes a change of the fill mode: the meshes are needed for the full
    /// fill only, so coming into it marks them as pending.
    pub fn note_fill_mode(&mut self, before: FillMode, now: FillMode)
        ensures
            forall|f: CacheFlag|
                final(self).cache_flags.has(f) == (old(self).cache_flags.has(f) || (now
                    == FillMode::Full && before != FillMode::Full && f
                    == CacheFlag::WayMeshAndAreaSize)),
            *final(self) == (EditorOsmData { cache_flags: final(self).cache_flags, ..*old(self) }),
            old(self).sound() ==> final(self).sound(),
    {
        let now_full = match now {
            FillMode::Full => true,
            _ => false,
        };
        let before_full = match before {
            FillMode::Full => true,
            _ => false,
        };
        if now_full && !before_full {
            self.cache_flags.insert(CacheFlag::WayMeshAndAreaSize);
        }
        proof {
            if old(self).settled() && old(self).closed() {
                assert forall|f: CacheFlag| !self.cache_flags.has(f) implies #[trigger] self.fresh(
                    f,
                ) by {
                    assert(!old(self).cache_flags.has(f));
                    assert(old(self).fresh(f));
                    assert(self.meshes() =~= old(self).meshes());
                    assert(self.projected() == old(self).projected());
                    assert(self.paint_order() == old(self).paint_order());
                    match f {
                        CacheFlag::NodeProjection => {
                            assert(old(self).projection_covers());
                        },
                        CacheFlag::NodeOrphan => {},
                        CacheFlag::NodeDedup => {},
                        CacheFlag::NodeUsage => {
                            assert(old(self).usage_fresh());
                        },
                        CacheFlag::WayArea => {},
                        CacheFlag::WayMeshAndAreaSize => {
                            assert(old(self).meshes_fresh());
                        },
                        CacheFlag::AreaSizeOrdered => {},
                    }
                }
                assert forall|f: CacheFlag, g: CacheFlag|
                    #[trigger] reads(f, g) && self.cache_flags.has(g) implies self.cache_flags.has(
                    f,
                ) by {
                    if g != CacheFlag::WayMeshAndAreaSize {
                        assert(old(self).cache_flags.has(g));
                    }
                }
            }
        }
    }

    /// Whether the lists of features in view are to be made anew: the
    /// store has nodes, and the view has drifted by `drift` too far or a
    /// refresh was asked for.
    pub fn needs_view_refresh(&self, drift: Vec2) -> (r: bool)
        requires
            self.wf(),
        ensures
            r == (self.data@.nodes.dom().len() > 0 && (drifted(drift)
                || self.refresh_in_view_flag)),
    {
        self.data.node_count() > 0 && (has_drifted(drift) || self.refresh_in_view_flag)
    }

    /// Makes the lists of features in view anew for the box `bbox`, takes
    /// `current_pos` as the place where the view stands, answers the request
    /// for a refresh, and marks every cache as pending.
    pub fn invalidate_view(&mut self, bbox: Bbox, current_pos: Coordinate)
        requires
            old(self).wf(),
        ensures
            final(self).wf(),
            final(self).nodes_in_view@ == nodes_located(
                old(self).rtree_data.node_seq(),
                Aabb::spec_from_corners(top_left(bbox), bottom_right(bbox)),
            ),
            final(self).ways_in_view@ == ways_located(
                old(self).rtree_data.way_seq(),
                Aabb::spec_from_corners(top_left(bbox), bottom_right(bbox)),
            ),
            final(self).cache_flags.is_all(),
            *final(self) == (EditorOsmData {
                nodes_in_view: final(self).nodes_in_view,
                ways_in_view: final(self).ways_in_view,
                refresh_in_view_flag: false,
                view_start: current_pos,
                cache_flags: final(self).cache_flags,
                ..*old(self)
            }),
    {
        self.refresh_elements_in_view(
            Coordinate { lat: bbox.top, lon: bbox.left },
            Coordinate { lat: bbox.bottom, lon: bbox.right },
        );
        self.view_start = current_pos;
        self.cache_flags = CacheBitflag::all();
    }

    /// Whether every node of every area has a projected position.
    pub fn are_areas_projected(&self) -> (r: bool)
        requires
            self.wf(),
        ensures
            r == self.areas_projected(),
    {
        let mut i: usize = 0;
        while i < self.way_area.areas.len()
            invariant
                i <= self.way_area.areas@.len(),
                self.wf(),
                forall|a: int|
                    0 <= a < i ==> all_projected(
                        self.projected(),
                        self.data@.ways[#[trigger] self.way_area.areas@[a]].nodes,
                    ),
            decreases self.way_area.areas@.len() - i,
        {
            let way = self.data.way(self.way_area.areas[i]).unwrap();
            if !is_all_projected(&self.projected_nodes, &way.nodes) {
                return false;
            }
            i = i + 1;
        }
        true
    }

    /// Where the way and area cache is fresh and the projection cache
    /// covers the ways in view, every node of every area has a projected
    /// position.
    pub proof fn lemma_areas_projected(&self)
        requires
            self.wf(),
            self.way_area_fresh(),
            self.projection_covers(),
        ensures
            self.areas_projected(),
    {
        let d = self.data@;
        let ways = self.ways_in_view@;
        let areas = self.way_area.areas@;
        lemma_filter_ids(ways, |w: Id| crate::model::way_is_area(d.ways[w]));
        assert forall|a: int| 0 <= a < areas.len() implies all_projected(
            self.projected(),
            d.ways[#[trigger] areas[a]].nodes,
        ) by {
            let w = areas[a];
            assert(areas.contains(w));
            assert(ways.contains(w));
            let m = choose|m: int| 0 <= m < ways.len() && ways[m] == w;
            assert forall|i: int| 0 <= i < d.ways[w].nodes.len() implies self.projected().contains_key(
                #[trigger] d.ways[w].nodes[i],
            ) by {
                assert(d.ways[ways[m]].nodes[i] == d.ways[w].nodes[i]);
                assert(listed_in(d, ways, d.ways[w].nodes[i]));
            }
        }
    }

    /// What a refresh of the pending caches leaves of the bank `before`:
    /// store, index, log and the lists of features in view stay; a cache
    /// that was pending is fresh and the others are as they were, but for
    /// the meshes and the paint order, which stay pending where a node of an
    /// area has no projected position; a cache that moves with the view and
    /// was not pending has its offset, the way from `current` to where
    /// `project` puts the place at which the cache was made.
    pub open spec fn refreshed_from<F: Fn(Coordinate) -> Pos2>(
        &self,
        before: &Self,
        project: &F,
        current_pos: Coordinate,
        current_projected: Pos2,
    ) -> bool {
        &&& self.data == before.data
        &&& self.rtree_data == before.rtree_data
        &&& self.changes == before.changes
        &&& self.nodes_in_view == before.nodes_in_view
        &&& self.ways_in_view == before.ways_in_view
        &&& self.view_start == before.view_start
        &&& self.refresh_in_view_flag == before.refresh_in_view_flag
        &&& forall|f: CacheFlag|
            self.cache_flags.has(f) ==> before.cache_flags.has(f) && (f
                == CacheFlag::WayMeshAndAreaSize || f == CacheFlag::AreaSizeOrdered)
                && !self.areas_projected()
        &&& self.areas_projected() ==> self.cache_flags.is_clean()
        &&& before.cache_flags.has(CacheFlag::NodeUsage) ==> self.usage_fresh()
        &&& !before.cache_flags.has(CacheFlag::NodeUsage) ==> self.node_usage == before.node_usage
        &&& before.cache_flags.has(CacheFlag::NodeOrphan) ==> self.orphans_fresh()
        &&& !before.cache_flags.has(CacheFlag::NodeOrphan) ==> self.orphan_nodes == before.orphan_nodes
        &&& before.cache_flags.has(CacheFlag::WayArea) ==> self.way_area_fresh()
        &&& !before.cache_flags.has(CacheFlag::WayArea) ==> self.way_area == before.way_area
        &&& before.cache_flags.has(CacheFlag::NodeDedup) ==> self.dedup_fresh()
        &&& !before.cache_flags.has(CacheFlag::NodeDedup) ==> self.node_dedup == before.node_dedup
        &&& before.cache_flags.has(CacheFlag::NodeProjection) ==> {
            &&& self.projection_covers()
            &&& self.projected_by(project)
            &&& self.node_start == current_pos
            &&& self.node_offset_move == Vec2::zero()
            &&& self.node_offset_resize == Vec2::zero()
        }
        &&& !before.cache_flags.has(CacheFlag::NodeProjection) ==> {
            &&& self.projected_nodes == before.projected_nodes
            &&& self.node_start == before.node_start
            &&& self.node_offset_resize == before.node_offset_resize
            &&& if before.data@.nodes.dom().len() > 0 {
                exists|start: Pos2|
                    project.ensures((before.node_start,), start)
                        && self.node_offset_move == start.minus(current_projected)
            } else {
                self.node_offset_move == before.node_offset_move
            }
        }
        &&& before.cache_flags.has(CacheFlag::WayMeshAndAreaSize)
            && self.areas_projected() ==> {
            &&& self.meshes_fresh()
            &&& self.mesh_start == current_pos
            &&& self.mesh_offset_move == Vec2::zero()
            &&& self.mesh_offset_resize == Vec2::zero()
        }
        &&& before.cache_flags.has(CacheFlag::WayMeshAndAreaSize)
            && !self.areas_projected() ==> {
            &&& self.way_mesh == before.way_mesh
            &&& self.mesh_start == before.mesh_start
            &&& self.mesh_offset_move == before.mesh_offset_move
            &&& self.mesh_offset_resize == before.mesh_offset_resize
        }
        &&& !before.cache_flags.has(CacheFlag::WayMeshAndAreaSize) ==> {
            &&& self.way_mesh == before.way_mesh
            &&& self.mesh_start == before.mesh_start
            &&& self.mesh_offset_resize == before.mesh_offset_resize
            &&& if before.data@.ways.dom().len() > 0 {
                exists|start: Pos2|
                    project.ensures((before.mesh_start,), start)
                        && self.mesh_offset_move == start.minus(current_projected)
            } else {
                self.mesh_offset_move == before.mesh_offset_move
            }
        }
        &&& before.cache_flags.has(CacheFlag::AreaSizeOrdered) && self.areas_projected()
            ==> self.paint_order_fresh()
        &&& !(before.cache_flags.has(CacheFlag::AreaSizeOrdered)
            && self.areas_projected()) ==> self.area_size_ordered == before.area_size_ordered
    }

    /// Refreshes the pending caches in the order of their ranks, so that
    /// each is made from caches that are fresh.
    /// A cache that moves with the view and is not pending gets its offset
    /// instead: the way from where the view stands now, `current_projected`
    /// on screen, to where the view stood when the cache was made. The
    /// meshes and the paint order stay pending where a node of an area has no
    /// projected position.
    #[verifier::rlimit(40)]
    pub fn refresh_pending<F: Fn(Coordinate) -> Pos2>(
        &mut self,
        project: &F,
        current_pos: Coordinate,
        current_projected: Pos2,
    )
        requires
            old(self).wf(),
            ways_closed(old(self).data@, old(self).ways_in_view@),
            ways_closed(old(self).data@, old(self).way_area.ways@),
            forall|c: Coordinate| project.requires((c,)),
        ensures
            final(self).wf(),
            final(self).refreshed_from(old(self), project, current_pos, current_projected),
    {
        if self.cache_flags.contains(CacheFlag::NodeUsage) {
            self.refresh_node_usage_cache();
        }
        if self.cache_flags.contains(CacheFlag::NodeOrphan) {
            self.refresh_orphan_nodes_cache();
        }
        if self.cache_flags.contains(CacheFlag::WayArea) {
            self.refresh_way_area_cache();
            proof {
                let d = self.data@;
                let ways = self.ways_in_view@;
                let lines = self.way_area.ways@;
                lemma_filter_ids(ways, |w: Id| !crate::model::way_is_area(d.ways[w]));
                assert forall|a: int, i: int|
                    0 <= a < lines.len() && 0 <= i < d.ways[lines[a]].nodes.len()
                    implies d.nodes.contains_key(#[trigger] d.ways[lines[a]].nodes[i]) by {
                    assert(lines.contains(lines[a]));
                    assert(ways.contains(lines[a]));
                    let m = choose|m: int| 0 <= m < ways.len() && ways[m] == lines[a];
                    assert(d.nodes.contains_key(d.ways[ways[m]].nodes[i]));
                }
            }
        }
        if self.cache_flags.contains(CacheFlag::NodeDedup) {
            self.refresh_node_dedup_cache();
        }
        if self.cache_flags.contains(CacheFlag::NodeProjection) {
            self.refresh_projected_nodes_cache(project, current_pos);
        } else if self.data.node_count() > 0 {
            let start = project(self.node_start);
            self.node_offset_move = start.minus(current_projected);
        }
        let ready = if self.cache_flags.contains(CacheFlag::WayMeshAndAreaSize)
            || self.cache_flags.contains(CacheFlag::AreaSizeOrdered) {
            self.are_areas_projected()
        } else {
            true
        };
        if self.cache_flags.contains(CacheFlag::WayMeshAndAreaSize) {
            if ready {
                self.refresh_way_mesh_and_area_size_cache(current_pos);
            }
        } else if self.data.way_count() > 0 {
            let start = project(self.mesh_start);
            self.mesh_offset_move = start.minus(current_projected);
        }
        let ghost meshed = *self;
        if self.cache_flags.contains(CacheFlag::AreaSizeOrdered) {
            if ready {
                self.refresh_area_size_ordered_cache();
            }
        }
        assert(self.meshes() =~= meshed.meshes());
    }

    /// One frame, in a store that holds the nodes that its ways list: the
    /// lists of features in view are made anew for `bbox`
    /// where the store has nodes and the view has drifted too far from where
    /// it stood, or a refresh was asked for; every cache is then pending.
    /// After that the pending caches are refreshed.
    pub fn update<F: Fn(Coordinate) -> Pos2>(
        &mut self,
        project: &F,
        current_pos: Coordinate,
        bbox: Bbox,
    ) -> (r: FrameOutcome)
        requires
            old(self).wf(),
            old(self).data.closed(),
            forall|c: Coordinate| project.requires((c,)),
        ensures
            final(self).wf(),
            final(self).data == old(self).data,
            final(self).rtree_data == old(self).rtree_data,
            final(self).changes == old(self).changes,
            exists|start: Pos2, current: Pos2|
                project.ensures((old(self).view_start,), start) && project.ensures(
                    (current_pos,),
                    current,
                ) && (r == FrameOutcome::Invalidated <==> old(self).data@.nodes.dom().len() > 0 && (
                drifted(start.minus(current)) || old(self).refresh_in_view_flag)),
            r == FrameOutcome::Invalidated ==> {
                &&& final(self).nodes_in_view@ == nodes_located(
                    old(self).rtree_data.node_seq(),
                    Aabb::spec_from_corners(top_left(bbox), bottom_right(bbox)),
                )
                &&& final(self).ways_in_view@ == ways_located(
                    old(self).rtree_data.way_seq(),
                    Aabb::spec_from_corners(top_left(bbox), bottom_right(bbox)),
                )
                &&& final(self).view_start == current_pos
                &&& !final(self).refresh_in_view_flag
                &&& final(self).cache_flags.is_clean()
                &&& final(self).all_fresh()
                &&& final(self).projected_by(project)
                &&& final(self).node_start == current_pos
                &&& final(self).mesh_start == current_pos
                &&& final(self).node_offset_move == Vec2::zero()
                &&& final(self).mesh_offset_move == Vec2::zero()
            },
            r == FrameOutcome::Moved ==> exists|current: Pos2|
                project.ensures((current_pos,), current) && final(self).refreshed_from(
                    old(self),
                    project,
                    current_pos,
                    current,
                ),
            // where the flags told the truth they still do, and unless a
            // refresh of the view is still asked for, every cache is fresh
            old(self).sound() ==> final(self).sound(),
            old(self).sound() && !final(self).refresh_in_view_flag ==> final(self).all_fresh()
                && final(self).cache_flags.is_clean(),
    {
        let current_projected = project(current_pos);
        let mut outcome = FrameOutcome::Moved;
        let start = project(self.view_start);
        let diff = start.minus(current_projected);
        if self.needs_view_refresh(diff) {
            self.invalidate_view(bbox, current_pos);
            outcome = FrameOutcome::Invalidated;
        }
        let ghost mid = *self;
        proof {
            lemma_closed_ways(self.data@, self.ways_in_view@);
            lemma_closed_ways(self.data@, self.way_area.ways@);
        }
        self.refresh_pending(project, current_pos, current_projected);
        proof {
            if outcome == FrameOutcome::Invalidated {
                assert(mid.cache_flags.is_all());
                self.lemma_areas_projected();
                assert(self.settled() && self.closed());
            } else if old(self).sound() && !self.refresh_in_view_flag {
                self.lemma_refresh_settles(old(self), project, current_pos, current_projected);
                assert(self.settled() && self.closed());
            }
        }
        outcome
    }
}

} // verus!
