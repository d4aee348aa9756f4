//! Recording a batch of asset handles to wait on, for the deferred spawn
//! batch task.

use vstd::prelude::*;
use crate::scene::{Scene, SceneM};

verus! {

/// Keeps track of the asset handles loaded since its creation, so a deferred
/// batch can wait on all of them before applying its buffered mutations.
pub struct AssetBatch {
    handles: Vec<usize>,
}

impl View for AssetBatch {
    type V = Seq<usize>;

    closed spec fn view(&self) -> Seq<usize> {
        self.handles@
    }
}

impl AssetBatch {
    /// An empty batch tracking no handles.
    pub fn new() -> (b: AssetBatch)
        ensures
            b@ == Seq::<usize>::empty(),
    {
        AssetBatch { handles: Vec::new() }
    }

    /// Requests a new asset load from the scene and tracks its handle.
    pub fn load(&mut self, scene: &mut Scene) -> (h: usize)
        ensures
            h == old(scene)@.assets.len(),
            final(scene)@ == (SceneM {
                assets: old(scene)@.assets.push(false),
                ..old(scene)@
            }),
            final(self)@ == old(self)@.push(h),
    {
        let h = scene.new_asset();
        self.handles.push(h);
        h
    }

    /// Tracks an already-issued handle in this batch.
    pub fn track(&mut self, handle: usize)
        ensures
            final(self)@ == old(self)@.push(handle),
    {
        self.handles.push(handle);
    }

    /// Finishes the batch, returning the handles accumulated.
    pub fn finish(self) -> (hs: Vec<usize>)
        ensures
            hs@ == self@,
    {
        self.handles
    }
}

} // verus!
