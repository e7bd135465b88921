use crate::graphics::sprite::Allocation;
use vstd::prelude::*;

verus! {

/// The allocation stored last under `name` in `names`, if any.
pub open spec fn lookup(names: Seq<(String, Allocation)>, name: Seq<char>) -> Option<Allocation>
    decreases names.len(),
{
    if names.len() == 0 {
        None
    } else if names.last().0@ == name {
        Some(names.last().1)
    } else {
        lookup(names.drop_last(), name)
    }
}

/// Where an upload to the atlas stands. The atlas layers' space is handed
/// out by the caller's allocators; the atlas decides which to ask and keeps
/// what was placed where.
#[derive(Clone, Copy, Debug, PartialEq, Eq, Structural)]
pub enum AtlasStep {
    /// The image was uploaded before; here is where it is.
    Cached(Allocation),
    /// The image cannot be placed.
    Refused,
    /// Ask the allocator of this layer for room.
    TryLayer(usize),
    /// Ask the allocator of a fresh layer for room.
    TryNewLayer,
    /// The image is placed here: copy its pixels there.
    Placed(Allocation),
}

/// A texture array of square layers holding named images.
pub struct Atlas {
    /// Width and height of each layer.
    pub size: u32,
    /// Number of layers.
    pub layers: usize,
    names: Vec<(String, Allocation)>,
    /// The texture array changed since its bind group was made.
    pub dirty: bool,
}

/// An atlas's layers, names and whether it changed.
pub struct AtlasView {
    pub size: u32,
    pub layers: nat,
    pub names: Seq<(String, Allocation)>,
    pub dirty: bool,
}

impl View for Atlas {
    type V = AtlasView;

    closed spec fn view(&self) -> AtlasView {
        AtlasView { size: self.size, layers: self.layers as nat, names: self.names@, dirty: self.dirty }
    }
}

/// Reading a name gives back the allocation last recorded under it, and
/// recording one name leaves every other name as it was.
pub proof fn lemma_lookup_record(names: Seq<(String, Allocation)>, name: String, a: Allocation, other: Seq<char>)
    ensures
        lookup(names.push((name, a)), name@) == Some(a),
        other != name@ ==> lookup(names.push((name, a)), other) == lookup(names, other),
{
    assert(names.push((name, a)).drop_last() =~= names);
}

/// The first step of an upload: the recorded place of the name, a refusal
/// when the image is larger than a layer, else the first layer's allocator.
pub open spec fn upload_start(v: AtlasView, name: Seq<char>, width: u32, height: u32) -> AtlasStep {
    match lookup(v.names, name) {
        Some(a) => AtlasStep::Cached(a),
        None => if width > v.size || height > v.size {
            AtlasStep::Refused
        } else {
            AtlasStep::TryLayer(0)
        },
    }
}

/// Once an image is placed under a name, uploading that name again gives
/// back the same place without asking any allocator; other names are not
/// affected.
pub proof fn lemma_reupload_cached(v: AtlasView, name: String, a: Allocation, other: Seq<char>, width: u32, height: u32)
    ensures
        upload_start(AtlasView { names: v.names.push((name, a)), ..v }, name@, width, height) == AtlasStep::Cached(a),
        other != name@ ==> upload_start(AtlasView { names: v.names.push((name, a)), ..v }, other, width, height)
            == upload_start(v, other, width, height),
{
    lemma_lookup_record(v.names, name, a, other);
}

impl Atlas {
    /// An atlas of one empty layer of `size` by `size` pixels.
    pub fn new(size: u32) -> (r: Self)
        ensures
            r@.size == size,
            r@.layers == 1,
            r@.names == Seq::<(String, Allocation)>::empty(),
            r@.dirty,
    {
        Atlas { size, layers: 1, names: Vec::new(), dirty: true }
    }

    /// Where the image named `name` was placed, if it was.
    pub fn get(&self, name: &String) -> (r: Option<Allocation>)
        ensures
            r == lookup(self@.names, name@),
    {
        let mut i: usize = self.names.len();
        proof {
            assert(self.names@.subrange(0, i as int) =~= self.names@);
        }
        while i > 0
            invariant
                i <= self.names@.len(),
                lookup(self.names@, name@) == lookup(self.names@.subrange(0, i as int), name@),
            decreases i,
        {
            proof {
                let s = self.names@.subrange(0, i as int);
                assert(s.drop_last() =~= self.names@.subrange(0, i - 1));
                assert(s.last() == self.names@[i - 1]);
            }
            if self.names[i - 1].0 == *name {
                return Some(self.names[i - 1].1);
            }
            i -= 1;
        }
        None
    }

    /// Forgets every name; the layers' allocators are emptied by the caller.
    pub fn clear(&mut self)
        ensures
            final(self)@ == (AtlasView { names: Seq::empty(), ..old(self)@ }),
    {
        self.names = Vec::new();
    }

    /// The first step of uploading an image of `width` by `height` named
    /// `name`: its place if it is already here, a refusal if it is larger
    /// than a layer, else a request to the first layer's allocator.
    pub fn start_upload(&self, name: &String, width: u32, height: u32) -> (r: AtlasStep)
        ensures
            r == upload_start(self@, name@, width, height),
    {
        match self.get(name) {
            Some(a) => AtlasStep::Cached(a),
            None => {
                if width > self.size || height > self.size {
                    AtlasStep::Refused
                } else {
                    AtlasStep::TryLayer(0)
                }
            },
        }
    }

    /// The answer of layer `layer`'s allocator for the image named `name`:
    /// the corner it found, or none. A corner places the image there, on that
    /// layer, and records the name; no room sends the request to the next
    /// layer, or to a fresh one after the last.
    pub fn layer_tried(
        &mut self,
        name: String,
        width: u32,
        height: u32,
        layer: usize,
        found: Option<(u32, u32)>,
    ) -> (r: AtlasStep)
        requires
            layer < old(self)@.layers,
        ensures
            match found {
                Some((x, y)) => {
                    let a = Allocation { x, y, width, height, layer };
                    &&& r == AtlasStep::Placed(a)
                    &&& final(self)@ == (AtlasView { names: old(self)@.names.push((name, a)), ..old(self)@ })
                },
                None => {
                    &&& r == (if layer + 1 < old(self)@.layers {
                        AtlasStep::TryLayer((layer + 1) as usize)
                    } else {
                        AtlasStep::TryNewLayer
                    })
                    &&& final(self)@ == old(self)@
                },
            },
    {
        match found {
            Some((x, y)) => {
                let a = Allocation { x, y, width, height, layer };
                self.names.push((name, a));
                AtlasStep::Placed(a)
            },
            None => {
                if layer + 1 < self.layers {
                    AtlasStep::TryLayer(layer + 1)
                } else {
                    AtlasStep::TryNewLayer
                }
            },
        }
    }

    /// The answer of a fresh layer's allocator: with room, the layer is
    /// added, the texture array grows (and is marked changed) and the image
    /// is placed on the new layer and recorded; without, the upload fails.
    pub fn new_layer_tried(&mut self, name: String, width: u32, height: u32, found: Option<(u32, u32)>) -> (r:
        AtlasStep)
        requires
            old(self)@.layers < usize::MAX,
        ensures
            match found {
                Some((x, y)) => {
                    let a = Allocation { x, y, width, height, layer: old(self)@.layers as usize };
                    &&& r == AtlasStep::Placed(a)
                    &&& final(self)@ == (AtlasView {
                        layers: old(self)@.layers + 1,
                        names: old(self)@.names.push((name, a)),
                        dirty: true,
                        ..old(self)@
                    })
                },
                None => r == AtlasStep::Refused && final(self)@ == old(self)@,
            },
    {
        match found {
            Some((x, y)) => {
                let layer = self.layers;
                self.layers = self.layers + 1;
                self.grow(1);
                let a = Allocation { x, y, width, height, layer };
                self.names.push((name, a));
                AtlasStep::Placed(a)
            },
            None => AtlasStep::Refused,
        }
    }

    /// After `amount` layers were added, the texture array is made anew with
    /// room for all of them, and its bind group has to follow.
    fn grow(&mut self, amount: usize)
        ensures
            final(self)@ == (AtlasView { dirty: old(self)@.dirty || amount > 0, ..old(self)@ }),
    {
        if amount == 0 {
            return ;
        }
        self.dirty = true;
    }
}

} // verus!
