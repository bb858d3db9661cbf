//! Grouping sprites by texture for drawing, and the bookkeeping of the
//! texture atlas.

use vstd::prelude::*;
use std::collections::HashMap;
use vstd::std_specs::iter::IteratorSpec;
use vstd::std_specs::hash::spec_keys_iter;

verus! {

broadcast use vstd::std_specs::hash::group_hash_axioms;

/// The first vertex index of quad `i`: `4 * i`, cut to 16 bits as the
/// vertex count is when it is read as an index.
pub open spec fn quad_base(i: int) -> int {
    (4 * i) % 0x10000
}

/// The indices that draw `count` quads as two triangles each: quad `i`
/// uses its vertices `b, b+1, b+2` and `b, b+2, b+3` with `b = quad_base(i)`.
pub open spec fn quad_indices(count: nat) -> Seq<u16>
    decreases count,
{
    if count == 0 {
        Seq::empty()
    } else {
        let b = quad_base(count - 1);
        quad_indices((count - 1) as nat) + seq![
            b as u16,
            (b + 1) as u16,
            (b + 2) as u16,
            b as u16,
            (b + 2) as u16,
            (b + 3) as u16,
        ]
    }
}

/// The indices for `count` quads are six per quad, and those of quad `i`
/// name only its own four vertices.
pub proof fn lemma_quad_indices(count: nat, i: int)
    requires
        0 <= i < count,
    ensures
        quad_indices(count).len() == 6 * count,
        quad_indices(count).subrange(6 * i, 6 * i + 6) == seq![
            quad_base(i) as u16,
            (quad_base(i) + 1) as u16,
            (quad_base(i) + 2) as u16,
            quad_base(i) as u16,
            (quad_base(i) + 2) as u16,
            (quad_base(i) + 3) as u16,
        ],
    decreases count,
{
    lemma_quad_indices_len(count);
    let c1 = (count - 1) as nat;
    lemma_quad_indices_len(c1);
    if i < c1 {
        lemma_quad_indices(c1, i);
        assert(quad_indices(count).subrange(6 * i, 6 * i + 6) =~= quad_indices(c1).subrange(6 * i, 6 * i + 6));
    } else {
        assert(quad_indices(count).subrange(6 * i, 6 * i + 6) =~= seq![
            quad_base(i) as u16,
            (quad_base(i) + 1) as u16,
            (quad_base(i) + 2) as u16,
            quad_base(i) as u16,
            (quad_base(i) + 2) as u16,
            (quad_base(i) + 3) as u16,
        ]);
    }
}

/// Quad 0 starts at vertex 0, and each quad starts four vertices after the
/// one before it, wrapping at 16 bits: the start of quad `i` is the number
/// of vertices of the quads before it, `4 * i`, cut to 16 bits, a multiple
/// of four no greater than 65532.
pub proof fn lemma_quad_base_steps(i: nat)
    ensures
        quad_base(0) == 0,
        quad_base(i + 1int) == (quad_base(i as int) + 4) % 0x10000,
        quad_base(i as int) == (4 * i) % 0x10000,
        quad_base(i as int) % 4 == 0,
        0 <= quad_base(i as int) <= 0xfffc,
{
    assert((4 * (i + 1)) % 0x10000 == ((4 * i) % 0x10000 + 4) % 0x10000 && (4 * i) % 0x10000 % 4 == 0)
        by (nonlinear_arith);
}

/// The six indices of quad `i` among `count` quads are `b, b+1, b+2, b,
/// b+2, b+3` with `b = 4 * i` cut to 16 bits: the quad's own four
/// vertices.
pub proof fn lemma_quad_indices_name_own_vertices(count: nat, i: int)
    requires
        0 <= i < count,
    ensures
        quad_indices(count).len() == 6 * count,
        quad_indices(count)[6 * i] == ((4 * i) % 0x10000) as u16,
        quad_indices(count)[6 * i + 1] == ((4 * i) % 0x10000 + 1) as u16,
        quad_indices(count)[6 * i + 2] == ((4 * i) % 0x10000 + 2) as u16,
        quad_indices(count)[6 * i + 3] == ((4 * i) % 0x10000) as u16,
        quad_indices(count)[6 * i + 4] == ((4 * i) % 0x10000 + 2) as u16,
        quad_indices(count)[6 * i + 5] == ((4 * i) % 0x10000 + 3) as u16,
{
    lemma_quad_indices(count, i);
    let q = quad_indices(count).subrange(6 * i, 6 * i + 6);
    assert(q[0] == quad_indices(count)[6 * i]);
    assert(q[1] == quad_indices(count)[6 * i + 1]);
    assert(q[2] == quad_indices(count)[6 * i + 2]);
    assert(q[3] == quad_indices(count)[6 * i + 3]);
    assert(q[4] == quad_indices(count)[6 * i + 4]);
    assert(q[5] == quad_indices(count)[6 * i + 5]);
}

proof fn lemma_quad_indices_len(count: nat)
    ensures
        quad_indices(count).len() == 6 * count,
    decreases count,
{
    if count > 0 {
        lemma_quad_indices_len((count - 1) as nat);
    }
}

/// The triangle indices for `count` quads.
fn quad_index_buffer(count: usize) -> (r: Vec<u16>)
    ensures
        r@ == quad_indices(count as nat),
{
    let mut indices: Vec<u16> = Vec::new();
    let mut base: u16 = 0;
    let mut i: usize = 0;
    while i < count
        invariant
            i <= count,
            base == quad_base(i as int),
            indices@ == quad_indices(i as nat),
        decreases count - i,
    {
        assert(base % 4 == 0 && base <= 0xfffc) by {
            assert((4 * i) % 0x10000 % 4 == 0) by (nonlinear_arith);
        }
        indices.push(base);
        indices.push(base + 1);
        indices.push(base + 2);
        indices.push(base);
        indices.push(base + 2);
        indices.push(base + 3);
        assert((4 * (i + 1)) % 0x10000 == if base + 4 <= 0xffff { base + 4 } else { base + 4 - 0x10000 })
            by (nonlinear_arith)
            requires
                base == (4 * i) % 0x10000,
        ;
        base = base.wrapping_add(4);
        i = i + 1;
    }
    indices
}

/// Sprites waiting to be drawn, grouped by the id of their texture. Each
/// group keeps the texture handle it was created with and its sprites in
/// the order they were added.
pub struct SpriteBatcher<T, S> {
    batches: HashMap<u32, (T, Vec<S>)>,
}

/// One texture's sprites, taken from a `SpriteBatcher` to be drawn, with
/// the triangle indices of their quads.
pub struct SpriteBatch<T, S> {
    pub key: u32,
    pub texture: T,
    pub sprites: Vec<S>,
    pub indices: Vec<u16>,
}

impl<T, S> View for SpriteBatcher<T, S> {
    type V = Map<u32, (T, Seq<S>)>;

    closed spec fn view(&self) -> Map<u32, (T, Seq<S>)> {
        self.batches@.map_values(|p: (T, Vec<S>)| (p.0, p.1@))
    }
}

/// The groups after adding `data` under `key`: appended to the group of
/// `key` if there is one, else a new group with `texture` and `data`.
pub open spec fn with_sprite<T, S>(groups: Map<u32, (T, Seq<S>)>, key: u32, texture: T, data: S) -> Map<
    u32,
    (T, Seq<S>),
> {
    if groups.contains_key(key) {
        groups.insert(key, (groups[key].0, groups[key].1.push(data)))
    } else {
        groups.insert(key, (texture, seq![data]))
    }
}

impl<T, S> SpriteBatcher<T, S> {
    /// Creates a batcher with no sprites.
    pub fn new() -> (r: Self)
        ensures
            r@ == Map::<u32, (T, Seq<S>)>::empty(),
    {
        let r = SpriteBatcher { batches: HashMap::new() };
        assert(r@ =~= Map::<u32, (T, Seq<S>)>::empty());
        r
    }

    /// Adds a sprite to the group of the texture with id `key`; `texture`
    /// is the handle kept when the group is new.
    pub fn add_sprite(&mut self, key: u32, texture: T, data: S)
        ensures
            final(self)@ == with_sprite(old(self)@, key, texture, data),
    {
        let ghost groups = old(self)@;
        match self.batches.remove(&key) {
            Some(group) => {
                let (kept, mut sprites) = group;
                sprites.push(data);
                self.batches.insert(key, (kept, sprites));
            },
            None => {
                let mut sprites: Vec<S> = Vec::new();
                sprites.push(data);
                self.batches.insert(key, (texture, sprites));
            },
        }
        assert(self@ =~= with_sprite(groups, key, texture, data));
    }
}

/// `batches` holds each group of `groups` once, in some order, with the
/// indices of its quads.
pub open spec fn drained_into<T, S>(groups: Map<u32, (T, Seq<S>)>, batches: Seq<SpriteBatch<T, S>>) -> bool {
    &&& batches.len() == groups.dom().len()
    &&& forall|i: int, j: int|
        0 <= i < j < batches.len() ==> #[trigger] batches[i].key != #[trigger] batches[j].key
    &&& forall|i: int|
        0 <= i < batches.len() ==> {
            &&& groups.contains_key(#[trigger] batches[i].key)
            &&& groups[batches[i].key] == (batches[i].texture, batches[i].sprites@)
            &&& batches[i].indices@ == quad_indices(batches[i].sprites@.len())
        }
    &&& forall|k: u32|
        groups.contains_key(k) ==> exists|i: int| 0 <= i < batches.len() && #[trigger] batches[i].key == k
}

impl<T, S> SpriteBatcher<T, S> {
    /// Takes every group out of the batcher, each with the triangle indices
    /// of its quads, in the order the map walks its keys.
    pub fn flush(&mut self) -> (r: Vec<SpriteBatch<T, S>>)
        ensures
            final(self)@ == Map::<u32, (T, Seq<S>)>::empty(),
            drained_into(old(self)@, r@),
    {
        let ghost groups = old(self)@;
        let ghost ks = spec_keys_iter(&self.batches).remaining();
        let mut keys: Vec<u32> = Vec::new();
        for k in it: self.batches.keys()
            invariant
                it.seq() == ks,
                keys@ == it.seq().take(it.index()).unref(),
        {
            keys.push(*k);
        }
        assert(keys@ == ks.unref());
        assert(keys@.to_set() == groups.dom());
        assert(keys@.no_duplicates());
        let n = keys.len();
        let mut batches: Vec<SpriteBatch<T, S>> = Vec::new();
        let mut i: usize = 0;
        while i < n
            invariant
                i <= n,
                n == keys@.len(),
                keys@.no_duplicates(),
                keys@.to_set() == groups.dom(),
                batches@.len() == i,
                forall|k: u32|
                    #[trigger] self@.contains_key(k) <==> groups.contains_key(k) && !keys@.subrange(
                        0,
                        i as int,
                    ).contains(k),
                forall|k: u32| #[trigger] self@.contains_key(k) ==> self@[k] == groups[k],
                forall|j: int|
                    0 <= j < i ==> {
                        &&& #[trigger] batches@[j].key == keys@[j]
                        &&& groups[keys@[j]] == (batches@[j].texture, batches@[j].sprites@)
                        &&& batches@[j].indices@ == quad_indices(batches@[j].sprites@.len())
                    },
            decreases n - i,
        {
            let key = keys[i];
            proof {
                assert(keys@.to_set().contains(key));
                assert(!keys@.subrange(0, i as int).contains(key)) by {
                    if keys@.subrange(0, i as int).contains(key) {
                        let j = choose|j: int| 0 <= j < i && keys@[j] == key;
                        assert(keys@[j] == keys@[i as int]);
                    }
                }
                assert(self@.contains_key(key));
            }
            let ghost before = self@;
            match self.batches.remove(&key) {
                Some(group) => {
                    let (texture, sprites) = group;
                    let indices = quad_index_buffer(sprites.len());
                    batches.push(SpriteBatch { key, texture, sprites, indices });
                },
                None => {},
            }
            proof {
                assert(self@ =~= before.remove(key));
                let prev = keys@.subrange(0, i as int);
                let next = keys@.subrange(0, i + 1);
                assert forall|k: u32| #[trigger] self@.contains_key(k) <==> groups.contains_key(k)
                    && !next.contains(k) by {
                    if prev.contains(k) {
                        let j = choose|j: int| 0 <= j < prev.len() && prev[j] == k;
                        assert(next[j] == k);
                    }
                    if next.contains(k) && k != key {
                        let j = choose|j: int| 0 <= j < next.len() && next[j] == k;
                        assert(prev[j] == k);
                    }
                    if k == key {
                        assert(next[i as int] == k);
                    }
                }
            }
            i = i + 1;
        }
        proof {
            assert forall|k: u32| !#[trigger] self@.contains_key(k) by {
                if groups.contains_key(k) {
                    assert(keys@.to_set().contains(k));
                    assert(keys@.subrange(0, n as int) =~= keys@);
                }
            }
            assert(self@ =~= Map::<u32, (T, Seq<S>)>::empty());
            keys@.unique_seq_to_set();
            assert forall|k: u32| groups.contains_key(k) implies exists|j: int|
                0 <= j < batches@.len() && #[trigger] batches@[j].key == k by {
                assert(keys@.to_set().contains(k));
                let j = choose|j: int| 0 <= j < keys@.len() && keys@[j] == k;
                assert(batches@[j].key == k);
            }
            assert forall|a: int, b: int| 0 <= a < b < batches@.len() implies #[trigger] batches@[a].key
                != #[trigger] batches@[b].key by {
                assert(batches@[a].key == keys@[a]);
                assert(batches@[b].key == keys@[b]);
            }
            assert forall|a: int| 0 <= a < batches@.len() implies groups.contains_key(#[trigger] batches@[a].key) by {
                assert(batches@[a].key == keys@[a]);
                assert(keys@.to_set().contains(keys@[a]));
            }
        }
        batches
    }
}

/// The groups after adding each `(key, texture, sprite)` of `adds` in turn.
pub open spec fn add_all<T, S>(groups: Map<u32, (T, Seq<S>)>, adds: Seq<(u32, T, S)>) -> Map<
    u32,
    (T, Seq<S>),
>
    decreases adds.len(),
{
    if adds.len() == 0 {
        groups
    } else {
        let a = adds.last();
        with_sprite(add_all(groups, adds.drop_last()), a.0, a.1, a.2)
    }
}

/// The sprites of `adds` added under `key`, in order.
pub open spec fn sprites_for<T, S>(adds: Seq<(u32, T, S)>, key: u32) -> Seq<S>
    decreases adds.len(),
{
    if adds.len() == 0 {
        Seq::empty()
    } else if adds.last().0 == key {
        sprites_for(adds.drop_last(), key).push(adds.last().2)
    } else {
        sprites_for(adds.drop_last(), key)
    }
}

/// The texture handle of the first of `adds` made under `key`.
pub open spec fn first_texture<T, S>(adds: Seq<(u32, T, S)>, key: u32) -> T
    decreases adds.len(),
{
    if adds.len() == 0 {
        arbitrary()
    } else if sprites_for(adds.drop_last(), key).len() > 0 {
        first_texture(adds.drop_last(), key)
    } else {
        adds.last().1
    }
}

/// Starting from an empty batcher, after a series of additions there is a
/// group for exactly the texture ids that were used; each group holds the
/// sprites added under its id in the order they were added, and the
/// texture handle given with the first of them.
pub proof fn lemma_add_all_groups<T, S>(adds: Seq<(u32, T, S)>, key: u32)
    ensures
        add_all(Map::<u32, (T, Seq<S>)>::empty(), adds).contains_key(key) <==> sprites_for(adds, key).len()
            > 0,
        add_all(Map::<u32, (T, Seq<S>)>::empty(), adds).contains_key(key) ==> add_all(
            Map::<u32, (T, Seq<S>)>::empty(),
            adds,
        )[key] == (first_texture(adds, key), sprites_for(adds, key)),
    decreases adds.len(),
{
    if adds.len() > 0 {
        lemma_add_all_groups(adds.drop_last(), key);
    }
}

/// The textures waiting to be packed into the atlas, the atlas itself, and
/// where each packed texture (by id) lies in the atlas.
pub struct Batcher<T, A, R> {
    unbatched: Vec<T>,
    pub atlas: A,
    uv_cache: HashMap<u32, R>,
}

/// What a placement map holds for `id`.
pub open spec fn uv_lookup<R>(placements: Map<u32, R>, id: u32) -> Option<R> {
    if placements.contains_key(id) {
        Some(placements[id])
    } else {
        None
    }
}

impl<T, A, R> Batcher<T, A, R> {
    /// The textures not yet packed, in the order they were added.
    pub closed spec fn unbatched(&self) -> Seq<T> {
        self.unbatched@
    }

    /// Where each packed texture lies in the atlas, by texture id.
    pub closed spec fn placements(&self) -> Map<u32, R> {
        self.uv_cache@
    }

    /// The atlas the textures are packed into.
    pub closed spec fn held_atlas(&self) -> A {
        self.atlas
    }

    /// Creates a batcher around `atlas`, with no textures.
    pub fn new(atlas: A) -> (r: Self)
        ensures
            r.unbatched() == Seq::<T>::empty(),
            r.placements() == Map::<u32, R>::empty(),
            r.held_atlas() == atlas,
    {
        Batcher { unbatched: Vec::new(), atlas, uv_cache: HashMap::new() }
    }

    /// Queues a texture to be packed into the atlas.
    pub fn add_unbatched(&mut self, texture: T)
        ensures
            final(self).unbatched() == old(self).unbatched().push(texture),
            final(self).placements() == old(self).placements(),
            final(self).held_atlas() == old(self).held_atlas(),
    {
        self.unbatched.push(texture);
    }

    /// Where the texture with id `id` lies in the atlas, if it was packed.
    pub fn get(&self, id: u32) -> (r: Option<R>)
        where
            R: Copy,
        ensures
            r == uv_lookup(self.placements(), id),
    {
        match self.uv_cache.get(&id) {
            Some(uv) => Some(*uv),
            None => None,
        }
    }

    /// The queued textures, in the order they were added.
    pub fn queued(&self) -> (r: &Vec<T>)
        ensures
            r@ == self.unbatched(),
    {
        &self.unbatched
    }
}

/// `placements` with each `(id, uv)` of `placed` recorded in turn, a later
/// one for the same id replacing an earlier one.
pub open spec fn record_all<R>(placements: Map<u32, R>, placed: Seq<(u32, R)>) -> Map<u32, R>
    decreases placed.len(),
{
    if placed.len() == 0 {
        placements
    } else {
        record_all(placements, placed.drop_last()).insert(placed.last().0, placed.last().1)
    }
}

/// Finishes packing the queued textures into the atlas: the queue is
/// emptied and where each texture went, `placed` in queue order as
/// `(texture id, uv rectangle)`, is recorded for later lookups.
pub fn build_textures_atlas<T, A, R>(batcher: &mut Batcher<T, A, R>, placed: Vec<(u32, R)>)
    ensures
        final(batcher).unbatched() == Seq::<T>::empty(),
        final(batcher).placements() == record_all(old(batcher).placements(), placed@),
        final(batcher).held_atlas() == old(batcher).held_atlas(),
{
    batcher.unbatched = Vec::new();
    let ghost atlas = batcher.atlas;
    let mut rest = placed;
    let ghost mut taken: Seq<(u32, R)> = Seq::empty();
    let ghost all = rest@;
    let ghost start = batcher.uv_cache@;
    while rest.len() > 0
        invariant
            all == taken + rest@,
            batcher.uv_cache@ == record_all(start, taken),
            batcher.unbatched@ == Seq::<T>::empty(),
            batcher.atlas == atlas,
        decreases rest.len(),
    {
        let (id, uv) = rest.remove(0);
        proof {
            let before = taken;
            taken = taken.push((id, uv));
            assert(taken.drop_last() =~= before);
        }
        batcher.uv_cache.insert(id, uv);
    }
    assert(taken =~= all);
}

/// Recording no placements leaves the placements as they were, so packing
/// an empty queue changes nothing.
pub proof fn lemma_record_nothing<R>(placements: Map<u32, R>)
    ensures
        record_all(placements, Seq::<(u32, R)>::empty()) == placements,
{
}

/// After recording placements, a texture id maps to its last placement in
/// `placed`, or to what it mapped to before if `placed` does not name it.
pub proof fn lemma_record_all_lookup<R>(placements: Map<u32, R>, placed: Seq<(u32, R)>, id: u32)
    ensures
        uv_lookup(record_all(placements, placed), id) == (if exists|i: int| 0 <= i < placed.len() && #[trigger] placed[i].0 == id {
            Some(placed[last_index_of(placed, id)].1)
        } else {
            uv_lookup(placements, id)
        }),
        (exists|i: int| 0 <= i < placed.len() && #[trigger] placed[i].0 == id) ==> 0 <= last_index_of(
            placed,
            id,
        ) < placed.len() && placed[last_index_of(placed, id)].0 == id,
    decreases placed.len(),
{
    if placed.len() > 0 {
        let init = placed.drop_last();
        lemma_record_all_lookup(placements, init, id);
        if placed.last().0 != id {
            if exists|i: int| 0 <= i < placed.len() && #[trigger] placed[i].0 == id {
                let i = choose|i: int| 0 <= i < placed.len() && #[trigger] placed[i].0 == id;
                assert(i < placed.len() - 1);
                assert(init[i].0 == id);
            }
            if exists|i: int| 0 <= i < init.len() && #[trigger] init[i].0 == id {
                let i = choose|i: int| 0 <= i < init.len() && #[trigger] init[i].0 == id;
                assert(placed[i].0 == id);
            }
        } else {
            assert(placed[placed.len() - 1].0 == id);
        }
    }
}

/// The position of the last entry for `id` in `placed`.
pub open spec fn last_index_of<R>(placed: Seq<(u32, R)>, id: u32) -> int
    decreases placed.len(),
{
    if placed.len() == 0 {
        -1
    } else if placed.last().0 == id {
        placed.len() - 1
    } else {
        last_index_of(placed.drop_last(), id)
    }
}

/// A placement recorded for a texture is what a later lookup of that
/// texture finds; lookups of other textures are unchanged.
pub proof fn lemma_cache_then_get<R>(placements: Map<u32, R>, id: u32, uv: R, other: u32)
    ensures
        uv_lookup(placements.insert(id, uv), id) == Some(uv),
        other != id ==> uv_lookup(placements.insert(id, uv), other) == uv_lookup(placements, other),
{
}

} // verus!
