//! The glyph cache: a GPU-resident atlas keyed by (font identity, glyph id,
//! pixel-size bucket), mapping each key to a sub-rectangle of one texture.
//!
//! Keys move Unqueued -> Queued -> Resident. `queue_glyph` records a key for
//! the coming batch; `cache_queued` packs the whole batch into the atlas
//! (shelf packing: left to right along a row, new row below the tallest
//! glyph of the full one). If the batch does not fit in the remaining space,
//! every entry not referenced in the current batch is evicted and the batch
//! is repacked into an empty atlas once; glyphs that still do not fit are
//! reported through an atlas-overflow result and simply stay non-resident,
//! so the caller skips them for the frame instead of failing it.
//! `cache_queued` returns the upload list: the host must write each listed
//! key's rasterized bitmap into the listed region of the texture.

use vstd::prelude::*;

verus! {

/// The identity of a cached glyph bitmap: the (font, pixel size) pair's
/// stable id, the glyph id, and the pixel-size bucket the bitmap was
/// rasterized for.
#[derive(Clone, Copy, PartialEq, Eq, Structural, Debug)]
pub struct CacheKey {
    pub font_id: u64,
    pub glyph: u32,
    pub size: u32,
}

/// A sub-rectangle of the atlas texture, in texels.
#[derive(Clone, Copy, PartialEq, Eq, Structural, Debug)]
pub struct AtlasRect {
    pub x: u32,
    pub y: u32,
    pub width: u32,
    pub height: u32,
}

/// One resident glyph: its key and its atlas region.
#[derive(Clone, Copy, PartialEq, Eq, Structural, Debug)]
pub struct CacheEntry {
    pub key: CacheKey,
    pub rect: AtlasRect,
}

/// One glyph waiting for the next packing pass, with its bitmap size.
#[derive(Clone, Copy, PartialEq, Eq, Structural, Debug)]
pub struct QueuedGlyph {
    pub key: CacheKey,
    pub width: u32,
    pub height: u32,
}

/// One upload the host owes the texture after a packing pass.
#[derive(Clone, Copy, PartialEq, Eq, Structural, Debug)]
pub struct GlyphUpload {
    pub key: CacheKey,
    pub rect: AtlasRect,
}

/// The failure of a packing pass: even an empty atlas cannot hold the whole
/// queued batch. Glyphs that did fit are resident all the same.
#[derive(Clone, Copy, PartialEq, Eq, Structural, Debug)]
pub enum CacheError {
    AtlasOverflow,
}

/// The atlas region of `key`, if it is resident.
pub open spec fn lookup_key(entries: Seq<CacheEntry>, key: CacheKey) -> Option<AtlasRect>
    decreases entries.len(),
{
    if entries.len() == 0 {
        None
    } else if entries[0].key == key {
        Some(entries[0].rect)
    } else {
        lookup_key(entries.drop_first(), key)
    }
}

proof fn lemma_lookup_push(entries: Seq<CacheEntry>, e: CacheEntry, k: CacheKey)
    ensures
        lookup_key(entries.push(e), k) == (if lookup_key(entries, k) is Some {
            lookup_key(entries, k)
        } else if e.key == k {
            Some(e.rect)
        } else {
            None
        }),
    decreases entries.len(),
{
    if entries.len() == 0 {
        assert(entries.push(e) =~= seq![e]);
        assert(seq![e].drop_first() =~= Seq::<CacheEntry>::empty());
        assert(lookup_key(Seq::<CacheEntry>::empty(), k) is None);
        assert(lookup_key(seq![e], k) == (if e.key == k {
            Some(e.rect)
        } else {
            None
        }));
    } else {
        assert(entries.push(e).drop_first() =~= entries.drop_first().push(e));
        assert(entries.push(e)[0] == entries[0]);
        lemma_lookup_push(entries.drop_first(), e, k);
    }
}

proof fn lemma_lookup_none(entries: Seq<CacheEntry>, k: CacheKey)
    requires
        lookup_key(entries, k) is None,
    ensures
        forall|i: int| 0 <= i < entries.len() ==> (#[trigger] entries[i]).key != k,
    decreases entries.len(),
{
    if entries.len() > 0 {
        lemma_lookup_none(entries.drop_first(), k);
        assert forall|i: int| 0 <= i < entries.len() implies (#[trigger] entries[i]).key != k by {
            if i > 0 {
                assert(entries[i] == entries.drop_first()[i - 1]);
            }
        }
    }
}

/// Whether two atlas regions do not overlap.
pub open spec fn rects_disjoint(a: AtlasRect, b: AtlasRect) -> bool {
    a.x + a.width <= b.x || b.x + b.width <= a.x || a.y + a.height <= b.y || b.y + b.height <= a.y
}

pub open spec fn rect_in_atlas(r: AtlasRect, aw: int, ah: int) -> bool {
    r.x + r.width <= aw && r.y + r.height <= ah
}

/// Every resident region lies in the part of the atlas the shelf cursor has
/// already passed: fully above the current row, or in the current row and
/// left of the cursor.
pub open spec fn rect_dominated(r: AtlasRect, nx: int, ny: int, rh: int) -> bool {
    r.y + r.height <= ny || (r.y >= ny && r.y + r.height <= ny + rh && r.x + r.width <= nx)
}

/// Whether a `w x h` bitmap can be placed at the given shelf cursor, either
/// in the current row or at the start of a fresh row below it.
pub open spec fn can_place(w: int, h: int, nx: int, ny: int, rh: int, aw: int, ah: int) -> bool {
    (nx + w <= aw && ny + h <= ah) || (w <= aw && ny + rh + h <= ah)
}

/// The region a `w x h` bitmap gets at the given shelf cursor.
pub open spec fn place_rect(w: int, h: int, nx: int, ny: int, rh: int, aw: int, ah: int) -> AtlasRect {
    if nx + w <= aw && ny + h <= ah {
        AtlasRect { x: nx as u32, y: ny as u32, width: w as u32, height: h as u32 }
    } else {
        AtlasRect { x: 0, y: (ny + rh) as u32, width: w as u32, height: h as u32 }
    }
}

/// The shelf cursor after placing a `w x h` bitmap.
pub open spec fn place_cursor(w: int, h: int, nx: int, ny: int, rh: int, aw: int, ah: int) -> (
    int,
    int,
    int,
) {
    if nx + w <= aw && ny + h <= ah {
        (nx + w, ny, if h > rh {
            h
        } else {
            rh
        })
    } else {
        (w, ny + rh, h)
    }
}

/// Whether the whole list of bitmap sizes packs, in order, from the given
/// shelf cursor.
pub open spec fn fits_all(
    sizes: Seq<(u32, u32)>,
    nx: int,
    ny: int,
    rh: int,
    aw: int,
    ah: int,
) -> bool
    decreases sizes.len(),
{
    if sizes.len() == 0 {
        true
    } else {
        let w = sizes[0].0 as int;
        let h = sizes[0].1 as int;
        can_place(w, h, nx, ny, rh, aw, ah) && {
            let (nx2, ny2, rh2) = place_cursor(w, h, nx, ny, rh, aw, ah);
            fits_all(sizes.drop_first(), nx2, ny2, rh2, aw, ah)
        }
    }
}

/// The bitmap sizes of a queued batch, in queue order.
pub open spec fn sizes_of(queued: Seq<QueuedGlyph>) -> Seq<(u32, u32)> {
    queued.map_values(|q: QueuedGlyph| (q.width, q.height))
}

/// Whether bitmap number `i` of a batch gets a region when the batch is
/// packed greedily, in order, from the given shelf cursor — each bitmap
/// placed where `place_cursor` says if `can_place` allows it, and skipped
/// (cursor unchanged) if not.
pub open spec fn greedy_placed(
    sizes: Seq<(u32, u32)>,
    i: int,
    nx: int,
    ny: int,
    rh: int,
    aw: int,
    ah: int,
) -> bool
    decreases sizes.len(),
{
    if sizes.len() == 0 {
        false
    } else {
        let w = sizes[0].0 as int;
        let h = sizes[0].1 as int;
        let ok = can_place(w, h, nx, ny, rh, aw, ah);
        if i == 0 {
            ok
        } else if ok {
            let (nx2, ny2, rh2) = place_cursor(w, h, nx, ny, rh, aw, ah);
            greedy_placed(sizes.drop_first(), i - 1, nx2, ny2, rh2, aw, ah)
        } else {
            greedy_placed(sizes.drop_first(), i - 1, nx, ny, rh, aw, ah)
        }
    }
}

/// The entries a packing pass's upload list stands for.
pub open spec fn entries_of_uploads(ups: Seq<GlyphUpload>) -> Seq<CacheEntry> {
    ups.map_values(|u: GlyphUpload| CacheEntry { key: u.key, rect: u.rect })
}

/// The glyph atlas and its queue. The atlas texture itself lives with the
/// host; the cache decides what goes where and tells the host what to
/// upload.
pub struct GlyphCache {
    pub atlas_width: u32,
    pub atlas_height: u32,
    pub next_x: u32,
    pub next_y: u32,
    pub row_h: u32,
    pub entries: Vec<CacheEntry>,
    pub queued: Vec<QueuedGlyph>,
}

impl GlyphCache {
    /// The cache's invariant: the cursor is inside the atlas, every resident
    /// region lies inside the atlas, behind the cursor, and apart from every
    /// other; keys are resident at most once and queued at most once.
    pub open spec fn wf(self) -> bool {
        self.next_x <= self.atlas_width && self.next_y + self.row_h <= self.atlas_height && (forall|
            i: int,
        |
            0 <= i < self.entries@.len() ==> rect_in_atlas(
                (#[trigger] self.entries@[i]).rect,
                self.atlas_width as int,
                self.atlas_height as int,
            ) && rect_dominated(
                self.entries@[i].rect,
                self.next_x as int,
                self.next_y as int,
                self.row_h as int,
            )) && (forall|i: int, j: int|
            0 <= i < j < self.entries@.len() ==> (#[trigger] self.entries@[i]).key != (
            #[trigger] self.entries@[j]).key) && (forall|i: int, j: int|
            0 <= i < j < self.entries@.len() ==> rects_disjoint(
                (#[trigger] self.entries@[i]).rect,
                (#[trigger] self.entries@[j]).rect,
            )) && (forall|i: int, j: int|
            0 <= i < j < self.queued@.len() ==> (#[trigger] self.queued@[i]).key != (
            #[trigger] self.queued@[j]).key)
    }

    /// An empty cache over an `atlas_width x atlas_height` texture.
    pub fn new(atlas_width: u32, atlas_height: u32) -> (c: GlyphCache)
        ensures
            c.wf(),
            c.atlas_width == atlas_width,
            c.atlas_height == atlas_height,
            c.entries@.len() == 0,
            c.queued@.len() == 0,
    {
        GlyphCache {
            atlas_width,
            atlas_height,
            next_x: 0,
            next_y: 0,
            row_h: 0,
            entries: Vec::new(),
            queued: Vec::new(),
        }
    }

    /// The texture dimensions the cache was built over.
    pub fn texture_size(&self) -> (r: (u32, u32))
        ensures
            r.0 == self.atlas_width,
            r.1 == self.atlas_height,
    {
        (self.atlas_width, self.atlas_height)
    }

    /// The atlas region of `key`, or `None` while it is not resident.
    /// Querying never evicts anything.
    pub fn rect_for(&self, key: CacheKey) -> (r: Option<AtlasRect>)
        ensures
            r == lookup_key(self.entries@, key),
    {
        let n = self.entries.len();
        let mut i: usize = 0;
        proof {
            assert(self.entries@.skip(0) =~= self.entries@);
        }
        while i < n
            invariant
                0 <= i <= n,
                n == self.entries@.len(),
                lookup_key(self.entries@, key) == lookup_key(self.entries@.skip(i as int), key),
            decreases n - i,
        {
            proof {
                assert(self.entries@.skip(i as int)[0] == self.entries@[i as int]);
                assert(self.entries@.skip(i as int).drop_first() =~= self.entries@.skip(
                    i as int + 1,
                ));
            }
            let e = self.entries[i];
            if e.key.font_id == key.font_id && e.key.glyph == key.glyph && e.key.size == key.size {
                return Some(e.rect);
            }
            i = i + 1;
        }
        proof {
            assert(self.entries@.skip(n as int) =~= Seq::<CacheEntry>::empty());
        }
        None
    }

    /// Whether `key` is in the queued batch.
    fn is_queued(&self, key: CacheKey) -> (b: bool)
        ensures
            b == exists|i: int| 0 <= i < self.queued@.len() && (#[trigger] self.queued@[i]).key == key,
    {
        let n = self.queued.len();
        let mut i: usize = 0;
        while i < n
            invariant
                0 <= i <= n,
                n == self.queued@.len(),
                forall|j: int| 0 <= j < i ==> (#[trigger] self.queued@[j]).key != key,
            decreases n - i,
        {
            let q = self.queued[i];
            if q.key.font_id == key.font_id && q.key.glyph == key.glyph && q.key.size == key.size {
                return true;
            }
            i = i + 1;
        }
        false
    }

    /// Adds `key`, with its bitmap size, to the batch for the next packing
    /// pass. Queueing the same key twice, or a key that is already
    /// resident, is harmless; a resident key keeps its region.
    pub fn queue_glyph(&mut self, key: CacheKey, width: u32, height: u32)
        requires
            old(self).wf(),
        ensures
            final(self).wf(),
            final(self).atlas_width == old(self).atlas_width,
            final(self).atlas_height == old(self).atlas_height,
            final(self).entries@ == old(self).entries@,
            (exists|i: int|
                0 <= i < old(self).queued@.len() && (#[trigger] old(self).queued@[i]).key == key)
                ==> final(self).queued@ == old(self).queued@,
            !(exists|i: int|
                0 <= i < old(self).queued@.len() && (#[trigger] old(self).queued@[i]).key == key)
                ==> final(self).queued@ == old(self).queued@.push(
                QueuedGlyph { key, width, height },
            ),
            exists|i: int|
                0 <= i < final(self).queued@.len() && (#[trigger] final(self).queued@[i]).key
                    == key,
    {
        if self.is_queued(key) {
            return ;
        }
        let ghost oldq = self.queued@;
        self.queued.push(QueuedGlyph { key, width, height });
        proof {
            assert(self.queued@[oldq.len() as int].key == key);
            assert forall|i: int, j: int| 0 <= i < j < self.queued@.len() implies (
            #[trigger] self.queued@[i]).key != (#[trigger] self.queued@[j]).key by {
                if j < oldq.len() {
                    assert(self.queued@[i] == oldq[i] && self.queued@[j] == oldq[j]);
                } else {
                    assert(self.queued@[i] == oldq[i]);
                }
            }
        }
    }

    /// Places one bitmap at the shelf cursor, if it fits, keeping the
    /// invariant. The key must not be resident yet.
    fn place_next(&mut self, key: CacheKey, width: u32, height: u32) -> (r: Option<AtlasRect>)
        requires
            old(self).wf(),
            lookup_key(old(self).entries@, key) is None,
        ensures
            final(self).wf(),
            final(self).atlas_width == old(self).atlas_width,
            final(self).atlas_height == old(self).atlas_height,
            final(self).queued@ == old(self).queued@,
            r is Some <==> can_place(
                width as int,
                height as int,
                old(self).next_x as int,
                old(self).next_y as int,
                old(self).row_h as int,
                old(self).atlas_width as int,
                old(self).atlas_height as int,
            ),
            match r {
                Some(rect) => {
                    &&& rect == place_rect(
                        width as int,
                        height as int,
                        old(self).next_x as int,
                        old(self).next_y as int,
                        old(self).row_h as int,
                        old(self).atlas_width as int,
                        old(self).atlas_height as int,
                    )
                    &&& ({
                        let c = place_cursor(
                            width as int,
                            height as int,
                            old(self).next_x as int,
                            old(self).next_y as int,
                            old(self).row_h as int,
                            old(self).atlas_width as int,
                            old(self).atlas_height as int,
                        );
                        final(self).next_x as int == c.0 && final(self).next_y as int == c.1
                            && final(self).row_h as int == c.2
                    })
                    &&& final(self).entries@ == old(self).entries@.push(
                        CacheEntry { key, rect },
                    )
                },
                None => *final(self) == *old(self),
            },
    {
        let aw = self.atlas_width;
        let ah = self.atlas_height;
        proof {
            lemma_lookup_none(self.entries@, key);
        }
        if self.next_x as u64 + width as u64 <= aw as u64 && self.next_y as u64 + height as u64
            <= ah as u64 {
            let rect = AtlasRect { x: self.next_x, y: self.next_y, width, height };
            let ghost olds = *self;
            self.entries.push(CacheEntry { key, rect });
            self.next_x = self.next_x + width;
            if height > self.row_h {
                self.row_h = height;
            }
            proof {
                assert forall|i: int, j: int| 0 <= i < j < self.entries@.len() implies
                    rects_disjoint(
                    (#[trigger] self.entries@[i]).rect,
                    (#[trigger] self.entries@[j]).rect,
                ) by {
                    if j < olds.entries@.len() {
                    } else {
                        assert(self.entries@[i] == olds.entries@[i]);
                        assert(rect_dominated(
                            olds.entries@[i].rect,
                            olds.next_x as int,
                            olds.next_y as int,
                            olds.row_h as int,
                        ));
                    }
                }
            }
            Some(rect)
        } else if width as u64 <= aw as u64 && self.next_y as u64 + self.row_h as u64 + height
            as u64 <= ah as u64 {
            let ny = self.next_y + self.row_h;
            let rect = AtlasRect { x: 0, y: ny, width, height };
            let ghost olds = *self;
            self.entries.push(CacheEntry { key, rect });
            self.next_x = width;
            self.next_y = ny;
            self.row_h = height;
            proof {
                assert forall|i: int, j: int| 0 <= i < j < self.entries@.len() implies
                    rects_disjoint(
                    (#[trigger] self.entries@[i]).rect,
                    (#[trigger] self.entries@[j]).rect,
                ) by {
                    if j < olds.entries@.len() {
                    } else {
                        assert(self.entries@[i] == olds.entries@[i]);
                        assert(rect_dominated(
                            olds.entries@[i].rect,
                            olds.next_x as int,
                            olds.next_y as int,
                            olds.row_h as int,
                        ));
                    }
                }
            }
            Some(rect)
        } else {
            None
        }
    }

    /// Packs the queued batch into the atlas and empties the queue.
    ///
    /// First the batch is packed into the remaining shelf space, existing
    /// entries untouched. If any queued glyph does not fit, everything not
    /// referenced in the batch is evicted and the batch alone is repacked
    /// into the empty atlas; glyphs that still do not fit stay non-resident
    /// and the pass reports `AtlasOverflow` — which it does only when the
    /// batch provably cannot fit even an empty atlas. On overflow, exactly
    /// the glyphs the greedy shelf packing places (`greedy_placed`) are
    /// resident: partial text is drawn rather than none.
    ///
    /// Returns the uploads the host owes the texture: exactly the regions
    /// that were (re)placed by this pass, appended to (or, after an
    /// eviction, replacing) the resident set.
    pub fn cache_queued(&mut self) -> (r: (Vec<GlyphUpload>, Result<(), CacheError>))
        requires
            old(self).wf(),
        ensures
            final(self).wf(),
            final(self).atlas_width == old(self).atlas_width,
            final(self).atlas_height == old(self).atlas_height,
            final(self).queued@.len() == 0,
            final(self).entries@ == old(self).entries@ + entries_of_uploads(r.0@) || final(self).entries@
                == entries_of_uploads(r.0@),
            r.1 is Ok ==> forall|i: int|
                0 <= i < old(self).queued@.len() ==> lookup_key(
                    final(self).entries@,
                    (#[trigger] old(self).queued@[i]).key,
                ) is Some,
            r.1 is Err ==> !fits_all(
                sizes_of(old(self).queued@),
                0,
                0,
                0,
                old(self).atlas_width as int,
                old(self).atlas_height as int,
            ),
            r.1 is Err ==> forall|i: int|
                0 <= i < old(self).queued@.len() ==> ((lookup_key(
                    final(self).entries@,
                    (#[trigger] old(self).queued@[i]).key,
                ) is Some) == greedy_placed(
                    sizes_of(old(self).queued@),
                    i,
                    0,
                    0,
                    0,
                    old(self).atlas_width as int,
                    old(self).atlas_height as int,
                )),
    {
        let ghost oldq = self.queued@;
        let ghost olde = self.entries@;
        let mut uploads: Vec<GlyphUpload> = Vec::new();
        let n = self.queued.len();
        let mut i: usize = 0;
        let mut need_repack = false;
        while i < n
            invariant
                0 <= i <= n,
                self.wf(),
                self.queued@ == oldq,
                n == oldq.len(),
                self.atlas_width == old(self).atlas_width,
                self.atlas_height == old(self).atlas_height,
                self.entries@ == olde + entries_of_uploads(uploads@),
                forall|k: int|
                    0 <= k < uploads@.len() ==> lookup_key(
                        self.entries@,
                        (#[trigger] uploads@[k]).key,
                    ) == Some(uploads@[k].rect),
                !need_repack ==> forall|j: int|
                    0 <= j < i ==> lookup_key(self.entries@, (#[trigger] oldq[j]).key) is Some,
            decreases n - i,
        {
            let q = self.queued[i];
            match self.rect_for(q.key) {
                Some(_) => {},
                None => {
                    let ghost pre = self.entries@;
                    let ghost pre_ups = uploads@;
                    match self.place_next(q.key, q.width, q.height) {
                        Some(rect) => {
                            uploads.push(GlyphUpload { key: q.key, rect });
                            proof {
                                lemma_lookup_push(pre, CacheEntry { key: q.key, rect }, q.key);
                                assert(entries_of_uploads(uploads@) =~= entries_of_uploads(
                                    pre_ups,
                                ).push(CacheEntry { key: q.key, rect }));
                                assert(self.entries@ =~= olde + entries_of_uploads(uploads@));
                                assert forall|k: int| 0 <= k < uploads@.len() implies lookup_key(
                                    self.entries@,
                                    (#[trigger] uploads@[k]).key,
                                ) == Some(uploads@[k].rect) by {
                                    if k < pre_ups.len() {
                                        lemma_lookup_push(
                                            pre,
                                            CacheEntry { key: q.key, rect },
                                            uploads@[k].key,
                                        );
                                    }
                                }
                                assert forall|j: int| !need_repack && 0 <= j < i + 1 implies
                                    lookup_key(self.entries@, (#[trigger] oldq[j]).key) is Some by {
                                    lemma_lookup_push(
                                        pre,
                                        CacheEntry { key: q.key, rect },
                                        oldq[j].key,
                                    );
                                }
                            }
                        },
                        None => {
                            need_repack = true;
                        },
                    }
                },
            }
            proof {
                if !need_repack {
                    assert forall|j: int| 0 <= j < i + 1 implies lookup_key(
                        self.entries@,
                        (#[trigger] oldq[j]).key,
                    ) is Some by {}
                }
            }
            i = i + 1;
        }
        if !need_repack {
            self.queued = Vec::new();
            return (uploads, Ok(()));
        }
        // Eviction: drop everything not in the batch and repack the batch
        // alone into the empty atlas.
        let mut uploads: Vec<GlyphUpload> = Vec::new();
        self.entries = Vec::new();
        self.next_x = 0;
        self.next_y = 0;
        self.row_h = 0;
        let mut i: usize = 0;
        let mut all_placed = true;
        proof {
            assert(sizes_of(oldq).skip(0) =~= sizes_of(oldq));
            assert(entries_of_uploads(uploads@) =~= Seq::<CacheEntry>::empty());
            assert(self.entries@ =~= entries_of_uploads(uploads@));
        }
        while i < n
            invariant
                0 <= i <= n,
                self.wf(),
                self.queued@ == oldq,
                n == oldq.len(),
                self.atlas_width == old(self).atlas_width,
                self.atlas_height == old(self).atlas_height,
                self.entries@ == entries_of_uploads(uploads@),
                forall|k: int|
                    0 <= k < uploads@.len() ==> lookup_key(
                        self.entries@,
                        (#[trigger] uploads@[k]).key,
                    ) == Some(uploads@[k].rect),
                all_placed ==> forall|j: int|
                    0 <= j < i ==> lookup_key(self.entries@, (#[trigger] oldq[j]).key) is Some,
                all_placed ==> fits_all(
                    sizes_of(oldq),
                    0,
                    0,
                    0,
                    self.atlas_width as int,
                    self.atlas_height as int,
                ) == fits_all(
                    sizes_of(oldq).skip(i as int),
                    self.next_x as int,
                    self.next_y as int,
                    self.row_h as int,
                    self.atlas_width as int,
                    self.atlas_height as int,
                ),
                !all_placed ==> !fits_all(
                    sizes_of(oldq),
                    0,
                    0,
                    0,
                    self.atlas_width as int,
                    self.atlas_height as int,
                ),
                forall|j: int|
                    0 <= j < i ==> ((lookup_key(self.entries@, (#[trigger] oldq[j]).key) is Some)
                        == greedy_placed(
                        sizes_of(oldq),
                        j,
                        0,
                        0,
                        0,
                        self.atlas_width as int,
                        self.atlas_height as int,
                    )),
                forall|j: int|
                    i <= j < n ==> #[trigger] greedy_placed(
                        sizes_of(oldq),
                        j,
                        0,
                        0,
                        0,
                        self.atlas_width as int,
                        self.atlas_height as int,
                    ) == greedy_placed(
                        sizes_of(oldq).skip(i as int),
                        j - i,
                        self.next_x as int,
                        self.next_y as int,
                        self.row_h as int,
                        self.atlas_width as int,
                        self.atlas_height as int,
                    ),
                forall|j: int, k: int|
                    0 <= j < self.entries@.len() && i <= k < n ==> (
                    #[trigger] self.entries@[j]).key != (#[trigger] oldq[k]).key,
            decreases n - i,
        {
            let q = self.queued[i];
            proof {
                assert(sizes_of(oldq).skip(i as int)[0] == sizes_of(oldq)[i as int]);
                assert(sizes_of(oldq)[i as int] == (oldq[i as int].width, oldq[i as int].height));
                assert(sizes_of(oldq).skip(i as int).drop_first() =~= sizes_of(oldq).skip(
                    i as int + 1,
                ));
                lemma_lookup_absent(self.entries@, q.key);
            }
            let ghost pre = self.entries@;
            let ghost pre_ups = uploads@;
            let ghost pre_cursor = (self.next_x as int, self.next_y as int, self.row_h as int);
            match self.place_next(q.key, q.width, q.height) {
                Some(rect) => {
                    uploads.push(GlyphUpload { key: q.key, rect });
                    proof {
                        lemma_lookup_push(pre, CacheEntry { key: q.key, rect }, q.key);
                        assert(entries_of_uploads(uploads@) =~= entries_of_uploads(pre_ups).push(
                            CacheEntry { key: q.key, rect },
                        ));
                        assert(self.entries@ =~= entries_of_uploads(uploads@));
                        assert forall|k: int| 0 <= k < uploads@.len() implies lookup_key(
                            self.entries@,
                            (#[trigger] uploads@[k]).key,
                        ) == Some(uploads@[k].rect) by {
                            if k < pre_ups.len() {
                                lemma_lookup_push(
                                    pre,
                                    CacheEntry { key: q.key, rect },
                                    uploads@[k].key,
                                );
                            }
                        }
                        if all_placed {
                            assert forall|j: int| 0 <= j < i + 1 implies lookup_key(
                                self.entries@,
                                (#[trigger] oldq[j]).key,
                            ) is Some by {
                                lemma_lookup_push(pre, CacheEntry { key: q.key, rect }, oldq[j].key);
                            }
                        }
                        let ghost aw = self.atlas_width as int;
                        let ghost ah = self.atlas_height as int;
                        assert(greedy_placed(
                            sizes_of(oldq).skip(i as int),
                            0,
                            pre_cursor.0,
                            pre_cursor.1,
                            pre_cursor.2,
                            aw,
                            ah,
                        ));
                        assert forall|j: int| 0 <= j < i + 1 implies ((lookup_key(
                            self.entries@,
                            (#[trigger] oldq[j]).key,
                        ) is Some) == greedy_placed(sizes_of(oldq), j, 0, 0, 0, aw, ah)) by {
                            lemma_lookup_push(pre, CacheEntry { key: q.key, rect }, oldq[j].key);
                            if j < i {
                                assert(oldq[j].key != oldq[i as int].key);
                            }
                        }
                        assert forall|j: int| i + 1 <= j < n implies #[trigger] greedy_placed(
                            sizes_of(oldq),
                            j,
                            0,
                            0,
                            0,
                            aw,
                            ah,
                        ) == greedy_placed(
                            sizes_of(oldq).skip(i as int + 1),
                            j - (i + 1),
                            self.next_x as int,
                            self.next_y as int,
                            self.row_h as int,
                            aw,
                            ah,
                        ) by {
                            assert(greedy_placed(sizes_of(oldq), j, 0, 0, 0, aw, ah)
                                == greedy_placed(
                                sizes_of(oldq).skip(i as int),
                                j - i,
                                pre_cursor.0,
                                pre_cursor.1,
                                pre_cursor.2,
                                aw,
                                ah,
                            ));
                        }
                    }
                },
                None => {
                    proof {
                        if all_placed {
                            assert(!fits_all(
                                sizes_of(oldq).skip(i as int),
                                pre_cursor.0,
                                pre_cursor.1,
                                pre_cursor.2,
                                self.atlas_width as int,
                                self.atlas_height as int,
                            ));
                        }
                        let ghost aw = self.atlas_width as int;
                        let ghost ah = self.atlas_height as int;
                        assert(!greedy_placed(
                            sizes_of(oldq).skip(i as int),
                            0,
                            pre_cursor.0,
                            pre_cursor.1,
                            pre_cursor.2,
                            aw,
                            ah,
                        ));
                        assert forall|j: int| 0 <= j < i + 1 implies ((lookup_key(
                            self.entries@,
                            (#[trigger] oldq[j]).key,
                        ) is Some) == greedy_placed(sizes_of(oldq), j, 0, 0, 0, aw, ah)) by {}
                        assert forall|j: int| i + 1 <= j < n implies #[trigger] greedy_placed(
                            sizes_of(oldq),
                            j,
                            0,
                            0,
                            0,
                            aw,
                            ah,
                        ) == greedy_placed(
                            sizes_of(oldq).skip(i as int + 1),
                            j - (i + 1),
                            self.next_x as int,
                            self.next_y as int,
                            self.row_h as int,
                            aw,
                            ah,
                        ) by {
                            assert(greedy_placed(sizes_of(oldq), j, 0, 0, 0, aw, ah)
                                == greedy_placed(
                                sizes_of(oldq).skip(i as int),
                                j - i,
                                pre_cursor.0,
                                pre_cursor.1,
                                pre_cursor.2,
                                aw,
                                ah,
                            ));
                        }
                    }
                    all_placed = false;
                },
            }
            i = i + 1;
        }
        self.queued = Vec::new();
        if all_placed {
            (uploads, Ok(()))
        } else {
            (uploads, Err(CacheError::AtlasOverflow))
        }
    }
}

proof fn lemma_lookup_absent(entries: Seq<CacheEntry>, k: CacheKey)
    requires
        forall|i: int| 0 <= i < entries.len() ==> (#[trigger] entries[i]).key != k,
    ensures
        lookup_key(entries, k) is None,
    decreases entries.len(),
{
    if entries.len() > 0 {
        assert forall|i: int| 0 <= i < entries.drop_first().len() implies (
        #[trigger] entries.drop_first()[i]).key != k by {
            assert(entries.drop_first()[i] == entries[i + 1]);
        }
        lemma_lookup_absent(entries.drop_first(), k);
    }
}

} // verus!
