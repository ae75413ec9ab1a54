//! Pixel-buffer abstraction and the resource table.
//!
//! `ImageResource` is the capability the compositing and rasterizing
//! functions are written against: a width, a height, and a packed RGBA8
//! byte buffer addressed pixel by pixel through 32-bit words. `Image` is
//! the owned in-memory implementation. `ResourceManager` is a
//! generation-checked handle table that owns decoded images and loaded
//! fonts: identifiers are never reused, slots are.
use vstd::prelude::*;

use std::collections::HashSet;

use crate::types::{pack_rgba, word_a, word_b, word_g, word_r};

verus! {

/// The 32-bit pixel word stored at pixel index `i` of a packed RGBA8
/// buffer: four consecutive bytes read as a little-endian word.
pub open spec fn word_at(s: Seq<u8>, i: int) -> u32 {
    pack_rgba(s[4 * i], s[4 * i + 1], s[4 * i + 2], s[4 * i + 3])
}

/// The buffer `s` with the four bytes of pixel `i` replaced by the bytes
/// of the word `p`.
pub open spec fn put_word(s: Seq<u8>, i: int, p: u32) -> Seq<u8> {
    s.update(4 * i, word_r(p)).update(4 * i + 1, word_g(p)).update(4 * i + 2, word_b(p)).update(
        4 * i + 3,
        word_a(p),
    )
}

/// Writing a pixel word changes exactly the four bytes of that pixel:
/// reading the same pixel back gives the word, and every other pixel
/// keeps its word.
pub proof fn lemma_put_word(s: Seq<u8>, i: int, p: u32, j: int)
    requires
        0 <= i,
        4 * i + 4 <= s.len(),
        0 <= j,
        4 * j + 4 <= s.len(),
    ensures
        put_word(s, i, p).len() == s.len(),
        j == i ==> word_at(put_word(s, i, p), j) == p,
        j != i ==> word_at(put_word(s, i, p), j) == word_at(s, j),
{
    if j == i {
        crate::types::lemma_unpack_pack(p);
    }
}

/// A readable, writable view over a packed RGBA8 pixel buffer.
///
/// The three spec functions give the abstract state: the declared extent
/// and the byte contents. `img_wf` ties them together: the buffer holds
/// exactly `width * height` whole 4-byte pixels.
pub trait ImageResource: Sized {
    spec fn spec_width(&self) -> u32;

    spec fn spec_height(&self) -> u32;

    spec fn pixels(&self) -> Seq<u8>;

    fn width(&self) -> (w: u32)
        ensures
            w == self.spec_width(),
    ;

    fn height(&self) -> (h: u32)
        ensures
            h == self.spec_height(),
    ;

    fn get_buf(&self) -> (r: &[u8])
        ensures
            r@ == self.pixels(),
    ;

    /// Reads the whole pixel at pixel index `i` as a packed word.
    fn get_pixel(&self, i: usize) -> (p: u32)
        requires
            self.pixels().len() == 4 * ((self.spec_width() as int) * (self.spec_height() as int)),
            self.pixels().len() <= usize::MAX,
            i < (self.spec_width() as int) * (self.spec_height() as int),
        ensures
            p == word_at(self.pixels(), i as int),
    ;

    /// Overwrites the whole pixel at pixel index `i` with the packed word
    /// `p`, leaving every other byte and the extent unchanged.
    fn set_pixel(&mut self, i: usize, p: u32)
        requires
            old(self).pixels().len() == 4 * ((old(self).spec_width() as int) * (old(
            self,
            ).spec_height() as int)),
            old(self).pixels().len() <= usize::MAX,
            i < (old(self).spec_width() as int) * (old(self).spec_height() as int),
        ensures
            final (self).spec_width() == old(self).spec_width(),
            final (self).spec_height() == old(self).spec_height(),
            final (self).pixels() == put_word(old(self).pixels(), i as int, p),
    ;
}

/// How many whole pixels a buffer's extent declares.
pub open spec fn pixel_count<T: ImageResource>(t: &T) -> int {
    (t.spec_width() as int) * (t.spec_height() as int)
}

/// A buffer is well-formed when it holds exactly `width * height` whole
/// 4-byte pixels (and so fits in memory).
pub open spec fn img_wf<T: ImageResource>(t: &T) -> bool {
    t.pixels().len() == 4 * pixel_count(t) && t.pixels().len() <= usize::MAX
}

/// An owned pixel buffer: `width * height` packed RGBA8 pixels.
pub struct Image {
    buf: Vec<u8>,
    width: u32,
    height: u32,
}

impl Image {
    pub fn new(width: u32, height: u32, buf: Vec<u8>) -> (img: Self)
        requires
            buf@.len() == 4 * ((width as int) * (height as int)),
        ensures
            img_wf(&img),
            img.spec_width() == width,
            img.spec_height() == height,
            img.pixels() == buf@,
    {
        let len: usize = buf.len();
        assert(len <= usize::MAX);
        Self { width, height, buf }
    }

    /// Changes the declared extent in place, keeping the buffer's
    /// leading bytes: the buffer is truncated or zero-padded to the new
    /// size without being replaced, so no reallocation happens while the
    /// existing capacity suffices.
    pub fn resize(&mut self, width: u32, height: u32)
        requires
            4 * ((width as int) * (height as int)) <= usize::MAX,
        ensures
            img_wf(final(self)),
            final(self).spec_width() == width,
            final(self).spec_height() == height,
            final(self).pixels().len() == 4 * ((width as int) * (height as int)),
            forall|i: int|
                0 <= i < final(self).pixels().len() ==> #[trigger] final(self).pixels()[i] == (
                if i < old(self).pixels().len() {
                    old(self).pixels()[i]
                } else {
                    0u8
                }),
    {
        let new_len: usize = (width as usize) * (height as usize) * 4;
        self.buf.resize(new_len, 0u8);
        self.width = width;
        self.height = height;
    }
}

impl ImageResource for Image {
    closed spec fn spec_width(&self) -> u32 {
        self.width
    }

    closed spec fn spec_height(&self) -> u32 {
        self.height
    }

    closed spec fn pixels(&self) -> Seq<u8> {
        self.buf@
    }

    fn width(&self) -> (w: u32) {
        self.width
    }

    fn height(&self) -> (h: u32) {
        self.height
    }

    fn get_buf(&self) -> (r: &[u8]) {
        self.buf.as_slice()
    }

    fn get_pixel(&self, i: usize) -> (p: u32) {
        assert(4 * (i as int) + 4 <= self.pixels().len());
        let base = i * 4;
        let b0 = self.buf[base];
        let b1 = self.buf[base + 1];
        let b2 = self.buf[base + 2];
        let b3 = self.buf[base + 3];
        (b0 as u32) | ((b1 as u32) << 8) | ((b2 as u32) << 16) | ((b3 as u32) << 24)
    }

    fn set_pixel(&mut self, i: usize, p: u32) {
        assert(4 * (i as int) + 4 <= self.pixels().len());
        proof {
            assert((p & 0xff) < 0x100 && ((p >> 8) & 0xff) < 0x100 && ((p >> 16) & 0xff) < 0x100
                && ((p >> 24) & 0xff) < 0x100) by (bit_vector);
        }
        let base = i * 4;
        self.buf[base] = (p & 0xff) as u8;
        self.buf[base + 1] = ((p >> 8) & 0xff) as u8;
        self.buf[base + 2] = ((p >> 16) & 0xff) as u8;
        self.buf[base + 3] = ((p >> 24) & 0xff) as u8;
    }
}

#[verifier::external_type_specification]
#[verifier::external_body]
pub struct ExFont(fontdue::Font);

/// What decoding the given file bytes yields: the decoded width, height
/// and RGBA8 contents, or nothing when the bytes are not a decodable
/// image. The decode depends on the bytes alone, so its result carries
/// this name; the contracts below say no more of it.
pub uninterp spec fn rgba_decode(data: Seq<u8>) -> Option<(u32, u32, Seq<u8>)>;

/// Whether `img` holds exactly the decode result `d`: its width, height
/// and bytes.
pub open spec fn image_matches_decode(img: Image, d: Option<(u32, u32, Seq<u8>)>) -> bool {
    d matches Some(t) && img.spec_width() == t.0 && img.spec_height() == t.1 && img.pixels()
        == t.2
}

/// Relies on image::load_from_memory and image::DynamicImage::to_rgba8:
/// a decodable input yields the decoded image — a top-left-origin,
/// row-major RGBA8 buffer of exactly width * height * 4 bytes — and any
/// other input yields nothing.
#[verifier::external_body]
fn decode_rgba(data: &[u8]) -> (r: Option<Image>)
    ensures
        (r is Some) == (rgba_decode(data@) is Some),
        r matches Some(img) ==> img_wf(&img) && image_matches_decode(img, rgba_decode(data@)),
{
    match image::load_from_memory(data) {
        Ok(decoded) => {
            let rgba = decoded.to_rgba8();
            let width = rgba.width();
            let height = rgba.height();
            Some(Image { width, height, buf: rgba.into_raw() })
        },
        Err(_) => None,
    }
}

/// An opaque, copyable reference to an image entry of a `ResourceManager`,
/// validated by identifier rather than by slot.
#[derive(Copy, Clone, Debug)]
pub struct ImageHandle {
    pub id: usize,
    /// The slot the table stored the image in; meaningful only to the
    /// table that issued the handle.
    pub index: usize,
}

/// An opaque, copyable reference to a font entry of a `ResourceManager`.
#[derive(Copy, Clone, Debug)]
pub struct FontHandle {
    pub id: usize,
    /// The slot the table stored the font in; meaningful only to the
    /// table that issued the handle.
    pub index: usize,
}

/// A generation-checked table of decoded images and loaded fonts.
/// Image-file bytes are decoded here, behind `load_image`; fonts are
/// parsed at the unverified edge and handed in whole through
/// `insert_font`.
///
/// Both resource kinds share one identifier space and one live-identifier
/// set. Identifiers grow monotonically and are never reused; slots are
/// returned to a free list on deletion and reused only by later
/// allocations. Lookup checks the identifier, so a stale handle can never
/// reach a slot that was recycled for a different resource.
pub struct ResourceManager {
    handle_id: usize,
    handles: HashSet<usize>,
    images: Vec<Option<Image>>,
    fonts: Vec<Option<fontdue::Font>>,
    available_image_indexes: Vec<usize>,
    available_font_indexes: Vec<usize>,
    issued_images: Ghost<Map<usize, usize>>,
    issued_fonts: Ghost<Map<usize, usize>>,
}

impl ResourceManager {
    /// The identifiers that are currently live: their handles resolve.
    pub closed spec fn live(&self) -> Set<usize> {
        self.handles@
    }

    /// Every identifier this table has ever issued, live or retired.
    pub closed spec fn issued(&self) -> Set<usize> {
        self.issued_images@.dom().union(self.issued_fonts@.dom())
    }

    /// The identifier the next allocation will take.
    pub closed spec fn next_id(&self) -> usize {
        self.handle_id
    }

    /// The image free-index stack: slots of deleted images, most
    /// recently freed last.
    pub closed spec fn free_image_slots(&self) -> Seq<usize> {
        self.available_image_indexes@
    }

    /// The font free-index stack.
    pub closed spec fn free_font_slots(&self) -> Seq<usize> {
        self.available_font_indexes@
    }

    /// How many image slots the table currently holds.
    pub closed spec fn image_slot_count(&self) -> int {
        self.images@.len() as int
    }

    /// How many font slots the table currently holds.
    pub closed spec fn font_slot_count(&self) -> int {
        self.fonts@.len() as int
    }

    /// The slot the next image allocation fills: the top of the free
    /// list when one is free, else the table's current length — the
    /// table then grows by exactly one slot.
    pub open spec fn next_image_slot(&self) -> int {
        if self.free_image_slots().len() > 0 {
            self.free_image_slots().last() as int
        } else {
            self.image_slot_count()
        }
    }

    /// The slot the next font allocation fills, as `next_image_slot`
    /// chooses for images.
    pub open spec fn next_font_slot(&self) -> int {
        if self.free_font_slots().len() > 0 {
            self.free_font_slots().last() as int
        } else {
            self.font_slot_count()
        }
    }

    /// Whether `h` is an image handle this table issued.
    pub closed spec fn owns_image(&self, h: ImageHandle) -> bool {
        self.issued_images@.dom().contains(h.id) && self.issued_images@[h.id] == h.index
    }

    /// Whether `h` is a font handle this table issued.
    pub closed spec fn owns_font(&self, h: FontHandle) -> bool {
        self.issued_fonts@.dom().contains(h.id) && self.issued_fonts@[h.id] == h.index
    }

    /// The image `h` currently resolves to, if `h` is live.
    pub closed spec fn image_for(&self, h: ImageHandle) -> Option<Image> {
        if self.owns_image(h) && self.handles@.contains(h.id) && h.index < self.images@.len()
            && self.images@[h.index as int] is Some {
            Some(self.images@[h.index as int].unwrap())
        } else {
            None
        }
    }

    /// The font `h` currently resolves to, if `h` is live.
    pub closed spec fn font_for(&self, h: FontHandle) -> Option<fontdue::Font> {
        if self.owns_font(h) && self.handles@.contains(h.id) && h.index < self.fonts@.len()
            && self.fonts@[h.index as int] is Some {
            Some(self.fonts@[h.index as int].unwrap())
        } else {
            None
        }
    }

    /// The table's internal invariant: identifiers are below the counter
    /// and of exactly one kind; live identifiers resolve to distinct
    /// occupied slots; free-listed slots are vacant and listed once.
    pub closed spec fn wf(&self) -> bool {
        &&& forall|id: usize| #[trigger] self.handles@.contains(id) ==> id < self.handle_id
        &&& forall|id: usize|
            #[trigger] self.issued_images@.dom().contains(id) ==> id < self.handle_id
        &&& forall|id: usize|
            #[trigger] self.issued_fonts@.dom().contains(id) ==> id < self.handle_id
        &&& forall|id: usize|
            #[trigger] self.issued_images@.dom().contains(id)
                ==> !self.issued_fonts@.dom().contains(id)
        &&& forall|id: usize|
            #[trigger] self.handles@.contains(id) ==> self.issued_images@.dom().contains(id)
                || self.issued_fonts@.dom().contains(id)
        &&& forall|id: usize|
            self.handles@.contains(id) && #[trigger] self.issued_images@.dom().contains(id) ==> (
            #[trigger] self.issued_images@[id]) < self.images@.len()
                && self.images@[self.issued_images@[id] as int] is Some
        &&& forall|id: usize|
            self.handles@.contains(id) && #[trigger] self.issued_fonts@.dom().contains(id) ==> (
            #[trigger] self.issued_fonts@[id]) < self.fonts@.len()
                && self.fonts@[self.issued_fonts@[id] as int] is Some
        &&& forall|id1: usize, id2: usize|
            self.handles@.contains(id1) && self.handles@.contains(id2) && id1 != id2
                && self.issued_images@.dom().contains(id1) && self.issued_images@.dom().contains(
                id2,
            ) ==> #[trigger] self.issued_images@[id1] != #[trigger] self.issued_images@[id2]
        &&& forall|id1: usize, id2: usize|
            self.handles@.contains(id1) && self.handles@.contains(id2) && id1 != id2
                && self.issued_fonts@.dom().contains(id1) && self.issued_fonts@.dom().contains(id2)
                ==> #[trigger] self.issued_fonts@[id1] != #[trigger] self.issued_fonts@[id2]
        &&& forall|j: int|
            0 <= j < self.available_image_indexes@.len() ==> (
            #[trigger] self.available_image_indexes@[j]) < self.images@.len()
                && self.images@[self.available_image_indexes@[j] as int] is None
        &&& forall|j: int|
            0 <= j < self.available_font_indexes@.len() ==> (
            #[trigger] self.available_font_indexes@[j]) < self.fonts@.len()
                && self.fonts@[self.available_font_indexes@[j] as int] is None
        &&& self.available_image_indexes@.no_duplicates()
        &&& self.available_font_indexes@.no_duplicates()
    }

    /// A handle whose identifier is no longer live resolves to nothing,
    /// whatever slot its index points at: identifier reuse, not slot
    /// reuse, is what lookup checks.
    pub proof fn lemma_stale_handle_never_resolves(&self, h: ImageHandle)
        requires
            !self.live().contains(h.id),
        ensures
            self.image_for(h) is None,
    {
    }

    /// Every identifier the table has issued lies below the allocation
    /// counter, so a later allocation — which takes the counter's value —
    /// can never equal an existing handle's identifier, even when it
    /// reuses that handle's retired slot.
    pub proof fn lemma_issued_ids_below_counter(&self, h: ImageHandle)
        requires
            self.wf(),
            self.owns_image(h),
        ensures
            h.id < self.next_id(),
    {
    }

    pub fn new() -> (r: Self)
        ensures
            r.wf(),
            r.live() == Set::<usize>::empty(),
            r.issued() == Set::<usize>::empty(),
            r.next_id() == 0,
    {
        let r = Self {
            handle_id: 0,
            handles: HashSet::new(),
            images: Vec::new(),
            fonts: Vec::new(),
            available_image_indexes: Vec::new(),
            available_font_indexes: Vec::new(),
            issued_images: Ghost(Map::empty()),
            issued_fonts: Ghost(Map::empty()),
        };
        proof {
            assert(r.issued() =~= Set::<usize>::empty());
        }
        r
    }

    /// Stores a decoded image under a fresh identifier, reusing a vacant
    /// slot when one is free. The fresh identifier differs from every
    /// identifier this table has ever issued.
    pub fn insert_image(&mut self, image: Image) -> (h: ImageHandle)
        requires
            old(self).wf(),
            old(self).next_id() < usize::MAX,
        ensures
            final(self).wf(),
            h.id == old(self).next_id(),
            final(self).next_id() == old(self).next_id() + 1,
            !old(self).issued().contains(h.id),
            final(self).issued() == old(self).issued().insert(h.id),
            final(self).live() == old(self).live().insert(h.id),
            final(self).owns_image(h),
            final(self).image_for(h) == Some(image),
            h.index == old(self).next_image_slot(),
            old(self).free_image_slots().len() > 0 ==> final(self).free_image_slots() == old(
                self,
            ).free_image_slots().drop_last() && final(self).image_slot_count() == old(
                self,
            ).image_slot_count(),
            old(self).free_image_slots().len() == 0 ==> final(self).free_image_slots() == old(
                self,
            ).free_image_slots() && final(self).image_slot_count() == old(self).image_slot_count()
                + 1,
            final(self).free_font_slots() == old(self).free_font_slots(),
            final(self).font_slot_count() == old(self).font_slot_count(),
            forall|h2: ImageHandle|
                #[trigger] old(self).owns_image(h2) ==> final(self).owns_image(h2) && final(self).image_for(h2) == old(self).image_for(h2),
            forall|hf: FontHandle|
                #[trigger] old(self).owns_font(hf) ==> final(self).owns_font(hf) && final(self).font_for(hf) == old(self).font_for(hf),
    {
        let handle_id = self.handle_id;
        self.handle_id = self.handle_id + 1;
        self.handles.insert(handle_id);
        let index = match self.available_image_indexes.pop() {
            Some(i) => i,
            None => self.images.len(),
        };
        if index < self.images.len() {
            self.images[index] = Some(image);
        } else {
            self.images.push(Some(image));
        }
        self.issued_images = Ghost(self.issued_images@.insert(handle_id, index));
        let h = ImageHandle { id: handle_id, index };
        proof {
            assert(final(self).issued() =~= old(self).issued().insert(h.id));
            assert(final(self).live() =~= old(self).live().insert(h.id));
        }
        h
    }

    /// Stores a loaded font under a fresh identifier.
    pub fn insert_font(&mut self, font: fontdue::Font) -> (h: FontHandle)
        requires
            old(self).wf(),
            old(self).next_id() < usize::MAX,
        ensures
            final(self).wf(),
            h.id == old(self).next_id(),
            final(self).next_id() == old(self).next_id() + 1,
            !old(self).issued().contains(h.id),
            final(self).issued() == old(self).issued().insert(h.id),
            final(self).live() == old(self).live().insert(h.id),
            final(self).owns_font(h),
            final(self).font_for(h) == Some(font),
            h.index == old(self).next_font_slot(),
            old(self).free_font_slots().len() > 0 ==> final(self).free_font_slots() == old(
                self,
            ).free_font_slots().drop_last() && final(self).font_slot_count() == old(
                self,
            ).font_slot_count(),
            old(self).free_font_slots().len() == 0 ==> final(self).free_font_slots() == old(
                self,
            ).free_font_slots() && final(self).font_slot_count() == old(self).font_slot_count()
                + 1,
            final(self).free_image_slots() == old(self).free_image_slots(),
            final(self).image_slot_count() == old(self).image_slot_count(),
            forall|h2: FontHandle|
                #[trigger] old(self).owns_font(h2) ==> final(self).owns_font(h2) && final(self).font_for(h2) == old(self).font_for(h2),
            forall|hi: ImageHandle|
                #[trigger] old(self).owns_image(hi) ==> final(self).owns_image(hi) && final(self).image_for(hi) == old(self).image_for(hi),
    {
        let handle_id = self.handle_id;
        self.handle_id = self.handle_id + 1;
        self.handles.insert(handle_id);
        let index = match self.available_font_indexes.pop() {
            Some(i) => i,
            None => self.fonts.len(),
        };
        if index < self.fonts.len() {
            self.fonts[index] = Some(font);
        } else {
            self.fonts.push(Some(font));
        }
        self.issued_fonts = Ghost(self.issued_fonts@.insert(handle_id, index));
        let h = FontHandle { id: handle_id, index };
        proof {
            assert(final(self).issued() =~= old(self).issued().insert(h.id));
            assert(final(self).live() =~= old(self).live().insert(h.id));
        }
        h
    }

    /// Decodes raw image-file bytes and stores the result. Returns the
    /// fresh handle, or nothing when the bytes cannot be decoded, in which
    /// case the table is unchanged.
    pub fn load_image(&mut self, data: &[u8]) -> (r: Option<ImageHandle>)
        requires
            old(self).wf(),
            old(self).next_id() < usize::MAX,
        ensures
            final(self).wf(),
            (r is Some) == (rgba_decode(data@) is Some),
            match r {
                Some(h) => {
                    &&& h.id == old(self).next_id()
                    &&& final(self).next_id() == old(self).next_id() + 1
                    &&& !old(self).issued().contains(h.id)
                    &&& final(self).issued() == old(self).issued().insert(h.id)
                    &&& final(self).live() == old(self).live().insert(h.id)
                    &&& final(self).owns_image(h)
                    &&& h.index == old(self).next_image_slot()
                    &&& final(self).image_for(h) matches Some(img) && img_wf(&img)
                        && image_matches_decode(img, rgba_decode(data@))
                },
                None => *final(self) == *old(self),
            },
            forall|h2: ImageHandle|
                #[trigger] old(self).owns_image(h2) ==> final(self).owns_image(h2) && final(self).image_for(h2) == old(self).image_for(h2),
            forall|hf: FontHandle|
                #[trigger] old(self).owns_font(hf) ==> final(self).owns_font(hf) && final(self).font_for(hf) == old(self).font_for(hf),
    {
        match decode_rgba(data) {
            Some(img) => Some(self.insert_image(img)),
            None => None,
        }
    }

    /// Resolves an image handle. Returns the stored image while the
    /// handle's identifier is live, and nothing once it has been deleted.
    pub fn get_image(&self, handle: ImageHandle) -> (r: Option<&Image>)
        requires
            self.wf(),
            self.owns_image(handle) || !self.live().contains(handle.id),
        ensures
            match r {
                Some(img) => self.live().contains(handle.id) && self.image_for(handle) == Some(
                    *img,
                ),
                None => !self.live().contains(handle.id) && self.image_for(handle) is None,
            },
    {
        if self.handles.contains(&handle.id) {
            Some(self.images[handle.index].as_ref().unwrap())
        } else {
            None
        }
    }

    /// Resolves a font handle, as `get_image` does for images.
    pub fn get_font(&self, handle: FontHandle) -> (r: Option<&fontdue::Font>)
        requires
            self.wf(),
            self.owns_font(handle) || !self.live().contains(handle.id),
        ensures
            match r {
                Some(font) => self.live().contains(handle.id) && self.font_for(handle) == Some(
                    *font,
                ),
                None => !self.live().contains(handle.id) && self.font_for(handle) is None,
            },
    {
        if self.handles.contains(&handle.id) {
            Some(self.fonts[handle.index].as_ref().unwrap())
        } else {
            None
        }
    }

    /// Retires an image handle's identifier for good and returns its slot
    /// to the free list. Deleting a handle whose identifier is not live —
    /// already deleted, or never issued by this table — is a no-op.
    /// Every other handle keeps resolving to unchanged data.
    pub fn delete_image(&mut self, handle: ImageHandle)
        requires
            old(self).wf(),
            old(self).owns_image(handle) || !old(self).live().contains(handle.id),
        ensures
            final(self).wf(),
            final(self).live() == old(self).live().remove(handle.id),
            final(self).issued() == old(self).issued(),
            final(self).next_id() == old(self).next_id(),
            final(self).image_for(handle) is None,
            old(self).live().contains(handle.id) ==> final(self).free_image_slots() == old(
                self,
            ).free_image_slots().push(handle.index),
            !old(self).live().contains(handle.id) ==> final(self).free_image_slots() == old(
                self,
            ).free_image_slots(),
            final(self).image_slot_count() == old(self).image_slot_count(),
            final(self).free_font_slots() == old(self).free_font_slots(),
            final(self).font_slot_count() == old(self).font_slot_count(),
            !old(self).live().contains(handle.id) ==> {
                &&& final(self).live() == old(self).live()
                &&& forall|h2: ImageHandle|
                    #[trigger] final(self).image_for(h2) == old(self).image_for(h2)
                &&& forall|h2: FontHandle|
                    #[trigger] final(self).font_for(h2) == old(self).font_for(h2)
            },
            forall|h2: ImageHandle|
                #[trigger] old(self).owns_image(h2) ==> final(self).owns_image(h2),
            forall|h2: ImageHandle|
                old(self).owns_image(h2) && h2.id != handle.id ==> final(self).image_for(h2) == old(self).image_for(h2),
            forall|hf: FontHandle|
                #[trigger] old(self).owns_font(hf) ==> final(self).owns_font(hf) && final(self).font_for(hf) == old(self).font_for(hf),
    {
        if self.handles.remove(&handle.id) {
            self.images[handle.index] = None;
            self.available_image_indexes.push(handle.index);
        }
        proof {
            if !old(self).handles@.contains(handle.id) {
                assert(self.handles@ =~= old(self).handles@);
            }
        }
    }

    /// Retires a font handle, as `delete_image` does for images.
    pub fn delete_font(&mut self, handle: FontHandle)
        requires
            old(self).wf(),
            old(self).owns_font(handle) || !old(self).live().contains(handle.id),
        ensures
            final(self).wf(),
            final(self).live() == old(self).live().remove(handle.id),
            final(self).issued() == old(self).issued(),
            final(self).next_id() == old(self).next_id(),
            final(self).font_for(handle) is None,
            old(self).live().contains(handle.id) ==> final(self).free_font_slots() == old(
                self,
            ).free_font_slots().push(handle.index),
            !old(self).live().contains(handle.id) ==> final(self).free_font_slots() == old(
                self,
            ).free_font_slots(),
            final(self).font_slot_count() == old(self).font_slot_count(),
            final(self).free_image_slots() == old(self).free_image_slots(),
            final(self).image_slot_count() == old(self).image_slot_count(),
            !old(self).live().contains(handle.id) ==> {
                &&& final(self).live() == old(self).live()
                &&& forall|h2: ImageHandle|
                    #[trigger] final(self).image_for(h2) == old(self).image_for(h2)
                &&& forall|h2: FontHandle|
                    #[trigger] final(self).font_for(h2) == old(self).font_for(h2)
            },
            forall|h2: FontHandle|
                #[trigger] old(self).owns_font(h2) ==> final(self).owns_font(h2),
            forall|h2: FontHandle|
                old(self).owns_font(h2) && h2.id != handle.id ==> final(self).font_for(h2) == old(self).font_for(h2),
            forall|hi: ImageHandle|
                #[trigger] old(self).owns_image(hi) ==> final(self).owns_image(hi) && final(self).image_for(hi) == old(self).image_for(hi),
    {
        if self.handles.remove(&handle.id) {
            self.fonts[handle.index] = None;
            self.available_font_indexes.push(handle.index);
        }
        proof {
            if !old(self).handles@.contains(handle.id) {
                assert(self.handles@ =~= old(self).handles@);
            }
        }
    }
}

} // verus!
