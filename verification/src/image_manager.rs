//! The images of a game, by number, file and descriptor.

use vstd::prelude::*;
use std::collections::HashSet;
use std::sync::Arc;
use crate::assets::{share, ImageView, RgbaImage};
use crate::composed_descriptor::DescriptorError;
use crate::image_store;
use crate::image_store::{evict_groups, ImageEntry};
use crate::paths;
use crate::paths::is_same_path;
use crate::table;
use crate::table::{Table, TableKey};
use crate::text::same_text;

pub use crate::image_store::ImageId;

verus! {

broadcast use vstd::std_specs::hash::group_hash_axioms;

/// A picture of a file.
#[derive(Debug)]
pub struct ImageKey {
    pub path: String,
    pub frame_index: usize,
}

impl TableKey for ImageKey {
    open spec fn same(&self, other: &Self) -> bool {
        paths::same_path(self.path@, other.path@) && self.frame_index == other.frame_index
    }

    fn is_same(&self, other: &Self) -> (r: bool) {
        self.frame_index == other.frame_index && is_same_path(
            self.path.as_str(),
            other.path.as_str(),
        )
    }
}

/// A composed image: the directory in which its files were looked for, and its
/// descriptor without spaces.
#[derive(Debug)]
pub struct CompositeKey {
    pub append_dir: String,
    pub descriptor: String,
}

impl TableKey for CompositeKey {
    open spec fn same(&self, other: &Self) -> bool {
        self.append_dir@ == other.append_dir@ && self.descriptor@ == other.descriptor@
    }

    fn is_same(&self, other: &Self) -> (r: bool) {
        same_text(self.append_dir.as_str(), other.append_dir.as_str()) && same_text(
            self.descriptor.as_str(),
            other.descriptor.as_str(),
        )
    }
}

/// The path of an album.
impl TableKey for String {
    open spec fn same(&self, other: &Self) -> bool {
        paths::same_path(self@, other@)
    }

    fn is_same(&self, other: &Self) -> (r: bool) {
        is_same_path(self.as_str(), other.as_str())
    }
}

/// A color with its opacity.
#[derive(Debug, Clone, Copy, PartialEq, Eq, Structural)]
pub struct Color {
    pub r: u8,
    pub g: u8,
    pub b: u8,
    pub a: u8,
}

impl TableKey for Color {
    open spec fn same(&self, other: &Self) -> bool {
        *self == *other
    }

    fn is_same(&self, other: &Self) -> (r: bool) {
        *self == *other
    }
}

/// Why an image cannot be had.
#[derive(Debug, Clone, Copy, PartialEq, Eq, Structural)]
pub enum ImageManagerError {
    InvalidImageId(ImageId),
    /// The resource was not found.
    NotFound,
    /// A composed image has one picture alone.
    ComposedFrame(u32),
    Descriptor(DescriptorError),
    /// A composed image without a base needs a size.
    BlankBase,
    BlankSizeOverflow,
    /// An image that is to be drawn is gone.
    MissingImage,
    NoFrames,
    FrameOutOfRange { index: usize, count: usize },
}

/// The images of a game.
#[derive(Debug)]
pub struct ImageManager {
    pub project_dir: String,
    pub current_append_dir: String,
    pub key_to_id: Table<ImageKey, ImageId>,
    /// All pictures of a file, by the file.
    pub g00_album_to_ids: Table<String, Vec<ImageId>>,
    /// Pictures that were drawn over their base.
    pub cg_composite_to_ids: Table<ImageKey, ImageId>,
    pub composite_to_id: Table<CompositeKey, ImageId>,
    pub solid_to_id: Table<Color, ImageId>,
    pub images: Vec<ImageEntry>,
    /// Counts the uses of images.
    pub access_clock: u64,
    pub resident_bytes: usize,
    pub cache_budget_bytes: usize,
}

/// What is known of an image.
#[derive(Debug)]
pub struct DebugImageInfo {
    pub id: ImageId,
    pub width: u32,
    pub height: u32,
    pub version: u64,
    pub source_path: Option<String>,
    pub frame_index: Option<usize>,
    pub composite_append_dir: Option<String>,
    pub composite_descriptor: Option<String>,
}

/// `Arc::strong_count` counts the owners of an image. The one that is asked is
/// among them; how many others there are, the rest of the program decides.
#[verifier::external_body]
fn owners(img: &Arc<RgbaImage>) -> (n: usize)
    ensures
        n >= 1,
{
    Arc::strong_count(img)
}

/// Whether every present image has four bytes per pixel.
pub open spec fn images_wf(images: Seq<ImageEntry>) -> bool {
    forall|i: int|
        0 <= i < images.len() ==> ((#[trigger] images[i]).img matches Some(img) ==> img.wf())
}

pub open spec fn ids_below<K>(entries: Seq<(K, ImageId)>, n: int) -> bool {
    forall|i: int| 0 <= i < entries.len() ==> (#[trigger] entries[i]).1.0 < n
}

pub open spec fn albums_below(entries: Seq<(String, Vec<ImageId>)>, n: int) -> bool {
    forall|i: int, k: int|
        #![trigger entries[i].1@[k]]
        0 <= i < entries.len() && 0 <= k < entries[i].1@.len() ==> entries[i].1@[k].0 < n
}

/// Whether no image belongs to two albums.
pub open spec fn albums_apart(entries: Seq<(String, Vec<ImageId>)>) -> bool {
    forall|a: int, j: int, b: int, k: int|
        #![trigger entries[a].1@[j], entries[b].1@[k]]
        0 <= a < entries.len() && 0 <= j < entries[a].1@.len() && 0 <= b < entries.len() && 0 <= k
            < entries[b].1@.len() && entries[a].1@[j] == entries[b].1@[k] ==> a == b
}

/// The images after the image `id` was used.
pub open spec fn touched(images: Seq<ImageEntry>, clock: u64, id: ImageId) -> Seq<ImageEntry> {
    if image_store::present(images, id) {
        images.update(
            id.0 as int,
            ImageEntry { last_used: clock.wrapping_add(1), ..images[id.0 as int] },
        )
    } else {
        images
    }
}

/// The clock after the image `id` was used.
pub open spec fn clock_after(images: Seq<ImageEntry>, clock: u64, id: ImageId) -> u64 {
    if image_store::present(images, id) {
        clock.wrapping_add(1)
    } else {
        clock
    }
}

impl ImageManager {
    /// The images have their pixels, the tables name places that exist, and no
    /// image belongs to two albums.
    pub open spec fn wf(&self) -> bool {
        &&& images_wf(self.images@)
        &&& self.images@.len() <= u32::MAX
        &&& ids_below(self.key_to_id.entries@, self.images@.len() as int)
        &&& ids_below(self.cg_composite_to_ids.entries@, self.images@.len() as int)
        &&& ids_below(self.composite_to_id.entries@, self.images@.len() as int)
        &&& ids_below(self.solid_to_id.entries@, self.images@.len() as int)
        &&& albums_below(self.g00_album_to_ids.entries@, self.images@.len() as int)
        &&& albums_apart(self.g00_album_to_ids.entries@)
    }

    /// The counted bytes are those of the images.
    pub open spec fn counted(&self) -> bool {
        self.resident_bytes == image_store::bytes_of(self.images@)
    }

    /// Whether the bytes are still counted in full, where they were and the
    /// machine can count them.
    pub open spec fn keeps_count(&self, after: &ImageManager) -> bool {
        self.counted() && image_store::bytes_of(after.images@) <= usize::MAX ==> after.counted()
    }

    /// Whether nothing can be loaded again in the place of the image `id`, so
    /// that it never leaves.
    pub open spec fn unlisted(&self, id: ImageId) -> bool {
        &&& !ids_of(self.key_to_id.entries@).contains(id)
        &&& !ids_of(self.composite_to_id.entries@).contains(id)
        &&& !in_album(self.g00_album_to_ids.entries@, id)
    }

    /// Whether the image `id` is one pixel in a color, and stays.
    pub open spec fn shows_color(&self, color: Color, id: ImageId) -> bool {
        &&& id.0 < self.images@.len()
        &&& (self.images@[id.0 as int].img matches Some(img) && img@ == solid_view(color))
        &&& self.unlisted(id)
    }

    /// Every number in the table of colors shows its color. It holds from the
    /// start, and as long as no such number is replaced.
    pub open spec fn solids_intact(&self) -> bool {
        forall|i: int|
            0 <= i < self.solid_to_id.entries@.len() ==> self.shows_color(
                (#[trigger] self.solid_to_id.entries@[i]).0,
                self.solid_to_id.entries@[i].1,
            )
    }

    /// Whether the colors still show where they did.
    pub open spec fn keeps_solids(&self, after: &ImageManager) -> bool {
        self.wf() && self.solids_intact() ==> after.solids_intact()
    }

    /// Whether nothing but the images, the clock and the counted bytes
    /// differs.
    pub open spec fn same_tables(&self, before: &ImageManager) -> bool {
        *self == (ImageManager {
            images: self.images,
            access_clock: self.access_clock,
            resident_bytes: self.resident_bytes,
            ..*before
        })
    }

    pub fn new(project_dir: String) -> (m: ImageManager)
        ensures
            m.wf(),
            m.counted(),
            m.solids_intact(),
            m.project_dir == project_dir,
            m.current_append_dir@.len() == 0,
            m.images@.len() == 0,
            m.key_to_id.entries@.len() == 0,
            m.g00_album_to_ids.entries@.len() == 0,
            m.cg_composite_to_ids.entries@.len() == 0,
            m.composite_to_id.entries@.len() == 0,
            m.solid_to_id.entries@.len() == 0,
            m.access_clock == 0,
            m.resident_bytes == 0,
            m.cache_budget_bytes == 268435456,
    {
        ImageManager {
            project_dir,
            current_append_dir: String::new(),
            key_to_id: Table::new(),
            g00_album_to_ids: Table::new(),
            cg_composite_to_ids: Table::new(),
            composite_to_id: Table::new(),
            solid_to_id: Table::new(),
            images: Vec::new(),
            access_clock: 0,
            resident_bytes: 0,
            cache_budget_bytes: 268435456,
        }
    }

    pub fn project_dir(&self) -> (r: &str)
        ensures
            r@ == self.project_dir@,
    {
        self.project_dir.as_str()
    }

    pub fn current_append_dir(&self) -> (r: &str)
        ensures
            r@ == self.current_append_dir@,
    {
        self.current_append_dir.as_str()
    }

    pub fn set_current_append_dir(&mut self, append_dir: String)
        ensures
            final(self).current_append_dir@ == append_dir@,
            *final(self) == (ImageManager {
                current_append_dir: final(self).current_append_dir,
                ..*old(self)
            }),
    {
        self.current_append_dir = append_dir;
    }

    pub fn set_current_append_dir_ref(&mut self, append_dir: &str)
        ensures
            final(self).current_append_dir@ == append_dir@,
            *final(self) == (ImageManager {
                current_append_dir: final(self).current_append_dir,
                ..*old(self)
            }),
    {
        self.current_append_dir = append_dir.to_owned();
    }

    /// Notes that an image is used. It answers whether the image is there.
    fn touch(&mut self, id: ImageId) -> (r: bool)
        ensures
            r == image_store::present(old(self).images@, id),
            final(self).images@ == touched(old(self).images@, old(self).access_clock, id),
            final(self).access_clock == clock_after(
                old(self).images@,
                old(self).access_clock,
                id,
            ),
            final(self).resident_bytes == old(self).resident_bytes,
            final(self).same_tables(old(self)),
            old(self).wf() ==> final(self).wf(),
            old(self).counted() ==> final(self).counted(),
            old(self).keeps_solids(final(self)),
    {
        let i: usize = id.index();
        if i >= self.images.len() {
            return false;
        }
        if self.images[i].img.is_none() {
            return false;
        }
        self.access_clock = self.access_clock.wrapping_add(1);
        let clock: u64 = self.access_clock;
        let e = &mut self.images[i];
        e.last_used = clock;
        proof {
            let before = old(self).images@;
            assert(self.images@ =~= touched(before, old(self).access_clock, id));
            image_store::lemma_bytes_update(before, i as int, self.images@[i as int]);
            if old(self).wf() && old(self).solids_intact() {
                lemma_solids_kept(*old(self), *self);
            }
            if old(self).wf() {
                assert forall|k: int| 0 <= k < self.images@.len() implies ((
                #[trigger] self.images@[k]).img matches Some(img) ==> img.wf()) by {
                    assert(self.images@[k].img == before[k].img);
                }
            }
        }
        true
    }

    /// The image `id`, which counts as used.
    pub fn get(&mut self, id: ImageId) -> (r: Option<&Arc<RgbaImage>>)
        ensures
            match r {
                Some(img) => image_store::present(old(self).images@, id) && Some(*img)
                    == old(self).images@[id.0 as int].img,
                None => !image_store::present(old(self).images@, id),
            },
            final(self).images@ == touched(old(self).images@, old(self).access_clock, id),
            final(self).access_clock == clock_after(
                old(self).images@,
                old(self).access_clock,
                id,
            ),
            final(self).resident_bytes == old(self).resident_bytes,
            final(self).same_tables(old(self)),
            old(self).wf() ==> final(self).wf(),
            old(self).counted() ==> final(self).counted(),
            old(self).keeps_solids(final(self)),
    {
        if self.touch(id) {
            match &self.images[id.index()].img {
                Some(img) => Some(img),
                None => None,
            }
        } else {
            None
        }
    }

    /// The image `id` and how often it was replaced.
    pub fn get_entry(&mut self, id: ImageId) -> (r: Option<(&Arc<RgbaImage>, u64)>)
        ensures
            match r {
                Some((img, version)) => image_store::present(old(self).images@, id) && Some(*img)
                    == old(self).images@[id.0 as int].img && version
                    == old(self).images@[id.0 as int].version,
                None => !image_store::present(old(self).images@, id),
            },
            final(self).images@ == touched(old(self).images@, old(self).access_clock, id),
            final(self).access_clock == clock_after(
                old(self).images@,
                old(self).access_clock,
                id,
            ),
            final(self).resident_bytes == old(self).resident_bytes,
            final(self).same_tables(old(self)),
            old(self).wf() ==> final(self).wf(),
            old(self).counted() ==> final(self).counted(),
            old(self).keeps_solids(final(self)),
    {
        if self.touch(id) {
            let entry = &self.images[id.index()];
            match &entry.img {
                Some(img) => Some((img, entry.version)),
                None => None,
            }
        } else {
            None
        }
    }

    /// Another owner of the image `id`, which counts as used.
    pub fn take_share(&mut self, id: ImageId) -> (r: Option<Arc<RgbaImage>>)
        ensures
            match r {
                Some(img) => image_store::present(old(self).images@, id) && Some(img)
                    == old(self).images@[id.0 as int].img,
                None => !image_store::present(old(self).images@, id),
            },
            final(self).images@ == touched(old(self).images@, old(self).access_clock, id),
            final(self).access_clock == clock_after(
                old(self).images@,
                old(self).access_clock,
                id,
            ),
            final(self).resident_bytes == old(self).resident_bytes,
            final(self).same_tables(old(self)),
            old(self).wf() ==> final(self).wf(),
            old(self).counted() ==> final(self).counted(),
            old(self).keeps_solids(final(self)),
    {
        match self.get(id) {
            Some(img) => Some(share(img)),
            None => None,
        }
    }

    /// Whether `after` is `self` with one more image, under the number `id`.
    pub open spec fn added(&self, after: &ImageManager, id: ImageId, img: Arc<RgbaImage>) -> bool {
        &&& id.0 == self.images@.len()
        &&& after.images@ == self.images@.push(
            ImageEntry { img: Some(img), version: 0, last_used: self.access_clock },
        )
        &&& after.access_clock == self.access_clock
        &&& after.resident_bytes == image_store::sat_add(
            self.resident_bytes as int,
            img.rgba@.len() as int,
        )
    }

    /// Takes in an image under a new number.
    pub fn insert_image_arc(&mut self, img: Arc<RgbaImage>) -> (id: ImageId)
        requires
            old(self).images@.len() < u32::MAX,
        ensures
            old(self).added(final(self), id, img),
            final(self).same_tables(old(self)),
            old(self).wf() && img.wf() ==> final(self).wf(),
            old(self).keeps_count(final(self)),
            old(self).keeps_solids(final(self)),
    {
        let id = ImageId(self.images.len() as u32);
        let size: usize = img.rgba.len();
        self.resident_bytes = if size > usize::MAX - self.resident_bytes {
            usize::MAX
        } else {
            self.resident_bytes + size
        };
        self.images.push(
            ImageEntry { img: Some(img), version: 0, last_used: self.access_clock },
        );
        proof {
            assert(self.images@.drop_last() =~= old(self).images@);
            if old(self).wf() && old(self).solids_intact() {
                lemma_solids_kept(*old(self), *self);
            }
        }
        id
    }

    /// Takes in an image under a new number.
    pub fn insert_image(&mut self, img: RgbaImage) -> (id: ImageId)
        requires
            old(self).images@.len() < u32::MAX,
        ensures
            exists|a: Arc<RgbaImage>| *a == img && #[trigger] old(self).added(final(self), id, a),
            final(self).same_tables(old(self)),
            old(self).wf() && img.wf() ==> final(self).wf(),
            old(self).keeps_count(final(self)),
            old(self).keeps_solids(final(self)),
    {
        self.insert_image_arc(Arc::new(img))
    }

    /// Whether `after` is `self` with the image `id` replaced.
    pub open spec fn replaced(&self, after: &ImageManager, id: ImageId, img: Arc<RgbaImage>) -> bool {
        let entry = self.images@[id.0 as int];
        &&& after.images@ == self.images@.update(
            id.0 as int,
            ImageEntry { img: Some(img), version: entry.version.wrapping_add(1), ..entry },
        )
        &&& after.access_clock == self.access_clock
        &&& after.resident_bytes == image_store::sat_add(
            image_store::sat_sub(self.resident_bytes as int, image_store::bytes_at(entry)),
            img.rgba@.len() as int,
        )
    }

    /// Replaces the image `id`. The number stays.
    pub fn replace_image_arc(&mut self, id: ImageId, img: Arc<RgbaImage>) -> (r: Result<
        (),
        ImageManagerError,
    >)
        ensures
            final(self).same_tables(old(self)),
            old(self).wf() && img.wf() ==> final(self).wf(),
            old(self).keeps_count(final(self)),
            !ids_of(old(self).solid_to_id.entries@).contains(id) ==> old(self).keeps_solids(
                final(self),
            ),
            if id.0 < old(self).images@.len() {
                r is Ok && old(self).replaced(final(self), id, img)
            } else {
                r == Err::<(), ImageManagerError>(ImageManagerError::InvalidImageId(id))
                    && *final(self) == *old(self)
            },
    {
        let i: usize = id.index();
        if i >= self.images.len() {
            return Err(ImageManagerError::InvalidImageId(id));
        }
        let was: usize = match &self.images[i].img {
            Some(img) => img.rgba.len(),
            None => 0,
        };
        let size: usize = img.rgba.len();
        let rest: usize = if self.resident_bytes < was {
            0
        } else {
            self.resident_bytes - was
        };
        self.resident_bytes = if size > usize::MAX - rest {
            usize::MAX
        } else {
            rest + size
        };
        let e = &mut self.images[i];
        e.img = Some(img);
        e.version = e.version.wrapping_add(1);
        proof {
            let before = old(self).images@;
            let entry = before[i as int];
            assert(self.images@ =~= before.update(
                i as int,
                ImageEntry { img: Some(img), version: entry.version.wrapping_add(1), ..entry },
            ));
            image_store::lemma_bytes_update(before, i as int, self.images@[i as int]);
            let solid = old(self).solid_to_id.entries@;
            if old(self).wf() && old(self).solids_intact() && !ids_of(solid).contains(id) {
                assert forall|k: int| 0 <= k < solid.len() implies (#[trigger] solid[k]).1 != id by {
                    assert(ids_of(solid)[k] == solid[k].1);
                }
                lemma_solids_kept(*old(self), *self);
            }
            if old(self).wf() && img.wf() {
                assert forall|k: int| 0 <= k < self.images@.len() implies ((
                #[trigger] self.images@[k]).img matches Some(img) ==> img.wf()) by {
                    if k != i {
                        assert(self.images@[k] == before[k]);
                    }
                }
            }
        }
        Ok(())
    }

    /// Replaces the image `id`. The number stays.
    pub fn replace_image(&mut self, id: ImageId, img: RgbaImage) -> (r: Result<
        (),
        ImageManagerError,
    >)
        ensures
            final(self).same_tables(old(self)),
            old(self).wf() && img.wf() ==> final(self).wf(),
            old(self).keeps_count(final(self)),
            !ids_of(old(self).solid_to_id.entries@).contains(id) ==> old(self).keeps_solids(
                final(self),
            ),
            if id.0 < old(self).images@.len() {
                r is Ok && exists|a: Arc<RgbaImage>|
                    *a == img && #[trigger] old(self).replaced(final(self), id, a)
            } else {
                r == Err::<(), ImageManagerError>(ImageManagerError::InvalidImageId(id))
                    && *final(self) == *old(self)
            },
    {
        self.replace_image_arc(id, Arc::new(img))
    }

    pub fn resident_bytes(&self) -> (n: usize)
        ensures
            n == self.resident_bytes,
    {
        self.resident_bytes
    }

    /// The number of an image of one pixel in a color. Each color has one.
    pub fn solid_rgba(&mut self, rgba: Color) -> (id: ImageId)
        requires
            old(self).wf(),
            old(self).images@.len() < u32::MAX,
        ensures
            final(self).wf(),
            old(self).keeps_count(final(self)),
            old(self).keeps_solids(final(self)),
            old(self).solids_intact() ==> final(self).shows_color(rgba, id),
            if table::has_key(old(self).solid_to_id.entries@, rgba) {
                &&& id == table::value_under(old(self).solid_to_id.entries@, rgba)
                &&& *final(self) == *old(self)
            } else {
                &&& exists|a: Arc<RgbaImage>|
                    a@ == solid_view(rgba) && #[trigger] old(self).added(final(self), id, a)
                &&& final(self).solid_to_id.entries@ == table::put(
                    old(self).solid_to_id.entries@,
                    rgba,
                    id,
                )
                &&& *final(self) == (ImageManager {
                    images: final(self).images,
                    resident_bytes: final(self).resident_bytes,
                    solid_to_id: final(self).solid_to_id,
                    ..*old(self)
                })
            },
    {
        if let Some(i) = self.solid_to_id.find(&rgba) {
            proof {
                assert(self.solid_to_id.entries@[i as int].0 == rgba);
            }
            return self.solid_to_id.entries[i].1;
        }
        let mut pixels: Vec<u8> = Vec::new();
        pixels.push(rgba.r);
        pixels.push(rgba.g);
        pixels.push(rgba.b);
        pixels.push(rgba.a);
        let img = RgbaImage { width: 1, height: 1, center_x: 0, center_y: 0, rgba: pixels };
        let arc = Arc::new(img);
        proof {
            assert(pixels@ =~= seq![rgba.r, rgba.g, rgba.b, rgba.a]);
            assert(arc@ == solid_view(rgba));
        }
        let id = self.insert_image_arc(arc);
        let ghost mid = *self;
        self.solid_to_id.insert(rgba, id);
        proof {
            lemma_put_below(mid.solid_to_id.entries@, rgba, id, mid.images@.len() as int);
            assert(old(self).added(self, id, arc));
            lemma_new_is_unlisted(*old(self), id);
            assert(self.shows_color(rgba, id));
            if old(self).solids_intact() {
                assert(mid.solids_intact());
                assert forall|i: int| 0 <= i < self.solid_to_id.entries@.len() implies
                    self.shows_color(
                    (#[trigger] self.solid_to_id.entries@[i]).0,
                    self.solid_to_id.entries@[i].1,
                ) by {
                    let was = mid.solid_to_id.entries@;
                    if i < was.len() && self.solid_to_id.entries@[i] == was[i] {
                        assert(mid.shows_color(was[i].0, was[i].1));
                    }
                }
            }
        }
        id
    }
}

/// No table names a number behind all places.
proof fn lemma_new_is_unlisted(m: ImageManager, id: ImageId)
    requires
        m.wf(),
        id.0 >= m.images@.len(),
    ensures
        m.unlisted(id),
{
    let n = m.images@.len() as int;
    if ids_of(m.key_to_id.entries@).contains(id) {
        let i = choose|i: int|
            0 <= i < m.key_to_id.entries@.len() && ids_of(m.key_to_id.entries@)[i] == id;
        assert(m.key_to_id.entries@[i].1.0 < n);
    }
    if ids_of(m.composite_to_id.entries@).contains(id) {
        let i = choose|i: int|
            0 <= i < m.composite_to_id.entries@.len() && ids_of(m.composite_to_id.entries@)[i]
                == id;
        assert(m.composite_to_id.entries@[i].1.0 < n);
    }
}

/// The colors still show where the images at their numbers are the same, and
/// nothing has come to stand for them.
pub proof fn lemma_solids_kept(before: ImageManager, after: ImageManager)
    requires
        before.wf(),
        before.solids_intact(),
        after.solid_to_id == before.solid_to_id,
        after.images@.len() >= before.images@.len(),
        forall|i: int|
            0 <= i < before.solid_to_id.entries@.len() ==> ({
                let id = (#[trigger] before.solid_to_id.entries@[i]).1;
                after.images@[id.0 as int].img == before.images@[id.0 as int].img
            }),
        forall|id: ImageId|
            id.0 < before.images@.len() && before.unlisted(id) ==> #[trigger] after.unlisted(id),
    ensures
        after.solids_intact(),
{
    assert forall|i: int| 0 <= i < after.solid_to_id.entries@.len() implies after.shows_color(
        (#[trigger] after.solid_to_id.entries@[i]).0,
        after.solid_to_id.entries@[i].1,
    ) by {
        let e = before.solid_to_id.entries@[i];
        assert(before.shows_color(e.0, e.1));
        assert(after.unlisted(e.1));
    }
}

/// A number that no entry has comes into a table only where it is put in.
pub proof fn lemma_put_unlisted<K: TableKey>(
    entries: Seq<(K, ImageId)>,
    key: K,
    new: ImageId,
    id: ImageId,
)
    requires
        !ids_of(entries).contains(id),
        new != id,
    ensures
        !ids_of(table::put(entries, key, new)).contains(id),
{
    let after = table::put(entries, key, new);
    if ids_of(after).contains(id) {
        let i = choose|i: int| 0 <= i < after.len() && ids_of(after)[i] == id;
        assert(after[i].1 == id);
        assert(after[i] == entries[i]);
        assert(ids_of(entries)[i] == id);
    }
}

proof fn lemma_kept_unlisted<K>(entries: Seq<(K, ImageId)>, gone: Seq<bool>, id: ImageId)
    requires
        !ids_of(entries).contains(id),
    ensures
        !ids_of(kept_entries(entries, gone)).contains(id),
    decreases entries.len(),
{
    if entries.len() > 0 {
        let front = entries.drop_last();
        if ids_of(front).contains(id) {
            let i = choose|i: int| 0 <= i < front.len() && ids_of(front)[i] == id;
            assert(ids_of(entries)[i] == id);
        }
        lemma_kept_unlisted(front, gone, id);
        assert(ids_of(entries)[entries.len() - 1] == entries.last().1);
        let before = kept_entries(front, gone);
        let after = kept_entries(entries, gone);
        if ids_of(after).contains(id) {
            let i = choose|i: int| 0 <= i < after.len() && ids_of(after)[i] == id;
            if i < before.len() {
                assert(ids_of(before)[i] == id);
            } else {
                assert(after[i] == entries.last());
            }
        }
    }
}

proof fn lemma_kept_albums_unlisted(
    entries: Seq<(String, Vec<ImageId>)>,
    gone: Seq<bool>,
    id: ImageId,
)
    requires
        !in_album(entries, id),
    ensures
        !in_album(kept_albums(entries, gone), id),
    decreases entries.len(),
{
    if entries.len() > 0 {
        let front = entries.drop_last();
        if in_album(front, id) {
            let (a, k) = choose|a: int, k: int|
                0 <= a < front.len() && 0 <= k < front[a].1@.len() && #[trigger] front[a].1@[k]
                    == id;
            assert(entries[a].1@[k] == id);
        }
        lemma_kept_albums_unlisted(front, gone, id);
        let before = kept_albums(front, gone);
        let after = kept_albums(entries, gone);
        if in_album(after, id) {
            let (a, k) = choose|a: int, k: int|
                0 <= a < after.len() && 0 <= k < after[a].1@.len() && #[trigger] after[a].1@[k]
                    == id;
            if a < before.len() {
                assert(before[a].1@[k] == id);
            } else {
                assert(entries[entries.len() - 1].1@[k] == id);
            }
        }
    }
}

/// A sweep keeps the colors.
proof fn lemma_swept_solids(before: ImageManager, after: ImageManager, live: Seq<bool>, count: int)
    requires
        before.wf(),
        before.solids_intact(),
        swept(before, after, live, count),
    ensures
        after.solids_intact(),
{
    assert forall|i: int| 0 <= i < before.solid_to_id.entries@.len() implies ({
        let id = (#[trigger] before.solid_to_id.entries@[i]).1;
        after.images@[id.0 as int].img == before.images@[id.0 as int].img
    }) by {
        let e = before.solid_to_id.entries@[i];
        assert(before.shows_color(e.0, e.1));
        images_without_origin_stay(before, after, live, count, e.1);
    }
    let gone = choose|gone: Seq<bool>| #[trigger]
        image_store::tells_gone(before.images@, after.images@, gone)
            && after.key_to_id.entries@ == kept_entries(before.key_to_id.entries@, gone)
            && after.cg_composite_to_ids.entries@ == kept_entries(
            before.cg_composite_to_ids.entries@,
            gone,
        ) && after.composite_to_id.entries@ == kept_entries(before.composite_to_id.entries@, gone)
            && after.g00_album_to_ids.entries@ == kept_albums(
            before.g00_album_to_ids.entries@,
            gone,
        );
    assert forall|id: ImageId|
        id.0 < before.images@.len() && before.unlisted(id) implies #[trigger] after.unlisted(
        id,
    ) by {
        lemma_kept_unlisted(before.key_to_id.entries@, gone, id);
        lemma_kept_unlisted(before.composite_to_id.entries@, gone, id);
        lemma_kept_albums_unlisted(before.g00_album_to_ids.entries@, gone, id);
    }
    lemma_solids_kept(before, after);
}

/// Every color has a number of its own, whose image is one pixel in that
/// color.
pub proof fn colors_have_their_own_numbers(m: ImageManager, a: Color, b: Color)
    requires
        m.solids_intact(),
        table::has_key(m.solid_to_id.entries@, a),
        table::has_key(m.solid_to_id.entries@, b),
        a != b,
    ensures
        m.shows_color(a, table::value_under(m.solid_to_id.entries@, a)),
        table::value_under(m.solid_to_id.entries@, a) != table::value_under(
            m.solid_to_id.entries@,
            b,
        ),
{
    let entries = m.solid_to_id.entries@;
    let i = choose|i: int| table::first_under(entries, a, i);
    let j = choose|j: int| table::first_under(entries, b, j);
    assert(table::first_under(entries, a, i));
    assert(table::first_under(entries, b, j));
    assert(m.shows_color(entries[i].0, entries[i].1));
    assert(m.shows_color(entries[j].0, entries[j].1));
    let (x, y) = (solid_view(a).rgba, solid_view(b).rgba);
    if x == y {
        assert(x[0] == y[0] && x[1] == y[1] && x[2] == y[2] && x[3] == y[3]);
    }
}

/// An image of one pixel.
pub open spec fn solid_view(c: Color) -> ImageView {
    ImageView { width: 1, height: 1, center_x: 0, center_y: 0, rgba: seq![c.r, c.g, c.b, c.a] }
}

proof fn lemma_put_below<K: TableKey>(entries: Seq<(K, ImageId)>, key: K, id: ImageId, n: int)
    requires
        ids_below(entries, n),
        id.0 < n,
    ensures
        ids_below(table::put(entries, key, id), n),
{
    let after = table::put(entries, key, id);
    assert forall|i: int| 0 <= i < after.len() implies (#[trigger] after[i]).1.0 < n by {
        if i < entries.len() {
            assert(entries[i].1.0 < n);
        }
    }
}

// What is known of an image.

/// Whether an image goes by `key` in a table.
pub open spec fn goes_by<K>(entries: Seq<(K, ImageId)>, id: ImageId, i: int) -> bool {
    0 <= i < entries.len() && entries[i].1 == id
}

fn first_with_id<K>(entries: &Vec<(K, ImageId)>, id: ImageId) -> (r: Option<usize>)
    ensures
        match r {
            Some(i) => goes_by(entries@, id, i as int),
            None => forall|i: int| !goes_by(entries@, id, i),
        },
{
    let mut i: usize = 0;
    while i < entries.len()
        invariant
            i <= entries@.len(),
            forall|k: int| 0 <= k < i ==> !goes_by(entries@, id, k),
        decreases entries@.len() - i,
    {
        if entries[i].1 == id {
            return Some(i);
        }
        i = i + 1;
    }
    None
}

/// Whether `info` tells where an image comes from: a file that it stands for,
/// where there is one, and a descriptor, where there is one.
pub open spec fn tells_origin(m: ImageManager, id: ImageId, info: DebugImageInfo) -> bool {
    &&& match info.source_path {
        Some(path) => exists|i: int| #[trigger]
            goes_by(m.key_to_id.entries@, id, i) && path@ == m.key_to_id.entries@[i].0.path@
                && info.frame_index == Some(m.key_to_id.entries@[i].0.frame_index),
        None => info.frame_index is None && forall|i: int| !goes_by(m.key_to_id.entries@, id, i),
    }
    &&& match info.composite_descriptor {
        Some(d) => exists|i: int| #[trigger]
            goes_by(m.composite_to_id.entries@, id, i) && d@
                == m.composite_to_id.entries@[i].0.descriptor@ && (
            info.composite_append_dir matches Some(a) && a@
                == m.composite_to_id.entries@[i].0.append_dir@),
        None => info.composite_append_dir is None && forall|i: int|
            !goes_by(m.composite_to_id.entries@, id, i),
    }
}

impl ImageManager {
    /// What is known of the image `id`, where it is there.
    pub fn debug_image_info(&self, id: ImageId) -> (r: Option<DebugImageInfo>)
        ensures
            r is Some <==> image_store::present(self.images@, id),
            r matches Some(info) ==> {
                &&& info.id == id
                &&& info.version == self.images@[id.0 as int].version
                &&& (self.images@[id.0 as int].img matches Some(img) && info.width == img.width
                    && info.height == img.height)
                &&& tells_origin(*self, id, info)
            },
    {
        let i: usize = id.index();
        if i >= self.images.len() {
            return None;
        }
        let entry = &self.images[i];
        match &entry.img {
            None => None,
            Some(img) => {
                let mut info = DebugImageInfo {
                    id,
                    width: img.width,
                    height: img.height,
                    version: entry.version,
                    source_path: None,
                    frame_index: None,
                    composite_append_dir: None,
                    composite_descriptor: None,
                };
                if let Some(k) = first_with_id(&self.key_to_id.entries, id) {
                    let key = &self.key_to_id.entries[k].0;
                    info.source_path = Some(key.path.clone());
                    info.frame_index = Some(key.frame_index);
                }
                if let Some(k) = first_with_id(&self.composite_to_id.entries, id) {
                    let key = &self.composite_to_id.entries[k].0;
                    info.composite_append_dir = Some(key.append_dir.clone());
                    info.composite_descriptor = Some(key.descriptor.clone());
                }
                Some(info)
            },
        }
    }
}

// Which images leave when memory runs short.

pub open spec fn is_live(live: Seq<bool>, id: ImageId) -> bool {
    id.0 < live.len() && live[id.0 as int]
}

pub open spec fn any_live(live: Seq<bool>, ids: Seq<ImageId>) -> bool {
    exists|k: int| 0 <= k < ids.len() && is_live(live, #[trigger] ids[k])
}

/// The albums without a live picture.
pub open spec fn album_groups(entries: Seq<(String, Vec<ImageId>)>, live: Seq<bool>) -> Seq<
    Seq<ImageId>,
>
    decreases entries.len(),
{
    if entries.len() == 0 {
        Seq::empty()
    } else {
        let before = album_groups(entries.drop_last(), live);
        let ids = entries.last().1@;
        if any_live(live, ids) {
            before
        } else {
            before.push(ids)
        }
    }
}

/// Whether an image belongs to an album.
pub open spec fn in_album(entries: Seq<(String, Vec<ImageId>)>, id: ImageId) -> bool {
    exists|a: int, k: int|
        0 <= a < entries.len() && 0 <= k < entries[a].1@.len() && #[trigger] entries[a].1@[k] == id
}

/// The numbers in a table.
pub open spec fn ids_of<K>(entries: Seq<(K, ImageId)>) -> Seq<ImageId> {
    entries.map_values(|e: (K, ImageId)| e.1)
}

/// The images, each on its own, that belong to no album and are not live.
pub open spec fn single_groups(
    ids: Seq<ImageId>,
    albums: Seq<(String, Vec<ImageId>)>,
    live: Seq<bool>,
) -> Seq<Seq<ImageId>>
    decreases ids.len(),
{
    if ids.len() == 0 {
        Seq::empty()
    } else {
        let before = single_groups(ids.drop_last(), albums, live);
        let id = ids.last();
        if is_live(live, id) || in_album(albums, id) || ids.drop_last().contains(id) {
            before
        } else {
            before.push(seq![id])
        }
    }
}

/// The groups of images that can be loaded again and are not live. An album
/// goes as a whole.
pub open spec fn cache_groups(m: ImageManager, live: Seq<bool>) -> Seq<Seq<ImageId>> {
    album_groups(m.g00_album_to_ids.entries@, live) + single_groups(
        ids_of(m.key_to_id.entries@) + ids_of(m.composite_to_id.entries@),
        m.g00_album_to_ids.entries@,
        live,
    )
}

fn has_live(ids: &Vec<ImageId>, live: &Vec<bool>) -> (r: bool)
    ensures
        r == any_live(live@, ids@),
{
    let mut k: usize = 0;
    while k < ids.len()
        invariant
            k <= ids@.len(),
            forall|j: int| 0 <= j < k ==> !is_live(live@, #[trigger] ids@[j]),
        decreases ids@.len() - k,
    {
        let i: usize = ids[k].index();
        if i < live.len() {
            if live[i] {
                proof {
                    assert(is_live(live@, ids@[k as int]));
                }
                return true;
            }
        }
        k = k + 1;
    }
    false
}

fn collect_albums(entries: &Vec<(String, Vec<ImageId>)>, live: &Vec<bool>) -> (groups: Vec<
    Vec<ImageId>,
>)
    ensures
        image_store::group_views(groups@) == album_groups(entries@, live@),
{
    let mut groups: Vec<Vec<ImageId>> = Vec::new();
    let mut a: usize = 0;
    proof {
        assert(entries@.take(0) =~= Seq::<(String, Vec<ImageId>)>::empty());
        assert(image_store::group_views(groups@) =~= Seq::<Seq<ImageId>>::empty());
    }
    while a < entries.len()
        invariant
            a <= entries@.len(),
            image_store::group_views(groups@) == album_groups(entries@.take(a as int), live@),
        decreases entries@.len() - a,
    {
        proof {
            let taken = entries@.take(a + 1);
            assert(taken.drop_last() =~= entries@.take(a as int));
            assert(taken.last() == entries@[a as int]);
        }
        if !has_live(&entries[a].1, live) {
            let ghost before = groups@;
            let ids = vstd::slice::slice_to_vec(entries[a].1.as_slice());
            groups.push(ids);
            proof {
                assert(image_store::group_views(groups@) =~= image_store::group_views(before).push(
                    entries@[a as int].1@,
                ));
            }
        }
        a = a + 1;
    }
    proof {
        assert(entries@.take(a as int) =~= entries@);
    }
    groups
}

fn mark_albums(entries: &Vec<(String, Vec<ImageId>)>, n: usize) -> (covered: Vec<bool>)
    requires
        n <= u32::MAX,
        albums_below(entries@, n as int),
    ensures
        covered@.len() == n,
        forall|i: int| 0 <= i < n ==> #[trigger] covered@[i] == in_album(entries@, ImageId(i as u32)),
{
    let mut covered: Vec<bool> = Vec::new();
    covered.resize(n, false);
    let mut a: usize = 0;
    while a < entries.len()
        invariant
            a <= entries@.len(),
            n <= u32::MAX,
            albums_below(entries@, n as int),
            covered@.len() == n,
            forall|i: int|
                0 <= i < n ==> #[trigger] covered@[i] == in_album(
                    entries@.take(a as int),
                    ImageId(i as u32),
                ),
        decreases entries@.len() - a,
    {
        let mut k: usize = 0;
        let ghost start = covered@;
        let ids = &entries[a].1;
        while k < ids.len()
            invariant
                a < entries@.len(),
                *ids == entries@[a as int].1,
                k <= ids@.len(),
                n <= u32::MAX,
                albums_below(entries@, n as int),
                covered@.len() == n,
                start.len() == n,
                forall|i: int|
                    0 <= i < n ==> #[trigger] covered@[i] == (start[i] || exists|j: int|
                        0 <= j < k && #[trigger] ids@[j] == ImageId(i as u32)),
            decreases ids@.len() - k,
        {
            let ghost was = covered@;
            let id: ImageId = ids[k];
            proof {
                assert(entries@[a as int].1@[k as int].0 < n);
            }
            covered.set(id.index(), true);
            proof {
                assert forall|i: int| 0 <= i < n implies #[trigger] covered@[i] == (start[i]
                    || exists|j: int| 0 <= j < k + 1 && #[trigger] ids@[j] == ImageId(i as u32)) by {
                    if i == id.0 {
                        assert(ids@[k as int] == ImageId(i as u32));
                    } else {
                        assert(covered@[i] == was[i]);
                        if exists|j: int| 0 <= j < k + 1 && #[trigger] ids@[j] == ImageId(i as u32) {
                            let j = choose|j: int|
                                0 <= j < k + 1 && #[trigger] ids@[j] == ImageId(i as u32);
                            if j == k {
                                assert(id.0 == i as u32);
                                assert(id.0 < n);
                            }
                        }
                    }
                }
            }
            k = k + 1;
        }
        proof {
            let before = entries@.take(a as int);
            let after = entries@.take(a + 1);
            assert forall|i: int| 0 <= i < n implies #[trigger] covered@[i] == in_album(
                after,
                ImageId(i as u32),
            ) by {
                let id = ImageId(i as u32);
                if in_album(before, id) {
                    let (b, k) = choose|b: int, k: int|
                        0 <= b < before.len() && 0 <= k < before[b].1@.len()
                            && #[trigger] before[b].1@[k] == id;
                    assert(after[b].1@[k] == id);
                }
                if exists|j: int| 0 <= j < ids@.len() && #[trigger] ids@[j] == id {
                    let j = choose|j: int| 0 <= j < ids@.len() && #[trigger] ids@[j] == id;
                    assert(after[a as int].1@[j] == id);
                }
                if in_album(after, id) {
                    let (b, k) = choose|b: int, k: int|
                        0 <= b < after.len() && 0 <= k < after[b].1@.len()
                            && #[trigger] after[b].1@[k] == id;
                    if b < a {
                        assert(before[b].1@[k] == id);
                    } else {
                        assert(ids@[k] == id);
                    }
                }
            }
        }
        a = a + 1;
    }
    proof {
        assert(entries@.take(a as int) =~= entries@);
    }
    covered
}

fn collect_ids<K>(entries: &Vec<(K, ImageId)>, out: &mut Vec<ImageId>)
    ensures
        final(out)@ == old(out)@ + ids_of(entries@),
{
    let mut i: usize = 0;
    proof {
        assert(out@ + ids_of(entries@.take(0)) =~= out@);
    }
    while i < entries.len()
        invariant
            i <= entries@.len(),
            out@ == old(out)@ + ids_of(entries@.take(i as int)),
        decreases entries@.len() - i,
    {
        out.push(entries[i].1);
        proof {
            assert(out@ =~= old(out)@ + ids_of(entries@.take(i + 1)));
        }
        i = i + 1;
    }
    proof {
        assert(entries@.take(i as int) =~= entries@);
    }
}

fn add_singles(
    Ghost(albums): Ghost<Seq<(String, Vec<ImageId>)>>,
    groups: &mut Vec<Vec<ImageId>>,
    ids: &Vec<ImageId>,
    covered: Vec<bool>,
    live: &Vec<bool>,
)
    requires
        covered@.len() <= u32::MAX,
        forall|i: int|
            0 <= i < covered@.len() ==> #[trigger] covered@[i] == in_album(
                albums,
                ImageId(i as u32),
            ),
        forall|k: int| 0 <= k < ids@.len() ==> (#[trigger] ids@[k]).0 < covered@.len(),
    ensures
        image_store::group_views(final(groups)@) == image_store::group_views(old(groups)@)
            + single_groups(ids@, albums, live@),
{
    let mut seen = covered;
    let ghost n = seen@.len();
    let mut k: usize = 0;
    proof {
        assert(ids@.take(0) =~= Seq::<ImageId>::empty());
        assert(image_store::group_views(groups@) + Seq::<Seq<ImageId>>::empty()
            =~= image_store::group_views(groups@));
    }
    while k < ids.len()
        invariant
            k <= ids@.len(),
            n <= u32::MAX,
            seen@.len() == n,
            forall|j: int| 0 <= j < ids@.len() ==> (#[trigger] ids@[j]).0 < n,
            forall|i: int|
                0 <= i < n ==> #[trigger] seen@[i] == (in_album(albums, ImageId(i as u32)) || (
                !is_live(live@, ImageId(i as u32)) && ids@.take(k as int).contains(
                    ImageId(i as u32),
                ))),
            image_store::group_views(groups@) == image_store::group_views(old(groups)@)
                + single_groups(ids@.take(k as int), albums, live@),
        decreases ids@.len() - k,
    {
        let id: ImageId = ids[k];
        let i: usize = id.index();
        let alive: bool = if i < live.len() {
            live[i]
        } else {
            false
        };
        let ghost before_ids = ids@.take(k as int);
        let ghost after_ids = ids@.take(k + 1);
        let ghost was = seen@;
        let ghost before = groups@;
        proof {
            assert(after_ids.drop_last() =~= before_ids);
            assert(after_ids.last() == id);
            assert(ImageId(i as u32) == id);
            assert(alive == is_live(live@, id));
        }
        if !alive && !seen[i] {
            seen.set(i, true);
            let mut one: Vec<ImageId> = Vec::new();
            one.push(id);
            groups.push(one);
            proof {
                assert(one@ =~= seq![id]);
                assert(image_store::group_views(groups@) =~= image_store::group_views(before).push(
                    seq![id],
                ));
                assert(image_store::group_views(groups@) =~= image_store::group_views(old(groups)@)
                    + single_groups(before_ids, albums, live@).push(seq![id]));
            }
        }
        proof {
            assert forall|j: int| 0 <= j < n implies #[trigger] seen@[j] == (in_album(
                albums,
                ImageId(j as u32),
            ) || (!is_live(live@, ImageId(j as u32)) && after_ids.contains(ImageId(j as u32)))) by {
                let other = ImageId(j as u32);
                if after_ids.contains(other) {
                    let x = choose|x: int| 0 <= x < after_ids.len() && after_ids[x] == other;
                    if x < k {
                        assert(before_ids[x] == other);
                    }
                }
                if before_ids.contains(other) {
                    let x = choose|x: int| 0 <= x < before_ids.len() && before_ids[x] == other;
                    assert(after_ids[x] == other);
                }
                if j == i {
                    assert(after_ids[k as int] == other);
                } else {
                    assert(seen@[j] == was[j]);
                    assert(other != id);
                }
            }
        }
        k = k + 1;
    }
    proof {
        assert(ids@.take(k as int) =~= ids@);
    }
}

pub open spec fn flag_at(gone: Seq<bool>, id: ImageId) -> bool {
    id.0 < gone.len() && gone[id.0 as int]
}

/// The entries whose images are not gone.
pub open spec fn kept_entries<K>(entries: Seq<(K, ImageId)>, gone: Seq<bool>) -> Seq<(K, ImageId)>
    decreases entries.len(),
{
    if entries.len() == 0 {
        Seq::empty()
    } else {
        let before = kept_entries(entries.drop_last(), gone);
        if flag_at(gone, entries.last().1) {
            before
        } else {
            before.push(entries.last())
        }
    }
}

/// The albums of which no picture is gone.
pub open spec fn kept_albums(entries: Seq<(String, Vec<ImageId>)>, gone: Seq<bool>) -> Seq<
    (String, Vec<ImageId>),
>
    decreases entries.len(),
{
    if entries.len() == 0 {
        Seq::empty()
    } else {
        let before = kept_albums(entries.drop_last(), gone);
        if any_live(gone, entries.last().1@) {
            before
        } else {
            before.push(entries.last())
        }
    }
}

fn retain_entries<K>(entries: &mut Vec<(K, ImageId)>, gone: &Vec<bool>)
    ensures
        final(entries)@ == kept_entries(old(entries)@, gone@),
{
    let ghost all = entries@;
    let ghost mut done: int = 0;
    let mut at: usize = 0;
    proof {
        assert(all.take(0) =~= Seq::<(K, ImageId)>::empty());
        assert(kept_entries(all.take(0), gone@) + all.skip(0) =~= all);
    }
    while at < entries.len()
        invariant
            0 <= done <= all.len(),
            at == kept_entries(all.take(done), gone@).len(),
            entries@ == kept_entries(all.take(done), gone@) + all.skip(done),
        decreases all.len() - done,
    {
        let ghost kept = kept_entries(all.take(done), gone@);
        proof {
            assert(done < all.len());
            assert(entries@[at as int] == all[done]);
            assert(all.take(done + 1).drop_last() =~= all.take(done));
            assert(all.take(done + 1).last() == all[done]);
        }
        let i: usize = entries[at].1.index();
        let is_gone: bool = if i < gone.len() {
            gone[i]
        } else {
            false
        };
        if is_gone {
            let _left: (K, ImageId) = entries.remove(at);
            proof {
                assert(entries@ =~= kept + all.skip(done + 1));
            }
        } else {
            at = at + 1;
            proof {
                assert(entries@ =~= kept.push(all[done]) + all.skip(done + 1));
            }
        }
        proof {
            done = done + 1;
        }
    }
    proof {
        assert(done == all.len());
        assert(all.take(done) =~= all);
        assert(entries@ =~= kept_entries(all, gone@));
    }
}

fn retain_albums(entries: &mut Vec<(String, Vec<ImageId>)>, gone: &Vec<bool>)
    ensures
        final(entries)@ == kept_albums(old(entries)@, gone@),
{
    let ghost all = entries@;
    let ghost mut done: int = 0;
    let mut at: usize = 0;
    proof {
        assert(all.take(0) =~= Seq::<(String, Vec<ImageId>)>::empty());
        assert(kept_albums(all.take(0), gone@) + all.skip(0) =~= all);
    }
    while at < entries.len()
        invariant
            0 <= done <= all.len(),
            at == kept_albums(all.take(done), gone@).len(),
            entries@ == kept_albums(all.take(done), gone@) + all.skip(done),
        decreases all.len() - done,
    {
        let ghost kept = kept_albums(all.take(done), gone@);
        proof {
            assert(done < all.len());
            assert(entries@[at as int] == all[done]);
            assert(all.take(done + 1).drop_last() =~= all.take(done));
            assert(all.take(done + 1).last() == all[done]);
        }
        if has_live(&entries[at].1, gone) {
            let _left: (String, Vec<ImageId>) = entries.remove(at);
            proof {
                assert(entries@ =~= kept + all.skip(done + 1));
            }
        } else {
            at = at + 1;
            proof {
                assert(entries@ =~= kept.push(all[done]) + all.skip(done + 1));
            }
        }
        proof {
            done = done + 1;
        }
    }
    proof {
        assert(done == all.len());
        assert(all.take(done) =~= all);
        assert(entries@ =~= kept_albums(all, gone@));
    }
}

proof fn lemma_kept_below<K>(entries: Seq<(K, ImageId)>, gone: Seq<bool>, n: int)
    requires
        ids_below(entries, n),
    ensures
        ids_below(kept_entries(entries, gone), n),
    decreases entries.len(),
{
    if entries.len() > 0 {
        let front = entries.drop_last();
        assert forall|i: int| 0 <= i < front.len() implies (#[trigger] front[i]).1.0 < n by {
            assert(entries[i].1.0 < n);
        }
        lemma_kept_below(front, gone, n);
        let before = kept_entries(front, gone);
        let after = kept_entries(entries, gone);
        assert forall|i: int| 0 <= i < after.len() implies (#[trigger] after[i]).1.0 < n by {
            if i < before.len() {
                assert(before[i].1.0 < n);
            } else {
                assert(entries[entries.len() - 1].1.0 < n);
            }
        }
    }
}

/// Every album that is kept was there, and none is kept twice.
proof fn lemma_kept_albums_apart(entries: Seq<(String, Vec<ImageId>)>, gone: Seq<bool>)
    requires
        albums_apart(entries),
    ensures
        albums_apart(kept_albums(entries, gone)),
    decreases entries.len(),
{
    if entries.len() > 0 {
        let front = entries.drop_last();
        let before = kept_albums(front, gone);
        let after = kept_albums(entries, gone);
        assert(albums_apart(front)) by {
            assert forall|a: int, j: int, b: int, k: int|
                #![trigger front[a].1@[j], front[b].1@[k]]
                0 <= a < front.len() && 0 <= j < front[a].1@.len() && 0 <= b < front.len() && 0 <= k
                    < front[b].1@.len() && front[a].1@[j] == front[b].1@[k] implies a == b by {
                assert(entries[a].1@[j] == entries[b].1@[k]);
            }
        }
        lemma_kept_albums_apart(front, gone);
        assert forall|a: int, j: int, b: int, k: int|
            #![trigger after[a].1@[j], after[b].1@[k]]
            0 <= a < after.len() && 0 <= j < after[a].1@.len() && 0 <= b < after.len() && 0 <= k
                < after[b].1@.len() && after[a].1@[j] == after[b].1@[k] implies a == b by {
            if a < before.len() && b < before.len() {
                assert(before[a].1@[j] == before[b].1@[k]);
            } else if a < before.len() {
                lemma_kept_elsewhere(entries, gone, a, j, k);
            } else if b < before.len() {
                lemma_kept_elsewhere(entries, gone, b, k, j);
            }
        }
    }
}

/// A picture of a kept album before the last is none of the last one's.
proof fn lemma_kept_elsewhere(
    entries: Seq<(String, Vec<ImageId>)>,
    gone: Seq<bool>,
    a: int,
    j: int,
    k: int,
)
    requires
        albums_apart(entries),
        entries.len() > 0,
        0 <= a < kept_albums(entries.drop_last(), gone).len(),
        0 <= j < kept_albums(entries.drop_last(), gone)[a].1@.len(),
        0 <= k < entries.last().1@.len(),
    ensures
        kept_albums(entries.drop_last(), gone)[a].1@[j] != entries.last().1@[k],
{
    let front = entries.drop_last();
    let id = kept_albums(front, gone)[a].1@[j];
    if id == entries.last().1@[k] {
        if !in_album(front, id) {
            lemma_kept_albums_unlisted(front, gone, id);
            assert(in_album(kept_albums(front, gone), id));
        }
        let (b, x) = choose|b: int, x: int|
            0 <= b < front.len() && 0 <= x < front[b].1@.len() && #[trigger] front[b].1@[x] == id;
        assert(entries[b].1@[x] == entries[entries.len() - 1].1@[k]);
    }
}

proof fn lemma_kept_albums_below(entries: Seq<(String, Vec<ImageId>)>, gone: Seq<bool>, n: int)
    requires
        albums_below(entries, n),
    ensures
        albums_below(kept_albums(entries, gone), n),
    decreases entries.len(),
{
    if entries.len() > 0 {
        let front = entries.drop_last();
        assert forall|i: int, k: int|
            #![trigger front[i].1@[k]]
            0 <= i < front.len() && 0 <= k < front[i].1@.len() implies front[i].1@[k].0 < n by {
            assert(entries[i].1@[k].0 < n);
        }
        lemma_kept_albums_below(front, gone, n);
        let before = kept_albums(front, gone);
        let after = kept_albums(entries, gone);
        assert forall|i: int, k: int|
            #![trigger after[i].1@[k]]
            0 <= i < after.len() && 0 <= k < after[i].1@.len() implies after[i].1@[k].0 < n by {
            if i < before.len() {
                assert(before[i].1@[k].0 < n);
            } else {
                assert(entries[entries.len() - 1].1@[k].0 < n);
            }
        }
    }
}

proof fn lemma_album_groups_below(
    entries: Seq<(String, Vec<ImageId>)>,
    live: Seq<bool>,
    n: int,
)
    requires
        albums_below(entries, n),
    ensures
        forall|g: int, k: int|
            #![trigger album_groups(entries, live)[g][k]]
            0 <= g < album_groups(entries, live).len() && 0 <= k < album_groups(
                entries,
                live,
            )[g].len() ==> album_groups(entries, live)[g][k].0 < n,
    decreases entries.len(),
{
    if entries.len() > 0 {
        let front = entries.drop_last();
        assert forall|i: int, k: int|
            #![trigger front[i].1@[k]]
            0 <= i < front.len() && 0 <= k < front[i].1@.len() implies front[i].1@[k].0 < n by {
            assert(entries[i].1@[k].0 < n);
        }
        lemma_album_groups_below(front, live, n);
        let before = album_groups(front, live);
        let after = album_groups(entries, live);
        assert forall|g: int, k: int|
            #![trigger after[g][k]]
            0 <= g < after.len() && 0 <= k < after[g].len() implies after[g][k].0 < n by {
            if g < before.len() {
                assert(before[g][k].0 < n);
            } else {
                assert(entries[entries.len() - 1].1@[k].0 < n);
            }
        }
    }
}

proof fn lemma_single_groups(
    ids: Seq<ImageId>,
    albums: Seq<(String, Vec<ImageId>)>,
    live: Seq<bool>,
)
    ensures
        forall|g: int, k: int|
            #![trigger single_groups(ids, albums, live)[g][k]]
            0 <= g < single_groups(ids, albums, live).len() && 0 <= k < single_groups(
                ids,
                albums,
                live,
            )[g].len() ==> {
                let id = single_groups(ids, albums, live)[g][k];
                &&& ids.contains(id)
                &&& !is_live(live, id)
                &&& !in_album(albums, id)
            },
    decreases ids.len(),
{
    if ids.len() > 0 {
        let front = ids.drop_last();
        lemma_single_groups(front, albums, live);
        let before = single_groups(front, albums, live);
        let after = single_groups(ids, albums, live);
        assert forall|g: int, k: int|
            #![trigger after[g][k]]
            0 <= g < after.len() && 0 <= k < after[g].len() implies ({
            let id = after[g][k];
            &&& ids.contains(id)
            &&& !is_live(live, id)
            &&& !in_album(albums, id)
        }) by {
            if g < before.len() {
                let id = before[g][k];
                assert(front.contains(id));
                let x = choose|x: int| 0 <= x < front.len() && front[x] == id;
                assert(ids[x] == id);
            } else {
                assert(ids[ids.len() - 1] == after[g][k]);
            }
        }
    }
}

proof fn lemma_album_group_is_album(
    entries: Seq<(String, Vec<ImageId>)>,
    live: Seq<bool>,
    g: int,
) -> (a: int)
    requires
        0 <= g < album_groups(entries, live).len(),
    ensures
        0 <= a < entries.len(),
        album_groups(entries, live)[g] == entries[a].1@,
        !any_live(live, entries[a].1@),
    decreases entries.len(),
{
    let before = album_groups(entries.drop_last(), live);
    if g < before.len() {
        let a = lemma_album_group_is_album(entries.drop_last(), live, g);
        assert(entries.drop_last()[a] == entries[a]);
        a
    } else {
        entries.len() - 1
    }
}

/// Whether the image at a place is live: it is among the roots, or it is there
/// and has an owner besides the manager.
pub open spec fn live_at(m: ImageManager, roots: Set<u32>, counts: Seq<usize>, i: int) -> bool {
    roots.contains(i as u32) || (m.images@[i].img is Some && counts[i] > 1)
}

/// Whether the counts can be those of the owners: the manager owns each image
/// that is there.
pub open spec fn counts_fit(m: ImageManager, counts: Seq<usize>) -> bool {
    &&& counts.len() == m.images@.len()
    &&& forall|i: int|
        0 <= i < counts.len() ==> (#[trigger] counts[i] > 0) == (m.images@[i].img is Some)
}

/// The flags of the live images.
pub open spec fn live_of(m: ImageManager, roots: Set<u32>, counts: Seq<usize>) -> Seq<bool> {
    Seq::new(m.images@.len(), |i: int| live_at(m, roots, counts, i))
}

/// Whether the manager has been swept: groups that are not live have left to
/// keep the budget, and the tables have forgotten what is gone.
pub open spec fn swept(
    before: ImageManager,
    after: ImageManager,
    live: Seq<bool>,
    count: int,
) -> bool {
    &&& exists|picks: Seq<int>| #[trigger]
        image_store::leaves_in_order(
            before.images@,
            before.resident_bytes as int,
            before.cache_budget_bytes as int,
            cache_groups(before, live),
            picks,
        ) && after.images@ == image_store::without_groups(
            before.images@,
            cache_groups(before, live),
            picks,
        ) && after.resident_bytes == image_store::bytes_after_groups(
            before.images@,
            before.resident_bytes as int,
            cache_groups(before, live),
            picks,
        )
    &&& image_store::only_emptied(before.images@, after.images@)
    &&& count == image_store::gone_count(
        before.images@,
        after.images@,
        before.images@.len() as int,
    )
    &&& exists|gone: Seq<bool>| #[trigger]
        image_store::tells_gone(before.images@, after.images@, gone)
            && after.key_to_id.entries@ == kept_entries(before.key_to_id.entries@, gone)
            && after.cg_composite_to_ids.entries@ == kept_entries(
            before.cg_composite_to_ids.entries@,
            gone,
        ) && after.composite_to_id.entries@ == kept_entries(before.composite_to_id.entries@, gone)
            && after.g00_album_to_ids.entries@ == kept_albums(
            before.g00_album_to_ids.entries@,
            gone,
        )
    &&& after == (ImageManager {
        images: after.images,
        resident_bytes: after.resident_bytes,
        key_to_id: after.key_to_id,
        cg_composite_to_ids: after.cg_composite_to_ids,
        composite_to_id: after.composite_to_id,
        g00_album_to_ids: after.g00_album_to_ids,
        ..before
    })
}

impl ImageManager {
    fn list_groups(&self, live: &Vec<bool>) -> (groups: Vec<Vec<ImageId>>)
        requires
            self.wf(),
        ensures
            image_store::group_views(groups@) == cache_groups(*self, live@),
            forall|g: int, k: int|
                #![trigger groups@[g]@[k]]
                0 <= g < groups@.len() && 0 <= k < groups@[g]@.len() ==> groups@[g]@[k].0
                    < self.images@.len(),
    {
        let mut groups = collect_albums(&self.g00_album_to_ids.entries, live);
        let covered = mark_albums(&self.g00_album_to_ids.entries, self.images.len());
        let mut ids: Vec<ImageId> = Vec::new();
        collect_ids(&self.key_to_id.entries, &mut ids);
        collect_ids(&self.composite_to_id.entries, &mut ids);
        let ghost albums = self.g00_album_to_ids.entries@;
        let ghost n = self.images@.len() as int;
        proof {
            let keys = ids_of(self.key_to_id.entries@);
            let composites = ids_of(self.composite_to_id.entries@);
            assert(ids@ =~= keys + composites);
            assert forall|k: int| 0 <= k < ids@.len() implies (#[trigger] ids@[k]).0 < n by {
                if k < keys.len() {
                    assert(self.key_to_id.entries@[k].1.0 < n);
                } else {
                    assert(self.composite_to_id.entries@[k - keys.len()].1.0 < n);
                }
            }
        }
        add_singles(Ghost(albums), &mut groups, &ids, covered, live);
        proof {
            lemma_album_groups_below(albums, live@, n);
            lemma_single_groups(ids@, albums, live@);
            let views = image_store::group_views(groups@);
            let first = album_groups(albums, live@);
            let second = single_groups(ids@, albums, live@);
            assert(views =~= first + second);
            assert forall|g: int, k: int|
                #![trigger groups@[g]@[k]]
                0 <= g < groups@.len() && 0 <= k < groups@[g]@.len() implies groups@[g]@[k].0
                < n by {
                assert(views[g] == groups@[g]@);
                if g < first.len() {
                    assert(first[g][k].0 < n);
                } else {
                    assert(views[g] == second[g - first.len()]);
                    let id = second[g - first.len()][k];
                    assert(ids@.contains(id));
                    let x = choose|x: int| 0 <= x < ids@.len() && ids@[x] == id;
                    assert(ids@[x].0 < n);
                }
            }
        }
        groups
    }

    /// Lets images leave to keep the budget. Those that `live` names stay, and
    /// so do those that cannot be loaded again. It answers how many left.
    pub fn evict(&mut self, live: &Vec<bool>) -> (count: usize)
        requires
            old(self).wf(),
        ensures
            final(self).wf(),
            old(self).counted() ==> final(self).counted(),
            old(self).keeps_solids(final(self)),
            swept(*old(self), *final(self), live@, count as int),
    {
        let groups = self.list_groups(live);
        let bytes: usize = self.resident_bytes;
        let budget: usize = self.cache_budget_bytes;
        let ghost n = self.images@.len() as int;
        let ev = evict_groups(&mut self.images, bytes, budget, &groups);
        self.resident_bytes = ev.bytes;
        retain_entries(&mut self.key_to_id.entries, &ev.gone);
        retain_entries(&mut self.cg_composite_to_ids.entries, &ev.gone);
        retain_entries(&mut self.composite_to_id.entries, &ev.gone);
        retain_albums(&mut self.g00_album_to_ids.entries, &ev.gone);
        proof {
            lemma_kept_below(old(self).key_to_id.entries@, ev.gone@, n);
            lemma_kept_below(old(self).cg_composite_to_ids.entries@, ev.gone@, n);
            lemma_kept_below(old(self).composite_to_id.entries@, ev.gone@, n);
            lemma_kept_albums_below(old(self).g00_album_to_ids.entries@, ev.gone@, n);
            lemma_kept_albums_apart(old(self).g00_album_to_ids.entries@, ev.gone@);
            assert forall|i: int| 0 <= i < self.images@.len() implies ((
            #[trigger] self.images@[i]).img matches Some(img) ==> img.wf()) by {
                assert(self.images@[i] == old(self).images@[i] || self.images@[i]
                    == image_store::emptied(old(self).images@[i]));
            }
            if old(self).counted() {
                let views = cache_groups(*old(self), live@);
                let picks = choose|picks: Seq<int>| #[trigger]
                    image_store::leaves_in_order(
                        old(self).images@,
                        bytes as int,
                        budget as int,
                        views,
                        picks,
                    ) && self.images@ == image_store::without_groups(
                        old(self).images@,
                        views,
                        picks,
                    ) && ev.bytes == image_store::bytes_after_groups(
                        old(self).images@,
                        bytes as int,
                        views,
                        picks,
                    );
                image_store::lemma_bytes_after_groups(old(self).images@, views, picks);
            }
            if old(self).solids_intact() {
                assert(swept(*old(self), *self, live@, ev.count as int));
                lemma_swept_solids(*old(self), *self, live@, ev.count as int);
            }
        }
        ev.count
    }

    /// Which images are live: those among the roots, and those that are there
    /// and have more owners than the manager. `counts` are their owners.
    pub fn live_places(&self, roots: &HashSet<u32>, counts: &Vec<usize>) -> (live: Vec<bool>)
        requires
            self.wf(),
            counts@.len() == self.images@.len(),
        ensures
            live@ == live_of(*self, roots@, counts@),
    {
        let mut live: Vec<bool> = Vec::new();
        let mut i: usize = 0;
        while i < self.images.len()
            invariant
                self.wf(),
                counts@.len() == self.images@.len(),
                i <= self.images@.len(),
                live@.len() == i,
                forall|k: int| 0 <= k < i ==> #[trigger] live@[k] == live_at(*self, roots@, counts@, k),
            decreases self.images@.len() - i,
        {
            let owned: bool = match &self.images[i].img {
                Some(_) => counts[i] > 1,
                None => false,
            };
            live.push(owned || roots.contains(&(i as u32)));
            i = i + 1;
        }
        proof {
            assert(live@ =~= live_of(*self, roots@, counts@));
        }
        live
    }

    /// The owners of each image. An image that is gone has none.
    fn count_owners(&self) -> (counts: Vec<usize>)
        ensures
            counts_fit(*self, counts@),
    {
        let mut counts: Vec<usize> = Vec::new();
        let mut i: usize = 0;
        while i < self.images.len()
            invariant
                i <= self.images@.len(),
                counts@.len() == i,
                forall|k: int|
                    0 <= k < i ==> (#[trigger] counts@[k] > 0) == (self.images@[k].img is Some),
            decreases self.images@.len() - i,
        {
            let n: usize = match &self.images[i].img {
                Some(img) => owners(img),
                None => 0,
            };
            counts.push(n);
            i = i + 1;
        }
        counts
    }

    /// Lets images leave to keep the budget. Those among the roots and those
    /// that have other owners stay. How many owners an image has, the rest of
    /// the program decides; what follows from the counts is stated.
    pub fn collect_cached_assets(&mut self, roots: &HashSet<u32>) -> (count: usize)
        requires
            old(self).wf(),
        ensures
            final(self).wf(),
            old(self).counted() ==> final(self).counted(),
            old(self).keeps_solids(final(self)),
            exists|counts: Seq<usize>|
                counts_fit(*old(self), counts) && #[trigger] swept(
                    *old(self),
                    *final(self),
                    live_of(*old(self), roots@, counts),
                    count as int,
                ),
    {
        let counts = self.count_owners();
        let live = self.live_places(roots, &counts);
        self.evict(&live)
    }

    /// Adds to `live` the whole of every album of which a picture is in it.
    pub fn pin_live_albums(&self, live: &mut HashSet<u32>)
        ensures
            final(live)@ == pinned(self.g00_album_to_ids.entries@, old(live)@),
    {
        let mut a: usize = 0;
        let ghost entries = self.g00_album_to_ids.entries@;
        proof {
            assert(entries.take(0) =~= Seq::<(String, Vec<ImageId>)>::empty());
        }
        while a < self.g00_album_to_ids.entries.len()
            invariant
                entries == self.g00_album_to_ids.entries@,
                a <= entries.len(),
                live@ == pinned(entries.take(a as int), old(live)@),
            decreases entries.len() - a,
        {
            proof {
                let taken = entries.take(a + 1);
                assert(taken.drop_last() =~= entries.take(a as int));
                assert(taken.last() == entries[a as int]);
            }
            pin_album(&self.g00_album_to_ids.entries[a].1, live);
            a = a + 1;
        }
        proof {
            assert(entries.take(a as int) =~= entries);
        }
    }
}

/// The numbers of an album.
pub open spec fn numbers(ids: Seq<ImageId>) -> Set<u32> {
    Set::new(|n: u32| ids.contains(ImageId(n)))
}

/// `live` with the album, where one of its pictures is in it.
pub open spec fn with_album(ids: Seq<ImageId>, live: Set<u32>) -> Set<u32> {
    if exists|k: int| 0 <= k < ids.len() && live.contains((#[trigger] ids[k]).0) {
        live.union(numbers(ids))
    } else {
        live
    }
}

/// `live` with the albums, one after the other.
pub open spec fn pinned(entries: Seq<(String, Vec<ImageId>)>, live: Set<u32>) -> Set<u32>
    decreases entries.len(),
{
    if entries.len() == 0 {
        live
    } else {
        with_album(entries.last().1@, pinned(entries.drop_last(), live))
    }
}

/// Whether `n` is in an album of which a picture is in `live`.
pub open spec fn beside_live(
    entries: Seq<(String, Vec<ImageId>)>,
    live: Set<u32>,
    n: u32,
) -> bool {
    exists|a: int|
        0 <= a < entries.len() && #[trigger] numbers(entries[a].1@).contains(n) && !numbers(
            entries[a].1@,
        ).disjoint(live)
}

proof fn lemma_with_album(ids: Seq<ImageId>, live: Set<u32>)
    ensures
        with_album(ids, live) == (if numbers(ids).disjoint(live) {
            live
        } else {
            live.union(numbers(ids))
        }),
{
    if numbers(ids).disjoint(live) {
        assert forall|k: int| 0 <= k < ids.len() implies !live.contains((#[trigger] ids[k]).0) by {
            assert(ids.contains(ImageId(ids[k].0)));
            assert(numbers(ids).contains(ids[k].0));
        }
    } else {
        let n = choose|n: u32| numbers(ids).contains(n) && live.contains(n);
        let k = choose|k: int| 0 <= k < ids.len() && ids[k] == ImageId(n);
        assert(live.contains(ids[k].0));
    }
}

proof fn lemma_one_album(entries: Seq<(String, Vec<ImageId>)>, a: int, b: int, n: u32)
    requires
        albums_apart(entries),
        0 <= a < entries.len(),
        0 <= b < entries.len(),
        numbers(entries[a].1@).contains(n),
        numbers(entries[b].1@).contains(n),
    ensures
        a == b,
{
    let j = choose|j: int| 0 <= j < entries[a].1@.len() && entries[a].1@[j] == ImageId(n);
    let k = choose|k: int| 0 <= k < entries[b].1@.len() && entries[b].1@[k] == ImageId(n);
    assert(entries[a].1@[j] == entries[b].1@[k]);
}

proof fn lemma_pinned(entries: Seq<(String, Vec<ImageId>)>, live: Set<u32>, n: int)
    requires
        albums_apart(entries),
        0 <= n <= entries.len(),
    ensures
        forall|x: u32| #[trigger]
            pinned(entries.take(n), live).contains(x) <==> live.contains(x) || beside_live(
                entries.take(n),
                live,
                x,
            ),
    decreases n,
{
    let all = entries.take(n);
    if n > 0 {
        let front = entries.take(n - 1);
        assert(all.drop_last() =~= front);
        assert(all.last() == entries[n - 1]);
        let ids = entries[n - 1].1@;
        lemma_pinned(entries, live, n - 1);
        lemma_with_album(ids, pinned(front, live));
        assert(numbers(ids).disjoint(pinned(front, live)) == numbers(ids).disjoint(live)) by {
            if !numbers(ids).disjoint(pinned(front, live)) {
                let x = choose|x: u32| numbers(ids).contains(x) && pinned(front, live).contains(x);
                if !live.contains(x) {
                    assert(beside_live(front, live, x));
                    let a = choose|a: int|
                        0 <= a < front.len() && #[trigger] numbers(front[a].1@).contains(x)
                            && !numbers(front[a].1@).disjoint(live);
                    lemma_one_album(entries, a, n - 1, x);
                }
            } else if !numbers(ids).disjoint(live) {
                let x = choose|x: u32| numbers(ids).contains(x) && live.contains(x);
                assert(pinned(front, live).contains(x));
            }
        }
        assert forall|x: u32| #[trigger] pinned(all, live).contains(x) <==> live.contains(x)
            || beside_live(all, live, x) by {
            assert(pinned(front, live).contains(x) <==> live.contains(x) || beside_live(
                front,
                live,
                x,
            ));
            if beside_live(front, live, x) {
                let a = choose|a: int|
                    0 <= a < front.len() && #[trigger] numbers(front[a].1@).contains(x) && !numbers(
                        front[a].1@,
                    ).disjoint(live);
                assert(all[a] == front[a]);
                assert(numbers(all[a].1@).contains(x));
            }
            if beside_live(all, live, x) {
                let a = choose|a: int|
                    0 <= a < all.len() && #[trigger] numbers(all[a].1@).contains(x) && !numbers(
                        all[a].1@,
                    ).disjoint(live);
                if a < n - 1 {
                    assert(all[a] == front[a]);
                    assert(numbers(front[a].1@).contains(x));
                }
            }
            if numbers(ids).contains(x) && !numbers(ids).disjoint(live) {
                assert(numbers(all[n - 1].1@).contains(x));
            }
        }
    }
}

/// Just the albums with a live picture are pinned: what is live afterwards was
/// live before, or is in an album of which a picture was.
pub proof fn just_live_albums_are_pinned(m: ImageManager, live: Set<u32>)
    requires
        m.wf(),
    ensures
        forall|n: u32| #[trigger]
            pinned(m.g00_album_to_ids.entries@, live).contains(n) <==> live.contains(n)
                || beside_live(m.g00_album_to_ids.entries@, live, n),
{
    let entries = m.g00_album_to_ids.entries@;
    assert(entries.take(entries.len() as int) =~= entries);
    lemma_pinned(entries, live, entries.len() as int);
}

/// To pin the albums again adds nothing.
pub proof fn second_pinning_adds_nothing(m: ImageManager, live: Set<u32>)
    requires
        m.wf(),
    ensures
        pinned(m.g00_album_to_ids.entries@, pinned(m.g00_album_to_ids.entries@, live)) == pinned(
            m.g00_album_to_ids.entries@,
            live,
        ),
{
    let entries = m.g00_album_to_ids.entries@;
    let once = pinned(entries, live);
    let twice = pinned(entries, once);
    just_live_albums_are_pinned(m, live);
    just_live_albums_are_pinned(m, once);
    assert forall|n: u32| twice.contains(n) implies #[trigger] once.contains(n) by {
        if !once.contains(n) {
            assert(beside_live(entries, once, n));
            let a = choose|a: int|
                0 <= a < entries.len() && #[trigger] numbers(entries[a].1@).contains(n) && !numbers(
                    entries[a].1@,
                ).disjoint(once);
            let x = choose|x: u32| numbers(entries[a].1@).contains(x) && once.contains(x);
            if !live.contains(x) {
                assert(beside_live(entries, live, x));
                let b = choose|b: int|
                    0 <= b < entries.len() && #[trigger] numbers(entries[b].1@).contains(x)
                        && !numbers(entries[b].1@).disjoint(live);
                lemma_one_album(entries, a, b, x);
            } else {
                assert(!numbers(entries[a].1@).disjoint(live));
            }
            assert(beside_live(entries, live, n));
        }
    }
    assert(twice =~= once);
}

fn pin_album(ids: &Vec<ImageId>, live: &mut HashSet<u32>)
    ensures
        final(live)@ == with_album(ids@, old(live)@),
{
    let mut found: bool = false;
    let mut k: usize = 0;
    while k < ids.len() && !found
        invariant
            k <= ids@.len(),
            live@ == old(live)@,
            found ==> exists|j: int| 0 <= j < ids@.len() && live@.contains((#[trigger] ids@[j]).0),
            !found ==> forall|j: int| 0 <= j < k ==> !live@.contains((#[trigger] ids@[j]).0),
        decreases ids@.len() - k,
    {
        if live.contains(&ids[k].0) {
            found = true;
        }
        k = k + 1;
    }
    if !found {
        return;
    }
    let mut j: usize = 0;
    while j < ids.len()
        invariant
            j <= ids@.len(),
            forall|n: u32| #[trigger]
                live@.contains(n) <==> old(live)@.contains(n) || ids@.take(j as int).contains(
                    ImageId(n),
                ),
        decreases ids@.len() - j,
    {
        let ghost was = live@;
        let _new: bool = live.insert(ids[j].0);
        proof {
            let before = ids@.take(j as int);
            let after = ids@.take(j + 1);
            assert forall|n: u32| #[trigger] live@.contains(n) <==> old(live)@.contains(n)
                || after.contains(ImageId(n)) by {
                assert(live@.contains(n) == (was.contains(n) || n == ids@[j as int].0));
                if before.contains(ImageId(n)) {
                    let x = choose|x: int| 0 <= x < before.len() && before[x] == ImageId(n);
                    assert(after[x] == ImageId(n));
                }
                if after.contains(ImageId(n)) {
                    let x = choose|x: int| 0 <= x < after.len() && after[x] == ImageId(n);
                    if x < j {
                        assert(before[x] == ImageId(n));
                    }
                }
                assert(after[j as int] == ids@[j as int]);
            }
        }
        j = j + 1;
    }
    proof {
        assert(ids@.take(j as int) =~= ids@);
        assert(live@ =~= old(live)@.union(numbers(ids@)));
    }
}

proof fn lemma_group_members(m: ImageManager, live: Seq<bool>, g: int, k: int)
    requires
        0 <= g < cache_groups(m, live).len(),
        0 <= k < cache_groups(m, live)[g].len(),
    ensures
        !is_live(live, cache_groups(m, live)[g][k]),
{
    let first = album_groups(m.g00_album_to_ids.entries@, live);
    let ids = ids_of(m.key_to_id.entries@) + ids_of(m.composite_to_id.entries@);
    if g < first.len() {
        let a = lemma_album_group_is_album(m.g00_album_to_ids.entries@, live, g);
        let album = m.g00_album_to_ids.entries@[a].1@;
        if is_live(live, album[k]) {
            assert(any_live(live, album));
        }
    } else {
        lemma_single_groups(ids, m.g00_album_to_ids.entries@, live);
        let second = single_groups(ids, m.g00_album_to_ids.entries@, live);
        assert(cache_groups(m, live)[g] == second[g - first.len()]);
        assert(!is_live(live, second[g - first.len()][k]));
    }
}

/// A live image never leaves.
pub proof fn live_images_stay(
    before: ImageManager,
    after: ImageManager,
    live: Seq<bool>,
    count: int,
    i: int,
)
    requires
        swept(before, after, live, count),
        before.images@.len() <= u32::MAX,
        0 <= i < before.images@.len(),
        is_live(live, ImageId(i as u32)),
    ensures
        after.images@[i] == before.images@[i],
{
    let groups = cache_groups(before, live);
    let picks = lemma_picks(before, after, live, count);
    assert forall|g: int, k: int|
        #![trigger groups[g][k]]
        0 <= g < groups.len() && 0 <= k < groups[g].len() implies groups[g][k].0 != i by {
        lemma_group_members(before, live, g, k);
    }
    image_store::images_outside_the_groups_stay(before.images@, groups, picks, i);
}

/// An image that another part of the program owns never leaves, and nor does a
/// root.
pub proof fn owned_images_stay(
    before: ImageManager,
    after: ImageManager,
    roots: Set<u32>,
    counts: Seq<usize>,
    count: int,
    i: int,
)
    requires
        swept(before, after, live_of(before, roots, counts), count),
        before.images@.len() <= u32::MAX,
        0 <= i < before.images@.len(),
        roots.contains(i as u32) || counts[i] > 1,
    ensures
        after.images@[i] == before.images@[i],
{
    let live = live_of(before, roots, counts);
    if live[i] {
        live_images_stay(before, after, live, count, i);
    } else {
        assert(before.images@[i].img is None);
        assert(after.images@[i] == before.images@[i] || after.images@[i] == image_store::emptied(
            before.images@[i],
        ));
    }
}

proof fn lemma_single_is_group(
    ids: Seq<ImageId>,
    albums: Seq<(String, Vec<ImageId>)>,
    live: Seq<bool>,
    x: int,
) -> (g: int)
    requires
        0 <= x < ids.len(),
        !is_live(live, ids[x]),
        !in_album(albums, ids[x]),
    ensures
        0 <= g < single_groups(ids, albums, live).len(),
        single_groups(ids, albums, live)[g] == seq![ids[x]],
    decreases ids.len(),
{
    let front = ids.drop_last();
    if x < front.len() {
        lemma_single_is_group(front, albums, live, x)
    } else if front.contains(ids[x]) {
        let y = choose|y: int| 0 <= y < front.len() && front[y] == ids[x];
        lemma_single_is_group(front, albums, live, y)
    } else {
        single_groups(front, albums, live).len() as int
    }
}

/// Where the bytes are still above the budget, every image that a file or a
/// descriptor stands for has left, unless it is live or belongs to an album.
pub proof fn unowned_images_leave(
    before: ImageManager,
    after: ImageManager,
    live: Seq<bool>,
    count: int,
    id: ImageId,
)
    requires
        swept(before, after, live, count),
        after.resident_bytes > before.cache_budget_bytes,
        id.0 < before.images@.len(),
        !is_live(live, id),
        !in_album(before.g00_album_to_ids.entries@, id),
        ids_of(before.key_to_id.entries@).contains(id) || ids_of(
            before.composite_to_id.entries@,
        ).contains(id),
    ensures
        after.images@[id.0 as int].img is None,
{
    let groups = cache_groups(before, live);
    let picks = lemma_picks(before, after, live, count);
    let albums = before.g00_album_to_ids.entries@;
    let first = album_groups(albums, live);
    let keys = ids_of(before.key_to_id.entries@);
    let composites = ids_of(before.composite_to_id.entries@);
    let ids = keys + composites;
    let x = if keys.contains(id) {
        choose|x: int| 0 <= x < keys.len() && keys[x] == id
    } else {
        keys.len() + (choose|x: int| 0 <= x < composites.len() && composites[x] == id)
    };
    assert(ids[x] == id);
    let g = first.len() + lemma_single_is_group(ids, albums, live, x);
    assert(groups[g] == seq![id]);
    assert(picks.contains(g));
    let p = choose|p: int| 0 <= p < picks.len() && picks[p] == g;
    image_store::images_of_picked_groups_leave(before.images@, groups, picks, p, 0);
}

/// The groups that left.
proof fn lemma_picks(
    before: ImageManager,
    after: ImageManager,
    live: Seq<bool>,
    count: int,
) -> (picks: Seq<int>)
    requires
        swept(before, after, live, count),
    ensures
        image_store::leaves_in_order(
            before.images@,
            before.resident_bytes as int,
            before.cache_budget_bytes as int,
            cache_groups(before, live),
            picks,
        ),
        after.images@ == image_store::without_groups(
            before.images@,
            cache_groups(before, live),
            picks,
        ),
        after.resident_bytes == image_store::bytes_after_groups(
            before.images@,
            before.resident_bytes as int,
            cache_groups(before, live),
            picks,
        ),
{
    choose|picks: Seq<int>| #[trigger]
        image_store::leaves_in_order(
            before.images@,
            before.resident_bytes as int,
            before.cache_budget_bytes as int,
            cache_groups(before, live),
            picks,
        ) && after.images@ == image_store::without_groups(
            before.images@,
            cache_groups(before, live),
            picks,
        ) && after.resident_bytes == image_store::bytes_after_groups(
            before.images@,
            before.resident_bytes as int,
            cache_groups(before, live),
            picks,
        )
}

/// An image that no file and no descriptor stands for cannot be loaded again,
/// and never leaves.
pub proof fn images_without_origin_stay(
    before: ImageManager,
    after: ImageManager,
    live: Seq<bool>,
    count: int,
    id: ImageId,
)
    requires
        swept(before, after, live, count),
        id.0 < before.images@.len(),
        !ids_of(before.key_to_id.entries@).contains(id),
        !ids_of(before.composite_to_id.entries@).contains(id),
        !in_album(before.g00_album_to_ids.entries@, id),
    ensures
        after.images@[id.0 as int] == before.images@[id.0 as int],
{
    let groups = cache_groups(before, live);
    let picks = lemma_picks(before, after, live, count);
    let albums = before.g00_album_to_ids.entries@;
    let first = album_groups(albums, live);
    let keys = ids_of(before.key_to_id.entries@);
    let composites = ids_of(before.composite_to_id.entries@);
    let ids = keys + composites;
    lemma_single_groups(ids, albums, live);
    let second = single_groups(ids, albums, live);
    assert forall|g: int, k: int|
        #![trigger groups[g][k]]
        0 <= g < groups.len() && 0 <= k < groups[g].len() implies groups[g][k].0 != id.0 by {
        if g < first.len() {
            let a = lemma_album_group_is_album(albums, live, g);
            if albums[a].1@[k] == id {
                assert(in_album(albums, id));
            }
            assert(groups[g][k] == albums[a].1@[k]);
        } else {
            assert(groups[g] == second[g - first.len()]);
            let other = second[g - first.len()][k];
            assert(ids.contains(other));
            let x = choose|x: int| 0 <= x < ids.len() && ids[x] == other;
            if x < keys.len() {
                assert(keys[x] == other);
                assert(keys.contains(other));
            } else {
                assert(composites[x - keys.len()] == other);
                assert(composites.contains(other));
            }
        }
    }
    image_store::images_outside_the_groups_stay(before.images@, groups, picks, id.0 as int);
}

/// A live picture keeps the whole album that it belongs to.
pub proof fn live_picture_keeps_its_album(
    before: ImageManager,
    after: ImageManager,
    live: Seq<bool>,
    count: int,
    album: int,
    k: int,
)
    requires
        before.wf(),
        swept(before, after, live, count),
        0 <= album < before.g00_album_to_ids.entries@.len(),
        0 <= k < before.g00_album_to_ids.entries@[album].1@.len(),
        any_live(live, before.g00_album_to_ids.entries@[album].1@),
    ensures
        ({
            let i = before.g00_album_to_ids.entries@[album].1@[k].0 as int;
            after.images@[i] == before.images@[i]
        }),
{
    let groups = cache_groups(before, live);
    let picks = lemma_picks(before, after, live, count);
    let albums = before.g00_album_to_ids.entries@;
    let id = albums[album].1@[k];
    let first = album_groups(albums, live);
    let ids = ids_of(before.key_to_id.entries@) + ids_of(before.composite_to_id.entries@);
    lemma_single_groups(ids, albums, live);
    let second = single_groups(ids, albums, live);
    assert forall|g: int, j: int|
        #![trigger groups[g][j]]
        0 <= g < groups.len() && 0 <= j < groups[g].len() implies groups[g][j].0 != id.0 by {
        if g < first.len() {
            let a = lemma_album_group_is_album(albums, live, g);
            assert(a != album);
            assert(albums[a].1@[j] != id);
            assert(groups[g][j] == albums[a].1@[j]);
        } else {
            assert(groups[g] == second[g - first.len()]);
            let other = second[g - first.len()][j];
            assert(!in_album(albums, other));
            if other == id {
                assert(albums[album].1@[k] == other);
                assert(in_album(albums, other));
            }
        }
    }
    image_store::images_outside_the_groups_stay(before.images@, groups, picks, id.0 as int);
}

/// A number that was given out is never given out again: a new image gets the
/// number behind all places, and no place is taken away.
pub proof fn numbers_are_never_used_again(
    before: ImageManager,
    after: ImageManager,
    live: Seq<bool>,
    count: int,
    next: ImageManager,
    id: ImageId,
    img: Arc<RgbaImage>,
)
    requires
        swept(before, after, live, count),
        after.added(&next, id, img),
    ensures
        id.0 >= before.images@.len(),
{
}

proof fn lemma_single(before: ImageManager, live: Seq<bool>, id: ImageId) -> (g: int)
    requires
        !is_live(live, id),
        !in_album(before.g00_album_to_ids.entries@, id),
        ids_of(before.key_to_id.entries@).contains(id) || ids_of(
            before.composite_to_id.entries@,
        ).contains(id),
    ensures
        0 <= g < cache_groups(before, live).len(),
        cache_groups(before, live)[g] == seq![id],
{
    let albums = before.g00_album_to_ids.entries@;
    let first = album_groups(albums, live);
    let keys = ids_of(before.key_to_id.entries@);
    let composites = ids_of(before.composite_to_id.entries@);
    let ids = keys + composites;
    let x = if keys.contains(id) {
        choose|x: int| 0 <= x < keys.len() && keys[x] == id
    } else {
        keys.len() + (choose|x: int| 0 <= x < composites.len() && composites[x] == id)
    };
    assert(ids[x] == id);
    let g = first.len() + lemma_single_is_group(ids, albums, live, x);
    assert(cache_groups(before, live)[g] == seq![id]);
    g
}

/// What was used last stays longest: of two images that may both leave, none
/// leaves while one that was used before it stays.
pub proof fn images_used_before_leave_first(
    before: ImageManager,
    after: ImageManager,
    live: Seq<bool>,
    count: int,
    earlier: ImageId,
    later: ImageId,
)
    requires
        swept(before, after, live, count),
        before.wf(),
        earlier.0 < before.images@.len(),
        later.0 < before.images@.len(),
        !is_live(live, earlier),
        !in_album(before.g00_album_to_ids.entries@, earlier),
        !in_album(before.g00_album_to_ids.entries@, later),
        ids_of(before.key_to_id.entries@).contains(earlier) || ids_of(
            before.composite_to_id.entries@,
        ).contains(earlier),
        before.images@[earlier.0 as int].last_used < before.images@[later.0 as int].last_used,
        before.images@[later.0 as int].img is Some,
        after.images@[later.0 as int].img is None,
    ensures
        after.images@[earlier.0 as int].img is None,
{
    let groups = cache_groups(before, live);
    let picks = lemma_picks(before, after, live, count);
    let albums = before.g00_album_to_ids.entries@;
    let first = album_groups(albums, live);
    let ids = ids_of(before.key_to_id.entries@) + ids_of(before.composite_to_id.entries@);
    let i = later.0 as int;
    if forall|p: int, k: int|
        #![trigger groups[picks[p]][k]]
        0 <= p < picks.len() && 0 <= k < groups[picks[p]].len() ==> groups[picks[p]][k].0 != i {
        image_store::images_outside_the_picked_groups_stay(before.images@, groups, picks, i);
    }
    let (p, k) = choose|p: int, k: int|
        #![trigger groups[picks[p]][k]]
        0 <= p < picks.len() && 0 <= k < groups[picks[p]].len() && groups[picks[p]][k].0 == i;
    let g = picks[p];
    assert(groups[g][k] == later);
    if g < first.len() {
        let a = lemma_album_group_is_album(albums, live, g);
        assert(albums[a].1@[k] == later);
    }
    assert(groups[g] == single_groups(ids, albums, live)[g - first.len()]);
    lemma_single_shape(ids, albums, live, g - first.len());
    assert(groups[g] =~= seq![later]);
    let h = lemma_single(before, live, earlier);
    lemma_single_age(before.images@, later);
    lemma_single_age(before.images@, earlier);
    if !picks.contains(h) {
        assert(image_store::age(before.images@, groups[picks[p]]) <= image_store::age(
            before.images@,
            groups[h],
        ));
    }
    let q = choose|q: int| 0 <= q < picks.len() && picks[q] == h;
    image_store::images_of_picked_groups_leave(before.images@, groups, picks, q, 0);
}

proof fn lemma_single_age(images: Seq<ImageEntry>, id: ImageId)
    requires
        id.0 < images.len(),
    ensures
        image_store::age(images, seq![id]) == images[id.0 as int].last_used,
{
    assert(seq![id].drop_last() =~= Seq::<ImageId>::empty());
    reveal_with_fuel(image_store::age, 2);
}

proof fn lemma_single_shape(
    ids: Seq<ImageId>,
    albums: Seq<(String, Vec<ImageId>)>,
    live: Seq<bool>,
    g: int,
)
    requires
        0 <= g < single_groups(ids, albums, live).len(),
    ensures
        single_groups(ids, albums, live)[g].len() == 1,
    decreases ids.len(),
{
    if ids.len() > 0 {
        let before = single_groups(ids.drop_last(), albums, live);
        if g < before.len() {
            lemma_single_shape(ids.drop_last(), albums, live, g);
        }
    }
}

/// As long as the images keep the budget, none leaves.
pub proof fn nothing_leaves_within_the_budget(
    before: ImageManager,
    after: ImageManager,
    live: Seq<bool>,
    count: int,
)
    requires
        swept(before, after, live, count),
        before.resident_bytes <= before.cache_budget_bytes,
    ensures
        after.images@ == before.images@,
        after.resident_bytes == before.resident_bytes,
        count == 0,
{
    let groups = cache_groups(before, live);
    let picks = lemma_picks(before, after, live, count);
    if picks.len() > 0 {
        assert(picks.take(0) =~= Seq::<int>::empty());
        assert(image_store::bytes_after_groups(
            before.images@,
            before.resident_bytes as int,
            groups,
            picks.take(0),
        ) > before.cache_budget_bytes);
    }
    lemma_none_gone(before.images@, before.images@.len() as int);
}

proof fn lemma_none_gone(images: Seq<ImageEntry>, n: int)
    ensures
        image_store::gone_count(images, images, n) == 0,
    decreases n,
{
    if n > 0 {
        lemma_none_gone(images, n - 1);
    }
}

/// A name that leads to an image still leads to it after a sweep, unless the
/// image left; and no name leads to an image that left.
pub proof fn names_of_images_that_left_are_forgotten<K>(
    entries: Seq<(K, ImageId)>,
    gone: Seq<bool>,
    e: (K, ImageId),
)
    ensures
        kept_entries(entries, gone).contains(e) <==> entries.contains(e) && !(e.1.0 < gone.len()
            && gone[e.1.0 as int]),
    decreases entries.len(),
{
    if entries.len() > 0 {
        let front = entries.drop_last();
        names_of_images_that_left_are_forgotten(front, gone, e);
        let was = kept_entries(front, gone);
        let now = kept_entries(entries, gone);
        if entries.contains(e) {
            let i = choose|i: int| 0 <= i < entries.len() && entries[i] == e;
            if i < front.len() {
                assert(front[i] == e);
            }
        }
        if front.contains(e) {
            let i = choose|i: int| 0 <= i < front.len() && front[i] == e;
            assert(entries[i] == e);
        }
        if was.contains(e) {
            let i = choose|i: int| 0 <= i < was.len() && was[i] == e;
            assert(now[i] == e);
        }
        if now.contains(e) {
            let i = choose|i: int| 0 <= i < now.len() && now[i] == e;
            if i < was.len() {
                assert(was[i] == e);
            } else {
                assert(entries[entries.len() - 1] == e);
            }
        }
        if e == entries.last() && !flag_at(gone, e.1) {
            assert(now[was.len() as int] == e);
        }
    } else {
        assert(!entries.contains(e));
    }
}

/// An image that is used counts as used after all others, as long as the clock
/// has not gone round.
pub proof fn used_images_are_the_newest(images: Seq<ImageEntry>, clock: u64, id: ImageId, i: int)
    requires
        id.0 < images.len(),
        images[id.0 as int].img is Some,
        clock < u64::MAX,
        0 <= i < images.len(),
        i != id.0,
        images[i].last_used <= clock,
    ensures
        ({
            let now = touched(images, clock, id);
            &&& now.len() == images.len()
            &&& now[id.0 as int].last_used > now[i].last_used
            &&& now[i] == images[i]
            &&& now[id.0 as int].img == images[id.0 as int].img
            &&& now[id.0 as int].last_used == clock_after(images, clock, id)
            &&& clock_after(images, clock, id) > clock
        }),
{
}

/// A new image gets the number behind all others, and a replaced one keeps its
/// number and shows that it has changed. All others stay as they are.
pub proof fn new_and_replaced_images_are_found_under_their_number(
    before: ImageManager,
    after: ImageManager,
    id: ImageId,
    img: Arc<RgbaImage>,
    i: int,
)
    requires
        0 <= i < before.images@.len(),
        before.images@.len() <= u32::MAX,
    ensures
        before.added(&after, id, img) ==> id.0 == before.images@.len() && after.images@.len()
            == before.images@.len() + 1 && after.images@[id.0 as int].img == Some(img)
            && after.images@[i] == before.images@[i],
        id.0 < before.images@.len() && before.replaced(&after, id, img) ==> after.images@.len()
            == before.images@.len() && after.images@[id.0 as int].img == Some(img) && (
        before.images@[id.0 as int].version < u64::MAX ==> after.images@[id.0 as int].version
            == before.images@[id.0 as int].version + 1) && (i != id.0 ==> after.images@[i]
            == before.images@[i]),
{
}

} // verus!
