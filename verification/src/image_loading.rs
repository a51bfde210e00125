//! How images come from files and descriptors.
//!
//! The host finds files, reads them and decodes them. What it has to do next,
//! and what becomes of the result, is decided here.

use vstd::prelude::*;
use std::sync::Arc;
use crate::assets;
use crate::assets::{lower_extension, ImageView, RgbaImage};
use crate::composed_descriptor;
use crate::composed_descriptor::{
    normalized_g00_composite_descriptor, parse_g00_composite_descriptor, G00ComposePart, PartView,
};
use crate::image_compose;
use crate::image_compose::{anchored, compose_cg_base_delta_image, compose_g00_cut};
use crate::image_manager;
use crate::image_manager::{
    CompositeKey, ImageId, ImageKey, ImageManager, ImageManagerError,
};
use crate::image_store;
use crate::image_store::ImageEntry;
use crate::paths;
use crate::paths::{
    file_name_chars, is_absolute_path, join_path, rename_chars, split_stem_ext,
};
use crate::table;
use crate::table::TableKey;
use crate::text;
use crate::text::{chars_of, same_text, text_of, to_lower_char};
use crate::text_parts::{ends_with, find_char, same_chars_ignoring_case, starts_with};

verus! {

/// The file that holds the base of a picture: a picture `cg_...` of a frame
/// file that is no base itself has one.
pub open spec fn base_of(path: Seq<char>) -> Option<Seq<char>> {
    match paths::file_name_of(path) {
        None => None,
        Some(name) => match paths::stem_and_extension(name) {
            None => None,
            Some((stem, ext)) => if text::lower(ext) == text::lower("g00"@)
                && "cg_"@.is_prefix_of(text::lower(stem)) && !"__base"@.is_suffix_of(
                text::lower(stem),
            ) {
                Some(paths::renamed(path, stem + "__base.g00"@))
            } else {
                None
            },
        },
    }
}

fn lowered(chars: &Vec<char>) -> (r: Vec<char>)
    ensures
        r@ == text::lower(chars@),
{
    let mut r: Vec<char> = Vec::new();
    let mut i: usize = 0;
    while i < chars.len()
        invariant
            i <= chars@.len(),
            r@ == text::lower(chars@).take(i as int),
        decreases chars@.len() - i,
    {
        r.push(to_lower_char(chars[i]));
        i = i + 1;
        proof {
            assert(r@ =~= text::lower(chars@).take(i as int));
        }
    }
    proof {
        assert(r@ =~= text::lower(chars@));
    }
    r
}

/// The file that holds the base of a picture.
pub fn cg_base_path(path: &str) -> (r: Option<String>)
    ensures
        match r {
            Some(base) => base_of(path@) == Some(base@),
            None => base_of(path@) is None,
        },
{
    let chars = chars_of(path);
    let name = match file_name_chars(chars.as_slice()) {
        Some(name) => name,
        None => {
            return None;
        },
    };
    let (stem, ext) = match split_stem_ext(name.as_slice()) {
        Some(parts) => parts,
        None => {
            return None;
        },
    };
    let wanted = chars_of("g00");
    if !same_chars_ignoring_case(ext.as_slice(), wanted.as_slice()) {
        return None;
    }
    let low = lowered(&stem);
    let prefix = chars_of("cg_");
    let suffix = chars_of("__base");
    if !starts_with(low.as_slice(), prefix.as_slice()) || ends_with(
        low.as_slice(),
        suffix.as_slice(),
    ) {
        return None;
    }
    let ghost was = stem@;
    let mut renamed = stem;
    let mut tail = chars_of("__base.g00");
    renamed.append(&mut tail);
    proof {
        assert(renamed@ =~= was + "__base.g00"@);
    }
    Some(text_of(rename_chars(chars.as_slice(), renamed.as_slice()).as_slice()))
}

/// A file that is asked for, and what the host found for it.
#[derive(Debug)]
pub struct WantedFile {
    pub path: String,
    /// The file that the path names as it stands.
    pub as_it_stands: Option<String>,
    /// The file that the path names from the directory of the game.
    pub in_project: Option<String>,
}

/// The path of a file that is asked for. A path that is not absolute is
/// relative to the directory of the game; one that names no file there, but one
/// as it stands, begins with that directory already.
pub open spec fn located(project_dir: Seq<char>, file: WantedFile) -> Seq<char> {
    if paths::is_absolute(file.path@) {
        match file.as_it_stands {
            Some(path) => path@,
            None => file.path@,
        }
    } else {
        match (file.in_project, file.as_it_stands) {
            (Some(path), _) => path@,
            (None, Some(path)) => path@,
            (None, None) => paths::joined(project_dir, file.path@),
        }
    }
}

/// A path that is not absolute is relative to the directory of the game, whatever
/// file it names as it stands: the file there is taken, and where the path names
/// no file at all, it stands in that directory.
pub proof fn relative_paths_are_of_the_game(
    project_dir: Seq<char>,
    file: WantedFile,
    other: WantedFile,
)
    requires
        !paths::is_absolute(file.path@),
        other.path == file.path,
        other.in_project == file.in_project,
    ensures
        file.in_project matches Some(path) ==> located(project_dir, file) == path@ && located(
            project_dir,
            other,
        ) == path@,
        file.in_project is None && file.as_it_stands is None ==> located(project_dir, file)
            == paths::joined(project_dir, file.path@),
{
}

/// Whether `key` is the picture `frame_index` of a file that is asked for.
pub open spec fn is_key_of(
    key: ImageKey,
    project_dir: Seq<char>,
    file: WantedFile,
    frame_index: usize,
) -> bool {
    key.path@ == located(project_dir, file) && key.frame_index == frame_index
}

/// The step for a file that is asked for.
pub open spec fn wanted_step(
    m: ImageManager,
    file: WantedFile,
    frame_index: usize,
    r: Result<StepView, ImageManagerError>,
) -> bool {
    exists|key: ImageKey| #[trigger]
        is_key_of(key, m.project_dir@, file, frame_index) && r == file_step(m, key)
}

/// What comes next when a picture is loaded.
#[derive(Debug)]
pub enum LoadStep {
    /// The picture is there.
    Ready(ImageId),
    /// Read and decode the frame file, call `insert_g00_album`, and ask again.
    NeedAlbum,
    /// Read and decode the file, then call `insert_file_image`.
    NeedImage,
    /// Look for the base. Where it is there, load it and call
    /// `compose_cg_base_delta`; where it is not, the picture is `delta`.
    NeedBase { delta: ImageId, base_path: String },
    /// The name is a descriptor: call `load_g00_composed`.
    Composed,
}

/// What a step says.
#[verifier::ext_equal]
pub enum StepView {
    Ready(ImageId),
    NeedAlbum,
    NeedImage,
    NeedBase(ImageId, Seq<char>),
    Composed,
}

impl LoadStep {
    pub open spec fn view(&self) -> StepView {
        match *self {
            LoadStep::Ready(id) => StepView::Ready(id),
            LoadStep::NeedAlbum => StepView::NeedAlbum,
            LoadStep::NeedImage => StepView::NeedImage,
            LoadStep::NeedBase { delta, base_path } => StepView::NeedBase(delta, base_path@),
            LoadStep::Composed => StepView::Composed,
        }
    }
}

pub open spec fn step_view(r: Result<LoadStep, ImageManagerError>) -> Result<
    StepView,
    ImageManagerError,
> {
    match r {
        Ok(step) => Ok(step@),
        Err(e) => Err(e),
    }
}

/// The step for a picture of a frame file.
pub open spec fn with_base(path: Seq<char>, delta: ImageId) -> StepView {
    match base_of(path) {
        Some(base) => StepView::NeedBase(delta, base),
        None => StepView::Ready(delta),
    }
}

/// The next step for the picture `key` of a file: what has been loaded is not
/// loaded again, and a frame file is loaded as a whole.
pub open spec fn file_step(m: ImageManager, key: ImageKey) -> Result<StepView, ImageManagerError> {
    let known = table::has_key(m.key_to_id.entries@, key);
    let id = table::value_under(m.key_to_id.entries@, key);
    if assets::extension_of(key.path@) == "g00"@ {
        if table::has_key(m.cg_composite_to_ids.entries@, key) {
            Ok(StepView::Ready(table::value_under(m.cg_composite_to_ids.entries@, key)))
        } else if known {
            Ok(with_base(key.path@, id))
        } else if table::has_key(m.g00_album_to_ids.entries@, key.path) {
            let album = table::value_under(m.g00_album_to_ids.entries@, key.path)@;
            if key.frame_index < album.len() {
                Ok(with_base(key.path@, album[key.frame_index as int]))
            } else {
                Err(
                    ImageManagerError::FrameOutOfRange {
                        index: key.frame_index,
                        count: album.len() as usize,
                    },
                )
            }
        } else {
            Ok(StepView::NeedAlbum)
        }
    } else if known {
        Ok(StepView::Ready(id))
    } else {
        Ok(StepView::NeedImage)
    }
}

fn base_step(path: &str, delta: ImageId) -> (r: LoadStep)
    ensures
        r@ == with_base(path@, delta),
{
    match cg_base_path(path) {
        Some(base_path) => LoadStep::NeedBase { delta, base_path },
        None => LoadStep::Ready(delta),
    }
}

impl ImageManager {
    /// The path of a file that is asked for.
    pub fn file_path(&self, file: &WantedFile) -> (r: String)
        ensures
            r@ == located(self.project_dir@, *file),
    {
        if is_absolute_path(file.path.as_str()) {
            match &file.as_it_stands {
                Some(path) => path.clone(),
                None => file.path.clone(),
            }
        } else {
            match &file.in_project {
                Some(path) => path.clone(),
                None => match &file.as_it_stands {
                    Some(path) => path.clone(),
                    None => join_path(self.project_dir.as_str(), file.path.as_str()),
                },
            }
        }
    }

    /// The next step for a picture of a file that is asked for.
    pub fn load_file(&self, file: &WantedFile, frame_index: usize) -> (r: Result<
        LoadStep,
        ImageManagerError,
    >)
        ensures
            wanted_step(*self, *file, frame_index, step_view(r)),
    {
        let key = ImageKey { path: self.file_path(file), frame_index };
        proof {
            assert(is_key_of(key, self.project_dir@, *file, frame_index));
        }
        self.load_picture(&key)
    }

    /// The next step for the picture `key` of a file.
    pub fn load_picture(&self, key: &ImageKey) -> (r: Result<LoadStep, ImageManagerError>)
        ensures
            step_view(r) == file_step(*self, *key),
    {
        let ext = lower_extension(key.path.as_str());
        if same_text(ext.as_str(), "g00") {
            if let Some(i) = self.cg_composite_to_ids.find(key) {
                return Ok(LoadStep::Ready(self.cg_composite_to_ids.entries[i].1));
            }
            if let Some(i) = self.key_to_id.find(key) {
                return Ok(base_step(key.path.as_str(), self.key_to_id.entries[i].1));
            }
            if let Some(i) = self.g00_album_to_ids.find(&key.path) {
                let album = &self.g00_album_to_ids.entries[i].1;
                if key.frame_index < album.len() {
                    return Ok(base_step(key.path.as_str(), album[key.frame_index]));
                }
                return Err(
                    ImageManagerError::FrameOutOfRange {
                        index: key.frame_index,
                        count: album.len(),
                    },
                );
            }
            return Ok(LoadStep::NeedAlbum);
        }
        match self.key_to_id.find(key) {
            Some(i) => Ok(LoadStep::Ready(self.key_to_id.entries[i].1)),
            None => Ok(LoadStep::NeedImage),
        }
    }

    /// The next step for a background, which has one picture. `found` is the
    /// file, where one was found.
    pub fn load_bg(&self, found: Option<WantedFile>) -> (r: Result<LoadStep, ImageManagerError>)
        ensures
            match found {
                Some(file) => wanted_step(*self, file, 0, step_view(r)),
                None => step_view(r) == Err::<StepView, ImageManagerError>(
                    ImageManagerError::NotFound,
                ),
            },
    {
        self.load_bg_frame(found, 0)
    }

    /// The next step for a picture of a background.
    pub fn load_bg_frame(&self, found: Option<WantedFile>, frame_index: usize) -> (r: Result<
        LoadStep,
        ImageManagerError,
    >)
        ensures
            match found {
                Some(file) => wanted_step(*self, file, frame_index, step_view(r)),
                None => step_view(r) == Err::<StepView, ImageManagerError>(
                    ImageManagerError::NotFound,
                ),
            },
    {
        match found {
            Some(file) => self.load_file(&file, frame_index),
            None => Err(ImageManagerError::NotFound),
        }
    }

    /// The next step for a picture of a sprite. A name with `|` in it is a
    /// descriptor, which has one picture alone.
    pub fn load_g00(&self, name: &str, frame_index: u32, found: Option<WantedFile>) -> (r: Result<
        LoadStep,
        ImageManagerError,
    >)
        ensures
            if name@.contains('|') {
                step_view(r) == if frame_index != 0 {
                    Err(ImageManagerError::ComposedFrame(frame_index))
                } else {
                    Ok(StepView::Composed)
                }
            } else {
                match found {
                    Some(file) => wanted_step(
                        *self,
                        file,
                        frame_index as usize,
                        step_view(r),
                    ),
                    None => step_view(r) == Err::<StepView, ImageManagerError>(
                        ImageManagerError::NotFound,
                    ),
                }
            },
    {
        let chars = chars_of(name);
        if find_char(chars.as_slice(), '|').is_some() {
            if frame_index != 0 {
                return Err(ImageManagerError::ComposedFrame(frame_index));
            }
            return Ok(LoadStep::Composed);
        }
        self.load_bg_frame(found, frame_index as usize)
    }

    /// Takes in the picture of a file.
    pub fn insert_file_image(&mut self, key: ImageKey, img: RgbaImage) -> (id: ImageId)
        requires
            old(self).wf(),
            img.wf(),
            old(self).images@.len() < u32::MAX,
        ensures
            final(self).wf(),
            old(self).keeps_count(final(self)),
            old(self).keeps_solids(final(self)),
            exists|a: Arc<RgbaImage>| *a == img && #[trigger] old(self).added(final(self), id, a),
            final(self).key_to_id.entries@ == table::put(old(self).key_to_id.entries@, key, id),
            *final(self) == (ImageManager {
                images: final(self).images,
                resident_bytes: final(self).resident_bytes,
                key_to_id: final(self).key_to_id,
                ..*old(self)
            }),
    {
        let arc = Arc::new(img);
        let id = self.insert_image_arc(arc);
        let ghost mid = *self;
        self.key_to_id.insert(key, id);
        proof {
            lemma_put_below(mid.key_to_id.entries@, key, id, mid.images@.len() as int);
            assert(old(self).added(self, id, arc));
            if old(self).solids_intact() {
                lemma_listed_solids(*old(self), *self, id);
            }
        }
        id
    }

    /// Takes in all pictures of a frame file.
    pub fn insert_g00_album(&mut self, path: &str, frames: Vec<RgbaImage>) -> (r: Result<
        (),
        ImageManagerError,
    >)
        requires
            old(self).wf(),
            old(self).images@.len() + frames@.len() < u32::MAX,
            forall|i: int| 0 <= i < frames@.len() ==> (#[trigger] frames@[i]).wf(),
        ensures
            final(self).wf(),
            old(self).keeps_count(final(self)),
            old(self).keeps_solids(final(self)),
            frames@.len() == 0 ==> r == Err::<(), ImageManagerError>(ImageManagerError::NoFrames)
                && *final(self) == *old(self),
            frames@.len() > 0 ==> r is Ok && album_added(
                *old(self),
                *final(self),
                path@,
                frames@,
            ),
    {
        if frames.len() == 0 {
            return Err(ImageManagerError::NoFrames);
        }
        let ghost all = frames@;
        let ghost before = *self;
        let count: usize = frames.len();
        let mut rest = frames;
        let mut ids: Vec<ImageId> = Vec::new();
        let mut i: usize = 0;
        proof {
            assert(all.skip(0) =~= all);
            assert(self.images@.take(self.images@.len() as int) =~= self.images@);
        }
        while i < count
            invariant
                count == all.len(),
                i <= count,
                rest@ == all.skip(i as int),
                forall|k: int| 0 <= k < all.len() ==> (#[trigger] all[k]).wf(),
                before.images@.len() + all.len() < u32::MAX,
                self.wf(),
                before.keeps_count(self),
                before.keeps_solids(self),
                pictures_added(before, *self, path@, all, i as int),
                ids@.len() == i,
                forall|k: int|
                    0 <= k < i ==> #[trigger] ids@[k] == ImageId(
                        (before.images@.len() + k) as u32,
                    ),
            decreases count - i,
        {
            let img = rest.remove(0);
            proof {
                assert(all[i as int] == img);
                assert(rest@ =~= all.skip(i + 1));
            }
            let ghost mid = *self;
            let id = self.insert_file_image(
                ImageKey { path: path.to_owned(), frame_index: i },
                img,
            );
            ids.push(id);
            proof {
                lemma_picture_added(before, mid, *self, path@, all, i as int, id);
                assert(self.images@.drop_last() =~= mid.images@);
            }
            i = i + 1;
        }
        let ghost mid = *self;
        self.g00_album_to_ids.insert(path.to_owned(), ids);
        proof {
            lemma_put_album_below(
                mid.g00_album_to_ids.entries@,
                self.g00_album_to_ids.entries@,
                ids,
                mid.images@.len() as int,
            );
            lemma_put_album_apart(
                before.g00_album_to_ids.entries@,
                self.g00_album_to_ids.entries@,
                ids,
                before.images@.len() as int,
            );
            assert(ids@ =~= Seq::new(
                all.len(),
                |k: int| ImageId((before.images@.len() + k) as u32),
            ));
            if before.solids_intact() {
                lemma_album_solids(mid, *self, before.images@.len() as int, ids);
            }
        }
        Ok(())
    }
}

/// The counted bytes with the first `n` pictures.
pub open spec fn bytes_with(bytes: int, frames: Seq<RgbaImage>, n: int) -> int
    decreases n,
{
    if n <= 0 {
        bytes
    } else {
        image_store::sat_add(
            bytes_with(bytes, frames, n - 1),
            frames[n - 1].rgba@.len() as int,
        )
    }
}

/// Whether the first `n` pictures of a frame file have been taken in: their
/// pixels under new numbers, one after the other, and each number under the
/// file and the picture's place.
pub open spec fn pictures_added(
    before: ImageManager,
    after: ImageManager,
    path: Seq<char>,
    frames: Seq<RgbaImage>,
    n: int,
) -> bool {
    let base = before.images@.len() as int;
    &&& after.images@.len() == base + n
    &&& after.images@.take(base) == before.images@
    &&& forall|k: int|
        0 <= k < n ==> ((#[trigger] after.images@[base + k]).img matches Some(a) && *a == frames[k]
            && after.images@[base + k].version == 0 && after.images@[base + k].last_used
            == before.access_clock)
    &&& after.resident_bytes == bytes_with(before.resident_bytes as int, frames, n)
    &&& forall|k: int|
        0 <= k < n ==> #[trigger] named(
            after.key_to_id.entries@,
            path,
            k,
            ImageId((base + k) as u32),
        )
    &&& forall|key: ImageKey|
        !(paths::same_path(key.path@, path) && key.frame_index < n) ==> #[trigger] table::lookup(
            after.key_to_id.entries@,
            key,
        ) == table::lookup(before.key_to_id.entries@, key)
    &&& after == (ImageManager {
        images: after.images,
        resident_bytes: after.resident_bytes,
        key_to_id: after.key_to_id,
        ..before
    })
}

/// Whether `key` is the picture `k` of the file at `path`.
pub open spec fn is_picture(key: ImageKey, path: Seq<char>, k: int) -> bool {
    paths::same_path(key.path@, path) && key.frame_index == k
}

/// Whether the picture `k` of the file at `path` has the number `id`.
pub open spec fn named(
    entries: Seq<(ImageKey, ImageId)>,
    path: Seq<char>,
    k: int,
    id: ImageId,
) -> bool {
    exists|i: int|
        #![trigger entries[i]]
        0 <= i < entries.len() && is_picture(entries[i].0, path, k) && entries[i].1 == id
            && forall|j: int| 0 <= j < i ==> !is_picture((#[trigger] entries[j]).0, path, k)
}

proof fn lemma_named_after_put(
    entries: Seq<(ImageKey, ImageId)>,
    key: ImageKey,
    id: ImageId,
    path: Seq<char>,
    k: int,
    other: ImageId,
)
    requires
        named(entries, path, k, other),
        key.path@ == path,
        key.frame_index != k,
    ensures
        named(table::put(entries, key, id), path, k, other),
{
    let after = table::put(entries, key, id);
    let i = choose|i: int|
        #![trigger entries[i]]
        0 <= i < entries.len() && is_picture(entries[i].0, path, k) && entries[i].1 == other
            && forall|j: int| 0 <= j < i ==> !is_picture((#[trigger] entries[j]).0, path, k);
    if table::has_key(entries, key) {
        let p = choose|p: int| table::first_under(entries, key, p);
        assert(table::first_under(entries, key, p));
        assert(p != i);
    }
    assert(after[i] == entries[i]);
    assert forall|j: int| 0 <= j < i implies !is_picture((#[trigger] after[j]).0, path, k) by {
        assert(after[j].0 == entries[j].0);
        assert(!is_picture(entries[j].0, path, k));
    }
}

proof fn lemma_put_is_named(
    entries: Seq<(ImageKey, ImageId)>,
    key: ImageKey,
    id: ImageId,
)
    ensures
        named(table::put(entries, key, id), key.path@, key.frame_index as int, id),
{
    let after = table::put(entries, key, id);
    table::put_value_is_found(entries, key, id);
    let i = choose|i: int| table::first_under(after, key, i);
    assert(table::first_under(after, key, i));
    table::lemma_first(after, key, i);
    assert(after[i].1 == id);
    assert forall|j: int| 0 <= j < i implies !is_picture(
        (#[trigger] after[j]).0,
        key.path@,
        key.frame_index as int,
    ) by {
        assert(!after[j].0.same(&key));
    }
}

proof fn lemma_picture_added(
    before: ImageManager,
    mid: ImageManager,
    after: ImageManager,
    path: Seq<char>,
    frames: Seq<RgbaImage>,
    n: int,
    id: ImageId,
)
    requires
        0 <= n < frames.len(),
        before.images@.len() + frames.len() < u32::MAX,
        pictures_added(before, mid, path, frames, n),
        exists|a: Arc<RgbaImage>| *a == frames[n] && #[trigger] mid.added(&after, id, a),
        exists|key: ImageKey|
            key.path@ == path && key.frame_index == n && after.key_to_id.entries@
                == #[trigger] table::put(mid.key_to_id.entries@, key, id),
        after == (ImageManager {
            images: after.images,
            resident_bytes: after.resident_bytes,
            key_to_id: after.key_to_id,
            ..mid
        }),
    ensures
        pictures_added(before, after, path, frames, n + 1),
{
    let base = before.images@.len() as int;
    let a = choose|a: Arc<RgbaImage>| *a == frames[n] && #[trigger] mid.added(&after, id, a);
    let key = choose|key: ImageKey|
        key.path@ == path && key.frame_index == n && after.key_to_id.entries@
            == #[trigger] table::put(mid.key_to_id.entries@, key, id);
    assert(after.images@.take(base) =~= mid.images@.take(base));
    assert forall|k: int| 0 <= k < n + 1 implies ((#[trigger] after.images@[base + k]).img matches Some(
        img,
    ) && *img == frames[k] && after.images@[base + k].version == 0
        && after.images@[base + k].last_used == before.access_clock) by {
        if k < n {
            assert(after.images@[base + k] == mid.images@[base + k]);
        }
    }
    assert forall|k: int| 0 <= k < n + 1 implies #[trigger] named(
        after.key_to_id.entries@,
        path,
        k,
        ImageId((base + k) as u32),
    ) by {
        if k < n {
            assert(named(mid.key_to_id.entries@, path, k, ImageId((base + k) as u32)));
            lemma_named_after_put(
                mid.key_to_id.entries@,
                key,
                id,
                path,
                k,
                ImageId((base + k) as u32),
            );
        } else {
            lemma_put_is_named(mid.key_to_id.entries@, key, id);
        }
    }
    assert forall|other: ImageKey|
        !(paths::same_path(other.path@, path) && other.frame_index < n + 1) implies #[trigger] table::lookup(
        after.key_to_id.entries@,
        other,
    ) == table::lookup(before.key_to_id.entries@, other) by {
        table::put_leaves_other_keys(mid.key_to_id.entries@, key, id, other);
        assert(table::lookup(mid.key_to_id.entries@, other) == table::lookup(
            before.key_to_id.entries@,
            other,
        ));
    }
}

/// The colors still show after a new image was put into the tables of files
/// and of descriptors.
proof fn lemma_listed_solids(before: ImageManager, after: ImageManager, id: ImageId)
    requires
        before.wf(),
        before.solids_intact(),
        after.solid_to_id == before.solid_to_id,
        after.g00_album_to_ids == before.g00_album_to_ids,
        id.0 >= before.images@.len(),
        after.images@.len() >= before.images@.len(),
        forall|i: int|
            0 <= i < before.images@.len() ==> (#[trigger] after.images@[i]).img
                == before.images@[i].img,
        after.key_to_id.entries@ == before.key_to_id.entries@ || exists|key: ImageKey|
            after.key_to_id.entries@ == #[trigger] table::put(
                before.key_to_id.entries@,
                key,
                id,
            ),
        after.composite_to_id.entries@ == before.composite_to_id.entries@ || exists|
            key: CompositeKey,
        |
            after.composite_to_id.entries@ == #[trigger] table::put(
                before.composite_to_id.entries@,
                key,
                id,
            ),
    ensures
        after.solids_intact(),
{
    assert forall|other: ImageId|
        other.0 < before.images@.len() && before.unlisted(other) implies #[trigger] after.unlisted(
        other,
    ) by {
        if after.key_to_id.entries@ != before.key_to_id.entries@ {
            let key = choose|key: ImageKey|
                after.key_to_id.entries@ == #[trigger] table::put(
                    before.key_to_id.entries@,
                    key,
                    id,
                );
            image_manager::lemma_put_unlisted(before.key_to_id.entries@, key, id, other);
        }
        if after.composite_to_id.entries@ != before.composite_to_id.entries@ {
            let key = choose|key: CompositeKey|
                after.composite_to_id.entries@ == #[trigger] table::put(
                    before.composite_to_id.entries@,
                    key,
                    id,
                );
            image_manager::lemma_put_unlisted(before.composite_to_id.entries@, key, id, other);
        }
    }
    assert forall|i: int| 0 <= i < before.solid_to_id.entries@.len() implies ({
        let at = (#[trigger] before.solid_to_id.entries@[i]).1;
        after.images@[at.0 as int].img == before.images@[at.0 as int].img
    }) by {
        let e = before.solid_to_id.entries@[i];
        assert(before.shows_color(e.0, e.1));
        assert(after.images@[e.1.0 as int].img == before.images@[e.1.0 as int].img);
    }
    image_manager::lemma_solids_kept(before, after);
}

/// The colors still show after new images were made an album.
proof fn lemma_album_solids(
    before: ImageManager,
    after: ImageManager,
    base: int,
    ids: Vec<ImageId>,
)
    requires
        before.wf(),
        before.solids_intact(),
        image_manager::ids_below(before.solid_to_id.entries@, base),
        after == (ImageManager { g00_album_to_ids: after.g00_album_to_ids, ..before }),
        forall|k: int| 0 <= k < ids@.len() ==> (#[trigger] ids@[k]).0 >= base,
        exists|key: String|
            after.g00_album_to_ids.entries@ == #[trigger] table::put(
                before.g00_album_to_ids.entries@,
                key,
                ids,
            ),
    ensures
        after.solids_intact(),
{
    let was = before.g00_album_to_ids.entries@;
    let now = after.g00_album_to_ids.entries@;
    let key = choose|key: String| now == #[trigger] table::put(was, key, ids);
    assert forall|i: int| 0 <= i < after.solid_to_id.entries@.len() implies after.shows_color(
        (#[trigger] after.solid_to_id.entries@[i]).0,
        after.solid_to_id.entries@[i].1,
    ) by {
        let e = before.solid_to_id.entries@[i];
        assert(before.shows_color(e.0, e.1));
        assert(e.1.0 < base);
        if image_manager::in_album(now, e.1) {
            let (a, k) = choose|a: int, k: int|
                0 <= a < now.len() && 0 <= k < now[a].1@.len() && #[trigger] now[a].1@[k] == e.1;
            if a < was.len() && now[a] == was[a] {
                assert(was[a].1@[k] == e.1);
            } else {
                assert(now[a].1 == ids);
                assert(ids@[k].0 >= base);
            }
        }
    }
}

/// Whether all pictures of a frame file have been taken in, and the file
/// stands for their numbers in order.
pub open spec fn album_added(
    before: ImageManager,
    after: ImageManager,
    path: Seq<char>,
    frames: Seq<RgbaImage>,
) -> bool {
    &&& pictures_added(
        ImageManager { g00_album_to_ids: after.g00_album_to_ids, ..before },
        after,
        path,
        frames,
        frames.len() as int,
    )
    &&& exists|key: String, ids: Vec<ImageId>|
        key@ == path && ids@ == Seq::new(
            frames.len(),
            |k: int| ImageId((before.images@.len() + k) as u32),
        ) && after.g00_album_to_ids.entries@ == #[trigger] table::put(
            before.g00_album_to_ids.entries@,
            key,
            ids,
        )
}

proof fn lemma_put_below<K: TableKey>(
    entries: Seq<(K, ImageId)>,
    key: K,
    id: ImageId,
    n: int,
)
    requires
        image_manager::ids_below(entries, n),
        id.0 < n,
    ensures
        image_manager::ids_below(table::put(entries, key, id), n),
{
    let after = table::put(entries, key, id);
    assert forall|i: int| 0 <= i < after.len() implies (#[trigger] after[i]).1.0 < n by {
        if i < entries.len() {
            assert(entries[i].1.0 < n);
        }
    }
}

proof fn lemma_put_album_below(
    entries: Seq<(String, Vec<ImageId>)>,
    after: Seq<(String, Vec<ImageId>)>,
    ids: Vec<ImageId>,
    n: int,
)
    requires
        image_manager::albums_below(entries, n),
        forall|k: int| 0 <= k < ids@.len() ==> (#[trigger] ids@[k]).0 < n,
        exists|key: String| after == #[trigger] table::put(entries, key, ids),
    ensures
        image_manager::albums_below(after, n),
{
    let key = choose|key: String| after == #[trigger] table::put(entries, key, ids);
    assert forall|i: int, k: int|
        #![trigger after[i].1@[k]]
        0 <= i < after.len() && 0 <= k < after[i].1@.len() implies after[i].1@[k].0 < n by {
        if i < entries.len() && after[i] == entries[i] {
            assert(entries[i].1@[k].0 < n);
        } else {
            assert(after[i].1 == ids);
            assert(ids@[k].0 < n);
        }
    }
}

/// An album of new numbers shares none with the others.
proof fn lemma_put_album_apart(
    entries: Seq<(String, Vec<ImageId>)>,
    after: Seq<(String, Vec<ImageId>)>,
    ids: Vec<ImageId>,
    n: int,
)
    requires
        image_manager::albums_below(entries, n),
        image_manager::albums_apart(entries),
        forall|k: int| 0 <= k < ids@.len() ==> (#[trigger] ids@[k]).0 >= n,
        exists|key: String| after == #[trigger] table::put(entries, key, ids),
    ensures
        image_manager::albums_apart(after),
{
    let key = choose|key: String| after == #[trigger] table::put(entries, key, ids);
    let at = if table::has_key(entries, key) {
        choose|i: int| table::first_under(entries, key, i)
    } else {
        entries.len() as int
    };
    assert forall|a: int, j: int, b: int, k: int|
        #![trigger after[a].1@[j], after[b].1@[k]]
        0 <= a < after.len() && 0 <= j < after[a].1@.len() && 0 <= b < after.len() && 0 <= k
            < after[b].1@.len() && after[a].1@[j] == after[b].1@[k] implies a == b by {
        if a != at {
            assert(after[a] == entries[a]);
            assert(entries[a].1@[j].0 < n);
        } else {
            assert(ids@[j].0 >= n);
        }
        if b != at {
            assert(after[b] == entries[b]);
            assert(entries[b].1@[k].0 < n);
        } else {
            assert(ids@[k].0 >= n);
        }
        if a != at && b != at {
            assert(entries[a].1@[j] == entries[b].1@[k]);
        }
    }
}

// Pictures that are drawn over others.

/// The images after each of the numbers was used, in order.
pub open spec fn touched_all(images: Seq<ImageEntry>, clock: u64, ids: Seq<ImageId>) -> (
    Seq<ImageEntry>,
    u64,
)
    decreases ids.len(),
{
    if ids.len() == 0 {
        (images, clock)
    } else {
        let before = touched_all(images, clock, ids.drop_last());
        (
            image_manager::touched(before.0, before.1, ids.last()),
            image_manager::clock_after(before.0, before.1, ids.last()),
        )
    }
}

proof fn lemma_touch_keeps_image(images: Seq<ImageEntry>, clock: u64, ids: Seq<ImageId>)
    ensures
        touched_all(images, clock, ids).0.len() == images.len(),
        forall|i: int|
            0 <= i < images.len() ==> (#[trigger] touched_all(images, clock, ids).0[i]).img
                == images[i].img,
    decreases ids.len(),
{
    if ids.len() > 0 {
        lemma_touch_keeps_image(images, clock, ids.drop_last());
        let before = touched_all(images, clock, ids.drop_last());
        let after = touched_all(images, clock, ids).0;
        assert forall|i: int| 0 <= i < images.len() implies (#[trigger] after[i]).img
            == images[i].img by {
            assert(before.0[i].img == images[i].img);
        }
    }
}

/// The image at a number.
pub open spec fn image_at(images: Seq<ImageEntry>, id: ImageId) -> Option<Arc<RgbaImage>> {
    if id.0 < images.len() {
        images[id.0 as int].img
    } else {
        None
    }
}

impl ImageManager {
    /// Draws a difference over its base. What was drawn before is not drawn
    /// again, and from then on the file stands for the whole picture.
    pub fn compose_cg_base_delta(
        &mut self,
        path: &str,
        frame_index: usize,
        delta_id: ImageId,
        base_id: ImageId,
    ) -> (r: Result<ImageId, ImageManagerError>)
        requires
            old(self).wf(),
            old(self).images@.len() < u32::MAX,
        ensures
            final(self).wf(),
            old(self).keeps_count(final(self)),
            old(self).keeps_solids(final(self)),
            exists|key: ImageKey|
                #![trigger key.path@]
                key.path@ == path@ && key.frame_index == frame_index && base_drawn(
                    *old(self),
                    *final(self),
                    key,
                    delta_id,
                    base_id,
                    r,
                ),
    {
        let key = ImageKey { path: path.to_owned(), frame_index };
        let second = ImageKey { path: path.to_owned(), frame_index };
        let ghost before = *self;
        if let Some(i) = self.cg_composite_to_ids.find(&key) {
            let id: ImageId = self.cg_composite_to_ids.entries[i].1;
            proof {
                assert(key.path@ == path@);
            }
            return Ok(id);
        }
        let found = self.share_two(delta_id, base_id);
        let ghost mid = *self;
        proof {
            lemma_touch_keeps_image(before.images@, before.access_clock, seq![delta_id, base_id]);
        }
        let (delta, base) = match found {
            Some(pair) => pair,
            None => {
                proof {
                    assert(key.path@ == path@);
                }
                return Err(ImageManagerError::MissingImage);
            },
        };
        proof {
            assert(images_have_pixels(before.images@, delta_id));
            assert(images_have_pixels(before.images@, base_id));
        }
        let composed = compose_cg_base_delta_image(&base, &delta);
        let arc = Arc::new(composed);
        proof {
            assert(arc@ == composed@);
        }
        let id = self.insert_image_arc(arc);
        let ghost added = *self;
        self.cg_composite_to_ids.insert(key, id);
        self.key_to_id.insert(second, id);
        proof {
            let n = added.images@.len() as int;
            lemma_put_below(added.cg_composite_to_ids.entries@, key, id, n);
            lemma_put_below(added.key_to_id.entries@, second, id, n);
            assert(mid.added(self, id, arc));
            assert(self.images@.drop_last() =~= mid.images@);
            assert(second.same(&key));
            assert(self.key_to_id.entries@ == table::put(before.key_to_id.entries@, second, id));
            if mid.solids_intact() {
                lemma_listed_solids(mid, *self, id);
            }
            let used = touched_all(before.images@, before.access_clock, seq![delta_id, base_id]);
            assert(appended(before, *self, used.0, used.1));
            assert(*self == (ImageManager {
                images: self.images,
                access_clock: self.access_clock,
                resident_bytes: self.resident_bytes,
                key_to_id: self.key_to_id,
                cg_composite_to_ids: self.cg_composite_to_ids,
                ..before
            }));
            assert(self.cg_composite_to_ids.entries@ == table::put(
                before.cg_composite_to_ids.entries@,
                key,
                id,
            ));
            assert(base_drawn(
                before,
                *self,
                key,
                delta_id,
                base_id,
                Ok::<ImageId, ImageManagerError>(id),
            ));
            assert(key.path@ == path@);
        }
        Ok(id)
    }

    /// Two images, both of which count as used.
    fn share_two(&mut self, first: ImageId, second: ImageId) -> (r: Option<
        (Arc<RgbaImage>, Arc<RgbaImage>),
    >)
        requires
            old(self).wf(),
        ensures
            final(self).wf(),
            final(self).resident_bytes == old(self).resident_bytes,
            final(self).same_tables(old(self)),
            final(self).images@.len() == old(self).images@.len(),
            old(self).counted() ==> final(self).counted(),
            old(self).keeps_solids(final(self)),
            match r {
                Some((a, b)) => {
                    &&& image_at(old(self).images@, first) == Some(a)
                    &&& image_at(old(self).images@, second) == Some(b)
                    &&& final(self).images@ == touched_all(
                        old(self).images@,
                        old(self).access_clock,
                        seq![first, second],
                    ).0
                    &&& final(self).access_clock == touched_all(
                        old(self).images@,
                        old(self).access_clock,
                        seq![first, second],
                    ).1
                    &&& a.wf()
                    &&& b.wf()
                },
                None => {
                    &&& image_at(old(self).images@, first) is None || image_at(
                        old(self).images@,
                        second,
                    ) is None
                    &&& final(self).images@ == touched_all(
                        old(self).images@,
                        old(self).access_clock,
                        seq![first],
                    ).0
                    &&& final(self).access_clock == touched_all(
                        old(self).images@,
                        old(self).access_clock,
                        seq![first],
                    ).1
                },
            },
    {
        let ghost before = self.images@;
        let ghost clock = self.access_clock;
        proof {
            lemma_touch_keeps_image(before, clock, seq![first]);
            lemma_touch_keeps_image(before, clock, seq![first, second]);
            assert(seq![first].drop_last() =~= Seq::<ImageId>::empty());
            assert(seq![first, second].drop_last() =~= seq![first]);
            reveal_with_fuel(touched_all, 3);
        }
        let a = match self.take_share(first) {
            Some(a) => a,
            None => {
                return None;
            },
        };
        let b = match self.take_share(second) {
            Some(b) => b,
            None => {
                return None;
            },
        };
        Some((a, b))
    }
}

/// Whether a present image has its pixels.
pub open spec fn images_have_pixels(images: Seq<ImageEntry>, id: ImageId) -> bool {
    image_at(images, id) matches Some(img) ==> img.wf()
}

/// Whether one image was taken in after images were used: the places that were
/// there are `used` and the clock is `clock`.
pub open spec fn appended(
    before: ImageManager,
    after: ImageManager,
    used: Seq<ImageEntry>,
    clock: u64,
) -> bool {
    let last = after.images@.last();
    &&& after.images@.len() == before.images@.len() + 1
    &&& after.images@.drop_last() == used
    &&& after.access_clock == clock
    &&& last.version == 0
    &&& last.last_used == clock
    &&& after.resident_bytes == image_store::sat_add(
        before.resident_bytes as int,
        image_store::bytes_at(last),
    )
}

/// What becomes of a difference and its base.
pub open spec fn base_drawn(
    before: ImageManager,
    after: ImageManager,
    key: ImageKey,
    delta_id: ImageId,
    base_id: ImageId,
    r: Result<ImageId, ImageManagerError>,
) -> bool {
    let delta = image_at(before.images@, delta_id);
    let base = image_at(before.images@, base_id);
    if table::has_key(before.cg_composite_to_ids.entries@, key) {
        &&& r == Ok::<ImageId, ImageManagerError>(
            table::value_under(before.cg_composite_to_ids.entries@, key),
        )
        &&& after == before
    } else if delta is None || base is None {
        let used = touched_all(before.images@, before.access_clock, seq![delta_id]);
        &&& r == Err::<ImageId, ImageManagerError>(ImageManagerError::MissingImage)
        &&& after.same_tables(&before)
        &&& after.images@ == used.0
        &&& after.access_clock == used.1
        &&& after.resident_bytes == before.resident_bytes
    } else {
        let used = touched_all(before.images@, before.access_clock, seq![delta_id, base_id]);
        &&& r matches Ok(id) && id.0 == before.images@.len()
            && after.cg_composite_to_ids.entries@ == table::put(
            before.cg_composite_to_ids.entries@,
            key,
            id,
        ) && exists|second: ImageKey|
            second.same(&key) && after.key_to_id.entries@ == #[trigger] table::put(
                before.key_to_id.entries@,
                second,
                id,
            )
        &&& appended(before, after, used.0, used.1)
        &&& (after.images@.last().img matches Some(img) && image_compose::is_drawn(
            base->0@,
            img@,
            delta->0@,
            image_compose::centered(base->0.center_x, delta->0.center_x, 0),
            image_compose::centered(base->0.center_y, delta->0.center_y, 0),
            0,
        ))
        &&& after == (ImageManager {
            images: after.images,
            access_clock: after.access_clock,
            resident_bytes: after.resident_bytes,
            key_to_id: after.key_to_id,
            cg_composite_to_ids: after.cg_composite_to_ids,
            ..before
        })
    }
}

// Images that are drawn from descriptors.

/// The picture of an album that a part names. A number outside the album
/// names the first or the last picture.
pub fn cut_of(album: &Vec<ImageId>, cut_no: i32) -> (id: ImageId)
    requires
        0 < album@.len() <= i32::MAX,
    ensures
        id == album@[if cut_no < 0 {
            0
        } else if cut_no >= album@.len() {
            album@.len() - 1
        } else {
            cut_no as int
        }],
{
    if cut_no < 0 {
        album[0]
    } else if cut_no as usize >= album.len() {
        album[album.len() - 1]
    } else {
        album[cut_no as usize]
    }
}

/// An image without a visible pixel.
pub open spec fn blank_view(width: int, height: int) -> ImageView {
    ImageView {
        width: width as u32,
        height: height as u32,
        center_x: 0,
        center_y: 0,
        rgba: Seq::new((width * height * 4) as nat, |i: int| 0u8),
    }
}

/// Why there can be no image of this size, if there cannot.
fn blank_error(width: i32, height: i32) -> (r: Option<ImageManagerError>)
    ensures
        match r {
            None => width > 0 && height > 0 && width * height * 4 <= usize::MAX,
            Some(e) => if width <= 0 || height <= 0 {
                e == ImageManagerError::BlankBase
            } else {
                e == ImageManagerError::BlankSizeOverflow && width * height * 4 > usize::MAX
            },
        },
{
    if width <= 0 || height <= 0 {
        return Some(ImageManagerError::BlankBase);
    }
    proof {
        assert(0 <= width * height <= 0x7fff_ffff * 0x7fff_ffff) by (nonlinear_arith)
            requires
                0 <= width <= 0x7fff_ffff,
                0 <= height <= 0x7fff_ffff,
        ;
    }
    let len: u128 = width as u128 * height as u128 * 4;
    if len > usize::MAX as u128 {
        return Some(ImageManagerError::BlankSizeOverflow);
    }
    None
}

fn blank_image(width: i32, height: i32) -> (r: Result<RgbaImage, ImageManagerError>)
    ensures
        match r {
            Ok(img) => {
                &&& width > 0 && height > 0 && width * height * 4 <= usize::MAX
                &&& img@ == blank_view(width as int, height as int)
                &&& img.wf()
            },
            Err(e) => if width <= 0 || height <= 0 {
                e == ImageManagerError::BlankBase
            } else {
                e == ImageManagerError::BlankSizeOverflow && width * height * 4 > usize::MAX
            },
        },
{
    if let Some(e) = blank_error(width, height) {
        return Err(e);
    }
    proof {
        assert(0 <= width * height <= width * height * 4) by (nonlinear_arith)
            requires
                0 <= width,
                0 <= height,
        ;
    }
    let len: usize = width as usize * height as usize * 4;
    let mut rgba: Vec<u8> = Vec::new();
    rgba.resize(len, 0);
    proof {
        assert(rgba@ =~= blank_view(width as int, height as int).rgba);
    }
    Ok(RgbaImage { width: width as u32, height: height as u32, center_x: 0, center_y: 0, rgba })
}

/// The image that the others are drawn into: the first part's, or one without
/// a visible pixel where that has no file.
pub open spec fn canvas(part: PartView, cut: Option<Arc<RgbaImage>>) -> Result<
    ImageView,
    ImageManagerError,
> {
    if part.file_name.len() == 0 {
        if part.x <= 0 || part.y <= 0 {
            Err(ImageManagerError::BlankBase)
        } else if part.x * part.y * 4 > usize::MAX {
            Err(ImageManagerError::BlankSizeOverflow)
        } else {
            Ok(blank_view(part.x, part.y))
        }
    } else {
        match cut {
            Some(img) => Ok(img@),
            None => Err(ImageManagerError::MissingImage),
        }
    }
}

/// Whether there can be a canvas, before any picture is looked for: a first
/// part without a file has to give a size.
pub fn check_canvas(first: &G00ComposePart) -> (r: Result<(), ImageManagerError>)
    ensures
        r == (if first.file_name@.len() > 0 {
            Ok::<(), ImageManagerError>(())
        } else {
            match canvas(first@, None) {
                Ok(_) => Ok(()),
                Err(e) => Err(e),
            }
        }),
{
    if first.file_name.as_str().unicode_len() == 0 {
        if let Some(e) = blank_error(first.x, first.y) {
            return Err(e);
        }
    }
    Ok(())
}

/// Whether `after` is `before` with the picture of a part drawn into it, its
/// center at the part's place from the center of the canvas.
pub open spec fn part_drawn(
    first: ImageView,
    before: ImageView,
    after: ImageView,
    part: PartView,
    cut: Option<Arc<RgbaImage>>,
) -> bool {
    cut matches Some(img) && image_compose::is_drawn(
        before,
        after,
        img@,
        image_compose::centered(first.center_x, img.center_x, part.x as i32),
        image_compose::centered(first.center_y, img.center_y, part.y as i32),
        part.blend_type as i32,
    )
}

/// Whether `stages` are the steps of a composed image: the canvas, and then
/// each part drawn into the step before.
pub open spec fn is_composition(
    parts: Seq<PartView>,
    cuts: Seq<Option<Arc<RgbaImage>>>,
    stages: Seq<ImageView>,
) -> bool {
    &&& stages.len() == parts.len()
    &&& canvas(parts[0], cuts[0]) == Ok::<ImageView, ImageManagerError>(stages[0])
    &&& forall|i: int|
        1 <= i < parts.len() ==> part_drawn(
            stages[0],
            stages[i - 1],
            #[trigger] stages[i],
            parts[i],
            cuts[i],
        )
}

/// Draws a composed image. `cuts` has the picture of each part that has a
/// file.
pub fn compose_parts(parts: &Vec<G00ComposePart>, cuts: &Vec<Option<Arc<RgbaImage>>>) -> (r: Result<
    RgbaImage,
    ImageManagerError,
>)
    requires
        parts@.len() > 0,
        cuts@.len() == parts@.len(),
        forall|i: int|
            0 <= i < cuts@.len() ==> (#[trigger] cuts@[i] matches Some(img) ==> img.wf()),
    ensures
        match r {
            Ok(img) => img.wf() && exists|stages: Seq<ImageView>| #[trigger]
                is_composition(composed_descriptor::part_views(parts@), cuts@, stages) && img@
                    == stages.last(),
            Err(e) => match canvas(parts@[0]@, cuts@[0]) {
                Err(f) => e == f,
                Ok(_) => e == ImageManagerError::MissingImage && exists|i: int|
                    1 <= i < cuts@.len() && #[trigger] cuts@[i] is None,
            },
        },
{
    let ghost views = composed_descriptor::part_views(parts@);
    let first = &parts[0];
    let mut composed = if first.file_name.as_str().unicode_len() == 0 {
        match blank_image(first.x, first.y) {
            Ok(img) => img,
            Err(e) => {
                return Err(e);
            },
        }
    } else {
        match &cuts[0] {
            Some(img) => (**img).clone(),
            None => {
                return Err(ImageManagerError::MissingImage);
            },
        }
    };
    let base_x: i32 = composed.center_x;
    let base_y: i32 = composed.center_y;
    let ghost mut stages: Seq<ImageView> = seq![composed@];
    let mut i: usize = 1;
    while i < parts.len()
        invariant
            views == composed_descriptor::part_views(parts@),
            cuts@.len() == parts@.len(),
            forall|k: int|
                0 <= k < cuts@.len() ==> (#[trigger] cuts@[k] matches Some(img) ==> img.wf()),
            1 <= i <= parts@.len(),
            stages.len() == i,
            canvas(views[0], cuts@[0]) == Ok::<ImageView, ImageManagerError>(stages[0]),
            base_x == stages[0].center_x,
            base_y == stages[0].center_y,
            stages.last() == composed@,
            composed.wf(),
            forall|k: int|
                1 <= k < i ==> part_drawn(
                    stages[0],
                    stages[k - 1],
                    #[trigger] stages[k],
                    views[k],
                    cuts@[k],
                ),
        decreases parts@.len() - i,
    {
        let overlay = match &cuts[i] {
            Some(img) => img,
            None => {
                proof {
                    assert(cuts@[i as int] is None);
                }
                return Err(ImageManagerError::MissingImage);
            },
        };
        let part = &parts[i];
        let x: i32 = anchored(base_x, overlay.center_x, part.x);
        let y: i32 = anchored(base_y, overlay.center_y, part.y);
        let ghost before = composed@;
        proof {
            assert(cuts@[i as int] matches Some(img) ==> img.wf());
        }
        compose_g00_cut(&mut composed, overlay, x, y, part.blend_type);
        proof {
            let next = stages.push(composed@);
            assert(part_drawn(stages[0], before, composed@, views[i as int], cuts@[i as int]));
            assert forall|k: int| 1 <= k < i + 1 implies part_drawn(
                next[0],
                next[k - 1],
                #[trigger] next[k],
                views[k],
                cuts@[k],
            ) by {
                if k < i {
                    assert(part_drawn(stages[0], stages[k - 1], stages[k], views[k], cuts@[k]));
                }
            }
            stages = next;
        }
        i = i + 1;
    }
    proof {
        assert(is_composition(views, cuts@, stages));
    }
    Ok(composed)
}

/// What comes next when a descriptor is loaded.
#[derive(Debug)]
pub enum ComposeStep {
    /// The image is there.
    Ready(ImageId),
    /// Load the pictures of the parts, then call `compose_g00`.
    Compose(Vec<G00ComposePart>),
}

/// The key of a composed image.
pub open spec fn is_composite_key(key: CompositeKey, append_dir: Seq<char>, raw: Seq<char>) -> bool {
    key.append_dir@ == append_dir && key.descriptor@ == composed_descriptor::without_spaces(raw)
}

impl ImageManager {
    fn composite_key(&self, descriptor: &str) -> (key: CompositeKey)
        ensures
            is_composite_key(key, self.current_append_dir@, descriptor@),
    {
        CompositeKey {
            append_dir: self.current_append_dir.clone(),
            descriptor: normalized_g00_composite_descriptor(descriptor),
        }
    }

    /// The next step for a descriptor.
    pub fn load_g00_composed(&self, descriptor: &str) -> (r: Result<ComposeStep, ImageManagerError>)
        ensures
            exists|key: CompositeKey| #[trigger]
                is_composite_key(key, self.current_append_dir@, descriptor@) && if table::has_key(
                    self.composite_to_id.entries@,
                    key,
                ) {
                    r matches Ok(ComposeStep::Ready(id)) && id == table::value_under(
                        self.composite_to_id.entries@,
                        key,
                    )
                } else {
                    match r {
                        Ok(ComposeStep::Compose(parts)) => composed_descriptor::describes(
                            descriptor@,
                            Ok(composed_descriptor::part_views(parts@)),
                        ),
                        Err(ImageManagerError::Descriptor(e)) => composed_descriptor::describes(
                            descriptor@,
                            Err(e),
                        ),
                        _ => false,
                    }
                },
    {
        let key = self.composite_key(descriptor);
        if let Some(i) = self.composite_to_id.find(&key) {
            return Ok(ComposeStep::Ready(self.composite_to_id.entries[i].1));
        }
        match parse_g00_composite_descriptor(descriptor) {
            Ok(parts) => Ok(ComposeStep::Compose(parts)),
            Err(e) => Err(ImageManagerError::Descriptor(e)),
        }
    }

    /// The images at some numbers, each of which counts as used. Where one is
    /// missing, those behind it are not looked at. The first number may be
    /// left out where `blank` says so.
    fn share_all(&mut self, ids: &Vec<Option<ImageId>>, blank: bool) -> (r: Option<
        Vec<Option<Arc<RgbaImage>>>,
    >)
        requires
            old(self).wf(),
        ensures
            final(self).wf(),
            final(self).resident_bytes == old(self).resident_bytes,
            final(self).same_tables(old(self)),
            old(self).counted() ==> final(self).counted(),
            old(self).keeps_solids(final(self)),
            match r {
                Some(cuts) => {
                    &&& cuts@ == cuts_at(old(self).images@, ids@)
                    &&& forall|i: int|
                        0 <= i < cuts@.len() ==> (#[trigger] cuts@[i] matches Some(img)
                            ==> img.wf())
                    &&& forall|i: int| 0 <= i < ids@.len() ==> !is_missing(cuts@, blank, i)
                    &&& uses(*old(self), *final(self), ids@)
                },
                None => exists|i: int| #[trigger]
                    first_missing(cuts_at(old(self).images@, ids@), blank, i) && uses(
                        *old(self),
                        *final(self),
                        ids@.take(i),
                    ),
            },
    {
        let mut cuts: Vec<Option<Arc<RgbaImage>>> = Vec::new();
        let ghost before = self.images@;
        let ghost clock = self.access_clock;
        let ghost wanted = cuts_at(before, ids@);
        let mut i: usize = 0;
        proof {
            assert(ids@.take(0) =~= Seq::<Option<ImageId>>::empty());
        }
        while i < ids.len()
            invariant
                before == old(self).images@,
                clock == old(self).access_clock,
                wanted == cuts_at(before, ids@),
                i <= ids@.len(),
                cuts@.len() == i,
                self.wf(),
                self.resident_bytes == old(self).resident_bytes,
                self.same_tables(old(self)),
                old(self).wf(),
                old(self).counted() ==> self.counted(),
                old(self).keeps_solids(self),
                uses(*old(self), *self, ids@.take(i as int)),
                forall|k: int| 0 <= k < i ==> #[trigger] cuts@[k] == wanted[k],
                forall|k: int| 0 <= k < i ==> !is_missing(wanted, blank, k),
                forall|k: int|
                    0 <= k < i ==> (#[trigger] cuts@[k] matches Some(img) ==> img.wf()),
            decreases ids@.len() - i,
        {
            proof {
                lemma_touch_keeps_image(before, clock, given(ids@.take(i as int)));
                let taken = ids@.take(i + 1);
                assert(taken.drop_last() =~= ids@.take(i as int));
                assert(taken.last() == ids@[i as int]);
                assert(given(ids@.take(i as int)).push(ids@[i as int]->0).drop_last() =~= given(
                    ids@.take(i as int),
                ));
            }
            let ghost was = self.images@;
            let cut = match ids[i] {
                Some(id) => self.take_share(id),
                None => None,
            };
            proof {
                assert(cut == wanted[i as int]);
                if cut is None {
                    assert(self.images@ == was);
                }
            }
            if cut.is_none() && !(blank && i == 0) {
                proof {
                    assert(is_missing(wanted, blank, i as int));
                    assert(first_missing(wanted, blank, i as int));
                }
                return None;
            }
            cuts.push(cut);
            i = i + 1;
        }
        proof {
            assert(ids@.take(i as int) =~= ids@);
            assert(cuts@ =~= wanted);
        }
        Some(cuts)
    }

    /// Draws the image of a descriptor from the pictures at the numbers `ids`,
    /// one for each part that has a file, and takes it in.
    pub fn compose_g00(
        &mut self,
        descriptor: &str,
        parts: &Vec<G00ComposePart>,
        ids: &Vec<Option<ImageId>>,
    ) -> (r: Result<ImageId, ImageManagerError>)
        requires
            old(self).wf(),
            old(self).images@.len() < u32::MAX,
            parts@.len() > 0,
            ids@.len() == parts@.len(),
        ensures
            final(self).wf(),
            old(self).keeps_count(final(self)),
            old(self).keeps_solids(final(self)),
            ({
                let cuts = cuts_at(old(self).images@, ids@);
                let views = composed_descriptor::part_views(parts@);
                let blank = views[0].file_name.len() == 0;
                match r {
                    Ok(id) => {
                        let used = touched_all(
                            old(self).images@,
                            old(self).access_clock,
                            given(ids@),
                        );
                        &&& id.0 == old(self).images@.len()
                        &&& appended(*old(self), *final(self), used.0, used.1)
                        &&& (final(self).images@.last().img matches Some(img) && exists|
                            stages: Seq<ImageView>,
                        | #[trigger]
                            is_composition(views, cuts, stages) && img@ == stages.last())
                        &&& exists|key: CompositeKey| #[trigger]
                            is_composite_key(key, old(self).current_append_dir@, descriptor@)
                                && final(self).composite_to_id.entries@ == table::put(
                                old(self).composite_to_id.entries@,
                                key,
                                id,
                            )
                        &&& *final(self) == (ImageManager {
                            images: final(self).images,
                            access_clock: final(self).access_clock,
                            resident_bytes: final(self).resident_bytes,
                            composite_to_id: final(self).composite_to_id,
                            ..*old(self)
                        })
                    },
                    Err(e) => match canvas(views[0], cuts[0]) {
                        Err(f) => e == f && final(self).same_tables(old(self)) && uses(
                            *old(self),
                            *final(self),
                            Seq::empty(),
                        ),
                        Ok(_) => e == ImageManagerError::MissingImage && exists|i: int| #[trigger]
                            first_missing(cuts, blank, i) && uses(
                                *old(self),
                                *final(self),
                                ids@.take(i),
                            ) && final(self).same_tables(old(self)),
                    },
                }
            }),
    {
        let ghost before = *self;
        let ghost wanted = cuts_at(before.images@, ids@);
        let ghost views = composed_descriptor::part_views(parts@);
        let blank: bool = parts[0].file_name.as_str().unicode_len() == 0;
        if let Err(e) = check_canvas(&parts[0]) {
            return Err(e);
        }
        let cuts = match self.share_all(ids, blank) {
            Some(cuts) => cuts,
            None => {
                proof {
                    let i = choose|i: int| #[trigger]
                        first_missing(wanted, blank, i) && uses(before, *self, ids@.take(i));
                    if i == 0 {
                        assert(ids@.take(0) =~= Seq::<Option<ImageId>>::empty());
                    } else {
                        assert(!is_missing(wanted, blank, 0));
                    }
                }
                return Err(ImageManagerError::MissingImage);
            },
        };
        let composed = match compose_parts(parts, &cuts) {
            Ok(img) => img,
            Err(e) => {
                proof {
                    assert(!is_missing(wanted, blank, 0));
                    let i = choose|i: int| 1 <= i < cuts@.len() && #[trigger] cuts@[i] is None;
                    assert(!is_missing(wanted, blank, i));
                    assert(false);
                }
                return Err(e);
            },
        };
        let key = self.composite_key(descriptor);
        let arc = Arc::new(composed);
        let ghost mid = *self;
        proof {
            lemma_touch_keeps_image(before.images@, before.access_clock, given(ids@));
        }
        let id = self.insert_image_arc(arc);
        let ghost added = *self;
        self.composite_to_id.insert(key, id);
        proof {
            lemma_put_below(added.composite_to_id.entries@, key, id, added.images@.len() as int);
            assert(self.images@.drop_last() =~= mid.images@);
            assert(arc@ == composed@);
            if mid.solids_intact() {
                lemma_listed_solids(mid, *self, id);
            }
        }
        Ok(id)
    }
}

/// The image at a number, where there is one.
pub open spec fn cut_at(images: Seq<ImageEntry>, id: Option<ImageId>) -> Option<Arc<RgbaImage>> {
    match id {
        Some(id) => image_at(images, id),
        None => None,
    }
}

/// The images at some numbers.
pub open spec fn cuts_at(images: Seq<ImageEntry>, ids: Seq<Option<ImageId>>) -> Seq<
    Option<Arc<RgbaImage>>,
> {
    Seq::new(ids.len(), |i: int| cut_at(images, ids[i]))
}

/// The numbers that are given.
pub open spec fn given(ids: Seq<Option<ImageId>>) -> Seq<ImageId>
    decreases ids.len(),
{
    if ids.len() == 0 {
        Seq::empty()
    } else {
        match ids.last() {
            Some(id) => given(ids.drop_last()).push(id),
            None => given(ids.drop_last()),
        }
    }
}

/// Whether a picture is missing. The first may be left out where `blank` says
/// so.
pub open spec fn is_missing(cuts: Seq<Option<Arc<RgbaImage>>>, blank: bool, i: int) -> bool {
    cuts[i] is None && !(blank && i == 0)
}

pub open spec fn first_missing(cuts: Seq<Option<Arc<RgbaImage>>>, blank: bool, i: int) -> bool {
    &&& 0 <= i < cuts.len()
    &&& is_missing(cuts, blank, i)
    &&& forall|k: int| 0 <= k < i ==> !is_missing(cuts, blank, k)
}

/// Whether the images of `after` are those of `before` after the numbers were
/// used in order, with the clock and the bytes that follow.
pub open spec fn uses(before: ImageManager, after: ImageManager, ids: Seq<Option<ImageId>>) -> bool {
    let used = touched_all(before.images@, before.access_clock, given(ids));
    &&& after.images@ == used.0
    &&& after.access_clock == used.1
    &&& after.resident_bytes == before.resident_bytes
}

/// Every picture of a frame file that was read is found afterwards under the file
/// and its own place, and holds what the file had there.
pub proof fn pictures_that_were_read_are_found(
    before: ImageManager,
    after: ImageManager,
    path: Seq<char>,
    frames: Seq<RgbaImage>,
    key: ImageKey,
)
    requires
        album_added(before, after, path, frames),
        before.images@.len() + frames.len() < u32::MAX,
        paths::same_path(key.path@, path),
        key.frame_index < frames.len(),
        assets::extension_of(key.path@) == "g00"@,
        base_of(key.path@) is None,
        !table::has_key(before.cg_composite_to_ids.entries@, key),
    ensures
        ({
            let id = ImageId((before.images@.len() + key.frame_index) as u32);
            &&& file_step(after, key) == Ok::<StepView, ImageManagerError>(StepView::Ready(id))
            &&& after.images@[id.0 as int].img matches Some(img) && *img
                == frames[key.frame_index as int]
        }),
{
    let k = key.frame_index as int;
    let base = before.images@.len() as int;
    let entries = after.key_to_id.entries@;
    assert(named(entries, path, k, ImageId((base + k) as u32)));
    let i = choose|i: int|
        #![trigger entries[i]]
        0 <= i < entries.len() && is_picture(entries[i].0, path, k) && entries[i].1 == ImageId(
            (base + k) as u32,
        ) && forall|j: int| 0 <= j < i ==> !is_picture((#[trigger] entries[j]).0, path, k);
    assert(table::first_under(entries, key, i)) by {
        assert forall|j: int| 0 <= j < i implies !(#[trigger] entries[j]).0.same(&key) by {
            assert(!is_picture(entries[j].0, path, k));
        }
    }
    table::lemma_first(entries, key, i);
    assert(after.images@[base + k].img is Some);
}

/// A blank canvas has the size that its part names, and is transparent all over.
pub proof fn blank_canvases_are_transparent(part: PartView, cut: Option<Arc<RgbaImage>>, i: int)
    requires
        part.file_name.len() == 0,
        1 <= part.x <= i32::MAX,
        1 <= part.y <= i32::MAX,
        part.x * part.y * 4 <= usize::MAX,
        0 <= i < part.x * part.y * 4,
    ensures
        canvas(part, cut) matches Ok(v) && v.width == part.x && v.height == part.y && v.center_x
            == 0 && v.center_y == 0 && v.rgba.len() == part.x * part.y * 4 && v.rgba[i] == 0,
{
}

/// The parts of a composed image lie by their centers: the pixel in column `u`
/// and row `v` of an opaque part comes to lie so that the part's center is as far
/// from that of the first part as its numbers say.
pub proof fn parts_lie_by_their_centers(
    first: ImageView,
    before: ImageView,
    after: ImageView,
    part: PartView,
    img: Arc<RgbaImage>,
    u: int,
    v: int,
    k: int,
)
    requires
        part_drawn(first, before, after, part, Some(img)),
        before.rgba.len() == before.width * before.height * 4,
        img.wf(),
        0 <= u < img.width,
        0 <= v < img.height,
        0 <= k < 4,
        i32::MIN <= part.x <= i32::MAX,
        i32::MIN <= part.y <= i32::MAX,
        i32::MIN <= part.blend_type <= i32::MAX,
        i32::MIN <= part.x + first.center_x <= i32::MAX,
        i32::MIN <= part.y + first.center_y <= i32::MAX,
        i32::MIN <= part.x + first.center_x - img.center_x <= i32::MAX,
        i32::MIN <= part.y + first.center_y - img.center_y <= i32::MAX,
        0 <= first.center_x + part.x + u - img.center_x < before.width,
        0 <= first.center_y + part.y + v - img.center_y < before.height,
        img.rgba@[4 * (v * img.width + u) + 3] == 255,
        part.blend_type != 1,
        part.blend_type != 3,
    ensures
        ({
            let px = first.center_x + part.x + u - img.center_x;
            let py = first.center_y + part.y + v - img.center_y;
            after.rgba[4 * (py * before.width + px) + k] == img.rgba@[4 * (v * img.width + u) + k]
        }),
{
    let x = image_compose::centered(first.center_x, img.center_x, part.x as i32);
    let y = image_compose::centered(first.center_y, img.center_y, part.y as i32);
    image_compose::centers_are_kept_apart_by_the_offset(
        first.center_x,
        img.center_x,
        part.x as i32,
    );
    image_compose::centers_are_kept_apart_by_the_offset(
        first.center_y,
        img.center_y,
        part.y as i32,
    );
    image_compose::parts_lie_where_they_are_drawn(
        before,
        after,
        img@,
        x,
        y,
        part.blend_type as i32,
        x + u,
        y + v,
        k,
    );
}

} // verus!
