//! Omarchy's desktop background, painted behind the chat while the app
//! follows the desktop's palette.
//!
//! The app calls `DesktopBackground::refresh` whenever the theme catalog
//! reloads, with the key of the file behind `current/background`. The image
//! is only decoded again when that file actually changed. The app reads the
//! file, decodes it on a thread of its own and hands the result to `poll`;
//! this type decides what to load and what to keep.

use vstd::prelude::*;

verus! {

/// Largest background file decoded, in bytes.
pub const MAX_BYTES: u64 = 67108864;

/// Longest side of the decoded image; larger images are scaled down to it.
pub const MAX_SIDE: u32 = 2560;

/// Identifies the background file without decoding it, so reloads caused by
/// unrelated theme files keep the texture already on screen.
#[derive(Debug)]
pub struct Key {
    /// The canonical path of the file, as the bytes of the OS string.
    pub path: Vec<u8>,
    /// When the file was last modified, in nanoseconds from the Unix epoch,
    /// if the system says.
    pub modified: Option<i128>,
    /// The file's length in bytes.
    pub len: u64,
}

impl View for Key {
    type V = (Seq<u8>, Option<i128>, u64);

    open spec fn view(&self) -> (Seq<u8>, Option<i128>, u64) {
        (self.path@, self.modified, self.len)
    }
}

impl Key {
    /// Whether two keys name the same file in the same state.
    pub fn same(&self, other: &Key) -> (res: bool)
        ensures
            res == (self@ == other@),
    {
        if self.len != other.len || self.modified != other.modified {
            return false;
        }
        if self.path.len() != other.path.len() {
            return false;
        }
        for i in 0..self.path.len()
            invariant
                self.path@.len() == other.path@.len(),
                forall|j: int| 0 <= j < i ==> self.path@[j] == other.path@[j],
        {
            if self.path[i] != other.path[i] {
                return false;
            }
        }
        assert(self.path@ =~= other.path@);
        true
    }
}

/// The key of an optional file.
pub open spec fn key_view(key: Option<Key>) -> Option<(Seq<u8>, Option<i128>, u64)> {
    match key {
        Some(k) => Some(k@),
        None => None,
    }
}

/// Whether a file of `len` bytes is small enough to decode.
pub fn fits(len: u64) -> (res: bool)
    ensures
        res == (len <= MAX_BYTES),
{
    len <= MAX_BYTES
}

/// Whether an image of `width` by `height` pixels must be scaled down to fit
/// in one texture.
pub fn needs_scaling(width: u32, height: u32) -> (res: bool)
    ensures
        res == (width > MAX_SIDE || height > MAX_SIDE),
{
    let longest = if width >= height { width } else { height };
    longest > MAX_SIDE
}

/// What the `image` crate decodes from `bytes`, in the format that the
/// file extension `ext` names, as 8-bit RGBA: the width, the height and the
/// pixels, row by row; nothing when the extension names no format it knows
/// or the bytes are not such an image.
pub uninterp spec fn decoded_image(ext: Seq<char>, bytes: Seq<u8>) -> Option<(u32, u32, Seq<u8>)>;

/// What the `image` crate makes of that image scaled, with the triangle
/// filter and in the image's own pixel format, to the largest size within
/// `MAX_SIDE` by `MAX_SIDE` of the same shape, then taken as 8-bit RGBA.
pub uninterp spec fn fitted_image(ext: Seq<char>, bytes: Seq<u8>) -> (u32, u32, Seq<u8>);

/// `w2` by `h2` is within `MAX_SIDE` on each side, its longer side is
/// `MAX_SIDE`, and the shorter one is the other side of `w` by `h` scaled by
/// the same factor, to within a pixel.
pub open spec fn scaled_shape(w: u32, h: u32, w2: u32, h2: u32) -> bool {
    &&& 1 <= w2 <= MAX_SIDE && 1 <= h2 <= MAX_SIDE
    &&& w >= h ==> w2 == MAX_SIDE && -(w as int) <= h2 * w - h * MAX_SIDE <= w
    &&& h > w ==> h2 == MAX_SIDE && -(h as int) <= w2 * h - w * MAX_SIDE <= h
}

/// Decodes an image file in memory to 8-bit RGBA, in the format that its
/// extension `ext` names, as `image::open` does for a file on disk.
///
/// Calls `ImageFormat::from_extension`, then
/// `image::load_from_memory_with_format`, `DynamicImage::to_rgba8` and
/// `ImageBuffer::into_raw`. The contract names the result `decoded_image`;
/// an RGBA buffer of `w` by `h` pixels holds `4 * w * h` bytes.
#[verifier::external_body]
pub fn decode_rgba(ext: &str, bytes: &[u8]) -> (res: Option<(u32, u32, Vec<u8>)>)
    ensures
        match res {
            Some((w, h, p)) => decoded_image(ext@, bytes@) == Some((w, h, p@)) && p@.len() == 4 * w * h,
            None => decoded_image(ext@, bytes@) is None,
        },
{
    let format = image::ImageFormat::from_extension(ext)?;
    let image = image::load_from_memory_with_format(bytes, format).ok()?;
    let rgba = image.to_rgba8();
    let (w, h) = rgba.dimensions();
    Some((w, h, rgba.into_raw()))
}

/// Decodes an image file in memory that is larger than `MAX_SIDE`, scales it
/// down to fit within `MAX_SIDE` by `MAX_SIDE`, and takes it as 8-bit RGBA.
///
/// Calls `ImageFormat::from_extension` and
/// `image::load_from_memory_with_format` as `decode_rgba` does, which give
/// an image for these arguments, then `DynamicImage::resize` with the
/// triangle filter and `to_rgba8`. The documentation of `resize` says that
/// the aspect ratio is kept and that the image is scaled to the largest size
/// that fits within the bounds; its source (`resize_dimensions`) multiplies
/// both sides by the smaller of `MAX_SIDE / width` and `MAX_SIDE / height`
/// and rounds, at least 1. The contract names the result `fitted_image` and
/// states that shape, as `scaled_shape`.
#[verifier::external_body]
pub fn decode_fitted(ext: &str, bytes: &[u8]) -> (res: (u32, u32, Vec<u8>))
    requires
        decoded_image(ext@, bytes@) matches Some((w, h, _)) && (w > MAX_SIDE || h > MAX_SIDE),
    ensures
        (res.0, res.1, res.2@) == fitted_image(ext@, bytes@),
        scaled_shape(
            decoded_image(ext@, bytes@).unwrap().0,
            decoded_image(ext@, bytes@).unwrap().1,
            res.0,
            res.1,
        ),
        res.2@.len() == 4 * res.0 * res.1,
{
    let format = image::ImageFormat::from_extension(ext).unwrap();
    let image = image::load_from_memory_with_format(bytes, format).unwrap();
    let scaled = image.resize(MAX_SIDE, MAX_SIDE, image::imageops::FilterType::Triangle).to_rgba8();
    let (w, h) = scaled.dimensions();
    (w, h, scaled.into_raw())
}

/// Why a background file gives no image.
#[derive(PartialEq, Eq, Structural, Debug)]
pub enum DecodeError {
    /// The file is larger than `MAX_BYTES`.
    TooLarge,
    /// The file is not an image that can be read.
    Unreadable,
}

/// Decodes the background file of `len` bytes whose extension is `ext` and
/// whose contents are `bytes`, scaled down so it fits in one texture: the
/// width, the height and the RGBA pixels. A file larger than `MAX_BYTES` is
/// not decoded; the app may pass no bytes for it.
pub fn decode(ext: &str, len: u64, bytes: &[u8]) -> (res: Result<(u32, u32, Vec<u8>), DecodeError>)
    ensures
        len > MAX_BYTES ==> res == Err::<(u32, u32, Vec<u8>), DecodeError>(DecodeError::TooLarge),
        len <= MAX_BYTES ==> match decoded_image(ext@, bytes@) {
            None => res == Err::<(u32, u32, Vec<u8>), DecodeError>(DecodeError::Unreadable),
            Some((w, h, p)) => res matches Ok((w2, h2, p2)) && if w > MAX_SIDE || h > MAX_SIDE {
                &&& (w2, h2, p2@) == fitted_image(ext@, bytes@)
                &&& scaled_shape(w, h, w2, h2)
            } else {
                (w2, h2, p2@) == (w, h, p)
            },
        },
        res matches Ok((w2, h2, p2)) ==> w2 <= MAX_SIDE && h2 <= MAX_SIDE && p2@.len() == 4 * w2 * h2,
{
    if !fits(len) {
        return Err(DecodeError::TooLarge);
    }
    match decode_rgba(ext, bytes) {
        None => Err(DecodeError::Unreadable),
        Some((w, h, p)) => {
            if needs_scaling(w, h) {
                Ok(decode_fitted(ext, bytes))
            } else {
                Ok((w, h, p))
            }
        },
    }
}

/// What came from the loading thread, seen by `poll`.
pub enum Received<I> {
    /// A finished load: the file's key and its image, if it decoded.
    Loaded(Key, Option<I>),
    /// Nothing yet.
    Empty,
    /// The loading thread is gone without an answer.
    Disconnected,
}

/// The background image and its loading state. `I` is the decoded image and
/// `R` the receiving end of the loading thread's channel.
pub struct DesktopBackground<I, R> {
    key: Option<Key>,
    image: Option<I>,
    generation: u64,
    receiver: Option<R>,
}

impl<I, R> DesktopBackground<I, R> {
    /// The key of the image shown, or being kept.
    pub closed spec fn current_key(&self) -> Option<(Seq<u8>, Option<i128>, u64)> {
        key_view(self.key)
    }

    /// The image shown.
    pub closed spec fn shown(&self) -> Option<I> {
        self.image
    }

    /// The counter that changes whenever the image is replaced or removed.
    pub closed spec fn counter(&self) -> u64 {
        self.generation
    }

    /// The receiver of the load under way, if any.
    pub closed spec fn loader(&self) -> Option<R> {
        self.receiver
    }

    /// From `old` to `new` the counter never goes down, and it goes up
    /// whenever the image shown changes.
    pub open spec fn counted(old: Self, new: Self) -> bool {
        &&& new.counter() >= old.counter()
        &&& new.shown() != old.shown() ==> new.counter() > old.counter()
    }

    /// Over a run of states each counted from the one before, the counter
    /// never goes down, and two states that show different images have
    /// different counters.
    pub proof fn law_counter_tracks_the_image(states: Seq<Self>, i: int, j: int)
        requires
            forall|k: int| 0 <= k < states.len() - 1 ==> Self::counted(#[trigger] states[k], states[k + 1]),
            0 <= i <= j < states.len(),
        ensures
            states[j].counter() >= states[i].counter(),
            states[i].shown() != states[j].shown() ==> states[j].counter() > states[i].counter(),
        decreases j - i,
    {
        if i < j {
            Self::law_counter_tracks_the_image(states, i, j - 1);
            assert(Self::counted(states[j - 1], states[j]));
        }
    }

    /// No background, nothing loading.
    pub fn new() -> (res: Self)
        ensures
            res.current_key() is None,
            res.shown() is None,
            res.counter() == 0,
            res.loader() is None,
    {
        DesktopBackground { key: None, image: None, generation: 0, receiver: None }
    }

    /// Loads the background again if it changed. `key` is the key of the
    /// desktop's background file, or `None` when the app does not follow the
    /// desktop's palette or there is no such file: then the background is
    /// dropped, since it belongs to the desktop's palette. `receiver` is the
    /// receiving end of a fresh channel; when a key is returned, the app
    /// decodes that file and sends the result on the channel.
    pub fn refresh(&mut self, key: Option<Key>, receiver: R) -> (load: Option<Key>)
        requires
            old(self).counter() < u64::MAX,
        ensures
            Self::counted(*old(self), *final(self)),
            match key {
                None => {
                    &&& load is None
                    &&& final(self).loader() is None
                    &&& final(self).current_key() is None
                    &&& final(self).shown() is None
                    &&& final(self).counter() == if old(self).current_key() is Some || old(self).shown() is Some {
                        old(self).counter() + 1
                    } else {
                        old(self).counter() as int
                    }
                },
                Some(k) => if old(self).current_key() == Some(k@) {
                    &&& load is None
                    &&& *final(self) == *old(self)
                } else {
                    &&& load matches Some(l) && l@ == k@
                    &&& final(self).loader() == Some(receiver)
                    &&& final(self).current_key() == old(self).current_key()
                    &&& final(self).shown() == old(self).shown()
                    &&& final(self).counter() == old(self).counter()
                },
            },
    {
        match key {
            None => {
                self.receiver = None;
                if self.key.is_some() || self.image.is_some() {
                    self.key = None;
                    self.image = None;
                    self.generation = self.generation + 1;
                }
                None
            },
            Some(k) => {
                let unchanged = match &self.key {
                    Some(current) => current.same(&k),
                    None => false,
                };
                if unchanged {
                    return None;
                }
                self.receiver = Some(receiver);
                Some(k)
            },
        }
    }

    /// The receiver of the load under way, for the app to look at.
    pub fn receiver(&self) -> (res: Option<&R>)
        ensures
            match res {
                Some(r) => self.loader() == Some(*r),
                None => self.loader() is None,
            },
    {
        self.receiver.as_ref()
    }

    /// Takes a finished load. The app calls it every frame with what its
    /// receiver gave, while there is a receiver.
    pub fn poll(&mut self, event: Received<I>)
        requires
            old(self).counter() < u64::MAX,
        ensures
            Self::counted(*old(self), *final(self)),
            old(self).loader() is None ==> *final(self) == *old(self),
            old(self).loader() is Some ==> match event {
                Received::Loaded(k, image) => {
                    &&& final(self).loader() is None
                    &&& final(self).current_key() == Some(k@)
                    &&& final(self).shown() == image
                    &&& final(self).counter() == old(self).counter() + 1
                },
                Received::Empty => *final(self) == *old(self),
                Received::Disconnected => {
                    &&& final(self).loader() is None
                    &&& final(self).current_key() == old(self).current_key()
                    &&& final(self).shown() == old(self).shown()
                    &&& final(self).counter() == old(self).counter()
                },
            },
    {
        if self.receiver.is_none() {
            return;
        }
        match event {
            Received::Loaded(key, image) => {
                self.receiver = None;
                self.key = Some(key);
                self.image = image;
                self.generation = self.generation + 1;
            },
            Received::Empty => {},
            Received::Disconnected => {
                self.receiver = None;
            },
        }
    }

    /// The current image, with a counter that changes whenever it is
    /// replaced or removed.
    pub fn image(&self) -> (res: (u64, Option<&I>))
        ensures
            res.0 == self.counter(),
            match res.1 {
                Some(i) => self.shown() == Some(*i),
                None => self.shown() is None,
            },
    {
        (self.generation, self.image.as_ref())
    }
}

impl<I, R> Default for DesktopBackground<I, R> {
    /// No background, nothing loading.
    fn default() -> (res: Self)
        ensures
            res.current_key() is None,
            res.shown() is None,
            res.counter() == 0,
            res.loader() is None,
    {
        Self::new()
    }
}

} // verus!
