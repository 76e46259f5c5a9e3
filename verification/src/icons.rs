//! App icons: PNG frames turned into RGBA8 pixels, and the lookup of an
//! app's icon by name or by its desktop file's stem.

use vstd::prelude::*;
use crate::data::opt_view;
use crate::data::string_views;
use crate::text::{chars_of, string_of};

verus! {

/// Decoded RGBA8 (not premultiplied).
pub struct Icon {
    pub w: u32,
    pub h: u32,
    pub rgba: Vec<u8>,
}

/// The first frame the `png` crate decodes from `data`, with its output
/// normalised to 8-bit samples: width, height, PNG colour-type code and
/// the decoder's output buffer; `None` when decoding fails.
pub uninterp spec fn png_frame(data: Seq<u8>) -> Option<(u32, u32, u8, Seq<u8>)>;

pub open spec fn frame_view(f: Option<(u32, u32, u8, Vec<u8>)>) -> Option<(u32, u32, u8, Seq<u8>)> {
    match f {
        Some((w, h, c, buf)) => Some((w, h, c, buf@)),
        None => None,
    }
}

/// Decodes the first frame of `data` with `png::Decoder` (transformations
/// `normalize_to_color8`, `read_info`, a buffer of `output_buffer_size`
/// zero bytes, `next_frame`), handing back width, height, the colour
/// type's PNG code and the buffer. The contract names the decoder's
/// result and claims only that it depends on `data` alone.
#[verifier::external_body]
fn png_decode_frame(data: &[u8]) -> (r: Option<(u32, u32, u8, Vec<u8>)>)
    ensures
        frame_view(r) == png_frame(data@),
{
    let mut dec = png::Decoder::new(std::io::Cursor::new(data));
    dec.set_transformations(png::Transformations::normalize_to_color8());
    let mut reader = match dec.read_info() {
        Ok(r) => r,
        Err(_) => return None,
    };
    let mut buf = vec![0u8; reader.output_buffer_size()];
    match reader.next_frame(&mut buf) {
        Ok(info) => Some((info.width, info.height, info.color_type as u8, buf)),
        Err(_) => None,
    }
}

// PNG colour-type codes.
pub const GRAY: u8 = 0;
pub const RGB: u8 = 2;
pub const GRAY_ALPHA: u8 = 4;
pub const RGBA: u8 = 6;

/// Bytes per pixel of an 8-bit frame of colour type `c` (0 when the type
/// is not one an icon is made from).
pub open spec fn bytes_per_pixel(c: u8) -> nat {
    if c == GRAY {
        1
    } else if c == RGB {
        3
    } else if c == GRAY_ALPHA {
        2
    } else if c == RGBA {
        4
    } else {
        0
    }
}

/// The RGBA bytes of pixel `p`.
pub open spec fn rgba_pixel(c: u8, buf: Seq<u8>, p: int) -> Seq<u8> {
    if c == RGBA {
        seq![buf[4 * p], buf[4 * p + 1], buf[4 * p + 2], buf[4 * p + 3]]
    } else if c == RGB {
        seq![buf[3 * p], buf[3 * p + 1], buf[3 * p + 2], 255u8]
    } else if c == GRAY {
        seq![buf[p], buf[p], buf[p], 255u8]
    } else {
        seq![buf[2 * p], buf[2 * p], buf[2 * p], buf[2 * p + 1]]
    }
}

/// The RGBA bytes of the first `n` pixels.
pub open spec fn rgba_pixels(c: u8, buf: Seq<u8>, n: nat) -> Seq<u8>
    decreases n,
{
    if n == 0 {
        seq![]
    } else {
        rgba_pixels(c, buf, (n - 1) as nat) + rgba_pixel(c, buf, n - 1)
    }
}

pub proof fn lemma_rgba_pixels_len(c: u8, buf: Seq<u8>, n: nat)
    ensures
        rgba_pixels(c, buf, n).len() == 4 * n,
    decreases n,
{
    if n > 0 {
        lemma_rgba_pixels_len(c, buf, (n - 1) as nat);
    }
}

/// A `w` x `h` frame of colour type `c` whose buffer holds every pixel
/// and whose RGBA size fits in memory.
pub open spec fn frame_fits(w: u32, h: u32, c: u8, buf: Seq<u8>) -> bool {
    &&& bytes_per_pixel(c) > 0
    &&& w * h * 4 <= usize::MAX
    &&& buf.len() >= w * h * bytes_per_pixel(c)
}

/// The icon a decoded frame gives.
pub open spec fn icon_is(i: Icon, w: u32, h: u32, c: u8, buf: Seq<u8>) -> bool {
    &&& i.w == w
    &&& i.h == h
    &&& i.rgba@ == rgba_pixels(c, buf, (w * h) as nat)
}

/// Expand a decoded `w` x `h` frame to RGBA8: grey is copied to the three
/// colour channels, and a missing alpha is opaque. `None` for a colour
/// type other than grey, grey+alpha, RGB or RGBA.
pub fn expand_rgba(w: u32, h: u32, c: u8, buf: &[u8]) -> (r: Option<Icon>)
    requires
        w * h * 4 <= usize::MAX,
        buf@.len() >= w * h * bytes_per_pixel(c),
    ensures
        bytes_per_pixel(c) == 0 ==> r is None,
        bytes_per_pixel(c) > 0 ==> r is Some && icon_is(r->0, w, h, c, buf@),
{
    if !(c == GRAY || c == RGB || c == GRAY_ALPHA || c == RGBA) {
        return None;
    }
    proof {
        assert(w * h <= w * h * 4) by (nonlinear_arith)
            requires
                w * h * 4 <= usize::MAX,
        ;
    }
    let n: usize = (w as usize) * (h as usize);
    let blen = buf.len();
    let mut out: Vec<u8> = Vec::new();
    let mut p: usize = 0;
    while p < n
        invariant
            p <= n,
            n == w * h,
            blen == buf@.len(),
            buf@.len() >= n * bytes_per_pixel(c),
            bytes_per_pixel(c) > 0,
            out@ == rgba_pixels(c, buf@, p as nat),
        decreases n - p,
    {
        proof {
            assert((p + 1) * bytes_per_pixel(c) <= n * bytes_per_pixel(c)) by (nonlinear_arith)
                requires
                    p + 1 <= n,
            ;
        }
        if c == RGBA {
            assert(4 * p + 4 <= buf@.len());
            out.push(buf[4 * p]);
            out.push(buf[4 * p + 1]);
            out.push(buf[4 * p + 2]);
            out.push(buf[4 * p + 3]);
        } else if c == RGB {
            out.push(buf[3 * p]);
            out.push(buf[3 * p + 1]);
            out.push(buf[3 * p + 2]);
            out.push(255u8);
        } else if c == GRAY {
            let g = buf[p];
            out.push(g);
            out.push(g);
            out.push(g);
            out.push(255u8);
        } else {
            assert(2 * p + 2 <= buf@.len());
            let g = buf[2 * p];
            let a = buf[2 * p + 1];
            out.push(g);
            out.push(g);
            out.push(g);
            out.push(a);
        }
        assert(out@ =~= rgba_pixels(c, buf@, (p + 1) as nat));
        p = p + 1;
    }
    Some(Icon { w, h, rgba: out })
}

/// Decode a PNG file's bytes to an RGBA8 icon: `None` when the decoder
/// fails, or when the frame is not grey, grey+alpha, RGB or RGBA (or its
/// buffer is too short for its size, which the decoder never gives).
pub fn decode_png(data: &[u8]) -> (r: Option<Icon>)
    ensures
        match png_frame(data@) {
            None => r is None,
            Some((w, h, c, buf)) => if frame_fits(w, h, c, buf) {
                r is Some && icon_is(r->0, w, h, c, buf)
            } else {
                r is None
            },
        },
{
    match png_decode_frame(data) {
        None => None,
        Some((w, h, c, buf)) => {
            proof {
                assert(w * h <= 0xffff_ffff * 0xffff_ffffu64) by (nonlinear_arith)
                    requires
                        w <= 0xffff_ffffu32,
                        h <= 0xffff_ffffu32,
                ;
            }
            let wide = (w as u128) * (h as u128) * 4;
            let bpp: u128 = if c == GRAY {
                1
            } else if c == RGB {
                3
            } else if c == GRAY_ALPHA {
                2
            } else if c == RGBA {
                4
            } else {
                0
            };
            if bpp == 0 || wide > usize::MAX as u128 {
                return None;
            }
            if (buf.len() as u128) < (w as u128) * (h as u128) * bpp {
                return None;
            }
            expand_rgba(w, h, c, buf.as_slice())
        },
    }
}

impl Icon {
    pub fn copy(&self) -> (r: Icon)
        ensures
            r.w == self.w,
            r.h == self.h,
            r.rgba@ == self.rgba@,
    {
        Icon { w: self.w, h: self.h, rgba: vstd::slice::slice_to_vec(self.rgba.as_slice()) }
    }
}

// ---------------------------------------------------------------------------
// the icon set

/// The decoded icons by name (no extension), and the icon tree roots
/// that were scanned. A name occurs at most once: the first one found
/// (the largest size) wins.
pub struct IconSet {
    pub map: Vec<(String, Icon)>,
    pub roots: Vec<String>,
}

pub open spec fn names_distinct(m: Seq<(String, Icon)>) -> bool {
    forall|i: int, j: int|
        0 <= i < m.len() && 0 <= j < m.len() && i != j ==> (#[trigger] m[i]).0@ != (#[trigger] m[j]).0@
}

pub open spec fn has_icon(m: Seq<(String, Icon)>, name: Seq<char>) -> bool {
    exists|i: int| 0 <= i < m.len() && (#[trigger] m[i]).0@ == name
}

/// The icon stored under `name`: `r` is a copy of it, or `None` when
/// the set has no such name.
pub open spec fn lookup_is(m: Seq<(String, Icon)>, name: Seq<char>, r: Option<Icon>) -> bool {
    match r {
        None => !has_icon(m, name),
        Some(ic) => exists|i: int|
            0 <= i < m.len() && (#[trigger] m[i]).0@ == name && ic.w == m[i].1.w && ic.h
                == m[i].1.h && ic.rgba@ == m[i].1.rgba@,
    }
}

impl IconSet {
    pub fn new(roots: Vec<String>) -> (s: Self)
        ensures
            s.map@.len() == 0,
            s.roots@ == roots@,
    {
        IconSet { map: Vec::new(), roots }
    }

    /// Is there an icon named `name`?
    pub fn contains(&self, name: &str) -> (r: bool)
        ensures
            r == has_icon(self.map@, name@),
    {
        let key = name.to_owned();
        let mut i: usize = 0;
        while i < self.map.len()
            invariant
                i <= self.map@.len(),
                key@ == name@,
                forall|j: int| 0 <= j < i ==> (#[trigger] self.map@[j]).0@ != name@,
            decreases self.map@.len() - i,
        {
            if self.map[i].0 == key {
                assert(self.map@[i as int].0@ == name@);
                return true;
            }
            i = i + 1;
        }
        false
    }

    /// A copy of the icon named `name`.
    pub fn get(&self, name: &str) -> (r: Option<Icon>)
        ensures
            lookup_is(self.map@, name@, r),
    {
        let key = name.to_owned();
        let mut i: usize = 0;
        while i < self.map.len()
            invariant
                i <= self.map@.len(),
                key@ == name@,
                forall|j: int| 0 <= j < i ==> (#[trigger] self.map@[j]).0@ != name@,
            decreases self.map@.len() - i,
        {
            if self.map[i].0 == key {
                let ic = self.map[i].1.copy();
                assert(self.map@[i as int].0@ == name@);
                return Some(ic);
            }
            i = i + 1;
        }
        None
    }

    /// Add `icon` under `name` unless the name is taken (a larger size
    /// found earlier wins); whether it was added.
    pub fn add_if_absent(&mut self, name: String, icon: Icon) -> (added: bool)
        requires
            names_distinct(old(self).map@),
        ensures
            names_distinct(final(self).map@),
            final(self).roots@ == old(self).roots@,
            added == !has_icon(old(self).map@, name@),
            added ==> final(self).map@ == old(self).map@.push((name, icon)),
            !added ==> final(self).map@ == old(self).map@,
    {
        let ghost key = name@;
        let mut i: usize = 0;
        while i < self.map.len()
            invariant
                i <= self.map@.len(),
                key == name@,
                *self == *old(self),
                names_distinct(self.map@),
                forall|j: int| 0 <= j < i ==> (#[trigger] self.map@[j]).0@ != name@,
            decreases self.map@.len() - i,
        {
            if self.map[i].0 == name {
                assert(self.map@[i as int].0@ == name@);
                return false;
            }
            i = i + 1;
        }
        self.map.push((name, icon));
        true
    }
}

/// The icon directories of a theme, in the order they are read: the
/// sized `NxN/apps` directories from the largest size down, then the
/// plain `apps` directory. Since the first icon of a name is kept (see
/// [`IconSet::add_if_absent`]), bigger sizes win.
pub open spec fn icon_subdirs_order() -> Seq<Seq<char>> {
    seq!["128x128/apps"@, "64x64/apps"@, "48x48/apps"@, "32x32/apps"@, "apps"@]
}

pub fn icon_subdirs() -> (r: Vec<String>)
    ensures
        string_views(r@) == icon_subdirs_order(),
{
    let mut r: Vec<String> = Vec::new();
    r.push(string_of(&chars_of("128x128/apps")));
    r.push(string_of(&chars_of("64x64/apps")));
    r.push(string_of(&chars_of("48x48/apps")));
    r.push(string_of(&chars_of("32x32/apps")));
    r.push(string_of(&chars_of("apps")));
    assert(string_views(r@) =~= icon_subdirs_order());
    r
}

/// The stem of the last component of `path` (`Path::file_stem`).
pub uninterp spec fn path_stem(path: Seq<char>) -> Option<Seq<char>>;

/// `Path::new(path).file_stem()`, as a string: the file name without its
/// last extension. The contract names the result and claims only that
/// it depends on `path` alone.
#[verifier::external_body]
fn file_stem_of(path: &str) -> (r: Option<String>)
    ensures
        opt_view(r) == path_stem(path@),
{
    std::path::Path::new(path).file_stem().and_then(|s| s.to_str()).map(|s| s.to_string())
}

/// The icon for an app given the stem of its desktop file: by
/// `icon_name`; when that finds none, by the stem.
pub fn icon_for(set: &IconSet, icon_name: &str, stem: Option<&str>) -> (r: Option<Icon>)
    ensures
        has_icon(set.map@, icon_name@) ==> lookup_is(set.map@, icon_name@, r),
        !has_icon(set.map@, icon_name@) ==> match stem {
            Some(s) => lookup_is(set.map@, s@, r),
            None => r is None,
        },
{
    let by_name = set.get(icon_name);
    if by_name.is_some() {
        return by_name;
    }
    match stem {
        Some(s) => set.get(s),
        None => None,
    }
}

/// The icon for an app: by `icon_name`, else (when that finds nothing,
/// an empty name included) by the stem of its desktop file's path, the
/// common `Icon=` convention.
pub fn for_app(set: &IconSet, icon_name: &str, desktop_path: &str) -> (r: Option<Icon>)
    ensures
        has_icon(set.map@, icon_name@) ==> lookup_is(set.map@, icon_name@, r),
        !has_icon(set.map@, icon_name@) ==> match path_stem(desktop_path@) {
            Some(s) => lookup_is(set.map@, s, r),
            None => r is None,
        },
{
    let stem = file_stem_of(desktop_path);
    match stem {
        Some(s) => icon_for(set, icon_name, Some(s.as_str())),
        None => icon_for(set, icon_name, None),
    }
}

} // verus!
