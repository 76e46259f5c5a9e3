//! The settings client: its sections, the `wpctl status` sink lines it
//! lists, its pixel format and its CPU painter.

use vstd::prelude::*;
use crate::text::{
    chars_of, copy_range, find_char, first_index, set_pred, starts_with, string_of, strip_start,
    trim, trim_start, trim_start_by, trimmed, TrimSet,
};

verus! {

/// The screens of the settings client.
#[derive(Clone, Copy, PartialEq, Eq, Structural, Debug)]
pub enum Section {
    Wifi,
    Bluetooth,
    Audio,
}

pub open spec fn section_title(s: Section) -> Seq<char> {
    match s {
        Section::Wifi => "Wi-Fi"@,
        Section::Bluetooth => "Bluetooth"@,
        Section::Audio => "Audio"@,
    }
}

impl Section {
    pub fn title(self) -> (t: &'static str)
        ensures
            t@ == section_title(self),
    {
        match self {
            Section::Wifi => "Wi-Fi",
            Section::Bluetooth => "Bluetooth",
            Section::Audio => "Audio",
        }
    }
}

/// An RGB colour.
pub type Rgb = [u8; 3];

/// A colour as `wl_shm` ARGB8888 bytes on little-endian: B, G, R, A=255.
pub fn rgb(c: Rgb) -> (r: [u8; 4])
    ensures
        r@ == seq![c@[2], c@[1], c@[0], 255u8],
{
    let r = [c[2], c[1], c[0], 255];
    assert(r@ =~= seq![c@[2], c@[1], c@[0], 255u8]);
    r
}

/// `s` cut before its first `[` and trimmed (trimmed only when there is
/// no `[`).
pub open spec fn name_before_bracket(s: Seq<char>) -> Seq<char> {
    let b = first_index(s, '[');
    if b < s.len() {
        trim(s.take(b as int))
    } else {
        s
    }
}

/// A `wpctl status` sink line `[*] ID. NAME [tags]` as (id, name,
/// default): the id is the trimmed text before the first `.`.
pub open spec fn sink_line(line: Seq<char>) -> Option<(Seq<char>, Seq<char>, bool)> {
    let t = trim_start(line);
    let rest = trim_start(trim_start_by(t, set_pred(TrimSet::Only('*'))));
    let dot = first_index(rest, '.');
    if dot < rest.len() {
        Some(
            (
                trim(rest.take(dot as int)),
                name_before_bracket(trim(rest.skip(dot + 1 as int))),
                starts_with(t, seq!['*']),
            ),
        )
    } else {
        None
    }
}

/// Parse a `wpctl status` sink line:
/// `  *   41. Built-in Audio Analogue Stereo [vol: 0.40]` -> (id, name, default)
pub fn parse_wpctl_sink(line: &str) -> (r: Option<(String, String, bool)>)
    ensures
        match r {
            Some((id, name, def)) => sink_line(line@) == Some((id@, name@, def)),
            None => sink_line(line@) is None,
        },
{
    let cs = chars_of(line);
    let t = strip_start(&cs, &TrimSet::Space);
    let def = t.len() > 0 && t[0] == '*';
    proof {
        assert(def == starts_with(t@, seq!['*'])) by {
            if t@.len() > 0 {
                assert(t@.take(1)[0] == t@[0]);
                if t@[0] == '*' {
                    assert(t@.take(1) =~= seq!['*']);
                }
            }
        }
    }
    let a = strip_start(&t, &TrimSet::Only('*'));
    let rest = strip_start(&a, &TrimSet::Space);
    let dot = find_char(&rest, 0, '.');
    proof {
        assert(rest@.skip(0) =~= rest@);
    }
    if dot >= rest.len() {
        return None;
    }
    let id = trimmed(&rest, 0, dot);
    let name0 = trimmed(&rest, dot + 1, rest.len());
    proof {
        assert(rest@.subrange(0, dot as int) =~= rest@.take(dot as int));
        assert(rest@.subrange(dot + 1, rest@.len() as int) =~= rest@.skip(dot + 1));
        assert(name0@.skip(0) =~= name0@);
    }
    let br = find_char(&name0, 0, '[');
    let name = if br < name0.len() {
        proof {
            assert(name0@.subrange(0, br as int) =~= name0@.take(br as int));
        }
        trimmed(&name0, 0, br)
    } else {
        name0
    };
    Some((string_of(&id), string_of(&name), def))
}

// ---------------------------------------------------------------------------
// CPU painter

/// The client's buffer width and height (pixels).
pub const W: i32 = 1080;
pub const H: i32 = 2160;

/// Bytes in the buffer: `W * H * 4`.
pub const PX_LEN: usize = 9331200;

pub open spec fn in_screen(x: int, y: int) -> bool {
    0 <= x < 1080 && 0 <= y < 2160
}

/// The byte of channel `ch` (B, G, R, A) of pixel (`x`, `y`).
pub open spec fn byte_at(px: Seq<u8>, x: int, y: int, ch: int) -> u8 {
    px[(y * 1080 + x) * 4 + ch]
}

/// Channel `ch` of colour `c` in buffer order.
pub open spec fn color_byte(c: Seq<u8>, ch: int) -> u8 {
    if ch == 0 {
        c[2]
    } else if ch == 1 {
        c[1]
    } else if ch == 2 {
        c[0]
    } else {
        255
    }
}

/// `c` over `under` with coverage `a` (0..=255), per channel.
pub open spec fn blend_byte(c: Seq<u8>, under: u8, a: u8, ch: int) -> u8 {
    if ch == 3 {
        255
    } else {
        ((color_byte(c, ch) as int * a as int + under as int * (255 - a as int)) / 255) as u8
    }
}

/// `after` is `before` with the pixels where `region` holds painted `c`.
pub open spec fn painted(before: Seq<u8>, after: Seq<u8>, region: spec_fn(int, int) -> bool, c: Seq<u8>) -> bool {
    &&& after.len() == before.len()
    &&& forall|x: int, y: int, ch: int|
        in_screen(x, y) && 0 <= ch < 4 ==> #[trigger] byte_at(after, x, y, ch) == if region(x, y) {
            color_byte(c, ch)
        } else {
            byte_at(before, x, y, ch)
        }
}

/// The radius `round_rect` draws with: `r` limited to half the width and
/// half the height, and not negative.
pub open spec fn corner_radius(w: int, h: int, r: int) -> int {
    let a = if r < w / 2 {
        r
    } else {
        w / 2
    };
    let b = if a < h / 2 {
        a
    } else {
        h / 2
    };
    if b < 0 {
        0
    } else {
        b
    }
}

/// Is (`xx`, `yy`) of a `w`x`h` box inside its rounded corners of radius `r`?
pub open spec fn in_rounded(xx: int, yy: int, w: int, h: int, r: int) -> bool {
    if xx < r && yy < r {
        (r - xx) * (r - xx) + (r - yy) * (r - yy) <= r * r
    } else if xx >= w - r && yy < r {
        (xx - (w - r - 1)) * (xx - (w - r - 1)) + (r - yy) * (r - yy) <= r * r
    } else if xx < r && yy >= h - r {
        (r - xx) * (r - xx) + (yy - (h - r - 1)) * (yy - (h - r - 1)) <= r * r
    } else if xx >= w - r && yy >= h - r {
        (xx - (w - r - 1)) * (xx - (w - r - 1)) + (yy - (h - r - 1)) * (yy - (h - r - 1)) <= r * r
    } else {
        true
    }
}

fn mix(cb: u8, under: u8, a: u8) -> (r: u8)
    ensures
        r == ((cb as int * a as int + under as int * (255 - a as int)) / 255) as u8,
{
    let x = cb as u32;
    let y = under as u32;
    let aa = a as u32;
    let ia = 255 - aa;
    assert(x * aa <= 65025 && y * ia <= 65025) by (nonlinear_arith)
        requires
            x <= 255,
            y <= 255,
            aa <= 255,
            ia <= 255,
    ;
    ((x * aa + y * ia) / 255) as u8
}

/// The client's full-screen ARGB8888 buffer.
pub struct Painter {
    pub px: Vec<u8>,
}

impl Painter {
    pub open spec fn wf(&self) -> bool {
        self.px@.len() == PX_LEN
    }

    /// A black, fully transparent buffer.
    pub fn new() -> (p: Self)
        ensures
            p.wf(),
            forall|k: int| 0 <= k < PX_LEN ==> #[trigger] p.px@[k] == 0,
    {
        let mut px: Vec<u8> = Vec::new();
        let mut i: usize = 0;
        while i < PX_LEN
            invariant
                i <= PX_LEN,
                px@.len() == i,
                forall|k: int| 0 <= k < i ==> #[trigger] px@[k] == 0,
            decreases PX_LEN - i,
        {
            px.push(0);
            i = i + 1;
        }
        Painter { px }
    }

    /// Blend `c` with coverage `cov` into pixel (`x`, `y`); nothing
    /// happens off screen or at zero coverage.
    pub fn blend(&mut self, x: i32, y: i32, c: Rgb, cov: u8)
        requires
            old(self).wf(),
        ensures
            final(self).wf(),
            forall|px: int, py: int, ch: int|
                in_screen(px, py) && 0 <= ch < 4 ==> #[trigger] byte_at(final(self).px@, px, py, ch) == if cov
                    != 0 && px == x && py == y {
                    blend_byte(c@, byte_at(old(self).px@, px, py, ch), cov, ch)
                } else {
                    byte_at(old(self).px@, px, py, ch)
                },
    {
        if cov == 0 || x < 0 || y < 0 || x >= W || y >= H {
            return;
        }
        let o = ((y * W + x) * 4) as usize;
        let ghost before = self.px@;
        let b0 = mix(c[2], self.px[o], cov);
        let b1 = mix(c[1], self.px[o + 1], cov);
        let b2 = mix(c[0], self.px[o + 2], cov);
        self.px.set(o, b0);
        self.px.set(o + 1, b1);
        self.px.set(o + 2, b2);
        self.px.set(o + 3, 255);
        proof {
            assert forall|px: int, py: int, ch: int|
                in_screen(px, py) && 0 <= ch < 4 implies #[trigger] byte_at(self.px@, px, py, ch) == if cov
                    != 0 && px == x && py == y {
                    blend_byte(c@, byte_at(before, px, py, ch), cov, ch)
                } else {
                    byte_at(before, px, py, ch)
                } by {
                if px == x && py == y {
                    assert(before[o + ch] == byte_at(before, px, py, ch));
                } else {
                    let k = (py * 1080 + px) * 4 + ch;
                    assert(k < o || k > o + 3) by (nonlinear_arith)
                        requires
                            in_screen(px, py),
                            0 <= ch < 4,
                            in_screen(x as int, y as int),
                            o == (y * 1080 + x) * 4,
                            k == (py * 1080 + px) * 4 + ch,
                            px != x || py != y,
                    ;
                }
            }
        }
    }

    /// Paint pixel (`x`, `y`) with `c`; nothing happens off screen.
    pub fn set(&mut self, x: i32, y: i32, c: Rgb)
        requires
            old(self).wf(),
        ensures
            final(self).wf(),
            forall|px: int, py: int, ch: int|
                in_screen(px, py) && 0 <= ch < 4 ==> #[trigger] byte_at(final(self).px@, px, py, ch) == if px
                    == x && py == y {
                    color_byte(c@, ch)
                } else {
                    byte_at(old(self).px@, px, py, ch)
                },
    {
        if x < 0 || y < 0 || x >= W || y >= H {
            return;
        }
        let o = ((y * W + x) * 4) as usize;
        let b = rgb(c);
        let ghost before = self.px@;
        self.px.set(o, b[0]);
        self.px.set(o + 1, b[1]);
        self.px.set(o + 2, b[2]);
        self.px.set(o + 3, b[3]);
        proof {
            assert forall|px: int, py: int, ch: int|
                in_screen(px, py) && 0 <= ch < 4 implies #[trigger] byte_at(self.px@, px, py, ch) == if px
                    == x && py == y {
                    color_byte(c@, ch)
                } else {
                    byte_at(before, px, py, ch)
                } by {
                if px != x || py != y {
                    let k = (py * 1080 + px) * 4 + ch;
                    assert(k < o || k > o + 3) by (nonlinear_arith)
                        requires
                            in_screen(px, py),
                            0 <= ch < 4,
                            in_screen(x as int, y as int),
                            o == (y * 1080 + x) * 4,
                            k == (py * 1080 + px) * 4 + ch,
                            px != x || py != y,
                    ;
                }
            }
        }
    }
}

pub open spec fn rect_region(x: int, y: int, w: int, h: int) -> spec_fn(int, int) -> bool {
    |px: int, py: int| x <= px < x + w && y <= py < y + h
}

pub open spec fn rounded_region(x: int, y: int, w: int, h: int, r: int) -> spec_fn(int, int) -> bool {
    |px: int, py: int|
        0 <= px - x < w && 0 <= py - y < h && in_rounded(px - x, py - y, w, h, corner_radius(w, h, r))
}

impl Painter {
    /// Fill the rectangle at (`x`, `y`) of size `w`x`h` (clipped to the
    /// screen).
    pub fn rect(&mut self, x: i32, y: i32, w: i32, h: i32, c: Rgb)
        requires
            old(self).wf(),
            i32::MIN <= x + w <= i32::MAX,
            i32::MIN <= y + h <= i32::MAX,
        ensures
            final(self).wf(),
            painted(old(self).px@, final(self).px@, rect_region(x as int, y as int, w as int, h as int), c@),
    {
        let ghost px0 = self.px@;
        let ymax = if y + h < H {
            y + h
        } else {
            H
        };
        let xmax = if x + w < W {
            x + w
        } else {
            W
        };
        let mut yy = y;
        while yy < ymax
            invariant
                self.wf(),
                px0.len() == PX_LEN,
                y <= yy,
                yy <= ymax || yy == y,
                ymax <= H,
                ymax == (if y + h < H { y + h } else { H as int }),
                xmax == (if x + w < W { x + w } else { W as int }),
                forall|px: int, py: int, ch: int|
                    in_screen(px, py) && 0 <= ch < 4 ==> #[trigger] byte_at(self.px@, px, py, ch) == if x
                        <= px < x + w && y <= py < yy {
                        color_byte(c@, ch)
                    } else {
                        byte_at(px0, px, py, ch)
                    },
            decreases ymax - yy,
        {
            let mut xx = x;
            while xx < xmax
                invariant
                    self.wf(),
                    px0.len() == PX_LEN,
                    y <= yy < ymax,
                    ymax <= H,
                    x <= xx,
                    xx <= xmax || xx == x,
                    xmax <= W,
                    xmax == (if x + w < W { x + w } else { W as int }),
                    forall|px: int, py: int, ch: int|
                        in_screen(px, py) && 0 <= ch < 4 ==> #[trigger] byte_at(self.px@, px, py, ch)
                            == if (x <= px < x + w && y <= py < yy) || (py == yy && x <= px < xx) {
                            color_byte(c@, ch)
                        } else {
                            byte_at(px0, px, py, ch)
                        },
                decreases xmax - xx,
            {
                self.set(xx, yy, c);
                xx = xx + 1;
            }
            assert forall|px: int, py: int, ch: int|
                in_screen(px, py) && 0 <= ch < 4 implies #[trigger] byte_at(self.px@, px, py, ch) == if x
                    <= px < x + w && y <= py < yy + 1 {
                    color_byte(c@, ch)
                } else {
                    byte_at(px0, px, py, ch)
                } by {
                assert(xx >= xmax);
                assert(byte_at(self.px@, px, py, ch) == if (x <= px < x + w && y <= py < yy) || (py
                    == yy && x <= px < xx) {
                    color_byte(c@, ch)
                } else {
                    byte_at(px0, px, py, ch)
                });
                if x <= px < x + w && py == yy {
                    assert(px < 1080);
                    assert(px < xmax);
                    assert(px < xx);
                }
            }
            yy = yy + 1;
        }
        proof {
            assert forall|px: int, py: int, ch: int|
                in_screen(px, py) && 0 <= ch < 4 implies #[trigger] byte_at(self.px@, px, py, ch) == if rect_region(
                    x as int,
                    y as int,
                    w as int,
                    h as int,
                )(px, py) {
                    color_byte(c@, ch)
                } else {
                    byte_at(px0, px, py, ch)
                } by {
                assert(rect_region(x as int, y as int, w as int, h as int)(px, py) == (x <= px < x + w
                    && y <= py < y + h));
                if y <= py < y + h {
                    assert(py < ymax);
                }
            }
        }
    }

    /// Fill the rounded rectangle at (`x`, `y`) of size `w`x`h` with
    /// corner radius `r` (limited to half the width and height).
    pub fn round_rect(&mut self, x: i32, y: i32, w: i32, h: i32, r: i32, c: Rgb)
        requires
            old(self).wf(),
            i32::MIN <= x + w <= i32::MAX,
            i32::MIN <= y + h <= i32::MAX,
            corner_radius(w as int, h as int, r as int) <= 32767,
        ensures
            final(self).wf(),
            painted(
                old(self).px@,
                final(self).px@,
                rounded_region(x as int, y as int, w as int, h as int, r as int),
                c@,
            ),
    {
        let ghost px0 = self.px@;
        let r1 = if r < w / 2 {
            r
        } else {
            w / 2
        };
        let r2 = if r1 < h / 2 {
            r1
        } else {
            h / 2
        };
        let rr = if r2 < 0 {
            0
        } else {
            r2
        };
        assert(rr == corner_radius(w as int, h as int, r as int));
        let mut yy: i32 = 0;
        while yy < h
            invariant
                self.wf(),
                px0.len() == PX_LEN,
                0 <= yy,
                h >= 0 ==> yy <= h,
                h < 0 ==> yy == 0,
                0 <= rr <= 32767,
                w > 0 ==> rr <= w / 2,
                h > 0 ==> rr <= h / 2,
                i32::MIN <= x + w <= i32::MAX,
                i32::MIN <= y + h <= i32::MAX,
                rr == corner_radius(w as int, h as int, r as int),
                forall|px: int, py: int, ch: int|
                    in_screen(px, py) && 0 <= ch < 4 ==> #[trigger] byte_at(self.px@, px, py, ch) == if 0
                        <= px - x < w && 0 <= py - y < yy && in_rounded(px - x, py - y, w as int, h as int, rr as int) {
                        color_byte(c@, ch)
                    } else {
                        byte_at(px0, px, py, ch)
                    },
            decreases h - yy,
        {
            let mut xx: i32 = 0;
            while xx < w
                invariant
                    self.wf(),
                    px0.len() == PX_LEN,
                    0 <= yy < h,
                    0 <= xx,
                    w >= 0 ==> xx <= w,
                    w < 0 ==> xx == 0,
                    0 <= rr <= 32767,
                    w > 0 ==> rr <= w / 2,
                    rr <= h / 2,
                    i32::MIN <= x + w <= i32::MAX,
                    i32::MIN <= y + h <= i32::MAX,
                    forall|px: int, py: int, ch: int|
                        in_screen(px, py) && 0 <= ch < 4 ==> #[trigger] byte_at(self.px@, px, py, ch)
                            == if (0 <= px - x < w && 0 <= py - y < yy && in_rounded(
                            px - x,
                            py - y,
                            w as int,
                            h as int,
                            rr as int,
                        )) || (py - y == yy && 0 <= px - x < xx && in_rounded(
                            px - x,
                            py - y,
                            w as int,
                            h as int,
                            rr as int,
                        )) {
                            color_byte(c@, ch)
                        } else {
                            byte_at(px0, px, py, ch)
                        },
                decreases w - xx,
            {
                let inside = corner_inside(xx, yy, w, h, rr);
                if inside {
                    self.set(x + xx, y + yy, c);
                }
                xx = xx + 1;
            }
            assert forall|px: int, py: int, ch: int|
                in_screen(px, py) && 0 <= ch < 4 implies #[trigger] byte_at(self.px@, px, py, ch) == if 0
                    <= px - x < w && 0 <= py - y < yy + 1 && in_rounded(
                    px - x,
                    py - y,
                    w as int,
                    h as int,
                    rr as int,
                ) {
                    color_byte(c@, ch)
                } else {
                    byte_at(px0, px, py, ch)
                } by {
                assert(xx >= w);
                assert(w >= 0 ==> xx == w);
                assert(byte_at(self.px@, px, py, ch) == if (0 <= px - x < w && 0 <= py - y < yy
                    && in_rounded(px - x, py - y, w as int, h as int, rr as int)) || (py - y == yy && 0
                    <= px - x < xx && in_rounded(px - x, py - y, w as int, h as int, rr as int)) {
                    color_byte(c@, ch)
                } else {
                    byte_at(px0, px, py, ch)
                });
            }
            yy = yy + 1;
        }
        proof {
            assert forall|px: int, py: int, ch: int|
                in_screen(px, py) && 0 <= ch < 4 implies #[trigger] byte_at(self.px@, px, py, ch) == if rounded_region(
                    x as int,
                    y as int,
                    w as int,
                    h as int,
                    r as int,
                )(px, py) {
                    color_byte(c@, ch)
                } else {
                    byte_at(px0, px, py, ch)
                } by {
                assert(rounded_region(x as int, y as int, w as int, h as int, r as int)(px, py) == (0
                    <= px - x < w && 0 <= py - y < h && in_rounded(
                    px - x,
                    py - y,
                    w as int,
                    h as int,
                    rr as int,
                )));
            }
        }
    }
}

fn sq_sum_ok(dx: i32, dy: i32, r: i32) -> (b: bool)
    requires
        0 <= dx <= 32767,
        0 <= dy <= 32767,
        0 <= r <= 32767,
    ensures
        b == (dx * dx + dy * dy <= r * r),
{
    assert(dx * dx <= 32767 * 32767 && dy * dy <= 32767 * 32767 && r * r <= 32767 * 32767)
        by (nonlinear_arith)
        requires
            0 <= dx <= 32767,
            0 <= dy <= 32767,
            0 <= r <= 32767,
    ;
    dx * dx + dy * dy <= r * r
}

/// The corner test of `round_rect` for (`xx`, `yy`) in a `w`x`h` box.
fn corner_inside(xx: i32, yy: i32, w: i32, h: i32, r: i32) -> (b: bool)
    requires
        0 <= xx < w,
        0 <= yy < h,
        0 <= r <= 32767,
        r <= w / 2,
        r <= h / 2,
    ensures
        b == in_rounded(xx as int, yy as int, w as int, h as int, r as int),
{
    if xx < r && yy < r {
        sq_sum_ok(r - xx, r - yy, r)
    } else if xx >= w - r && yy < r {
        sq_sum_ok(xx - (w - r - 1), r - yy, r)
    } else if xx < r && yy >= h - r {
        sq_sum_ok(r - xx, yy - (h - r - 1), r)
    } else if xx >= w - r && yy >= h - r {
        sq_sum_ok(xx - (w - r - 1), yy - (h - r - 1), r)
    } else {
        true
    }
}

} // verus!
