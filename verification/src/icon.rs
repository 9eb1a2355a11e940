//! The icon: its pixels as the window and the tray need them.

use vstd::prelude::*;

verus! {

/// The pixels of the window icon, four bytes each: red, green, blue, opacity.
pub fn make_icon_rgba(rgba: &[u8]) -> (r: Vec<u8>)
    ensures
        r@ == rgba@,
{
    let mut r: Vec<u8> = Vec::new();
    let mut i: usize = 0;
    while i < rgba.len()
        invariant
            i <= rgba.len(),
            r@ == rgba@.take(i as int),
        decreases rgba.len() - i,
    {
        r.push(rgba[i]);
        assert(rgba@.take(i + 1) =~= rgba@.take(i as int).push(rgba@[i as int]));
        i += 1;
    }
    assert(rgba@.take(i as int) =~= rgba@);
    r
}

/// The byte of a pixel that comes to stand at a place of the tray icon: the opacity
/// first, the colours behind it. Bytes behind the last whole pixel stay.
pub open spec fn tray_byte(rgba: Seq<u8>, i: int) -> u8 {
    if i - i % 4 + 4 > rgba.len() {
        rgba[i]
    } else if i % 4 == 0 {
        rgba[i + 3]
    } else {
        rgba[i - 1]
    }
}

/// The pixels of the tray icon: opacity, red, green, blue.
pub fn tray_pixels(rgba: &[u8]) -> (r: Vec<u8>)
    ensures
        r@.len() == rgba@.len(),
        forall|i: int| 0 <= i < r@.len() ==> #[trigger] r@[i] == tray_byte(rgba@, i),
{
    let n: usize = rgba.len();
    let mut r: Vec<u8> = Vec::new();
    let mut i: usize = 0;
    while i < n
        invariant
            n == rgba.len(),
            i <= n,
            r.len() == i,
            forall|k: int| 0 <= k < i ==> #[trigger] r@[k] == tray_byte(rgba@, k),
        decreases n - i,
    {
        let start: usize = i - i % 4;
        let b: u8 = if n - start < 4 {
            rgba[i]
        } else if i % 4 == 0 {
            rgba[i + 3]
        } else {
            rgba[i - 1]
        };
        r.push(b);
        i += 1;
    }
    r
}

/// Every pixel of the tray icon is the pixel of the window icon, its opacity moved
/// to the front.
pub proof fn law_tray_icon_shows_the_same_pixels(rgba: Seq<u8>, p: int)
    requires
        0 <= p,
        4 * p + 4 <= rgba.len(),
    ensures
        tray_byte(rgba, 4 * p) == rgba[4 * p + 3],
        tray_byte(rgba, 4 * p + 1) == rgba[4 * p],
        tray_byte(rgba, 4 * p + 2) == rgba[4 * p + 1],
        tray_byte(rgba, 4 * p + 3) == rgba[4 * p + 2],
{
}

/// The byte of an opaque picture at a place, given its colours, three bytes for
/// each pixel.
pub open spec fn opaque_byte(rgb: Seq<u8>, i: int) -> u8 {
    if i % 4 == 3 {
        0xff
    } else {
        rgb[i / 4 * 3 + i % 4]
    }
}

/// A picture without opacity as an opaque one. Bytes behind the last whole pixel
/// are dropped.
pub fn rgba_from_rgb(rgb: &[u8]) -> (r: Vec<u8>)
    ensures
        r@.len() == rgb@.len() / 3 * 4,
        forall|i: int| 0 <= i < r@.len() ==> #[trigger] r@[i] == opaque_byte(rgb@, i),
{
    let len: usize = rgb.len();
    let n: usize = len / 3;
    let mut r: Vec<u8> = Vec::new();
    let mut p: usize = 0;
    while p < n
        invariant
            len == rgb@.len(),
            n == len / 3,
            p <= n,
            r@.len() == p * 4,
            forall|i: int| 0 <= i < r@.len() ==> #[trigger] r@[i] == opaque_byte(rgb@, i),
        decreases n - p,
    {
        r.push(rgb[p * 3]);
        r.push(rgb[p * 3 + 1]);
        r.push(rgb[p * 3 + 2]);
        r.push(0xff);
        p += 1;
    }
    r
}

} // verus!
