//! Detected-element classification and bounding-box geometry.
//!
//! An element is text-like when its `type` equals `text` (ASCII
//! case-insensitively), its `category` contains `text`, or it carries
//! non-blank `content`; icon-like when `type` equals or `category`
//! contains `icon`. A bounding box whose four coordinates all stay at or
//! below 1.5 is read as fractions of the image size, otherwise as
//! pixels; coordinates are clamped to the image and a degenerate box is
//! widened to one pixel.
use vstd::prelude::*;

use vstd::string::StrSliceExecFns;
use vstd::string::StringSliceAdditionalSpecFns;

use crate::bytes::{all_ws, contains_sub, lower};
use crate::json::{jview, spec_as_str, spec_get, Json, JsonV};

verus! {

/// Whether `el` counts as `kind` (`text` or `icon`): exact `type` match
/// ignoring ASCII case, substring match on `category`, or — for text
/// only — any non-blank `content`. The asymmetry between the exact
/// `type` match and the substring `category` match is kept on purpose:
/// the recognition service labels categories with phrases.
pub open spec fn spec_has_kind(el: JsonV, kind: Seq<u8>) -> bool {
    ||| (match spec_as_str(spec_get(el, ("type").spec_bytes())) {
        Some(t) => lower(t) == lower(kind),
        None => false,
    })
    ||| (match spec_as_str(spec_get(el, ("category").spec_bytes())) {
        Some(c) => contains_sub(lower(c), kind),
        None => false,
    })
    ||| (kind == ("text").spec_bytes() && match spec_as_str(
        spec_get(el, ("content").spec_bytes()),
    ) {
        Some(ct) => !all_ws(ct),
        None => false,
    })
}

pub fn element_has_kind(el: &Json, kind: &[u8]) -> (r: bool)
    ensures
        r == spec_has_kind(el@, kind@),
{
    if let Some(t) = el.get(("type").as_bytes_vec().as_slice()) {
        if let Some(tv) = t.as_str() {
            if crate::bytes::eq_ignore_case(tv.as_slice(), kind) {
                return true;
            }
        }
    }
    if let Some(c) = el.get(("category").as_bytes_vec().as_slice()) {
        if let Some(cv) = c.as_str() {
            let low = crate::bytes::to_lower(cv.as_slice());
            if crate::bytes::find_sub(low.as_slice(), kind) {
                return true;
            }
        }
    }
    if crate::bytes::bytes_eq(kind, ("text").as_bytes_vec().as_slice()) {
        if let Some(ct) = el.get(("content").as_bytes_vec().as_slice()) {
            if let Some(cv) = ct.as_str() {
                if !crate::bytes::is_all_ws(cv.as_slice()) {
                    return true;
                }
            }
        }
    }
    false
}

/// An annotation color.
#[derive(Clone, Copy, Debug, PartialEq, Eq, Structural)]
pub struct Rgba {
    pub r: u8,
    pub g: u8,
    pub b: u8,
    pub a: u8,
}

/// Green outlines for text, red for icons, yellow for the rest.
pub open spec fn spec_element_color(el: JsonV) -> Rgba {
    if spec_has_kind(el, ("text").spec_bytes()) {
        Rgba { r: 0, g: 200, b: 0, a: 255 }
    } else if spec_has_kind(el, ("icon").spec_bytes()) {
        Rgba { r: 200, g: 0, b: 0, a: 255 }
    } else {
        Rgba { r: 200, g: 200, b: 0, a: 255 }
    }
}

pub fn element_color(el: &Json) -> (r: Rgba)
    ensures
        r == spec_element_color(el@),
{
    if element_has_kind(el, ("text").as_bytes_vec().as_slice()) {
        Rgba { r: 0, g: 200, b: 0, a: 255 }
    } else if element_has_kind(el, ("icon").as_bytes_vec().as_slice()) {
        Rgba { r: 200, g: 0, b: 0, a: 255 }
    } else {
        Rgba { r: 200, g: 200, b: 0, a: 255 }
    }
}

/// A pixel rectangle: clamped corner plus a size of at least one pixel.
#[derive(Clone, Copy, Debug, PartialEq, Eq, Structural)]
pub struct Rect {
    pub x: i64,
    pub y: i64,
    pub w: u64,
    pub h: u64,
}

/// The first four bounding-box coordinates in thousandths, when the
/// element has an array of at least four; a non-number entry reads as
/// zero.
pub open spec fn bbox_milli(el: JsonV) -> Option<Seq<int>> {
    match spec_get(el, ("bbox").spec_bytes()) {
        Some(JsonV::Arr(a)) => if a.len() >= 4 {
            Some(
                Seq::new(
                    4,
                    |i: int|
                        match a[i] {
                            JsonV::Num(m) => m,
                            _ => 0,
                        },
                ),
            )
        } else {
            None
        },
        _ => None,
    }
}

/// Rounds a value in thousandths of a pixel to a whole pixel, clamped
/// into `[0, hi]`.
pub open spec fn clamp_px(m: int, hi: int) -> int {
    if m <= 0 {
        0
    } else if (m + 500) / 1000 > hi {
        hi
    } else {
        (m + 500) / 1000
    }
}

pub open spec fn max4(v: Seq<int>) -> int {
    let a = if v[0] >= v[1] {
        v[0]
    } else {
        v[1]
    };
    let b = if v[2] >= v[3] {
        v[2]
    } else {
        v[3]
    };
    if a >= b {
        a
    } else {
        b
    }
}

/// The rectangle an element's bounding box denotes on a `width` by
/// `height` image: fractional boxes (all values at most 1.5) scale with
/// the image, pixel boxes stand as they are; corners clamp into the
/// image and sizes are at least one.
pub open spec fn spec_extract_bbox(el: JsonV, width: u32, height: u32) -> Option<Rect> {
    match bbox_milli(el) {
        None => None,
        Some(v) => {
            let normalized = max4(v) <= 1500;
            let sx: int = if normalized {
                width as int
            } else {
                1
            };
            let sy: int = if normalized {
                height as int
            } else {
                1
            };
            let x1 = clamp_px(v[0] * sx, if width == 0 {
                0
            } else {
                width - 1
            });
            let y1 = clamp_px(v[1] * sy, if height == 0 {
                0
            } else {
                height - 1
            });
            let x2 = clamp_px(v[2] * sx, width as int);
            let y2 = clamp_px(v[3] * sy, height as int);
            let w = if x2 - x1 >= 1 {
                x2 - x1
            } else {
                1
            };
            let h = if y2 - y1 >= 1 {
                y2 - y1
            } else {
                1
            };
            Some(Rect { x: x1 as i64, y: y1 as i64, w: w as u64, h: h as u64 })
        },
    }
}

/// One coordinate in thousandths, scaled, rounded and clamped.
fn px_of(m: i64, scale: u32, hi: u32) -> (r: i64)
    ensures
        r as int == clamp_px((m as int) * (scale as int), hi as int),
        0 <= r <= hi,
{
    proof {
        assert(-79228162495817593519834398720 <= (m as int) * (scale as int)
            <= 79228162495817593519834398720) by (nonlinear_arith)
            requires
                -9223372036854775808 <= m as int <= 9223372036854775807,
                0 <= scale as int <= 4294967295,
        ;
    }
    let mm: i128 = (m as i128) * (scale as i128);
    if mm <= 0 {
        0
    } else {
        let px: i128 = (mm + 500) / 1000;
        if px > (hi as i128) {
            hi as i64
        } else {
            px as i64
        }
    }
}

/// Reads the bounding box of `el`, exactly as `spec_extract_bbox` says.
#[verifier::rlimit(50)]
pub fn extract_bbox(el: &Json, width: u32, height: u32) -> (r: Option<Rect>)
    ensures
        r == spec_extract_bbox(el@, width, height),
{
    let arr = match el.get(("bbox").as_bytes_vec().as_slice()) {
        Some(b) => b,
        None => {
            return None;
        },
    };
    let items = match arr {
        Json::Arr(items) => items,
        _ => {
            return None;
        },
    };
    if items.len() < 4 {
        proof {
            crate::json::lemma_varr(items@);
        }
        return None;
    }
    proof {
        crate::json::lemma_varr(items@);
    }
    let ghost vals = (match bbox_milli(el@) {
        Some(v) => v,
        None => Seq::empty(),
    });
    let v0: i64 = match &items[0] {
        Json::Num(m) => *m,
        _ => 0,
    };
    let v1: i64 = match &items[1] {
        Json::Num(m) => *m,
        _ => 0,
    };
    let v2: i64 = match &items[2] {
        Json::Num(m) => *m,
        _ => 0,
    };
    let v3: i64 = match &items[3] {
        Json::Num(m) => *m,
        _ => 0,
    };
    proof {
        assert(vals.len() == 4);
        assert(vals[0] == v0 as int && vals[1] == v1 as int && vals[2] == v2 as int && vals[3]
            == v3 as int);
    }
    let mut maxv = v0;
    if v1 > maxv {
        maxv = v1;
    }
    if v2 > maxv {
        maxv = v2;
    }
    if v3 > maxv {
        maxv = v3;
    }
    proof {
        assert(maxv as int == max4(vals));
    }
    let normalized = maxv <= 1500;
    let sx: u32 = if normalized {
        width
    } else {
        1
    };
    let sy: u32 = if normalized {
        height
    } else {
        1
    };
    let hx: u32 = if width == 0 {
        0
    } else {
        width - 1
    };
    let hy: u32 = if height == 0 {
        0
    } else {
        height - 1
    };
    let x1 = px_of(v0, sx, hx);
    let y1 = px_of(v1, sy, hy);
    let x2 = px_of(v2, sx, width);
    let y2 = px_of(v3, sy, height);
    let w: u64 = if x2 - x1 >= 1 {
        (x2 - x1) as u64
    } else {
        1
    };
    let h: u64 = if y2 - y1 >= 1 {
        (y2 - y1) as u64
    } else {
        1
    };
    Some(Rect { x: x1, y: y1, w: w, h: h })
}

/// Whether any element of the list counts as `kind`.
pub open spec fn spec_any_kind(elements: Seq<JsonV>, kind: Seq<u8>) -> bool {
    exists|i: int| 0 <= i < elements.len() && spec_has_kind(#[trigger] elements[i], kind)
}

pub fn any_with_kind(elements: &Vec<Json>, kind: &[u8]) -> (r: bool)
    ensures
        r == spec_any_kind(crate::json::varr(elements@), kind@),
{
    proof {
        crate::json::lemma_varr(elements@);
    }
    let ghost ev = crate::json::varr(elements@);
    let mut i: usize = 0;
    while i < elements.len()
        invariant
            0 <= i <= elements@.len(),
            ev == crate::json::varr(elements@),
            ev.len() == elements@.len(),
            forall|k: int| 0 <= k < ev.len() ==> ev[k] == jview(elements@[k]),
            forall|k: int| 0 <= k < i ==> !spec_has_kind(#[trigger] ev[k], kind@),
        decreases elements@.len() - i,
    {
        if element_has_kind(&elements[i], kind) {
            assert(spec_has_kind(ev[i as int], kind@));
            return true;
        }
        i = i + 1;
    }
    false
}

/// The drawing plan for one parse result: for each element with a
/// usable bounding box, in order, the rectangle to draw and the outline
/// color; elements without a usable box are skipped.
pub open spec fn spec_annotation_plan(elements: Seq<JsonV>, width: u32, height: u32) -> Seq<
    (Rect, Rgba),
>
    decreases elements.len(),
{
    if elements.len() == 0 {
        Seq::empty()
    } else {
        spec_annotation_plan(elements.drop_last(), width, height) + (match spec_extract_bbox(
            elements.last(),
            width,
            height,
        ) {
            Some(rect) => seq![(rect, spec_element_color(elements.last()))],
            None => Seq::empty(),
        })
    }
}

/// Plans the annotation pass over a parse result.
pub fn annotation_plan(elements: &Vec<Json>, width: u32, height: u32) -> (r: Vec<(Rect, Rgba)>)
    ensures
        r@ == spec_annotation_plan(crate::json::varr(elements@), width, height),
{
    proof {
        crate::json::lemma_varr(elements@);
    }
    let ghost ev = crate::json::varr(elements@);
    let mut out: Vec<(Rect, Rgba)> = Vec::new();
    let mut i: usize = 0;
    proof {
        assert(ev.take(0) =~= Seq::<JsonV>::empty());
    }
    while i < elements.len()
        invariant
            0 <= i <= elements@.len(),
            ev == crate::json::varr(elements@),
            ev.len() == elements@.len(),
            forall|k: int| 0 <= k < ev.len() ==> ev[k] == jview(elements@[k]),
            out@ == spec_annotation_plan(ev.take(i as int), width, height),
        decreases elements@.len() - i,
    {
        match extract_bbox(&elements[i], width, height) {
            Some(rect) => {
                let color = element_color(&elements[i]);
                out.push((rect, color));
            },
            None => {
            },
        }
        proof {
            assert(ev.take(i + 1).drop_last() =~= ev.take(i as int));
            assert(ev.take(i + 1).last() == ev[i as int]);
            assert(out@ =~= spec_annotation_plan(ev.take(i + 1), width, height));
        }
        i = i + 1;
    }
    proof {
        assert(ev.take(ev.len() as int) =~= ev);
    }
    out
}

} // verus!
