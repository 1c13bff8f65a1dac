//! Rectangles on the terminal grid and ways to place them in an area.
use vstd::prelude::*;

verus! {

/// A rectangle of terminal cells.
#[derive(Clone, Copy, Debug, PartialEq, Eq, Structural)]
pub struct Rect {
    pub x: u16,
    pub y: u16,
    pub width: u16,
    pub height: u16,
}

/// The rectangle at `(x, y)` of the given size, the size cut so that the
/// right and bottom edges stay within `u16`.
pub open spec fn rect(x: int, y: int, width: int, height: int) -> Rect {
    Rect {
        x: x as u16,
        y: y as u16,
        width: if width > 65535 - x {
            (65535 - x) as u16
        } else {
            width as u16
        },
        height: if height > 65535 - y {
            (65535 - y) as u16
        } else {
            height as u16
        },
    }
}

impl Rect {
    /// Right and bottom edges within `u16`.
    pub open spec fn wf(&self) -> bool {
        self.x + self.width <= 65535 && self.y + self.height <= 65535
    }

    /// See `rect`.
    pub fn new(x: u16, y: u16, width: u16, height: u16) -> (r: Self)
        ensures
            r == rect(x as int, y as int, width as int, height as int),
            r.wf(),
    {
        let max_width = u16::MAX - x;
        let max_height = u16::MAX - y;
        let width = if width > max_width {
            max_width
        } else {
            width
        };
        let height = if height > max_height {
            max_height
        } else {
            height
        };
        Rect { x, y, width, height }
    }
}

pub open spec fn min(a: int, b: int) -> int {
    if a <= b {
        a
    } else {
        b
    }
}

/// A `width` by `height` rectangle centred in `area`, cut to fit it.
pub fn centered_rect(width: u16, height: u16, area: Rect) -> (r: Rect)
    requires
        area.wf(),
    ensures
        r == rect(
            area.x + (area.width - min(width as int, area.width as int)) / 2,
            area.y + (area.height - min(height as int, area.height as int)) / 2,
            min(width as int, area.width as int),
            min(height as int, area.height as int),
        ),
{
    let x = area.x + (area.width.saturating_sub(width)) / 2;
    let y = area.y + (area.height.saturating_sub(height)) / 2;
    let w = if width < area.width {
        width
    } else {
        area.width
    };
    let h = if height < area.height {
        height
    } else {
        area.height
    };
    Rect::new(x, y, w, h)
}

/// The sum of `s`.
pub open spec fn total(s: Seq<u16>) -> int
    decreases s.len(),
{
    if s.len() == 0 {
        0
    } else {
        total(s.drop_last()) + s.last()
    }
}

/// The room `sizes` take with `spacing` between neighbours (the count of
/// gaps taken as a `u16`).
pub open spec fn span(sizes: Seq<u16>, spacing: u16) -> int {
    total(sizes) + spacing * (if sizes.len() > 0 {
        (sizes.len() - 1) as u16
    } else {
        0u16
    })
}

proof fn lemma_total_prefix(s: Seq<u16>, i: int)
    requires
        0 <= i < s.len(),
    ensures
        total(s.take(i + 1)) == total(s.take(i)) + s[i],
        0 <= total(s.take(i)),
{
    assert(s.take(i + 1).drop_last() =~= s.take(i));
    lemma_total_mono(s, i);
}

proof fn lemma_total_mono(s: Seq<u16>, i: int)
    requires
        0 <= i <= s.len(),
    ensures
        0 <= total(s.take(i)) <= total(s),
    decreases s.len() - i,
{
    if i < s.len() {
        lemma_total_mono(s, i + 1);
        assert(s.take(i + 1).drop_last() =~= s.take(i));
    } else {
        assert(s.take(i) =~= s);
    }
    lemma_total_nonneg(s.take(i));
}

proof fn lemma_total_nonneg(s: Seq<u16>)
    ensures
        total(s) >= 0,
    decreases s.len(),
{
    if s.len() > 0 {
        lemma_total_nonneg(s.drop_last());
    }
}

/// Side-by-side rectangles of the given widths and the area's height, with
/// `spacing` columns between them, the row centred across the area.
pub fn horizontal_stack(area: Rect, widths: &[u16], spacing: u16) -> (r: Vec<Rect>)
    requires
        span(widths@, spacing) <= 65535,
        area.x + (area.width - min(span(widths@, spacing), area.width as int)) / 2 + total(widths@)
            + widths@.len() * spacing <= 65535,
    ensures
        r@.len() == widths@.len(),
        forall|i: int|
            0 <= i < widths@.len() ==> #[trigger] r@[i] == rect(
                area.x + (area.width - min(span(widths@, spacing), area.width as int)) / 2 + total(
                    widths@.take(i),
                ) + i * spacing,
                area.y as int,
                widths@[i] as int,
                area.height as int,
            ),
{
    let mut sum: u16 = 0;
    let mut k: usize = 0;
    while k < widths.len()
        invariant
            k <= widths@.len(),
            sum == total(widths@.take(k as int)),
            total(widths@) <= 65535,
        decreases widths@.len() - k,
    {
        proof {
            lemma_total_prefix(widths@, k as int);
            lemma_total_mono(widths@, k as int + 1);
        }
        sum = sum + widths[k];
        k += 1;
    }
    assert(widths@.take(widths@.len() as int) =~= widths@);
    let gaps: u16 = if widths.len() > 0 {
        (widths.len() - 1) as u16
    } else {
        0
    };
    let total_width = sum + spacing * gaps;
    let start_x = area.x + (area.width.saturating_sub(total_width)) / 2;
    let mut result: Vec<Rect> = Vec::new();
    let mut cx = start_x;
    let mut i: usize = 0;
    while i < widths.len()
        invariant
            i <= widths@.len(),
            result@.len() == i,
            start_x == area.x + (area.width - min(span(widths@, spacing), area.width as int)) / 2,
            start_x + total(widths@) + widths@.len() * spacing <= 65535,
            cx == start_x + total(widths@.take(i as int)) + i * spacing,
            forall|j: int|
                0 <= j < i ==> #[trigger] result@[j] == rect(
                    start_x + total(widths@.take(j)) + j * spacing,
                    area.y as int,
                    widths@[j] as int,
                    area.height as int,
                ),
        decreases widths@.len() - i,
    {
        let w = widths[i];
        result.push(Rect::new(cx, area.y, w, area.height));
        proof {
            lemma_total_prefix(widths@, i as int);
            lemma_total_mono(widths@, i as int + 1);
            assert((i + 1) * spacing == i * spacing + spacing) by (nonlinear_arith);
            assert((i + 1) * spacing <= widths@.len() * spacing) by (nonlinear_arith)
                requires
                    i + 1 <= widths@.len(),
            ;
        }
        cx = cx + (w + spacing);
        i += 1;
    }
    result
}

/// Stacked rectangles of the given heights and the area's width, with
/// `spacing` rows between them, the column centred down the area.
pub fn vertical_stack(area: Rect, heights: &[u16], spacing: u16) -> (r: Vec<Rect>)
    requires
        span(heights@, spacing) <= 65535,
        area.y + (area.height - min(span(heights@, spacing), area.height as int)) / 2 + total(heights@)
            + heights@.len() * spacing <= 65535,
    ensures
        r@.len() == heights@.len(),
        forall|i: int|
            0 <= i < heights@.len() ==> #[trigger] r@[i] == rect(
                area.x as int,
                area.y + (area.height - min(span(heights@, spacing), area.height as int)) / 2 + total(
                    heights@.take(i),
                ) + i * spacing,
                area.width as int,
                heights@[i] as int,
            ),
{
    let mut sum: u16 = 0;
    let mut k: usize = 0;
    while k < heights.len()
        invariant
            k <= heights@.len(),
            sum == total(heights@.take(k as int)),
            total(heights@) <= 65535,
        decreases heights@.len() - k,
    {
        proof {
            lemma_total_prefix(heights@, k as int);
            lemma_total_mono(heights@, k as int + 1);
        }
        sum = sum + heights[k];
        k += 1;
    }
    assert(heights@.take(heights@.len() as int) =~= heights@);
    let gaps: u16 = if heights.len() > 0 {
        (heights.len() - 1) as u16
    } else {
        0
    };
    let total_height = sum + spacing * gaps;
    let start_y = area.y + (area.height.saturating_sub(total_height)) / 2;
    let mut result: Vec<Rect> = Vec::new();
    let mut cy = start_y;
    let mut i: usize = 0;
    while i < heights.len()
        invariant
            i <= heights@.len(),
            result@.len() == i,
            start_y == area.y + (area.height - min(span(heights@, spacing), area.height as int)) / 2,
            start_y + total(heights@) + heights@.len() * spacing <= 65535,
            cy == start_y + total(heights@.take(i as int)) + i * spacing,
            forall|j: int|
                0 <= j < i ==> #[trigger] result@[j] == rect(
                    area.x as int,
                    start_y + total(heights@.take(j)) + j * spacing,
                    area.width as int,
                    heights@[j] as int,
                ),
        decreases heights@.len() - i,
    {
        let h = heights[i];
        result.push(Rect::new(area.x, cy, area.width, h));
        proof {
            lemma_total_prefix(heights@, i as int);
            lemma_total_mono(heights@, i as int + 1);
            assert((i + 1) * spacing == i * spacing + spacing) by (nonlinear_arith);
            assert((i + 1) * spacing <= heights@.len() * spacing) by (nonlinear_arith)
                requires
                    i + 1 <= heights@.len(),
            ;
        }
        cy = cy + (h + spacing);
        i += 1;
    }
    result
}

/// A centred rectangle lies inside its area.
pub proof fn law_centered_inside(width: u16, height: u16, area: Rect)
    requires
        area.wf(),
    ensures
        ({
            let r = rect(
                area.x + (area.width - min(width as int, area.width as int)) / 2,
                area.y + (area.height - min(height as int, area.height as int)) / 2,
                min(width as int, area.width as int),
                min(height as int, area.height as int),
            );
            area.x <= r.x && r.x + r.width <= area.x + area.width && area.y <= r.y && r.y + r.height <= area.y
                + area.height
        }),
{
}

} // verus!
