//! The compositor: lays decoded tiles on a white canvas, one grid cell each,
//! in row-major order.

use crate::error::GridError;
use crate::grid::{calculate_grid_dimensions, count_in_range, lemma_plan_holds_all, plan};
use crate::raster::{blended, overlay_at, tile_px, white, Px, RgbaImage, TileView};
use vstd::arithmetic::div_mod::{lemma_fundamental_div_mod, lemma_fundamental_div_mod_converse};
use vstd::prelude::*;

verus! {

/// The widest tile's width, 0 for no tiles.
pub open spec fn max_width(images: Seq<TileView>) -> nat
    decreases images.len(),
{
    if images.len() == 0 {
        0
    } else {
        let rest = max_width(images.drop_last());
        let w = images.last().0 as nat;
        if w > rest {
            w
        } else {
            rest
        }
    }
}

/// The tallest tile's height, 0 for no tiles.
pub open spec fn max_height(images: Seq<TileView>) -> nat
    decreases images.len(),
{
    if images.len() == 0 {
        0
    } else {
        let rest = max_height(images.drop_last());
        let h = images.last().1 as nat;
        if h > rest {
            h
        } else {
            rest
        }
    }
}

/// Canvas size: the grid's columns times the widest tile, its rows times the tallest.
pub open spec fn sheet_size(images: Seq<TileView>) -> (nat, nat) {
    (plan(images.len()).0 * max_width(images), plan(images.len()).1 * max_height(images))
}

/// The canvas for these tiles can be held: its sides fit a `u32` and its bytes a `usize`.
pub open spec fn sheet_fits(images: Seq<TileView>) -> bool {
    &&& count_in_range(images.len())
    &&& sheet_size(images).0 <= u32::MAX
    &&& sheet_size(images).1 <= u32::MAX
    &&& 4 * sheet_size(images).0 * sheet_size(images).1 <= usize::MAX
}

/// Index of the grid cell that holds canvas pixel `(x, y)`.
pub open spec fn cell_of(images: Seq<TileView>, x: int, y: int) -> int {
    (y / (max_height(images) as int)) * (plan(images.len()).0 as int) + x / (max_width(images) as int)
}

/// Canvas pixel `(x, y)` once the first `placed` tiles are laid: the tile of
/// its cell, blended onto white, where that tile reaches; white elsewhere.
pub open spec fn sheet_pixel(images: Seq<TileView>, placed: nat, x: int, y: int) -> Px {
    let c = cell_of(images, x, y);
    let dx = x % (max_width(images) as int);
    let dy = y % (max_height(images) as int);
    if 0 <= c < placed && dx < images[c].0 && dy < images[c].1 {
        blended(white(), tile_px(images[c], dx, dy))
    } else {
        white()
    }
}

/// `canvas` is the contact sheet of `images`.
pub open spec fn is_sheet_of(canvas: RgbaImage, images: Seq<TileView>) -> bool {
    &&& canvas.wf()
    &&& canvas.width == sheet_size(images).0
    &&& canvas.height == sheet_size(images).1
    &&& forall|x: int, y: int|
        0 <= x < canvas.width && 0 <= y < canvas.height ==> #[trigger] canvas.px(x, y)
            == sheet_pixel(images, images.len(), x, y)
}

/// The views of a list of images.
pub open spec fn views(images: Seq<RgbaImage>) -> Seq<TileView> {
    images.map_values(|im: RgbaImage| im@)
}

/// Every tile is within the maximum sizes, and those fit a `u32`.
pub proof fn lemma_max_dims(images: Seq<TileView>)
    ensures
        max_width(images) <= u32::MAX,
        max_height(images) <= u32::MAX,
        forall|i: int|
            0 <= i < images.len() ==> #[trigger] images[i].0 <= max_width(images)
                && images[i].1 <= max_height(images),
    decreases images.len(),
{
    if images.len() > 0 {
        lemma_max_dims(images.drop_last());
        assert forall|i: int| 0 <= i < images.len() implies #[trigger] images[i].0
            <= max_width(images) && images[i].1 <= max_height(images) by {
            if i < images.len() - 1 {
                assert(images[i] == images.drop_last()[i]);
            }
        }
    }
}

/// Where a tile goes: pixel `(x, y)` lies in the rectangle of tile `i` placed at
/// its cell's corner exactly when its cell is `i` and its offset in the cell is
/// inside the tile; the offset is then its distance from the corner.
proof fn lemma_tile_rect(cols: int, mw: int, mh: int, i: int, w: int, h: int, x: int, y: int)
    requires
        cols > 0,
        mw > 0,
        mh > 0,
        i >= 0,
        0 <= w <= mw,
        0 <= h <= mh,
        0 <= x < cols * mw,
        0 <= y,
    ensures
        ({
            let x0 = (i % cols) * mw;
            let y0 = (i / cols) * mh;
            let inside = x0 <= x < x0 + w && y0 <= y < y0 + h;
            &&& inside <==> ((y / mh) * cols + x / mw == i && x % mw < w && y % mh < h)
            &&& inside ==> x - x0 == x % mw && y - y0 == y % mh
        }),
{
    let col = i % cols;
    let row = i / cols;
    let x0 = col * mw;
    let y0 = row * mh;
    lemma_fundamental_div_mod(i, cols);
    lemma_fundamental_div_mod(x, mw);
    lemma_fundamental_div_mod(y, mh);
    let q = x / mw;
    let p = y / mh;
    assert(0 <= q < cols) by (nonlinear_arith)
        requires
            x == mw * q + x % mw,
            0 <= x % mw < mw,
            0 <= x < cols * mw,
            mw > 0,
    ;
    assert(p >= 0) by (nonlinear_arith)
        requires
            y == mh * p + y % mh,
            0 <= y % mh < mh,
            0 <= y,
            mh > 0,
    ;
    if x0 <= x < x0 + w && y0 <= y < y0 + h {
        lemma_fundamental_div_mod_converse(x, mw, col, x - x0);
        lemma_fundamental_div_mod_converse(y, mh, row, y - y0);
        assert(p * cols + q == i) by (nonlinear_arith)
            requires
                p == row,
                q == col,
                i == cols * row + col,
        ;
    }
    if p * cols + q == i && x % mw < w && y % mh < h {
        lemma_fundamental_div_mod_converse(i, cols, p, q);
        assert(x == x0 + x % mw && y == y0 + y % mh) by (nonlinear_arith)
            requires
                x == mw * q + x % mw,
                y == mh * p + y % mh,
                q == col,
                p == row,
                x0 == col * mw,
                y0 == row * mh,
        ;
    }
}

/// Composites `images` into one contact sheet.
pub fn composite(images: &[RgbaImage]) -> (r: Result<RgbaImage, GridError>)
    requires
        forall|i: int| 0 <= i < images@.len() ==> #[trigger] images@[i].wf(),
    ensures
        (r is Err && r->Err_0 is EmptyInput) <==> images@.len() == 0,
        (r is Err && r->Err_0 is CanvasTooLarge) <==> (images@.len() > 0 && !sheet_fits(
            views(images@),
        )),
        r is Ok <==> (images@.len() > 0 && sheet_fits(views(images@))),
        r is Ok ==> is_sheet_of(r->Ok_0, views(images@)),
{
    let ghost s = views(images@);
    let n: usize = images.len();
    if n == 0 {
        return Err(GridError::EmptyInput);
    }
    let mut mw: u32 = 0;
    let mut mh: u32 = 0;
    let mut k: usize = 0;
    while k < n
        invariant
            k <= n,
            n == s.len(),
            s == views(images@),
            mw == max_width(s.take(k as int)),
            mh == max_height(s.take(k as int)),
        decreases n - k,
    {
        assert(s.take(k + 1).drop_last() =~= s.take(k as int));
        assert(s.take(k + 1).last() == s[k as int]);
        assert(s[k as int] == images@[k as int]@);
        if images[k].width > mw {
            mw = images[k].width;
        }
        if images[k].height > mh {
            mh = images[k].height;
        }
        k = k + 1;
    }
    assert(s.take(n as int) =~= s);
    if n as u128 > 3 * (u32::MAX as u128) {
        return Err(GridError::CanvasTooLarge);
    }
    let (cols, rows) = calculate_grid_dimensions(n);
    proof {
        assert(cols as u128 * mw as u128 <= u32::MAX as u128 * u32::MAX as u128) by (nonlinear_arith)
            requires
                cols <= u32::MAX,
                mw <= u32::MAX,
        ;
        assert(rows as u128 * mh as u128 <= u32::MAX as u128 * u32::MAX as u128) by (nonlinear_arith)
            requires
                rows <= u32::MAX,
                mh <= u32::MAX,
        ;
    }
    let wide: u128 = (cols as u128) * (mw as u128);
    let high: u128 = (rows as u128) * (mh as u128);
    if wide > u32::MAX as u128 || high > u32::MAX as u128 {
        return Err(GridError::CanvasTooLarge);
    }
    proof {
        assert(4 * wide * high <= 4 * (u32::MAX as u128) * (u32::MAX as u128)) by (nonlinear_arith)
            requires
                wide <= u32::MAX,
                high <= u32::MAX,
        ;
    }
    if 4 * wide * high > usize::MAX as u128 {
        return Err(GridError::CanvasTooLarge);
    }
    let width: u32 = wide as u32;
    let height: u32 = high as u32;
    let mut canvas = RgbaImage::from_pixel(width, height, (255u8, 255u8, 255u8, 255u8));
    proof {
        lemma_max_dims(s);
        lemma_plan_holds_all(n as nat);
    }
    let cols_n: usize = cols as usize;
    let mut i: usize = 0;
    while i < n
        invariant
            i <= n,
            n == s.len(),
            s == views(images@),
            forall|j: int| 0 <= j < n ==> #[trigger] images@[j].wf(),
            forall|j: int| 0 <= j < n ==> #[trigger] s[j].0 <= mw && s[j].1 <= mh,
            mw == max_width(s),
            mh == max_height(s),
            cols == plan(n as nat).0,
            rows == plan(n as nat).1,
            cols > 0,
            cols_n == cols,
            cols * rows >= n,
            width == cols * mw,
            height == rows * mh,
            canvas.wf(),
            canvas.width == width,
            canvas.height == height,
            forall|x: int, y: int|
                0 <= x < width && 0 <= y < height ==> #[trigger] canvas.px(x, y) == sheet_pixel(
                    s,
                    i as nat,
                    x,
                    y,
                ),
        decreases n - i,
    {
        let col: usize = i % cols_n;
        let row: usize = i / cols_n;
        let ghost tw = s[i as int].0 as int;
        let ghost th = s[i as int].1 as int;
        assert(s[i as int] == images@[i as int]@);
        proof {
            lemma_fundamental_div_mod(i as int, cols as int);
            assert(col * mw + tw <= width) by (nonlinear_arith)
                requires
                    col < cols,
                    tw <= mw,
                    width == cols * mw,
            ;
            assert(row < rows) by (nonlinear_arith)
                requires
                    i == cols * row + col,
                    i < n,
                    cols * rows >= n,
                    col >= 0,
                    cols > 0,
            ;
            assert(row * mh + th <= height) by (nonlinear_arith)
                requires
                    row < rows,
                    th <= mh,
                    height == rows * mh,
            ;
        }
        let x0: u32 = (col as u32) * mw;
        let y0: u32 = (row as u32) * mh;
        let ghost prev = canvas;
        overlay_at(&mut canvas, &images[i], x0, y0);
        proof {
            assert forall|x: int, y: int|
                0 <= x < width && 0 <= y < height implies #[trigger] canvas.px(x, y)
                == sheet_pixel(s, (i + 1) as nat, x, y) by {
                assert(prev.px(x, y) == sheet_pixel(s, i as nat, x, y));
                assert(mw > 0 && mh > 0) by (nonlinear_arith)
                    requires
                        0 <= x < width,
                        0 <= y < height,
                        width == cols * mw,
                        height == rows * mh,
                ;
                lemma_tile_rect(cols as int, mw as int, mh as int, i as int, tw, th, x, y);
            }
        }
        i = i + 1;
    }
    Ok(canvas)
}

/// Compositing is deterministic: any two sheets of the same ordered tiles are
/// the same image, byte for byte.
pub proof fn lemma_sheet_unique(a: RgbaImage, b: RgbaImage, images: Seq<TileView>)
    requires
        is_sheet_of(a, images),
        is_sheet_of(b, images),
    ensures
        a@ == b@,
{
    let w = a.width as int;
    let h = a.height as int;
    assert(a.data@.len() == 4 * (w * h)) by (nonlinear_arith)
        requires
            a.data@.len() == 4 * (a.width as nat) * (a.height as nat),
            w == a.width,
            h == a.height,
    ;
    assert forall|t: int| 0 <= t < a.data@.len() implies a.data@[t] == b.data@[t] by {
        lemma_fundamental_div_mod(t, 4);
        let p = t / 4;
        assert(0 <= p < w * h);
        assert(w > 0) by (nonlinear_arith)
            requires
                0 <= p < w * h,
                h >= 0,
        ;
        lemma_fundamental_div_mod(p, w);
        let x = p % w;
        let y = p / w;
        assert(0 <= y < h) by (nonlinear_arith)
            requires
                p == w * y + x,
                0 <= x < w,
                0 <= p < w * h,
        ;
        assert(y * w + x == p) by (nonlinear_arith)
            requires
                p == w * y + x,
        ;
        assert(a.px(x, y) == b.px(x, y));
    }
    assert(a.data@ =~= b.data@);
}

/// Left edge of the cell that tile `i` occupies.
pub open spec fn cell_x(images: Seq<TileView>, i: int) -> int {
    (i % (plan(images.len()).0 as int)) * (max_width(images) as int)
}

/// Top edge of the cell that tile `i` occupies.
pub open spec fn cell_y(images: Seq<TileView>, i: int) -> int {
    (i / (plan(images.len()).0 as int)) * (max_height(images) as int)
}

/// Some tile is as wide as the widest and some as tall as the tallest.
proof fn lemma_max_attained(images: Seq<TileView>)
    requires
        images.len() > 0,
    ensures
        exists|i: int| 0 <= i < images.len() && #[trigger] images[i].0 == max_width(images),
        exists|i: int| 0 <= i < images.len() && #[trigger] images[i].1 == max_height(images),
    decreases images.len(),
{
    let last = images.len() - 1;
    if images.len() == 1 {
        assert(images.drop_last().len() == 0);
        assert(max_width(images.drop_last()) == 0);
        assert(max_height(images.drop_last()) == 0);
        assert(images[last].0 == max_width(images));
        assert(images[last].1 == max_height(images));
    } else {
        let rest = images.drop_last();
        lemma_max_attained(rest);
        if images[last].0 > max_width(rest) {
            assert(images[last].0 == max_width(images));
        } else {
            let i = choose|i: int| 0 <= i < rest.len() && #[trigger] rest[i].0 == max_width(rest);
            assert(images[i].0 == max_width(images));
        }
        if images[last].1 > max_height(rest) {
            assert(images[last].1 == max_height(images));
        } else {
            let i = choose|i: int| 0 <= i < rest.len() && #[trigger] rest[i].1 == max_height(rest);
            assert(images[i].1 == max_height(images));
        }
    }
}

/// Reordering the tiles moves each tile's cell with it and changes nothing
/// else. With `t[i] == s[perm[i]]` for a permutation `perm`, both sheets have
/// the same size; cell `i` of the sheet of `t` shows, pixel for pixel, what cell
/// `perm[i]` of the sheet of `s` shows; the cells past the last tile are white
/// in both.
pub proof fn lemma_reorder_moves_cells(s: Seq<TileView>, t: Seq<TileView>, perm: Seq<int>)
    requires
        t.len() == s.len(),
        perm.len() == s.len(),
        forall|i: int| 0 <= i < s.len() ==> 0 <= #[trigger] perm[i] < s.len(),
        forall|i: int, j: int| 0 <= i < j < s.len() ==> perm[i] != perm[j],
        forall|j: int| 0 <= j < s.len() ==> #[trigger] perm.contains(j),
        forall|i: int| 0 <= i < s.len() ==> #[trigger] t[i] == s[perm[i]],
    ensures
        sheet_size(t) == sheet_size(s),
        forall|i: int, dx: int, dy: int|
            0 <= i < s.len() && 0 <= dx < max_width(s) && 0 <= dy < max_height(s) ==> #[trigger]
            sheet_pixel(t, t.len(), cell_x(t, i) + dx, cell_y(t, i) + dy) == sheet_pixel(
                s,
                s.len(),
                cell_x(s, perm[i]) + dx,
                cell_y(s, perm[i]) + dy,
            ),
        forall|x: int, y: int|
            cell_of(t, x, y) >= t.len() ==> #[trigger] sheet_pixel(t, t.len(), x, y) == white()
                && sheet_pixel(s, s.len(), x, y) == white(),
{
    let n = s.len();
    if n > 0 {
        lemma_max_dims(s);
        lemma_max_dims(t);
        lemma_max_attained(s);
        lemma_max_attained(t);
        let js = choose|j: int| 0 <= j < n && #[trigger] s[j].0 == max_width(s);
        assert(perm.contains(js));
        let is = choose|i: int| 0 <= i < n && perm[i] == js;
        assert(t[is].0 == max_width(s));
        let it = choose|i: int| 0 <= i < n && #[trigger] t[i].0 == max_width(t);
        assert(s[perm[it]].0 == max_width(t));
        assert(max_width(t) == max_width(s));
        let hs = choose|j: int| 0 <= j < n && #[trigger] s[j].1 == max_height(s);
        assert(perm.contains(hs));
        let ih = choose|i: int| 0 <= i < n && perm[i] == hs;
        assert(t[ih].1 == max_height(s));
        assert(t[ih].0 <= max_width(t));
        let ht = choose|i: int| 0 <= i < n && #[trigger] t[i].1 == max_height(t);
        assert(s[perm[ht]].1 == max_height(t));
        assert(s[perm[ht]].0 <= max_width(s));
        assert(max_height(t) == max_height(s));
    }
    let cols = plan(n).0 as int;
    let mw = max_width(s) as int;
    let mh = max_height(s) as int;
    assert forall|i: int, dx: int, dy: int|
        0 <= i < n && 0 <= dx < mw && 0 <= dy < mh implies #[trigger] sheet_pixel(
        t,
        t.len(),
        cell_x(t, i) + dx,
        cell_y(t, i) + dy,
    ) == sheet_pixel(s, s.len(), cell_x(s, perm[i]) + dx, cell_y(s, perm[i]) + dy) by {
        lemma_plan_holds_all(n);
        let j = perm[i];
        let (x, y) = (cell_x(t, i) + dx, cell_y(t, i) + dy);
        let (u, v) = (cell_x(s, j) + dx, cell_y(s, j) + dy);
        lemma_fundamental_div_mod(i, cols);
        lemma_fundamental_div_mod(j, cols);
        assert(0 <= x < cols * mw && 0 <= y) by (nonlinear_arith)
            requires
                x == (i % cols) * mw + dx,
                y == (i / cols) * mh + dy,
                0 <= i % cols < cols,
                i / cols >= 0,
                0 <= dx < mw,
                0 <= dy < mh,
        ;
        assert(0 <= u < cols * mw && 0 <= v) by (nonlinear_arith)
            requires
                u == (j % cols) * mw + dx,
                v == (j / cols) * mh + dy,
                0 <= j % cols < cols,
                j / cols >= 0,
                0 <= dx < mw,
                0 <= dy < mh,
        ;
        lemma_tile_rect(cols, mw, mh, i, mw, mh, x, y);
        lemma_tile_rect(cols, mw, mh, j, mw, mh, u, v);
    }
}

} // verus!
