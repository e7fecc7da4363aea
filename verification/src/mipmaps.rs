//! Mip chains: the level geometry and the atlas in which every level of a
//! texture is stored row by row below the previous one.
use vstd::prelude::*;

verus! {

/// The extent of the next mip level: half, but never below one texel.
pub open spec fn next_extent(d: int) -> int {
    if d / 2 >= 1 {
        d / 2
    } else {
        1
    }
}

/// The extent of mip level `level` of a texture whose base extent is `d`.
pub open spec fn level_extent(d: int, level: nat) -> int
    decreases level,
{
    if level == 0 {
        d
    } else {
        next_extent(level_extent(d, (level - 1) as nat))
    }
}

/// Number of atlas rows taken by `levels` levels whose first level is `h` rows high.
pub open spec fn atlas_rows(h: int, levels: nat) -> int
    decreases levels,
{
    if levels == 0 {
        0
    } else {
        h + atlas_rows(next_extent(h), (levels - 1) as nat)
    }
}

/// The first `w * 4` bytes of `rows` consecutive atlas rows starting at row `y`,
/// for an atlas whose rows are `width` RGBA texels wide.
pub open spec fn level_pixels(atlas: Seq<u8>, width: int, w: int, y: int, rows: nat) -> Seq<u8>
    decreases rows,
{
    if rows == 0 {
        seq![]
    } else {
        let r = y + rows - 1;
        level_pixels(atlas, width, w, y, (rows - 1) as nat) + atlas.subrange(
            r * width * 4,
            r * width * 4 + w * 4,
        )
    }
}

/// The packed mip chain read out of an atlas: `levels` levels, the first one
/// `w` by `h` texels at atlas row `y`, each following level below the previous.
pub open spec fn unpacked(atlas: Seq<u8>, width: int, w: int, h: int, y: int, levels: nat) -> Seq<
    u8,
>
    decreases levels,
{
    if levels == 0 {
        seq![]
    } else {
        level_pixels(atlas, width, w, y, h as nat) + unpacked(
            atlas,
            width,
            next_extent(w),
            next_extent(h),
            y + h,
            (levels - 1) as nat,
        )
    }
}

/// Whether an atlas of `len` bytes holds exactly `levels` levels of a
/// `width` by `height` texture.
pub open spec fn atlas_fits(len: int, width: int, height: int, levels: nat) -> bool {
    &&& len == atlas_rows(height, levels) * width * 4
    &&& (width > 0 || levels <= 1)
}

proof fn lemma_atlas_rows_nonneg(h: int, levels: nat)
    requires
        h >= 0,
    ensures
        atlas_rows(h, levels) >= 0,
        levels >= 1 ==> atlas_rows(h, levels) >= h,
    decreases levels,
{
    if levels > 0 {
        lemma_atlas_rows_nonneg(next_extent(h), (levels - 1) as nat);
    }
}

proof fn lemma_mul_mono(a: int, b: int, c: int)
    requires
        0 <= a <= b,
        c >= 0,
    ensures
        a * c <= b * c,
{
    assert(a * c <= b * c) by (nonlinear_arith)
        requires
            0 <= a <= b,
            c >= 0,
    ;
}

/// Copy the rows of a baked mip atlas back into the packed layout that a GPU
/// texture expects: every level's texels, level after level, with no padding.
pub fn unpack(atlas: &[u8], width: u32, height: u32, levels: u32) -> (data: Vec<u8>)
    requires
        atlas_fits(atlas@.len() as int, width as int, height as int, levels as nat),
    ensures
        data@ == unpacked(atlas@, width as int, width as int, height as int, 0, levels as nat),
{
    let ghost total = atlas_rows(height as int, levels as nat);
    let ghost goal = unpacked(atlas@, width as int, width as int, height as int, 0, levels as nat);
    let atlas_len: usize = atlas.len();
    proof {
        lemma_atlas_rows_nonneg(height as int, levels as nat);
        assert(atlas@.len() == atlas_len);
        if width > 0 {
            lemma_mul_mono(1, (width * 4) as int, total);
            assert(total * (width * 4) == total * width * 4) by (nonlinear_arith);
            assert(total <= atlas@.len());
        } else {
            assert(levels <= 1);
            if levels == 1 {
                assert(atlas_rows(next_extent(height as int), 0) == 0);
            }
        }
        assert(total <= usize::MAX);
    }
    let width_bytes: usize = width as usize;
    let mut w: usize = width as usize;
    let mut h: usize = height as usize;
    let mut y: usize = 0;
    let mut data: Vec<u8> = Vec::new();
    let mut level: u32 = 0;
    while level < levels
        invariant
            atlas_fits(atlas@.len() as int, width as int, height as int, levels as nat),
            width_bytes == width,
            total == atlas_rows(height as int, levels as nat),
            atlas@.len() == total * width * 4,
            0 <= total <= usize::MAX,
            atlas@.len() <= usize::MAX,
            0 <= level <= levels,
            y as int + atlas_rows(h as int, (levels - level) as nat) == total,
            level == 0 ==> w == width && h == height,
            level > 0 ==> 1 <= w && 1 <= h,
            width > 0 ==> w <= width,
            width == 0 ==> level <= 1,
            data@ + unpacked(atlas@, width as int, w as int, h as int, y as int, (levels - level) as nat) == goal,
        decreases levels - level,
    {
        proof {
            lemma_atlas_rows_nonneg(next_extent(h as int), (levels - level - 1) as nat);
            lemma_atlas_rows_nonneg(h as int, (levels - level) as nat);
        }
        let ghost before = data@;
        let ghost rest = unpacked(atlas@, width as int, next_extent(w as int), next_extent(h as int), y + h, (levels - level - 1) as nat);
        assert(unpacked(atlas@, width as int, w as int, h as int, y as int, (levels - level) as nat)
            == level_pixels(atlas@, width as int, w as int, y as int, h as nat) + rest);
        let mut row: usize = 0;
        while row < h
            invariant
                0 <= row <= h,
                width_bytes == width,
                atlas@.len() == total * width * 4,
                0 <= total <= usize::MAX,
                atlas@.len() <= usize::MAX,
                y as int + h as int <= total,
                width > 0 ==> w <= width,
                width == 0 ==> w == 0,
                data@ == before + level_pixels(atlas@, width as int, w as int, y as int, row as nat),
            decreases h - row,
        {
            proof {
                lemma_mul_mono((y + row + 1) as int, total, (width * 4) as int);
                lemma_mul_mono(w as int, width as int, 4);
                assert((y + row) as int * width * 4 + w * 4 <= (y + row + 1) as int * (width * 4)) by (nonlinear_arith)
                    requires w <= width || w == 0, y + row >= 0, width >= 0;
                assert((y + row + 1) as int * (width * 4) == total * width * 4 || (y + row + 1) as int * (width * 4) <= total * (width * 4));
                assert(total * (width * 4) == total * width * 4) by (nonlinear_arith);
                assert((y + row) as int * width * 4 == (y + row) as int * (width * 4)) by (nonlinear_arith);
                assert((y + row) as int * width <= (y + row) as int * width * 4) by (nonlinear_arith)
                    requires y + row >= 0, width >= 0;
            }
            let start: usize = (y + row) * width_bytes * 4;
            data.extend_from_slice(&atlas[start..start + w * 4]);
            proof {
                let piece = atlas@.subrange(start as int, start + w * 4);
                assert(data@ =~= before + level_pixels(atlas@, width as int, w as int, y as int, row as nat) + piece);
                assert(level_pixels(atlas@, width as int, w as int, y as int, (row + 1) as nat)
                    == level_pixels(atlas@, width as int, w as int, y as int, row as nat) + piece);
                assert(before + level_pixels(atlas@, width as int, w as int, y as int, row as nat) + piece
                    =~= before + (level_pixels(atlas@, width as int, w as int, y as int, row as nat) + piece));
            }
            row = row + 1;
        }
        assert(data@ + rest =~= before + (level_pixels(atlas@, width as int, w as int, y as int, h as nat) + rest));
        y = y + h;
        w = if w / 2 >= 1 { w / 2 } else { 1 };
        h = if h / 2 >= 1 { h / 2 } else { 1 };
        level = level + 1;
    }
    assert(data@ + seq![] =~= data@);
    data
}

/// The extent of the next mip level of an extent `d`, as a natural number.
pub open spec fn next_dim(d: nat) -> nat {
    if d / 2 >= 1 {
        d / 2
    } else {
        1
    }
}

/// The extent of mip level `l` of a texture whose base extent is `d`.
pub open spec fn level_dim(d: nat, l: nat) -> nat
    decreases l,
{
    if l == 0 {
        d
    } else {
        next_dim(level_dim(d, (l - 1) as nat))
    }
}

/// How many times `d` halves before reaching one.
pub open spec fn halvings(d: nat) -> nat
    decreases d,
{
    if d > 1 {
        1 + halvings(d / 2)
    } else {
        0
    }
}

/// The number of levels of the full mip chain of a `w` by `h` texture, down to 1 by 1.
pub open spec fn mip_count(w: nat, h: nat) -> nat {
    1 + if halvings(w) > halvings(h) {
        halvings(w)
    } else {
        halvings(h)
    }
}

/// The byte offset of mip level `l` when levels of RGBA texels follow each other.
pub open spec fn level_offset(w: nat, h: nat, l: nat) -> nat
    decreases l,
{
    if l == 0 {
        0
    } else {
        level_offset(w, h, (l - 1) as nat) + level_dim(w, (l - 1) as nat) * level_dim(h, (l - 1) as nat)
            * 4
    }
}

/// `out` is what `filter` returns for texel (`x`, `y`) of the level below a
/// `w` by `h` level holding `src`.
pub open spec fn texel_made<F: Fn(&[u8], usize, usize, usize, usize) -> [u8; 4]>(
    filter: F,
    src: Seq<u8>,
    w: usize,
    h: usize,
    x: usize,
    y: usize,
    out: Seq<u8>,
) -> bool {
    exists|s: &[u8], px: [u8; 4]|
        #![trigger call_ensures(filter, (s, w, h, x, y), px)]
        s@ == src && call_ensures(filter, (s, w, h, x, y), px) && px@ == out
}

/// In `d`, the level after the `w` by `h` level at offset `off` is made, texel
/// by texel, by `filter` from that level.
pub open spec fn level_made<F: Fn(&[u8], usize, usize, usize, usize) -> [u8; 4]>(
    filter: F,
    d: Seq<u8>,
    off: int,
    w: nat,
    h: nat,
) -> bool {
    let next_off = off + w * h * 4;
    let nw = next_dim(w);
    let nh = next_dim(h);
    forall|x: nat, y: nat|
        x < nw && y < nh ==> #[trigger] texel_made(
            filter,
            d.subrange(off, next_off),
            w as usize,
            h as usize,
            x as usize,
            y as usize,
            d.subrange(next_off + (y * nw + x) * 4, next_off + (y * nw + x) * 4 + 4),
        )
}

/// Whether `filter` accepts every call it may get: a level's bytes, its size,
/// and a texel of the next level.
pub open spec fn filter_total<F: Fn(&[u8], usize, usize, usize, usize) -> [u8; 4]>(filter: F) -> bool {
    forall|s: &[u8], w: usize, h: usize, x: usize, y: usize|
        s@.len() == w * h * 4 && x < next_dim(w as nat) && y < next_dim(h as nat) ==> call_requires(
            filter,
            (s, w, h, x, y),
        )
}

proof fn lemma_level_dim_shift(d: nat, l: nat)
    ensures
        level_dim(d, l + 1) == level_dim(next_dim(d), l),
    decreases l,
{
    if l > 0 {
        lemma_level_dim_shift(d, (l - 1) as nat);
        assert(((l - 1) as nat + 1) as nat == l);
        assert(level_dim(d, l + 1) == next_dim(level_dim(d, l)));
        assert(level_dim(next_dim(d), l) == next_dim(level_dim(next_dim(d), (l - 1) as nat)));
    } else {
        assert(level_dim(d, 1) == next_dim(level_dim(d, 0)));
    }
}

proof fn lemma_level_dim_positive(d: nat, l: nat)
    requires
        d >= 1,
    ensures
        level_dim(d, l) >= 1,
        level_dim(d, l) <= d,
    decreases l,
{
    if l > 0 {
        lemma_level_dim_positive(d, (l - 1) as nat);
    }
}

/// Level `l` is larger than one texel exactly while `l` is below the number of halvings.
proof fn lemma_level_dim_halvings(d: nat, l: nat)
    requires
        d >= 1,
    ensures
        (level_dim(d, l) > 1) == (l < halvings(d)),
    decreases d,
{
    if d > 1 {
        if l > 0 {
            lemma_level_dim_shift(d, (l - 1) as nat);
            lemma_level_dim_halvings(d / 2, (l - 1) as nat);
        }
    } else {
        lemma_level_dim_positive(d, l);
    }
}

/// A twice larger bound allows one more halving.
proof fn lemma_halvings_bound(d: nat, k: nat, cap: nat)
    requires
        d < cap,
        cap <= two_to(k),
    ensures
        halvings(d) <= k,
    decreases k,
{
    if d > 1 {
        if k == 0 {
            assert(two_to(0) == 1);
        } else {
            lemma_halvings_bound(d / 2, (k - 1) as nat, two_to((k - 1) as nat));
        }
    }
}

/// Two to the power `k`.
pub open spec fn two_to(k: nat) -> nat
    decreases k,
{
    if k == 0 {
        1
    } else {
        2 * two_to((k - 1) as nat)
    }
}

proof fn lemma_level_offset_grows(w: nat, h: nat, a: nat, b: nat)
    requires
        a <= b,
    ensures
        level_offset(w, h, a) <= level_offset(w, h, b),
    decreases b,
{
    if a < b {
        lemma_level_offset_grows(w, h, a, (b - 1) as nat);
        assert(level_dim(w, (b - 1) as nat) * level_dim(h, (b - 1) as nat) * 4 >= 0) by (nonlinear_arith);
    }
}

/// Level facts only look at the bytes they name: a longer buffer with the
/// same prefix keeps them.
proof fn lemma_level_made_extends<F: Fn(&[u8], usize, usize, usize, usize) -> [u8; 4]>(
    filter: F,
    d: Seq<u8>,
    e: Seq<u8>,
    off: int,
    w: nat,
    h: nat,
)
    requires
        level_made(filter, d, off, w, h),
        off >= 0,
        off + w * h * 4 + next_dim(w) * next_dim(h) * 4 <= d.len(),
        d.len() <= e.len(),
        e.subrange(0, d.len() as int) == d,
    ensures
        level_made(filter, e, off, w, h),
{
    let next_off = off + w * h * 4;
    let nw = next_dim(w);
    let nh = next_dim(h);
    assert forall|x: nat, y: nat| x < nw && y < nh implies #[trigger] texel_made(
        filter,
        e.subrange(off, next_off),
        w as usize,
        h as usize,
        x as usize,
        y as usize,
        e.subrange(next_off + (y * nw + x) * 4, next_off + (y * nw + x) * 4 + 4),
    ) by {
        assert(texel_made(filter, d.subrange(off, next_off), w as usize, h as usize, x as usize, y as usize,
            d.subrange(next_off + (y * nw + x) * 4, next_off + (y * nw + x) * 4 + 4)));
        assert((y * nw + x) * 4 + 4 <= nw * nh * 4) by (nonlinear_arith)
            requires x < nw, y < nh;
        assert(w * h * 4 >= 0) by (nonlinear_arith);
        assert(e.subrange(off, next_off) =~= d.subrange(off, next_off));
        assert(e.subrange(next_off + (y * nw + x) * 4, next_off + (y * nw + x) * 4 + 4)
            =~= d.subrange(next_off + (y * nw + x) * 4, next_off + (y * nw + x) * 4 + 4));
    }
}

/// Append every smaller mip level of a `width` by `height` RGBA texture held
/// in `data`, down to one texel, each texel computed by `filter` from the
/// level above it; returns the number of levels, the base level included.
pub fn append_srgb_mips<F: Fn(&[u8], usize, usize, usize, usize) -> [u8; 4]>(
    data: &mut Vec<u8>,
    width: usize,
    height: usize,
    filter: F,
) -> (levels: u32)
    requires
        width > 0,
        height > 0,
        old(data)@.len() == width * height * 4,
        level_offset(width as nat, height as nat, mip_count(width as nat, height as nat)) <= usize::MAX,
        filter_total(filter),
    ensures
        levels == mip_count(width as nat, height as nat),
        final(data)@.len() == level_offset(width as nat, height as nat, levels as nat),
        final(data)@.subrange(0, old(data)@.len() as int) == old(data)@,
        forall|l: nat|
            l + 1 < levels ==> #[trigger] level_made(
                filter,
                final(data)@,
                level_offset(width as nat, height as nat, l) as int,
                level_dim(width as nat, l),
                level_dim(height as nat, l),
            ),
{
    let ghost wn = width as nat;
    let ghost hn = height as nat;
    let ghost total = mip_count(wn, hn);
    let ghost base = old(data)@;
    proof {
        reveal_with_fuel(two_to, 65);
        lemma_halvings_bound(wn, 64, two_to(64));
        lemma_halvings_bound(hn, 64, two_to(64));
        assert(level_dim(wn, 0) == wn && level_dim(hn, 0) == hn);
        assert(level_offset(wn, hn, 1) == level_offset(wn, hn, 0) + level_dim(wn, 0) * level_dim(hn, 0) * 4);
        assert(level_offset(wn, hn, 1) == wn * hn * 4);
        assert(data@.subrange(0, base.len() as int) =~= base);
    }
    let mut offset: usize = 0;
    let mut w: usize = width;
    let mut h: usize = height;
    let mut levels: u32 = 1;
    let ghost mut l: nat = 0;
    while w > 1 || h > 1
        invariant
            width > 0,
            height > 0,
            wn == width,
            hn == height,
            total == mip_count(wn, hn),
            total <= 65,
            filter_total(filter),
            l + 1 <= total,
            levels == l + 1,
            w == level_dim(wn, l),
            h == level_dim(hn, l),
            w >= 1,
            h >= 1,
            offset == level_offset(wn, hn, l),
            level_offset(wn, hn, total) <= usize::MAX,
            data@.len() == offset + w * h * 4,
            data@.len() == level_offset(wn, hn, l + 1),
            base.len() == wn * hn * 4,
            base.len() <= data@.len(),
            data@.subrange(0, base.len() as int) == base,
            forall|m: nat|
                m < l ==> #[trigger] level_made(
                    filter,
                    data@,
                    level_offset(wn, hn, m) as int,
                    level_dim(wn, m),
                    level_dim(hn, m),
                ),
        decreases total - l,
    {
        proof {
            lemma_level_dim_halvings(wn, l);
            lemma_level_dim_halvings(hn, l);
            lemma_level_dim_positive(wn, l + 1);
            lemma_level_dim_positive(hn, l + 1);
            lemma_level_offset_grows(wn, hn, l + 2, total);
            assert(level_offset(wn, hn, l + 2) == data@.len() + next_dim(w as nat) * next_dim(h as nat) * 4);
        }
        let nw: usize = if w / 2 >= 1 {
            w / 2
        } else {
            1
        };
        let nh: usize = if h / 2 >= 1 {
            h / 2
        } else {
            1
        };
        let ghost before = data@;
        let level_bytes: usize = w * h * 4;
        let mut next: Vec<u8> = Vec::new();
        let ghost mut level_view: Seq<u8> = Seq::empty();
        {
            let level: &[u8] = &data[offset..offset + level_bytes];
            proof {
                level_view = level@;
            }
            let mut y: usize = 0;
            while y < nh
                invariant
                    0 <= y <= nh,
                    nw == next_dim(w as nat),
                    nh == next_dim(h as nat),
                    nw >= 1,
                    nh >= 1,
                    before.len() + nw * nh * 4 <= usize::MAX,
                    level@.len() == w * h * 4,
                    level@ == before.subrange(offset as int, offset + w * h * 4),
                    level_view == level@,
                    filter_total(filter),
                    next@.len() == y * nw * 4,
                    forall|xx: nat, yy: nat|
                        xx < nw && yy < y ==> #[trigger] texel_made(
                            filter,
                            level@,
                            w,
                            h,
                            xx as usize,
                            yy as usize,
                            next@.subrange((yy * nw + xx) * 4, (yy * nw + xx) * 4 + 4),
                        ),
                decreases nh - y,
            {
                let mut x: usize = 0;
                while x < nw
                    invariant
                        0 <= x <= nw,
                        0 <= y < nh,
                        nw == next_dim(w as nat),
                        nh == next_dim(h as nat),
                        nw >= 1,
                        before.len() + nw * nh * 4 <= usize::MAX,
                        level@.len() == w * h * 4,
                        level@ == before.subrange(offset as int, offset + w * h * 4),
                        filter_total(filter),
                        next@.len() == (y * nw + x) * 4,
                        forall|xx: nat, yy: nat|
                            (xx < nw && yy < y) || (xx < x && yy == y) ==> #[trigger] texel_made(
                                filter,
                                level@,
                                w,
                                h,
                                xx as usize,
                                yy as usize,
                                next@.subrange((yy * nw + xx) * 4, (yy * nw + xx) * 4 + 4),
                            ),
                    decreases nw - x,
                {
                    proof {
                        assert((y * nw + x) * 4 + 4 <= nw * nh * 4) by (nonlinear_arith)
                            requires x < nw, y < nh;
                    }
                    let px = filter(level, w, h, x, y);
                    let ghost prev = next@;
                    next.push(px[0]);
                    next.push(px[1]);
                    next.push(px[2]);
                    next.push(px[3]);
                    proof {
                        assert(next@ =~= prev + px@);
                        assert((y * nw + x + 1) * 4 == (y * nw + x) * 4 + 4) by (nonlinear_arith);
                        assert(next@.subrange((y * nw + x) * 4, (y * nw + x) * 4 + 4) =~= px@);
                        assert(texel_made(filter, level@, w, h, x, y, px@));
                        assert forall|xx: nat, yy: nat|
                            (xx < nw && yy < y) || (xx < x + 1 && yy == y) implies #[trigger] texel_made(
                                filter,
                                level@,
                                w,
                                h,
                                xx as usize,
                                yy as usize,
                                next@.subrange((yy * nw + xx) * 4, (yy * nw + xx) * 4 + 4),
                            ) by {
                            if xx == x && yy == y {
                                assert(xx as usize == x && yy as usize == y);
                            } else {
                                assert((yy * nw + xx) * 4 + 4 <= (y * nw + x) * 4) by (nonlinear_arith)
                                    requires (xx < nw && yy < y) || (xx < x && yy == y), x <= nw;
                                assert(next@.subrange((yy * nw + xx) * 4, (yy * nw + xx) * 4 + 4)
                                    =~= prev.subrange((yy * nw + xx) * 4, (yy * nw + xx) * 4 + 4));
                            }
                        }
                    }
                    x = x + 1;
                }
                proof {
                    assert(((y + 1) * nw) * 4 == (y * nw + nw) * 4) by (nonlinear_arith);
                }
                y = y + 1;
            }
        }
        data.extend_from_slice(next.as_slice());
        proof {
            let next_off = offset + w * h * 4;
            assert(data@ =~= before + next@);
            assert(next@.len() == nw * nh * 4) by (nonlinear_arith)
                requires next@.len() == nh * nw * 4;
            assert forall|x: nat, y: nat| x < nw && y < nh implies #[trigger] texel_made(
                filter,
                data@.subrange(offset as int, next_off),
                w,
                h,
                x as usize,
                y as usize,
                data@.subrange(next_off + (y * nw + x) * 4, next_off + (y * nw + x) * 4 + 4),
            ) by {
                assert((y * nw + x) * 4 + 4 <= nw * nh * 4) by (nonlinear_arith)
                    requires x < nw, y < nh;
                assert(data@.subrange(offset as int, next_off) =~= before.subrange(offset as int, next_off));
                assert(data@.subrange(next_off + (y * nw + x) * 4, next_off + (y * nw + x) * 4 + 4)
                    =~= next@.subrange((y * nw + x) * 4, (y * nw + x) * 4 + 4));
                assert(texel_made(filter, level_view, w, h, x as usize, y as usize,
                    next@.subrange((y * nw + x) * 4, (y * nw + x) * 4 + 4)));
            }
            assert(level_made(filter, data@, offset as int, w as nat, h as nat));
            assert forall|m: nat| m < l + 1 implies #[trigger] level_made(
                filter,
                data@,
                level_offset(wn, hn, m) as int,
                level_dim(wn, m),
                level_dim(hn, m),
            ) by {
                if m < l {
                    lemma_level_dim_positive(wn, m);
                    assert(level_dim(wn, m + 1) == next_dim(level_dim(wn, m)));
                    assert(level_dim(hn, m + 1) == next_dim(level_dim(hn, m)));
                    assert(level_offset(wn, hn, m + 1) == level_offset(wn, hn, m) + level_dim(wn, m) * level_dim(hn, m) * 4);
                    assert(level_offset(wn, hn, m + 2) == level_offset(wn, hn, m + 1) + level_dim(wn, m + 1) * level_dim(hn, m + 1) * 4);
                    lemma_level_offset_grows(wn, hn, m + 2, l + 1);
                    assert(data@.subrange(0, before.len() as int) =~= before);
                    lemma_level_made_extends(filter, before, data@, level_offset(wn, hn, m) as int, level_dim(wn, m), level_dim(hn, m));
                }
            }
            assert(data@.subrange(0, base.len() as int) =~= base);
        }
        offset = offset + level_bytes;
        w = nw;
        h = nh;
        levels = levels + 1;
        proof {
            l = l + 1;
            lemma_level_dim_positive(wn, l);
            lemma_level_dim_positive(hn, l);
            assert(w * h * 4 >= 0) by (nonlinear_arith);
        }
    }
    proof {
        lemma_level_dim_halvings(wn, l);
        lemma_level_dim_halvings(hn, l);
    }
    levels
}

/// One atlas row: a level row of `w` texels from `data` at `off`, padded
/// with zero bytes to the atlas width.
pub open spec fn padded_row(data: Seq<u8>, off: int, w: int, width: int) -> Seq<u8> {
    data.subrange(off, off + w * 4) + Seq::new(((width - w) * 4) as nat, |i: int| 0u8)
}

/// The first `rows` atlas rows of a `w` texels wide level stored in `data` from `off`.
pub open spec fn packed_level(data: Seq<u8>, off: int, width: int, w: int, rows: nat) -> Seq<u8>
    decreases rows,
{
    if rows == 0 {
        seq![]
    } else {
        packed_level(data, off, width, w, (rows - 1) as nat) + padded_row(
            data,
            off + (rows - 1) * w * 4,
            w,
            width,
        )
    }
}

/// The atlas holding `levels` levels of a mip chain stored in `data` from
/// `off`, the first `w` by `h`: every level's rows below the previous level's.
pub open spec fn packed(data: Seq<u8>, off: int, width: int, w: int, h: int, levels: nat) -> Seq<u8>
    decreases levels,
{
    if levels == 0 {
        seq![]
    } else {
        packed_level(data, off, width, w, h as nat) + packed(
            data,
            off + w * h * 4,
            width,
            next_extent(w),
            next_extent(h),
            (levels - 1) as nat,
        )
    }
}

/// Bytes of `levels` levels of a mip chain whose first level is `w` by `h`.
pub open spec fn chain_len(w: int, h: int, levels: nat) -> int
    decreases levels,
{
    if levels == 0 {
        0
    } else {
        w * h * 4 + chain_len(next_extent(w), next_extent(h), (levels - 1) as nat)
    }
}

proof fn lemma_packed_level_len(data: Seq<u8>, off: int, width: int, w: int, rows: nat)
    requires
        0 <= w <= width,
        0 <= off,
        off + rows * w * 4 <= data.len(),
    ensures
        packed_level(data, off, width, w, rows).len() == rows * width * 4,
    decreases rows,
{
    if rows > 0 {
        let r = (rows - 1) as nat;
        assert(off + r * w * 4 + w * 4 == off + rows * w * 4) by (nonlinear_arith)
            requires rows == r + 1;
        assert(r * w * 4 >= 0) by (nonlinear_arith)
            requires w >= 0;
        assert(r * w * 4 <= rows * w * 4) by (nonlinear_arith)
            requires rows == r + 1, w >= 0;
        lemma_packed_level_len(data, off, width, w, r);
        assert(padded_row(data, off + r * w * 4, w, width).len() == width * 4);
        assert(packed_level(data, off, width, w, rows) == packed_level(data, off, width, w, r)
            + padded_row(data, off + r * w * 4, w, width));
        assert(r * width * 4 + width * 4 == rows * width * 4) by (nonlinear_arith)
            requires rows == r + 1;
    } else {
        assert(rows * width * 4 == 0) by (nonlinear_arith)
            requires rows == 0;
    }
}

/// Reading a packed level's rows back gives the level's bytes.
proof fn lemma_level_roundtrip(atlas: Seq<u8>, data: Seq<u8>, off: int, width: int, w: int, y: int, rows: nat)
    requires
        0 <= w <= width,
        0 <= off,
        0 <= y,
        off + rows * w * 4 <= data.len(),
        (y + rows) * width * 4 <= atlas.len(),
        atlas.subrange(y * width * 4, (y + rows) * width * 4) == packed_level(data, off, width, w, rows),
    ensures
        level_pixels(atlas, width, w, y, rows) == data.subrange(off, off + rows * w * 4),
    decreases rows,
{
    if rows > 0 {
        let r = (rows - 1) as nat;
        assert(r * w * 4 >= 0 && r * width * 4 >= 0) by (nonlinear_arith)
            requires r >= 0, w >= 0, width >= 0;
        assert((y + r) * width * 4 == y * width * 4 + r * width * 4) by (nonlinear_arith);
        assert((y + rows) * width * 4 == (y + r) * width * 4 + width * 4) by (nonlinear_arith)
            requires rows == r + 1;
        assert(off + rows * w * 4 == off + r * w * 4 + w * 4) by (nonlinear_arith)
            requires rows == r + 1;
        assert(y * width * 4 >= 0) by (nonlinear_arith)
            requires y >= 0, width >= 0;
        assert(w * 4 <= width * 4);
        lemma_packed_level_len(data, off, width, w, r);
        let row = padded_row(data, off + r * w * 4, w, width);
        assert(packed_level(data, off, width, w, rows) == packed_level(data, off, width, w, r) + row);
        let whole = atlas.subrange(y * width * 4, (y + rows) * width * 4);
        assert(whole.subrange(0, r * width * 4) =~= packed_level(data, off, width, w, r));
        assert(atlas.subrange(y * width * 4, (y + r) * width * 4) =~= whole.subrange(0, r * width * 4));
        lemma_level_roundtrip(atlas, data, off, width, w, y, r);
        assert(level_pixels(atlas, width, w, y, rows) == level_pixels(atlas, width, w, y, r) + atlas.subrange(
            (y + r) * width * 4,
            (y + r) * width * 4 + w * 4,
        ));
        assert(atlas.subrange((y + r) * width * 4, (y + r) * width * 4 + w * 4) =~= whole.subrange(
            r * width * 4,
            r * width * 4 + w * 4,
        ));
        assert(whole.subrange(r * width * 4, r * width * 4 + w * 4) =~= row.subrange(0, w * 4));
        assert(row.subrange(0, w * 4) =~= data.subrange(off + r * w * 4, off + r * w * 4 + w * 4));
        assert(data.subrange(off, off + rows * w * 4) =~= data.subrange(off, off + r * w * 4) + data.subrange(
            off + r * w * 4,
            off + r * w * 4 + w * 4,
        ));
    } else {
        assert(rows * w * 4 == 0) by (nonlinear_arith)
            requires rows == 0;
        assert(data.subrange(off, off) =~= seq![]);
    }
}

proof fn lemma_packed_len(data: Seq<u8>, off: int, width: int, w: int, h: int, levels: nat)
    requires
        1 <= w <= width,
        1 <= h,
        0 <= off,
        off + chain_len(w, h, levels) <= data.len(),
    ensures
        packed(data, off, width, w, h, levels).len() == atlas_rows(h, levels) * width * 4,
        chain_len(w, h, levels) >= 0,
    decreases levels,
{
    if levels > 0 {
        assert(w * h * 4 >= 0) by (nonlinear_arith)
            requires w >= 1, h >= 1;
        lemma_chain_len_nonneg(next_extent(w), next_extent(h), (levels - 1) as nat);
        assert(h * w * 4 == w * h * 4) by (nonlinear_arith);
        lemma_packed_level_len(data, off, width, w, h as nat);
        lemma_packed_len(data, off + w * h * 4, width, next_extent(w), next_extent(h), (levels - 1) as nat);
        assert(h * width * 4 + atlas_rows(next_extent(h), (levels - 1) as nat) * width * 4 == (h
            + atlas_rows(next_extent(h), (levels - 1) as nat)) * width * 4) by (nonlinear_arith);
    }
}

proof fn lemma_chain_len_nonneg(w: int, h: int, levels: nat)
    requires
        w >= 1,
        h >= 1,
    ensures
        chain_len(w, h, levels) >= 0,
    decreases levels,
{
    if levels > 0 {
        assert(w * h * 4 >= 0) by (nonlinear_arith)
            requires w >= 1, h >= 1;
        lemma_chain_len_nonneg(next_extent(w), next_extent(h), (levels - 1) as nat);
    }
}

/// Reading packed levels back gives the mip chain they were packed from.
proof fn lemma_chain_roundtrip(
    atlas: Seq<u8>,
    data: Seq<u8>,
    off: int,
    width: int,
    w: int,
    h: int,
    y: int,
    levels: nat,
)
    requires
        1 <= w <= width,
        1 <= h,
        0 <= off,
        0 <= y,
        off + chain_len(w, h, levels) <= data.len(),
        (y + atlas_rows(h, levels)) * width * 4 <= atlas.len(),
        atlas.subrange(y * width * 4, (y + atlas_rows(h, levels)) * width * 4) == packed(
            data,
            off,
            width,
            w,
            h,
            levels,
        ),
    ensures
        unpacked(atlas, width, w, h, y, levels) == data.subrange(off, off + chain_len(w, h, levels)),
    decreases levels,
{
    if levels > 0 {
        let nw = next_extent(w);
        let nh = next_extent(h);
        let rest_rows = atlas_rows(nh, (levels - 1) as nat);
        lemma_atlas_rows_nonneg(nh, (levels - 1) as nat);
        lemma_chain_len_nonneg(nw, nh, (levels - 1) as nat);
        assert(w * h * 4 >= 0 && h * w * 4 == w * h * 4) by (nonlinear_arith)
            requires w >= 1, h >= 1;
        lemma_packed_level_len(data, off, width, w, h as nat);
        lemma_packed_len(data, off + w * h * 4, width, nw, nh, (levels - 1) as nat);
        assert(y * width * 4 >= 0 && h * width * 4 >= 0 && rest_rows * width * 4 >= 0) by (nonlinear_arith)
            requires y >= 0, h >= 1, width >= 1, rest_rows >= 0;
        assert((y + h) * width * 4 == y * width * 4 + h * width * 4) by (nonlinear_arith);
        assert((y + h + rest_rows) * width * 4 == (y + h) * width * 4 + rest_rows * width * 4) by (nonlinear_arith);
        let whole = atlas.subrange(y * width * 4, (y + h + rest_rows) * width * 4);
        assert(atlas.subrange(y * width * 4, (y + h) * width * 4) =~= whole.subrange(0, h * width * 4));
        assert(atlas.subrange((y + h) * width * 4, (y + h + rest_rows) * width * 4) =~= whole.subrange(
            h * width * 4,
            whole.len() as int,
        ));
        assert(packed(data, off, width, w, h, levels) == packed_level(data, off, width, w, h as nat) + packed(
            data, off + w * h * 4, width, nw, nh, (levels - 1) as nat));
        assert(atlas_rows(h, levels) == h + rest_rows);
        assert(whole.subrange(0, h * width * 4) =~= packed_level(data, off, width, w, h as nat));
        assert(whole.subrange(h * width * 4, whole.len() as int) =~= packed(data, off + w * h * 4, width, nw, nh, (levels - 1) as nat));
        assert(h * w * 4 == w * h * 4) by (nonlinear_arith);
        lemma_level_roundtrip(atlas, data, off, width, w, y, h as nat);
        lemma_chain_roundtrip(atlas, data, off + w * h * 4, width, nw, nh, y + h, (levels - 1) as nat);
        assert(data.subrange(off, off + chain_len(w, h, levels)) =~= data.subrange(off, off + h * w * 4)
            + data.subrange(off + w * h * 4, off + w * h * 4 + chain_len(nw, nh, (levels - 1) as nat)));
    }
}

/// The atlas is read back into exactly the mip chain it was packed from.
pub proof fn lemma_unpack_inverts_pack(data: Seq<u8>, width: int, height: int, levels: nat)
    requires
        width >= 1,
        height >= 1,
        data.len() == chain_len(width, height, levels),
    ensures
        unpacked(packed(data, 0, width, width, height, levels), width, width, height, 0, levels) == data,
{
    let atlas = packed(data, 0, width, width, height, levels);
    lemma_packed_len(data, 0, width, width, height, levels);
    lemma_atlas_rows_nonneg(height, levels);
    assert(atlas.subrange(0, atlas_rows(height, levels) * width * 4) =~= atlas);
    lemma_chain_roundtrip(atlas, data, 0, width, width, height, 0, levels);
    assert(data.subrange(0, data.len() as int) =~= data);
}

/// Lay out a mip chain (`levels` levels, the first `width` by `height`, one
/// after the other in `data`) as an atlas `width` texels wide: each level's
/// rows below the previous level's, every row padded with zero bytes.
pub fn pack_atlas(data: &[u8], width: u32, height: u32, levels: u32) -> (atlas: Vec<u8>)
    requires
        width >= 1,
        height >= 1,
        data@.len() == chain_len(width as int, height as int, levels as nat),
        atlas_rows(height as int, levels as nat) * width * 4 <= usize::MAX,
    ensures
        atlas@ == packed(data@, 0, width as int, width as int, height as int, levels as nat),
        atlas@.len() == atlas_rows(height as int, levels as nat) * width * 4,
{
    let ghost goal = packed(data@, 0, width as int, width as int, height as int, levels as nat);
    let ghost total_rows = atlas_rows(height as int, levels as nat);
    proof {
        lemma_packed_len(data@, 0, width as int, width as int, height as int, levels as nat);
        lemma_atlas_rows_nonneg(height as int, levels as nat);
    }
    let data_len = data.len();
    let mut atlas: Vec<u8> = Vec::new();
    let mut w: usize = width as usize;
    let mut h: usize = height as usize;
    let mut off: usize = 0;
    let ghost mut y: int = 0;
    let mut level: u32 = 0;
    while level < levels
        invariant
            0 <= level <= levels,
            width >= 1,
            data_len == data@.len(),
            1 <= w <= width,
            1 <= h,
            0 <= y,
            total_rows == atlas_rows(height as int, levels as nat),
            total_rows * width * 4 <= usize::MAX,
            y + atlas_rows(h as int, (levels - level) as nat) == total_rows,
            atlas@.len() == y * width * 4,
            off + chain_len(w as int, h as int, (levels - level) as nat) == data@.len(),
            atlas@ + packed(data@, off as int, width as int, w as int, h as int, (levels - level) as nat) == goal,
        decreases levels - level,
    {
        let ghost start = atlas@;
        let ghost rest = packed(data@, off + w * h * 4, width as int, next_extent(w as int), next_extent(h as int), (levels - level - 1) as nat);
        proof {
            lemma_atlas_rows_nonneg(next_extent(h as int), (levels - level - 1) as nat);
            lemma_chain_len_nonneg(next_extent(w as int), next_extent(h as int), (levels - level - 1) as nat);
            assert(packed(data@, off as int, width as int, w as int, h as int, (levels - level) as nat)
                == packed_level(data@, off as int, width as int, w as int, h as nat) + rest);
            assert(h * w * 4 == w * h * 4 && w * h * 4 >= 0) by (nonlinear_arith)
                requires w >= 1, h >= 1;
        }
        let mut row: usize = 0;
        while row < h
            invariant
                0 <= row <= h,
                1 <= w <= width,
                data_len == data@.len(),
                0 <= y,
                y + h <= total_rows,
                total_rows * width * 4 <= usize::MAX,
                off + w * h * 4 <= data@.len(),
                atlas@ == start + packed_level(data@, off as int, width as int, w as int, row as nat),
                start.len() == y * width * 4,
                atlas@.len() == (y + row) * width * 4,
            decreases h - row,
        {
            proof {
                assert(off + row * w * 4 + w * 4 <= off + w * h * 4) by (nonlinear_arith)
                    requires row < h, w >= 0;
                assert((y + row + 1) * width * 4 <= total_rows * width * 4) by (nonlinear_arith)
                    requires y + row + 1 <= total_rows, width >= 1;
                assert((y + row + 1) * width * 4 == (y + row) * width * 4 + width * 4) by (nonlinear_arith);
                assert(row * w * 4 == row * (w * 4)) by (nonlinear_arith);
            }
            proof {
                assert(width * 4 <= total_rows * width * 4) by (nonlinear_arith)
                    requires total_rows >= 1, width >= 1;
            }
            let begin: usize = off + row * (w * 4);
            let ghost mid = atlas@;
            atlas.extend_from_slice(&data[begin..begin + w * 4]);
            let pad: usize = (width as usize - w) * 4;
            let mut k: usize = 0;
            while k < pad
                invariant
                    0 <= k <= pad,
                    pad == (width - w) * 4,
                    atlas@ == mid + data@.subrange(begin as int, begin + w * 4) + Seq::new(k as nat, |i: int| 0u8),
                    mid.len() + w * 4 + pad <= usize::MAX,
                decreases pad - k,
            {
                atlas.push(0u8);
                k = k + 1;
                assert(atlas@ =~= mid + data@.subrange(begin as int, begin + w * 4) + Seq::new(k as nat, |i: int| 0u8));
            }
            proof {
                assert(begin == off + row * w * 4);
                assert(atlas@ =~= mid + padded_row(data@, off + row * w * 4, w as int, width as int));
                assert(packed_level(data@, off as int, width as int, w as int, (row + 1) as nat)
                    == packed_level(data@, off as int, width as int, w as int, row as nat)
                    + padded_row(data@, off + row * w * 4, w as int, width as int));
                assert(atlas@ =~= start + packed_level(data@, off as int, width as int, w as int, (row + 1) as nat));
            }
            row = row + 1;
        }
        proof {
            assert(atlas@ + rest =~= start + (packed_level(data@, off as int, width as int, w as int, h as nat) + rest));
            y = y + h;
        }
        proof {
            assert(w * h * 4 == h * (w * 4)) by (nonlinear_arith);
        }
        off = off + w * h * 4;
        w = if w / 2 >= 1 {
            w / 2
        } else {
            1
        };
        h = if h / 2 >= 1 {
            h / 2
        } else {
            1
        };
        level = level + 1;
    }
    assert(atlas@ + seq![] =~= atlas@);
    atlas
}

} // verus!
