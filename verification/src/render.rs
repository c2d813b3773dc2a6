//! Rendering: the order in which a worker goes through the pixels of the
//! image, the sum of the samples of each pixel, and the path of a ray
//! through the scene from bounce to bounce.

use vstd::prelude::*;

verus! {

/// The number of pixels of an image. A size that is not positive gives none.
pub open spec fn pixel_count(image_width: int, image_height: int) -> int {
    if image_width > 0 && image_height > 0 {
        image_width * image_height
    } else {
        0
    }
}

/// The pixel that comes at place `k` of the scan: column and row. The rows
/// are counted from the bottom of the image, and the scan begins with the
/// topmost one; inside a row it goes from the first column to the last.
pub open spec fn scan_at(image_width: int, image_height: int, k: int) -> (i32, i32) {
    ((k % image_width) as i32, (image_height - 1 - k / image_width) as i32)
}

/// All pixels of the image in the order of the scan.
pub open spec fn scan(image_width: int, image_height: int) -> Seq<(i32, i32)> {
    Seq::new(
        pixel_count(image_width, image_height) as nat,
        |k: int| scan_at(image_width, image_height, k),
    )
}

/// The place of the pixel in column `i` of row `j` in the scan.
pub open spec fn place_of(image_width: int, image_height: int, i: int, j: int) -> int {
    (image_height - 1 - j) * image_width + i
}

/// The scan reaches the pixel in column `i` of row `j` at `place_of` it, and
/// that place lies inside the scan.
pub proof fn lemma_scan_at_place(image_width: int, image_height: int, i: int, j: int)
    requires
        0 <= i < image_width <= i32::MAX,
        0 <= j < image_height <= i32::MAX,
    ensures
        0 <= place_of(image_width, image_height, i, j) < pixel_count(image_width, image_height),
        scan_at(image_width, image_height, place_of(image_width, image_height, i, j)) == (
            i as i32,
            j as i32,
        ),
{
    let row = image_height - 1 - j;
    let k = place_of(image_width, image_height, i, j);
    assert(0 <= row * image_width && row * image_width + image_width <= image_height
        * image_width) by (nonlinear_arith)
        requires
            0 <= row < image_height,
            0 < image_width,
    ;
    assert(image_width * image_height == image_height * image_width) by (nonlinear_arith);
    vstd::arithmetic::div_mod::lemma_fundamental_div_mod_converse(k, image_width, row, i);
}

/// The scan visits every pixel of the image, each of them once, top row
/// first: it has one place for each pixel, and the pixel in column `i` of
/// row `j` stands at `place_of` it and nowhere else.
pub proof fn lemma_scan_visits_each_once(image_width: int, image_height: int)
    requires
        0 < image_width <= i32::MAX,
        0 < image_height <= i32::MAX,
    ensures
        scan(image_width, image_height).len() == image_width * image_height,
        forall|i: int, j: int|
            0 <= i < image_width && 0 <= j < image_height ==> {
                &&& 0 <= #[trigger] place_of(image_width, image_height, i, j) < scan(
                    image_width,
                    image_height,
                ).len()
                &&& scan(image_width, image_height)[place_of(image_width, image_height, i, j)] == (
                    i as i32,
                    j as i32,
                )
            },
        forall|k: int|
            0 <= k < scan(image_width, image_height).len() ==> {
                let (i, j) = #[trigger] scan(image_width, image_height)[k];
                0 <= i < image_width && 0 <= j < image_height && place_of(
                    image_width,
                    image_height,
                    i as int,
                    j as int,
                ) == k
            },
{
    assert(image_width * image_height > 0) by (nonlinear_arith)
        requires
            image_width > 0,
            image_height > 0,
    ;
    assert forall|i: int, j: int| 0 <= i < image_width && 0 <= j < image_height implies {
        &&& 0 <= #[trigger] place_of(image_width, image_height, i, j) < scan(
            image_width,
            image_height,
        ).len()
        &&& scan(image_width, image_height)[place_of(image_width, image_height, i, j)] == (
            i as i32,
            j as i32,
        )
    } by {
        lemma_scan_at_place(image_width, image_height, i, j);
    }
    assert forall|k: int| 0 <= k < scan(image_width, image_height).len() implies {
        let (i, j) = #[trigger] scan(image_width, image_height)[k];
        0 <= i < image_width && 0 <= j < image_height && place_of(
            image_width,
            image_height,
            i as int,
            j as int,
        ) == k
    } by {
        let q = k / image_width;
        let r = k % image_width;
        vstd::arithmetic::div_mod::lemma_fundamental_div_mod(k, image_width);
        vstd::arithmetic::div_mod::lemma_mod_bound(k, image_width);
        assert(image_width * q == q * image_width) by (nonlinear_arith);
        assert(0 <= q < image_height) by (nonlinear_arith)
            requires
                0 <= k < image_width * image_height,
                k == q * image_width + r,
                0 <= r < image_width,
        ;
    }
}

/// The pixels of an image of the given size in the order in which they are
/// rendered and written out: row by row from the topmost row, which has the
/// highest row index, down to row zero, and inside a row from column zero
/// upward. Each entry is a column and a row. A size that is not positive
/// gives no pixel.
pub fn scan_order(image_width: i32, image_height: i32) -> (order: Vec<(i32, i32)>)
    ensures
        order@ == scan(image_width as int, image_height as int),
{
    let mut order: Vec<(i32, i32)> = Vec::new();
    if image_width <= 0 || image_height <= 0 {
        assert(order@ =~= scan(image_width as int, image_height as int));
        return order;
    }
    let ghost w = image_width as int;
    let ghost h = image_height as int;
    let mut j: i32 = image_height;
    while j > 0
        invariant
            0 <= j <= image_height,
            0 < image_width,
            w == image_width,
            h == image_height,
            order@.len() == (h - j) * w,
            forall|k: int| 0 <= k < order@.len() ==> #[trigger] order@[k] == scan_at(w, h, k),
        decreases j,
    {
        j = j - 1;
        let mut i: i32 = 0;
        while i < image_width
            invariant
                0 <= j < image_height,
                0 <= i <= image_width,
                w == image_width,
                h == image_height,
                order@.len() == (h - 1 - j) * w + i,
                forall|k: int| 0 <= k < order@.len() ==> #[trigger] order@[k] == scan_at(w, h, k),
            decreases image_width - i,
        {
            proof {
                lemma_scan_at_place(w, h, i as int, j as int);
            }
            order.push((i, j));
            i = i + 1;
        }
        assert((h - 1 - j) * w + w == (h - j) * w) by (nonlinear_arith);
    }
    proof {
        assert(order@.len() == h * w);
        assert(h * w == w * h) by (nonlinear_arith);
        assert(order@ =~= scan(w, h));
    }
    order
}

/// Any two values may be the sum so far and the light of the next sample.
/// This names them.
pub open spec fn is_sample<C>(before: C, light: C) -> bool {
    true
}

/// `sum` is a sum that `samples` samples of the pixel in column `i` of row
/// `j` may have, with the answers that the caller's functions can give: it
/// begins as `black`, and `accumulate` adds the light of each sample to the
/// sum so far.
pub open spec fn accumulated<C, FS, FA>(
    samples: int,
    i: i32,
    j: i32,
    black: C,
    sample: &FS,
    accumulate: &FA,
    sum: C,
) -> bool where FS: Fn(i32, i32) -> C, FA: Fn(C, C) -> C
    decreases samples,
{
    if samples <= 0 {
        sum == black
    } else {
        exists|before: C, light: C|
            {
                &&& #[trigger] is_sample(before, light)
                &&& accumulated(samples - 1, i, j, black, sample, accumulate, before)
                &&& sample.ensures((i, j), light)
                &&& accumulate.ensures((before, light), sum)
            }
    }
}

/// Renders the whole image with `samples_per_pixel` samples for each pixel
/// and returns, for each pixel in the order of the scan, the sum of its
/// samples, not yet divided by their number. The arithmetic is the caller's:
/// `sample` gives the light of one sample of the pixel in a column and a row,
/// and `accumulate` adds it to the sum so far. `done` is called once for each
/// pixel that is finished.
pub fn render_image<C, FS, FA, FD>(
    image_width: i32,
    image_height: i32,
    samples_per_pixel: i32,
    black: C,
    sample: &FS,
    accumulate: &FA,
    done: &FD,
) -> (output: Vec<C>) where C: Copy, FS: Fn(i32, i32) -> C, FA: Fn(C, C) -> C, FD: Fn() -> ()
    requires
        forall|i: i32, j: i32| sample.requires((i, j)),
        forall|a: C, b: C| accumulate.requires((a, b)),
        done.requires(()),
    ensures
        output@.len() == pixel_count(image_width as int, image_height as int),
        forall|k: int|
            0 <= k < output@.len() ==> accumulated(
                samples_per_pixel as int,
                scan_at(image_width as int, image_height as int, k).0,
                scan_at(image_width as int, image_height as int, k).1,
                black,
                sample,
                accumulate,
                #[trigger] output@[k],
            ),
{
    let order = scan_order(image_width, image_height);
    let mut output: Vec<C> = Vec::new();
    let mut k: usize = 0;
    while k < order.len()
        invariant
            0 <= k <= order@.len(),
            order@ == scan(image_width as int, image_height as int),
            output@.len() == k,
            forall|i: i32, j: i32| sample.requires((i, j)),
            forall|a: C, b: C| accumulate.requires((a, b)),
            done.requires(()),
            forall|n: int|
                0 <= n < k ==> accumulated(
                    samples_per_pixel as int,
                    scan_at(image_width as int, image_height as int, n).0,
                    scan_at(image_width as int, image_height as int, n).1,
                    black,
                    sample,
                    accumulate,
                    #[trigger] output@[n],
                ),
        decreases order@.len() - k,
    {
        let (i, j) = order[k];
        let mut pixel_color: C = black;
        let mut taken: i32 = 0;
        while taken < samples_per_pixel
            invariant
                0 <= taken,
                samples_per_pixel <= 0 ==> taken == 0,
                samples_per_pixel > 0 ==> taken <= samples_per_pixel,
                forall|i: i32, j: i32| sample.requires((i, j)),
                forall|a: C, b: C| accumulate.requires((a, b)),
                accumulated(taken as int, i, j, black, sample, accumulate, pixel_color),
            decreases samples_per_pixel - taken,
        {
            let light = sample(i, j);
            let sum = accumulate(pixel_color, light);
            assert(is_sample(pixel_color, light));
            pixel_color = sum;
            taken = taken + 1;
        }
        proof {
            if samples_per_pixel <= 0 {
                assert(taken == 0);
                assert(pixel_color == black);
            } else {
                assert(taken == samples_per_pixel);
            }
        }
        output.push(pixel_color);
        done();
        k = k + 1;
    }
    output
}

/// Adds the sums of two workers pixel by pixel: the result has, for each pixel
/// that both buffers hold, what `accumulate` makes of the two sums.
pub fn sum_buffers<C, FA>(a: Vec<C>, b: Vec<C>, accumulate: &FA) -> (total: Vec<C>) where
    C: Copy,
    FA: Fn(C, C) -> C,

    requires
        forall|x: C, y: C| accumulate.requires((x, y)),
    ensures
        total@.len() == if a@.len() <= b@.len() {
            a@.len()
        } else {
            b@.len()
        },
        forall|k: int|
            0 <= k < total@.len() ==> accumulate.ensures((a@[k], b@[k]), #[trigger] total@[k]),
{
    let mut total: Vec<C> = Vec::new();
    let mut k: usize = 0;
    while k < a.len() && k < b.len()
        invariant
            0 <= k <= a@.len(),
            k <= b@.len(),
            total@.len() == k,
            forall|x: C, y: C| accumulate.requires((x, y)),
            forall|n: int|
                0 <= n < k ==> accumulate.ensures((a@[n], b@[n]), #[trigger] total@[n]),
        decreases a@.len() - k,
    {
        let sum = accumulate(a[k], b[k]);
        total.push(sum);
        k = k + 1;
    }
    total
}

/// Any four values may be what happens at one bounce: what the ray hits, the
/// light that is emitted there, what becomes of the ray, and the light that
/// comes back along the scattered ray. This names them.
pub open spec fn is_step<R, H, C>(
    found: Option<H>,
    glow: C,
    bounce: Option<(C, R)>,
    inner: C,
) -> bool {
    true
}

/// `color` is light that the ray may gather with at most `depth` bounces
/// left, with the answers that the caller's functions can give. With no
/// bounce left it is `black`. A ray that hits nothing gathers the
/// `background`. A ray that hits a surface gathers what the surface emits
/// there, and, where the surface scatters the ray, what `combine` makes of
/// the emitted light, the attenuation and the light that the scattered ray
/// gathers with one bounce less.
pub open spec fn gathers<R, H, C, FH, FE, FS, FC>(
    depth: int,
    r: R,
    background: C,
    black: C,
    hit: &FH,
    emitted: &FE,
    scatter: &FS,
    combine: &FC,
    color: C,
) -> bool where
    FH: Fn(R) -> Option<H>,
    FE: Fn(H) -> C,
    FS: Fn(R, H) -> Option<(C, R)>,
    FC: Fn(C, C, C) -> C,

    decreases depth,
{
    if depth <= 0 {
        color == black
    } else {
        exists|found: Option<H>, glow: C, bounce: Option<(C, R)>, inner: C|
            {
                &&& #[trigger] is_step(found, glow, bounce, inner)
                &&& hit.ensures((r,), found)
                &&& found.is_none() ==> color == background
                &&& found.is_some() ==> {
                    &&& emitted.ensures((found.unwrap(),), glow)
                    &&& scatter.ensures((r, found.unwrap()), bounce)
                    &&& bounce.is_none() ==> color == glow
                    &&& bounce.is_some() ==> {
                        &&& gathers(
                            depth - 1,
                            bounce.unwrap().1,
                            background,
                            black,
                            hit,
                            emitted,
                            scatter,
                            combine,
                            inner,
                        )
                        &&& combine.ensures((glow, bounce.unwrap().0, inner), color)
                    }
                }
            }
    }
}

/// The light that a ray gathers on its path through the scene, with at most
/// `depth` bounces. The arithmetic and the scene are the caller's: `hit`
/// finds the nearest hit of a ray, `emitted` gives the light that the surface
/// emits at a hit, `scatter` gives the attenuation and the scattered ray, or
/// nothing where the surface absorbs the ray, and `combine` adds the emitted
/// light to the attenuated light that comes back along the scattered ray.
///
/// With no bounce left the ray gathers `black`, whatever it would hit. A ray
/// that hits nothing gathers the `background`.
pub fn ray_color<R, H, C, FH, FE, FS, FC>(
    r: R,
    background: C,
    black: C,
    hit: &FH,
    emitted: &FE,
    scatter: &FS,
    combine: &FC,
    depth: i32,
) -> (color: C) where
    R: Copy,
    H: Copy,
    C: Copy,
    FH: Fn(R) -> Option<H>,
    FE: Fn(H) -> C,
    FS: Fn(R, H) -> Option<(C, R)>,
    FC: Fn(C, C, C) -> C,

    requires
        forall|r: R| hit.requires((r,)),
        forall|rec: H| emitted.requires((rec,)),
        forall|r: R, rec: H| scatter.requires((r, rec)),
        forall|a: C, b: C, c: C| combine.requires((a, b, c)),
    ensures
        gathers(depth as int, r, background, black, hit, emitted, scatter, combine, color),
    decreases depth,
{
    if depth <= 0 {
        return black;
    }
    let found = hit(r);
    match found {
        Some(rec) => {
            let glow = emitted(rec);
            let bounce = scatter(r, rec);
            match bounce {
                Some((attenuation, scattered)) => {
                    let inner = ray_color(
                        scattered,
                        background,
                        black,
                        hit,
                        emitted,
                        scatter,
                        combine,
                        depth - 1,
                    );
                    let color = combine(glow, attenuation, inner);
                    assert(is_step(found, glow, bounce, inner));
                    color
                },
                None => {
                    assert(is_step(found, glow, bounce, black));
                    glow
                },
            }
        },
        None => {
            assert(is_step(found, black, None::<(C, R)>, black));
            background
        },
    }
}

} // verus!
