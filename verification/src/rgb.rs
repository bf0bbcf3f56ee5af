//! `rgb` contains various data structures for working with images in the RGB color space.

use vstd::prelude::*;

use crate::Numeric;

verus! {

/// `Image` represents any `RGB` image. Internally, it stores each channel as an independent
/// allocation which enables such things as constant-time channel swapping along with making the
/// data cheaper to copy to a GPU which expects `CHW` ordering vs the packed format `HWC`.
pub struct Image<T: Numeric> {
    r: Vec<T>,
    g: Vec<T>,
    b: Vec<T>,
    h: usize,
    w: usize,
}

/// The mathematical model of an [`Image`]: its three channels and its dimensions.
pub struct ImageView<T> {
    pub r: Seq<T>,
    pub g: Seq<T>,
    pub b: Seq<T>,
    pub h: nat,
    pub w: nat,
}

impl<T> ImageView<T> {
    /// A well-formed image holds `w * h` values in each of its three channels.
    pub open spec fn wf(self) -> bool {
        &&& self.r.len() == self.w * self.h
        &&& self.g.len() == self.w * self.h
        &&& self.b.len() == self.w * self.h
    }

    /// The pixels of the image in row-major order.
    pub open spec fn pixels(self) -> Seq<Seq<T>> {
        zip_pixels(self.r, self.g, self.b)
    }
}

impl<T: Numeric> Image<T> {
    /// Every image keeps `width * height` values in each channel.
    #[verifier::type_invariant]
    spec fn inv(self) -> bool {
        self@.wf()
    }
}

impl<T: Numeric> View for Image<T> {
    type V = ImageView<T>;

    closed spec fn view(&self) -> ImageView<T> {
        ImageView { r: self.r@, g: self.g@, b: self.b@, h: self.h as nat, w: self.w as nat }
    }
}

impl<T: Numeric> Default for Image<T> {
    /// The default image is the empty one: no rows, no columns, no channel data.
    fn default() -> (img: Self)
        ensures
            img@.r == Seq::<T>::empty(),
            img@.g == Seq::<T>::empty(),
            img@.b == Seq::<T>::empty(),
            img@.w == 0,
            img@.h == 0,
    {
        Image { r: Vec::new(), g: Vec::new(), b: Vec::new(), h: 0, w: 0 }
    }
}

impl<T: Numeric> Image<T> {
    /// `new` returns an empty `Image` with no data having been allocated.
    pub fn new() -> (img: Self)
        ensures
            img@.r == Seq::<T>::empty(),
            img@.g == Seq::<T>::empty(),
            img@.b == Seq::<T>::empty(),
            img@.w == 0,
            img@.h == 0,
            img@.wf(),
    {
        <Self as Default>::default()
    }

    /// `r` returns an immutable reference to the image's red channel as a `&[T]`.
    pub fn r(&self) -> (red: &[T])
        ensures
            red@ == self@.r,
            self@.wf(),
    {
        proof {
            use_type_invariant(self);
        }
        self.r.as_slice()
    }

    /// `g` returns an immutable reference to the image's green channel as a `&[T]`.
    pub fn g(&self) -> (green: &[T])
        ensures
            green@ == self@.g,
            self@.wf(),
    {
        proof {
            use_type_invariant(self);
        }
        self.g.as_slice()
    }

    /// `b` returns an immutable reference to the image's blue channel as a `&[T]`.
    pub fn b(&self) -> (blue: &[T])
        ensures
            blue@ == self@.b,
            self@.wf(),
    {
        proof {
            use_type_invariant(self);
        }
        self.b.as_slice()
    }

    /// `width` returns the number of columns in the image.
    pub fn width(&self) -> (w: usize)
        ensures
            w == self@.w,
            self@.wf(),
    {
        proof {
            use_type_invariant(self);
        }
        self.w
    }

    /// `height` returns the number of rows in the image.
    pub fn height(&self) -> (h: usize)
        ensures
            h == self@.h,
            self@.wf(),
    {
        proof {
            use_type_invariant(self);
        }
        self.h
    }

    /// `rgb_iter` traverses the planar image data in a row-major ordering, yielding each pixel
    /// as a `[T; 3]`.
    pub fn rgb_iter(&self) -> (pixels: Vec<[T; 3]>)
        ensures
            pixels_view(pixels@) == self@.pixels(),
            self@.wf(),
            pixels@.len() == self@.r.len(),
            forall|i: int|
                0 <= i < pixels@.len() ==> #[trigger] pixels@[i]@ == seq![
                    self@.r[i],
                    self@.g[i],
                    self@.b[i],
                ],
    {
        proof {
            use_type_invariant(self);
        }
        make_iter(self.r.as_slice(), self.g.as_slice(), self.b.as_slice())
    }

    /// `rgb_iter_mut` traverses the planar image data in a row-major ordering and replaces each
    /// pixel by what `f` gives back for it. The dimensions of the image do not change.
    pub fn rgb_iter_mut<F: Fn([T; 3]) -> [T; 3]>(&mut self, f: F)
        requires
            forall|i: int|
                0 <= i < old(self)@.pixels().len() ==> #[trigger] accepts(
                    f,
                    old(self)@.pixels()[i],
                ),
        ensures
            final(self)@.w == old(self)@.w,
            final(self)@.h == old(self)@.h,
            final(self)@.r.len() == old(self)@.r.len(),
            final(self)@.g.len() == old(self)@.g.len(),
            final(self)@.b.len() == old(self)@.b.len(),
            final(self)@.wf(),
            final(self)@.pixels().len() == old(self)@.pixels().len(),
            forall|j: int|
                old(self)@.pixels().len() <= j < old(self)@.r.len() ==> final(self)@.r[j]
                    == old(self)@.r[j],
            forall|j: int|
                old(self)@.pixels().len() <= j < old(self)@.g.len() ==> final(self)@.g[j]
                    == old(self)@.g[j],
            forall|j: int|
                old(self)@.pixels().len() <= j < old(self)@.b.len() ==> final(self)@.b[j]
                    == old(self)@.b[j],
            forall|i: int|
                0 <= i < old(self)@.pixels().len() ==> #[trigger] maps_to(
                    f,
                    old(self)@.pixels()[i],
                    final(self)@.pixels()[i],
                ),
            forall|i: int|
                #![trigger final(self)@.r[i]]
                0 <= i < old(self)@.r.len() ==> maps_to(
                    f,
                    seq![old(self)@.r[i], old(self)@.g[i], old(self)@.b[i]],
                    seq![final(self)@.r[i], final(self)@.g[i], final(self)@.b[i]],
                ),
    {
        proof {
            use_type_invariant(&*self);
        }
        let ghost before = self@;
        assert forall|i: int| 0 <= i < pixel_count(before.r, before.g, before.b) implies #[trigger] accepts(
            f,
            pixel_at(before.r, before.g, before.b, i),
        ) by {
            assert(before.pixels()[i] == pixel_at(before.r, before.g, before.b, i));
        }
        let mut taken: Image<T> = Image::new();
        std::mem::swap(self, &mut taken);
        let Image { mut r, mut g, mut b, h, w } = taken;
        make_iter_mut(r.as_mut_slice(), g.as_mut_slice(), b.as_mut_slice(), f);
        *self = Image { r, g, b, h, w };
        assert forall|i: int| 0 <= i < before.pixels().len() implies #[trigger] maps_to(
            f,
            before.pixels()[i],
            self@.pixels()[i],
        ) by {
            assert(maps_to(f, pixel_at(before.r, before.g, before.b, i), pixel_at(self@.r, self@.g, self@.b, i)));
        }
    }

    /// `rgb_iter_mut_indexed` traverses the planar image data in a row-major ordering and
    /// replaces pixel `k` by what `f` gives back for `k` and that pixel, so that each pixel can be
    /// rewritten according to its position. The dimensions of the image do not change.
    pub fn rgb_iter_mut_indexed<F: Fn(usize, [T; 3]) -> [T; 3]>(&mut self, f: F)
        requires
            forall|i: int|
                0 <= i < old(self)@.pixels().len() ==> #[trigger] accepts_at(
                    f,
                    i as usize,
                    old(self)@.pixels()[i],
                ),
        ensures
            final(self)@.w == old(self)@.w,
            final(self)@.h == old(self)@.h,
            final(self)@.r.len() == old(self)@.r.len(),
            final(self)@.g.len() == old(self)@.g.len(),
            final(self)@.b.len() == old(self)@.b.len(),
            final(self)@.wf(),
            final(self)@.pixels().len() == old(self)@.pixels().len(),
            forall|i: int|
                0 <= i < old(self)@.pixels().len() ==> #[trigger] maps_to_at(
                    f,
                    i as usize,
                    old(self)@.pixels()[i],
                    final(self)@.pixels()[i],
                ),
            forall|i: int|
                #![trigger final(self)@.r[i]]
                0 <= i < old(self)@.r.len() ==> maps_to_at(
                    f,
                    i as usize,
                    seq![old(self)@.r[i], old(self)@.g[i], old(self)@.b[i]],
                    seq![final(self)@.r[i], final(self)@.g[i], final(self)@.b[i]],
                ),
    {
        proof {
            use_type_invariant(&*self);
        }
        let ghost before = self@;
        assert forall|i: int| 0 <= i < pixel_count(before.r, before.g, before.b) implies #[trigger] accepts_at(
            f,
            i as usize,
            pixel_at(before.r, before.g, before.b, i),
        ) by {
            assert(before.pixels()[i] == pixel_at(before.r, before.g, before.b, i));
        }
        let mut taken: Image<T> = Image::new();
        std::mem::swap(self, &mut taken);
        let Image { mut r, mut g, mut b, h, w } = taken;
        make_iter_mut_indexed(r.as_mut_slice(), g.as_mut_slice(), b.as_mut_slice(), f);
        *self = Image { r, g, b, h, w };
        assert forall|i: int| 0 <= i < before.pixels().len() implies #[trigger] maps_to_at(
            f,
            i as usize,
            before.pixels()[i],
            self@.pixels()[i],
        ) by {
            assert(maps_to_at(
                f,
                i as usize,
                pixel_at(before.r, before.g, before.b, i),
                pixel_at(self@.r, self@.g, self@.b, i),
            ));
        }
    }

    /// `total` returns the total number of pixels in the image. This function's name comes from
    /// the corresponding one from `OpenCV`'s `Mat` class and is equivalent to
    /// `img.width() * img.height()`.
    pub fn total(&self) -> (n: usize)
        ensures
            n == self@.w * self@.h,
            self@.wf(),
    {
        proof {
            use_type_invariant(self);
        }
        let n: usize = self.r.len();
        assert(n == self.w * self.h);
        self.w * self.h
    }
}

/// The pixels of three planar channels: pixel `i` is `[r[i], g[i], b[i]]`, for every `i`
/// below the length of the shortest channel.
pub open spec fn zip_pixels<T>(r: Seq<T>, g: Seq<T>, b: Seq<T>) -> Seq<Seq<T>> {
    let n = if r.len() <= g.len() && r.len() <= b.len() {
        r.len()
    } else if g.len() <= b.len() {
        g.len()
    } else {
        b.len()
    };
    Seq::new(n, |i: int| pixel_at(r, g, b, i))
}

/// The view of a sequence of pixels: each `[T; 3]` taken as the sequence of its three channels.
pub open spec fn pixels_view<T>(p: Seq<[T; 3]>) -> Seq<Seq<T>> {
    Seq::new(p.len(), |i: int| p[i]@)
}

/// `make_iter` traverses the planar image data in a row-major ordering, yielding each pixel
/// as a `[T; 3]`.
pub fn make_iter<T: Numeric>(r: &[T], g: &[T], b: &[T]) -> (pixels: Vec<[T; 3]>)
    ensures
        pixels_view(pixels@) == zip_pixels(r@, g@, b@),
        pixels@.len() <= r@.len(),
        pixels@.len() <= g@.len(),
        pixels@.len() <= b@.len(),
        pixels@.len() == r@.len() || pixels@.len() == g@.len() || pixels@.len() == b@.len(),
        forall|i: int|
            0 <= i < pixels@.len() ==> #[trigger] pixels@[i]@ == seq![r@[i], g@[i], b@[i]],
{
    let n: usize = if r.len() <= g.len() && r.len() <= b.len() {
        r.len()
    } else if g.len() <= b.len() {
        g.len()
    } else {
        b.len()
    };
    let mut pixels: Vec<[T; 3]> = Vec::new();
    let mut i: usize = 0;
    while i < n
        invariant
            n == zip_pixels(r@, g@, b@).len(),
            n <= r@.len(),
            n <= g@.len(),
            n <= b@.len(),
            i <= n,
            pixels@.len() == i,
            forall|j: int| 0 <= j < i ==> #[trigger] pixels@[j]@ == seq![r@[j], g@[j], b@[j]],
        decreases n - i,
    {
        let px: [T; 3] = [r[i], g[i], b[i]];
        pixels.push(px);
        i = i + 1;
    }
    assert(pixels_view(pixels@) =~= zip_pixels(r@, g@, b@));
    pixels
}


/// The pixel at index `i` of three planar channels.
pub open spec fn pixel_at<T>(r: Seq<T>, g: Seq<T>, b: Seq<T>, i: int) -> Seq<T> {
    seq![r[i], g[i], b[i]]
}

/// The number of pixels that three planar channels hold: the length of the shortest one.
pub open spec fn pixel_count<T>(r: Seq<T>, g: Seq<T>, b: Seq<T>) -> nat {
    zip_pixels(r, g, b).len()
}

/// `f` may be called on the pixel whose channels are `px`.
pub open spec fn accepts<T, F: Fn([T; 3]) -> [T; 3]>(f: F, px: Seq<T>) -> bool {
    forall|p: [T; 3]| p@ == px ==> #[trigger] call_requires(f, (p,))
}

/// A call of `f` on the pixel whose channels are `before` may give back the pixel whose
/// channels are `after`.
pub open spec fn maps_to<T, F: Fn([T; 3]) -> [T; 3]>(f: F, before: Seq<T>, after: Seq<T>) -> bool {
    exists|p: [T; 3], q: [T; 3]| p@ == before && q@ == after && #[trigger] call_ensures(f, (p,), q)
}

/// `make_iter_mut` traverses the planar image data in a row-major ordering and replaces each
/// pixel `[r, g, b]` by what `f` gives back for it, writing the three channels in place.
/// Elements past the end of the shortest channel are left as they are.
pub fn make_iter_mut<T: Numeric, F: Fn([T; 3]) -> [T; 3]>(
    r: &mut [T],
    g: &mut [T],
    b: &mut [T],
    f: F,
)
    requires
        forall|i: int|
            0 <= i < pixel_count(old(r)@, old(g)@, old(b)@) ==> #[trigger] accepts(
                f,
                pixel_at(old(r)@, old(g)@, old(b)@, i),
            ),
    ensures
        final(r)@.len() == old(r)@.len(),
        final(g)@.len() == old(g)@.len(),
        final(b)@.len() == old(b)@.len(),
        forall|i: int|
            0 <= i < pixel_count(old(r)@, old(g)@, old(b)@) ==> #[trigger] maps_to(
                f,
                pixel_at(old(r)@, old(g)@, old(b)@, i),
                pixel_at(final(r)@, final(g)@, final(b)@, i),
            ),
        forall|j: int|
            pixel_count(old(r)@, old(g)@, old(b)@) <= j < old(r)@.len() ==> final(r)@[j]
                == old(r)@[j],
        forall|j: int|
            pixel_count(old(r)@, old(g)@, old(b)@) <= j < old(g)@.len() ==> final(g)@[j]
                == old(g)@[j],
        forall|j: int|
            pixel_count(old(r)@, old(g)@, old(b)@) <= j < old(b)@.len() ==> final(b)@[j]
                == old(b)@[j],
        forall|i: int|
            #![trigger final(r)@[i]]
            0 <= i < old(r)@.len() && i < old(g)@.len() && i < old(b)@.len() ==> maps_to(
                f,
                seq![old(r)@[i], old(g)@[i], old(b)@[i]],
                seq![final(r)@[i], final(g)@[i], final(b)@[i]],
            ),
        forall|j: int|
            0 <= j < old(r)@.len() && (j >= old(g)@.len() || j >= old(b)@.len()) ==> final(r)@[j]
                == old(r)@[j],
        forall|j: int|
            0 <= j < old(g)@.len() && (j >= old(r)@.len() || j >= old(b)@.len()) ==> final(g)@[j]
                == old(g)@[j],
        forall|j: int|
            0 <= j < old(b)@.len() && (j >= old(r)@.len() || j >= old(g)@.len()) ==> final(b)@[j]
                == old(b)@[j],
{
    let ghost r0 = r@;
    let ghost g0 = g@;
    let ghost b0 = b@;
    let n: usize = if r.len() <= g.len() && r.len() <= b.len() {
        r.len()
    } else if g.len() <= b.len() {
        g.len()
    } else {
        b.len()
    };
    let mut i: usize = 0;
    while i < n
        invariant
            n == pixel_count(r0, g0, b0),
            n <= r0.len(),
            n <= g0.len(),
            n <= b0.len(),
            i <= n,
            r@.len() == r0.len(),
            g@.len() == g0.len(),
            b@.len() == b0.len(),
            forall|k: int| 0 <= k < n ==> #[trigger] accepts(f, pixel_at(r0, g0, b0, k)),
            forall|k: int|
                0 <= k < i ==> #[trigger] maps_to(
                    f,
                    pixel_at(r0, g0, b0, k),
                    pixel_at(r@, g@, b@, k),
                ),
            forall|j: int| i <= j < r0.len() ==> r@[j] == r0[j],
            forall|j: int| i <= j < g0.len() ==> g@[j] == g0[j],
            forall|j: int| i <= j < b0.len() ==> b@[j] == b0[j],
        decreases n - i,
    {
        let px: [T; 3] = [r[i], g[i], b[i]];
        assert(px@ == pixel_at(r0, g0, b0, i as int));
        assert(accepts(f, pixel_at(r0, g0, b0, i as int)));
        let q: [T; 3] = f(px);
        let ghost rs = r@;
        let ghost gs = g@;
        let ghost bs = b@;
        r[i] = q[0];
        g[i] = q[1];
        b[i] = q[2];
        assert(q@ == pixel_at(r@, g@, b@, i as int));
        assert(maps_to(f, pixel_at(r0, g0, b0, i as int), pixel_at(r@, g@, b@, i as int)));
        assert forall|k: int| 0 <= k < i implies #[trigger] pixel_at(r@, g@, b@, k) == pixel_at(
            rs,
            gs,
            bs,
            k,
        ) by {}
        i = i + 1;
    }
    assert forall|k: int|
        0 <= k < r0.len() && k < g0.len() && k < b0.len() implies maps_to(
        f,
        seq![r0[k], g0[k], b0[k]],
        seq![r@[k], g@[k], b@[k]],
    ) by {
        assert(maps_to(f, pixel_at(r0, g0, b0, k), pixel_at(r@, g@, b@, k)));
    }
}

/// `f` may be called with position `k` on the pixel whose channels are `px`.
pub open spec fn accepts_at<T, F: Fn(usize, [T; 3]) -> [T; 3]>(f: F, k: usize, px: Seq<T>) -> bool {
    forall|p: [T; 3]| p@ == px ==> #[trigger] call_requires(f, (k, p))
}

/// A call of `f` with position `k` on the pixel whose channels are `before` may give back the
/// pixel whose channels are `after`.
pub open spec fn maps_to_at<T, F: Fn(usize, [T; 3]) -> [T; 3]>(
    f: F,
    k: usize,
    before: Seq<T>,
    after: Seq<T>,
) -> bool {
    exists|p: [T; 3], q: [T; 3]|
        p@ == before && q@ == after && #[trigger] call_ensures(f, (k, p), q)
}

/// `make_iter_mut_indexed` traverses the planar image data in a row-major ordering and replaces
/// pixel `k` by what `f` gives back for `k` and that pixel, writing the three channels in place.
/// Elements past the end of the shortest channel are left as they are.
pub fn make_iter_mut_indexed<T: Numeric, F: Fn(usize, [T; 3]) -> [T; 3]>(
    r: &mut [T],
    g: &mut [T],
    b: &mut [T],
    f: F,
)
    requires
        forall|i: int|
            0 <= i < pixel_count(old(r)@, old(g)@, old(b)@) ==> #[trigger] accepts_at(
                f,
                i as usize,
                pixel_at(old(r)@, old(g)@, old(b)@, i),
            ),
    ensures
        final(r)@.len() == old(r)@.len(),
        final(g)@.len() == old(g)@.len(),
        final(b)@.len() == old(b)@.len(),
        forall|i: int|
            0 <= i < pixel_count(old(r)@, old(g)@, old(b)@) ==> #[trigger] maps_to_at(
                f,
                i as usize,
                pixel_at(old(r)@, old(g)@, old(b)@, i),
                pixel_at(final(r)@, final(g)@, final(b)@, i),
            ),
        forall|j: int|
            pixel_count(old(r)@, old(g)@, old(b)@) <= j < old(r)@.len() ==> final(r)@[j]
                == old(r)@[j],
        forall|j: int|
            pixel_count(old(r)@, old(g)@, old(b)@) <= j < old(g)@.len() ==> final(g)@[j]
                == old(g)@[j],
        forall|j: int|
            pixel_count(old(r)@, old(g)@, old(b)@) <= j < old(b)@.len() ==> final(b)@[j]
                == old(b)@[j],
        forall|i: int|
            #![trigger final(r)@[i]]
            0 <= i < old(r)@.len() && i < old(g)@.len() && i < old(b)@.len() ==> maps_to_at(
                f,
                i as usize,
                seq![old(r)@[i], old(g)@[i], old(b)@[i]],
                seq![final(r)@[i], final(g)@[i], final(b)@[i]],
            ),
        forall|j: int|
            0 <= j < old(r)@.len() && (j >= old(g)@.len() || j >= old(b)@.len()) ==> final(r)@[j]
                == old(r)@[j],
        forall|j: int|
            0 <= j < old(g)@.len() && (j >= old(r)@.len() || j >= old(b)@.len()) ==> final(g)@[j]
                == old(g)@[j],
        forall|j: int|
            0 <= j < old(b)@.len() && (j >= old(r)@.len() || j >= old(g)@.len()) ==> final(b)@[j]
                == old(b)@[j],
{
    let ghost r0 = r@;
    let ghost g0 = g@;
    let ghost b0 = b@;
    let n: usize = if r.len() <= g.len() && r.len() <= b.len() {
        r.len()
    } else if g.len() <= b.len() {
        g.len()
    } else {
        b.len()
    };
    let mut i: usize = 0;
    while i < n
        invariant
            n == pixel_count(r0, g0, b0),
            n <= r0.len(),
            n <= g0.len(),
            n <= b0.len(),
            i <= n,
            r@.len() == r0.len(),
            g@.len() == g0.len(),
            b@.len() == b0.len(),
            forall|k: int| 0 <= k < n ==> #[trigger] accepts_at(f, k as usize, pixel_at(r0, g0, b0, k)),
            forall|k: int|
                0 <= k < i ==> #[trigger] maps_to_at(
                    f,
                    k as usize,
                    pixel_at(r0, g0, b0, k),
                    pixel_at(r@, g@, b@, k),
                ),
            forall|j: int| i <= j < r0.len() ==> r@[j] == r0[j],
            forall|j: int| i <= j < g0.len() ==> g@[j] == g0[j],
            forall|j: int| i <= j < b0.len() ==> b@[j] == b0[j],
        decreases n - i,
    {
        let px: [T; 3] = [r[i], g[i], b[i]];
        assert(px@ == pixel_at(r0, g0, b0, i as int));
        assert(accepts_at(f, (i as int) as usize, pixel_at(r0, g0, b0, i as int)));
        let q: [T; 3] = f(i, px);
        let ghost rs = r@;
        let ghost gs = g@;
        let ghost bs = b@;
        r[i] = q[0];
        g[i] = q[1];
        b[i] = q[2];
        assert(q@ == pixel_at(r@, g@, b@, i as int));
        assert(maps_to_at(f, i, pixel_at(r0, g0, b0, i as int), pixel_at(r@, g@, b@, i as int)));
        assert(maps_to_at(f, (i as int) as usize, pixel_at(r0, g0, b0, i as int), pixel_at(r@, g@, b@, i as int)));
        assert forall|k: int| 0 <= k < i implies #[trigger] pixel_at(r@, g@, b@, k) == pixel_at(
            rs,
            gs,
            bs,
            k,
        ) by {}
        i = i + 1;
    }
    assert forall|k: int|
        0 <= k < r0.len() && k < g0.len() && k < b0.len() implies maps_to_at(
        f,
        k as usize, seq![r0[k], g0[k], b0[k]],
        seq![r@[k], g@[k], b@[k]],
    ) by {
        assert(maps_to_at(f, k as usize, pixel_at(r0, g0, b0, k), pixel_at(r@, g@, b@, k)));
    }
}

/// A map that rewrites the pixel at position `k` to `v` and gives every other pixel back as it
/// was rewrites that pixel alone: after `make_iter_mut_indexed` or `rgb_iter_mut_indexed`, pixel
/// `k` is `v` and each other pixel is what it was before, whatever values the pixels share.
pub proof fn lemma_indexed_write_one_pixel<T, F: Fn(usize, [T; 3]) -> [T; 3]>(
    f: F,
    k: usize,
    v: Seq<T>,
    i: usize,
    before: Seq<T>,
    after: Seq<T>,
)
    requires
        forall|j: usize, p: [T; 3], q: [T; 3]|
            #[trigger] call_ensures(f, (j, p), q) ==> q@ == (if j == k {
                v
            } else {
                p@
            }),
        maps_to_at(f, i, before, after),
    ensures
        after == (if i == k {
            v
        } else {
            before
        }),
{
}

/// Zipping three channels gives as many pixels as the shortest channel holds, and pixel `i`
/// is `[r[i], g[i], b[i]]`, whatever the channels' lengths.
pub proof fn lemma_zip_pixels<T>(r: Seq<T>, g: Seq<T>, b: Seq<T>)
    ensures
        zip_pixels(r, g, b).len() <= r.len(),
        zip_pixels(r, g, b).len() <= g.len(),
        zip_pixels(r, g, b).len() <= b.len(),
        zip_pixels(r, g, b).len() == r.len() || zip_pixels(r, g, b).len() == g.len()
            || zip_pixels(r, g, b).len() == b.len(),
        pixel_count(r, g, b) == zip_pixels(r, g, b).len(),
        forall|i: int|
            0 <= i < zip_pixels(r, g, b).len() ==> #[trigger] zip_pixels(r, g, b)[i] == seq![
                r[i],
                g[i],
                b[i],
            ],
        forall|i: int| #[trigger] pixel_at(r, g, b, i) == seq![r[i], g[i], b[i]],
{
}

/// The view of a sequence of pixels has one entry per pixel, the pixel's three channels in order.
pub proof fn lemma_pixels_view<T>(p: Seq<[T; 3]>)
    ensures
        pixels_view(p).len() == p.len(),
        forall|i: int|
            0 <= i < p.len() ==> #[trigger] pixels_view(p)[i] == seq![p[i][0], p[i][1], p[i][2]],
{
    assert forall|i: int| 0 <= i < p.len() implies #[trigger] pixels_view(p)[i] == seq![
        p[i][0],
        p[i][1],
        p[i][2],
    ] by {
        assert(p[i]@.len() == 3);
        assert(p[i]@ =~= seq![p[i][0], p[i][1], p[i][2]]);
    }
}

/// A well-formed image yields exactly `width * height` pixels: what `rgb_iter` returns is as long
/// as what `total` returns.
pub proof fn lemma_pixel_count_is_total<T>(img: ImageView<T>)
    requires
        img.wf(),
    ensures
        img.pixels().len() == img.w * img.h,
{
}

/// Pixels come in row-major order: the pixel in row `y` and column `x` of a well-formed image is
/// the one at index `y * width + x`, and it holds the three channels' values at that index.
pub proof fn lemma_row_major<T>(img: ImageView<T>, x: int, y: int)
    requires
        img.wf(),
        0 <= x < img.w,
        0 <= y < img.h,
    ensures
        y * img.w + x < img.pixels().len(),
        img.pixels()[y * img.w + x] == seq![
            img.r[y * img.w + x],
            img.g[y * img.w + x],
            img.b[y * img.w + x],
        ],
{
    assert(y * img.w + x < img.w * img.h) by (nonlinear_arith)
        requires
            0 <= x < img.w,
            0 <= y < img.h,
    {
        assert(y * img.w + x < y * img.w + img.w);
        assert(y * img.w + img.w == (y + 1) * img.w);
        assert((y + 1) * img.w <= img.h * img.w);
    }
}

/// A pixel map whose every call gives back its argument changes nothing: where `f` is the
/// identity, each pixel after `make_iter_mut` or `rgb_iter_mut` is the one before.
pub proof fn lemma_identity_map_keeps_pixel<T, F: Fn([T; 3]) -> [T; 3]>(
    f: F,
    before: Seq<T>,
    after: Seq<T>,
)
    requires
        forall|p: [T; 3], q: [T; 3]| #[trigger] call_ensures(f, (p,), q) ==> q == p,
        maps_to(f, before, after),
    ensures
        after == before,
{
}

} // verus!
