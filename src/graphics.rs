use vstd::prelude::*;

verus! {

/// An RGB pixel buffer of the `image` crate, held behind trusted methods.
#[verifier::external_body]
pub struct PixelBuffer {
    img: image::RgbImage,
}

/// What a pixel buffer holds: the color of each pixel, keyed by (column, row).
pub uninterp spec fn buffer_pixels(b: PixelBuffer) -> Map<(u32, u32), [u8; 3]>;

/// The width and height a pixel buffer was made with.
pub uninterp spec fn buffer_size(b: PixelBuffer) -> (u32, u32);

/// The positions of a `width` x `height` buffer.
pub open spec fn grid(width: u32, height: u32) -> Set<(u32, u32)> {
    Set::new(|p: (u32, u32)| p.0 < width && p.1 < height)
}

/// The pixels of a zero-filled `width` x `height` buffer.
pub open spec fn black_pixels(width: u32, height: u32) -> Map<(u32, u32), [u8; 3]> {
    Map::new(|p: (u32, u32)| p.0 < width && p.1 < height, |p: (u32, u32)| [0u8, 0u8, 0u8])
}

impl PixelBuffer {
    /// Relies on ImageBuffer::new: a zero-filled buffer of the given size; it
    /// panics when three bytes times the width, or that times the height,
    /// overflow usize.
    #[verifier::external_body]
    fn new(width: u32, height: u32) -> (r: PixelBuffer)
        requires
            width > 0,
            height > 0,
            3 * ((width as int) * (height as int)) <= usize::MAX,
        ensures
            buffer_size(r) == (width, height),
            buffer_pixels(r) == black_pixels(width, height),
    {
        PixelBuffer { img: image::RgbImage::new(width, height) }
    }

    /// Relies on ImageBuffer::put_pixel: sets one pixel; it panics outside the buffer.
    #[verifier::external_body]
    fn put(&mut self, x: u32, y: u32, color: [u8; 3])
        requires
            x < buffer_size(*old(self)).0,
            y < buffer_size(*old(self)).1,
        ensures
            buffer_size(*final(self)) == buffer_size(*old(self)),
            buffer_pixels(*final(self)) == buffer_pixels(*old(self)).insert((x, y), color),
    {
        self.img.put_pixel(x, y, image::Rgb(color));
    }

    /// Relies on ImageBuffer::get_pixel: reads one pixel; it panics outside the buffer.
    #[verifier::external_body]
    fn get(&self, x: u32, y: u32) -> (r: [u8; 3])
        requires
            x < buffer_size(*self).0,
            y < buffer_size(*self).1,
        ensures
            r == buffer_pixels(*self)[(x, y)],
    {
        self.img.get_pixel(x, y).0
    }

    /// Relies on ImageBuffer::as_raw: the channel bytes, row after row, pixel
    /// after pixel, red, green and blue.
    #[verifier::external_body]
    fn raw(&self) -> (r: Vec<u8>)
        ensures
            r@.len() == 3 * buffer_size(*self).0 * buffer_size(*self).1,
            forall|x: u32, y: u32, k: int|
                x < buffer_size(*self).0 && y < buffer_size(*self).1 && 0 <= k < 3
                    ==> r@[3 * (y * buffer_size(*self).0 + x) + k] == #[trigger] buffer_pixels(*self)[(x, y)][k],
    {
        self.img.as_raw().clone()
    }
}

/// Why a graphics context could not be made.
#[derive(Debug, Clone, Copy, PartialEq, Eq, Structural)]
pub enum ConfigError {
    /// The image has no pixels: its width or its height is zero.
    EmptyImage,
    /// The image's bytes do not fit in memory's address range.
    ImageTooLarge,
}

/// The buffer position that pixel `(x, y)` lands on: columns as given, rows
/// counted from the bottom (`height - y`). Absent outside
/// `[0, width) x [0, height)`, and for row `0`, whose flipped row lies
/// past the buffer's end.
pub open spec fn flipped_target(width: u32, height: u32, x: i64, y: i64) -> Option<(u32, u32)> {
    if 0 <= x < width && 0 < y < height {
        Some((x as u32, (height - y) as u32))
    } else {
        None
    }
}

/// A drawing surface: a camera's world pose and projection, and the image
/// they render into.
pub struct GraphicsContext<T, P> {
    pub tf_root: T,
    pub projection: P,
    img_width: u32,
    img_height: u32,
    imgbuf: PixelBuffer,
}

impl<T, P> GraphicsContext<T, P> {
    pub closed spec fn width(&self) -> u32 {
        self.img_width
    }

    pub closed spec fn height(&self) -> u32 {
        self.img_height
    }

    /// The camera's world pose.
    pub closed spec fn root(&self) -> T {
        self.tf_root
    }

    /// The camera's projection.
    pub closed spec fn proj(&self) -> P {
        self.projection
    }

    /// The image's pixels, keyed by buffer (column, row).
    pub closed spec fn pixels(&self) -> Map<(u32, u32), [u8; 3]> {
        buffer_pixels(self.imgbuf)
    }

    pub closed spec fn wf(&self) -> bool {
        &&& buffer_size(self.imgbuf) == (self.img_width, self.img_height)
        &&& buffer_pixels(self.imgbuf).dom() == grid(self.img_width, self.img_height)
        &&& self.img_width > 0
        &&& self.img_height > 0
    }

    /// A context with a black image of the given size; fails on an empty
    /// image or one too large to address.
    pub fn new(tf_root: T, projection: P, img_width: u32, img_height: u32) -> (r: Result<Self, ConfigError>)
        ensures
            (img_width == 0 || img_height == 0) <==> r == Err::<Self, ConfigError>(ConfigError::EmptyImage),
            (img_width > 0 && img_height > 0 && 3 * ((img_width as int) * (img_height as int)) > usize::MAX)
                <==> r == Err::<Self, ConfigError>(ConfigError::ImageTooLarge),
            r matches Ok(c) ==> {
                &&& c.wf()
                &&& c.width() == img_width
                &&& c.height() == img_height
                &&& c.pixels() == black_pixels(img_width, img_height)
                &&& c.root() == tf_root
                &&& c.proj() == projection
            },
    {
        if img_width == 0 || img_height == 0 {
            return Err(ConfigError::EmptyImage);
        }
        let w: u128 = img_width as u128;
        let h: u128 = img_height as u128;
        assert(w * h <= 0xffff_ffff_ffff_ffff) by (nonlinear_arith)
            requires
                w <= 0xffff_ffff,
                h <= 0xffff_ffff,
        ;
        let bytes: u128 = 3 * (w * h);
        if bytes > usize::MAX as u128 {
            return Err(ConfigError::ImageTooLarge);
        }
        let imgbuf = PixelBuffer::new(img_width, img_height);
        assert(buffer_pixels(imgbuf).dom() =~= grid(img_width, img_height));
        Ok(GraphicsContext { tf_root, projection, img_width, img_height, imgbuf })
    }

    pub fn img_width(&self) -> (r: u32)
        ensures
            r == self.width(),
    {
        self.img_width
    }

    pub fn img_height(&self) -> (r: u32)
        ensures
            r == self.height(),
    {
        self.img_height
    }

    /// Writes `color` at pixel `(x, y)`, rows counted upward from the bottom;
    /// does nothing where `flipped_target` has no position.
    pub fn put_pixel(&mut self, x: i64, y: i64, color: [u8; 3])
        requires
            old(self).wf(),
        ensures
            final(self).wf(),
            final(self).width() == old(self).width(),
            final(self).height() == old(self).height(),
            final(self).root() == old(self).root(),
            final(self).proj() == old(self).proj(),
            final(self).pixels() == match flipped_target(old(self).width(), old(self).height(), x, y) {
                Some(p) => old(self).pixels().insert(p, color),
                None => old(self).pixels(),
            },
    {
        if x >= 0 && x < self.img_width as i64 && y > 0 && y < self.img_height as i64 {
            self.put_pixel_unchecked(x, y, color);
        }
    }

    /// Writes `color` at buffer position `(x, height - y)`; the caller has
    /// checked that this position lies in the buffer.
    pub fn put_pixel_unchecked(&mut self, x: i64, y: i64, color: [u8; 3])
        requires
            old(self).wf(),
            0 <= x < old(self).width(),
            0 < y <= old(self).height(),
        ensures
            final(self).wf(),
            final(self).width() == old(self).width(),
            final(self).height() == old(self).height(),
            final(self).root() == old(self).root(),
            final(self).proj() == old(self).proj(),
            final(self).pixels() == old(self).pixels().insert(
                (x as u32, (old(self).height() - y) as u32),
                color,
            ),
    {
        let row: u32 = self.img_height - y as u32;
        self.imgbuf.put(x as u32, row, color);
        assert(buffer_pixels(self.imgbuf).dom() =~= grid(self.img_width, self.img_height));
    }

    /// Colors every pixel with `shade`, called with the pixel's column and its
    /// row counted upward (`height - r` for buffer row `r`), so that rows
    /// `1..=height` are visited.
    pub fn render<F: Fn(u32, u32) -> [u8; 3]>(&mut self, shade: F)
        requires
            old(self).wf(),
            forall|x: u32, y: u32| x < old(self).width() && 0 < y <= old(self).height() ==> #[trigger] shade.requires((x, y)),
        ensures
            final(self).wf(),
            final(self).width() == old(self).width(),
            final(self).height() == old(self).height(),
            final(self).root() == old(self).root(),
            final(self).proj() == old(self).proj(),
            forall|x: u32, r: u32|
                x < final(self).width() && r < final(self).height() ==> shade.ensures(
                    (x, (final(self).height() - r) as u32),
                    #[trigger] final(self).pixels()[(x, r)],
                ),
    {
        let w = self.img_width;
        let h = self.img_height;
        let mut r: u32 = 0;
        while r < h
            invariant
                self.wf(),
                self.img_width == w,
                self.img_height == h,
                self.tf_root == old(self).tf_root,
                self.projection == old(self).projection,
                r <= h,
                forall|x: u32, y: u32| x < w && 0 < y <= h ==> #[trigger] shade.requires((x, y)),
                forall|x: u32, rr: u32|
                    x < w && rr < r ==> shade.ensures((x, (h - rr) as u32), #[trigger] self.pixels()[(x, rr)]),
            decreases h - r,
        {
            let mut x: u32 = 0;
            while x < w
                invariant
                    self.wf(),
                    self.img_width == w,
                    self.img_height == h,
                    self.tf_root == old(self).tf_root,
                    self.projection == old(self).projection,
                    r < h,
                    x <= w,
                    forall|x: u32, y: u32| x < w && 0 < y <= h ==> #[trigger] shade.requires((x, y)),
                    forall|x2: u32, rr: u32|
                        x2 < w && rr < r ==> shade.ensures((x2, (h - rr) as u32), #[trigger] self.pixels()[(x2, rr)]),
                    forall|x2: u32| x2 < x ==> shade.ensures((x2, (h - r) as u32), #[trigger] self.pixels()[(x2, r)]),
                decreases w - x,
            {
                let color = shade(x, h - r);
                let ghost before = self.pixels();
                self.imgbuf.put(x, r, color);
                assert(buffer_pixels(self.imgbuf).dom() =~= grid(w, h));
                assert forall|x2: u32, rr: u32| x2 < w && rr < r implies shade.ensures(
                    (x2, (h - rr) as u32),
                    #[trigger] self.pixels()[(x2, rr)],
                ) by {
                    assert(grid(w, h).contains((x2, rr)));
                    assert(self.pixels()[(x2, rr)] == before[(x2, rr)]);
                }
                assert forall|x2: u32| x2 < x + 1 implies shade.ensures(
                    (x2, (h - r) as u32),
                    #[trigger] self.pixels()[(x2, r)],
                ) by {
                    if x2 < x {
                        assert(grid(w, h).contains((x2, r)));
                        assert(self.pixels()[(x2, r)] == before[(x2, r)]);
                    }
                }
                x = x + 1;
            }
            r = r + 1;
        }
    }

    /// The color at buffer position `(x, y)`.
    pub fn get_pixel(&self, x: u32, y: u32) -> (r: [u8; 3])
        requires
            self.wf(),
            x < self.width(),
            y < self.height(),
        ensures
            r == self.pixels()[(x, y)],
    {
        self.imgbuf.get(x, y)
    }

    /// The image's channel bytes, row after row from buffer row `0`, each
    /// pixel as red, green, blue.
    pub fn raw_pixels(&self) -> (r: Vec<u8>)
        requires
            self.wf(),
        ensures
            r@.len() == 3 * self.width() * self.height(),
            forall|x: u32, y: u32, k: int|
                x < self.width() && y < self.height() && 0 <= k < 3
                    ==> r@[3 * (y * self.width() + x) + k] == #[trigger] self.pixels()[(x, y)][k],
    {
        self.imgbuf.raw()
    }
}

} // verus!
