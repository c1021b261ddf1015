//! The output raster: a grid of RGB pixels held in an `image::RgbImage`.

use crate::mapper::cells;
use vstd::prelude::*;

verus! {

/// A colour as its red, green and blue channels.
pub type Rgb = (u8, u8, u8);

/// The colour of a pixel that was never written, and of the points taken to be in the set.
pub const BLACK: Rgb = (0, 0, 0);

/// A raster of RGB pixels, kept in an `image::RgbImage`.
///
/// The verifier does not look inside the image. What it knows of a raster is
/// what [`raster_size`] and [`raster_pixels`] name, and what the functions
/// `image_new` to `image_into_raw` below say of them.
#[verifier::external_body]
pub struct Raster {
    image: image::RgbImage,
}

/// The number of columns and the number of rows that the image of `raster` was made with.
pub uninterp spec fn raster_size(raster: Raster) -> (nat, nat);

/// The colour of every pixel of the image of `raster`, keyed by column and row.
pub uninterp spec fn raster_pixels(raster: Raster) -> Map<(int, int), Rgb>;

/// Whether the three channels of `width * height` pixels fit in one allocation.
pub open spec fn raster_fits(width: int, height: int) -> bool {
    3 * width * height <= isize::MAX
}

/// The raster of `width` by `height` pixels in which every pixel is black.
pub open spec fn blank(width: int, height: int) -> Map<(int, int), Rgb> {
    Map::new(|p: (int, int)| cells(width, height).contains(p), |p: (int, int)| BLACK)
}

/// `pixels` after the first `rows` colours of `colors` were written into
/// column `x`, from row 0 down.
pub open spec fn with_rows(
    pixels: Map<(int, int), Rgb>,
    x: int,
    colors: Seq<Rgb>,
    rows: int,
) -> Map<(int, int), Rgb> {
    Map::new(
        |p: (int, int)| pixels.dom().contains(p) || (p.0 == x && 0 <= p.1 < rows),
        |p: (int, int)|
            if p.0 == x && 0 <= p.1 < rows {
                colors[p.1]
            } else {
                pixels[p]
            },
    )
}

/// `pixels` after `colors` was written into column `x`, one colour for each row.
pub open spec fn with_column(
    pixels: Map<(int, int), Rgb>,
    x: int,
    colors: Seq<Rgb>,
) -> Map<(int, int), Rgb> {
    with_rows(pixels, x, colors, colors.len() as int)
}

/// `pixels` after the columns named by `order` were written one after the
/// other, column `x` with the colours `columns[x]`.
pub open spec fn with_columns(
    pixels: Map<(int, int), Rgb>,
    order: Seq<int>,
    columns: Seq<Seq<Rgb>>,
) -> Map<(int, int), Rgb>
    decreases order.len(),
{
    if order.len() == 0 {
        pixels
    } else {
        with_column(
            with_columns(pixels, order.drop_last(), columns),
            order.last(),
            columns[order.last()],
        )
    }
}

/// The bytes of a raster: row after row, and three bytes for each pixel.
pub open spec fn is_row_major(
    bytes: Seq<u8>,
    size: (nat, nat),
    pixels: Map<(int, int), Rgb>,
) -> bool {
    &&& bytes.len() == 3 * size.0 * size.1
    &&& forall|x: int, y: int|
        0 <= x < size.0 && 0 <= y < size.1 ==> {
            &&& bytes[3 * (y * size.0 + x)] == (#[trigger] pixels[(x, y)]).0
            &&& bytes[3 * (y * size.0 + x) + 1] == pixels[(x, y)].1
            &&& bytes[3 * (y * size.0 + x) + 2] == pixels[(x, y)].2
        }
}

/// `image::ImageBuffer::new`: an image of the given size in which every
/// channel of every pixel is zero. It panics where the channels do not fit in
/// a vector; such sizes are left out.
#[verifier::external_body]
fn image_new(width: u32, height: u32) -> (raster: Raster)
    requires
        raster_fits(width as int, height as int),
    ensures
        raster_size(raster) == (width as nat, height as nat),
        raster_pixels(raster) == blank(width as int, height as int),
{
    Raster { image: image::RgbImage::new(width, height) }
}

/// `image::ImageBuffer::dimensions`: the width and the height that the image was made with.
#[verifier::external_body]
fn image_dimensions(raster: &Raster) -> (size: (u32, u32))
    ensures
        (size.0 as nat, size.1 as nat) == raster_size(*raster),
{
    raster.image.dimensions()
}

/// `image::ImageBuffer::get_pixel`: the pixel at `(x, y)`. It panics outside
/// the image; such positions are left out.
#[verifier::external_body]
fn image_get_pixel(raster: &Raster, x: u32, y: u32) -> (color: Rgb)
    requires
        x < raster_size(*raster).0,
        y < raster_size(*raster).1,
    ensures
        color == raster_pixels(*raster)[(x as int, y as int)],
{
    let pixel = raster.image.get_pixel(x, y);
    (pixel.0[0], pixel.0[1], pixel.0[2])
}

/// `image::ImageBuffer::put_pixel`: replaces the pixel at `(x, y)` and
/// changes nothing else. It panics outside the image; such positions are left
/// out.
#[verifier::external_body]
fn image_put_pixel(raster: &mut Raster, x: u32, y: u32, color: Rgb)
    requires
        x < raster_size(*old(raster)).0,
        y < raster_size(*old(raster)).1,
    ensures
        raster_size(*final(raster)) == raster_size(*old(raster)),
        raster_pixels(*final(raster)) == raster_pixels(*old(raster)).insert(
            (x as int, y as int),
            color,
        ),
{
    raster.image.put_pixel(x, y, image::Rgb([color.0, color.1, color.2]))
}

/// `image::ImageBuffer::into_raw`: the channels of the image, row after row,
/// three for each pixel.
#[verifier::external_body]
fn image_into_raw(raster: Raster) -> (bytes: Vec<u8>)
    ensures
        is_row_major(bytes@, raster_size(raster), raster_pixels(raster)),
{
    raster.image.into_raw()
}

impl View for Raster {
    type V = Map<(int, int), Rgb>;

    /// The colour of every pixel, keyed by column and row.
    open spec fn view(&self) -> Map<(int, int), Rgb> {
        raster_pixels(*self)
    }
}

impl Raster {
    /// Number of columns.
    pub open spec fn spec_width(self) -> nat {
        raster_size(self).0
    }

    /// Number of rows.
    pub open spec fn spec_height(self) -> nat {
        raster_size(self).1
    }

    /// Tells whether a raster of `width` by `height` pixels can be allocated.
    pub fn fits(width: u32, height: u32) -> (b: bool)
        ensures
            b == raster_fits(width as int, height as int),
    {
        let channels: u128 = 3 * (width as u128);
        assert(channels * height <= 0x3_0000_0000 * 0x1_0000_0000) by (nonlinear_arith)
            requires
                0 <= channels <= 0x3_0000_0000,
                0 <= height <= 0x1_0000_0000,
        ;
        let total: u128 = channels * (height as u128);
        assert(total == 3 * width * height) by (nonlinear_arith)
            requires
                total == channels * height,
                channels == 3 * width,
        ;
        total <= isize::MAX as u128
    }

    /// A raster of `width` by `height` pixels, all of them black.
    pub fn new(width: u32, height: u32) -> (raster: Raster)
        requires
            raster_fits(width as int, height as int),
        ensures
            raster.spec_width() == width,
            raster.spec_height() == height,
            raster@ == blank(width as int, height as int),
    {
        image_new(width, height)
    }

    /// Number of columns.
    pub fn width(&self) -> (w: u32)
        ensures
            w == self.spec_width(),
    {
        image_dimensions(self).0
    }

    /// Number of rows.
    pub fn height(&self) -> (h: u32)
        ensures
            h == self.spec_height(),
    {
        image_dimensions(self).1
    }

    /// The colour of the pixel in column `x` and row `y`, if the raster has such a pixel.
    pub fn get(&self, x: u32, y: u32) -> (color: Option<Rgb>)
        ensures
            x < self.spec_width() && y < self.spec_height() ==> color == Some(
                self@[(x as int, y as int)],
            ),
            !(x < self.spec_width() && y < self.spec_height()) ==> color.is_none(),
    {
        let (width, height) = image_dimensions(self);
        if x < width && y < height {
            Some(image_get_pixel(self, x, y))
        } else {
            None
        }
    }

    /// Sets the pixel in column `x` and row `y` to `color`.
    pub fn set(&mut self, x: u32, y: u32, color: Rgb)
        requires
            x < old(self).spec_width(),
            y < old(self).spec_height(),
        ensures
            final(self).spec_width() == old(self).spec_width(),
            final(self).spec_height() == old(self).spec_height(),
            final(self)@ == old(self)@.insert((x as int, y as int), color),
    {
        image_put_pixel(self, x, y, color)
    }

    /// Writes one colour for each row into column `column`.
    pub fn place_column(&mut self, column: u32, colors: &Vec<Rgb>)
        requires
            column < old(self).spec_width(),
            colors.len() == old(self).spec_height(),
        ensures
            final(self).spec_width() == old(self).spec_width(),
            final(self).spec_height() == old(self).spec_height(),
            final(self)@ == with_column(old(self)@, column as int, colors@),
    {
        let height = self.height();
        let mut row: u32 = 0;
        while row < height
            invariant
                row <= height,
                height == colors.len(),
                self.spec_width() == old(self).spec_width(),
                self.spec_height() == old(self).spec_height(),
                height == self.spec_height(),
                column < self.spec_width(),
                self@ == with_rows(old(self)@, column as int, colors@, row as int),
            decreases height - row,
        {
            let color = colors[row as usize];
            self.set(column, row, color);
            row += 1;
        }
    }

    /// The channels of all pixels, row after row, three bytes for each pixel.
    pub fn into_bytes(self) -> (bytes: Vec<u8>)
        ensures
            is_row_major(bytes@, (self.spec_width(), self.spec_height()), self@),
    {
        image_into_raw(self)
    }
}

/// What a run of column writes leaves in each cell: the colour of its column
/// if that column was written, and what was there before if not.
pub proof fn lemma_with_columns_cell(
    pixels: Map<(int, int), Rgb>,
    order: Seq<int>,
    columns: Seq<Seq<Rgb>>,
    p: (int, int),
)
    ensures
        order.contains(p.0) && 0 <= p.1 < columns[p.0].len() ==> {
            &&& with_columns(pixels, order, columns).dom().contains(p)
            &&& with_columns(pixels, order, columns)[p] == columns[p.0][p.1]
        },
        !(order.contains(p.0) && 0 <= p.1 < columns[p.0].len()) ==> {
            &&& with_columns(pixels, order, columns).dom().contains(p) == pixels.dom().contains(p)
            &&& pixels.dom().contains(p) ==> with_columns(pixels, order, columns)[p] == pixels[p]
        },
    decreases order.len(),
{
    if order.len() > 0 {
        let rest = order.drop_last();
        lemma_with_columns_cell(pixels, rest, columns, p);
        assert(order =~= rest.push(order.last()));
        assert(order.contains(p.0) <==> rest.contains(p.0) || order.last() == p.0);
    }
}

/// Writes to different columns do not touch each other: either order gives
/// the same raster.
pub proof fn lemma_column_writes_commute(
    pixels: Map<(int, int), Rgb>,
    x1: int,
    colors1: Seq<Rgb>,
    x2: int,
    colors2: Seq<Rgb>,
)
    requires
        x1 != x2,
    ensures
        with_column(with_column(pixels, x1, colors1), x2, colors2) == with_column(
            with_column(pixels, x2, colors2),
            x1,
            colors1,
        ),
{
    assert(with_column(with_column(pixels, x1, colors1), x2, colors2) =~= with_column(
        with_column(pixels, x2, colors2),
        x1,
        colors1,
    ));
}

/// The raster does not depend on how the columns were handed out: two runs
/// that write the same columns, in whatever order and however often, leave
/// the same raster.
pub proof fn lemma_column_order_is_immaterial(
    pixels: Map<(int, int), Rgb>,
    order1: Seq<int>,
    order2: Seq<int>,
    columns: Seq<Seq<Rgb>>,
)
    requires
        forall|x: int| order1.contains(x) <==> order2.contains(x),
    ensures
        with_columns(pixels, order1, columns) == with_columns(pixels, order2, columns),
{
    let a = with_columns(pixels, order1, columns);
    let b = with_columns(pixels, order2, columns);
    assert forall|p: (int, int)| #[trigger] a.dom().contains(p) == b.dom().contains(p) by {
        lemma_with_columns_cell(pixels, order1, columns, p);
        lemma_with_columns_cell(pixels, order2, columns, p);
    }
    assert forall|p: (int, int)| a.dom().contains(p) implies #[trigger] a[p] == b[p] by {
        lemma_with_columns_cell(pixels, order1, columns, p);
        lemma_with_columns_cell(pixels, order2, columns, p);
    }
}

} // verus!
