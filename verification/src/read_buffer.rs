//! Reading pixels back from a framebuffer's color attachment.
use crate::bytes::{
    law_low_bits_are_what_is_left, lemma_rounded_up, low_bits, low_word, round_up, rounded_up,
};
use crate::server::WgpuGraphicsServer;
use crate::texture::{FrameworkError, GpuTextureKind};
use vstd::arithmetic::div_mod::{lemma_fundamental_div_mod, lemma_fundamental_div_mod_converse};
use vstd::prelude::*;

verus! {

/// `wgpu::COPY_BYTES_PER_ROW_ALIGNMENT`: what the rows of a texture copied to a buffer are padded
/// to, in bytes.
#[verifier::external_body]
pub(crate) fn copy_row_alignment() -> (alignment: u32)
    ensures
        alignment == 256,
{
    wgpu::COPY_BYTES_PER_ROW_ALIGNMENT
}

/// The rows of a transfer: how many there are, and how long one is in bytes, unpadded and padded.
#[derive(Clone, Copy, Debug, PartialEq, Eq, Structural)]
pub struct Rows {
    pub count: usize,
    pub row: usize,
    pub padded_row: usize,
}

impl Rows {
    /// The rows of an image.
    pub open spec fn of(width: usize, height: usize, pixel_size: usize) -> Rows {
        Rows {
            count: height,
            row: (width * pixel_size) as usize,
            padded_row: rounded_up(width * pixel_size, 256) as usize,
        }
    }

    /// The bytes from the start of the first row to the end of the last: the last row is not
    /// padded.
    pub open spec fn extent(self) -> nat {
        if self.count == 0 {
            0
        } else {
            (self.padded_row * (self.count - 1) + self.row) as nat
        }
    }

    /// Rows do not overlap, and their extent is a number that this machine can hold.
    pub open spec fn well_formed(self) -> bool {
        &&& self.row <= self.padded_row
        &&& self.extent() <= usize::MAX
    }

    /// All rows but the last lie within `size` bytes once they are put together without padding.
    pub open spec fn start_within(self, size: usize) -> bool {
        self.count > 0 ==> (self.count - 1) * self.row <= size
    }

    /// True if all rows but the last lie within `size` bytes once they are put together without
    /// padding.
    pub fn starts_within(&self, size: usize) -> (result: bool)
        ensures
            result == self.start_within(size),
    {
        if self.count == 0 {
            return true;
        }
        let before: u128 = (self.count - 1) as u128;
        let row: u128 = self.row as u128;
        proof {
            assert(0 <= before * row <= 0xffff_ffff_ffff_ffff * 0xffff_ffff_ffff_ffff)
                by (nonlinear_arith)
                requires
                    0 <= before <= 0xffff_ffff_ffff_ffff,
                    0 <= row <= 0xffff_ffff_ffff_ffff,
            ;
        }
        before * row <= size as u128
    }

    /// The bytes from the start of the first row to the end of the last.
    pub fn copied(&self) -> (bytes: usize)
        requires
            self.well_formed(),
        ensures
            bytes == self.extent(),
    {
        if self.count == 0 {
            0
        } else {
            proof {
                let a = self.padded_row as int;
                let b = self.count - 1;
                assert(0 <= a * b) by (nonlinear_arith)
                    requires
                        a >= 0,
                        b >= 0,
                ;
            }
            self.padded_row * (self.count - 1) + self.row
        }
    }
}

/// `size` bytes of an image without padding, out of `mapped`, whose rows are padded: each row follows
/// the one before it, and what the rows do not fill is zero.
pub open spec fn unpadded(mapped: Seq<u8>, rows: Rows, size: nat) -> Seq<u8> {
    Seq::new(
        size,
        |i: int|
            if i < rows.count * rows.row {
                mapped[i / rows.row as int * rows.padded_row + i % rows.row as int]
            } else {
                0
            },
    )
}

/// Takes the padding out of rows.
pub fn unpad_rows(mapped: &[u8], rows: Rows, size: usize) -> (pixels: Vec<u8>)
    requires
        rows.well_formed(),
        rows.extent() <= mapped@.len(),
        rows.start_within(size),
    ensures
        pixels@ == unpadded(mapped@, rows, size as nat),
{
    let mut pixels: Vec<u8> = Vec::new();
    let mut y: usize = 0;
    let ghost row = rows.row as int;
    let ghost padded = rows.padded_row as int;
    let ghost count = rows.count as int;
    assert(0 * row == 0);
    while y < rows.count && pixels.len() < size
        invariant
            y <= rows.count,
            row == rows.row,
            padded == rows.padded_row,
            count == rows.count,
            rows.well_formed(),
            rows.extent() <= mapped@.len(),
            mapped@.len() == mapped.len(),
            pixels@.len() == if y * row <= size {
                y * row
            } else {
                size as int
            },
            forall|i: int|
                0 <= i < pixels@.len() ==> #[trigger] pixels@[i] == unpadded(
                    mapped@,
                    rows,
                    size as nat,
                )[i],
        decreases rows.count - y,
    {
        proof {
            assert(y * padded <= (count - 1) * padded) by (nonlinear_arith)
                requires
                    y <= count - 1,
                    padded >= 0,
            ;
            assert((count - 1) * padded == padded * (count - 1)) by (nonlinear_arith);
            assert((y + 1) * row == y * row + row) by (nonlinear_arith);
            assert((y + 1) * row <= count * row) by (nonlinear_arith)
                requires
                    y + 1 <= count,
                    row >= 0,
            ;
            assert(0 <= y * padded) by (nonlinear_arith)
                requires
                    y >= 0,
                    padded >= 0,
            ;
            assert(0 <= y * row) by (nonlinear_arith)
                requires
                    y >= 0,
                    row >= 0,
            ;
        }
        let src: usize = y * rows.padded_row;
        let room: usize = size - pixels.len();
        let len: usize = if rows.row < room {
            rows.row
        } else {
            room
        };
        let mut x: usize = 0;
        while x < len
            invariant
                x <= len,
                len <= rows.row,
                y < rows.count,
                row == rows.row,
                padded == rows.padded_row,
                count == rows.count,
                src == y * padded,
                (y + 1) * row == y * row + row,
                (y + 1) * row <= count * row,
                src + row <= mapped@.len(),
                mapped@.len() == mapped.len(),
                y * row + len <= size,
                pixels@.len() == y * row + x,
                forall|i: int|
                    0 <= i < pixels@.len() ==> #[trigger] pixels@[i] == unpadded(
                        mapped@,
                        rows,
                        size as nat,
                    )[i],
            decreases len - x,
        {
            proof {
                lemma_fundamental_div_mod_converse(y * row + x, row, y as int, x as int);
            }
            pixels.push(mapped[src + x]);
            x = x + 1;
        }
        y = y + 1;
    }
    proof {
        if pixels@.len() < size {
            assert(y == rows.count);
        }
    }
    while pixels.len() < size
        invariant
            pixels@.len() <= size,
            pixels@.len() < size ==> pixels@.len() >= rows.count * rows.row,
            forall|i: int|
                0 <= i < pixels@.len() ==> #[trigger] pixels@[i] == unpadded(
                    mapped@,
                    rows,
                    size as nat,
                )[i],
        decreases size - pixels@.len(),
    {
        pixels.push(0);
    }
    assert(pixels@ =~= unpadded(mapped@, rows, size as nat));
    pixels
}

/// A color attachment of a framebuffer.
#[derive(Clone, Copy, Debug, PartialEq, Eq, Structural)]
pub struct ColorAttachment {
    /// The shape of its texture.
    pub kind: GpuTextureKind,
    /// Whether the texture is one of this backend's.
    pub of_this_backend: bool,
}

/// A copy of a texture into a read buffer.
#[derive(Clone, Copy, Debug, PartialEq, Eq, Structural)]
pub struct Transfer {
    /// Commands recorded before are submitted first: the copy must see everything drawn by them.
    pub submit: bool,
    /// The size of the buffer to make in place of the one there is, which is too small.
    pub recreate: Option<u64>,
    pub bytes_per_row: u32,
    pub rows_per_image: u32,
    pub width: u32,
    pub height: u32,
}

/// The buffer to create for reading pixels back.
pub struct ReadBufferCreation {
    pub label: Option<String>,
    pub size: u64,
}

/// Asynchronous pixel readback from a framebuffer's color attachment to memory that the processor
/// can read.
///
/// Copied rows are padded, so the buffer grows when a transfer needs more room than the pixels
/// themselves.
pub struct WgpuAsyncReadBuffer {
    /// The size of the buffer that pixels are copied into.
    pub buffer: u64,
    pub pixel_count: usize,
    pub pixel_size: usize,
    pub request_pending: bool,
    pub size_bytes: usize,
    /// The rows of the scheduled transfer.
    pub rows: Rows,
}

/// What is wrong with a color attachment, if it cannot be read back.
pub open spec fn transfer_error(
    error: FrameworkError,
    server_alive: bool,
    attachments: Seq<ColorAttachment>,
    index: int,
) -> bool {
    if !server_alive {
        error is GraphicsServerUnavailable
    } else if index >= attachments.len() {
        error.says("No color attachment"@)
    } else if !attachments[index].of_this_backend {
        error.says("Expected WgpuTexture"@)
    } else {
        error.says("Only rectangular textures"@)
    }
}

/// The color attachment can be read back.
pub open spec fn readable(
    server_alive: bool,
    attachments: Seq<ColorAttachment>,
    index: int,
) -> bool {
    &&& server_alive
    &&& index < attachments.len()
    &&& attachments[index].of_this_backend
    &&& attachments[index].kind is Rectangle
}

/// The size of an image and of its padded rows are numbers that this machine can hold.
pub open spec fn transferable(kind: GpuTextureKind, pixel_size: usize) -> bool {
    match kind {
        GpuTextureKind::Rectangle { width, height } => {
            &&& rounded_up(width * pixel_size, 256) <= usize::MAX
            &&& Rows::of(width, height, pixel_size).extent() <= usize::MAX
        },
        _ => true,
    }
}

/// True if the size of an image and of its padded rows are numbers that this machine can hold.
pub fn can_transfer(kind: GpuTextureKind, pixel_size: usize) -> (result: bool)
    ensures
        result == transferable(kind, pixel_size),
{
    let (width, height): (usize, usize) = match kind {
        GpuTextureKind::Rectangle { width, height } => (width, height),
        _ => {
            return true;
        },
    };
    let w: u128 = width as u128;
    let size: u128 = pixel_size as u128;
    proof {
        assert(0 <= w * size <= 0xffff_ffff_ffff_ffff * 0xffff_ffff_ffff_ffff) by (nonlinear_arith)
            requires
                0 <= w <= 0xffff_ffff_ffff_ffff,
                0 <= size <= 0xffff_ffff_ffff_ffff,
        ;
        lemma_rounded_up(w * size, 256);
    }
    let row: u128 = w * size;
    let padded_row: u128 = if row % 256 == 0 {
        row
    } else {
        row + (256 - row % 256)
    };
    if padded_row > usize::MAX as u128 {
        return false;
    }
    if height == 0 {
        return true;
    }
    let before: u128 = (height - 1) as u128;
    proof {
        assert(0 <= padded_row * before <= 0xffff_ffff_ffff_ffff * 0xffff_ffff_ffff_fffe)
            by (nonlinear_arith)
            requires
                0 <= padded_row <= 0xffff_ffff_ffff_ffff,
                0 <= before <= 0xffff_ffff_ffff_fffe,
        ;
    }
    padded_row * before + row <= usize::MAX as u128
}

/// A message as an error.
fn custom(message: &str) -> (error: FrameworkError)
    ensures
        error.says(message@),
{
    FrameworkError::Custom(message.to_owned())
}

/// `this` is a read buffer for that many pixels of that size, and `creation` is what to create for it.
pub open spec fn is_made_for(
    this: WgpuAsyncReadBuffer,
    creation: ReadBufferCreation,
    server: WgpuGraphicsServer,
    name: Seq<char>,
    pixel_size: usize,
    pixel_count: usize,
) -> bool {
    &&& this.well_formed()
    &&& this.pixel_size == pixel_size
    &&& this.pixel_count == pixel_count
    &&& !this.request_pending
    &&& this.buffer == creation.size
    &&& creation.size == if pixel_count * pixel_size == 0 {
        1
    } else {
        pixel_count * pixel_size
    }
    &&& server.named_objects ==> creation.label is Some && creation.label->0@ == name
    &&& !server.named_objects ==> creation.label is None
}

/// What comes of asking `before` for a transfer: `after` and `result`.
pub open spec fn is_scheduled(
    before: WgpuAsyncReadBuffer,
    after: WgpuAsyncReadBuffer,
    result: Result<Option<Transfer>, FrameworkError>,
    server_alive: bool,
    attachments: Seq<ColorAttachment>,
    index: int,
) -> bool {
    &&& after.pixel_size == before.pixel_size
    &&& after.pixel_count == before.pixel_count
    &&& result is Err <==> !before.request_pending && !readable(server_alive, attachments, index)
    &&& result matches Err(error) ==> transfer_error(error, server_alive, attachments, index)
        && after == before
    &&& before.request_pending ==> (result matches Ok(None)) && after == before
    &&& !before.request_pending && result is Ok ==> {
        let kind = attachments[index].kind;
        let rows = Rows::of(kind->Rectangle_width, kind->Rectangle_height, before.pixel_size);
        &&& result->Ok_0 == Some(
            Transfer {
                submit: true,
                recreate: if rows.extent() > before.buffer {
                    Some(rows.extent() as u64)
                } else {
                    None
                },
                bytes_per_row: low_bits(rows.padded_row as int),
                rows_per_image: low_bits(rows.count as int),
                width: low_bits(kind->Rectangle_width as int),
                height: low_bits(rows.count as int),
            },
        )
        &&& after.request_pending
        &&& after.rows == rows
        &&& after.buffer == if rows.extent() > before.buffer {
            rows.extent()
        } else {
            before.buffer as nat
        }
    }
}

/// `len` is how many bytes of the buffer to map.
pub open spec fn is_length_to_map(
    this: WgpuAsyncReadBuffer,
    server_alive: bool,
    len: Option<u64>,
) -> bool {
    &&& len is Some <==> this.request_pending && server_alive
    &&& len matches Some(n) ==> 1 <= n <= this.buffer && n == if this.rows.extent() == 0 {
        1
    } else {
        this.rows.extent()
    }
}

/// What comes of reading `before` out of what was mapped: `after` and `pixels`.
pub open spec fn is_read(
    before: WgpuAsyncReadBuffer,
    after: WgpuAsyncReadBuffer,
    mapped: Option<&[u8]>,
    pixels: Option<Vec<u8>>,
) -> bool {
    &&& !after.request_pending
    &&& after.buffer == before.buffer
    &&& after.pixel_size == before.pixel_size
    &&& after.pixel_count == before.pixel_count
    &&& after.rows == before.rows
    &&& pixels is Some <==> before.request_pending && mapped is Some
    &&& pixels matches Some(p) ==> p@ == unpadded(
        mapped->0@,
        before.rows,
        before.size_bytes as nat,
    )
}

impl WgpuAsyncReadBuffer {
    /// The buffer has room for the transfer that is scheduled.
    pub open spec fn well_formed(&self) -> bool {
        &&& self.buffer >= 1
        &&& self.size_bytes == self.pixel_count * self.pixel_size
        &&& self.request_pending ==> self.rows.well_formed() && self.rows.extent() <= self.buffer
    }

    /// Creates a new async read buffer with enough capacity for `pixel_count` pixels
    /// of `pixel_size` bytes each.
    pub fn new(
        server: &WgpuGraphicsServer,
        name: &str,
        pixel_size: usize,
        pixel_count: usize,
    ) -> (result: Result<(Self, ReadBufferCreation), FrameworkError>)
        requires
            pixel_count * pixel_size <= usize::MAX,
        ensures
            result is Ok,
            result matches Ok((this, creation)) ==> is_made_for(
                this,
                creation,
                *server,
                name@,
                pixel_size,
                pixel_count,
            ),
    {
        proof {
            assert(0 <= pixel_count * pixel_size) by (nonlinear_arith);
        }
        let size_bytes: usize = pixel_count * pixel_size;
        let size: u64 = if size_bytes == 0 {
            1
        } else {
            size_bytes as u64
        };
        let label: Option<String> = if server.named_objects {
            Some(name.to_owned())
        } else {
            None
        };
        let this = WgpuAsyncReadBuffer {
            buffer: size,
            pixel_count,
            pixel_size,
            request_pending: false,
            size_bytes,
            rows: Rows { count: 0, row: 0, padded_row: 0 },
        };
        Ok((this, ReadBufferCreation { label, size }))
    }

    /// Schedules a copy of a color attachment's pixels. While one is under way nothing is done.
    /// Otherwise the buffer is given room for the padded rows, if it has too little.
    pub fn schedule_pixels_transfer(
        &mut self,
        server_alive: bool,
        attachments: &[ColorAttachment],
        color_buffer_index: u32,
    ) -> (result: Result<Option<Transfer>, FrameworkError>)
        requires
            old(self).well_formed(),
            !old(self).request_pending && readable(
                server_alive,
                attachments@,
                color_buffer_index as int,
            ) ==> transferable(attachments@[color_buffer_index as int].kind, old(self).pixel_size),
        ensures
            final(self).well_formed(),
            final(self).pixel_size == old(self).pixel_size,
            final(self).pixel_count == old(self).pixel_count,
            is_scheduled(
                *old(self),
                *final(self),
                result,
                server_alive,
                attachments@,
                color_buffer_index as int,
            ),
    {
        if self.request_pending {
            return Ok(None);
        }
        if !server_alive {
            return Err(FrameworkError::GraphicsServerUnavailable);
        }
        let index: usize = color_buffer_index as usize;
        if index >= attachments.len() {
            return Err(custom("No color attachment"));
        }
        if !attachments[index].of_this_backend {
            return Err(custom("Expected WgpuTexture"));
        }
        let (width, height): (usize, usize) = match attachments[index].kind {
            GpuTextureKind::Rectangle { width, height } => (width, height),
            _ => {
                return Err(custom("Only rectangular textures"));
            },
        };
        let ghost expected = Rows::of(width, height, self.pixel_size);
        proof {
            let size = self.pixel_size;
            assert(0 <= width * size) by (nonlinear_arith);
            lemma_rounded_up(width * size, 256);
        }
        let row: usize = width * self.pixel_size;
        let padded_row: usize = round_up(row, copy_row_alignment() as usize);
        let rows = Rows { count: height, row, padded_row };
        let needed: u64 = rows.copied() as u64;
        let recreate: Option<u64> = if needed > self.buffer {
            self.buffer = needed;
            Some(needed)
        } else {
            None
        };
        self.rows = rows;
        self.request_pending = true;
        Ok(
            Some(
                Transfer {
                    submit: true,
                    recreate,
                    bytes_per_row: low_word(padded_row as u64),
                    rows_per_image: low_word(height as u64),
                    width: low_word(width as u64),
                    height: low_word(height as u64),
                },
            ),
        )
    }

    /// Whether a transfer is under way.
    pub fn is_request_running(&self) -> (running: bool)
        ensures
            running == self.request_pending,
    {
        self.request_pending
    }

    /// How many bytes of the buffer to map in order to read it, or [`None`] if there is nothing to
    /// read or no server to read it from.
    pub fn bytes_to_map(&self, server_alive: bool) -> (len: Option<u64>)
        requires
            self.well_formed(),
        ensures
            is_length_to_map(*self, server_alive, len),
    {
        if !self.request_pending || !server_alive {
            return None;
        }
        let copied: u64 = self.rows.copied() as u64;
        if copied == 0 {
            Some(1)
        } else {
            Some(copied)
        }
    }

    /// Ends the transfer, if one is under way: returns the pixels in what was mapped, without
    /// padding, or [`None`] if nothing could be mapped.
    pub fn try_read(&mut self, mapped: Option<&[u8]>) -> (pixels: Option<Vec<u8>>)
        requires
            old(self).well_formed(),
            old(self).request_pending && mapped is Some ==> {
                &&& old(self).rows.extent() <= mapped->0@.len()
                &&& old(self).rows.start_within(old(self).size_bytes)
            },
        ensures
            final(self).well_formed(),
            is_read(*old(self), *final(self), mapped, pixels),
    {
        if !self.request_pending {
            return None;
        }
        self.request_pending = false;
        match mapped {
            Some(bytes) => Some(unpad_rows(bytes, self.rows, self.size_bytes)),
            None => None,
        }
    }
}

/// Rows are padded to a multiple of 256 bytes, by less than that.
pub proof fn law_rows_are_padded(width: usize, height: usize, pixel_size: usize)
    requires
        transferable(GpuTextureKind::Rectangle { width, height }, pixel_size),
    ensures
        ({
            let rows = Rows::of(width, height, pixel_size);
            &&& rows.well_formed()
            &&& rows.row == width * pixel_size
            &&& rows.padded_row % 256 == 0
            &&& rows.row <= rows.padded_row < rows.row + 256
        }),
{
    assert(0 <= width * pixel_size) by (nonlinear_arith);
    lemma_rounded_up(width * pixel_size, 256);
}

/// An image of no more pixels than a read buffer was made for can be read into it.
pub proof fn law_images_that_fit_can_be_read(
    width: usize,
    height: usize,
    pixel_size: usize,
    pixel_count: usize,
)
    requires
        transferable(GpuTextureKind::Rectangle { width, height }, pixel_size),
        pixel_count * pixel_size <= usize::MAX,
        width * height <= pixel_count,
    ensures
        Rows::of(width, height, pixel_size).start_within((pixel_count * pixel_size) as usize),
{
    law_rows_are_padded(width, height, pixel_size);
    if height > 0 {
        assert((height - 1) * (width * pixel_size) <= pixel_count * pixel_size) by (nonlinear_arith)
            requires
                width * height <= pixel_count,
                width >= 0,
                height > 0,
                pixel_size >= 0,
        ;
        assert(0 <= pixel_count * pixel_size) by (nonlinear_arith);
    }
}

/// What is read back is what was copied: where the rows of an image were put into the buffer with
/// padding between them, taking the padding out gives the image.
pub proof fn law_images_read_back(image: Seq<u8>, mapped: Seq<u8>, rows: Rows)
    requires
        image.len() == rows.count * rows.row,
        forall|y: int, x: int|
            #![trigger mapped[y * rows.padded_row + x]]
            0 <= y < rows.count && 0 <= x < rows.row ==> mapped[y * rows.padded_row + x]
                == image[y * rows.row + x],
    ensures
        unpadded(mapped, rows, image.len()) == image,
{
    let row = rows.row as int;
    let count = rows.count as int;
    let result = unpadded(mapped, rows, image.len());
    assert forall|i: int| 0 <= i < image.len() implies #[trigger] result[i] == image[i] by {
        assert(row > 0) by (nonlinear_arith)
            requires
                0 <= i < count * row,
                count >= 0,
                row >= 0,
        ;
        let y = i / row;
        let x = i % row;
        lemma_fundamental_div_mod(i, row);
        assert(0 <= y < count) by (nonlinear_arith)
            requires
                0 <= i < count * row,
                i == row * y + x,
                0 <= x < row,
        ;
        assert(row * y == y * row) by (nonlinear_arith);
        assert(mapped[y * rows.padded_row + x] == image[y * row + x]);
    }
    assert(result =~= image);
}

/// A new read buffer has room for all its pixels, at least one byte, and nothing under way. It has
/// its name just if objects are given names at all.
pub proof fn law_new_read_buffers_hold_their_pixels(
    this: WgpuAsyncReadBuffer,
    creation: ReadBufferCreation,
    server: WgpuGraphicsServer,
    name: Seq<char>,
    pixel_size: usize,
    pixel_count: usize,
)
    requires
        is_made_for(this, creation, server, name, pixel_size, pixel_count),
    ensures
        creation.size >= 1,
        creation.size >= pixel_count * pixel_size,
        creation.size > 1 ==> creation.size == pixel_count * pixel_size,
        this.buffer == creation.size,
        this.size_bytes == pixel_count * pixel_size,
        this.pixel_size == pixel_size,
        !this.request_pending,
        match creation.label {
            Some(label) => server.named_objects && label@ == name,
            None => !server.named_objects,
        },
{
}

/// Each thing that can be wrong with a transfer has its own error, and the first of them is the one
/// that is returned. A transfer that is under way is left alone whatever is asked for.
pub proof fn law_each_fault_has_its_error(
    before: WgpuAsyncReadBuffer,
    after: WgpuAsyncReadBuffer,
    result: Result<Option<Transfer>, FrameworkError>,
    server_alive: bool,
    attachments: Seq<ColorAttachment>,
    index: int,
)
    requires
        is_scheduled(before, after, result, server_alive, attachments, index),
        0 <= index,
    ensures
        before.request_pending ==> (result matches Ok(transfer) && transfer is None),
        !before.request_pending && !server_alive ==> (result matches Err(error)
            && error is GraphicsServerUnavailable),
        !before.request_pending && server_alive && index >= attachments.len() ==> (
        result matches Err(error) && error.says("No color attachment"@)),
        !before.request_pending && server_alive && index < attachments.len()
            && !attachments[index].of_this_backend ==> (result matches Err(error) && error.says(
            "Expected WgpuTexture"@,
        )),
        !before.request_pending && server_alive && index < attachments.len()
            && attachments[index].of_this_backend && !(attachments[index].kind is Rectangle) ==> (
        result matches Err(error) && error.says("Only rectangular textures"@)),
        !before.request_pending && server_alive && index < attachments.len()
            && attachments[index].of_this_backend && attachments[index].kind is Rectangle ==> (
        result matches Ok(transfer) && transfer is Some),
        result is Err || before.request_pending ==> after == before,
{
}

/// A transfer copies the whole image: as many rows as it is high, each as wide as it is, each
/// starting at the first multiple of 256 bytes at which the one before it has ended. It follows the
/// commands recorded before, and fits the buffer, which is made again just if it was too small.
pub proof fn law_transfers_copy_whole_images(
    before: WgpuAsyncReadBuffer,
    after: WgpuAsyncReadBuffer,
    result: Result<Option<Transfer>, FrameworkError>,
    server_alive: bool,
    attachments: Seq<ColorAttachment>,
    index: int,
    width: usize,
    height: usize,
)
    requires
        is_scheduled(before, after, result, server_alive, attachments, index),
        !before.request_pending,
        readable(server_alive, attachments, index),
        attachments[index].kind == (GpuTextureKind::Rectangle { width, height }),
        transferable(attachments[index].kind, before.pixel_size),
        width <= u32::MAX,
        height <= u32::MAX,
        width * before.pixel_size <= u32::MAX - 256,
        height * (width * before.pixel_size + 256) <= u64::MAX,
    ensures
        result matches Ok(transfer) && transfer matches Some(t) && {
            let row = width * before.pixel_size;
            let needed = if height == 0 {
                0
            } else {
                t.bytes_per_row * (height - 1) + row
            };
            &&& t.submit
            &&& t.width == width
            &&& t.height == height
            &&& t.rows_per_image == height
            &&& t.bytes_per_row % 256 == 0
            &&& row <= t.bytes_per_row < row + 256
            &&& t.recreate is Some <==> needed > before.buffer
            &&& t.recreate matches Some(size) ==> size == needed && after.buffer == needed
            &&& t.recreate is None ==> after.buffer == before.buffer
            &&& needed <= after.buffer
            &&& after.request_pending
            &&& after.rows.count == height
            &&& after.rows.row == row
            &&& after.rows.padded_row == t.bytes_per_row
            &&& after.pixel_size == before.pixel_size
        },
{
    let size = before.pixel_size as int;
    law_rows_are_padded(width, height, before.pixel_size);
    law_low_bits_are_what_is_left(width as int);
    law_low_bits_are_what_is_left(height as int);
    let rows = Rows::of(width, height, before.pixel_size);
    law_low_bits_are_what_is_left(rows.padded_row as int);
    let padded = rows.padded_row as int;
    let row = rows.row as int;
    let h = height as int;
    if height > 0 {
        assert(0 <= padded * (h - 1) && padded * (h - 1) + row <= h * (row + 256))
            by (nonlinear_arith)
            requires
                h > 0,
                0 <= row <= padded < row + 256,
        ;
    }
}

/// What has to be mapped is all that was copied, and at least one byte; nothing is mapped when no
/// transfer is under way or there is no server.
pub proof fn law_all_that_was_copied_is_mapped(
    this: WgpuAsyncReadBuffer,
    server_alive: bool,
    len: Option<u64>,
)
    requires
        this.well_formed(),
        is_length_to_map(this, server_alive, len),
    ensures
        len is None <==> !this.request_pending || !server_alive,
        len matches Some(n) ==> {
            let rows = this.rows;
            let copied = if rows.count == 0 {
                0
            } else {
                rows.padded_row * (rows.count - 1) + rows.row
            };
            &&& n >= 1
            &&& n >= copied
            &&& n > 1 ==> n == copied
        },
{
}

/// Reading ends the transfer, and gives pixels just if one was under way and could be mapped. Pixel
/// data is as long as the buffer was made for; byte `x` of row `y` of the image comes from row `y` of
/// what was mapped, and whatever the image does not fill is zero.
pub proof fn law_pixels_come_from_their_rows(
    before: WgpuAsyncReadBuffer,
    after: WgpuAsyncReadBuffer,
    mapped: Option<&[u8]>,
    pixels: Option<Vec<u8>>,
    y: int,
    x: int,
    i: int,
)
    requires
        is_read(before, after, mapped, pixels),
        0 <= y < before.rows.count,
        0 <= x < before.rows.row,
    ensures
        !after.request_pending,
        pixels is None <==> !before.request_pending || mapped is None,
        pixels matches Some(p) ==> {
            &&& p@.len() == before.size_bytes
            &&& y * before.rows.row + x < before.size_bytes ==> p@[y * before.rows.row + x]
                == mapped->0@[y * before.rows.padded_row + x]
            &&& before.rows.count * before.rows.row <= i < before.size_bytes ==> p@[i] == 0
        },
{
    let row = before.rows.row as int;
    let count = before.rows.count as int;
    let k = y * row + x;
    lemma_fundamental_div_mod_converse(k, row, y, x);
    assert(0 <= y * row && y * row + row <= count * row) by (nonlinear_arith)
        requires
            0 <= y < count,
            row > 0,
    ;
    assert(0 <= count * row);
}

/// Whatever takes up no more bytes, with its padding, than this machine can count can be transferred.
pub proof fn law_ordinary_images_can_be_transferred(width: usize, height: usize, pixel_size: usize)
    requires
        width * pixel_size + 256 <= usize::MAX,
        height * (width * pixel_size + 256) <= usize::MAX,
    ensures
        transferable(GpuTextureKind::Rectangle { width, height }, pixel_size),
{
    let row = width * pixel_size;
    assert(0 <= row) by (nonlinear_arith)
        requires
            row == width * pixel_size,
    ;
    lemma_rounded_up(row, 256);
    let padded = rounded_up(row, 256);
    let h = height as int;
    if height > 0 {
        assert(0 <= padded * (h - 1) && padded * (h - 1) + row <= h * (row + 256))
            by (nonlinear_arith)
            requires
                h > 0,
                0 <= row <= padded < row + 256,
        ;
    }
}

/// What a transfer hands to the graphics card are the low 32 bits of the image's sizes.
pub proof fn law_transfers_take_low_bits(
    before: WgpuAsyncReadBuffer,
    after: WgpuAsyncReadBuffer,
    result: Result<Option<Transfer>, FrameworkError>,
    server_alive: bool,
    attachments: Seq<ColorAttachment>,
    index: int,
    width: usize,
    height: usize,
)
    requires
        is_scheduled(before, after, result, server_alive, attachments, index),
        !before.request_pending,
        readable(server_alive, attachments, index),
        attachments[index].kind == (GpuTextureKind::Rectangle { width, height }),
        transferable(attachments[index].kind, before.pixel_size),
    ensures
        result matches Ok(transfer) && transfer matches Some(t) && {
            &&& (width - t.width) % 4294967296 == 0
            &&& (height - t.height) % 4294967296 == 0
            &&& t.rows_per_image == t.height
            &&& (after.rows.padded_row - t.bytes_per_row) % 4294967296 == 0
            &&& after.rows.row == width * before.pixel_size
            &&& after.rows.count == height
        },
{
    law_rows_are_padded(width, height, before.pixel_size);
    law_low_bits_are_what_is_left(width as int);
    law_low_bits_are_what_is_left(height as int);
    law_low_bits_are_what_is_left(
        Rows::of(width, height, before.pixel_size).padded_row as int,
    );
}

/// An image can be transferred only if its rows, each at the first multiple of 256 bytes from where
/// the one before it ended, can be counted. Whatever is no rectangle is not transferred at all. Rows
/// start within a buffer if all before the last, put together, take up no more bytes than it has.
pub proof fn law_images_have_to_be_counted(
    kind: GpuTextureKind,
    pixel_size: usize,
    rows: Rows,
    size: usize,
)
    ensures
        !(kind is Rectangle) ==> transferable(kind, pixel_size),
        kind matches GpuTextureKind::Rectangle { width, height } ==> (transferable(kind, pixel_size)
            ==> width * pixel_size <= usize::MAX && (height > 0 ==> (height - 1) * (width
            * pixel_size) + width * pixel_size <= usize::MAX)),
        rows.start_within(size) <==> rows.count == 0 || rows.row * (rows.count - 1) <= size,
        rows.count > 0 ==> rows.extent() == (rows.count - 1) * rows.padded_row + rows.row,
        rows.count == 0 ==> rows.extent() == 0,
{
    let n = rows.count - 1;
    let row = rows.row as int;
    let padded_row = rows.padded_row as int;
    assert(n * row == row * n && n * padded_row == padded_row * n) by (nonlinear_arith);
    assert(n >= 0 ==> padded_row * n >= 0) by (nonlinear_arith)
        requires
            padded_row >= 0,
    ;
    if let GpuTextureKind::Rectangle { width, height } = kind {
        if transferable(kind, pixel_size) {
            law_rows_are_padded(width, height, pixel_size);
            let r = Rows::of(width, height, pixel_size);
            let before = height - 1;
            let short = r.row as int;
            let long = r.padded_row as int;
            if height > 0 {
                assert(before * short <= long * before && 0 <= long * before) by (nonlinear_arith)
                    requires
                        before >= 0,
                        0 <= short <= long,
                ;
            }
        }
    }
}

} // verus!
