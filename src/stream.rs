//! Tile streaming over the serial link.
//!
//! A request is a frame of the escape byte, a command code and its
//! arguments. The reply to `GetImg` is the tile's origin `x, y`, then its
//! pixels as little-endian RGB-565 words, pulled in chunks: before each chunk
//! the receiver sends one ready byte. The decisions live in [`TileLoader`], a
//! state machine that says what to send and how much to read next; the caller
//! moves the bytes and reports back.

use vstd::prelude::*;

verus! {

pub const SQUARE_WIDTH: usize = 128;

pub const SQUARE_HEIGHT: usize = 128;

/// Bytes pulled per ready byte.
pub const BUF_SIZE: usize = 1024;

/// Opens every command frame; never the first byte of a reply.
pub const ESCAPE: u8 = 0xFF;

/// Sent by the receiver before each chunk of pixel data.
pub const READY: u8 = 0xAA;

pub enum Command {
    GetNumImg,
    GetImg,
    Escaped,
}

/// The wire code of a command.
pub open spec fn command_code(c: Command) -> u8 {
    match c {
        Command::GetNumImg => 0x01,
        Command::GetImg => 0x02,
        Command::Escaped => ESCAPE,
    }
}

impl From<Command> for u8 {
    fn from(value: Command) -> u8 {
        match value {
            Command::GetNumImg => 0x01,
            Command::GetImg => 0x02,
            Command::Escaped => ESCAPE,
        }
    }
}

impl vstd::std_specs::convert::FromSpecImpl<Command> for u8 {
    open spec fn obeys_from_spec() -> bool {
        true
    }

    open spec fn from_spec(v: Command) -> u8 {
        command_code(v)
    }
}

/// The 16-bit value whose low byte is `lo` and high byte is `hi`.
pub open spec fn le_u16(lo: u8, hi: u8) -> u16 {
    (hi as int * 0x100 + lo as int) as u16
}

/// `num` as two bytes, least significant first.
pub open spec fn le_bytes(num: u16) -> Seq<u8> {
    seq![(num % 0x100) as u8, (num / 0x100) as u8]
}

/// Splits `num` into its low and high byte.
pub fn to_u8(num: u16) -> (r: [u8; 2])
    ensures
        r@ == le_bytes(num),
{
    assert((num & 0x00FF) as u8 == (num % 0x100) as u8 && ((num & 0xFF00) >> 8) as u8 == (num
        / 0x100) as u8) by (bit_vector);
    let r = [(num & 0x00FF) as u8, ((num & 0xFF00) >> 8) as u8];
    assert(r@ =~= le_bytes(num));
    r
}

fn join_le(lo: u8, hi: u8) -> (r: u16)
    ensures
        r == le_u16(lo, hi),
{
    assert(((hi as u16) << 8) | (lo as u16) == (hi as int * 0x100 + lo as int) as u16)
        by (bit_vector);
    ((hi as u16) << 8) | (lo as u16)
}

/// Reads a little-endian 16-bit value from the first two bytes of `arr`.
#[inline]
pub fn to_u16(arr: &[u8]) -> (r: u16)
    requires
        arr@.len() >= 2,
    ensures
        r == le_u16(arr@[0], arr@[1]),
{
    join_le(arr[0], arr[1])
}

/// Reads a big-endian 16-bit value from the first two bytes of `arr`.
#[inline]
pub fn to_u16_msb(arr: &[u8]) -> (r: u16)
    requires
        arr@.len() >= 2,
    ensures
        r == le_u16(arr@[1], arr@[0]),
{
    join_le(arr[1], arr[0])
}

/// Encoding a value and decoding the two bytes gives the value back, and
/// decoding two bytes and encoding the value gives the bytes back.
pub proof fn lemma_index_round_trip(num: u16, lo: u8, hi: u8)
    ensures
        le_u16(le_bytes(num)[0], le_bytes(num)[1]) == num,
        le_bytes(le_u16(lo, hi)) == seq![lo, hi],
{
    assert(le_bytes(le_u16(lo, hi)) =~= seq![lo, hi]);
}

/// The frame that asks for the number of images.
pub open spec fn count_frame() -> Seq<u8> {
    seq![ESCAPE, command_code(Command::GetNumImg)]
}

/// The frame that asks for tile `index`.
pub open spec fn tile_frame(index: u16) -> Seq<u8> {
    seq![ESCAPE, command_code(Command::GetImg)] + le_bytes(index)
}

pub fn count_command() -> (r: [u8; 2])
    ensures
        r@ == count_frame(),
{
    let r = [u8::from(Command::Escaped), u8::from(Command::GetNumImg)];
    assert(r@ =~= count_frame());
    r
}

pub fn tile_command(index: u16) -> (r: [u8; 4])
    ensures
        r@ == tile_frame(index),
{
    let split = to_u8(index);
    let r = [u8::from(Command::Escaped), u8::from(Command::GetImg), split[0], split[1]];
    assert(r@ =~= tile_frame(index));
    r
}

/// A fault that the serial peripheral reports on a read.
#[derive(Clone, Copy, Debug, PartialEq, Eq, Structural)]
pub enum LinkError {
    Framing,
    Parity,
    Overrun,
}

#[derive(Clone, Copy, Debug, PartialEq, Eq, Structural)]
pub enum StreamError {
    /// A read failed; nothing of the request is kept.
    TransferAborted,
    /// The display refused the tile.
    DisplayWriteError,
}

/// Decodes the reply to the count query: the number of images,
/// little-endian. A failed read aborts the query.
pub fn get_num_images(reply: Result<[u8; 2], LinkError>) -> (r: Result<u16, StreamError>)
    ensures
        reply is Ok ==> r == Ok::<u16, StreamError>(
            le_u16(reply->Ok_0@[0], reply->Ok_0@[1]),
        ),
        reply is Err ==> r == Err::<u16, StreamError>(StreamError::TransferAborted),
{
    match reply {
        Ok(rd_buf) => Ok(to_u16(&rd_buf)),
        Err(_) => Err(StreamError::TransferAborted),
    }
}

/// Where a tile lands on the display.
#[derive(Clone, Copy, Debug, PartialEq, Eq, Structural)]
pub struct ImageContainer {
    pub x: u16,
    pub y: u16,
}

/// The fixed shape that both ends of the link agree on: a tile of
/// `width * height` pixels, pulled `chunk` bytes at a time.
#[derive(Clone, Copy, Debug, PartialEq, Eq, Structural)]
pub struct TileFormat {
    pub width: u16,
    pub height: u16,
    pub chunk: usize,
}

impl TileFormat {
    /// Sides up to 0x8000 keep the tile's corners within 16-bit display
    /// coordinates; an even chunk holds whole pixels.
    pub open spec fn wf(&self) -> bool {
        &&& 1 <= self.width <= 0x8000
        &&& 1 <= self.height <= 0x8000
        &&& 2 <= self.chunk
        &&& self.chunk % 2 == 0
    }

    pub open spec fn pixel_count(&self) -> nat {
        (self.width * self.height) as nat
    }

    /// Bytes of pixel data in one tile.
    pub open spec fn payload_len(&self) -> nat {
        2 * self.pixel_count()
    }

    /// Length of the chunk that follows `filled` bytes of pixel data.
    pub open spec fn chunk_len_at(&self, filled: nat) -> nat {
        if filled + self.chunk <= self.payload_len() {
            self.chunk as nat
        } else {
            (self.payload_len() - filled) as nat
        }
    }

    /// The format of the boosterpack's display: 128 by 128 pixels.
    pub fn standard() -> (r: TileFormat)
        ensures
            r.wf(),
            r.width == SQUARE_WIDTH,
            r.height == SQUARE_HEIGHT,
            r.chunk == BUF_SIZE,
    {
        TileFormat { width: SQUARE_WIDTH as u16, height: SQUARE_HEIGHT as u16, chunk: BUF_SIZE }
    }

    proof fn lemma_payload_len_bound(&self)
        requires
            self.wf(),
        ensures
            self.payload_len() <= 0x8000_0000,
    {
        let w = self.width as int;
        let h = self.height as int;
        assert(w * h <= 0x4000_0000) by (nonlinear_arith)
            requires
                0 <= w <= 0x8000,
                0 <= h <= 0x8000,
        ;
    }

    fn exec_payload_len(&self) -> (r: usize)
        requires
            self.wf(),
        ensures
            r == self.payload_len(),
    {
        proof {
            self.lemma_payload_len_bound();
        }
        2 * (self.width as usize * self.height as usize)
    }
}

/// The pixels that `payload` carries: each pair of bytes is one
/// little-endian RGB-565 word, row by row.
pub open spec fn tile_pixels(payload: Seq<u8>) -> Seq<u16> {
    Seq::new(payload.len() / 2, |j: int| le_u16(payload[2 * j], payload[2 * j + 1]))
}

#[derive(Clone, Copy, Debug, PartialEq, Eq, Structural)]
pub enum Stage {
    /// No request in flight.
    Idle,
    /// The command went out; the origin comes next.
    AwaitOrigin,
    /// Pixel data is arriving.
    AwaitChunk,
    /// The whole tile is here and waits for the display.
    AwaitDraw,
}

/// What the caller does next for the request in flight.
#[derive(Debug)]
pub enum Action {
    /// Write `send`, then read exactly `receive` bytes and hand them to
    /// [`TileLoader::on_bytes`], or the read's fault to
    /// [`TileLoader::on_link_error`].
    Exchange { send: Vec<u8>, receive: usize },
    /// Write [`TileLoader::pixels`] to the display rectangle with these
    /// corners, both included, and report to [`TileLoader::on_drawn`].
    Draw { left: u16, top: u16, right: u16, bottom: u16 },
    /// The request is over, with the tile's origin or the reason it failed.
    Finish(Result<ImageContainer, StreamError>),
}

/// `a` says to write `send` and then read `receive` bytes.
pub open spec fn is_exchange(a: Action, send: Seq<u8>, receive: nat) -> bool {
    match a {
        Action::Exchange { send: s, receive: n } => s@ == send && n == receive,
        _ => false,
    }
}

/// The display rectangle of a tile with origin `o`.
pub open spec fn draw_action(o: ImageContainer, f: TileFormat) -> Action {
    Action::Draw {
        left: o.x,
        top: o.y,
        right: (o.x + f.width - 1) as u16,
        bottom: (o.y + f.height - 1) as u16,
    }
}

pub open spec fn aborted() -> Action {
    Action::Finish(Err(StreamError::TransferAborted))
}

/// Receiving side of tile requests. Its pixel buffer is allocated once and
/// reused: each request overwrites it from the start.
pub struct TileLoader {
    format: TileFormat,
    stage: Stage,
    origin: ImageContainer,
    /// Bytes of pixel data received for the current request.
    filled: usize,
    pixels: Vec<u16>,
    payload: Ghost<Seq<u8>>,
}

impl TileLoader {
    pub closed spec fn format(&self) -> TileFormat {
        self.format
    }

    pub closed spec fn stage(&self) -> Stage {
        self.stage
    }

    pub closed spec fn origin(&self) -> ImageContainer {
        self.origin
    }

    /// Pixel data received since the current or last request began.
    pub closed spec fn payload(&self) -> Seq<u8> {
        self.payload@
    }

    pub closed spec fn pixels_view(&self) -> Seq<u16> {
        self.pixels@
    }

    /// The whole tile of the current or last request has arrived.
    pub open spec fn is_complete(&self) -> bool {
        self.payload().len() == self.format().payload_len()
    }

    pub closed spec fn wf(&self) -> bool {
        &&& self.format.wf()
        &&& self.origin.x <= 0xFF
        &&& self.origin.y <= 0xFF
        &&& self.pixels@.len() == self.format.pixel_count()
        &&& self.filled == self.payload@.len()
        &&& self.filled <= self.format.payload_len()
        &&& self.filled % 2 == 0
        &&& forall|j: int|
            0 <= j < self.filled / 2 ==> self.pixels@[j] == #[trigger] tile_pixels(
                self.payload@,
            )[j]
        &&& self.stage == Stage::AwaitOrigin ==> self.filled == 0
        &&& self.stage == Stage::AwaitDraw ==> self.filled == self.format.payload_len()
    }

    /// A loader for tiles of `format`, with no request in flight.
    pub fn new(format: TileFormat) -> (r: TileLoader)
        requires
            format.wf(),
        ensures
            r.wf(),
            r.format() == format,
            r.stage() == Stage::Idle,
            r.payload() == Seq::<u8>::empty(),
            r.pixels_view() == Seq::new(format.pixel_count(), |i: int| 0u16),
    {
        let n = format.exec_payload_len() / 2;
        let r = TileLoader {
            format,
            stage: Stage::Idle,
            origin: ImageContainer { x: 0, y: 0 },
            filled: 0,
            pixels: vec![0u16; n],
            payload: Ghost(Seq::empty()),
        };
        assert(r.pixels@ =~= Seq::new(format.pixel_count(), |i: int| 0u16));
        r
    }

    /// The tile buffer, row by row.
    pub fn pixels(&self) -> (r: &[u16])
        ensures
            r@ == self.pixels_view(),
    {
        self.pixels.as_slice()
    }

    /// Starts the request for tile `index`, dropping any request in flight.
    pub fn begin(&mut self, index: u16) -> (r: Action)
        requires
            old(self).wf(),
        ensures
            final(self).wf(),
            final(self).format() == old(self).format(),
            final(self).stage() == Stage::AwaitOrigin,
            final(self).payload() == Seq::<u8>::empty(),
            is_exchange(r, tile_frame(index), 2),
    {
        self.stage = Stage::AwaitOrigin;
        self.filled = 0;
        self.payload = Ghost(Seq::empty());
        let frame = tile_command(index);
        let send = vec![frame[0], frame[1], frame[2], frame[3]];
        assert(send@ =~= tile_frame(index));
        Action::Exchange { send, receive: 2 }
    }

    /// Length of the next chunk to pull.
    fn next_chunk_len(&self) -> (r: usize)
        requires
            self.wf(),
        ensures
            r == self.format.chunk_len_at(self.filled as nat),
    {
        let remaining = self.format.exec_payload_len() - self.filled;
        if self.format.chunk <= remaining {
            self.format.chunk
        } else {
            remaining
        }
    }

    /// Signals readiness and asks for the next chunk.
    fn ready_exchange(&self) -> (r: Action)
        requires
            self.wf(),
        ensures
            is_exchange(r, seq![READY], self.format.chunk_len_at(self.filled as nat)),
    {
        let send = vec![READY];
        assert(send@ =~= seq![READY]);
        Action::Exchange { send, receive: self.next_chunk_len() }
    }

    /// Stores a chunk of pixel data after what has arrived.
    fn store_chunk(&mut self, bytes: &[u8])
        requires
            old(self).wf(),
            old(self).stage == Stage::AwaitChunk,
            bytes@.len() == old(self).format.chunk_len_at(old(self).filled as nat),
        ensures
            final(self).wf(),
            final(self).format == old(self).format,
            final(self).stage == old(self).stage,
            final(self).origin == old(self).origin,
            final(self).payload@ == old(self).payload@ + bytes@,
    {
        let ghost p = self.payload@ + bytes@;
        proof {
            self.format.lemma_payload_len_bound();
        }
        let base = self.filled / 2;
        let n = bytes.len() / 2;
        assert forall|j: int| 0 <= j < base implies #[trigger] tile_pixels(p)[j] == tile_pixels(
            self.payload@,
        )[j] by {
            assert(p[2 * j] == self.payload@[2 * j] && p[2 * j + 1] == self.payload@[2 * j + 1]);
        }
        let mut k: usize = 0;
        while k < n
            invariant
                self.format == old(self).format,
                self.stage == old(self).stage,
                self.origin == old(self).origin,
                self.filled == old(self).filled,
                self.payload@ == old(self).payload@,
                self.filled == self.payload@.len(),
                self.pixels@.len() == self.format.pixel_count(),
                base == self.filled / 2,
                n == bytes@.len() / 2,
                bytes@.len() % 2 == 0,
                self.filled % 2 == 0,
                self.filled + bytes@.len() <= self.format.payload_len(),
                self.format.payload_len() <= 0x8000_0000,
                p == self.payload@ + bytes@,
                0 <= k <= n,
                forall|j: int| 0 <= j < base + k ==> self.pixels@[j] == #[trigger] tile_pixels(p)[j],
            decreases n - k,
        {
            assert(2 * k + 1 < bytes@.len());
            let v = join_le(bytes[2 * k], bytes[2 * k + 1]);
            assert(2 * base == self.filled);
            assert(p[self.filled + 2 * k] == bytes@[2 * k]);
            assert(p[self.filled + 2 * k + 1] == bytes@[2 * k + 1]);
            assert(tile_pixels(p)[base + k] == v);
            self.pixels.set(base + k, v);
            k = k + 1;
        }
        self.filled = self.filled + bytes.len();
        self.payload = Ghost(p);
    }

    /// Handles the bytes that the last `Exchange` asked for. A reply of
    /// another length than asked for aborts the request.
    pub fn on_bytes(&mut self, bytes: &[u8]) -> (r: Action)
        requires
            old(self).wf(),
            old(self).stage() == Stage::AwaitOrigin || old(self).stage() == Stage::AwaitChunk,
        ensures
            final(self).wf(),
            final(self).format() == old(self).format(),
            old(self).stage() == Stage::AwaitOrigin ==> if bytes@.len() == 2 {
                &&& final(self).stage() == Stage::AwaitChunk
                &&& final(self).origin() == (ImageContainer {
                    x: bytes@[0] as u16,
                    y: bytes@[1] as u16,
                })
                &&& final(self).payload() == old(self).payload()
                &&& is_exchange(r, seq![READY], old(self).format().chunk_len_at(0))
            } else {
                &&& final(self).stage() == Stage::Idle
                &&& final(self).payload() == old(self).payload()
                &&& r == aborted()
            },
            old(self).stage() == Stage::AwaitChunk ==> if bytes@.len() == old(
                self,
            ).format().chunk_len_at(old(self).payload().len()) {
                &&& final(self).origin() == old(self).origin()
                &&& final(self).payload() == old(self).payload() + bytes@
                &&& if final(self).is_complete() {
                    &&& final(self).stage() == Stage::AwaitDraw
                    &&& final(self).pixels_view() == tile_pixels(final(self).payload())
                    &&& r == draw_action(old(self).origin(), old(self).format())
                } else {
                    &&& final(self).stage() == Stage::AwaitChunk
                    &&& is_exchange(
                        r,
                        seq![READY],
                        old(self).format().chunk_len_at(final(self).payload().len()),
                    )
                }
            } else {
                &&& final(self).stage() == Stage::Idle
                &&& final(self).payload() == old(self).payload()
                &&& r == aborted()
            },
    {
        match self.stage {
            Stage::AwaitOrigin => {
                if bytes.len() != 2 {
                    self.stage = Stage::Idle;
                    return Action::Finish(Err(StreamError::TransferAborted));
                }
                self.origin = ImageContainer { x: bytes[0] as u16, y: bytes[1] as u16 };
                self.stage = Stage::AwaitChunk;
                self.ready_exchange()
            },
            _ => {
                if bytes.len() != self.next_chunk_len() {
                    self.stage = Stage::Idle;
                    return Action::Finish(Err(StreamError::TransferAborted));
                }
                self.store_chunk(bytes);
                if self.filled == self.format.exec_payload_len() {
                    self.stage = Stage::AwaitDraw;
                    assert(self.pixels@ =~= tile_pixels(self.payload@));
                    Action::Draw {
                        left: self.origin.x,
                        top: self.origin.y,
                        right: self.origin.x + self.format.width - 1,
                        bottom: self.origin.y + self.format.height - 1,
                    }
                } else {
                    self.ready_exchange()
                }
            },
        }
    }

    /// A read failed: the request is dropped and nothing is drawn.
    pub fn on_link_error(&mut self, err: LinkError) -> (r: Action)
        requires
            old(self).wf(),
            old(self).stage() == Stage::AwaitOrigin || old(self).stage() == Stage::AwaitChunk,
        ensures
            final(self).wf(),
            final(self).format() == old(self).format(),
            final(self).payload() == old(self).payload(),
            final(self).stage() == Stage::Idle,
            r == aborted(),
    {
        self.stage = Stage::Idle;
        Action::Finish(Err(StreamError::TransferAborted))
    }

    /// The display took the tile (`ok`) or refused it.
    pub fn on_drawn(&mut self, ok: bool) -> (r: Action)
        requires
            old(self).wf(),
            old(self).stage() == Stage::AwaitDraw,
        ensures
            final(self).wf(),
            final(self).format() == old(self).format(),
            final(self).payload() == old(self).payload(),
            final(self).pixels_view() == old(self).pixels_view(),
            final(self).stage() == Stage::Idle,
            r == Action::Finish(
                if ok {
                    Ok(old(self).origin())
                } else {
                    Err(StreamError::DisplayWriteError)
                },
            ),
    {
        self.stage = Stage::Idle;
        if ok {
            Action::Finish(Ok(self.origin))
        } else {
            Action::Finish(Err(StreamError::DisplayWriteError))
        }
    }
}

/// Once a tile has fully arrived, the pixel at row `row` and column `col` is
/// the little-endian word of payload bytes `2 * (row * width + col)` and the
/// one after it.
pub proof fn lemma_pixel_at(t: &TileLoader, row: int, col: int)
    requires
        t.wf(),
        t.is_complete(),
        0 <= row < t.format().height,
        0 <= col < t.format().width,
    ensures
        ({
            let i = row * t.format().width + col;
            t.pixels_view()[i] == le_u16(t.payload()[2 * i], t.payload()[2 * i + 1])
        }),
{
    let w = t.format().width as int;
    let h = t.format().height as int;
    let i = row * w + col;
    assert(0 <= i < w * h) by (nonlinear_arith)
        requires
            0 <= row < h,
            0 <= col < w,
            i == row * w + col,
    ;
    assert(t.pixels_view()[i] == tile_pixels(t.payload())[i]);
}

/// Two loaders of one format that received the same pixel data for a whole
/// tile hold the same pixels, whatever their buffers held before.
pub proof fn lemma_same_reply_same_tile(a: &TileLoader, b: &TileLoader)
    requires
        a.wf(),
        b.wf(),
        a.format() == b.format(),
        a.is_complete(),
        a.payload() == b.payload(),
    ensures
        a.pixels_view() == b.pixels_view(),
{
    assert(a.pixels_view() =~= b.pixels_view()) by {
        assert forall|j: int| 0 <= j < a.pixels_view().len() implies a.pixels_view()[j]
            == b.pixels_view()[j] by {
            assert(a.pixels_view()[j] == tile_pixels(a.payload())[j]);
            assert(b.pixels_view()[j] == tile_pixels(b.payload())[j]);
        }
    }
}

} // verus!
