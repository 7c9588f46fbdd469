//! The engine of the firmware's frame buffer: its modes, its buffers, and what it shows.

use crate::display::{DisplayError, ModeInfo};
use crate::dma::{BuddyOrigin, DmaMappingView, OwnedDmaMapping};
use crate::fwcfg::{dma_write, has_room, FwCfgDmaError, FwCfgTransfer};
use crate::handle::PageSetHandle;
use crate::slots::{first_free, no_slots, Slots};
use crate::syscall::Request;
use vstd::prelude::*;

verus! {

/// The number of buffers that the engine keeps.
pub const MAX_ENGINE_BUFFERS: usize = 8;

/// The bytes of a pixel.
pub const BYTES_PER_PIXEL: u32 = 4;

/// The size of a page in bytes.
pub const PAGE_SIZE: u64 = 4096;

/// The width of the test picture.
pub const SELFTEST_WIDTH: u32 = 320;

/// The height of the test picture.
pub const SELFTEST_HEIGHT: u32 = 240;

/// A buffer: its page set and its physical address.
#[derive(Clone, Copy, Debug, PartialEq, Eq, Structural)]
pub struct EngineBuffer {
    pub ps_handle: PageSetHandle,
    pub phys_addr: u64,
}

/// What is to be shown: the picture's address and its shape.
#[derive(Clone, Copy, Debug, PartialEq, Eq, Structural)]
pub struct Scanout {
    pub phys_addr: u64,
    pub width: u32,
    pub height: u32,
    pub stride: u32,
}

/// Where the header of a transfer lies in the driver's page.
pub const DMA_HEADER_OFFSET: u64 = 0;

/// Where the description of the picture lies in the driver's page.
pub const RAMFB_CONFIG_OFFSET: u64 = 16;

/// What has a picture shown: its description, which is written first, and the transfer that
/// hands it to the firmware.
#[derive(Clone, Copy, Debug, PartialEq, Eq, Structural)]
pub struct RamfbProgram {
    /// Where the description is written.
    pub config_va: u64,
    /// The number of the pixels' format.
    pub format: u32,
    pub picture: Scanout,
    pub transfer: FwCfgTransfer,
}

/// Has a picture, of pixels of the given format, shown through the file of the given selector.
/// The picture's description takes up `wire_size` bytes.
pub fn program_ramfb(
    dma_page: &OwnedDmaMapping<BuddyOrigin>,
    selector: u16,
    wire_size: u32,
    format: u32,
    picture: Scanout,
) -> (r: RamfbProgram)
    requires
        has_room(dma_page.mapping(), DMA_HEADER_OFFSET, RAMFB_CONFIG_OFFSET),
    ensures
        ({
            let m = dma_page.mapping();
            r == (RamfbProgram {
                config_va: (m.va + RAMFB_CONFIG_OFFSET) as u64,
                format,
                picture,
                transfer: FwCfgTransfer {
                    header_va: m.va,
                    selector,
                    length: wire_size,
                    payload_phys: (m.pa + RAMFB_CONFIG_OFFSET) as u64,
                    trigger: m.pa,
                },
            })
        }),
{
    let transfer = dma_write(
        dma_page,
        DMA_HEADER_OFFSET,
        RAMFB_CONFIG_OFFSET,
        selector,
        wire_size,
    );
    RamfbProgram { config_va: dma_page.va() + RAMFB_CONFIG_OFFSET, format, picture, transfer }
}

/// What showing a picture comes to, given how the transfer ended.
pub fn program_result(r: Result<(), FwCfgDmaError>) -> (out: Result<(), DisplayError>)
    ensures
        out == match r {
            Ok(_) => Ok::<(), DisplayError>(()),
            Err(_) => Err(DisplayError::AllocFailed),
        },
{
    match r {
        Ok(_) => Ok(()),
        Err(_) => Err(DisplayError::AllocFailed),
    }
}

/// A buffer to make: its pages, the bytes of a row, and the bytes in all.
#[derive(Clone, Copy, Debug, PartialEq, Eq, Structural)]
pub struct BufferPlan {
    pub pages: u64,
    pub stride: u32,
    pub size: u32,
}

/// The engine. `xrgb8888` is the number of the one pixel format that it knows.
pub struct RamfbEngine {
    pub xrgb8888: u32,
    pub session_active: bool,
    pub current_mode: Option<u32>,
    pub buffers: Slots<EngineBuffer>,
}

/// The modes: a small and a large one.
pub open spec fn mode_of(xrgb8888: u32, index: u32) -> Option<ModeInfo> {
    if index == 0 {
        Some(ModeInfo { width: 320, height: 240, format: xrgb8888, refresh_millihz: 60000 })
    } else if index == 1 {
        Some(ModeInfo { width: 640, height: 480, format: xrgb8888, refresh_millihz: 60000 })
    } else {
        None
    }
}

/// The first slot from `i` on that holds the given page set, or the number of slots.
pub open spec fn buffer_from(s: Seq<Option<EngineBuffer>>, ps: PageSetHandle, i: int) -> int
    decreases s.len() - i,
{
    if i < 0 || i >= s.len() {
        s.len() as int
    } else if s[i] is Some && (s[i]->0).ps_handle == ps {
        i
    } else {
        buffer_from(s, ps, i + 1)
    }
}

proof fn lemma_buffer_from(s: Seq<Option<EngineBuffer>>, ps: PageSetHandle, i: int)
    requires
        0 <= i <= s.len(),
    ensures
        i <= buffer_from(s, ps, i) <= s.len(),
        buffer_from(s, ps, i) < s.len() ==> s[buffer_from(s, ps, i)] is Some && (s[buffer_from(
            s,
            ps,
            i,
        )]->0).ps_handle == ps,
    decreases s.len() - i,
{
    if i < s.len() && !(s[i] is Some && (s[i]->0).ps_handle == ps) {
        lemma_buffer_from(s, ps, i + 1);
    }
}

/// Whether the bytes of a picture can be counted.
pub open spec fn picture_fits(width: u32, height: u32) -> bool {
    width * BYTES_PER_PIXEL <= u32::MAX && width * BYTES_PER_PIXEL * height <= u32::MAX
}

/// Whether the bytes of a picture can be counted.
pub fn has_picture_size(width: u32, height: u32) -> (r: bool)
    ensures
        r == picture_fits(width, height),
{
    let stride: u64 = width as u64 * BYTES_PER_PIXEL as u64;
    if stride > u32::MAX as u64 {
        return false;
    }
    assert(stride * height <= 0xffff_ffff * 0xffff_ffff) by (nonlinear_arith)
        requires
            stride <= 0xffff_ffff,
            height <= 0xffff_ffff,
    ;
    stride * height as u64 <= u32::MAX as u64
}

/// What is shown of a buffer in a mode.
pub open spec fn scanout_of(mode: ModeInfo, buffer: EngineBuffer) -> Scanout {
    Scanout {
        phys_addr: buffer.phys_addr,
        width: mode.width,
        height: mode.height,
        stride: (mode.width * BYTES_PER_PIXEL) as u32,
    }
}

impl RamfbEngine {
    /// Whether the current mode is one that there is.
    pub open spec fn valid(&self) -> bool {
        self.current_mode matches Some(m) ==> m < 2
    }

    pub fn new(xrgb8888: u32) -> (r: Self)
        ensures
            r.valid(),
            r.xrgb8888 == xrgb8888,
            !r.session_active,
            r.current_mode is None,
            r.buffers@ == no_slots::<EngineBuffer>(MAX_ENGINE_BUFFERS as nat),
    {
        RamfbEngine {
            xrgb8888,
            session_active: false,
            current_mode: None,
            buffers: Slots::new(MAX_ENGINE_BUFFERS),
        }
    }

    /// The number of modes.
    pub fn mode_count(&self) -> (r: u32)
        ensures
            r == 2,
            forall|i: u32| #[trigger] mode_of(self.xrgb8888, i) is Some <==> i < r,
    {
        2
    }

    /// A mode.
    pub fn get_mode(&self, index: u32) -> (r: Option<ModeInfo>)
        ensures
            r == mode_of(self.xrgb8888, index),
    {
        if index == 0 {
            Some(
                ModeInfo {
                    width: 320,
                    height: 240,
                    format: self.xrgb8888,
                    refresh_millihz: 60000,
                },
            )
        } else if index == 1 {
            Some(
                ModeInfo {
                    width: 640,
                    height: 480,
                    format: self.xrgb8888,
                    refresh_millihz: 60000,
                },
            )
        } else {
            None
        }
    }

    /// Opens the session, unless it is open. Says what is printed too.
    pub fn create_session(&mut self) -> (r: (Result<(), DisplayError>, &'static str))
        ensures
            final(self).xrgb8888 == old(self).xrgb8888,
            final(self).current_mode == old(self).current_mode,
            final(self).buffers == old(self).buffers,
            final(self).session_active,
            if old(self).session_active {
                r.0 == Err::<(), DisplayError>(DisplayError::SessionBusy) && r.1@ == ""@
            } else {
                r.0 is Ok && r.1@ == "ramfb: session created\n"@
            },
    {
        if self.session_active {
            return (Err(DisplayError::SessionBusy), "");
        }
        self.session_active = true;
        (Ok(()), "ramfb: session created\n")
    }

    /// The buffer to make for a picture, if its format is the one that is known and there
    /// is a slot for it.
    pub fn alloc_buffer(&self, width: u32, height: u32, format: u32) -> (r: Result<
        BufferPlan,
        DisplayError,
    >)
        requires
            format == self.xrgb8888 && first_free(self.buffers@) < self.buffers@.len()
                ==> picture_fits(width, height),
        ensures
            r == if format != self.xrgb8888 {
                Err::<BufferPlan, DisplayError>(DisplayError::InvalidMode)
            } else if first_free(self.buffers@) >= self.buffers@.len() {
                Err(DisplayError::AllocFailed)
            } else {
                let stride = width * BYTES_PER_PIXEL;
                let size = stride * height;
                Ok(
                    BufferPlan {
                        pages: ((size + PAGE_SIZE - 1) / PAGE_SIZE as int) as u64,
                        stride: stride as u32,
                        size: size as u32,
                    },
                )
            },
    {
        if format != self.xrgb8888 {
            return Err(DisplayError::InvalidMode);
        }
        match self.buffers.find_free() {
            None => Err(DisplayError::AllocFailed),
            Some(_) => {
                let stride: u32 = width * BYTES_PER_PIXEL;
                assert(stride * height >= 0) by (nonlinear_arith)
                    requires
                        stride >= 0,
                        height >= 0,
                ;
                let size: u32 = stride * height;
                let pages: u64 = (size as u64 + PAGE_SIZE - 1) / PAGE_SIZE;
                Ok(BufferPlan { pages, stride, size })
            },
        }
    }

    /// Keeps the buffer that was made, or says that it could not be. Says what is printed
    /// too.
    pub fn buffer_made(&mut self, made: Option<EngineBuffer>) -> (r: (
        Result<PageSetHandle, DisplayError>,
        &'static str,
    ))
        requires
            first_free(old(self).buffers@) < old(self).buffers@.len(),
        ensures
            final(self).xrgb8888 == old(self).xrgb8888,
            final(self).session_active == old(self).session_active,
            final(self).current_mode == old(self).current_mode,
            match made {
                Some(b) => {
                    &&& r.0 == Ok::<PageSetHandle, DisplayError>(b.ps_handle)
                    &&& r.1@ == "ramfb: buffer allocated\n"@
                    &&& final(self).buffers@ == old(self).buffers@.update(
                        first_free(old(self).buffers@),
                        Some(b),
                    )
                },
                None => {
                    &&& r.0 == Err::<PageSetHandle, DisplayError>(DisplayError::AllocFailed)
                    &&& r.1@ == ""@
                    &&& final(self).buffers@ == old(self).buffers@
                },
            },
    {
        match made {
            Some(b) => {
                self.buffers.put(b);
                (Ok(b.ps_handle), "ramfb: buffer allocated\n")
            },
            None => (Err(DisplayError::AllocFailed), ""),
        }
    }

    fn find_buffer(&self, ps: PageSetHandle) -> (r: Option<usize>)
        ensures
            match r {
                Some(i) => i == buffer_from(self.buffers@, ps, 0) && i < self.buffers@.len(),
                None => buffer_from(self.buffers@, ps, 0) == self.buffers@.len(),
            },
    {
        let mut i: usize = 0;
        while i < self.buffers.len()
            invariant
                i <= self.buffers@.len(),
                buffer_from(self.buffers@, ps, 0) == buffer_from(self.buffers@, ps, i as int),
            decreases self.buffers@.len() - i,
        {
            if let Some(b) = self.buffers.get(i) {
                if b.ps_handle == ps {
                    return Some(i);
                }
            }
            i += 1;
        }
        None
    }

    fn scanout(&self, mode: ModeInfo, ps: PageSetHandle) -> (r: Result<Scanout, DisplayError>)
        requires
            mode.width <= 640,
        ensures
            ({
                let i = buffer_from(self.buffers@, ps, 0);
                r == if i < self.buffers@.len() {
                    Ok::<Scanout, DisplayError>(scanout_of(mode, self.buffers@[i]->0))
                } else {
                    Err(DisplayError::InvalidBuffer)
                }
            }),
    {
        proof {
            lemma_buffer_from(self.buffers@, ps, 0);
        }
        match self.find_buffer(ps) {
            Some(i) => match self.buffers.get(i) {
                Some(b) => Ok(
                    Scanout {
                        phys_addr: b.phys_addr,
                        width: mode.width,
                        height: mode.height,
                        stride: mode.width * BYTES_PER_PIXEL,
                    },
                ),
                None => Err(DisplayError::InvalidBuffer),
            },
            None => Err(DisplayError::InvalidBuffer),
        }
    }

    /// What is to be shown for a mode to be set.
    pub fn set_mode(&self, mode_index: u32, ps: PageSetHandle) -> (r: Result<
        Scanout,
        DisplayError,
    >)
        ensures
            ({
                let i = buffer_from(self.buffers@, ps, 0);
                r == match mode_of(self.xrgb8888, mode_index) {
                    None => Err::<Scanout, DisplayError>(DisplayError::InvalidMode),
                    Some(mode) => if i < self.buffers@.len() {
                        Ok(scanout_of(mode, self.buffers@[i]->0))
                    } else {
                        Err(DisplayError::InvalidBuffer)
                    },
                }
            }),
            r is Ok ==> mode_index < 2,
    {
        match self.get_mode(mode_index) {
            None => Err(DisplayError::InvalidMode),
            Some(mode) => self.scanout(mode, ps),
        }
    }

    /// Goes on once it is shown, or could not be: only a mode that is shown is the current
    /// one. Says what is printed too.
    pub fn mode_set(&mut self, mode_index: u32, shown: bool) -> (r: (
        Result<(), DisplayError>,
        &'static str,
    ))
        requires
            old(self).valid(),
            mode_index < 2,
        ensures
            final(self).valid(),
            final(self).xrgb8888 == old(self).xrgb8888,
            final(self).session_active == old(self).session_active,
            final(self).buffers == old(self).buffers,
            final(self).current_mode == if shown {
                Some(mode_index)
            } else {
                old(self).current_mode
            },
            if shown {
                r.0 is Ok && r.1@ == "ramfb: mode set\n"@
            } else {
                r.0 == Err::<(), DisplayError>(DisplayError::AllocFailed) && r.1@ == ""@
            },
    {
        if shown {
            self.current_mode = Some(mode_index);
            (Ok(()), "ramfb: mode set\n")
        } else {
            (Err(DisplayError::AllocFailed), "")
        }
    }

    /// What is to be shown of another buffer in the current mode.
    pub fn set_scanout(&self, ps: PageSetHandle) -> (r: Result<Scanout, DisplayError>)
        requires
            self.valid(),
        ensures
            ({
                let i = buffer_from(self.buffers@, ps, 0);
                r == match self.current_mode {
                    None => Err::<Scanout, DisplayError>(DisplayError::NotConfigured),
                    Some(m) => if i < self.buffers@.len() {
                        Ok(scanout_of(mode_of(self.xrgb8888, m)->0, self.buffers@[i]->0))
                    } else {
                        Err(DisplayError::InvalidBuffer)
                    },
                }
            }),
    {
        match self.current_mode {
            None => Err(DisplayError::NotConfigured),
            Some(m) => match self.get_mode(m) {
                Some(mode) => self.scanout(mode, ps),
                None => Err(DisplayError::InvalidMode),
            },
        }
    }

    /// Takes a buffer out: the request that closes it. A page set that is not known is
    /// ignored.
    pub fn free_buffer(&mut self, ps: PageSetHandle) -> (r: Option<Request>)
        ensures
            final(self).xrgb8888 == old(self).xrgb8888,
            final(self).session_active == old(self).session_active,
            final(self).current_mode == old(self).current_mode,
            ({
                let s = old(self).buffers@;
                let i = buffer_from(s, ps, 0);
                if i < s.len() {
                    r == Some(Request::CloseHandle { handle: ps.0 }) && final(self).buffers@
                        == s.update(i, None)
                } else {
                    r is None && final(self).buffers@ == s
                }
            }),
    {
        match self.find_buffer(ps) {
            Some(i) => {
                self.buffers.set(i, None);
                Some(Request::CloseHandle { handle: ps.0 })
            },
            None => None,
        }
    }

    /// Closes the session; no mode is set any more. Says what is printed.
    pub fn release_session(&mut self) -> (say: &'static str)
        ensures
            say@ == "ramfb: session released\n"@,
            final(self).valid(),
            final(self).xrgb8888 == old(self).xrgb8888,
            final(self).buffers == old(self).buffers,
            !final(self).session_active,
            final(self).current_mode is None,
    {
        self.session_active = false;
        self.current_mode = None;
        "ramfb: session released\n"
    }
}

proof fn lemma_buffer_with(s: Seq<Option<EngineBuffer>>, b: EngineBuffer, ps: PageSetHandle, i: int)
    requires
        0 <= i <= s.len(),
        first_free(s) < s.len(),
        ps != b.ps_handle || buffer_from(s, ps, i) == s.len(),
    ensures
        buffer_from(s.update(first_free(s), Some(b)), ps, i) == if ps == b.ps_handle && i <= first_free(
            s,
        ) {
            first_free(s)
        } else {
            buffer_from(s, ps, i)
        },
    decreases s.len() - i,
{
    crate::slots::lemma_first_free(s, 0);
    if i < s.len() {
        lemma_buffer_with(s, b, ps, i + 1);
    }
}

/// A buffer that was kept is found under its page set until it is freed; then the engine has
/// the buffers that it had before. What other page sets lead to does not change.
pub proof fn lemma_buffer_until_freed(s: Seq<Option<EngineBuffer>>, b: EngineBuffer)
    requires
        first_free(s) < s.len(),
        buffer_from(s, b.ps_handle, 0) == s.len(),
    ensures
        ({
            let t = s.update(first_free(s), Some(b));
            let i = buffer_from(t, b.ps_handle, 0);
            &&& i < t.len() && t[i] == Some(b)
            &&& t.update(i, None) == s
            &&& forall|other: PageSetHandle|
                other != b.ps_handle ==> #[trigger] buffer_from(t, other, 0) == buffer_from(s, other, 0)
        }),
{
    let t = s.update(first_free(s), Some(b));
    crate::slots::lemma_first_free(s, 0);
    lemma_buffer_with(s, b, b.ps_handle, 0);
    assert(t.update(first_free(s), None) =~= s);
    assert forall|other: PageSetHandle| other != b.ps_handle implies #[trigger] buffer_from(t, other, 0)
        == buffer_from(s, other, 0) by {
        lemma_buffer_with(s, b, other, 0);
    }
}

// ---------------------------------------------------------------------------
// The test picture
// ---------------------------------------------------------------------------

/// A pixel of the test picture: tiles of sixteen pixels, white and grey in turn.
pub open spec fn test_pixel(x: int, y: int) -> u32 {
    if (x / 16 + y / 16) % 2 == 0 {
        0xFFFF_FFFF
    } else {
        0xFF40_4040
    }
}

/// The test picture, row by row.
pub open spec fn test_picture() -> Seq<u32> {
    Seq::new(76800, |i: int| test_pixel(i % 320, i / 320))
}

/// The pages of the test picture.
pub fn self_test_pages() -> (r: u64)
    ensures
        r == 75,
{
    let size: u64 = 320 * 4 * 240;
    (size + PAGE_SIZE - 1) / PAGE_SIZE
}

/// The test picture, row by row.
pub fn self_test() -> (out: Vec<u32>)
    ensures
        out@ == test_picture(),
{
    let mut out: Vec<u32> = Vec::new();
    let mut i: u32 = 0;
    while i < 76800
        invariant
            i <= 76800,
            out@.len() == i,
            forall|k: int| 0 <= k < i ==> #[trigger] out@[k] == test_pixel(k % 320, k / 320),
        decreases 76800 - i,
    {
        let x: u32 = i % SELFTEST_WIDTH;
        let y: u32 = i / SELFTEST_WIDTH;
        if (x / 16 + y / 16) % 2 == 0 {
            out.push(0xFFFF_FFFF);
        } else {
            out.push(0xFF40_4040);
        }
        i += 1;
    }
    assert(out@ =~= test_picture());
    out
}

/// The test picture is made of tiles of sixteen by sixteen pixels: within a tile all pixels are
/// alike, two tiles side by side or one above the other differ, and the first is white.
pub proof fn lemma_tiles(x: int, y: int, i: int, j: int)
    requires
        0 <= x,
        0 <= y,
        0 <= i < 16,
        0 <= j < 16,
    ensures
        test_pixel(16 * x + i, 16 * y + j) == test_pixel(16 * x, 16 * y),
        test_pixel(16 * (x + 1), 16 * y) != test_pixel(16 * x, 16 * y),
        test_pixel(16 * x, 16 * (y + 1)) != test_pixel(16 * x, 16 * y),
        test_pixel(0, 0) == 0xFFFF_FFFF,
        test_pixel(16, 0) == 0xFF40_4040,
{
    assert((16 * x + i) / 16 == x);
    assert((16 * y + j) / 16 == y);
    assert((16 * (x + 1)) / 16 == x + 1);
    assert((16 * (y + 1)) / 16 == y + 1);
}

/// The picture has 320 pixels in each of its 240 rows, row by row.
pub proof fn lemma_rows(x: int, y: int)
    requires
        0 <= x < 320,
        0 <= y < 240,
    ensures
        test_picture().len() == 320 * 240,
        test_picture()[y * 320 + x] == test_pixel(x, y),
{
    assert((y * 320 + x) / 320 == y);
    assert((y * 320 + x) % 320 == x);
}

/// There are two modes, and what is shown in one has its width and height and four bytes a pixel
/// in every row.
pub proof fn lemma_modes(xrgb8888: u32, index: u32, buffer: EngineBuffer)
    ensures
        mode_of(xrgb8888, index) is Some <==> index < 2,
        mode_of(xrgb8888, index) matches Some(m) ==> {
            &&& m.format == xrgb8888
            &&& m.refresh_millihz == 60000
            &&& index == 0 ==> m.width == 320 && m.height == 240
            &&& index == 1 ==> m.width == 640 && m.height == 480
            &&& picture_fits(m.width, m.height)
            &&& scanout_of(m, buffer).phys_addr == buffer.phys_addr
            &&& scanout_of(m, buffer).width == m.width
            &&& scanout_of(m, buffer).height == m.height
            &&& scanout_of(m, buffer).stride == 4 * m.width
        },
{
}

/// The bytes of a picture can be counted where four bytes for each of its pixels fit in 32 bits.
pub proof fn lemma_picture_fits(width: u32, height: u32)
    requires
        height > 0,
    ensures
        picture_fits(width, height) <==> 4 * width * height <= u32::MAX,
{
    assert(4 * width * height >= 4 * width) by (nonlinear_arith)
        requires
            height > 0,
    ;
}

} // verus!
