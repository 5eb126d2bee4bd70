use vstd::prelude::*;

verus! {

/// Resolution and point size of a rasterizer font handle.
///
/// The point size is held in 26.6 fixed point (1/64 pt). The configuration is
/// only stored here; it is handed to the rasterizer afresh before each
/// measurement or rendering, so a handle shared by several holders always
/// works at the size of the holder that uses it.
#[derive(Clone, Copy, Debug, PartialEq, Eq, Structural)]
pub struct SizeConfig {
    pub hdpi: u32,
    pub vdpi: u32,
    pub char_size: i64,
}

/// The arguments of one character-size request to the rasterizer: nominal
/// width and height in 26.6 points, and the two resolutions in dots per inch.
#[derive(Clone, Copy, Debug, PartialEq, Eq, Structural)]
pub struct CharSizeRequest {
    pub char_width: i64,
    pub char_height: i64,
    pub hdpi: u32,
    pub vdpi: u32,
}

/// The request that a configuration stands for.
pub open spec fn request_of(c: SizeConfig) -> CharSizeRequest {
    CharSizeRequest { char_width: c.char_size, char_height: c.char_size, hdpi: c.hdpi, vdpi: c.vdpi }
}

/// A configuration after `set_dpi(hdpi, vdpi)` and `set_char_size(char_size)`.
pub open spec fn resized(c: SizeConfig, hdpi: u32, vdpi: u32, char_size: i64) -> SizeConfig {
    SizeConfig { hdpi, vdpi, char_size, ..c }
}

/// After an explicit resize, the request depends on the values set alone,
/// whatever configuration either holder had before.
pub proof fn lemma_resize_forgets_history(a: SizeConfig, b: SizeConfig, hdpi: u32, vdpi: u32, char_size: i64)
    ensures
        request_of(resized(a, hdpi, vdpi, char_size)) == request_of(resized(b, hdpi, vdpi, char_size)),
        request_of(resized(a, hdpi, vdpi, char_size)) == (CharSizeRequest {
            char_width: char_size,
            char_height: char_size,
            hdpi,
            vdpi,
        }),
{
}

/// Resizing again to the values already set changes nothing.
pub proof fn lemma_resize_idempotent(c: SizeConfig, hdpi: u32, vdpi: u32, char_size: i64)
    ensures
        resized(resized(c, hdpi, vdpi, char_size), hdpi, vdpi, char_size) == resized(c, hdpi, vdpi, char_size),
{
}

impl SizeConfig {
    /// 72 dpi both ways, 20 pt.
    pub fn new() -> (c: SizeConfig)
        ensures
            c.hdpi == 72 && c.vdpi == 72 && c.char_size == 20 * 64,
    {
        SizeConfig { hdpi: 72, vdpi: 72, char_size: 20 * 64 }
    }

    /// Sets the horizontal and vertical resolution.
    pub fn set_dpi(&mut self, hdpi: u32, vdpi: u32)
        ensures
            *final(self) == (SizeConfig { hdpi, vdpi, ..*old(self) }),
    {
        self.hdpi = hdpi;
        self.vdpi = vdpi;
    }

    /// Sets the point size, in 26.6 fixed point.
    pub fn set_char_size(&mut self, char_size: i64)
        ensures
            *final(self) == (SizeConfig { char_size, ..*old(self) }),
    {
        self.char_size = char_size;
    }

    /// The character-size request to hand to the rasterizer before use.
    pub fn char_size_request(&self) -> (r: CharSizeRequest)
        ensures
            r == request_of(*self),
    {
        CharSizeRequest {
            char_width: self.char_size,
            char_height: self.char_size,
            hdpi: self.hdpi,
            vdpi: self.vdpi,
        }
    }
}

} // verus!
