//! The options that shape a page and the rules they are held to.

use vstd::prelude::*;
use vstd::string::*;
use crate::decoder::Decoder;
use crate::units::MAX_WINDOW;

verus! {

pub const DEF_DISPLAY_LINE_WIDTH: usize = 64;

pub const MIN_DISPLAY_LINE_WIDTH: usize = 20;

pub const DEF_DISPLAY_HEIGHT: usize = 8;

pub const MIN_DISPLAY_HEIGHT: usize = 4;

pub const DEF_WIND_SIZE: usize = 1024;

pub const MIN_WIND_SIZE: usize = 16;

pub const DEF_CACHE_SIZE: usize = 64;

pub const MIN_CACHE_SIZE: usize = 3;

/// Why a set of options was turned down.
#[derive(Clone, Copy, Debug, PartialEq, Eq, Structural)]
pub enum ConfigError {
    LineWidthTooSmall,
    HeightTooSmall,
    WindowTooSmall,
    CacheTooSmall,
    UnsupportedEncoding,
    /// The size of the page buffer that the options ask for is beyond what
    /// the machine can address and decode.
    BufferTooLarge,
}

/// The options, as given: a missing one takes its default.
pub struct Options {
    pub dlwidth: Option<usize>,
    pub dheight: Option<usize>,
    pub wind_size: Option<usize>,
    pub cache_size: Option<usize>,
    pub decoder: Option<Decoder>,
}

/// The options in force.
#[derive(Clone, Copy, Debug, PartialEq, Eq, Structural)]
pub struct Settings {
    /// Columns of a display line, the marker column included.
    pub dlwidth: usize,
    /// Display lines of a page.
    pub dheight: usize,
    /// Bytes of a search window.
    pub wind_size: usize,
    /// Pages of the history store's cache.
    pub cache_size: usize,
    pub decoder: Decoder,
}

/// `value`, or the error when it is below `min`.
pub fn must_be_ge_otherwise_err(value: usize, min: usize, err: ConfigError) -> (r: Result<usize, ConfigError>)
    ensures
        value >= min ==> r == Ok::<usize, ConfigError>(value),
        value < min ==> r == Err::<usize, ConfigError>(err),
{
    if value >= min {
        Ok(value)
    } else {
        Err(err)
    }
}

/// The decoder that a scheme name stands for.
pub open spec fn scheme_decoder(name: Seq<char>) -> Option<Decoder> {
    if name == "utf-8"@ || name == "UTF-8"@ {
        Some(Decoder::Utf8)
    } else if name == "gb18030"@ || name == "GB18030"@ {
        Some(Decoder::Gb18030)
    } else {
        None
    }
}

/// Reads the name of an encoding scheme.
pub fn parse_scheme(name: &str) -> (r: Result<Decoder, ConfigError>)
    ensures
        match scheme_decoder(name@) {
            Some(d) => r == Ok::<Decoder, ConfigError>(d),
            None => r == Err::<Decoder, ConfigError>(ConfigError::UnsupportedEncoding),
        },
{
    let given = String::from_str(name);
    if given == String::from_str("utf-8") || given == String::from_str("UTF-8") {
        Ok(Decoder::Utf8)
    } else if given == String::from_str("gb18030") || given == String::from_str("GB18030") {
        Ok(Decoder::Gb18030)
    } else {
        Err(ConfigError::UnsupportedEncoding)
    }
}

/// The size of the buffer that one page is read into: twice what a full page
/// of one-byte characters with two-byte line ends takes, or twice the search
/// window if that is more, and 256 bytes on top, so that a sequence cut at
/// either end never starves a page.
pub open spec fn buffer_size(dlwidth: int, dheight: int, wind_size: int) -> int {
    let page = 2 * dheight * (dlwidth + 1);
    let wind = 2 * wind_size;
    256 + if page >= wind {
        page
    } else {
        wind
    }
}

impl Settings {
    /// The settings can be paged with: a line has a column behind its
    /// marker, a page has a line, and the page buffer is no longer than a
    /// window may be.
    pub open spec fn wf(&self) -> bool {
        &&& self.dlwidth >= 2
        &&& self.dheight >= 1
        &&& buffer_size(self.dlwidth as int, self.dheight as int, self.wind_size as int) <= MAX_WINDOW
    }

    /// The first rule that `o` breaks, if it breaks one.
    pub open spec fn refusal(o: Options) -> Option<ConfigError> {
        let s = Self::chosen(o);
        if s.dlwidth < MIN_DISPLAY_LINE_WIDTH {
            Some(ConfigError::LineWidthTooSmall)
        } else if s.dheight < MIN_DISPLAY_HEIGHT {
            Some(ConfigError::HeightTooSmall)
        } else if s.wind_size < MIN_WIND_SIZE {
            Some(ConfigError::WindowTooSmall)
        } else if s.cache_size < MIN_CACHE_SIZE {
            Some(ConfigError::CacheTooSmall)
        } else if buffer_size(s.dlwidth as int, s.dheight as int, s.wind_size as int) > MAX_WINDOW {
            Some(ConfigError::BufferTooLarge)
        } else {
            None
        }
    }

    /// The settings that `o` asks for, defaults filled in.
    pub open spec fn chosen(o: Options) -> Settings {
        Settings {
            dlwidth: o.dlwidth.unwrap_or(DEF_DISPLAY_LINE_WIDTH),
            dheight: o.dheight.unwrap_or(DEF_DISPLAY_HEIGHT),
            wind_size: o.wind_size.unwrap_or(DEF_WIND_SIZE),
            cache_size: o.cache_size.unwrap_or(DEF_CACHE_SIZE),
            decoder: o.decoder.unwrap_or(Decoder::Utf8),
        }
    }

    /// Fills in the defaults and holds each option to its minimum.
    pub fn from_options(o: Options) -> (r: Result<Settings, ConfigError>)
        ensures
            match Self::refusal(o) {
                Some(e) => r == Err::<Settings, ConfigError>(e),
                None => r == Ok::<Settings, ConfigError>(Self::chosen(o)) && Self::chosen(o).wf(),
            },
    {
        let dlwidth: usize = match o.dlwidth {
            Some(v) => v,
            None => DEF_DISPLAY_LINE_WIDTH,
        };
        let dheight: usize = match o.dheight {
            Some(v) => v,
            None => DEF_DISPLAY_HEIGHT,
        };
        let wind_size: usize = match o.wind_size {
            Some(v) => v,
            None => DEF_WIND_SIZE,
        };
        let cache_size: usize = match o.cache_size {
            Some(v) => v,
            None => DEF_CACHE_SIZE,
        };
        let decoder = match o.decoder {
            Some(v) => v,
            None => Decoder::Utf8,
        };
        if let Err(e) = must_be_ge_otherwise_err(dlwidth, MIN_DISPLAY_LINE_WIDTH, ConfigError::LineWidthTooSmall) {
            return Err(e);
        }
        if let Err(e) = must_be_ge_otherwise_err(dheight, MIN_DISPLAY_HEIGHT, ConfigError::HeightTooSmall) {
            return Err(e);
        }
        if let Err(e) = must_be_ge_otherwise_err(wind_size, MIN_WIND_SIZE, ConfigError::WindowTooSmall) {
            return Err(e);
        }
        if let Err(e) = must_be_ge_otherwise_err(cache_size, MIN_CACHE_SIZE, ConfigError::CacheTooSmall) {
            return Err(e);
        }
        if dlwidth > MAX_WINDOW || dheight > MAX_WINDOW || wind_size > MAX_WINDOW {
            proof {
                lemma_buffer_grows(dlwidth as int, dheight as int, wind_size as int);
            }
            return Err(ConfigError::BufferTooLarge);
        }
        assert(2 * dheight * (dlwidth + 1) <= 2 * 0x1000_0000_0000_0000 * 0x1000_0000_0000_0000) by (nonlinear_arith)
            requires
                0 <= dheight < 0x1000_0000_0000_0000,
                0 <= dlwidth < 0x1000_0000_0000_0000,
        ;
        let page: u128 = 2 * (dheight as u128) * (dlwidth as u128 + 1);
        let wind: u128 = 2 * (wind_size as u128);
        let most: u128 = if page >= wind {
            page
        } else {
            wind
        };
        if most + 256 > MAX_WINDOW as u128 {
            return Err(ConfigError::BufferTooLarge);
        }
        Ok(Settings { dlwidth, dheight, wind_size, cache_size, decoder })
    }

    /// The size of the buffer that one page is read into.
    pub fn big_enough_buf_size(&self) -> (size: usize)
        requires
            self.wf(),
        ensures
            size == buffer_size(self.dlwidth as int, self.dheight as int, self.wind_size as int),
            256 < size <= MAX_WINDOW,
    {
        proof {
            lemma_buffer_grows(self.dlwidth as int, self.dheight as int, self.wind_size as int);
        }
        assert(2 * self.dheight <= 2 * self.dheight * (self.dlwidth + 1)) by (nonlinear_arith)
            requires
                0 <= self.dheight,
                0 <= self.dlwidth,
        ;
        let page: usize = 2 * self.dheight * (self.dlwidth + 1);
        let wind: usize = 2 * self.wind_size;
        if page >= wind {
            256 + page
        } else {
            256 + wind
        }
    }
}

/// The page buffer is larger than each of the three options it is made of.
pub proof fn lemma_buffer_grows(dlwidth: int, dheight: int, wind_size: int)
    requires
        dlwidth >= 2,
        dheight >= 1,
        wind_size >= 0,
    ensures
        buffer_size(dlwidth, dheight, wind_size) > dlwidth,
        buffer_size(dlwidth, dheight, wind_size) > dheight,
        buffer_size(dlwidth, dheight, wind_size) > wind_size,
        buffer_size(dlwidth, dheight, wind_size) > 256,
{
    assert(2 * dheight * (dlwidth + 1) >= 2 * (dlwidth + 1)) by (nonlinear_arith)
        requires
            dheight >= 1,
            dlwidth >= 2,
    ;
    assert(2 * dheight * (dlwidth + 1) >= 2 * dheight) by (nonlinear_arith)
        requires
            dheight >= 1,
            dlwidth >= 2,
    ;
}

} // verus!
