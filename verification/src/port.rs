//! The output ports that the triggers drive, and what a configuration must
//! meet before anything is built from it.

use vstd::prelude::*;

verus! {

/// The number of cells of the display buffer.
pub const DISPLAY_CELLS: usize = 128;

/// An output of the board: a digital pin or an analog output channel, by
/// its number.
#[derive(Clone, Copy, PartialEq, Eq, Debug, Structural)]
pub enum Port {
    Digital(usize),
    AnalogOut(usize),
}

/// Why a configuration was refused.
#[derive(Clone, Copy, PartialEq, Eq, Debug, Structural)]
pub enum ConfigError {
    /// The two ends of the port range are not of one kind.
    MixedPorts,
    /// The port range does not hold one port for each track.
    PortCount,
}

/// One value written to one port in one frame of a buffer.
#[derive(Clone, Copy, PartialEq, Eq, Debug, Structural)]
pub struct PortWrite {
    pub frame: usize,
    pub port: Port,
    pub high: bool,
}

/// The number of the port.
pub open spec fn port_number(port: Port) -> usize {
    match port {
        Port::Digital(n) => n,
        Port::AnalogOut(n) => n,
    }
}

/// Whether the two ports are of one kind.
pub open spec fn same_kind(a: Port, b: Port) -> bool {
    (a is Digital) == (b is Digital)
}

/// Whether the range from `range.0` up to, not including, `range.1` holds
/// exactly `tracks` ports of one kind.
pub open spec fn range_serves(range: (Port, Port), tracks: nat) -> bool {
    &&& same_kind(range.0, range.1)
    &&& port_number(range.0) + tracks == port_number(range.1)
}

/// What is wrong with a port range meant for `tracks` tracks, if anything.
pub open spec fn range_error(range: (Port, Port), tracks: nat) -> Option<ConfigError> {
    if !same_kind(range.0, range.1) {
        Some(ConfigError::MixedPorts)
    } else if port_number(range.0) + tracks != port_number(range.1) {
        Some(ConfigError::PortCount)
    } else {
        None
    }
}

/// Whether a grid of `width` columns and `height` rows can be shown: one to
/// sixteen columns, at least the control row, and no more cells than the
/// display buffer has.
pub open spec fn grid_fits(width: nat, height: nat) -> bool {
    &&& 1 <= width <= 16
    &&& 1 <= height
    &&& width * height <= DISPLAY_CELLS
}

/// The port of track `track` in a range.
pub open spec fn track_port(range: (Port, Port), track: int) -> Port {
    match range.0 {
        Port::Digital(start) => Port::Digital((start + track) as usize),
        Port::AnalogOut(start) => Port::AnalogOut((start + track) as usize),
    }
}

/// Checks a port range against the number of tracks.
pub fn check_range(range: (Port, Port), tracks: usize) -> (result: Result<(), ConfigError>)
    ensures
        result is Ok <==> range_serves(range, tracks as nat),
        result matches Err(e) ==> range_error(range, tracks as nat) == Some(e),
{
    let (start, end) = match range {
        (Port::Digital(start), Port::Digital(end)) => (start, end),
        (Port::AnalogOut(start), Port::AnalogOut(end)) => (start, end),
        _ => {
            return Err(ConfigError::MixedPorts);
        },
    };
    if end < start || end - start != tracks {
        return Err(ConfigError::PortCount);
    }
    Ok(())
}

/// Tests whether a grid can be shown.
pub fn check_grid(width: usize, height: usize) -> (ok: bool)
    ensures
        ok == grid_fits(width as nat, height as nat),
{
    if width < 1 || width > 16 || height < 1 || height > DISPLAY_CELLS {
        proof {
            if height > DISPLAY_CELLS && width >= 1 {
                assert(width * height > 128) by (nonlinear_arith)
                    requires
                        width >= 1,
                        height > 128,
                ;
            }
        }
        return false;
    }
    assert(width * height <= 16 * 128) by (nonlinear_arith)
        requires
            width <= 16,
            height <= 128,
    ;
    width * height <= DISPLAY_CELLS
}

} // verus!
