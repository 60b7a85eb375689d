//! Mapping permissions.
//!
//! A small set of flags over {Read, Write, Execute, User}. Syscall callers
//! hand in a raw bit pattern (`port`): bit 0 is Read, bit 1 is Write, bit 2
//! is Execute. Any bit outside the low three, or a pattern with none of them
//! set, is rejected. The User flag is always set implicitly for mappings
//! created on behalf of a task; it is never taken from the caller's bits.

use vstd::prelude::*;

verus! {

/// A permission set for one mapping.
#[derive(Clone, Copy, PartialEq, Eq, Structural, Debug)]
pub struct MapPermission {
    /// The mapped pages may be read.
    pub readable: bool,
    /// The mapped pages may be written.
    pub writable: bool,
    /// The mapped pages may be executed.
    pub executable: bool,
    /// The mapped pages are accessible from user mode.
    pub user: bool,
}

/// Rejection of a raw permission bit pattern: a bit outside Read/Write/
/// Execute was set, or none of the three was set.
#[derive(Clone, Copy, PartialEq, Eq, Structural, Debug)]
pub struct InvalidPermission;

/// A raw `port` pattern is acceptable when only the low three bits are used
/// and at least one of them is set.
pub open spec fn valid_port_bits(port: int) -> bool {
    1 <= port <= 7
}

/// The permission set a valid `port` pattern denotes; User is implied.
pub open spec fn perm_of_bits(port: int) -> MapPermission {
    MapPermission {
        readable: port % 2 == 1,
        writable: (port / 2) % 2 == 1,
        executable: (port / 4) % 2 == 1,
        user: true,
    }
}

impl MapPermission {
    /// Decodes a raw `port` bit pattern, adding the implicit User flag.
    pub fn from_bits(port: usize) -> (res: Result<MapPermission, InvalidPermission>)
        ensures
            valid_port_bits(port as int) ==> res == Ok::<MapPermission, InvalidPermission>(
                perm_of_bits(port as int),
            ),
            !valid_port_bits(port as int) ==> res == Err::<MapPermission, InvalidPermission>(
                InvalidPermission,
            ),
    {
        if port == 0 || port >= 8 {
            Err(InvalidPermission)
        } else {
            Ok(
                MapPermission {
                    readable: port % 2 == 1,
                    writable: (port / 2) % 2 == 1,
                    executable: (port / 4) % 2 == 1,
                    user: true,
                },
            )
        }
    }
}

} // verus!
