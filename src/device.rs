use vstd::prelude::*;
use crate::text::str_equals;

verus! {

/// Why no device could be chosen.
#[derive(Debug, Clone, Copy, PartialEq, Eq, Structural)]
pub enum DeviceError {
    /// No device is attached.
    NoDevices,
    /// No attached device has the name asked for.
    NotFound,
}

/// The first index at which `names` holds `wanted`.
pub open spec fn first_named(names: Seq<String>, wanted: Seq<char>, i: int) -> bool {
    &&& 0 <= i < names.len()
    &&& names[i]@ == wanted
    &&& forall|k: int| 0 <= k < i ==> #[trigger] names[k]@ != wanted
}

/// Picks a device among those attached, given their names in the order the
/// system lists them: the first one named `wanted`, or the first of all
/// where no name is given.
pub fn select_device(names: &Vec<String>, wanted: Option<&str>) -> (r: Result<usize, DeviceError>)
    ensures
        wanted is None ==> (r is Ok <==> names@.len() > 0),
        wanted is None && names@.len() > 0 ==> r == Ok::<usize, DeviceError>(0),
        wanted is None && names@.len() == 0 ==> r == Err::<usize, DeviceError>(DeviceError::NoDevices),
        wanted matches Some(w) ==> match r {
            Ok(i) => first_named(names@, w@, i as int),
            Err(e) => e == DeviceError::NotFound && forall|k: int| 0 <= k < names@.len() ==> #[trigger] names@[k]@ != w@,
        },
{
    match wanted {
        None => {
            if names.len() == 0 {
                Err(DeviceError::NoDevices)
            } else {
                Ok(0)
            }
        },
        Some(w) => {
            let mut i: usize = 0;
            while i < names.len()
                invariant
                    wanted == Some(w),
                    i <= names@.len(),
                    forall|k: int| 0 <= k < i ==> #[trigger] names@[k]@ != w@,
                decreases names.len() - i,
            {
                if str_equals(names[i].as_str(), w) {
                    return Ok(i);
                }
                i = i + 1;
            }
            Err(DeviceError::NotFound)
        },
    }
}

} // verus!
