//! On/off switches given as text (environment variables of the shell).

use vstd::prelude::*;
use crate::text::{ascii_ci_eq, chars_of, eq_ignore_case, trim, trim_all};

verus! {

/// A switch is off when its value, trimmed and with ASCII case ignored,
/// is empty, `0`, `false`, `no` or `off`; it is off too when it is not set.
pub open spec fn flag_on(value: Option<Seq<char>>) -> bool {
    match value {
        None => false,
        Some(v) => {
            let t = trim(v);
            !(t.len() == 0 || ascii_ci_eq(t, "0"@) || ascii_ci_eq(t, "false"@) || ascii_ci_eq(t, "no"@)
                || ascii_ci_eq(t, "off"@))
        },
    }
}

/// Whether the switch with value `value` (`None` when unset) is on.
pub fn flag_value(value: Option<&str>) -> (r: bool)
    ensures
        r == flag_on(match value {
            Some(v) => Some(v@),
            None => None,
        }),
{
    match value {
        None => false,
        Some(v) => {
            let t = trim_all(chars_of(v).as_slice());
            !(t.len() == 0 || eq_ignore_case(&t, chars_of("0").as_slice()) || eq_ignore_case(
                &t,
                chars_of("false").as_slice(),
            ) || eq_ignore_case(&t, chars_of("no").as_slice()) || eq_ignore_case(
                &t,
                chars_of("off").as_slice(),
            ))
        },
    }
}

} // verus!
