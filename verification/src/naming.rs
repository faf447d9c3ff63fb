//! Names of the files that emblems are written to.

use crate::decimal::{decimal0, push_decimal0, two_wide};
use vstd::prelude::*;
use vstd::string::{StrSliceExecFns, StringExecFns};

verus! {

/// The path of the file for an emblem: under `./out/`, the prefix, the size
/// as a whole number, ten times the radius coefficient as a whole number of
/// at least two digits, and the extension.
pub open spec fn file_path(
    prefix: Seq<char>,
    size: int,
    radius_coeff: int,
    ext: Seq<char>,
) -> Seq<char> {
    "./out/"@ + prefix + "-"@ + decimal0(size) + "-"@ + two_wide(decimal0(radius_coeff * 10))
        + "."@ + ext
}

/// Names the file for the emblem of the given size and radius coefficient.
pub fn file_name(prefix: &str, size: i64, radius_coeff: i64, ext: &str) -> (name: String)
    ensures
        name@ == file_path(prefix@, size as int, radius_coeff as int, ext@),
{
    let mut tenfold: String = String::new();
    push_decimal0(&mut tenfold, (radius_coeff as i128) * 10);
    assert(tenfold@ =~= decimal0(radius_coeff * 10));
    let mut name: String = String::new();
    name.append("./out/");
    name.append(prefix);
    name.append("-");
    push_decimal0(&mut name, size as i128);
    name.append("-");
    if tenfold.as_str().unicode_len() < 2 {
        proof {
            reveal_strlit("0");
        }
        name.append("0");
    }
    name.append(tenfold.as_str());
    name.append(".");
    name.append(ext);
    assert(name@ =~= file_path(prefix@, size as int, radius_coeff as int, ext@));
    name
}

} // verus!
