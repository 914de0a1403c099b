use vstd::prelude::*;
use vstd::string::StringSliceAdditionalSpecFns;

use crate::error::AppError;

verus! {

/// The extension that input files carry.
pub const INPUT_EXTENSION: &'static str = ".csv";

/// `b` ends with the bytes of `suffix`.
pub open spec fn ends_with(b: Seq<u8>, suffix: Seq<u8>) -> bool {
    b.len() >= suffix.len() && b.skip(b.len() - suffix.len()) == suffix
}

/// Accepts a path to an input file: one that ends in `.csv`.
pub fn validate_file_path(file_path: &str) -> (r: Result<String, AppError>)
    ensures
        r is Ok <==> ends_with(file_path.spec_bytes(), INPUT_EXTENSION.spec_bytes()),
        r is Ok ==> r->Ok_0@ == file_path@,
        r is Err ==> r == Err::<String, AppError>(AppError::InvalidFileFormat),
{
    let b = file_path.as_bytes();
    let suffix = INPUT_EXTENSION.as_bytes();
    let n = b.len();
    if n < suffix.len() {
        return Err(AppError::InvalidFileFormat);
    }
    let start = n - suffix.len();
    let mut k: usize = 0;
    while k < suffix.len()
        invariant
            b@ == file_path.spec_bytes(),
            suffix@ == INPUT_EXTENSION.spec_bytes(),
            start == b@.len() - suffix@.len(),
            b@.len() >= suffix@.len(),
            n == b@.len(),
            k <= suffix@.len(),
            forall|j: int| 0 <= j < k ==> b@[start + j] == suffix@[j],
        decreases suffix@.len() - k,
    {
        if b[start + k] != suffix[k] {
            assert(b@.skip(start as int)[k as int] != suffix@[k as int]);
            return Err(AppError::InvalidFileFormat);
        }
        k = k + 1;
    }
    assert(b@.skip(start as int) =~= suffix@);
    Ok(file_path.to_owned())
}

} // verus!
