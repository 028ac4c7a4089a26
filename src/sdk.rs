use vstd::prelude::*;

verus! {

/// Why a string was not accepted as an SDK root.
#[derive(Debug, Clone, Copy, PartialEq, Eq, Structural)]
pub enum SdkPathError {
    /// The path is the empty string.
    Empty,
}

/// The root directory of a platform SDK, handed to the compiler as its sysroot.
#[derive(Debug)]
pub struct SdkPath {
    path: String,
}

impl SdkPath {
    pub closed spec fn spec_path(&self) -> Seq<char> {
        self.path@
    }

    /// Accepts any non-empty path.
    pub fn new(path: &str) -> (r: Result<SdkPath, SdkPathError>)
        ensures
            path@.len() == 0 <==> r == Err::<SdkPath, SdkPathError>(SdkPathError::Empty),
            r matches Ok(p) ==> p.spec_path() == path@,
    {
        if path.is_empty() {
            Err(SdkPathError::Empty)
        } else {
            Ok(SdkPath { path: path.to_owned() })
        }
    }

    /// The path as text.
    pub fn path(&self) -> (r: &str)
        ensures
            r@ == self.spec_path(),
    {
        self.path.as_str()
    }
}

} // verus!
