use vstd::prelude::*;
use vstd::string::StringSliceAdditionalSpecFns;
use crate::err::CmdErr;

verus! {

/// The two accepted image forms: an already-unpacked image directory, or a
/// compressed single-file archive that must be extracted first.
#[derive(Debug, Clone, Copy, PartialEq, Eq, Structural)]
pub enum ImageForm {
    Directory,
    Archive,
}

/// True when the byte string ends with the literal suffix `.tar.gz`.
pub open spec fn ends_with_tar_gz(s: Seq<u8>) -> bool {
    s.len() >= 7 && s.subrange(s.len() - 7, s.len() as int) == ".tar.gz".spec_bytes()
}

/// Checks the `.tar.gz` suffix on a file name given as UTF-8 bytes.
pub fn has_tar_gz_suffix(name: &Vec<u8>) -> (r: bool)
    ensures
        r <==> ends_with_tar_gz(name@),
{
    let suffix = crate::util::lit_bytes(".tar.gz");
    let n = name.len();
    if n < 7 {
        return false;
    }
    let tail = crate::util::subvec(name, n - 7, n);
    let r = crate::util::bytes_eq(&tail, &suffix);
    r
}

/// Classifies the canonicalized image path from its filesystem metadata and
/// file name. A directory is used as the image directly; a regular file must
/// carry the `.tar.gz` suffix and is extracted later; anything else is a
/// user error.
pub fn classify_image(is_dir: bool, is_file: bool, name: &Vec<u8>) -> (r: Result<ImageForm, CmdErr>)
    ensures
        is_dir ==> (r matches Ok(f) && f is Directory),
        !is_dir && is_file && ends_with_tar_gz(name@) ==> (r matches Ok(f) && f is Archive),
        !is_dir && is_file && !ends_with_tar_gz(name@) ==> (r matches Err(e) && e.kind is User
            && e.message@ == "File is not a tarball"@ && e.secondary is None),
        !is_dir && !is_file ==> (r matches Err(e) && e.kind is User && e.message@
            == "Image path is invalid"@ && e.secondary is None),
{
    if is_dir {
        Ok(ImageForm::Directory)
    } else if is_file {
        if has_tar_gz_suffix(name) {
            Ok(ImageForm::Archive)
        } else {
            Err(CmdErr::user("File is not a tarball"))
        }
    } else {
        Err(CmdErr::user("Image path is invalid"))
    }
}

} // verus!
