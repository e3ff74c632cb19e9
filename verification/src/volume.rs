use vstd::prelude::*;
use crate::err::CmdErr;
use crate::util::subvec;

verus! {

/// The colon that separates a volume's origin from its destination.
pub const VOLUME_SEPARATOR: u8 = 0x3a;

/// A bind-mount request: a host source path and a container destination path,
/// both as UTF-8 bytes.
#[derive(Debug, Clone, PartialEq, Eq)]
pub struct Volume {
    pub source: Vec<u8>,
    pub destination: Vec<u8>,
}

impl View for Volume {
    type V = (Seq<u8>, Seq<u8>);

    open spec fn view(&self) -> (Seq<u8>, Seq<u8>) {
        (self.source@, self.destination@)
    }
}

/// True when `i` is the position of the only colon in `s`, with a non-empty
/// origin before it and a non-empty destination after it.
pub open spec fn volume_split_at(s: Seq<u8>, i: int) -> bool {
    &&& 0 < i < s.len() - 1
    &&& s[i] == VOLUME_SEPARATOR
    &&& forall|j: int| 0 <= j < s.len() && j != i ==> s[j] != VOLUME_SEPARATOR
}

/// A volume argument is well formed when it splits as `ORIGIN:DESTINATION`.
pub open spec fn volume_well_formed(s: Seq<u8>) -> bool {
    exists|i: int| volume_split_at(s, i)
}

/// Splits one `ORIGIN:DESTINATION` argument. Fails with a user error when the
/// argument has no colon, more than one colon, or an empty origin or
/// destination.
pub fn parse_volume(s: &Vec<u8>) -> (r: Result<Volume, CmdErr>)
    ensures
        r is Ok <==> volume_well_formed(s@),
        r matches Ok(v) ==> exists|i: int|
            volume_split_at(s@, i) && v@.0 == s@.subrange(0, i) && v@.1 == s@.subrange(
                i + 1,
                s@.len() as int,
            ),
        r matches Err(e) ==> e.kind is User && e.message@ == "Volume should be origin:destination"@
            && e.secondary is None,
{
    let n = s.len();
    let mut first: Option<usize> = None;
    let mut more_than_one: bool = false;
    let mut i: usize = 0;
    while i < n
        invariant
            n == s@.len(),
            i <= n,
            match first {
                None => !more_than_one && forall|j: int| 0 <= j < i ==> s@[j] != VOLUME_SEPARATOR,
                Some(f) => f < i && s@[f as int] == VOLUME_SEPARATOR && (forall|j: int|
                    0 <= j < f ==> s@[j] != VOLUME_SEPARATOR) && (more_than_one <==> exists|j: int|
                    f < j < i && s@[j] == VOLUME_SEPARATOR),
            },
        decreases n - i,
    {
        if s[i] == VOLUME_SEPARATOR {
            match first {
                None => {
                    first = Some(i);
                },
                Some(_) => {
                    more_than_one = true;
                },
            }
        }
        i = i + 1;
    }
    match first {
        Some(f) => {
            if !more_than_one && f > 0 && f + 1 < n {
                let v = Volume { source: subvec(s, 0, f), destination: subvec(s, f + 1, n) };
                proof {
                    assert(volume_split_at(s@, f as int));
                }
                Ok(v)
            } else {
                proof {
                    assert(!volume_well_formed(s@)) by {
                        if more_than_one {
                            let j = choose|j: int| f < j < n && s@[j] == VOLUME_SEPARATOR;
                            assert(forall|i2: int| volume_split_at(s@, i2) ==> i2 == f && i2 == j);
                        }
                    }
                }
                Err(CmdErr::user("Volume should be origin:destination"))
            }
        },
        None => {
            proof {
                assert(!volume_well_formed(s@));
            }
            Err(CmdErr::user("Volume should be origin:destination"))
        },
    }
}

/// Validates every `--volume` argument before any staging begins: returns the
/// parsed bindings exactly when all arguments are well formed, and the user
/// error for the first malformed argument otherwise.
pub fn validate_volumes(args: &Vec<Vec<u8>>) -> (r: Result<Vec<Volume>, CmdErr>)
    ensures
        r is Ok <==> (forall|k: int| 0 <= k < args@.len() ==> volume_well_formed(#[trigger] args@[k]@)),
        r matches Ok(vs) ==> vs@.len() == args@.len(),
        r matches Err(e) ==> e.kind is User && e.message@ == "Volume should be origin:destination"@,
{
    let mut out: Vec<Volume> = Vec::new();
    let n = args.len();
    let mut i: usize = 0;
    while i < n
        invariant
            n == args@.len(),
            i <= n,
            out@.len() == i,
            forall|k: int| 0 <= k < i ==> volume_well_formed(#[trigger] args@[k]@),
        decreases n - i,
    {
        match parse_volume(&args[i]) {
            Ok(v) => {
                out.push(v);
            },
            Err(e) => {
                return Err(e);
            },
        }
        i = i + 1;
    }
    Ok(out)
}

} // verus!
