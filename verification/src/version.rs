use vstd::prelude::*;

verus! {

/// The two variants of the format. `Gif89a` unless the file needs
/// nothing past the older feature set.
#[derive(Clone, Copy, Debug, PartialEq, Eq, Structural)]
pub enum Version {
    Gif87a,
    Gif89a,
}

/// The six magic bytes that open a file of this version:
/// `GIF87a` or `GIF89a` in ASCII.
pub open spec fn spec_version_bytes(v: Version) -> Seq<u8> {
    match v {
        Version::Gif87a => seq![0x47u8, 0x49, 0x46, 0x38, 0x37, 0x61],
        Version::Gif89a => seq![0x47u8, 0x49, 0x46, 0x38, 0x39, 0x61],
    }
}

impl Version {
    pub fn as_bytes(&self) -> (r: Vec<u8>)
        ensures
            r@ == spec_version_bytes(*self),
    {
        match self {
            Version::Gif87a => {
                let v: Vec<u8> = vec![0x47, 0x49, 0x46, 0x38, 0x37, 0x61];
                proof {
                    assert(v@ =~= spec_version_bytes(Version::Gif87a));
                }
                v
            },
            Version::Gif89a => {
                let v: Vec<u8> = vec![0x47, 0x49, 0x46, 0x38, 0x39, 0x61];
                proof {
                    assert(v@ =~= spec_version_bytes(Version::Gif89a));
                }
                v
            },
        }
    }
}

} // verus!
