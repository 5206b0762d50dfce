use vstd::prelude::*;

use crate::bytes::push_bytes;

verus! {

/// The storage root: the bytes of "files".
pub open spec fn root_dir() -> Seq<u8> {
    seq![0x66u8, 0x69, 0x6c, 0x65, 0x73]
}

/// The path separator, "/".
pub open spec fn sep() -> Seq<u8> {
    seq![0x2fu8]
}

/// The directory that holds one (owner, period) bucket:
/// files/<owner>/<period>.
pub open spec fn period_dir_spec(owner: Seq<u8>, period: Seq<u8>) -> Seq<u8> {
    root_dir() + sep() + owner + sep() + period
}

/// The path of one stored attachment:
/// files/<owner>/<period>/<filename>.
pub open spec fn file_path_spec(owner: Seq<u8>, period: Seq<u8>, name: Seq<u8>) -> Seq<u8> {
    period_dir_spec(owner, period) + sep() + name
}

/// Builds the bucket directory path for an owner and period.
pub fn period_dir(owner: &Vec<u8>, period: &Vec<u8>) -> (r: Vec<u8>)
    ensures
        r@ == period_dir_spec(owner@, period@),
{
    let mut out: Vec<u8> = Vec::new();
    out.push(0x66);
    out.push(0x69);
    out.push(0x6c);
    out.push(0x65);
    out.push(0x73);
    out.push(0x2f);
    push_bytes(&mut out, owner);
    out.push(0x2f);
    push_bytes(&mut out, period);
    proof {
        assert(out@ =~= period_dir_spec(owner@, period@));
    }
    out
}

/// Builds the full storage path for one attachment.
pub fn file_path(owner: &Vec<u8>, period: &Vec<u8>, name: &Vec<u8>) -> (r: Vec<u8>)
    ensures
        r@ == file_path_spec(owner@, period@, name@),
{
    let mut out = period_dir(owner, period);
    out.push(0x2f);
    push_bytes(&mut out, name);
    proof {
        assert(out@ =~= file_path_spec(owner@, period@, name@));
    }
    out
}

} // verus!
